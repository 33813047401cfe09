use tabletop::actionfunc::ActionFunc;
use tabletop::gamebox::{Action, GameBox, GameBoxError, ImageDefinition, MaybeGameBox, PieceType};

fn file(name: &str) -> (String, ImageDefinition) {
    (name.to_string(), ImageDefinition::File(format!("{name}.png")))
}

fn crop(name: &str, src: &str) -> (String, ImageDefinition) {
    (name.to_string(), ImageDefinition::Crop { src: src.to_string(), x: 1, y: 2, w: 3, h: 4 })
}

fn grid(name: &str, src: &str) -> (String, ImageDefinition) {
    (
        name.to_string(),
        ImageDefinition::Grid { src: src.to_string(), x: 0, y: 0, cols: 2, rows: 3, cw: 10, rh: 20, cgap: 1, rgap: -1 },
    )
}

fn piece(name: &str, faces: &[&str]) -> PieceType {
    PieceType {
        name: name.to_string(),
        faces: faces.iter().map(|f| f.to_string()).collect(),
        actions: vec![Action { label: "Flip".to_string(), action: ActionFunc::Flip(1), key: Some("]".to_string()) }],
    }
}

fn check(images: Vec<(String, ImageDefinition)>, piece: Vec<PieceType>) -> bool {
    let kept = (images.clone(), piece.clone());
    match GameBox::try_from(MaybeGameBox { images, piece, surface: "felt" }) {
        Ok(g) => {
            assert_eq!((g.images, g.piece), kept);
            assert_eq!(g.surface, "felt");
            true
        },
        Err(GameBoxError) => false,
    }
}

#[test]
fn empty_box_fits() {
    assert!(check(vec![], vec![]));
}

#[test]
fn faces_that_are_images_fit() {
    assert!(check(vec![file("front"), file("back")], vec![piece("card", &["front", "back"])]));
    assert!(check(vec![file("front"), file("back")], vec![piece("card", &["front", "front"]), piece("blank", &[])]));
}

#[test]
fn face_without_an_image_does_not_fit() {
    assert!(!check(vec![file("front")], vec![piece("card", &["front", "back"])]));
    assert!(!check(vec![], vec![piece("card", &["front"])]));
    assert!(!check(vec![file("front")], vec![piece("card", &["front"]), piece("other", &["Front"])]));
    assert!(!check(vec![file("front")], vec![piece("card", &["fron"])]));
    assert!(!check(vec![file("front")], vec![piece("card", &["front "])]));
    assert!(!check(vec![file("front")], vec![piece("card", &[""])]));
}

#[test]
fn face_that_is_a_cell_goes_by_the_name_before_the_mark() {
    let images = || vec![file("sheet"), grid("cards", "sheet")];
    assert!(check(images(), vec![piece("card", &["cards@0,0", "cards@1,2"])]));
    assert!(check(images(), vec![piece("card", &["cards@", "sheet@x"])]));
    assert!(!check(images(), vec![piece("card", &["card@0,0"])]));
    assert!(!check(images(), vec![piece("card", &["@cards"])]));
}

#[test]
fn the_last_mark_counts() {
    let images = vec![file("a@b"), file("a")];
    assert!(check(images.clone(), vec![piece("p", &["a@b@c"])]));
    assert!(check(images.clone(), vec![piece("p", &["a@b"])]));
    assert!(!check(images.clone(), vec![piece("p", &["a@b@c@d"])]));
    assert!(!check(vec![file("a@b")], vec![piece("p", &["a@b"])]));
    assert!(check(vec![file("")], vec![piece("p", &["@x"])]));
}

#[test]
fn images_taken_from_images_fit() {
    assert!(check(vec![file("sheet"), crop("corner", "sheet"), grid("cells", "sheet")], vec![]));
    assert!(check(vec![crop("corner", "sheet"), file("sheet")], vec![]));
    assert!(check(vec![file("sheet"), crop("corner", "sheet"), crop("dot", "corner")], vec![]));
    assert!(check(vec![crop("self", "self")], vec![]));
}

#[test]
fn image_taken_from_nothing_does_not_fit() {
    assert!(!check(vec![file("sheet"), crop("corner", "shee")], vec![]));
    assert!(!check(vec![file("sheet"), grid("cells", "sheets")], vec![]));
    assert!(!check(vec![crop("corner", "sheet")], vec![]));
    assert!(!check(vec![file("sheet"), crop("corner", "sheet"), grid("cells", "")], vec![piece("p", &["sheet"])]));
    // The source is a name, with no mark read out of it.
    assert!(!check(vec![file("sheet"), crop("corner", "sheet@0,0")], vec![]));
}

#[test]
fn error_is_shown() {
    assert_eq!(GameBoxError.message(), "Malformed gamebox data");
}
