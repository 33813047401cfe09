//! What a game box holds, and whether its parts fit together.
//!
//! A box names images, and describes kinds of pieces by the images of their
//! faces. An image is a file, a part cut out of another image, or a grid of
//! cells laid over another image. The face of a piece is an image, or one
//! cell of a grid: `name@column,row`.

use vstd::prelude::*;
use vstd::string::*;

use crate::actionfunc::ActionFunc;
use crate::text::{begins_with, chars_of};

verus! {

/// Where an image comes from.
#[derive(Clone, Debug, PartialEq, Eq)]
pub enum ImageDefinition {
    /// A file of its own.
    File(String),
    /// The part of the image `src` that is `w` wide and `h` high, from
    /// `(x, y)` on.
    Crop { src: String, x: u32, y: u32, w: u32, h: u32 },
    /// `cols` by `rows` cells of the image `src`, each `cw` wide and `rh`
    /// high, from `(x, y)` on, with gaps of `cgap` and `rgap` between them.
    Grid {
        src: String,
        x: u32,
        y: u32,
        cols: u32,
        rows: u32,
        cw: u32,
        rh: u32,
        cgap: i32,
        rgap: i32,
    },
}

/// Something that a kind of piece can be asked to do, with the words that
/// offer it and the keys that ask for it.
#[derive(Clone, Debug, PartialEq, Eq)]
pub struct Action {
    pub label: String,
    pub action: ActionFunc,
    pub key: Option<String>,
}

/// A kind of piece.
#[derive(Clone, Debug, PartialEq, Eq)]
pub struct PieceType {
    pub name: String,
    /// The images of its faces.
    pub faces: Vec<String>,
    pub actions: Vec<Action>,
}

/// A game box as it was read, of which nothing is known. `S` is what lies
/// on the table before any piece; this library does not look at it.
pub struct MaybeGameBox<S> {
    /// The images by their names.
    pub images: Vec<(String, ImageDefinition)>,
    pub piece: Vec<PieceType>,
    pub surface: S,
}

/// A game box whose parts fit together.
pub struct GameBox<S> {
    pub images: Vec<(String, ImageDefinition)>,
    pub piece: Vec<PieceType>,
    pub surface: S,
}

/// The parts of a game box do not fit together.
#[derive(Clone, Copy, Debug, PartialEq, Eq, Structural)]
pub struct GameBoxError;

impl GameBoxError {
    /// What is shown for this error.
    pub fn message(&self) -> (r: String)
        ensures
            r@ == "Malformed gamebox data"@,
    {
        String::from_str("Malformed gamebox data")
    }
}

/// Whether an image is named `name`.
pub open spec fn defined(images: Seq<(String, ImageDefinition)>, name: Seq<char>) -> bool {
    exists|i: int| 0 <= i < images.len() && (#[trigger] images[i]).0@ == name
}

/// Where the last `@` of `face` stands, or the length of `face` if it has none.
pub open spec fn cell_mark(face: Seq<char>) -> int
    decreases face.len(),
{
    if face.len() == 0 {
        0
    } else if face.last() == '@' {
        face.len() - 1
    } else if cell_mark(face.drop_last()) == face.len() - 1 {
        face.len() as int
    } else {
        cell_mark(face.drop_last())
    }
}

/// The name of the image of a face: what stands before the last `@`, or all
/// of it if there is none.
pub open spec fn image_of(face: Seq<char>) -> Seq<char> {
    face.take(cell_mark(face))
}

/// The name of the image from which `image` is taken, if it is taken from one.
pub open spec fn source_of(image: ImageDefinition) -> Option<Seq<char>> {
    match image {
        ImageDefinition::File(_) => None,
        ImageDefinition::Crop { src, .. } => Some(src@),
        ImageDefinition::Grid { src, .. } => Some(src@),
    }
}

/// Whether the image of every face of `piece` is named.
pub open spec fn faces_defined(images: Seq<(String, ImageDefinition)>, piece: PieceType) -> bool {
    forall|f: int|
        0 <= f < piece.faces@.len() ==> defined(images, image_of((#[trigger] piece.faces@[f])@))
}

/// Whether the image of every face of every kind of piece is named, and
/// every image that is taken from another is taken from one that is named.
pub open spec fn fits(images: Seq<(String, ImageDefinition)>, pieces: Seq<PieceType>) -> bool {
    &&& forall|p: int| 0 <= p < pieces.len() ==> faces_defined(images, #[trigger] pieces[p])
    &&& forall|i: int|
        0 <= i < images.len() ==> (source_of((#[trigger] images[i]).1) matches Some(src)
            ==> defined(images, src))
}

/// Where the last `@` of `face` stands, or the length of `face` if it has none.
fn find_cell_mark(face: &Vec<char>) -> (k: usize)
    ensures
        k == cell_mark(face@),
        k <= face.len(),
{
    let mut k: usize = face.len();
    let mut i: usize = 0;
    while i < face.len()
        invariant
            i <= face.len(),
            0 <= cell_mark(face@.take(i as int)) <= i,
            k == (if cell_mark(face@.take(i as int)) == i {
                face.len() as int
            } else {
                cell_mark(face@.take(i as int))
            }),
        decreases face.len() - i,
    {
        assert(face@.take(i + 1).drop_last() =~= face@.take(i as int));
        if face[i] == '@' {
            k = i;
        }
        i += 1;
    }
    assert(face@.take(i as int) =~= face@);
    k
}

/// Whether one of `names` is the first `k` characters of `face`.
fn names_prefix(names: &Vec<Vec<char>>, face: &Vec<char>, k: usize) -> (r: bool)
    requires
        k <= face.len(),
    ensures
        r == exists|i: int| 0 <= i < names.len() && (#[trigger] names[i])@ == face@.take(k as int),
{
    let mut i: usize = 0;
    while i < names.len()
        invariant
            i <= names.len(),
            k <= face.len(),
            forall|j: int| 0 <= j < i ==> (#[trigger] names[j])@ != face@.take(k as int),
        decreases names.len() - i,
    {
        if names[i].len() == k && begins_with(face, &names[i]) {
            return true;
        }
        i += 1;
    }
    false
}

/// The mark is where the last `@` stands: an `@` stands there and none
/// after it; or it is the length, and there is no `@` at all.
pub proof fn lemma_cell_mark(face: Seq<char>)
    ensures
        0 <= cell_mark(face) <= face.len(),
        cell_mark(face) < face.len() ==> face[cell_mark(face)] == '@',
        forall|j: int| cell_mark(face) < j < face.len() ==> face[j] != '@',
        cell_mark(face) == face.len() ==> forall|j: int| 0 <= j < face.len() ==> face[j] != '@',
    decreases face.len(),
{
    if face.len() > 0 {
        lemma_cell_mark(face.drop_last());
        assert forall|j: int| 0 <= j < face.len() - 1 implies face[j] == face.drop_last()[j] by {}
    }
}

impl<S> GameBox<S> {
    /// The game box that was read, if its parts fit together.
    pub fn try_from(m: MaybeGameBox<S>) -> (r: Result<GameBox<S>, GameBoxError>)
        ensures
            match r {
                Ok(g) => {
                    &&& fits(m.images@, m.piece@)
                    &&& g.images == m.images
                    &&& g.piece == m.piece
                    &&& g.surface == m.surface
                },
                Err(_) => !fits(m.images@, m.piece@),
            },
    {
        // The names of the images, character by character.
        let mut names: Vec<Vec<char>> = Vec::new();
        let mut i: usize = 0;
        while i < m.images.len()
            invariant
                i <= m.images.len(),
                names.len() == i,
                forall|j: int| 0 <= j < i ==> (#[trigger] names[j])@ == m.images@[j].0@,
            decreases m.images.len() - i,
        {
            names.push(chars_of(m.images[i].0.as_str()));
            i += 1;
        }
        assert forall|name: Seq<char>|
            defined(m.images@, name) == exists|j: int|
                0 <= j < names.len() && (#[trigger] names[j])@ == name by {
            if defined(m.images@, name) {
                let j = choose|j: int| 0 <= j < m.images@.len() && (#[trigger] m.images@[j]).0@ == name;
                assert(names[j]@ == name);
            }
            if exists|j: int| 0 <= j < names.len() && (#[trigger] names[j])@ == name {
                let j = choose|j: int| 0 <= j < names.len() && (#[trigger] names[j])@ == name;
                assert(m.images@[j].0@ == name);
            }
        }
        // Every face of every kind of piece is an image that is named.
        let mut p: usize = 0;
        while p < m.piece.len()
            invariant
                p <= m.piece.len(),
                forall|name: Seq<char>|
                    defined(m.images@, name) == exists|j: int|
                        0 <= j < names.len() && (#[trigger] names[j])@ == name,
                forall|q: int| 0 <= q < p ==> faces_defined(m.images@, #[trigger] m.piece@[q]),
            decreases m.piece.len() - p,
        {
            let piece = &m.piece[p];
            let mut f: usize = 0;
            while f < piece.faces.len()
                invariant
                    f <= piece.faces.len(),
                    p < m.piece.len(),
                    *piece == m.piece@[p as int],
                    forall|name: Seq<char>|
                        defined(m.images@, name) == exists|j: int|
                            0 <= j < names.len() && (#[trigger] names[j])@ == name,
                    forall|g: int|
                        0 <= g < f ==> defined(
                            m.images@,
                            image_of((#[trigger] piece.faces@[g])@),
                        ),
                decreases piece.faces.len() - f,
            {
                let face = chars_of(piece.faces[f].as_str());
                let k = find_cell_mark(&face);
                if !names_prefix(&names, &face, k) {
                    assert(!defined(m.images@, image_of(piece.faces@[f as int]@)));
                    assert(!faces_defined(m.images@, m.piece@[p as int]));
                    return Err(GameBoxError);
                }
                f += 1;
            }
            p += 1;
        }
        // Every image that is taken from another is taken from one that is named.
        let mut i: usize = 0;
        while i < m.images.len()
            invariant
                i <= m.images.len(),
                forall|name: Seq<char>|
                    defined(m.images@, name) == exists|j: int|
                        0 <= j < names.len() && (#[trigger] names[j])@ == name,
                forall|j: int|
                    0 <= j < i ==> (source_of((#[trigger] m.images@[j]).1) matches Some(src)
                        ==> defined(m.images@, src)),
            decreases m.images.len() - i,
        {
            let found = match &m.images[i].1 {
                ImageDefinition::File(_) => true,
                ImageDefinition::Crop { src, .. } => {
                    let s = chars_of(src.as_str());
                    assert(s@.take(s.len() as int) =~= s@);
                    names_prefix(&names, &s, s.len())
                },
                ImageDefinition::Grid { src, .. } => {
                    let s = chars_of(src.as_str());
                    assert(s@.take(s.len() as int) =~= s@);
                    names_prefix(&names, &s, s.len())
                },
            };
            if !found {
                return Err(GameBoxError);
            }
            i += 1;
        }
        Ok(GameBox { images: m.images, piece: m.piece, surface: m.surface })
    }
}

} // verus!
