use tabletop::piece::{do_flip, FaceUp};

#[test]
fn flip_steps_forward() {
    assert_eq!(do_flip(FaceUp(0), 4, 1), FaceUp(1));
    assert_eq!(do_flip(FaceUp(1), 4, 2), FaceUp(3));
}

#[test]
fn flip_wraps_past_the_last_face() {
    assert_eq!(do_flip(FaceUp(3), 4, 1), FaceUp(0));
    assert_eq!(do_flip(FaceUp(2), 4, 7), FaceUp(1));
    assert_eq!(do_flip(FaceUp(0), 3, 3), FaceUp(0));
}

#[test]
fn flip_wraps_below_the_first_face() {
    assert_eq!(do_flip(FaceUp(0), 3, -1), FaceUp(2));
    assert_eq!(do_flip(FaceUp(2), 3, 1), FaceUp(0));
    assert_eq!(do_flip(FaceUp(1), 4, -6), FaceUp(3));
    assert_eq!(do_flip(FaceUp(0), 3, -3), FaceUp(0));
}

#[test]
fn flip_by_nothing_stays() {
    for up in 0..5 {
        assert_eq!(do_flip(FaceUp(up), 5, 0), FaceUp(up));
    }
}

#[test]
fn flip_of_a_piece_with_one_face_stays() {
    for delta in [i64::MIN, -7, -1, 0, 1, 7, i64::MAX] {
        assert_eq!(do_flip(FaceUp(0), 1, delta), FaceUp(0));
    }
}

#[test]
fn flip_agrees_with_the_remainder() {
    for faces in 1..12usize {
        for up in 0..faces {
            for delta in -40..40i64 {
                let expected = (up as i64 + delta).rem_euclid(faces as i64) as usize;
                assert_eq!(do_flip(FaceUp(up), faces, delta), FaceUp(expected));
            }
        }
    }
}

#[test]
fn flip_takes_the_largest_steps() {
    for faces in [1usize, 2, 3, 7, 1000, usize::MAX] {
        for up in [0usize, faces / 2, faces - 1] {
            for delta in [i64::MIN, i64::MIN + 1, i32::MIN as i64, -(i32::MIN as i64), i32::MAX as i64, i64::MAX - 1, i64::MAX] {
                let expected = (up as i128 + delta as i128).rem_euclid(faces as i128) as usize;
                assert_eq!(do_flip(FaceUp(up), faces, delta), FaceUp(expected), "{up} {faces} {delta}");
            }
        }
    }
}

#[test]
fn flip_and_flip_back() {
    for faces in [1usize, 2, 3, 4, 5, 13, usize::MAX] {
        for up in [0usize, faces / 3, faces - 1] {
            for delta in [i32::MIN as i64, -5, -1, 0, 1, 2, 100, i32::MAX as i64] {
                let there = do_flip(FaceUp(up), faces, delta);
                assert!(there.0 < faces);
                assert_eq!(do_flip(there, faces, -delta), FaceUp(up));
            }
        }
    }
}
