use tabletop::action::{Action, ActionError, PieceData};
use tabletop::actionfunc::ActionFunc;
use tabletop::actions::trigger_action;
use tabletop::angle::Angle;
use tabletop::event::{Event, FlipEvent, RotateEvent};
use tabletop::log::{handle_do, handle_redo, handle_undo, ActionLog};
use tabletop::object::{NextObjectId, ObjectId};
use tabletop::piece::{FaceUp, Piece};
use tabletop::table::Table;

fn pd(piece_id: u32, faces: usize, face_up: usize) -> PieceData {
    PieceData { piece_id, faces, face_up }
}

fn piece(id: u32, faces: usize, up: usize) -> Piece {
    Piece { id, faces, up: FaceUp(up) }
}

fn table_with(pieces: &[PieceData]) -> Table {
    let mut table = Table::new();
    let mut events = Vec::new();
    for p in pieces {
        Action::Create(*p).commit(&mut table, &mut events).unwrap();
    }
    table
}

#[test]
fn log_starts_empty() {
    let log = ActionLog::new();
    assert!(log.done().is_empty());
    assert!(log.undone().is_empty());
}

#[test]
fn do_commits_and_records() {
    let mut log = ActionLog::new();
    let mut table = table_with(&[pd(7, 4, 0)]);
    let mut events = Vec::new();
    assert_eq!(handle_do(&mut log, &mut table, Action::Flip(7, 1), &mut events), Ok(()));
    assert_eq!(table.piece(7), Ok(piece(7, 4, 1)));
    assert_eq!(log.done(), &vec![Action::Flip(7, 1)]);
    assert!(log.undone().is_empty());
    assert_eq!(events, vec![Event::Flip(FlipEvent { entity: 0, delta: 1 })]);
}

#[test]
fn linear_history() {
    let mut log = ActionLog::new();
    let mut table = table_with(&[pd(7, 4, 0)]);
    let mut events = Vec::new();
    handle_do(&mut log, &mut table, Action::Flip(7, 1), &mut events).unwrap();
    handle_do(&mut log, &mut table, Action::Flip(7, 2), &mut events).unwrap();
    handle_undo(&mut log, &mut table, &mut events).unwrap();
    assert_eq!(log.undone(), &vec![Action::Flip(7, 2)]);
    handle_do(&mut log, &mut table, Action::Rotate(7, 5), &mut events).unwrap();
    assert_eq!(log.done(), &vec![Action::Flip(7, 1), Action::Rotate(7, 5)]);
    assert!(log.undone().is_empty());
    // Nothing is left to do again.
    assert_eq!(handle_redo(&mut log, &mut table, &mut events), Ok(()));
    assert_eq!(log.done(), &vec![Action::Flip(7, 1), Action::Rotate(7, 5)]);
    assert_eq!(table.piece(7), Ok(piece(7, 4, 1)));
}

#[test]
fn undo_of_nothing_is_nothing() {
    let mut log = ActionLog::new();
    let mut table = table_with(&[pd(7, 4, 0)]);
    let mut events = Vec::new();
    assert_eq!(handle_undo(&mut log, &mut table, &mut events), Ok(()));
    assert!(log.done().is_empty());
    assert!(log.undone().is_empty());
    assert!(events.is_empty());
    assert_eq!(table.piece(7), Ok(piece(7, 4, 0)));
}

#[test]
fn redo_of_nothing_is_nothing() {
    let mut log = ActionLog::new();
    let mut table = table_with(&[pd(7, 4, 0)]);
    let mut events = Vec::new();
    handle_do(&mut log, &mut table, Action::Flip(7, 1), &mut events).unwrap();
    events.clear();
    assert_eq!(handle_redo(&mut log, &mut table, &mut events), Ok(()));
    assert_eq!(log.done(), &vec![Action::Flip(7, 1)]);
    assert!(log.undone().is_empty());
    assert!(events.is_empty());
    assert_eq!(table.piece(7), Ok(piece(7, 4, 1)));
}

#[test]
fn undo_and_redo_conserve_the_stacks() {
    let mut log = ActionLog::new();
    let mut table = table_with(&[pd(7, 5, 0)]);
    let mut events = Vec::new();
    for d in 1..=4 {
        handle_do(&mut log, &mut table, Action::Flip(7, d), &mut events).unwrap();
    }
    let done = || vec![Action::Flip(7, 1), Action::Flip(7, 2), Action::Flip(7, 3), Action::Flip(7, 4)];
    assert_eq!(log.done(), &done());
    let face = table.piece(7);

    // Back and forth, every step forth answering a step back.
    let steps = "uururuurrr";
    let mut depth = 0usize;
    for s in steps.chars() {
        if s == 'u' {
            handle_undo(&mut log, &mut table, &mut events).unwrap();
            depth += 1;
        } else {
            handle_redo(&mut log, &mut table, &mut events).unwrap();
            depth -= 1;
        }
        assert_eq!(log.done().len(), 4 - depth);
        assert_eq!(log.undone().len(), depth);
        assert_eq!(log.done()[..], done()[..4 - depth]);
        let mut undone: Vec<Action> = done().into_iter().skip(4 - depth).collect();
        undone.reverse();
        assert_eq!(log.undone(), &undone);
    }
    assert_eq!(log.done(), &done());
    assert!(log.undone().is_empty());
    assert_eq!(table.piece(7), face);
}

#[test]
fn undo_all_and_redo_all() {
    let mut log = ActionLog::new();
    let mut table = Table::new();
    let mut events = Vec::new();
    handle_do(&mut log, &mut table, Action::Create(pd(1, 3, 0)), &mut events).unwrap();
    handle_do(&mut log, &mut table, Action::Clone(2, 1), &mut events).unwrap();
    handle_do(&mut log, &mut table, Action::Flip(2, 1), &mut events).unwrap();
    handle_do(&mut log, &mut table, Action::Delete(pd(1, 3, 0)), &mut events).unwrap();
    for _ in 0..6 {
        handle_undo(&mut log, &mut table, &mut events).unwrap();
    }
    assert!(log.done().is_empty());
    assert_eq!(log.undone().len(), 4);
    assert_eq!(table.objmap().len(), 0);
    for _ in 0..6 {
        handle_redo(&mut log, &mut table, &mut events).unwrap();
    }
    assert_eq!(
        log.done(),
        &vec![Action::Create(pd(1, 3, 0)), Action::Clone(2, 1), Action::Flip(2, 1), Action::Delete(pd(1, 3, 0))]
    );
    assert!(log.undone().is_empty());
    assert!(!table.objmap().contains(1));
    assert_eq!(table.piece(2), Ok(piece(2, 3, 1)));
}

#[test]
fn failed_do_is_not_recorded() {
    let mut log = ActionLog::new();
    let mut table = table_with(&[pd(7, 4, 0)]);
    let mut events = Vec::new();
    handle_do(&mut log, &mut table, Action::Flip(7, 1), &mut events).unwrap();
    handle_do(&mut log, &mut table, Action::Flip(7, 1), &mut events).unwrap();
    handle_undo(&mut log, &mut table, &mut events).unwrap();
    events.clear();
    assert_eq!(handle_do(&mut log, &mut table, Action::Flip(9, 1), &mut events), Err(ActionError::UnknownObjectId(9)));
    // Nothing was done, so what was undone is still there to do again.
    assert_eq!(log.done(), &vec![Action::Flip(7, 1)]);
    assert_eq!(log.undone(), &vec![Action::Flip(7, 1)]);
    assert!(events.is_empty());
    assert_eq!(table.piece(7), Ok(piece(7, 4, 1)));
}

#[test]
fn failed_undo_leaves_the_action_done() {
    let mut log = ActionLog::new();
    let mut table = table_with(&[pd(7, 4, 0)]);
    let mut events = Vec::new();
    handle_do(&mut log, &mut table, Action::Flip(7, 1), &mut events).unwrap();
    // The piece leaves the table behind the back of the log.
    Action::Delete(pd(7, 4, 1)).commit(&mut table, &mut events).unwrap();
    events.clear();
    assert_eq!(handle_undo(&mut log, &mut table, &mut events), Err(ActionError::UnknownObjectId(7)));
    assert_eq!(log.done(), &vec![Action::Flip(7, 1)]);
    assert!(log.undone().is_empty());
    assert!(events.is_empty());
}

#[test]
fn failed_redo_leaves_the_action_undone() {
    let mut log = ActionLog::new();
    let mut table = table_with(&[pd(7, 4, 0)]);
    let mut events = Vec::new();
    handle_do(&mut log, &mut table, Action::Flip(7, 1), &mut events).unwrap();
    handle_undo(&mut log, &mut table, &mut events).unwrap();
    Action::Delete(pd(7, 4, 0)).commit(&mut table, &mut events).unwrap();
    events.clear();
    assert_eq!(handle_redo(&mut log, &mut table, &mut events), Err(ActionError::UnknownObjectId(7)));
    assert!(log.done().is_empty());
    assert_eq!(log.undone(), &vec![Action::Flip(7, 1)]);
    assert!(events.is_empty());
}

#[test]
fn end_to_end() {
    // Piece 7 has 4 faces and shows face 0.
    let mut log = ActionLog::new();
    let mut table = table_with(&[pd(7, 4, 0)]);
    let mut next = NextObjectId(8);
    let mut events = Vec::new();
    let flip = || Action::Flip(7, 1);
    let rotate = || Action::Rotate(7, 90.0f32.to_bits());

    trigger_action(ObjectId(7), ActionFunc::Flip(1), &mut log, &mut table, &mut next, &mut events).unwrap();
    assert_eq!(table.piece(7), Ok(piece(7, 4, 1)));
    assert_eq!(log.done(), &vec![flip()]);

    let quarter = Angle::new(90.0f32.to_bits()).unwrap();
    trigger_action(ObjectId(7), ActionFunc::Rotate(quarter), &mut log, &mut table, &mut next, &mut events).unwrap();
    assert_eq!(log.done(), &vec![flip(), rotate()]);
    assert_eq!(events.last(), Some(&Event::Rotate(RotateEvent { entity: 0, dtheta: 90.0f32.to_bits() })));

    handle_undo(&mut log, &mut table, &mut events).unwrap();
    assert_eq!(events.last(), Some(&Event::Rotate(RotateEvent { entity: 0, dtheta: (-90.0f32).to_bits() })));
    assert_eq!(log.done(), &vec![flip()]);
    assert_eq!(log.undone(), &vec![rotate()]);

    handle_undo(&mut log, &mut table, &mut events).unwrap();
    assert_eq!(table.piece(7), Ok(piece(7, 4, 0)));
    assert!(log.done().is_empty());
    assert_eq!(log.undone(), &vec![rotate(), flip()]);

    handle_redo(&mut log, &mut table, &mut events).unwrap();
    assert_eq!(table.piece(7), Ok(piece(7, 4, 1)));
    assert_eq!(log.done(), &vec![flip()]);
    assert_eq!(log.undone(), &vec![rotate()]);

    assert_eq!(next, NextObjectId(8));
}
