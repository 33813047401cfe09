use tabletop::action::{Action, PieceData};
use tabletop::actions::Observer;
use tabletop::log::ActionLog;
use tabletop::table::Table;

fn shared<T: Send + Sync + 'static>() {}

#[test]
fn library_types_can_be_shared() {
    shared::<Observer>();
    shared::<Vec<Observer>>();
    shared::<Table>();
    shared::<ActionLog>();
    shared::<Action>();
    shared::<PieceData>();
}
