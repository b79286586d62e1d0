use qk::memo::memo_ident;
use qk::state::State;
use qk::tracking::DirtyTrackSet;

fn state(id: usize) -> State {
    State {
        id,
        name: "count".to_string(),
        ty: "i32".to_string(),
        expr: "0".to_string(),
        subscribers: std::collections::HashSet::new(),
    }
}

#[test]
fn names_that_go_with_a_state_cell() {
    let count = state(3);
    assert_eq!(count.type_def(), "count: i32");
    assert_eq!(count.tracked_type(), "RwTrack<i32>");
    assert_eq!(count.update_fn(), "update_count");
    let handle = count.track().unwrap();
    assert_eq!(handle.num, 3);
    let mut tracking: DirtyTrackSet<u8, u8> = DirtyTrackSet::default();
    handle.write(&mut tracking);
    handle.read(&mut tracking);
    assert_eq!(tracking.get_write(), 0b1000);
    assert_eq!(tracking.get_read(), 0b1000);
    assert!(state(255).track().is_some());
    assert!(state(256).track().is_none());
}

#[test]
fn derived_cells_are_named_by_their_slot() {
    assert_eq!(memo_ident(0), "memo_0");
    assert_eq!(memo_ident(12), "memo_12");
}
