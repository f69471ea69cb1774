use guitar::buffer::{Buffer, DeltaOp, GraphSnapshot, UpdateOutcome};
use guitar::chunk::{Chunk, LaneRef, NONE};

fn lanes(buffer: &Buffer) -> Vec<Chunk> {
    buffer.curr().iter().cloned().collect()
}

#[test]
fn a_linear_history_stays_in_one_lane() {
    let mut buffer = Buffer::default();
    let first = buffer.update(Chunk::new(1, 2, NONE));
    assert_eq!(first, UpdateOutcome { lane: LaneRef::new(0, false), started_lane: true });
    let second = buffer.update(Chunk::new(2, 3, NONE));
    assert_eq!(second, UpdateOutcome { lane: LaneRef::new(0, false), started_lane: false });
    assert_eq!(lanes(&buffer), vec![Chunk::new(2, 3, NONE)]);

    let window = buffer.window(0, 2);
    assert_eq!(window.len(), 1);
    assert_eq!(window[0].lanes.iter().cloned().collect::<Vec<_>>(), vec![Chunk::new(1, 2, NONE)]);
}

#[test]
fn a_second_tip_starts_a_lane_beside_the_first() {
    let mut buffer = Buffer::default();
    buffer.update(Chunk::new(10, 11, NONE));
    let tip = buffer.update(Chunk::new(20, 21, NONE));
    assert_eq!(tip, UpdateOutcome { lane: LaneRef::new(1, false), started_lane: true });
    let next = buffer.update(Chunk::new(11, 30, NONE));
    assert_eq!(next.lane, LaneRef::new(0, false));
    assert_eq!(lanes(&buffer), vec![Chunk::new(11, 30, NONE), Chunk::new(20, 21, NONE)]);
}

#[test]
fn lanes_past_the_limit_fold_into_a_flattened_lane() {
    let mut buffer = Buffer::with_lane_limit(1);
    assert_eq!(buffer.lane_limit(), Some(1));
    let first = buffer.update(Chunk::new(10, 11, NONE));
    assert_eq!(first.lane, LaneRef::new(0, false));
    let second = buffer.update(Chunk::new(20, 21, NONE));
    assert_eq!(second, UpdateOutcome { lane: LaneRef::new(0, true), started_lane: true });
    assert_eq!(lanes(&buffer), vec![Chunk { alias: 20, parent_a: 21, parent_b: 11, is_flattened: true }]);
    assert_eq!(buffer.compressed_parents().iter().cloned().collect::<Vec<_>>(), vec![21, 11]);
}

#[test]
fn a_zero_limit_still_keeps_one_lane() {
    let buffer = Buffer::with_lane_limit(0);
    assert_eq!(buffer.lane_limit(), Some(1));
}

#[test]
fn windows_replay_from_the_nearest_checkpoint() {
    let mut buffer = Buffer::default();
    for alias in 1..=150u32 {
        buffer.update(Chunk::new(alias, alias + 1, NONE));
    }
    let window = buffer.window(120, 122);
    assert_eq!(window.len(), 21);
    assert_eq!(window[20].lanes.iter().cloned().collect::<Vec<_>>(), vec![Chunk::new(121, 122, NONE)]);
    assert_eq!(buffer.deltas().len(), 150);
}

#[test]
fn an_expired_lane_empties_at_the_next_update() {
    let mut buffer = Buffer::default();
    buffer.update(Chunk::new(10, 11, NONE));
    buffer.update(Chunk::new(20, 21, NONE));
    buffer.expire_lane_after_snapshot(0);
    buffer.update(Chunk::new(21, 22, NONE));
    assert_eq!(lanes(&buffer), vec![Chunk::dummy(), Chunk::new(21, 22, NONE)]);
}

#[test]
fn chunks_know_their_parents() {
    let mut chunk = Chunk::new(1, 2, 3);
    assert!(chunk.has_parent(2) && chunk.has_parent(3) && !chunk.has_parent(NONE));
    assert!(chunk.remove_parent(2));
    assert!(!chunk.remove_parent(2));
    assert_eq!(chunk.parent_aliases(), [NONE, 3]);
    assert!(Chunk::dummy().is_dummy() && !Chunk::dummy().has_any_parent());
}

#[test]
fn windows_start_at_the_nearest_checkpoint_in_a_long_history() {
    let mut buffer = Buffer::default();
    for alias in 1..=7000u32 {
        buffer.update(Chunk::new(alias, alias + 1, NONE));
    }
    let window = buffer.window(6450, 6452);
    assert_eq!(window.len(), 6452 - 6401);
    assert_eq!(window[0].lanes.iter().cloned().collect::<Vec<_>>(), vec![Chunk::new(6401, 6402, NONE)]);
    assert_eq!(window[50].lanes.iter().cloned().collect::<Vec<_>>(), vec![Chunk::new(6451, 6452, NONE)]);
}

#[test]
fn emptying_an_expired_lane_is_recorded_as_a_replace() {
    let mut buffer = Buffer::default();
    buffer.update(Chunk::new(10, 11, NONE));
    buffer.update(Chunk::new(20, 21, NONE));
    buffer.expire_lane_after_snapshot(0);
    buffer.update(Chunk::new(21, 22, NONE));
    assert_eq!(buffer.delta().ops[0], DeltaOp::Replace { index: 0, new: Chunk::dummy() });
}

#[test]
fn snapshots_compare_by_their_lanes_and_parents() {
    let empty = GraphSnapshot::default();
    assert_eq!(empty, GraphSnapshot::empty());
    let mut buffer = Buffer::default();
    buffer.update(Chunk::new(1, 2, NONE));
    buffer.update(Chunk::new(2, 3, NONE));
    let first = buffer.window(0, 2);
    let again = buffer.window(0, 2);
    assert_eq!(first[0], again[0]);
    assert_ne!(first[0], empty);
}
