use guitar::batcher::Batcher;
use guitar::oids::Oid;

fn oid(byte: u8) -> Oid {
    Oid::from_bytes([byte; 20])
}

#[test]
fn next_into_appends_pages_without_replacing_existing_output() {
    let (first, second, third) = (oid(1), oid(2), oid(3));
    let sentinel = Oid::zero();
    let mut batcher = Batcher::new(vec![third, second, first]);
    let mut out = vec![sentinel];

    assert_eq!(batcher.next_into(2, &mut out), 2);
    assert_eq!(batcher.next_into(2, &mut out), 1);
    assert_eq!(batcher.next_into(2, &mut out), 0);

    assert_eq!(out, vec![sentinel, third, second, first]);
}

#[test]
fn pages_come_off_the_front_in_order() {
    let mut batcher = Batcher::new(vec![oid(1), oid(2), oid(3)]);
    assert_eq!(batcher.next(0), Vec::<Oid>::new());
    assert_eq!(batcher.next(2), vec![oid(1), oid(2)]);
    assert_eq!(batcher.reset::<String>(Ok(vec![oid(9)])), Ok(()));
    assert_eq!(batcher.next(5), vec![oid(9)]);
    assert_eq!(batcher.next(5), Vec::<Oid>::new());
}

#[test]
fn tips_skip_hidden_branches_and_repeated_roots() {
    let branches = vec![("main".to_string(), oid(1)), ("wip".to_string(), oid(2)), ("origin/main".to_string(), oid(1))];
    let mut hidden = im::HashSet::new();
    hidden.insert("wip".to_string());
    let tips = Batcher::tips(&branches, &hidden, &[oid(2), oid(1), oid(3), oid(3)]);
    assert_eq!(tips, vec![oid(1), oid(1), oid(2), oid(3)]);
}

#[test]
fn a_failed_reset_keeps_the_queue() {
    let mut batcher = Batcher::new(vec![oid(1), oid(2), oid(3)]);
    assert_eq!(batcher.next(1), vec![oid(1)]);
    assert_eq!(batcher.reset(Err("walk failed".to_string())), Err("walk failed".to_string()));
    assert_eq!(batcher.next(5), vec![oid(2), oid(3)]);
}
