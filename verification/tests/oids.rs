use guitar::oids::{Oid, Oids};

fn oid_with_prefix(prefix: u64, suffix: u64) -> Oid {
    let mut bytes = [0u8; 20];
    bytes[..8].copy_from_slice(&prefix.to_be_bytes());
    bytes[8..16].copy_from_slice(&suffix.to_be_bytes());
    bytes[16..20].copy_from_slice(&(suffix as u32).wrapping_mul(2_654_435_761).to_be_bytes());
    Oid::from_bytes(bytes)
}

#[test]
fn aliases_are_stable_for_repeated_oid() {
    let mut oids = Oids::default();
    let oid = oid_with_prefix(1, 10);

    let first = oids.get_alias_by_oid(oid);
    let second = oids.get_alias_by_oid(oid);

    assert_eq!(first, second);
    assert_eq!(oids.get_oid_by_alias(first), &oid);
    assert_eq!(oids.oids.len(), 1);
}

#[test]
fn aliases_keep_distinct_oids_with_shared_prefix() {
    let mut oids = Oids::default();
    let first_oid = oid_with_prefix(1, 10);
    let second_oid = oid_with_prefix(1, 20);

    let first = oids.get_alias_by_oid(first_oid);
    let second = oids.get_alias_by_oid(second_oid);

    assert_ne!(first, second);
    assert_eq!(oids.get_alias_by_oid(first_oid), first);
    assert_eq!(oids.get_alias_by_oid(second_oid), second);
    assert_eq!(oids.get_oid_by_alias(first), &first_oid);
    assert_eq!(oids.get_oid_by_alias(second), &second_oid);
}

#[test]
fn aliases_with_unique_fingerprints_do_not_allocate_collision_buckets() {
    let mut oids = Oids::default();

    for prefix in 1..=16 {
        oids.get_alias_by_oid(oid_with_prefix(prefix, 10));
    }

    assert_eq!(oids.oids.len(), 16);
    assert_eq!(oids.collision_bucket_count(), 0);
}

#[test]
fn missing_alias_lookup_returns_none() {
    let mut oids = Oids::default();
    let present = oid_with_prefix(1, 10);
    let missing = oid_with_prefix(1, 20);

    oids.get_alias_by_oid(present);

    assert_eq!(oids.get_existing_alias(missing), None);
}

#[test]
fn aliases_count_up_from_zero_in_order_of_first_sight() {
    let mut oids = Oids::default();
    let a = oid_with_prefix(7, 1);
    let b = oid_with_prefix(8, 2);
    assert_eq!(oids.get_alias_by_oid(a), 0);
    assert_eq!(oids.get_alias_by_oid(b), 1);
    assert_eq!(oids.get_alias_by_oid(a), 0);
    assert_eq!(oids.get_existing_alias(b), Some(1));
    assert_eq!(oids.get_oid_by_alias(1), &b);
    assert_eq!(oids.get_oid_by_idx(1), &Oid::zero());
}

#[test]
fn colliding_fingerprints_share_a_bucket() {
    let mut oids = Oids::default();
    let first = oid_with_prefix(5, 1);
    let second = oid_with_prefix(5, 2);
    let third = oid_with_prefix(5, 3);
    assert_eq!(oids.get_alias_by_oid(first), 0);
    assert_eq!(oids.get_alias_by_oid(second), 1);
    assert_eq!(oids.get_alias_by_oid(third), 2);
    assert_eq!(oids.collision_bucket_count(), 1);
    assert_eq!(oids.get_existing_alias(third), Some(2));
    assert_eq!(oids.get_existing_alias(oid_with_prefix(5, 4)), None);
}

#[test]
fn bytes_round_trip_through_an_oid() {
    let mut bytes = [0u8; 20];
    for (i, byte) in bytes.iter_mut().enumerate() {
        *byte = (i as u8) * 13 + 1;
    }
    let oid = Oid::from_bytes(bytes);
    assert_eq!(oid.as_bytes(), bytes);
    assert!(!oid.is_zero());
    assert!(Oid::zero().is_zero());
    assert_eq!(oid.prefix, 0x010e_1b28_3542_4f5c);
}

#[test]
fn the_sorted_aliases_start_with_the_uncommitted_row() {
    let mut oids = Oids::default();
    assert_eq!(oids.get_sorted_aliases(), &vec![u32::MAX]);
    let oid = oid_with_prefix(3, 3);
    let alias = oids.get_alias_by_oid(oid);
    oids.append_sorted_alias(alias);
    assert_eq!(oids.get_commit_count(), 2);
    assert_eq!(oids.get_alias_by_idx(1), alias);
    assert_eq!(oids.get_oid_by_idx(1), &oid);
}

#[test]
fn a_run_of_lookups_numbers_ids_by_first_sight_even_when_prefixes_collide() {
    let mut oids = Oids::default();
    let ids: Vec<Oid> = (0..12u64).map(|k| oid_with_prefix(1, k % 10)).collect();
    let aliases: Vec<u32> = ids.iter().map(|id| oids.get_alias_by_oid(*id)).collect();
    for i in 0..ids.len() {
        for j in 0..ids.len() {
            assert_eq!(aliases[i] == aliases[j], ids[i] == ids[j]);
        }
        assert_eq!(*oids.get_oid_by_alias(aliases[i]), ids[i]);
        assert_eq!(oids.get_existing_alias(ids[i]), Some(aliases[i]));
    }
    assert_eq!(aliases, vec![0, 1, 2, 3, 4, 5, 6, 7, 8, 9, 0, 1]);
    assert_eq!(oids.oids.len(), 10);
}
