use nphysics::contact::ContactIdentifier;
use nphysics::impulse_cache::ImpulseCache;

#[test]
fn new_cache_is_empty_with_one_block_of_zeros() {
    let cache = ImpulseCache::new(2, 3);
    assert_eq!(cache.len(), 0);
    assert_eq!(cache.reserved_impulse_offset(), 3);
    assert_eq!(cache.impulsions_at(0), &[0i64, 0, 0][..]);
    assert!(cache.hash().is_empty());
}

#[test]
fn insert_records_contact_with_zero_offset_when_new() {
    let mut cache = ImpulseCache::new(2, 1);
    cache.insert(7, 1, 2, vec![5, -5, 3]);
    assert_eq!(cache.len(), 1);
    // the center (5, -5, 3) on a grid of step 2 is the cell (2, -2, 1)
    let id = ContactIdentifier::new(1, 2, vec![4, -4, 2], &2);
    assert_eq!(cache.hash().find(&id), Some((7, 0)));
    // (6, -5, 3) lies in the cell (3, -2, 1): another contact
    let other = ContactIdentifier::new(1, 2, vec![6, -5, 3], &2);
    assert_eq!(cache.hash().find(&other), None);
}

#[test]
fn same_cell_is_one_contact() {
    let mut cache = ImpulseCache::new(10, 1);
    cache.insert(1, 3, 4, vec![11, 19]);
    cache.insert(2, 3, 4, vec![15, 10]);
    assert_eq!(cache.len(), 1);
    let id = ContactIdentifier::new(3, 4, vec![10, 10], &10);
    assert_eq!(cache.hash().find(&id), Some((2, 0)));
    // other objects: another contact
    cache.insert(3, 4, 3, vec![15, 10]);
    assert_eq!(cache.len(), 2);
}

#[test]
fn truncation_rounds_toward_zero() {
    let a = ContactIdentifier::new(0, 0, vec![-7], &2);
    let b = ContactIdentifier::new(0, 0, vec![-6], &2);
    let c = ContactIdentifier::new(0, 0, vec![-8], &2);
    assert!(a.same_contact(&b));
    assert!(!a.same_contact(&c));
    let d = ContactIdentifier::new(0, 0, vec![7], &-2);
    let e = ContactIdentifier::new(0, 0, vec![-6], &2);
    assert!(d.same_contact(&e));
    let f = ContactIdentifier::new(0, 0, vec![i64::MIN], &i64::MIN);
    let g = ContactIdentifier::new(0, 0, vec![1], &1);
    assert!(f.same_contact(&g));
    let h = ContactIdentifier::new(0, 0, vec![i64::MAX], &i64::MIN);
    let z = ContactIdentifier::new(0, 0, vec![0], &1);
    assert!(h.same_contact(&z));
}

#[test]
fn offset_is_carried_over_a_swap() {
    let mut cache = ImpulseCache::new(1, 2);
    cache.insert(0, 1, 2, vec![3, 4]);
    let offset = {
        let imps = cache.push_impulsions();
        imps[0] = 11;
        imps[1] = 12;
        2
    };
    {
        let map = cache.hash_mut();
        let v = map.value_at(0);
        map.set_value_at(0, (v.0, offset));
    }
    cache.swap();
    assert_eq!(cache.len(), 0);
    assert_eq!(cache.impulsions_at(offset), &[11i64, 12][..]);
    cache.insert(5, 1, 2, vec![3, 4]);
    let id = ContactIdentifier::new(1, 2, vec![3, 4], &1);
    assert_eq!(cache.hash().find(&id), Some((5, 2)));
    // a contact that the previous step did not hold starts at 0
    cache.insert(6, 1, 3, vec![3, 4]);
    let other = ContactIdentifier::new(1, 3, vec![3, 4], &1);
    assert_eq!(cache.hash().find(&other), Some((6, 0)));
}

#[test]
fn push_impulsions_hands_out_a_zero_block() {
    let mut cache = ImpulseCache::new(1, 3);
    {
        let block = cache.push_impulsions();
        assert_eq!(block, &[0i64, 0, 0][..]);
        block[2] = 9;
    }
    {
        let block = cache.push_impulsions();
        assert_eq!(block.len(), 3);
    }
    cache.swap();
    // the previous step holds the first block and the two pushed blocks
    assert_eq!(cache.impulsions_at(3), &[0i64, 0, 9][..]);
    assert_eq!(cache.impulsions_at(6), &[0i64, 0, 0][..]);
}

#[test]
fn swap_truncates_the_new_step_to_one_block() {
    let mut cache = ImpulseCache::new(1, 2);
    cache.push_impulsions();
    cache.swap();
    cache.push_impulsions();
    cache.swap();
    // the previous step is the block kept by the first swap plus one pushed block
    assert_eq!(cache.impulsions_at(2), &[0i64, 0][..]);
    cache.swap();
    assert_eq!(cache.impulsions_at(0), &[0i64, 0][..]);
}

#[test]
fn clear_forgets_contacts_and_keeps_one_more_zero() {
    let mut cache = ImpulseCache::new(1, 2);
    cache.insert(0, 1, 2, vec![0]);
    cache.swap();
    cache.insert(1, 1, 2, vec![0]);
    cache.clear();
    assert_eq!(cache.len(), 0);
    // after a clear, each side holds impulse_per_contact + 1 zeros
    assert_eq!(cache.impulsions_at(1), &[0i64, 0][..]);
    cache.insert(3, 1, 2, vec![0]);
    let id = ContactIdentifier::new(1, 2, vec![0], &1);
    assert_eq!(cache.hash().find(&id), Some((3, 0)));
}

#[test]
fn pushed_blocks_come_back_in_order_behind_the_reserved_block() {
    let k = 2;
    let mut cache = ImpulseCache::new(1, k);
    cache.swap();
    for b in 0..3i64 {
        let block = cache.push_impulsions();
        block[0] = 10 * b + 1;
        block[1] = 10 * b + 2;
    }
    cache.swap();
    assert_eq!(cache.impulsions_at(0), &[0i64, 0][..]);
    for b in 0..3i64 {
        let at = (b as usize + 1) * k;
        assert_eq!(cache.impulsions_at(at), &[10 * b + 1, 10 * b + 2][..]);
    }
    // the next step starts with the reserved block alone: its first push lands at offset k
    {
        let block = cache.push_impulsions();
        block[0] = 5;
    }
    cache.swap();
    assert_eq!(cache.impulsions_at(k), &[5i64, 0][..]);
}

#[test]
fn two_swaps_forget_both_steps() {
    let mut cache = ImpulseCache::new(1, 1);
    cache.insert(0, 1, 2, vec![0]);
    {
        let block = cache.push_impulsions();
        block[0] = 3;
    }
    cache.swap();
    cache.insert(1, 1, 3, vec![0]);
    cache.swap();
    cache.swap();
    assert_eq!(cache.len(), 0);
    assert_eq!(cache.impulsions_at(0), &[0i64][..]);
    assert_eq!(cache.reserved_impulse_offset(), 1);
    cache.insert(2, 1, 2, vec![0]);
    let id = ContactIdentifier::new(1, 2, vec![0], &1);
    assert_eq!(cache.hash().find(&id), Some((2, 0)));
}

#[test]
fn contacts_keep_insertion_order_and_swap_starts_empty() {
    let mut cache = ImpulseCache::new(1, 1);
    cache.insert(0, 1, 2, vec![0]);
    cache.insert(1, 3, 4, vec![0]);
    cache.insert(2, 1, 2, vec![0]);
    let h = cache.hash();
    assert_eq!(h.len(), 2);
    assert!(h.key_at(0).same_contact(&ContactIdentifier::new(1, 2, vec![0], &1)));
    assert!(h.key_at(1).same_contact(&ContactIdentifier::new(3, 4, vec![0], &1)));
    assert_eq!(h.value_at(0), (2, 0));
    cache.swap();
    assert!(cache.hash().is_empty());
}
