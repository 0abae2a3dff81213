use nphysics::contact::{ContactIdentifier, ContactMap};

fn id(o1: usize, o2: usize, c: i64) -> ContactIdentifier {
    ContactIdentifier::new(o1, o2, vec![c], &1)
}

#[test]
fn insert_find_remove() {
    let mut m = ContactMap::new();
    assert!(m.is_empty());
    assert!(m.insert(id(1, 2, 0), (0, 0)));
    assert!(m.insert(id(1, 2, 1), (1, 4)));
    assert!(!m.insert(id(1, 2, 0), (2, 8)));
    assert_eq!(m.len(), 2);
    assert_eq!(m.find(&id(1, 2, 0)), Some((2, 8)));
    assert_eq!(m.find(&id(2, 1, 0)), None);
    assert!(m.contains_key(&id(1, 2, 1)));
    assert!(m.remove(&id(1, 2, 0)));
    assert!(!m.remove(&id(1, 2, 0)));
    assert_eq!(m.len(), 1);
    assert!(m.key_at(0).same_contact(&id(1, 2, 1)));
    assert_eq!(m.value_at(0), (1, 4));
    m.set_value_at(0, (3, 3));
    assert_eq!(m.find(&id(1, 2, 1)), Some((3, 3)));
    m.clear();
    assert_eq!(m.len(), 0);
}

#[test]
fn contacts_differ_by_objects_or_cell() {
    let a = ContactIdentifier::new(1, 2, vec![0, 0], &1);
    assert!(!a.same_contact(&ContactIdentifier::new(2, 1, vec![0, 0], &1)));
    assert!(!a.same_contact(&ContactIdentifier::new(1, 2, vec![0], &1)));
    assert!(!a.same_contact(&ContactIdentifier::new(1, 2, vec![0, 1], &1)));
    assert!(a.same_contact(&ContactIdentifier::new(1, 2, vec![0, 0], &1)));
}
