use melevo::entity::Entity;
use melevo::sparse_set::{InvalidKeyError, InvalidKeyErrorKind, SparseSet};

#[test]
fn test_insert() -> Result<(), InvalidKeyError> {
    let mut sparse_set = SparseSet::new(10);

    sparse_set.insert(1, "Alice")?;
    sparse_set.insert(2, "Bob")?;
    sparse_set.insert(3, "Charlie")?;

    // Check that elements is well inserted
    assert_eq!(sparse_set.get(1)?, Some(&"Alice"));
    assert_eq!(sparse_set.get(2)?, Some(&"Bob"));
    assert_eq!(sparse_set.get(3)?, Some(&"Charlie"));
    assert_eq!(sparse_set.get(4)?, None);

    Ok(())
}

#[test]
fn test_remove() -> Result<(), InvalidKeyError> {
    let mut sparse_set = SparseSet::new(10);

    sparse_set.insert(1, "Alice")?;
    sparse_set.insert(2, "Bob")?;
    sparse_set.insert(3, "Charlie")?;

    // Check if the element is well removed
    assert_eq!(sparse_set.remove(2)?, Some("Bob"));
    assert_eq!(sparse_set.get(2)?, None);

    Ok(())
}

#[test]
fn remove_keeps_the_others() {
    let mut s: SparseSet<&str, u64> = SparseSet::new(10);
    s.insert(1, "A").unwrap();
    s.insert(2, "B").unwrap();
    s.insert(3, "C").unwrap();
    assert_eq!(s.remove(2).unwrap(), Some("B"));
    assert_eq!(s.get(1).unwrap(), Some(&"A"));
    assert_eq!(s.get(2).unwrap(), None);
    assert_eq!(s.get(3).unwrap(), Some(&"C"));
    assert_eq!(s.len(), 2);
}

#[test]
fn remove_moves_last_into_the_gap() {
    let mut s: SparseSet<&str, u64> = SparseSet::new(10);
    s.insert(1, "A").unwrap();
    s.insert(2, "B").unwrap();
    s.insert(3, "C").unwrap();
    assert_eq!(s.remove(1).unwrap(), Some("A"));
    assert_eq!(s.keys(), &vec![3u64, 2]);
    assert_eq!(s.dense(), &vec!["C", "B"]);
    assert_eq!(s.get(3).unwrap(), Some(&"C"));
    assert_eq!(s.get(2).unwrap(), Some(&"B"));
}

#[test]
fn remove_of_the_last_and_of_an_absent_key() {
    let mut s: SparseSet<i32, u64> = SparseSet::new(4);
    s.insert(0, 10).unwrap();
    s.insert(3, 30).unwrap();
    assert_eq!(s.remove(3).unwrap(), Some(30));
    assert_eq!(s.remove(3).unwrap(), None);
    assert_eq!(s.remove(2).unwrap(), None);
    assert_eq!(s.len(), 1);
    assert_eq!(s.keys(), &vec![0u64]);
    s.insert(3, 31).unwrap();
    assert_eq!(s.get(3).unwrap(), Some(&31));
}

#[test]
fn insert_over_a_key_returns_the_prior_value() {
    let mut s: SparseSet<&str, u64> = SparseSet::new(10);
    assert_eq!(s.insert(4, "v1").unwrap(), None);
    assert_eq!(s.insert(4, "v2").unwrap(), Some("v1"));
    assert_eq!(s.get(4).unwrap(), Some(&"v2"));
    assert_eq!(s.len(), 1);
    assert_eq!(s.dense(), &vec!["v2"]);
}

#[test]
fn get_of_a_key_never_inserted_is_absent() {
    let s: SparseSet<&str, u64> = SparseSet::new(10);
    for k in 0..10u64 {
        assert_eq!(s.get(k).unwrap(), None);
        assert_eq!(s.contains(k).unwrap(), false);
    }
    assert_eq!(s.len(), 0);
}

#[test]
fn key_beyond_capacity_is_invalid_everywhere() {
    let mut s: SparseSet<&str, u64> = SparseSet::new(10);
    s.insert(1, "A").unwrap();
    let is_too_big = |k: InvalidKeyErrorKind<u64>| {
        matches!(k, InvalidKeyErrorKind::KeyBiggerThanCapacity { key: 15, capacity: 10 })
    };
    assert!(is_too_big(s.insert(15, "X").unwrap_err().kind()));
    assert!(is_too_big(s.get(15).unwrap_err().kind()));
    assert!(is_too_big(s.remove(15).unwrap_err().kind()));
    assert!(is_too_big(s.contains(15).unwrap_err().kind()));
    assert!(s.get_mut(15).is_err());
    assert!(s.get(10).is_err());
    assert_eq!(s.len(), 1);
    assert_eq!(s.get(1).unwrap(), Some(&"A"));
}

#[test]
fn key_that_does_not_fit_a_usize_is_invalid() {
    let mut s: SparseSet<i32, u128> = SparseSet::new(8);
    let k = u128::MAX;
    assert!(matches!(s.get(k).unwrap_err().kind, InvalidKeyErrorKind::KeyCantBeCastToUsize));
    assert!(matches!(s.insert(k, 1).unwrap_err().kind, InvalidKeyErrorKind::KeyCantBeCastToUsize));
    assert_eq!(s.insert(7u128, 1).unwrap(), None);
    assert_eq!(s.get(7u128).unwrap(), Some(&1));
}

#[test]
fn other_key_types_address_their_slot() {
    let mut a: SparseSet<char, u8> = SparseSet::new(300);
    a.insert(255u8, 'x').unwrap();
    assert_eq!(a.get(255u8).unwrap(), Some(&'x'));
    let mut b: SparseSet<char, u16> = SparseSet::new(4);
    b.insert(3u16, 'y').unwrap();
    assert_eq!(b.get(3u16).unwrap(), Some(&'y'));
    let mut c: SparseSet<char, u32> = SparseSet::new(4);
    c.insert(2u32, 'z').unwrap();
    assert!(c.get(4u32).is_err());
    let mut d: SparseSet<char, usize> = SparseSet::new(4);
    d.insert(0usize, 'w').unwrap();
    assert_eq!(d.keys(), &vec![0usize]);
}

#[test]
fn get_mut_writes_through() {
    let mut s: SparseSet<i32, u64> = SparseSet::new(5);
    s.insert(2, 20).unwrap();
    if let Some(v) = s.get_mut(2).unwrap() {
        *v = 21;
    }
    assert!(s.get_mut(3).unwrap().is_none());
    assert_eq!(s.get(2).unwrap(), Some(&21));
}

#[test]
fn entities_key_by_id_alone() {
    let mut s: SparseSet<&str, Entity> = SparseSet::new(4);
    s.insert(Entity::new(2, 0), "a").unwrap();
    assert_eq!(s.insert(Entity::new(2, 5), "b").unwrap(), Some("a"));
    assert_eq!(s.get(Entity::new(2, 9)).unwrap(), Some(&"b"));
    assert_eq!(s.keys(), &vec![Entity::new(2, 0)]);
    assert!(s.get(Entity::new(4, 0)).is_err());
}
