use highwater::transaction::{Mutation, WriteBuffer};

#[test]
fn reads_see_the_transactions_own_writes() {
    let mut buffer = WriteBuffer::new();
    let stored = vec![1u8];
    assert_eq!(buffer.read("a", Some(&stored)), Some(&stored));
    buffer.put("a", vec![2]);
    assert_eq!(buffer.read("a", Some(&stored)), Some(&vec![2]));
    buffer.put("a", vec![3]);
    assert_eq!(buffer.read("a", None), Some(&vec![3]));
    buffer.delete("a");
    assert_eq!(buffer.read("a", Some(&stored)), None);
    assert_eq!(buffer.read("b", Some(&stored)), Some(&stored));
    assert_eq!(buffer.buffered("a"), Some(None));
    assert_eq!(buffer.buffered("b"), None);
}

#[test]
fn commit_applies_one_mutation_per_key_then_ranges() {
    let mut buffer = WriteBuffer::new();
    buffer.put("a", vec![1]);
    buffer.delete("b");
    buffer.put("a", vec![2]);
    buffer.delete_range("r/".to_owned(), "r0".to_owned());
    let mutations = buffer.into_mutations();
    assert_eq!(mutations.len(), 3);
    let mut puts = 0;
    let mut deletes = 0;
    for mutation in &mutations[..2] {
        match mutation {
            Mutation::Put { key, value } => {
                assert_eq!(key, "a");
                assert_eq!(value, &vec![2]);
                puts += 1;
            }
            Mutation::Delete { key } => {
                assert_eq!(key, "b");
                deletes += 1;
            }
            Mutation::DeleteRange { .. } => panic!("range deletions come last"),
        }
    }
    assert_eq!((puts, deletes), (1, 1));
    assert!(matches!(&mutations[2], Mutation::DeleteRange { start, end } if start == "r/" && end == "r0"));
}

fn apply(store: &mut std::collections::BTreeMap<String, Vec<u8>>, mutations: Vec<Mutation>) {
    for mutation in mutations {
        match mutation {
            Mutation::Put { key, value } => {
                store.insert(key, value);
            }
            Mutation::Delete { key } => {
                store.remove(&key);
            }
            Mutation::DeleteRange { start, end } => {
                store.retain(|key, _| !(key.as_bytes() >= start.as_bytes() && key.as_bytes() < end.as_bytes()));
            }
        }
    }
}

#[test]
fn committed_store_holds_what_the_transaction_read() {
    let mut store = std::collections::BTreeMap::new();
    for (key, value) in [("a", 1u8), ("b", 2), ("c", 3), ("r/1", 4), ("r/2", 5), ("s", 6)] {
        store.insert(key.to_owned(), vec![value]);
    }
    let mut buffer = WriteBuffer::new();
    buffer.put("a", vec![10]);
    buffer.delete("b");
    buffer.put("d", vec![11]);
    buffer.delete("a");
    buffer.put("a", vec![12]);
    buffer.put("r/3", vec![13]);
    buffer.delete_range("r/".to_owned(), "r0".to_owned());
    let keys = ["a", "b", "c", "d", "s", "zz"];
    let expected: Vec<Option<Vec<u8>>> = keys
        .iter()
        .map(|key| buffer.read(key, store.get(*key)).cloned())
        .collect();
    apply(&mut store, buffer.into_mutations());
    for (key, value) in keys.iter().zip(expected) {
        assert_eq!(store.get(*key).cloned(), value, "key {key}");
    }
    assert_eq!(store.get("r/1"), None);
    assert_eq!(store.get("r/3"), None);
    assert_eq!(store.get("a"), Some(&vec![12]));
}
