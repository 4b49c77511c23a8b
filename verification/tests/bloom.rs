use lagoon::bloom::{
    BloomCollection, BloomError, BloomNode, MAX_BITS_16, MAX_BITS_32, MAX_HASH_16, MAX_HASH_32,
};
use lagoon::filter::capacity_for;

#[test]
fn test_bloom_filter_on_collection() {
    let mut filter = BloomCollection::new();
    let collection_name = "hello".to_owned();
    let _ = filter.create(
        collection_name.clone(),
        BloomNode::max_bits(),
        BloomNode::max_hash(),
    );
    for n in 0..1000 {
        let _ = filter.set(collection_name.clone(), n.to_string());
    }
    for i in 0..1000 {
        let flag: bool = filter
            .exist(collection_name.clone(), i.to_string())
            .unwrap();
        assert!(flag);
    }
}

#[test]
fn test_create_and_remove_collection() {
    let mut filter = BloomCollection::new();
    let collection_name = "hello".to_owned();
    let mut flag: bool = filter.has_collection(collection_name.clone()).unwrap();
    assert!(!flag);
    let _ = filter.create(
        collection_name.clone(),
        BloomNode::max_bits(),
        BloomNode::max_hash(),
    );
    flag = filter.has_collection(collection_name.clone()).unwrap();
    assert!(flag);
    let _ = filter.delete(collection_name.clone());
    flag = filter.has_collection(collection_name.clone()).unwrap();
    assert!(!flag);
}

#[test]
fn error_codes_are_stable() {
    assert_eq!(BloomError::DoesNotExist.code(), 100);
    assert_eq!(BloomError::DuplicateError.code(), 101);
    assert_eq!(BloomError::MaxEntryReached.code(), 102);
    assert_eq!(BloomError::Other.code(), 103);
}

#[test]
fn profiles_have_their_documented_sizes() {
    assert_eq!(MAX_BITS_16, u16::MAX as usize);
    assert_eq!(MAX_HASH_16, (u8::MAX / 4) as usize);
    assert_eq!(MAX_BITS_32, u32::MAX as usize);
    assert_eq!(MAX_HASH_32, u8::MAX as usize);
    assert_eq!(BloomNode::max_bits(), 4294967295);
    assert_eq!(BloomNode::max_hash(), 255);
}

#[test]
fn capacity_is_the_floor_of_quotient_times_ln_two() {
    assert_eq!(BloomNode::new(65535, 63).capacity(), 720);
    assert_eq!(BloomNode::new(300, 100).capacity(), 2);
    assert_eq!(BloomNode::new(1, 1).capacity(), 0);
    assert_eq!(BloomNode::new(2, 1).capacity(), 1);
    assert_eq!(BloomNode::new(0, 7).capacity(), 0);
    assert_eq!(BloomNode::new(1000, 1).capacity(), 693);
    assert_eq!(BloomNode::new(1000, 3).capacity(), 230);
}

#[test]
fn capacity_agrees_with_the_floating_point_formula() {
    let sizes: [usize; 9] = [0, 1, 2, 10, 999, 65535, 1 << 20, 12345678, 1 << 30];
    let rounds: [usize; 6] = [1, 2, 7, 63, 255, 1000];
    for m in sizes {
        for k in rounds {
            let expected = ((m / k) as f64 * 2_f64.ln()) as usize;
            assert_eq!(BloomNode::new(m, k).capacity(), expected);
        }
    }
}

#[test]
fn a_new_node_is_empty() {
    let node = BloomNode::new(4096, 5);
    assert_eq!(node.bit_size(), 4096);
    assert_eq!(node.hash_count(), 5);
    assert_eq!(node.count(), 0);
    assert!(!node.has(b"anything"));
    assert!(!node.has(b""));
}

#[test]
fn an_inserted_member_is_present_and_stays_present() {
    let mut node = BloomNode::new(1 << 16, 7);
    assert!(!node.has(b"first"));
    assert!(node.set(b"first").is_ok());
    assert!(node.has(b"first"));
    assert_eq!(node.count(), 1);
    for i in 0..500 {
        assert!(node.set(format!("other-{}", i).as_bytes()).is_ok());
        assert!(node.has(b"first"));
    }
    assert_eq!(node.count(), 501);
    for i in 0..500 {
        assert!(node.has(format!("other-{}", i).as_bytes()));
    }
}

#[test]
fn a_full_node_rejects_and_is_left_unchanged() {
    let mut node = BloomNode::new(300, 100);
    assert_eq!(node.capacity(), 2);
    assert!(node.set(b"one").is_ok());
    assert!(node.set(b"two").is_ok());
    assert_eq!(node.count(), 2);
    assert!(matches!(node.set(b"three"), Err(BloomError::MaxEntryReached)));
    assert_eq!(node.count(), 2);
    assert!(!node.has(b"three"));
    assert!(node.has(b"one"));
    assert!(node.has(b"two"));
}

#[test]
fn a_node_without_capacity_takes_nothing() {
    let mut node = BloomNode::new(0, 3);
    assert!(matches!(node.set(b"x"), Err(BloomError::MaxEntryReached)));
    assert!(!node.has(b"x"));
    let mut small = BloomNode::new(1, 1);
    assert!(matches!(small.set(b"x"), Err(BloomError::MaxEntryReached)));
    assert!(!small.has(b"x"));
    assert_eq!(small.count(), 0);
}

#[test]
fn successive_inserts_are_all_counted() {
    let mut node = BloomNode::new(65535, 63);
    for i in 0..200 {
        assert!(node.set(format!("value-{}", i).as_bytes()).is_ok());
    }
    assert_eq!(node.count(), 200);
}

#[test]
fn create_refuses_a_taken_name_and_keeps_the_node() {
    let mut filter = BloomCollection::new();
    assert!(filter.create("c".to_owned(), 65535, 63).is_ok());
    assert!(filter.set("c".to_owned(), "v".to_owned()).is_ok());
    assert!(!filter.exist("c".to_owned(), "w".to_owned()).unwrap());
    assert!(matches!(
        filter.create("c".to_owned(), 1024, 3),
        Err(BloomError::DuplicateError)
    ));
    assert!(filter.exist("c".to_owned(), "v".to_owned()).unwrap());
    assert!(!filter.exist("c".to_owned(), "w".to_owned()).unwrap());
}

#[test]
fn set_refuses_a_present_value_without_counting_it() {
    let mut filter = BloomCollection::new();
    assert!(filter.create("c".to_owned(), 300, 100).is_ok());
    assert!(filter.set("c".to_owned(), "a".to_owned()).is_ok());
    assert!(matches!(
        filter.set("c".to_owned(), "a".to_owned()),
        Err(BloomError::DuplicateError)
    ));
    assert!(filter.set("c".to_owned(), "b".to_owned()).is_ok());
    assert!(matches!(
        filter.set("c".to_owned(), "c".to_owned()),
        Err(BloomError::MaxEntryReached)
    ));
    assert!(matches!(
        filter.set("c".to_owned(), "a".to_owned()),
        Err(BloomError::DuplicateError)
    ));
}

#[test]
fn operations_on_an_absent_collection_fail() {
    let mut filter = BloomCollection::new();
    assert!(matches!(
        filter.exist("nowhere".to_owned(), "v".to_owned()),
        Err(BloomError::DoesNotExist)
    ));
    assert!(matches!(
        filter.set("nowhere".to_owned(), "v".to_owned()),
        Err(BloomError::DoesNotExist)
    ));
    assert!(matches!(
        filter.delete("nowhere".to_owned()),
        Err(BloomError::DoesNotExist)
    ));
    assert!(!filter.has_collection("nowhere".to_owned()).unwrap());
}

#[test]
fn delete_removes_the_collection() {
    let mut filter = BloomCollection::new();
    assert!(filter.create("a".to_owned(), 65535, 63).is_ok());
    assert!(filter.create("b".to_owned(), 65535, 63).is_ok());
    assert!(filter.set("a".to_owned(), "v".to_owned()).is_ok());
    assert!(filter.set("b".to_owned(), "w".to_owned()).is_ok());
    assert!(filter.delete("a".to_owned()).is_ok());
    assert!(!filter.has_collection("a".to_owned()).unwrap());
    assert!(matches!(
        filter.exist("a".to_owned(), "v".to_owned()),
        Err(BloomError::DoesNotExist)
    ));
    assert!(matches!(
        filter.set("a".to_owned(), "v".to_owned()),
        Err(BloomError::DoesNotExist)
    ));
    assert!(filter.has_collection("b".to_owned()).unwrap());
    assert!(filter.exist("b".to_owned(), "w".to_owned()).unwrap());
    assert!(filter.create("a".to_owned(), 65535, 63).is_ok());
    assert!(!filter.exist("a".to_owned(), "v".to_owned()).unwrap());
}

#[test]
fn collections_do_not_share_members() {
    let mut filter = BloomCollection::new();
    assert!(filter.create("a".to_owned(), 65535, 63).is_ok());
    assert!(filter.create("b".to_owned(), 65535, 63).is_ok());
    assert!(filter.set("a".to_owned(), "v".to_owned()).is_ok());
    assert!(filter.exist("a".to_owned(), "v".to_owned()).unwrap());
    assert!(!filter.exist("b".to_owned(), "v".to_owned()).unwrap());
}

#[test]
fn a_small_collection_fills_up_at_its_capacity() {
    let mut filter = BloomCollection::new();
    assert!(filter.create("hello".to_owned(), 65535, 63).is_ok());
    let capacity = BloomNode::new(65535, 63).capacity();
    assert_eq!(capacity, 720);
    let mut successes = 0;
    for n in 0..1000 {
        match filter.set("hello".to_owned(), n.to_string()) {
            Ok(()) => {
                assert!(n < capacity);
                successes += 1;
            }
            Err(e) => {
                assert!(n >= capacity);
                assert!(matches!(e, BloomError::MaxEntryReached));
            }
        }
    }
    assert_eq!(successes, capacity);
    for n in 0..capacity {
        assert!(filter.exist("hello".to_owned(), n.to_string()).unwrap());
    }
}

#[test]
fn a_false_positive_is_refused_as_a_duplicate() {
    let mut filter = BloomCollection::new();
    assert!(filter.create("c".to_owned(), 3, 1).is_ok());
    assert!(filter.set("c".to_owned(), "0".to_owned()).is_ok());
    assert!(filter.exist("c".to_owned(), "2".to_owned()).unwrap());
    assert!(matches!(
        filter.set("c".to_owned(), "2".to_owned()),
        Err(BloomError::DuplicateError)
    ));
    assert!(!filter.exist("c".to_owned(), "1".to_owned()).unwrap());
    assert!(filter.set("c".to_owned(), "1".to_owned()).is_ok());
    assert!(matches!(
        filter.set("c".to_owned(), "4".to_owned()),
        Err(BloomError::MaxEntryReached)
    ));
}

#[test]
fn capacity_is_the_true_floor_at_large_quotients() {
    if usize::BITS == 64 {
        let m = 9878417065u64 as usize;
        assert_eq!(capacity_for(m, 1), 6847196937);
        assert_eq!(capacity_for(m, 1), (m as f64 * 2_f64.ln()) as usize);
        assert_eq!(capacity_for(m * 3 + 2, 3), 6847196937);
        assert_eq!(capacity_for(7726996204u64 as usize, 1), 5355945633);
        assert_eq!(
            capacity_for(9223372036854788153u64 as usize, 1),
            6393154322601336386
        );
        assert_eq!(capacity_for(u64::MAX as usize, 1), 12786308645202655659);
    }
}

#[test]
fn capacity_for_agrees_with_the_node() {
    assert_eq!(capacity_for(65535, 63), 720);
    assert_eq!(capacity_for(4294967295, 255), 11674684);
    assert_eq!(capacity_for(0, 1), 0);
    assert_eq!(capacity_for(5, 9), 0);
    assert_eq!(BloomNode::new(12345, 7).capacity(), capacity_for(12345, 7));
}

#[test]
fn a_node_of_a_large_quotient_has_the_true_capacity() {
    if usize::BITS == 64 {
        let node = BloomNode::new(9878417065u64 as usize, 1);
        assert_eq!(node.capacity(), 6847196937);
        assert_eq!(node.count(), 0);
        assert!(!node.has(b"absent"));
    }
}
