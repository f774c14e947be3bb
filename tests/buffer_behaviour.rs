use vectors::MyVec;

#[test]
fn fresh_buffer_is_empty() {
    let v: MyVec<i32> = MyVec::new();
    assert_eq!(v.len(), 0);
    assert_eq!(v.capacity(), 0);
    assert!(v.is_empty());
    assert_eq!(v.get(0), None);
}

#[test]
fn ten_values_in_order() {
    let mut v: MyVec<i32> = MyVec::new();
    for x in 1..=10 {
        v.push_back(x);
    }
    assert!(v.capacity() >= 10);
    assert_eq!(v.len(), 10);
    for i in 0..10usize {
        assert_eq!(v.get(i), Some(&((i + 1) as i32)));
    }
    assert_eq!(v.get(10), None);
}

#[test]
fn capacity_doubles_from_four() {
    let mut v: MyVec<u8> = MyVec::new();
    let mut seen = Vec::new();
    for x in 0..40u8 {
        let before = v.capacity();
        v.push_back(x);
        if v.capacity() != before {
            seen.push(v.capacity());
        }
    }
    assert_eq!(seen, vec![4, 8, 16, 32, 64]);
    assert_eq!(v.capacity(), 64);
    assert_eq!(v.len(), 40);
}

#[test]
fn capacity_stays_until_full() {
    let mut v: MyVec<u32> = MyVec::new();
    v.push_back(1);
    assert_eq!(v.capacity(), 4);
    v.push_back(2);
    v.push_back(3);
    v.push_back(4);
    assert_eq!(v.capacity(), 4);
    assert_eq!(v.len(), 4);
    v.push_back(5);
    assert_eq!(v.capacity(), 8);
    assert_eq!(v.len(), 5);
}

#[test]
fn growth_keeps_earlier_values() {
    let mut v: MyVec<u64> = MyVec::new();
    for x in 0..4u64 {
        v.push_back(x * 11);
    }
    let before: Vec<u64> = (0..4).map(|i| *v.get(i).unwrap()).collect();
    v.push_back(99);
    let after: Vec<u64> = (0..4).map(|i| *v.get(i).unwrap()).collect();
    assert_eq!(before, after);
    assert_eq!(v.get(4), Some(&99));
}

#[test]
fn distinct_values_each_once_in_order() {
    let mut v: MyVec<usize> = MyVec::new();
    for x in 0..1000usize {
        v.push_back(x * 3 + 1);
    }
    assert_eq!(v.len(), 1000);
    for i in 0..1000usize {
        assert_eq!(v.get(i), Some(&(i * 3 + 1)));
    }
    assert_eq!(v.get(1000), None);
}

#[test]
fn get_absent_at_and_past_length() {
    let mut v: MyVec<i32> = MyVec::new();
    v.push_back(5);
    assert_eq!(v.get(0), Some(&5));
    assert_eq!(v.get(1), None);
    assert_eq!(v.get(3), None);
    assert_eq!(v.get(4), None);
    assert_eq!(v.get(usize::MAX), None);
}

#[test]
fn get_mut_changes_one_value() {
    let mut v: MyVec<String> = MyVec::new();
    v.push_back(String::from("a"));
    v.push_back(String::from("b"));
    v.push_back(String::from("c"));
    if let Some(s) = v.get_mut(1) {
        s.push('!');
    }
    assert_eq!(v.get(0).map(|s| s.as_str()), Some("a"));
    assert_eq!(v.get(1).map(|s| s.as_str()), Some("b!"));
    assert_eq!(v.get(2).map(|s| s.as_str()), Some("c"));
    assert_eq!(v.len(), 3);
    assert_eq!(v.capacity(), 4);
}

#[test]
fn get_mut_absent_past_length() {
    let mut v: MyVec<i32> = MyVec::new();
    assert!(v.get_mut(0).is_none());
    v.push_back(1);
    assert!(v.get_mut(1).is_none());
    assert_eq!(v.len(), 1);
    assert_eq!(v.get(0), Some(&1));
}

#[test]
fn is_empty_after_push() {
    let mut v: MyVec<char> = MyVec::new();
    assert!(v.is_empty());
    v.push_back('x');
    assert!(!v.is_empty());
}
