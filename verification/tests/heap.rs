use wispee::heap::{HeapError, TokenHeap};

#[test]
fn allocate_then_free_restores_budget() {
    let mut h = TokenHeap::new(100);
    let a = h.allocate(30).unwrap();
    let b = h.allocate(50).unwrap();
    assert_eq!((a, b), (0, 1));
    assert_eq!(h.used(), 80);
    h.free(a).unwrap();
    assert_eq!(h.used(), 50);
    h.free(b).unwrap();
    assert_eq!(h.used(), 0);
}

#[test]
fn allocation_beyond_budget_overflows() {
    let mut h = TokenHeap::new(10);
    h.allocate(6).unwrap();
    match h.allocate(5) {
        Err(HeapError::Overflow { requested, available }) => {
            assert_eq!((requested, available), (5, 4));
        },
        _ => panic!("expected an overflow"),
    }
}

#[test]
fn append_and_read_back() {
    let mut h = TokenHeap::new(10);
    let id = h.allocate(4).unwrap();
    h.append(id, "ab").unwrap();
    h.append(id, "cd").unwrap();
    assert_eq!(h.get(id).unwrap().content, "abcd");
    assert_eq!(h.get_content(id).unwrap(), "abcd");
}

#[test]
fn unknown_handle_is_invalid() {
    let mut h = TokenHeap::new(10);
    assert!(matches!(h.free(7), Err(HeapError::InvalidHandle(7))));
    assert!(matches!(h.append(7, "x"), Err(HeapError::InvalidHandle(7))));
    assert!(matches!(h.get(7), Err(HeapError::InvalidHandle(7))));
    assert_eq!(HeapError::InvalidHandle(7).message(), "invalid segment handle: 7");
}

#[test]
fn freed_handle_is_not_reused() {
    let mut h = TokenHeap::new(10);
    let a = h.allocate(1).unwrap();
    h.free(a).unwrap();
    let b = h.allocate(1).unwrap();
    assert_ne!(a, b);
    assert!(h.free(a).is_err());
}

#[test]
fn set_content_is_read_back_and_leaves_others() {
    let mut h = TokenHeap::new(10);
    let a = h.allocate(2).unwrap();
    let b = h.allocate(2).unwrap();
    h.append(b, "kept").unwrap();
    h.set_content(a, "new".to_string()).unwrap();
    assert_eq!(h.get_content(a).unwrap(), "new");
    assert_eq!(h.get_content(b).unwrap(), "kept");
    let c = h.allocate(1).unwrap();
    assert_eq!(h.get_content(c).unwrap(), "");
    h.free(a).unwrap();
    assert!(matches!(h.get_content(a), Err(HeapError::InvalidHandle(0))));
}
