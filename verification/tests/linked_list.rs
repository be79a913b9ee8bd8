use asyncnal::linked_list::LinkyList;

#[test]
fn test_ll_basic() {
    let mut waka = LinkyList::new();

    waka.push_front(20);
    waka.push_front(12);
    assert_eq!(waka.pop_front(), Some(12));
    assert_eq!(waka.pop_front(), Some(20));
    assert_eq!(waka.pop_front(), None);
}

#[test]
fn test_ll_syncy() {
    let mut waka = LinkyList::new();

    for _ in 0..10 {
        for i in 0..1000 {
            waka.push_front(i);
        }
        for _ in 0..1000 {
            waka.pop_front();
        }
    }
    assert_eq!(waka.pop_front(), None);
}
