use rds::history::DrumSynthStack;

#[test]
fn change_then_undo() {
    let mut h = DrumSynthStack::new(1);
    assert_eq!(*h.current(), 1);
    *h.change() = 5;
    assert_eq!(*h.current(), 5);
    *h.change() += 1;
    assert_eq!(*h.current(), 6);
    h.undo();
    assert_eq!(*h.current(), 5);
    h.undo();
    assert_eq!(*h.current(), 1);
    h.undo();
    assert_eq!(*h.current(), 1);
}

#[test]
fn change_starts_from_a_copy() {
    let mut h = DrumSynthStack::new(vec![1, 2]);
    h.change().push(3);
    assert_eq!(h.current(), &vec![1, 2, 3]);
    h.undo();
    assert_eq!(h.current(), &vec![1, 2]);
}
