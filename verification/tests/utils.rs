use pentas::utils::TokenIterator;

#[test]
fn next() {
    let arr = vec![1, 2, 3, 4, 5];
    let mut iter = TokenIterator::new(&arr);
    assert_eq!(iter.next(), Some(1));
    assert_eq!(iter.next(), Some(2));
    assert_eq!(iter.next(), Some(3));
    assert_eq!(iter.next(), Some(4));
    assert_eq!(iter.next(), Some(5));
    assert_eq!(iter.next(), None);
}

#[test]
fn peek() {
    let arr = vec![1, 2, 3, 4, 5];
    let mut iter = TokenIterator::new(&arr);
    assert_eq!(iter.peek(), Some(&1));
    assert_eq!(iter.next(), Some(1));
    assert_eq!(iter.peek(), Some(&2));
    assert_eq!(iter.next(), Some(2));
    assert_eq!(iter.peek(), Some(&3));
    assert_eq!(iter.next(), Some(3));
    assert_eq!(iter.peek(), Some(&4));
    assert_eq!(iter.next(), Some(4));
    assert_eq!(iter.peek(), Some(&5));
    assert_eq!(iter.next(), Some(5));
    assert_eq!(iter.peek(), None);
    assert_eq!(iter.next(), None);
}

#[test]
fn rewind_undoes_next_and_forward() {
    let items = [10, 20, 30];
    let mut it = TokenIterator::new(&items);
    assert_eq!(it.next(), Some(10));
    it.rewind(1);
    assert_eq!(it.peek(), Some(&10));
    it.forward(2);
    assert_eq!(it.peek(), Some(&30));
    it.rewind(2);
    assert_eq!(it.peek(), Some(&10));
    // past the end, `next` still moves the cursor, so `rewind(1)` undoes it
    it.forward(3);
    assert_eq!(it.next(), None);
    it.rewind(1);
    assert_eq!(it.peek(), None);
    assert_eq!(it.get_last_consumed(), Some(&30));
    // rewinding stops at the start
    it.rewind(10);
    assert_eq!(it.peek(), Some(&10));
    it.rewind(1);
    it.rewind(1);
    assert_eq!(it.next(), Some(10));
}
