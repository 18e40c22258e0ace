use chess_tp::cell::ReplaceCell;

#[test]
fn a_cell_returns_what_it_was_given() {
    let cell = ReplaceCell::new(41u32);
    assert_eq!(*cell.get_ref(), 41);
    assert_eq!(cell.into_inner(), 41);
}

#[test]
fn replace_applies_the_closure_to_the_contents() {
    let mut cell = ReplaceCell::new(String::from("a"));
    cell.replace(|mut s| {
        s.push('b');
        s
    });
    assert_eq!(cell.get_ref().as_str(), "ab");
    cell.replace(|_| String::from("fresh"));
    assert_eq!(cell.into_inner(), "fresh");
}

#[test]
fn get_mut_edits_in_place() {
    let mut cell = ReplaceCell::new(vec![1, 2]);
    cell.get_mut().push(3);
    assert_eq!(cell.into_inner(), vec![1, 2, 3]);
}
