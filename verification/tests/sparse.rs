use jedit::sparse::SparseVec;

fn filled(values: &[char]) -> SparseVec<char> {
    let mut s = SparseVec::new();
    for (i, v) in values.iter().enumerate() {
        s.insert(i, *v);
    }
    s
}

fn slots(s: &SparseVec<char>) -> Vec<Option<char>> {
    (0..s.len()).map(|i| s.get(i).copied()).collect()
}

#[test]
fn new_sequence_is_empty_and_reads_everywhere() {
    let s: SparseVec<char> = SparseVec::new();
    assert_eq!(s.len(), 0);
    assert_eq!(s.get(0), None);
    assert_eq!(s.get(1000), None);
    assert_eq!(*s.slot(5), None);
    assert_eq!(s.len(), 0);
}

#[test]
fn insert_inside_shifts_right() {
    let mut s = filled(&['a', 'b']);
    s.insert(1, 'x');
    assert_eq!(slots(&s), vec![Some('a'), Some('x'), Some('b')]);
    s.insert(0, 'y');
    assert_eq!(slots(&s), vec![Some('y'), Some('a'), Some('x'), Some('b')]);
    s.insert(4, 'z');
    assert_eq!(slots(&s), vec![Some('y'), Some('a'), Some('x'), Some('b'), Some('z')]);
}

#[test]
fn insert_past_end_pads_with_empty_slots() {
    let mut s = filled(&['a']);
    s.insert(3, 'z');
    assert_eq!(s.len(), 4);
    assert_eq!(slots(&s), vec![Some('a'), None, None, Some('z')]);
}

#[test]
fn remove_shifts_left_and_returns_value() {
    let mut s = filled(&['a', 'b', 'c']);
    assert_eq!(s.remove(1), Some('b'));
    assert_eq!(slots(&s), vec![Some('a'), Some('c')]);
    assert_eq!(s.remove(0), Some('a'));
    assert_eq!(slots(&s), vec![Some('c')]);
}

#[test]
fn remove_past_end_changes_nothing() {
    let mut s = filled(&['a', 'b']);
    assert_eq!(s.remove(2), None);
    assert_eq!(s.remove(99), None);
    assert_eq!(slots(&s), vec![Some('a'), Some('b')]);
}

#[test]
fn remove_of_empty_slot_still_shifts() {
    let mut s = filled(&['a']);
    s.insert(2, 'c');
    assert_eq!(slots(&s), vec![Some('a'), None, Some('c')]);
    assert_eq!(s.remove(1), None);
    assert_eq!(slots(&s), vec![Some('a'), Some('c')]);
}

#[test]
fn slot_mut_pads_up_to_index() {
    let mut s: SparseVec<char> = SparseVec::new();
    {
        let slot = s.slot_mut(2);
        assert_eq!(*slot, None);
    }
    assert_eq!(s.len(), 3);
    *s.slot_mut(1) = Some('q');
    assert_eq!(slots(&s), vec![None, Some('q'), None]);
    *s.slot_mut(1) = None;
    assert_eq!(slots(&s), vec![None, None, None]);
}

#[test]
fn get_mut_changes_value_only() {
    let mut s = filled(&['a', 'b']);
    *s.get_mut(1).unwrap() = 'z';
    assert_eq!(slots(&s), vec![Some('a'), Some('z')]);
    assert!(s.get_mut(2).is_none());
    assert_eq!(s.len(), 2);
    s.insert(3, 'c');
    assert!(s.get_mut(2).is_none());
    assert_eq!(s.len(), 4);
}

#[test]
fn push_appends_slots() {
    let mut s: SparseVec<char> = SparseVec::new();
    s.push(Some('a'));
    s.push(None);
    s.push(Some('b'));
    assert_eq!(slots(&s), vec![Some('a'), None, Some('b')]);
}

#[test]
fn iter_yields_slots_in_order() {
    let mut s = filled(&['a']);
    s.insert(2, 'c');
    let seen: Vec<Option<char>> = s.iter().cloned().collect();
    assert_eq!(seen, vec![Some('a'), None, Some('c')]);
}
