use termjournal::entry::StatefulList;

#[test]
fn fresh_list_has_no_selection() {
    let l: StatefulList<u32> = StatefulList::with_items(vec![1, 2, 3]);
    assert_eq!(l.selected, None);
    assert_eq!(l.items, vec![1, 2, 3]);
}

#[test]
fn next_on_empty_list_is_a_no_op() {
    let mut l: StatefulList<u32> = StatefulList::with_items(Vec::new());
    l.next();
    assert_eq!(l.selected, None);
    l.previous();
    assert_eq!(l.selected, None);
}

#[test]
fn first_navigation_selects_first_item() {
    let mut l: StatefulList<u32> = StatefulList::with_items(vec![5, 6]);
    l.next();
    assert_eq!(l.selected, Some(0));

    let mut m: StatefulList<u32> = StatefulList::with_items(vec![5, 6]);
    m.previous();
    assert_eq!(m.selected, Some(0));
}

#[test]
fn next_wraps_around() {
    let mut l: StatefulList<u32> = StatefulList::with_items(vec![1, 2, 3]);
    l.next();
    l.next();
    l.next();
    assert_eq!(l.selected, Some(2));
    l.next();
    assert_eq!(l.selected, Some(0));
}

#[test]
fn previous_wraps_around() {
    let mut l: StatefulList<u32> = StatefulList::with_items(vec![1, 2, 3]);
    l.next();
    l.previous();
    assert_eq!(l.selected, Some(2));
    l.previous();
    assert_eq!(l.selected, Some(1));
}

#[test]
fn full_cycle_of_next_returns_to_start() {
    let n: usize = 5;
    let items: Vec<u32> = (0..n as u32).collect();
    let mut l: StatefulList<u32> = StatefulList::with_items(items);
    l.next();
    l.next();
    let start = l.selected;
    for _ in 0..n {
        l.next();
    }
    assert_eq!(l.selected, start);
}

#[test]
fn selection_stays_in_range_under_mixed_navigation() {
    let mut l: StatefulList<u32> = StatefulList::with_items(vec![1, 2, 3, 4]);
    let moves = [true, true, false, true, false, false, false, true, true];
    for &fwd in moves.iter() {
        if fwd {
            l.next();
        } else {
            l.previous();
        }
        match l.selected {
            Some(i) => assert!(i < 4),
            None => panic!("selection vanished on a non-empty list"),
        }
    }
}

#[test]
fn selected_item_follows_the_cursor() {
    let mut l: StatefulList<u32> = StatefulList::with_items(vec![7, 8, 9]);
    assert_eq!(l.selected_item(), None);
    l.next();
    l.next();
    assert_eq!(l.selected_item(), Some(&8));
}
