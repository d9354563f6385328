//! Grouping changed rows and moving between the groups.

use lumen_diff::change_nav::{group_changes, ChangeNavigation, Rect};

#[test]
fn nearby_runs_fit_but_distant_changes_stay_separate() {
    let rows: Vec<_> = (0..100)
        .map(|i| ([2, 3, 9, 10, 80].contains(&i), 1))
        .collect();
    assert_eq!(group_changes(&rows, 12), vec![2..11, 80..81]);
    assert_eq!(group_changes(&rows, 8), vec![2..4, 9..11, 80..81]);
}

#[test]
fn long_runs_and_wrapped_rows_are_split_without_losing_changes() {
    assert_eq!(
        group_changes(&vec![(true, 1); 12], 5),
        vec![0..5, 5..10, 10..12]
    );
    assert_eq!(
        group_changes(&[(true, 3), (true, 3), (false, 2), (true, 2)], 5),
        vec![0..1, 1..2, 3..4]
    );
    assert_eq!(group_changes(&[(true, 20), (true, 1)], 5), vec![0..1, 1..2]);
    assert!(group_changes(&[(false, 1); 8], 0).is_empty());
}

#[test]
fn arrows_are_centered_and_stop_at_file_boundaries() {
    let nav = ChangeNavigation::new(vec![3..5, 80..90], Some(4), Rect::new(0, 39, 120, 1));
    assert_eq!(nav.target(false), None);
    assert_eq!(nav.target(true), Some(1));
    assert_eq!(nav.hit(nav.area.x, 39), Some(false));
    assert_eq!(nav.hit(nav.area.right() - 1, 39), Some(true));
    assert_eq!(nav.hit(60, 38), None);
    assert!((nav.area.x * 2 + nav.area.width).abs_diff(120) <= 1);
    let empty = ChangeNavigation::new(vec![], None, Rect::new(0, 0, 4, 1));
    assert_eq!(empty.target(true), None);
    assert_eq!(empty.hit(0, 0), None);
}

#[test]
fn a_viewport_shows_at_least_one_line_and_a_row_takes_at_least_one() {
    assert_eq!(group_changes(&[(true, 0), (true, 0)], 0), vec![0..1, 1..2]);
    assert_eq!(group_changes(&[(true, 0), (false, 0), (true, 0)], 3), vec![0..3]);
    assert!(group_changes(&[], 5).is_empty());
}

#[test]
fn groups_are_in_order_and_hold_every_change() {
    let rows: Vec<(bool, usize)> = (0..60).map(|i| (i % 7 < 4, i % 3)).collect();
    for budget in 0..12usize {
        let groups = group_changes(&rows, budget);
        for (i, row) in rows.iter().enumerate() {
            let owners = groups.iter().filter(|g| g.contains(&i)).count();
            assert!(owners <= 1);
            assert!(!row.0 || owners == 1);
        }
        for pair in groups.windows(2) {
            assert!(pair[0].end <= pair[1].start);
        }
        for group in &groups {
            let lines: usize = rows[group.clone()].iter().map(|r| r.1.max(1)).sum();
            assert!(lines <= budget.max(1) || group.len() == 1);
        }
    }
}

#[test]
fn the_bar_is_as_wide_as_its_label_and_two_arrows() {
    let nav = ChangeNavigation::new(vec![3..5, 80..90], Some(4), Rect::new(0, 39, 120, 1));
    assert_eq!(nav.selected, Some(0));
    assert_eq!((nav.area.x, nav.area.y), (53, 39));
    assert_eq!((nav.area.width, nav.area.height), (13, 1));
    assert_eq!(nav.hit(52, 39), None);
    assert_eq!(nav.hit(55, 39), Some(false));
    assert_eq!(nav.hit(56, 39), None);
    assert_eq!(nav.hit(62, 39), None);
    assert_eq!(nav.hit(63, 39), Some(true));
    assert_eq!(nav.hit(65, 39), Some(true));
    assert_eq!(nav.hit(66, 39), None);
}

#[test]
fn nothing_is_selected_outside_of_the_groups() {
    let nav = ChangeNavigation::new(vec![3..5, 80..90], Some(5), Rect::new(0, 0, 12, 1));
    assert_eq!(nav.selected, None);
    assert_eq!(nav.target(true), Some(0));
    assert_eq!(nav.target(false), Some(1));
    assert_eq!((nav.area.width, nav.area.height), (0, 0));
    assert_eq!(nav.hit(0, 0), None);
}

#[test]
fn moving_forward_and_back_returns() {
    let groups = vec![0..1, 2..3, 4..5];
    for i in 0..2usize {
        let here = ChangeNavigation::new(groups.clone(), Some(i * 2), Rect::new(0, 0, 80, 1));
        let next = here.target(true).unwrap();
        let there = ChangeNavigation::new(groups.clone(), Some(next * 2), Rect::new(0, 0, 80, 1));
        assert_eq!(there.target(false), here.selected);
    }
    let last = ChangeNavigation::new(groups, Some(4), Rect::new(0, 0, 80, 1));
    assert_eq!(last.target(true), None);
}

#[test]
fn a_default_navigation_is_empty() {
    let nav = ChangeNavigation::default();
    assert!(nav.groups.is_empty());
    assert_eq!(nav.selected, None);
    assert_eq!(nav.area.width, 0);
    assert_eq!(nav.target(true), None);
}

#[test]
fn an_area_is_cut_to_the_grid() {
    let wide = Rect::new(65_530, 2, 10, 3);
    assert_eq!((wide.x, wide.y, wide.width, wide.height), (65_530, 2, 5, 3));
    assert_eq!(wide.right(), 65_535);
    assert_eq!(Rect::new(4, 0, 10, 1).right(), 14);
}

#[test]
fn an_oversized_run_opens_a_group_of_its_own() {
    let rows = [(true, 1), (false, 1), (true, 2), (true, 2), (true, 2), (false, 1), (true, 1)];
    assert_eq!(group_changes(&rows, 4), vec![0..1, 2..4, 4..7]);
    assert_eq!(group_changes(&rows, 10), vec![0..7]);
}
