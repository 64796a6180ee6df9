use session_links::groups::extract;
use session_links::selection::GenerateOptions;
use session_links::session::{SessionTree, Tab, Window};

fn tab(url: &str, title: &str) -> Tab {
    Tab { url: url.as_bytes().to_vec(), title: title.as_bytes().to_vec() }
}

fn window(title: &str, open: bool, tabs: Vec<Tab>) -> Window {
    Window { title: title.as_bytes().to_vec(), open, tabs }
}

fn three_open_one_closed() -> SessionTree {
    SessionTree {
        windows: vec![
            window("A", true, vec![tab("https://a", "a")]),
            window("B", true, vec![]),
            window("", false, vec![tab("https://c", "c")]),
            window("C", true, vec![]),
        ],
    }
}

#[test]
fn extract_partitions_and_indexes() {
    let groups = extract(&three_open_one_closed());
    assert_eq!(groups.open.len(), 3);
    assert_eq!(groups.closed.len(), 1);
    for (i, g) in groups.open.iter().enumerate() {
        assert_eq!(g.index as usize, i);
    }
    assert_eq!(groups.closed[0].index, 0);
    assert_eq!(groups.open[0].name, b"A".to_vec());
    assert_eq!(groups.open[1].name, b"B".to_vec());
    assert_eq!(groups.open[2].name, b"C".to_vec());
}

#[test]
fn extract_name_falls_back_deterministically() {
    let tree = SessionTree {
        windows: vec![
            window("", true, vec![]),
            window("Named", true, vec![]),
            window("", true, vec![]),
        ],
    };
    let g1 = extract(&tree);
    assert_eq!(g1.open[0].name, b"Window 1".to_vec());
    assert_eq!(g1.open[1].name, b"Named".to_vec());
    assert_eq!(g1.open[2].name, b"Window 3".to_vec());
    let g2 = extract(&tree);
    assert_eq!(g1.open[0].name, g2.open[0].name);
    assert_eq!(g1.open[2].name, g2.open[2].name);
}

#[test]
fn selected_groups_resolves_none_as_all() {
    let groups = extract(&three_open_one_closed());
    let opts = GenerateOptions::default();
    assert_eq!(opts.selected_groups(&groups), 4);
}

#[test]
fn selected_groups_counts_only_indexes_that_address_a_group() {
    let groups = extract(&three_open_one_closed());
    let opts = GenerateOptions {
        open_group_indexes: Some(vec![0, 2, 9]),
        closed_group_indexes: Some(vec![5]),
    };
    assert_eq!(opts.selected_groups(&groups), 2);
}

#[test]
fn select_then_deselect_restores_count_and_snaps_back() {
    let groups = extract(&three_open_one_closed());
    let mut opts = GenerateOptions {
        open_group_indexes: None,
        closed_group_indexes: Some(Vec::new()),
    };
    let before = opts.selected_groups(&groups);
    assert_eq!(before, 3);

    let changed = opts.change_selected_tab_group(&groups, 1, true, true);
    assert!(changed);
    assert_eq!(opts.open_group_indexes, Some(vec![1]));
    assert_eq!(opts.selected_groups(&groups), 1);

    let changed = opts.change_selected_tab_group(&groups, 1, true, false);
    assert!(changed);
    assert_eq!(opts.selected_groups(&groups), before);
    assert_eq!(opts.open_group_indexes, None);
    assert_eq!(opts.closed_group_indexes, Some(Vec::new()));
}

#[test]
fn selecting_materializes_the_other_partition() {
    let groups = extract(&three_open_one_closed());
    let mut opts = GenerateOptions::default();
    let changed = opts.change_selected_tab_group(&groups, 0, false, true);
    assert!(changed);
    assert_eq!(opts.open_group_indexes, Some(Vec::new()));
    assert_eq!(opts.closed_group_indexes, Some(vec![0]));
    assert_eq!(opts.selected_groups(&groups), 1);
}

#[test]
fn select_is_idempotent_on_selected_index() {
    let groups = extract(&three_open_one_closed());
    let mut opts = GenerateOptions {
        open_group_indexes: Some(vec![2]),
        closed_group_indexes: Some(Vec::new()),
    };
    let changed = opts.change_selected_tab_group(&groups, 2, true, true);
    assert!(!changed);
    assert_eq!(opts.open_group_indexes, Some(vec![2]));
}

#[test]
fn deselect_is_idempotent_on_absent_index() {
    let groups = extract(&three_open_one_closed());
    let mut opts = GenerateOptions {
        open_group_indexes: Some(vec![2]),
        closed_group_indexes: Some(Vec::new()),
    };
    assert!(!opts.change_selected_tab_group(&groups, 1, true, false));
    assert_eq!(opts.open_group_indexes, Some(vec![2]));
    let mut all = GenerateOptions::default();
    assert!(!all.change_selected_tab_group(&groups, 1, true, false));
    assert_eq!(all.open_group_indexes, None);
}

#[test]
fn deselecting_last_group_of_closed_partition_also_snaps_back() {
    let groups = extract(&three_open_one_closed());
    let mut opts = GenerateOptions {
        open_group_indexes: Some(Vec::new()),
        closed_group_indexes: Some(vec![0]),
    };
    assert_eq!(opts.selected_groups(&groups), 1);
    let changed = opts.change_selected_tab_group(&groups, 0, false, false);
    assert!(changed);
    assert_eq!(opts.open_group_indexes, None);
    assert_eq!(opts.closed_group_indexes, Some(Vec::new()));
    assert_eq!(opts.selected_groups(&groups), 3);
}
