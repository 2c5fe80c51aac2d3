use cmdx::tree::{line_goes_on, row_guides, split_names, tree_rows, TreeRow};

fn row(depth: usize, name: &str, is_leaf: bool) -> TreeRow {
    TreeRow { depth, name: name.to_string(), is_leaf }
}

fn paths(list: &[&str]) -> Vec<String> {
    list.iter().map(|p| p.to_string()).collect()
}

fn printed(list: &[&str]) -> Vec<String> {
    let rows = tree_rows(&paths(list));
    (0..rows.len())
        .map(|i| {
            let connector = if line_goes_on(&rows, i, rows[i].depth) { "├── " } else { "└── " };
            format!("{}{}{}", row_guides(&rows, i), connector, rows[i].name)
        })
        .collect()
}

#[test]
fn names_of_a_path() {
    let names = |p: &str| -> Vec<String> {
        split_names(&p.chars().collect()).into_iter().map(|n| n.into_iter().collect()).collect()
    };
    assert_eq!(names("git/stash/pop"), vec!["git", "stash", "pop"]);
    assert_eq!(names("x"), vec!["x"]);
    assert_eq!(names(""), vec![""]);
    assert_eq!(names("a//b/"), vec!["a", "", "b", ""]);
}

#[test]
fn rows_of_a_tree() {
    let rows = tree_rows(&paths(&["docker/prune", "docker/ps", "git/stash/pop", "git/status", "x"]));
    assert_eq!(
        rows,
        vec![
            row(0, "docker", false),
            row(1, "prune", true),
            row(1, "ps", true),
            row(0, "git", false),
            row(1, "stash", false),
            row(2, "pop", true),
            row(1, "status", true),
            row(0, "x", true),
        ]
    );
}

#[test]
fn rows_of_no_paths_and_of_one() {
    assert_eq!(tree_rows(&vec![]), vec![]);
    assert_eq!(tree_rows(&paths(&["a/b/c"])), vec![row(0, "a", false), row(1, "b", false), row(2, "c", true)]);
}

#[test]
fn a_name_shared_at_another_depth_is_not_shared() {
    let rows = tree_rows(&paths(&["a/b", "b/b"]));
    assert_eq!(rows, vec![row(0, "a", false), row(1, "b", true), row(0, "b", false), row(1, "b", true)]);
}

#[test]
fn the_tree_as_printed() {
    assert_eq!(
        printed(&["docker/prune", "docker/ps", "git/stash/pop", "git/status", "x"]),
        vec![
            "├── docker",
            "│   ├── prune",
            "│   └── ps",
            "├── git",
            "│   ├── stash",
            "│   │   └── pop",
            "│   └── status",
            "└── x",
        ]
    );
}

#[test]
fn the_last_branch_has_no_line_beside_it() {
    assert_eq!(
        printed(&["a/b/c", "a/b/d", "a/e"]),
        vec!["└── a", "    ├── b", "    │   ├── c", "    │   └── d", "    └── e"]
    );
}

#[test]
fn lines_go_on_to_the_next_row_of_their_depth() {
    let rows = tree_rows(&paths(&["a/b/c", "a/d", "e"]));
    // rows: a, b, c, d, e
    assert!(line_goes_on(&rows, 0, 0));
    assert!(line_goes_on(&rows, 1, 1));
    assert!(!line_goes_on(&rows, 2, 2));
    assert!(line_goes_on(&rows, 2, 1));
    assert!(line_goes_on(&rows, 2, 0));
    assert!(!line_goes_on(&rows, 3, 1));
    assert!(line_goes_on(&rows, 3, 0));
    assert!(!line_goes_on(&rows, 4, 0));
    assert_eq!(row_guides(&rows, 2), "│   │   ");
    assert_eq!(row_guides(&rows, 3), "│   ");
    assert_eq!(row_guides(&rows, 4), "");
}
