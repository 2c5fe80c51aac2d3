use cmdx::layout::{category_of, centered_rect, split_words, truncate_str, wrap_text, Category, Rect};

#[test]
fn truncate_keeps_what_fits() {
    assert_eq!(truncate_str("docker/prune", 12), "docker/prune");
    assert_eq!(truncate_str("docker/prune", 40), "docker/prune");
    assert_eq!(truncate_str("", 0), "");
}

#[test]
fn truncate_marks_the_cut_with_two_dots() {
    assert_eq!(truncate_str("docker/prune", 11), "docker/pr..");
    assert_eq!(truncate_str("docker/prune", 3), "d..");
    assert_eq!(truncate_str("docker/prune", 2), "do");
    assert_eq!(truncate_str("docker/prune", 1), "d");
    assert_eq!(truncate_str("docker/prune", 0), "");
}

#[test]
fn truncate_counts_characters() {
    assert_eq!(truncate_str("äöüß日本語", 7), "äöüß日本語");
    assert_eq!(truncate_str("äöüß日本語", 6), "äöüß..");
}

#[test]
fn centered_rect_lies_in_the_middle() {
    let screen = Rect { x: 0, y: 0, width: 100, height: 40 };
    assert_eq!(centered_rect(50, 40, screen), Rect { x: 25, y: 12, width: 50, height: 16 });
    assert_eq!(centered_rect(45, 55, screen), Rect { x: 27, y: 9, width: 45, height: 22 });
    let offset = Rect { x: 10, y: 5, width: 81, height: 25 };
    assert_eq!(centered_rect(40, 20, offset), Rect { x: 34, y: 15, width: 32, height: 5 });
    assert_eq!(centered_rect(100, 100, offset), offset);
    assert_eq!(centered_rect(0, 0, screen), Rect { x: 50, y: 20, width: 0, height: 0 });
}

#[test]
fn centered_rect_stays_in_range() {
    let big = Rect { x: 65535, y: 65000, width: 65535, height: 65535 };
    assert_eq!(centered_rect(50, 200, big), Rect { x: 65535, y: 65000, width: 32767, height: 65535 });
    let far = Rect { x: 65530, y: 0, width: 100, height: 10 };
    assert_eq!(centered_rect(50, 50, far), Rect { x: 65535, y: 2, width: 50, height: 5 });
}

#[test]
fn categories_by_the_first_name() {
    assert_eq!(category_of("git/status"), Category::Git);
    assert_eq!(category_of("git"), Category::Git);
    assert_eq!(category_of("docker/ps"), Category::Docker);
    assert_eq!(category_of("pg/dump"), Category::Database);
    assert_eq!(category_of("postgres/a/b"), Category::Database);
    assert_eq!(category_of("db/x"), Category::Database);
    assert_eq!(category_of("npm/i"), Category::Node);
    assert_eq!(category_of("node/v"), Category::Node);
    assert_eq!(category_of("cargo/build"), Category::Rust);
    assert_eq!(category_of("rust/up"), Category::Rust);
    assert_eq!(category_of("k8s/pods"), Category::Kubernetes);
    assert_eq!(category_of("kubectl/ctx"), Category::Kubernetes);
    assert_eq!(category_of("sys/df"), Category::System);
    assert_eq!(category_of("linux/x"), Category::System);
    assert_eq!(category_of("net/ip"), Category::Network);
    assert_eq!(category_of("network/ip"), Category::Network);
    assert_eq!(category_of("ssh/keys"), Category::Ssh);
    assert_eq!(category_of("dev/x"), Category::Dev);
    assert_eq!(category_of("files/find"), Category::Files);
    assert_eq!(category_of("gitx/status"), Category::Other);
    assert_eq!(category_of("my/git"), Category::Other);
    assert_eq!(category_of("Git/x"), Category::Other);
    assert_eq!(category_of(""), Category::Other);
}

fn words(text: &str) -> Vec<String> {
    split_words(&text.chars().collect()).into_iter().map(|w| w.into_iter().collect()).collect()
}

#[test]
fn words_are_runs_without_white_space() {
    assert_eq!(words("git  commit\t-m \n"), vec!["git", "commit", "-m"]);
    assert_eq!(words("  one"), vec!["one"]);
    assert_eq!(words("one\u{3000}two"), vec!["one", "two"]);
    assert_eq!(words(""), Vec::<String>::new());
    assert_eq!(words(" \t "), Vec::<String>::new());
}

#[test]
fn wrap_fills_lines_word_by_word() {
    assert_eq!(
        wrap_text("docker system prune -af --volumes", 15),
        vec!["docker system", "prune -af", "--volumes"]
    );
    assert_eq!(wrap_text("a b c", 5), vec!["a b c"]);
    assert_eq!(wrap_text("a b c", 4), vec!["a b", "c"]);
    assert_eq!(wrap_text("a   b", 3), vec!["a b"]);
}

#[test]
fn wrap_cuts_a_word_that_is_too_long_for_a_line() {
    assert_eq!(wrap_text("abcdefghij", 4), vec!["abcd", "efgh", "ij"]);
    assert_eq!(wrap_text("abcdefgh", 4), vec!["abcd", "efgh"]);
    assert_eq!(wrap_text("abcdefghij kl", 4), vec!["abcd", "efgh", "ij", "kl"]);
    assert_eq!(wrap_text("abcdefghij k", 4), vec!["abcd", "efgh", "ij k"]);
    // behind an open line the long word is not cut
    assert_eq!(wrap_text("x abcdefghij y", 4), vec!["x", "abcdefghij", "y"]);
}

#[test]
fn wrap_of_nothing_and_to_no_width() {
    assert_eq!(wrap_text("", 10), vec![""]);
    assert_eq!(wrap_text("   ", 10), vec![""]);
    assert_eq!(wrap_text("some long text", 0), vec!["some long text"]);
    assert_eq!(wrap_text("", 0), vec![""]);
}

#[test]
fn wrap_counts_characters() {
    assert_eq!(wrap_text("日本語のテキスト", 3), vec!["日本語", "のテキ", "スト"]);
    assert_eq!(wrap_text("äö üß", 5), vec!["äö üß"]);
}
