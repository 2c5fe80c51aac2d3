use cmdx::command::Command;
use cmdx::rank::{best_match, best_score, fuzzy_search, rank, score_command, search};

/// The score of a command that holds `text` alone.
fn fuzzy_match(text: &str, query: &str) -> Option<i64> {
    score_command(&Command::new(text, "", ""), query)
}

fn sample_commands() -> Vec<Command> {
    vec![
        Command::new("git/status", "git status", "Show working tree status"),
        Command::new("git/commit", "git commit -m", "Commit changes"),
        Command::new("docker/ps", "docker ps -a", "List all containers"),
        Command::new("docker/prune", "docker system prune -af", "Remove unused data"),
    ]
}

#[test]
fn rank_orders_by_descending_score_and_keeps_ties_in_input_order() {
    let scores = vec![Some(5), None, Some(9), Some(5), Some(-3), None, Some(9), Some(5)];
    assert_eq!(rank(&scores), vec![(2, 9), (6, 9), (0, 5), (3, 5), (7, 5), (4, -3)]);
}

#[test]
fn rank_of_nothing_is_empty() {
    assert_eq!(rank(&vec![]), vec![]);
    assert_eq!(rank(&vec![None, None]), vec![]);
}

#[test]
fn rank_takes_the_extreme_scores() {
    let scores = vec![Some(i64::MIN), Some(i64::MAX), Some(0)];
    assert_eq!(rank(&scores), vec![(1, i64::MAX), (2, 0), (0, i64::MIN)]);
}

#[test]
fn best_score_is_the_greatest_of_those_present() {
    assert_eq!(best_score(None, None, None), None);
    assert_eq!(best_score(Some(3), None, None), Some(3));
    assert_eq!(best_score(None, Some(-4), None), Some(-4));
    assert_eq!(best_score(None, None, Some(0)), Some(0));
    assert_eq!(best_score(Some(3), Some(7), Some(5)), Some(7));
    assert_eq!(best_score(Some(-3), Some(-7), Some(-5)), Some(-3));
    assert_eq!(best_score(Some(1), Some(1), Some(2)), Some(2));
}

#[test]
fn empty_query_returns_all_in_original_order() {
    let commands = sample_commands();
    assert_eq!(search("", &commands), vec![(0, 0), (1, 0), (2, 0), (3, 0)]);
    assert_eq!(search("", &[]), vec![]);
}

#[test]
fn query_matching_nothing_returns_nothing() {
    let commands = sample_commands();
    assert_eq!(search("xyz123notexist", &commands), vec![]);
    assert!(fuzzy_search("xyz123notexist", &commands).is_empty());
    assert_eq!(best_match("xyz123notexist", &commands), None);
    assert_eq!(best_match("git", &[]), None);
}

#[test]
fn search_keeps_the_commands_that_match_in_one_field() {
    let commands = sample_commands();
    let mut places: Vec<usize> = search("docker", &commands).into_iter().map(|h| h.0).collect();
    places.sort();
    assert_eq!(places, vec![2, 3]);
    let places: Vec<usize> = search("container", &commands).into_iter().map(|h| h.0).collect();
    assert_eq!(places, vec![2]);
}

#[test]
fn search_is_sorted_by_descending_score() {
    let commands = sample_commands();
    let hits = search("s", &commands);
    assert!(!hits.is_empty());
    for pair in hits.windows(2) {
        assert!(pair[0].1 > pair[1].1 || (pair[0].1 == pair[1].1 && pair[0].0 < pair[1].0));
    }
    for (place, score) in hits {
        assert_eq!(score_command(&commands[place], "s"), Some(score));
    }
}

#[test]
fn matching_ignores_the_case_of_ascii_letters() {
    let cmd = Command::new("docker/ps", "docker ps -a", "List all containers");
    assert!(score_command(&cmd, "DOCKER").is_some());
    assert!(score_command(&cmd, "Docker").is_some());
    assert!(score_command(&cmd, "list").is_some());
    assert!(score_command(&cmd, "dps").is_some());
    assert!(score_command(&cmd, "spd").is_none());
    assert_eq!(score_command(&cmd, ""), Some(0));
}

#[test]
fn the_score_is_the_best_of_the_three_fields_not_that_of_their_join() {
    // "ab" is found in no single field, though the fields joined hold it
    let cmd = Command::new("a", "b", "");
    assert_eq!(score_command(&cmd, "ab"), None);
    assert!(search("ab", &[cmd]).is_empty());
}

#[test]
fn a_better_match_scores_higher() {
    let exact = Command::new("prune", "x", "");
    let spread = Command::new("p-r-u-n-e", "x", "");
    let a = score_command(&exact, "prune").unwrap();
    let b = score_command(&spread, "prune").unwrap();
    assert!(a > b);
    assert_eq!(search("prune", &[spread, exact]), vec![(1, a), (0, b)]);
}

#[test]
fn fuzzy_search_hands_out_the_commands_of_the_ranking() {
    let commands = sample_commands();
    let hits = search("git", &commands);
    let found = fuzzy_search("git", &commands);
    assert_eq!(found.len(), 2);
    assert_eq!(hits.len(), 2);
    for k in 0..2 {
        assert_eq!(found[k].0, &commands[hits[k].0]);
        assert_eq!(found[k].1, hits[k].1);
    }
    assert_eq!(best_match("git", &commands), Some(found[0].0));
}

#[test]
fn best_match_prefers_the_path_that_fits() {
    let commands = sample_commands();
    assert_eq!(best_match("docker/prune", &commands).unwrap().path, "docker/prune");
    assert_eq!(best_match("commit", &commands).unwrap().path, "git/commit");
}

#[test]
fn a_text_matches_where_it_holds_the_query_in_order() {
    assert_eq!(fuzzy_match("", ""), Some(0));
    assert_eq!(fuzzy_match("abcdefaghi", ""), Some(0));
    assert_eq!(fuzzy_match("", "a"), None);
    assert_eq!(fuzzy_match("abc", "abx"), None);
    assert_eq!(fuzzy_match("abc", "cba"), None);
    assert_eq!(fuzzy_match("abc", "abcd"), None);
    assert_eq!(fuzzy_match("abcdefaghi", "中"), None);
    assert!(fuzzy_match("axbycz", "abc").is_some());
    assert!(fuzzy_match("axbycz", "xyz").is_some());
    assert!(fuzzy_match("Hello, 世界", "H世").is_some());
    assert!(fuzzy_match("Hello, 世界", "h世").is_some());
    assert!(fuzzy_match("hello", "HELLO").is_some());
    assert!(fuzzy_match("aa", "aaa").is_none());
}

#[test]
fn only_ascii_letters_match_in_either_case() {
    assert!(fuzzy_match("STRASSE", "strasse").is_some());
    assert!(fuzzy_match("É", "é").is_none());
    assert!(fuzzy_match("é", "É").is_none());
    assert!(fuzzy_match("[", "{").is_none());
    assert!(fuzzy_match("@", "`").is_none());
}

#[test]
fn the_same_texts_have_the_same_score() {
    let first = fuzzy_match("docker system prune -af", "dsp");
    for _ in 0..3 {
        assert_eq!(fuzzy_match("a long text that changes what the matcher has seen", "ltm"), fuzzy_match("a long text that changes what the matcher has seen", "ltm"));
        assert_eq!(fuzzy_match("docker system prune -af", "dsp"), first);
    }
    assert!(first.is_some());
}
