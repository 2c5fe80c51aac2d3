//! Fuzzy search over commands: every command is scored against the query on
//! its path, its command and its explanation, the best of the three counts,
//! and the commands that match come out best first.

use crate::command::{views, Command, CommandView};
use fuzzy_matcher::skim::SkimMatcherV2;
use fuzzy_matcher::FuzzyMatcher;
use vstd::prelude::*;

verus! {

/// The code point of `c`, with the letters `A` to `Z` taken as `a` to `z`.
pub open spec fn ascii_lower(c: char) -> int {
    if 0x41 <= (c as u32) <= 0x5A {
        (c as u32) + 0x20
    } else {
        (c as u32) as int
    }
}

/// `a` and `b` are the same character but for the case of an ASCII letter.
pub open spec fn same_letter(a: char, b: char) -> bool {
    ascii_lower(a) == ascii_lower(b)
}

/// The characters of `query` occur in `text` in their order, not
/// necessarily side by side, and whatever the case of their ASCII letters.
/// Each character of `query` is matched with the first character of `text`
/// that fits and lies behind the match of the one before.
pub open spec fn fuzzy_matches(text: Seq<char>, query: Seq<char>) -> bool
    decreases text.len(),
{
    if query.len() == 0 {
        true
    } else if text.len() == 0 {
        false
    } else if same_letter(text[0], query[0]) {
        fuzzy_matches(text.drop_first(), query.drop_first())
    } else {
        fuzzy_matches(text.drop_first(), query)
    }
}

/// The score that the matcher of the crate `fuzzy-matcher` gives to `text`
/// for `query`, or `None` where `text` does not match.
pub uninterp spec fn skim_score(text: Seq<char>, query: Seq<char>) -> Option<i64>;

/// `fuzzy_match` of `fuzzy_matcher::skim::SkimMatcherV2`, made with `default`
/// and `ignore_case`, on a matcher of its own for each call. What it
/// returns is a function of the two texts, named `skim_score`. It returns a
/// score if and only if the characters of `query` occur in `text` in their
/// order, whatever the case of ASCII letters, and the score 0 for the empty
/// query.
#[verifier::external_body]
fn skim_match(text: &str, query: &str) -> (r: Option<i64>)
    ensures
        r == skim_score(text@, query@),
        r is Some <==> fuzzy_matches(text@, query@),
        query@.len() == 0 ==> r == Some(0i64),
{
    SkimMatcherV2::default().ignore_case().fuzzy_match(text, query)
}

/// `at` gives, for each character of `query`, a place in `text` that holds
/// it, whatever the case of an ASCII letter, and the places ascend.
pub open spec fn is_embedding(text: Seq<char>, query: Seq<char>, at: Seq<int>) -> bool {
    &&& at.len() == query.len()
    &&& forall|k: int|
        0 <= k < at.len() ==> 0 <= #[trigger] at[k] < text.len() && same_letter(
            text[at[k]],
            query[k],
        )
    &&& forall|j: int, k: int| 0 <= j < k < at.len() ==> at[j] < at[k]
}

/// The places `at`, each moved by `d`.
pub open spec fn moved(at: Seq<int>, d: int) -> Seq<int> {
    Seq::new(at.len(), |k: int| at[k] + d)
}

/// A text that matches holds the characters of the query in their order.
pub proof fn lemma_match_embeds(text: Seq<char>, query: Seq<char>) -> (at: Seq<int>)
    requires
        fuzzy_matches(text, query),
    ensures
        is_embedding(text, query, at),
    decreases text.len(),
{
    if query.len() == 0 {
        Seq::empty()
    } else if same_letter(text[0], query[0]) {
        let rest = lemma_match_embeds(text.drop_first(), query.drop_first());
        let at = seq![0int] + moved(rest, 1);
        assert forall|k: int| 0 <= k < at.len() implies 0 <= #[trigger] at[k] < text.len()
            && same_letter(text[at[k]], query[k]) by {
            if k > 0 {
                assert(at[k] == rest[k - 1] + 1);
                assert(text.drop_first()[rest[k - 1]] == text[at[k]]);
                assert(query.drop_first()[k - 1] == query[k]);
            }
        }
        assert forall|j: int, k: int| 0 <= j < k < at.len() implies at[j] < at[k] by {
            assert(at[k] == rest[k - 1] + 1);
            if j > 0 {
                assert(at[j] == rest[j - 1] + 1);
            }
        }
        at
    } else {
        let rest = lemma_match_embeds(text.drop_first(), query);
        let at = moved(rest, 1);
        assert forall|k: int| 0 <= k < at.len() implies 0 <= #[trigger] at[k] < text.len()
            && same_letter(text[at[k]], query[k]) by {
            assert(text.drop_first()[rest[k]] == text[at[k]]);
        }
        at
    }
}

/// A text that holds the characters of the query in their order matches.
pub proof fn lemma_embedding_matches(text: Seq<char>, query: Seq<char>, at: Seq<int>)
    requires
        is_embedding(text, query, at),
    ensures
        fuzzy_matches(text, query),
    decreases text.len(),
{
    if query.len() == 0 {
    } else {
        assert(0 <= at[0] < text.len());
        if same_letter(text[0], query[0]) {
            let rest = moved(at.drop_first(), -1);
            assert forall|k: int| 0 <= k < rest.len() implies 0 <= #[trigger] rest[k]
                < text.drop_first().len() && same_letter(
                text.drop_first()[rest[k]],
                query.drop_first()[k],
            ) by {
                assert(rest[k] == at[k + 1] - 1);
                assert(at[0] < at[k + 1]);
                assert(text.drop_first()[rest[k]] == text[at[k + 1]]);
            }
            assert forall|j: int, k: int| 0 <= j < k < rest.len() implies rest[j] < rest[k] by {
                assert(at[j + 1] < at[k + 1]);
            }
            lemma_embedding_matches(text.drop_first(), query.drop_first(), rest);
        } else {
            let rest = moved(at, -1);
            assert forall|k: int| 0 <= k < rest.len() implies 0 <= #[trigger] rest[k]
                < text.drop_first().len() && same_letter(text.drop_first()[rest[k]], query[k]) by {
                assert(rest[k] == at[k] - 1);
                if k > 0 {
                    assert(at[0] < at[k]);
                }
                assert(at[k] != 0) by {
                    if at[k] == 0 {
                        assert(k == 0);
                    }
                }
                assert(text.drop_first()[rest[k]] == text[at[k]]);
            }
            assert forall|j: int, k: int| 0 <= j < k < rest.len() implies rest[j] < rest[k] by {
                assert(at[j] < at[k]);
            }
            lemma_embedding_matches(text.drop_first(), query, rest);
        }
    }
}

/// A text matches a query if and only if it holds the characters of the
/// query in their order: matching each character at the first place that
/// fits loses no match.
pub proof fn law_match_is_subsequence(text: Seq<char>, query: Seq<char>)
    ensures
        fuzzy_matches(text, query) <==> exists|at: Seq<int>| is_embedding(text, query, at),
{
    if fuzzy_matches(text, query) {
        let at = lemma_match_embeds(text, query);
        assert(is_embedding(text, query, at));
    }
    if exists|at: Seq<int>| is_embedding(text, query, at) {
        let at = choose|at: Seq<int>| is_embedding(text, query, at);
        lemma_embedding_matches(text, query, at);
    }
}

/// The greater of two scores, where `None` is less than every score.
pub open spec fn better(a: Option<i64>, b: Option<i64>) -> Option<i64> {
    match (a, b) {
        (Some(x), Some(y)) => if x >= y {
            a
        } else {
            b
        },
        (Some(_), None) => a,
        _ => b,
    }
}

/// The score of a command: the best of the scores of its three texts.
pub open spec fn best_of(path: Option<i64>, command: Option<i64>, explanation: Option<i64>) -> Option<
    i64,
> {
    better(better(path, command), explanation)
}

/// The score of the command `c` for `query`.
pub open spec fn command_score(c: CommandView, query: Seq<char>) -> Option<i64> {
    best_of(
        skim_score(c.path, query),
        skim_score(c.command, query),
        skim_score(c.explanation, query),
    )
}

/// `query` matches one of the three texts of `c`.
pub open spec fn command_matches(c: CommandView, query: Seq<char>) -> bool {
    fuzzy_matches(c.path, query) || fuzzy_matches(c.command, query) || fuzzy_matches(
        c.explanation,
        query,
    )
}

/// The scores of `commands` for `query`, in the same order.
pub open spec fn scores_of(commands: Seq<CommandView>, query: Seq<char>) -> Seq<Option<i64>> {
    Seq::new(commands.len(), |i: int| command_score(commands[i], query))
}

/// The first of two hits comes before the second: it has the greater score,
/// or the same score and the smaller place.
pub open spec fn ranks_before(a: (usize, i64), b: (usize, i64)) -> bool {
    a.1 > b.1 || (a.1 == b.1 && a.0 < b.0)
}

/// `hits` is the ranking of `scores`: it holds each place that has a score,
/// once and with that score, and no other; a greater score comes first, and
/// of two places with the same score the smaller.
pub open spec fn is_ranking(hits: Seq<(usize, i64)>, scores: Seq<Option<i64>>) -> bool {
    &&& forall|k: int|
        0 <= k < hits.len() ==> (#[trigger] hits[k]).0 < scores.len() && scores[hits[k].0 as int]
            == Some(hits[k].1)
    &&& forall|i: int|
        0 <= i < scores.len() && (#[trigger] scores[i]) is Some ==> exists|k: int|
            0 <= k < hits.len() && (#[trigger] hits[k]).0 == i
    &&& forall|a: int, b: int| 0 <= a < b < hits.len() ==> ranks_before(hits[a], hits[b])
}

/// The best of the scores of the three texts of a command.
pub fn best_score(path: Option<i64>, command: Option<i64>, explanation: Option<i64>) -> (r: Option<
    i64,
>)
    ensures
        r == best_of(path, command, explanation),
{
    let first = match (path, command) {
        (Some(x), Some(y)) => if x >= y {
            path
        } else {
            command
        },
        (Some(_), None) => path,
        _ => command,
    };
    match (first, explanation) {
        (Some(x), Some(y)) => if x >= y {
            first
        } else {
            explanation
        },
        (Some(_), None) => first,
        _ => explanation,
    }
}

/// The score of `cmd` for `query`, or `None` where `query` matches none of
/// its texts.
pub fn score_command(cmd: &Command, query: &str) -> (r: Option<i64>)
    ensures
        r == command_score(cmd@, query@),
        r is Some <==> command_matches(cmd@, query@),
        query@.len() == 0 ==> r == Some(0i64),
{
    let path = skim_match(cmd.path.as_str(), query);
    let command = skim_match(cmd.command.as_str(), query);
    let explanation = skim_match(cmd.explanation.as_str(), query);
    best_score(path, command, explanation)
}

/// The ranking of `scores`.
pub fn rank(scores: &Vec<Option<i64>>) -> (r: Vec<(usize, i64)>)
    ensures
        is_ranking(r@, scores@),
{
    let mut out: Vec<(usize, i64)> = Vec::new();
    let mut i: usize = 0;
    while i < scores.len()
        invariant
            i <= scores@.len(),
            is_ranking(out@, scores@.take(i as int)),
        decreases scores@.len() - i,
    {
        let ghost before = out@;
        let ghost seen = scores@.take(i as int);
        let ghost next = scores@.take(i + 1);
        match scores[i] {
            None => {
                proof {
                    assert forall|j: int|
                        0 <= j < next.len() && (#[trigger] next[j]) is Some implies exists|k: int|
                        0 <= k < out@.len() && (#[trigger] out@[k]).0 == j by {
                        assert(seen[j] is Some);
                    }
                    assert forall|k: int| 0 <= k < out@.len() implies (#[trigger] out@[k]).0
                        < next.len() && next[out@[k].0 as int] == Some(out@[k].1) by {
                        assert(seen[out@[k].0 as int] == Some(out@[k].1));
                    }
                }
            },
            Some(s) => {
                let mut pos: usize = 0;
                while pos < out.len() && out[pos].1 >= s
                    invariant
                        pos <= out@.len(),
                        forall|a: int| 0 <= a < pos ==> (#[trigger] out@[a]).1 >= s,
                    decreases out@.len() - pos,
                {
                    pos += 1;
                }
                out.insert(pos, (i, s));
                proof {
                    let after = out@;
                    assert(after.len() == before.len() + 1);
                    assert(after[pos as int] == (i, s));
                    assert forall|a: int| 0 <= a < pos implies after[a] == before[a] by {}
                    assert forall|a: int| pos < a < after.len() implies after[a] == before[a - 1] by {}
                    assert forall|k: int| 0 <= k < after.len() implies (#[trigger] after[k]).0
                        < next.len() && next[after[k].0 as int] == Some(after[k].1) by {
                        if k < pos {
                            assert(seen[before[k].0 as int] == Some(before[k].1));
                        } else if k > pos {
                            assert(seen[before[k - 1].0 as int] == Some(before[k - 1].1));
                        }
                    }
                    assert forall|j: int|
                        0 <= j < next.len() && (#[trigger] next[j]) is Some implies exists|k: int|
                        0 <= k < after.len() && (#[trigger] after[k]).0 == j by {
                        if j == i {
                            assert(after[pos as int].0 == j);
                        } else {
                            assert(seen[j] is Some);
                            let k = choose|k: int|
                                0 <= k < before.len() && (#[trigger] before[k]).0 == j;
                            if k < pos {
                                assert(after[k].0 == j);
                            } else {
                                assert(after[k + 1].0 == j);
                            }
                        }
                    }
                    assert forall|a: int, b: int| 0 <= a < b < after.len() implies ranks_before(
                        after[a],
                        after[b],
                    ) by {
                        if b < pos {
                        } else if b == pos {
                            assert(before[a].0 < seen.len());
                        } else if a == pos {
                            if b - 1 > pos {
                                assert(ranks_before(before[pos as int], before[b - 1]));
                            }
                        } else if a < pos {
                            assert(ranks_before(before[a], before[b - 1]));
                        } else {
                            assert(ranks_before(before[a - 1], before[b - 1]));
                        }
                    }
                }
            },
        }
        i += 1;
    }
    assert(scores@.take(scores@.len() as int) =~= scores@);
    out
}

/// Every place of `n` places with the score 0, in order: the ranking of `n`
/// scores that are all 0.
pub open spec fn all_tied(n: nat) -> Seq<(usize, i64)> {
    Seq::new(n, |i: int| (i as usize, 0i64))
}

/// Two hits of one ranking at different places differ in their place in
/// the scores.
proof fn lemma_ranking_distinct(hits: Seq<(usize, i64)>, scores: Seq<Option<i64>>, a: int, b: int)
    requires
        is_ranking(hits, scores),
        0 <= a < hits.len(),
        0 <= b < hits.len(),
        hits[a].0 == hits[b].0,
    ensures
        a == b,
{
    if a < b {
        assert(ranks_before(hits[a], hits[b]));
    } else if b < a {
        assert(ranks_before(hits[b], hits[a]));
    }
}

/// Without its first hit a ranking is the ranking of the scores without the
/// score of that hit.
proof fn lemma_ranking_tail(hits: Seq<(usize, i64)>, scores: Seq<Option<i64>>)
    requires
        is_ranking(hits, scores),
        hits.len() > 0,
    ensures
        is_ranking(hits.drop_first(), scores.update(hits[0].0 as int, None)),
{
    let tail = hits.drop_first();
    let rest = scores.update(hits[0].0 as int, None);
    assert forall|k: int| 0 <= k < tail.len() implies (#[trigger] tail[k]).0 < rest.len()
        && rest[tail[k].0 as int] == Some(tail[k].1) by {
        assert(tail[k] == hits[k + 1]);
        if hits[k + 1].0 == hits[0].0 {
            lemma_ranking_distinct(hits, scores, k + 1, 0);
        }
    }
    assert forall|i: int| 0 <= i < rest.len() && (#[trigger] rest[i]) is Some implies exists|k: int|
        0 <= k < tail.len() && (#[trigger] tail[k]).0 == i by {
        assert(scores[i] is Some);
        let k = choose|k: int| 0 <= k < hits.len() && (#[trigger] hits[k]).0 == i;
        assert(tail[k - 1].0 == i);
    }
    assert forall|a: int, b: int| 0 <= a < b < tail.len() implies ranks_before(tail[a], tail[b]) by {
        assert(ranks_before(hits[a + 1], hits[b + 1]));
    }
}

/// Scores have one ranking only: what `is_ranking` says of the hits decides
/// each of them.
pub proof fn law_ranking_unique(x: Seq<(usize, i64)>, y: Seq<(usize, i64)>, scores: Seq<Option<i64>>)
    requires
        is_ranking(x, scores),
        is_ranking(y, scores),
    ensures
        x == y,
    decreases x.len(),
{
    if x.len() == 0 {
        if y.len() > 0 {
            assert(scores[y[0].0 as int] is Some);
        }
        assert(x =~= y);
    } else {
        assert(scores[x[0].0 as int] is Some);
        let ky = choose|k: int| 0 <= k < y.len() && (#[trigger] y[k]).0 == x[0].0;
        assert(scores[y[0].0 as int] is Some);
        let kx = choose|k: int| 0 <= k < x.len() && (#[trigger] x[k]).0 == y[0].0;
        assert(y[ky] == x[0]);
        assert(x[kx] == y[0]);
        if kx > 0 {
            assert(ranks_before(x[0], x[kx]));
        }
        if ky > 0 {
            assert(ranks_before(y[0], y[ky]));
        }
        assert(x[0] == y[0]);
        lemma_ranking_tail(x, scores);
        lemma_ranking_tail(y, scores);
        law_ranking_unique(x.drop_first(), y.drop_first(), scores.update(x[0].0 as int, None));
        assert(x =~= seq![x[0]] + x.drop_first());
        assert(y =~= seq![y[0]] + y.drop_first());
    }
}

/// Where every score is 0 the ranking holds every place, in order.
pub proof fn law_ranking_of_ties(hits: Seq<(usize, i64)>, scores: Seq<Option<i64>>)
    requires
        is_ranking(hits, scores),
        scores.len() <= usize::MAX,
        forall|i: int| 0 <= i < scores.len() ==> scores[i] == Some(0i64),
    ensures
        hits == all_tied(scores.len()),
{
    let all = all_tied(scores.len());
    assert(is_ranking(all, scores)) by {
        assert forall|i: int| 0 <= i < scores.len() && (#[trigger] scores[i]) is Some implies exists|
            k: int,
        |
            0 <= k < all.len() && (#[trigger] all[k]).0 == i by {
            assert(all[i].0 == i);
        }
    }
    law_ranking_unique(hits, all, scores);
}

/// Where there is no score the ranking is empty.
pub proof fn law_ranking_of_none(hits: Seq<(usize, i64)>, scores: Seq<Option<i64>>)
    requires
        is_ranking(hits, scores),
        forall|i: int| 0 <= i < scores.len() ==> scores[i] is None,
    ensures
        hits.len() == 0,
{
    if hits.len() > 0 {
        assert(scores[hits[0].0 as int] is Some);
    }
}

/// `hits` is what the search for `query` finds in `commands`: the ranking of
/// their scores, which holds the commands that `query` matches and, for the
/// empty query, all of them in their order.
pub open spec fn is_search_result(
    hits: Seq<(usize, i64)>,
    commands: Seq<CommandView>,
    query: Seq<char>,
) -> bool {
    &&& is_ranking(hits, scores_of(commands, query))
    &&& forall|i: int|
        0 <= i < commands.len() ==> (command_score(#[trigger] commands[i], query) is Some
            <==> command_matches(commands[i], query))
    &&& query.len() == 0 ==> hits == all_tied(commands.len())
}

/// The search finds nothing where `query` matches no command.
pub proof fn law_search_without_match(
    hits: Seq<(usize, i64)>,
    commands: Seq<CommandView>,
    query: Seq<char>,
)
    requires
        is_search_result(hits, commands, query),
        forall|i: int| 0 <= i < commands.len() ==> !command_matches(commands[i], query),
    ensures
        hits.len() == 0,
{
    law_ranking_of_none(hits, scores_of(commands, query));
}

/// The commands that `query` matches, as their places in `commands` with
/// their scores, the best first; of two with the same score the one that
/// comes first in `commands`. The empty query matches every command, with
/// the score 0, so that all come out in their order.
pub fn search(query: &str, commands: &[Command]) -> (r: Vec<(usize, i64)>)
    ensures
        is_search_result(r@, views(commands@), query@),
        (forall|i: int| 0 <= i < commands@.len() ==> !command_matches(commands@[i]@, query@))
            ==> r@.len() == 0,
{
    let ghost want = scores_of(views(commands@), query@);
    let mut scores: Vec<Option<i64>> = Vec::new();
    let mut i: usize = 0;
    while i < commands.len()
        invariant
            i <= commands@.len(),
            scores@.len() == i,
            want == scores_of(views(commands@), query@),
            forall|k: int| 0 <= k < i ==> scores@[k] == want[k],
            forall|k: int|
                0 <= k < i ==> ((#[trigger] scores@[k]) is Some <==> command_matches(
                    commands@[k]@,
                    query@,
                )),
            query@.len() == 0 ==> forall|k: int| 0 <= k < i ==> scores@[k] == Some(0i64),
        decreases commands@.len() - i,
    {
        scores.push(score_command(&commands[i], query));
        i += 1;
    }
    assert(scores@ =~= want);
    let out = rank(&scores);
    proof {
        let cv = views(commands@);
        assert forall|i: int| 0 <= i < cv.len() implies (command_score(#[trigger] cv[i], query@) is Some
            <==> command_matches(cv[i], query@)) by {
            assert(scores@[i] == want[i]);
        }
        if query@.len() == 0 {
            law_ranking_of_ties(out@, scores@);
        }
        if forall|i: int| 0 <= i < commands@.len() ==> !command_matches(commands@[i]@, query@) {
            law_ranking_of_none(out@, scores@);
        }
    }
    out
}

/// `found` holds the commands at the places of `hits`, with their scores.
pub open spec fn shows(found: Seq<(&Command, i64)>, hits: Seq<(usize, i64)>, commands: Seq<Command>) -> bool {
    &&& found.len() == hits.len()
    &&& forall|k: int|
        0 <= k < found.len() ==> 0 <= hits[k].0 < commands.len() && (#[trigger] found[k]).0@
            == commands[hits[k].0 as int]@ && found[k].1 == hits[k].1
}

/// The commands that `query` matches, with their scores, the best first; of
/// two with the same score the one that comes first in `commands`.
pub fn fuzzy_search<'a>(query: &str, commands: &'a [Command]) -> (r: Vec<(&'a Command, i64)>)
    ensures
        exists|hits: Seq<(usize, i64)>|
            is_ranking(hits, scores_of(views(commands@), query@)) && #[trigger] shows(
                r@,
                hits,
                commands@,
            ),
{
    let hits = search(query, commands);
    let mut out: Vec<(&'a Command, i64)> = Vec::new();
    let mut k: usize = 0;
    while k < hits.len()
        invariant
            k <= hits@.len(),
            is_ranking(hits@, scores_of(views(commands@), query@)),
            shows(out@, hits@.take(k as int), commands@),
        decreases hits@.len() - k,
    {
        let (idx, score) = hits[k];
        assert(hits@[k as int].0 < scores_of(views(commands@), query@).len());
        out.push((&commands[idx], score));
        k += 1;
    }
    assert(hits@.take(hits@.len() as int) =~= hits@);
    out
}

/// The command that matches `query` best, or `None` where none matches.
pub fn best_match<'a>(query: &str, commands: &'a [Command]) -> (r: Option<&'a Command>)
    ensures
        r is None <==> forall|i: int|
            0 <= i < commands@.len() ==> !command_matches(#[trigger] commands@[i]@, query@),
        r is Some ==> command_matches(r->0@, query@),
        r is Some ==> exists|hits: Seq<(usize, i64)>|
            #[trigger] is_ranking(hits, scores_of(views(commands@), query@)) && hits.len() > 0
                && hits[0].0 < commands@.len() && r->0@ == commands@[hits[0].0 as int]@,
{
    let hits = search(query, commands);
    let ghost scores = scores_of(views(commands@), query@);
    if hits.len() == 0 {
        proof {
            assert forall|i: int| 0 <= i < commands@.len() implies !command_matches(
                #[trigger] commands@[i]@,
                query@,
            ) by {
                if command_matches(commands@[i]@, query@) {
                    assert(command_score(commands@[i]@, query@) is Some);
                    assert(scores[i] is Some);
                }
            }
        }
        None
    } else {
        let idx = hits[0].0;
        proof {
            assert(hits@[0].0 < scores.len());
            assert(scores[idx as int] is Some);
            assert(command_score(commands@[idx as int]@, query@) is Some);
            assert(command_matches(commands@[idx as int]@, query@));
        }
        Some(&commands[idx])
    }
}

} // verus!
