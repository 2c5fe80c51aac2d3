//! Finding the command that a query means: the command at that very path,
//! or else the one that matches the query best.

use crate::command::{views, Command, CommandView};
use crate::error::{CmdxError, ErrorView};
use crate::rank::{best_match, command_matches, fuzzy_search, is_ranking, scores_of, shows};
use crate::store::{in_part, is_listing, Store, StoreView};
use vstd::prelude::*;
use vstd::string::*;

verus! {

/// `c` is the command of `store` that matches `query` best: the first of
/// the ranking of the commands as the store lists them.
pub open spec fn is_best_in(c: CommandView, store: StoreView, query: Seq<char>) -> bool {
    exists|list: Seq<CommandView>, hits: Seq<(usize, i64)>|
        #![trigger is_listing(list, store.leaves, None), is_ranking(hits, scores_of(list, query))]
        is_listing(list, store.leaves, None) && is_ranking(hits, scores_of(list, query))
            && hits.len() > 0 && hits[0].0 < list.len() && c == list[hits[0].0 as int]
}

/// No command of `store` matches `query`.
pub open spec fn none_matches(store: StoreView, query: Seq<char>) -> bool {
    forall|p: Seq<char>| #[trigger]
        store.leaves.contains_key(p) ==> !command_matches(store.leaves[p], query)
}

/// The command that `query` means: the command at the path `query` where
/// there is one, else the command that matches `query` best. Fails with
/// `NotInitialized` before `init`, and with `NotFound` where no command lies
/// at the path and none matches.
pub fn resolve(store: &Store, query: &str) -> (r: Result<Command, CmdxError>)
    ensures
        !store@.initialized ==> r is Err && r->Err_0@ == ErrorView::NotInitialized,
        store@.initialized && store@.leaves.contains_key(query@) ==> r is Ok && r->Ok_0@
            == store@.leaves[query@],
        store@.initialized && !store@.leaves.contains_key(query@) ==> {
            &&& r is Err <==> none_matches(store@, query@)
            &&& r is Err ==> r->Err_0@ == ErrorView::NotFound(query@)
            &&& r is Ok ==> is_best_in(r->Ok_0@, store@, query@)
        },
{
    if !store.is_initialized() {
        return Err(CmdxError::NotInitialized);
    }
    match store.get(query) {
        Ok(c) => Ok(c),
        Err(_) => {
            let commands = match store.list(None) {
                Ok(list) => list,
                Err(e) => {
                    return Err(e);
                },
            };
            let ghost list = views(commands@);
            match best_match(query, commands.as_slice()) {
                Some(c) => {
                    proof {
                        let hits = choose|hits: Seq<(usize, i64)>| #[trigger]
                            is_ranking(hits, scores_of(list, query@)) && hits.len() > 0 && hits[0].0
                                < commands@.len() && c@ == commands@[hits[0].0 as int]@;
                        assert(c@ == list[hits[0].0 as int]);
                        assert(is_listing(list, store@.leaves, None) && is_ranking(
                            hits,
                            scores_of(list, query@),
                        ));
                        let k = hits[0].0 as int;
                        assert(store@.leaves.contains_key(list[k].path));
                        assert(command_matches(store@.leaves[list[k].path], query@));
                    }
                    Ok(c.duplicate())
                },
                None => {
                    proof {
                        assert forall|p: Seq<char>| #[trigger]
                            store@.leaves.contains_key(p) implies !command_matches(
                            store@.leaves[p],
                            query@,
                        ) by {
                            assert(in_part(None, p));
                            let i = choose|i: int| 0 <= i < list.len() && #[trigger] list[i].path == p;
                            assert(!command_matches(commands@[i]@, query@));
                        }
                    }
                    Err(CmdxError::NotFound(String::from_str(query)))
                },
            }
        },
    }
}

/// The first `limit` of the commands that `query` matches, with their
/// scores, the best first.
pub fn top_matches<'a>(query: &str, commands: &'a [Command], limit: usize) -> (r: Vec<
    (&'a Command, i64),
>)
    ensures
        exists|hits: Seq<(usize, i64)>|
            is_ranking(hits, scores_of(views(commands@), query@)) && #[trigger] shows(
                r@,
                hits.take(r@.len() as int),
                commands@,
            ) && r@.len() == (if hits.len() <= limit {
                hits.len()
            } else {
                limit as nat
            }),
{
    let mut found = fuzzy_search(query, commands);
    let ghost hits = choose|hits: Seq<(usize, i64)>|
        is_ranking(hits, scores_of(views(commands@), query@)) && #[trigger] shows(
            found@,
            hits,
            commands@,
        );
    if found.len() > limit {
        found.truncate(limit);
    }
    proof {
        assert(shows(found@, hits.take(found@.len() as int), commands@));
    }
    found
}

} // verus!
