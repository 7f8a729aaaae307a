//! Looking projects up in a snapshot of the registry: by a piece of the
//! repository's name, by author, and by fuzzy match.
//!
//! A snapshot is a `Vec` of entries in the order in which the registry hands
//! them out. Every function here keeps that order.

use vstd::prelude::*;
use vstd::string::*;

use fuzzy_matcher::skim::SkimMatcherV2;
use fuzzy_matcher::FuzzyMatcher;

use crate::project::Project;
use crate::ranking::{is_ranking, positions, rank_matches, ranking};
use crate::text::{contains_text, occurs_in, same_text};

verus! {

/// A row of the registry: the id that the registry gave it, and the project.
#[derive(Debug, PartialEq, Eq)]
pub struct Entry {
    pub id: String,
    pub project: Project,
}

impl Clone for Entry {
    fn clone(&self) -> (copy: Self)
        ensures
            copy == *self,
    {
        Entry { id: self.id.clone(), project: self.project.clone() }
    }
}

/// The entry's repository name holds `query`.
pub open spec fn names(entry: Entry, query: Seq<char>) -> bool {
    occurs_in(entry.project.repo@, query)
}

/// `at` is the place of the first entry whose repository name holds `query`.
pub open spec fn is_first_hit(entries: Seq<Entry>, query: Seq<char>, at: int) -> bool {
    &&& 0 <= at < entries.len()
    &&& names(entries[at], query)
    &&& forall|k: int| 0 <= k < at ==> !names(#[trigger] entries[k], query)
}

/// The place of the first entry whose repository name holds `query`, if
/// there is such an entry.
pub open spec fn first_hit(entries: Seq<Entry>, query: Seq<char>) -> Option<int> {
    if exists|at: int| is_first_hit(entries, query, at) {
        Some(choose|at: int| is_first_hit(entries, query, at))
    } else {
        None
    }
}

/// The test that `select_author` makes: the entry's user is `author`.
pub open spec fn by_author(author: Seq<char>) -> spec_fn(Entry) -> bool {
    |entry: Entry| entry.project.user@ == author
}

/// No id occurs twice.
pub open spec fn distinct_ids(entries: Seq<Entry>) -> bool {
    forall|i: int, j: int|
        0 <= i < j < entries.len() ==> (#[trigger] entries[i]).id@ != (#[trigger] entries[j]).id@
}

/// The first hit is what its name says: where `first_hit` gives a place, the
/// entry there holds `query` and none before it does; where it gives none, no
/// entry holds `query`.
pub proof fn lemma_first_hit(entries: Seq<Entry>, query: Seq<char>)
    ensures
        match first_hit(entries, query) {
            Some(at) => is_first_hit(entries, query, at),
            None => forall|k: int| 0 <= k < entries.len() ==> !names(#[trigger] entries[k], query),
        },
{
    if first_hit(entries, query) is None {
        assert forall|k: int| 0 <= k < entries.len() implies !names(
            #[trigger] entries[k],
            query,
        ) by {
            if names(entries[k], query) {
                lemma_some_hit_is_first(entries, query, k);
            }
        }
    }
}

/// Where the entry at `k` holds `query`, some entry is the first to do so.
proof fn lemma_some_hit_is_first(entries: Seq<Entry>, query: Seq<char>, k: int)
    requires
        0 <= k < entries.len(),
        names(entries[k], query),
    ensures
        exists|at: int| is_first_hit(entries, query, at),
    decreases k,
{
    if exists|j: int| 0 <= j < k && names(entries[j], query) {
        let j = choose|j: int| 0 <= j < k && names(entries[j], query);
        lemma_some_hit_is_first(entries, query, j);
    } else {
        assert(is_first_hit(entries, query, k));
    }
}

/// The first entry, in the snapshot's order, whose repository name holds
/// `query` as it stands: no folding of case, no normalisation. `None` where
/// no entry's does.
pub fn find<'a>(entries: &'a Vec<Entry>, query: &str) -> (found: Option<&'a Entry>)
    ensures
        match found {
            Some(entry) => first_hit(entries@, query@) matches Some(at) && *entry == entries@[at],
            None => first_hit(entries@, query@) is None,
        },
{
    let mut i: usize = 0;
    while i < entries.len()
        invariant
            i <= entries.len(),
            forall|k: int| 0 <= k < i ==> !names(#[trigger] entries@[k], query@),
        decreases entries.len() - i,
    {
        if contains_text(entries[i].project.repo.as_str(), query) {
            proof {
                assert(is_first_hit(entries@, query@, i as int));
                let at = choose|at: int| is_first_hit(entries@, query@, at);
                assert(at == i) by {
                    if at < i {
                        assert(!names(entries@[at], query@));
                    } else if i < at {
                        assert(!names(entries@[i as int], query@));
                    }
                }
            }
            return Some(&entries[i]);
        }
        i += 1;
    }
    proof {
        if exists|at: int| is_first_hit(entries@, query@, at) {
            let at = choose|at: int| is_first_hit(entries@, query@, at);
            assert(!names(entries@[at], query@));
        }
    }
    None
}

/// The entries whose user is exactly `author`, in the snapshot's order. No
/// folding of case, no fuzziness.
pub fn select_author(entries: Vec<Entry>, author: &str) -> (kept: Vec<Entry>)
    ensures
        kept@ == entries@.filter(by_author(author@)),
        distinct_ids(entries@) ==> distinct_ids(kept@),
{
    let mut kept: Vec<Entry> = Vec::new();
    let mut i: usize = 0;
    while i < entries.len()
        invariant
            i <= entries.len(),
            kept@ == entries@.take(i as int).filter(by_author(author@)),
        decreases entries.len() - i,
    {
        proof {
            reveal(Seq::filter);
            assert(entries@.take(i + 1).drop_last() =~= entries@.take(i as int));
        }
        if same_text(entries[i].project.user.as_str(), author) {
            kept.push(entries[i].clone());
        }
        i += 1;
    }
    proof {
        assert(entries@.take(i as int) =~= entries@);
        if distinct_ids(entries@) {
            lemma_filter_keeps_ids_distinct(entries@, by_author(author@));
        }
    }
    kept
}

/// A filter keeps what it keeps in order: each kept entry stood in the
/// snapshot, and of two kept entries the one that stands first stood first.
proof fn lemma_filter_embeds(entries: Seq<Entry>, keep: spec_fn(Entry) -> bool) -> (from: Seq<int>)
    ensures
        from.len() == entries.filter(keep).len(),
        forall|k: int|
            0 <= k < from.len() ==> 0 <= #[trigger] from[k] < entries.len() && entries[from[k]]
                == entries.filter(keep)[k],
        forall|k: int, l: int| 0 <= k < l < from.len() ==> #[trigger] from[k] < #[trigger] from[l],
    decreases entries.len(),
{
    reveal(Seq::filter);
    if entries.len() == 0 {
        Seq::empty()
    } else {
        let shorter = lemma_filter_embeds(entries.drop_last(), keep);
        if keep(entries.last()) {
            shorter.push(entries.len() - 1)
        } else {
            shorter
        }
    }
}

/// A filter of a snapshot without repeated ids has no repeated ids.
pub proof fn lemma_filter_keeps_ids_distinct(entries: Seq<Entry>, keep: spec_fn(Entry) -> bool)
    requires
        distinct_ids(entries),
    ensures
        distinct_ids(entries.filter(keep)),
{
    let from = lemma_filter_embeds(entries, keep);
    let kept = entries.filter(keep);
    assert forall|i: int, j: int| 0 <= i < j < kept.len() implies (#[trigger] kept[i]).id@ != (
    #[trigger] kept[j]).id@ by {
        assert(from[i] < from[j]);
        assert(entries[from[i]].id@ != entries[from[j]].id@);
    }
}

/// `c`, with an ASCII capital letter turned into its small letter.
pub open spec fn fold_ascii(c: char) -> char {
    if 'A' <= c && c <= 'Z' {
        ((c as u32) + 32) as char
    } else {
        c
    }
}

/// `at` gives for each character of `pattern` a place in `choice` that holds
/// the same character, up to the case of ASCII letters; the places rise.
pub open spec fn is_embedding(choice: Seq<char>, pattern: Seq<char>, at: Seq<int>) -> bool {
    &&& at.len() == pattern.len()
    &&& forall|k: int|
        0 <= k < at.len() ==> 0 <= #[trigger] at[k] < choice.len() && fold_ascii(choice[at[k]])
            == fold_ascii(pattern[k])
    &&& forall|k: int, l: int| 0 <= k < l < at.len() ==> #[trigger] at[k] < #[trigger] at[l]
}

/// The characters of `pattern` occur in `choice` in their order, not
/// necessarily side by side, up to the case of ASCII letters.
pub open spec fn embeds(choice: Seq<char>, pattern: Seq<char>) -> bool {
    exists|at: Seq<int>| is_embedding(choice, pattern, at)
}

/// The score that the matcher `fuzzy_matcher::skim::SkimMatcherV2`, as
/// `default()` makes it, gives to `choice` for `pattern`; `None` where it
/// finds no match.
pub uninterp spec fn skim_score(choice: Seq<char>, pattern: Seq<char>) -> Option<i64>;

/// Calls `fuzzy_match` of `fuzzy_matcher::FuzzyMatcher` on a fresh
/// `SkimMatcherV2::default()`. Nothing is proved of it. The contract gives
/// the outcome its name, `skim_score`: a fresh matcher computes it from the
/// two texts alone. It adds two facts that the crate's source shows at the
/// head of `SkimMatcherV2::fuzzy`: an empty pattern scores 0 on every choice,
/// and there is a score only where, one after the other, every character of
/// the pattern is found in the choice, compared exactly or up to ASCII case.
#[verifier::external_body]
fn skim_match(choice: &str, pattern: &str) -> (score: Option<i64>)
    ensures
        score == skim_score(choice@, pattern@),
        pattern@.len() == 0 ==> score == Some(0i64),
        score is Some ==> embeds(choice@, pattern@),
{
    SkimMatcherV2::default().fuzzy_match(choice, pattern)
}

/// The score of each entry for `query`: that of its rendered form.
pub open spec fn match_scores(entries: Seq<Entry>, query: Seq<char>) -> Seq<Option<i64>> {
    Seq::new(entries.len(), |i: int| skim_score(entries[i].project@.rendered(), query))
}

/// The projects that match `query`, the best match first. Each entry is
/// scored by the fuzzy matcher on its rendered form `user/repo`; entries
/// without a score are left out; the rest are ranked by `rank_matches`, so
/// that entries of equal score keep the snapshot's order. An empty query
/// lists every project, in the snapshot's order.
pub fn fuzzy_search<'a>(entries: &'a Vec<Entry>, query: &str) -> (found: Vec<&'a Project>)
    ensures
        is_ranking(match_scores(entries@, query@), ranking(match_scores(entries@, query@))),
        found@.len() == ranking(match_scores(entries@, query@)).len(),
        found@.len() <= entries@.len(),
        forall|k: int|
            0 <= k < found@.len() ==> *(#[trigger] found@[k]) == entries@[ranking(
                match_scores(entries@, query@),
            )[k]].project,
        forall|k: int|
            0 <= k < found@.len() ==> skim_score((#[trigger] found@[k])@.rendered(), query@)
                is Some && embeds(found@[k]@.rendered(), query@),
        forall|k: int, l: int|
            0 <= k <= l < found@.len() ==> skim_score((#[trigger] found@[k])@.rendered(), query@)->0
                >= skim_score((#[trigger] found@[l])@.rendered(), query@)->0,
        query@.len() == 0 ==> found@.len() == entries@.len() && forall|k: int|
            0 <= k < found@.len() ==> *(#[trigger] found@[k]) == entries@[k].project,
{
    let ghost wanted = match_scores(entries@, query@);
    let mut scores: Vec<Option<i64>> = Vec::new();
    let mut i: usize = 0;
    while i < entries.len()
        invariant
            i <= entries.len(),
            wanted == match_scores(entries@, query@),
            scores@ == wanted.take(i as int),
            forall|k: int|
                0 <= k < i && (#[trigger] wanted[k]) is Some ==> embeds(
                    entries@[k].project@.rendered(),
                    query@,
                ),
            query@.len() == 0 ==> forall|k: int| 0 <= k < i ==> (#[trigger] wanted[k]) == Some(0i64),
        decreases entries.len() - i,
    {
        let shown = entries[i].project.to_string();
        let score = skim_match(shown.as_str(), query);
        scores.push(score);
        assert(scores@ =~= wanted.take(i + 1));
        i += 1;
    }
    assert(scores@ =~= wanted);
    let order = rank_matches(&scores);
    let ghost ranked = positions(order@);
    let mut found: Vec<&'a Project> = Vec::new();
    let mut k: usize = 0;
    while k < order.len()
        invariant
            k <= order.len(),
            found@.len() == k,
            ranked == positions(order@),
            ranked.len() == order.len(),
            is_ranking(wanted, ranked),
            wanted.len() == entries.len(),
            forall|j: int| 0 <= j < k ==> *(#[trigger] found@[j]) == entries@[ranked[j]].project,
        decreases order.len() - k,
    {
        assert(ranked[k as int] == order@[k as int] as int);
        found.push(&entries[order[k]].project);
        k += 1;
    }
    proof {
        assert forall|k: int| 0 <= k < found@.len() implies skim_score(
            (#[trigger] found@[k])@.rendered(),
            query@,
        ) is Some && embeds(found@[k]@.rendered(), query@) by {
            assert(wanted[ranked[k]] is Some);
        }
        assert forall|k: int, l: int| 0 <= k <= l < found@.len() implies skim_score(
            (#[trigger] found@[k])@.rendered(),
            query@,
        )->0 >= skim_score((#[trigger] found@[l])@.rendered(), query@)->0 by {
            crate::ranking::lemma_ranking_descends(wanted, ranked, k, l);
        }
        if query@.len() == 0 {
            crate::ranking::lemma_ranking_of_equals(wanted, 0i64);
        }
    }
    found
}

} // verus!
