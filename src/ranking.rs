//! The order in which matched completions are listed: strong matches first,
//! by score, then weak matches in the order the provider asked for.
use crate::text::{compare_text, lemma_text_order_antisymmetric, lemma_text_order_transitive, reversed, text_order};
use core::cmp::Ordering;
use vstd::prelude::*;

verus! {

/// Scores are the bit patterns of non-negative `f64` values, whose integer
/// order is the order of the values. This is the pattern of `0.2`: a match
/// scoring at least this much is a strong match.
pub const STRONG_MATCH_SCORE: u64 = 0x3FC999999999999A;

/// The bit pattern of the score `1.0`.
pub const PERFECT_SCORE: u64 = 0x3FF0000000000000;

/// The language server protocol's completion item kind for keywords.
pub const KIND_KEYWORD: u32 = 14;

/// The language server protocol's completion item kind for variables.
pub const KIND_VARIABLE: u32 = 6;

/// Keywords come before variables, and variables before the rest.
pub open spec fn kind_key(kind: Option<u32>) -> nat {
    match kind {
        Some(k) => if k == KIND_KEYWORD {
            0
        } else if k == KIND_VARIABLE {
            1
        } else {
            2
        },
        None => 2,
    }
}

/// Everything the rank of one match depends on.
pub struct RankKey {
    pub strong: bool,
    pub score: u64,
    pub sort_text: Option<Seq<char>>,
    pub kind_key: nat,
    pub filter_text: Seq<char>,
    pub candidate_id: nat,
}

/// The rank key of a match with the given score, candidate and text, whose
/// candidate carries `sort_text` and `kind`.
pub open spec fn rank_key_of(
    score: u64,
    candidate_id: nat,
    filter_text: Seq<char>,
    sort_text: Option<Seq<char>>,
    kind: Option<u32>,
) -> RankKey {
    RankKey {
        strong: score >= STRONG_MATCH_SCORE,
        score,
        sort_text,
        kind_key: kind_key(kind),
        filter_text,
        candidate_id,
    }
}

/// Integer order.
pub open spec fn int_order(x: int, y: int) -> Ordering {
    if x < y {
        Ordering::Less
    } else if x > y {
        Ordering::Greater
    } else {
        Ordering::Equal
    }
}

/// Lexicographic combination: `first`, unless it is `Equal`.
pub open spec fn then_order(first: Ordering, second: Ordering) -> Ordering {
    if first == Ordering::Equal {
        second
    } else {
        first
    }
}

/// Provider sort hints in ascending order; a candidate without one comes last.
pub open spec fn hint_order(a: Option<Seq<char>>, b: Option<Seq<char>>) -> Ordering {
    match (a, b) {
        (Some(x), Some(y)) => text_order(x, y),
        (Some(_), None) => Ordering::Less,
        (None, Some(_)) => Ordering::Greater,
        (None, None) => Ordering::Equal,
    }
}

/// The tie-break shared by both buckets: kind, then filter text, then
/// candidate index.
pub open spec fn tie_break_order(a: RankKey, b: RankKey) -> Ordering {
    then_order(
        int_order(a.kind_key as int, b.kind_key as int),
        then_order(
            text_order(a.filter_text, b.filter_text),
            int_order(a.candidate_id as int, b.candidate_id as int),
        ),
    )
}

/// Strong matches come before weak ones. Strong matches are ordered by
/// descending score, then by sort hint; weak ones by sort hint, then by
/// descending score; both then by the tie-break.
pub open spec fn rank_order(a: RankKey, b: RankKey) -> Ordering {
    if a.strong && !b.strong {
        Ordering::Less
    } else if !a.strong && b.strong {
        Ordering::Greater
    } else if a.strong {
        then_order(
            int_order(b.score as int, a.score as int),
            then_order(hint_order(a.sort_text, b.sort_text), tie_break_order(a, b)),
        )
    } else {
        then_order(
            hint_order(a.sort_text, b.sort_text),
            then_order(int_order(b.score as int, a.score as int), tie_break_order(a, b)),
        )
    }
}

proof fn lemma_hint_order_antisymmetric(a: Option<Seq<char>>, b: Option<Seq<char>>)
    ensures
        (hint_order(a, b) == Ordering::Equal) == (a == b),
        hint_order(b, a) == reversed(hint_order(a, b)),
{
    if a is Some && b is Some {
        lemma_text_order_antisymmetric(a->0, b->0);
    }
}

proof fn lemma_hint_order_transitive(a: Option<Seq<char>>, b: Option<Seq<char>>, c: Option<Seq<char>>)
    requires
        hint_order(a, b) != Ordering::Greater,
        hint_order(b, c) != Ordering::Greater,
    ensures
        hint_order(a, c) != Ordering::Greater,
        hint_order(a, b) == Ordering::Less || hint_order(b, c) == Ordering::Less ==> hint_order(a, c)
            == Ordering::Less,
{
    if a is Some && b is Some && c is Some {
        lemma_text_order_transitive(a->0, b->0, c->0);
    }
    lemma_hint_order_antisymmetric(a, b);
    lemma_hint_order_antisymmetric(b, c);
}

/// Two keys rank equally only when they are equal, and swapping them
/// reverses their order.
pub proof fn lemma_rank_order_antisymmetric(a: RankKey, b: RankKey)
    ensures
        (rank_order(a, b) == Ordering::Equal) == (a == b),
        rank_order(b, a) == reversed(rank_order(a, b)),
{
    lemma_hint_order_antisymmetric(a.sort_text, b.sort_text);
    lemma_text_order_antisymmetric(a.filter_text, b.filter_text);
}

/// How three texts are ordered among themselves, as the rank proofs need it.
proof fn lemma_text_facts(a: Seq<char>, b: Seq<char>, c: Seq<char>)
    ensures
        (text_order(a, b) == Ordering::Equal) == (a == b),
        (text_order(b, c) == Ordering::Equal) == (b == c),
        (text_order(a, c) == Ordering::Equal) == (a == c),
        text_order(b, a) == reversed(text_order(a, b)),
        text_order(a, b) != Ordering::Greater && text_order(b, c) != Ordering::Greater ==> (
        text_order(a, c) != Ordering::Greater && (text_order(a, b) == Ordering::Less
            || text_order(b, c) == Ordering::Less ==> text_order(a, c) == Ordering::Less)),
{
    lemma_text_order_antisymmetric(a, b);
    lemma_text_order_antisymmetric(b, c);
    lemma_text_order_antisymmetric(a, c);
    if text_order(a, b) != Ordering::Greater && text_order(b, c) != Ordering::Greater {
        lemma_text_order_transitive(a, b, c);
    }
}

/// How three sort hints are ordered among themselves, as the rank proofs need it.
proof fn lemma_hint_facts(a: Option<Seq<char>>, b: Option<Seq<char>>, c: Option<Seq<char>>)
    ensures
        (hint_order(a, b) == Ordering::Equal) == (a == b),
        (hint_order(b, c) == Ordering::Equal) == (b == c),
        (hint_order(a, c) == Ordering::Equal) == (a == c),
        hint_order(a, b) != Ordering::Greater && hint_order(b, c) != Ordering::Greater ==> (
        hint_order(a, c) != Ordering::Greater && (hint_order(a, b) == Ordering::Less
            || hint_order(b, c) == Ordering::Less ==> hint_order(a, c) == Ordering::Less)),
{
    lemma_hint_order_antisymmetric(a, b);
    lemma_hint_order_antisymmetric(b, c);
    lemma_hint_order_antisymmetric(a, c);
    if hint_order(a, b) != Ordering::Greater && hint_order(b, c) != Ordering::Greater {
        lemma_hint_order_transitive(a, b, c);
    }
}

/// The rank order is transitive, and strict where either step is.
pub proof fn lemma_rank_order_transitive(a: RankKey, b: RankKey, c: RankKey)
    requires
        rank_order(a, b) != Ordering::Greater,
        rank_order(b, c) != Ordering::Greater,
    ensures
        rank_order(a, c) != Ordering::Greater,
        rank_order(a, b) == Ordering::Less || rank_order(b, c) == Ordering::Less ==> rank_order(a, c)
            == Ordering::Less,
{
    lemma_text_facts(a.filter_text, b.filter_text, c.filter_text);
    lemma_hint_facts(a.sort_text, b.sort_text, c.sort_text);
}

/// The rank of one match, as the library computes and compares it.
pub struct MatchRank {
    pub strong: bool,
    pub score: u64,
    pub sort_text: Option<String>,
    pub kind_key: u8,
    pub filter_text: String,
    pub candidate_id: usize,
}

impl View for MatchRank {
    type V = RankKey;

    open spec fn view(&self) -> RankKey {
        RankKey {
            strong: self.strong,
            score: self.score,
            sort_text: match self.sort_text {
                Some(s) => Some(s@),
                None => None,
            },
            kind_key: self.kind_key as nat,
            filter_text: self.filter_text@,
            candidate_id: self.candidate_id as nat,
        }
    }
}

fn compare_ints(x: u64, y: u64) -> (r: Ordering)
    ensures
        r == int_order(x as int, y as int),
{
    if x < y {
        Ordering::Less
    } else if x > y {
        Ordering::Greater
    } else {
        Ordering::Equal
    }
}

fn compare_hints(a: &Option<String>, b: &Option<String>) -> (r: Ordering)
    ensures
        r == hint_order(
            match a {
                Some(s) => Some(s@),
                None => None,
            },
            match b {
                Some(s) => Some(s@),
                None => None,
            },
        ),
{
    match (a, b) {
        (Some(x), Some(y)) => compare_text(x.as_str(), y.as_str()),
        (Some(_), None) => Ordering::Less,
        (None, Some(_)) => Ordering::Greater,
        (None, None) => Ordering::Equal,
    }
}

fn then_compare(first: Ordering, second: Ordering) -> (r: Ordering)
    ensures
        r == then_order(first, second),
{
    match first {
        Ordering::Equal => second,
        _ => first,
    }
}

/// Compares the ranks of two matches.
pub fn compare_ranks(a: &MatchRank, b: &MatchRank) -> (r: Ordering)
    ensures
        r == rank_order(a@, b@),
{
    if a.strong && !b.strong {
        return Ordering::Less;
    }
    if !a.strong && b.strong {
        return Ordering::Greater;
    }
    let tie = then_compare(
        compare_ints(a.kind_key as u64, b.kind_key as u64),
        then_compare(
            compare_text(a.filter_text.as_str(), b.filter_text.as_str()),
            compare_ints(a.candidate_id as u64, b.candidate_id as u64),
        ),
    );
    let hints = compare_hints(&a.sort_text, &b.sort_text);
    let scores = compare_ints(b.score, a.score);
    if a.strong {
        then_compare(scores, then_compare(hints, tie))
    } else {
        then_compare(hints, then_compare(scores, tie))
    }
}

/// No item ranks after one that follows it.
pub open spec fn is_sorted_by_rank<T>(s: Seq<(MatchRank, T)>) -> bool {
    forall|i: int, j: int|
        0 <= i < j < s.len() ==> rank_order(#[trigger] s[i].0@, #[trigger] s[j].0@)
            != Ordering::Greater
}

/// Sorts items by their rank. The sort is stable: items of equal rank keep
/// their order.
pub fn sort_by_rank<T>(items: Vec<(MatchRank, T)>) -> (sorted: Vec<(MatchRank, T)>)
    ensures
        sorted@.to_multiset() == items@.to_multiset(),
        is_sorted_by_rank(sorted@),
{
    broadcast use vstd::seq_lib::group_to_multiset_ensures;

    let ghost input = items@;
    let mut items = items;
    let mut sorted: Vec<(MatchRank, T)> = Vec::new();
    while items.len() > 0
        invariant
            sorted@.to_multiset().add(items@.to_multiset()) == input.to_multiset(),
            is_sorted_by_rank(sorted@),
        decreases items@.len(),
    {
        let ghost before = items@;
        let item = match items.pop() {
            Some(item) => item,
            None => {
                return sorted;
            },
        };
        proof {
            assert(before =~= items@.push(item));
        }
        let mut p: usize = 0;
        while p < sorted.len() && matches!(compare_ranks(&item.0, &sorted[p].0), Ordering::Greater)
            invariant
                p <= sorted@.len(),
                forall|k: int| 0 <= k < p ==> rank_order(item.0@, #[trigger] sorted@[k].0@)
                    == Ordering::Greater,
            decreases sorted@.len() - p,
        {
            p = p + 1;
        }
        let ghost old_sorted = sorted@;
        proof {
            assert forall|k: int| 0 <= k < p implies rank_order(
                #[trigger] old_sorted[k].0@,
                item.0@,
            ) == Ordering::Less by {
                lemma_rank_order_antisymmetric(item.0@, old_sorted[k].0@);
            }
            assert forall|k: int| p <= k < old_sorted.len() implies rank_order(
                item.0@,
                #[trigger] old_sorted[k].0@,
            ) != Ordering::Greater by {
                if k > p {
                    lemma_rank_order_transitive(item.0@, old_sorted[p as int].0@, old_sorted[k].0@);
                }
            }
        }
        sorted.insert(p, item);
        proof {
            let s = sorted@;
            assert(s =~= old_sorted.insert(p as int, item));
            vstd::seq_lib::to_multiset_insert(old_sorted, p as int, item);
            vstd::seq_lib::to_multiset_build(items@, item);
            assert(before.to_multiset() =~= items@.to_multiset().insert(item));
            assert(sorted@.to_multiset().add(items@.to_multiset()) =~= input.to_multiset());
            assert forall|i: int, j: int| 0 <= i < j < s.len() implies rank_order(
                #[trigger] s[i].0@,
                #[trigger] s[j].0@,
            ) != Ordering::Greater by {
                if j < p {
                    assert(s[i] == old_sorted[i] && s[j] == old_sorted[j]);
                } else if j == p {
                    assert(s[i] == old_sorted[i]);
                } else if i < p {
                    assert(s[i] == old_sorted[i] && s[j] == old_sorted[j - 1]);
                    lemma_rank_order_transitive(old_sorted[i].0@, item.0@, old_sorted[j - 1].0@);
                } else if i == p {
                    assert(s[j] == old_sorted[j - 1]);
                } else {
                    assert(s[i] == old_sorted[i - 1] && s[j] == old_sorted[j - 1]);
                }
            }
        }
    }
    proof {
        assert(items@.to_multiset() =~= vstd::multiset::Multiset::empty());
        assert(sorted@.to_multiset() =~= input.to_multiset());
    }
    sorted
}

/// Sequences holding the same items still do after mapping each item.
pub proof fn lemma_map_values_to_multiset<A, B>(a: Seq<A>, b: Seq<A>, f: spec_fn(A) -> B)
    requires
        a.to_multiset() == b.to_multiset(),
    ensures
        a.map_values(f).to_multiset() == b.map_values(f).to_multiset(),
    decreases a.len(),
{
    broadcast use vstd::seq_lib::group_to_multiset_ensures;

    if a.len() == 0 {
        assert(b.to_multiset().len() == 0);
        assert(b.len() == 0);
        assert(a.map_values(f) =~= b.map_values(f));
    } else {
        let x = a.last();
        let rest = a.drop_last();
        assert(a =~= rest.push(x));
        assert(a.to_multiset().count(x) > 0);
        assert(b.contains(x));
        let j = choose|j: int| 0 <= j < b.len() && b[j] == x;
        let b_rest = b.remove(j);
        assert(b_rest.to_multiset() == b.to_multiset().remove(x));
        assert(rest.to_multiset() =~= a.to_multiset().remove(x));
        lemma_map_values_to_multiset(rest, b_rest, f);
        assert(a.map_values(f) =~= rest.map_values(f).push(f(x)));
        assert(b.map_values(f).remove(j) =~= b_rest.map_values(f));
        assert(b.map_values(f)[j] == f(x));
        let m = b.map_values(f).to_multiset();
        assert(b.map_values(f).remove(j).to_multiset() == m.remove(f(x)));
        assert(b.map_values(f).contains(f(x)));
        assert(m.count(f(x)) > 0);
        assert(m =~= m.remove(f(x)).insert(f(x)));
    }
}

} // verus!
