//! Ordering candidates by fused score, and assembling one ranked list from
//! the sources that a scope reaches.
use vstd::prelude::*;
use vstd::multiset::Multiset;
use crate::merge::{merge_hits, merged};
use crate::search::{
    adapts_conversation, adapts_message, adapts_note, from_conversation_result,
    from_message_result, from_note_result, scope_covers, scope_includes,
    ConversationSearchResult, MessageSearchResult, ScopedSearchResult, SearchHitType,
    SearchResult, SearchScope,
};

verus! {

/// Where a candidate of score `score` goes in `s`: after every element of the
/// tail whose score is not below it, counting from the end.
pub open spec fn insert_pos(s: Seq<ScopedSearchResult>, score: u64) -> int
    decreases s.len(),
{
    if s.len() == 0 {
        0
    } else if s.last().score >= score {
        s.len() as int
    } else {
        insert_pos(s.drop_last(), score)
    }
}

/// Stable sort by descending score: each candidate in turn is placed after
/// all earlier ones with a score at least as high.
pub open spec fn sort_desc(s: Seq<ScopedSearchResult>) -> Seq<ScopedSearchResult>
    decreases s.len(),
{
    if s.len() == 0 {
        s
    } else {
        let p = sort_desc(s.drop_last());
        p.insert(insert_pos(p, s.last().score), s.last())
    }
}

pub open spec fn sorted_desc(s: Seq<ScopedSearchResult>) -> bool {
    forall|i: int, j: int| 0 <= i < j < s.len() ==> s[i].score >= s[j].score
}

proof fn lemma_insert_pos_bounds(s: Seq<ScopedSearchResult>, score: u64)
    ensures
        0 <= insert_pos(s, score) <= s.len(),
        forall|j: int| insert_pos(s, score) <= j < s.len() ==> #[trigger] s[j].score < score,
    decreases s.len(),
{
    if s.len() > 0 && s.last().score < score {
        lemma_insert_pos_bounds(s.drop_last(), score);
        assert forall|j: int| insert_pos(s, score) <= j < s.len() implies #[trigger] s[j].score
            < score by {
            if j < s.len() - 1 {
                assert(s.drop_last()[j] == s[j]);
            }
        }
    }
}

proof fn lemma_insert_pos_sorted(s: Seq<ScopedSearchResult>, score: u64)
    requires
        sorted_desc(s),
    ensures
        forall|j: int| 0 <= j < insert_pos(s, score) ==> #[trigger] s[j].score >= score,
    decreases s.len(),
{
    if s.len() > 0 {
        if s.last().score < score {
            assert(sorted_desc(s.drop_last()));
            lemma_insert_pos_sorted(s.drop_last(), score);
            lemma_insert_pos_bounds(s.drop_last(), score);
            assert forall|j: int| 0 <= j < insert_pos(s, score) implies #[trigger] s[j].score
                >= score by {
                assert(s.drop_last()[j] == s[j]);
            }
        } else {
            assert forall|j: int| 0 <= j < insert_pos(s, score) implies #[trigger] s[j].score
                >= score by {
                if j < s.len() - 1 {
                    assert(s[j].score >= s[s.len() - 1].score);
                }
            }
        }
    }
}

/// The stable sort yields a descending order.
pub proof fn lemma_sort_desc_sorted(s: Seq<ScopedSearchResult>)
    ensures
        sorted_desc(sort_desc(s)),
        sort_desc(s).len() == s.len(),
    decreases s.len(),
{
    if s.len() > 0 {
        let p = sort_desc(s.drop_last());
        lemma_sort_desc_sorted(s.drop_last());
        lemma_insert_pos_bounds(p, s.last().score);
        lemma_insert_pos_sorted(p, s.last().score);
        let k = insert_pos(p, s.last().score);
        let r = p.insert(k, s.last());
        assert forall|i: int, j: int| 0 <= i < j < r.len() implies r[i].score >= r[j].score by {
            if j < k {
            } else if j == k {
                assert(r[i] == p[i]);
            } else if i < k {
                assert(r[j] == p[j - 1]);
            } else if i == k {
                assert(r[j] == p[j - 1]);
            } else {
                assert(r[i] == p[i - 1]);
                assert(r[j] == p[j - 1]);
            }
        }
    }
}

/// The stable sort keeps every candidate, as often as it occurs.
pub proof fn lemma_sort_desc_permutes(s: Seq<ScopedSearchResult>)
    ensures
        sort_desc(s).to_multiset() == s.to_multiset(),
    decreases s.len(),
{
    broadcast use vstd::seq_lib::group_to_multiset_ensures;
    if s.len() > 0 {
        let p = sort_desc(s.drop_last());
        lemma_sort_desc_permutes(s.drop_last());
        lemma_sort_desc_sorted(s.drop_last());
        lemma_insert_pos_bounds(p, s.last().score);
        let k = insert_pos(p, s.last().score);
        let x = s.last();
        assert(p.insert(k, x) =~= p.take(k) + seq![x] + p.skip(k));
        assert(p =~= p.take(k) + p.skip(k));
        vstd::seq_lib::lemma_multiset_commutative(p.take(k) + seq![x], p.skip(k));
        vstd::seq_lib::lemma_multiset_commutative(p.take(k), seq![x]);
        vstd::seq_lib::lemma_multiset_commutative(p.take(k), p.skip(k));
        assert(s =~= s.drop_last().push(x));
        assert(seq![x].to_multiset() =~= Multiset::empty().insert(x));
    }
}

/// Sorts by descending fused score, keeping the incoming order among equal
/// scores, and keeps the first `limit`.
pub fn rank_results(results: Vec<ScopedSearchResult>, limit: usize) -> (r: Vec<ScopedSearchResult>)
    ensures
        r@ == sort_desc(results@).take(
            if results@.len() <= limit {
                results@.len() as int
            } else {
                limit as int
            },
        ),
{
    let ghost input = results@;
    let mut sorted: Vec<ScopedSearchResult> = Vec::new();
    for h in it: results.into_iter()
        invariant
            it.seq() == input,
            sorted@ == sort_desc(input.take(it.index() as int)),
            sorted@.len() == it.index(),
    {
        let ghost n = it.index() as int;
        proof {
            assert(input.take(n + 1).drop_last() =~= input.take(n));
            lemma_sort_desc_sorted(input.take(n));
        }
        let mut j = sorted.len();
        proof {
            assert(sorted@.take(j as int) =~= sorted@);
        }
        while j > 0 && sorted[j - 1].score < h.score
            invariant
                j <= sorted.len(),
                insert_pos(sorted@, h.score) == insert_pos(sorted@.take(j as int), h.score),
            decreases j,
        {
            proof {
                assert(sorted@.take(j - 1) =~= sorted@.take(j as int).drop_last());
            }
            j = j - 1;
        }
        proof {
            if j > 0 {
                assert(sorted@.take(j as int).last() == sorted@[j - 1]);
            }
        }
        sorted.insert(j, h);
    }
    proof {
        assert(input.take(input.len() as int) =~= input);
    }
    if sorted.len() > limit {
        sorted.truncate(limit);
    }
    proof {
        assert(sorted@ =~= sort_desc(input).take(
            if input.len() <= limit { input.len() as int } else { limit as int },
        ));
    }
    sorted
}

/// The vector hits and the text hits that one source returned for a query.
pub struct SourceHits<T> {
    pub vector_hits: Vec<T>,
    pub text_hits: Vec<T>,
}

/// The merged rows of a source, or none when the scope does not reach it.
pub open spec fn rows_in_scope<T: crate::merge::RankedHit>(
    scope: SearchScope,
    kind: SearchHitType,
    hits: SourceHits<T>,
) -> Seq<T> {
    if scope_covers(scope, kind) {
        merged(hits.vector_hits@, hits.text_hits@)
    } else {
        Seq::empty()
    }
}

/// `c` holds the candidates of the merged note rows, then of the message
/// rows, then of the conversation rows, each source in merge order.
pub open spec fn gathered(
    notes: Seq<SearchResult>,
    messages: Seq<MessageSearchResult>,
    conversations: Seq<ConversationSearchResult>,
    c: Seq<ScopedSearchResult>,
) -> bool {
    &&& c.len() == notes.len() + messages.len() + conversations.len()
    &&& forall|i: int| 0 <= i < notes.len() ==> adapts_note(#[trigger] notes[i], c[i])
    &&& forall|i: int|
        0 <= i < messages.len() ==> adapts_message(#[trigger] messages[i], c[notes.len() + i])
    &&& forall|i: int|
        0 <= i < conversations.len() ==> adapts_conversation(
            #[trigger] conversations[i],
            c[notes.len() + messages.len() + i],
        )
}

/// Merges each source that `scope` reaches, turns its rows into scored
/// candidates, and ranks all of them together, keeping the best `limit`.
/// Sources outside the scope are not read.
pub fn combine_scoped_results(
    scope: SearchScope,
    notes: SourceHits<SearchResult>,
    messages: SourceHits<MessageSearchResult>,
    conversations: SourceHits<ConversationSearchResult>,
    limit: usize,
) -> (r: Vec<ScopedSearchResult>)
    ensures
        exists|c: Seq<ScopedSearchResult>|
            #[trigger] gathered(
                rows_in_scope(scope, SearchHitType::Note, notes),
                rows_in_scope(scope, SearchHitType::Message, messages),
                rows_in_scope(scope, SearchHitType::ConversationSummary, conversations),
                c,
            ) && r@ == sort_desc(c).take(
                if c.len() <= limit {
                    c.len() as int
                } else {
                    limit as int
                },
            ),
{
    let ghost rn = rows_in_scope(scope, SearchHitType::Note, notes);
    let ghost rm = rows_in_scope(scope, SearchHitType::Message, messages);
    let ghost rc = rows_in_scope(scope, SearchHitType::ConversationSummary, conversations);
    let mut all: Vec<ScopedSearchResult> = Vec::new();
    if scope_includes(scope, SearchHitType::Note) {
        let rows = merge_hits(notes.vector_hits, notes.text_hits);
        for row in it: rows.into_iter()
            invariant
                it.seq() == rn,
                all@.len() == it.index(),
                forall|i: int| 0 <= i < it.index() ==> adapts_note(#[trigger] rn[i], all@[i]),
        {
            all.push(from_note_result(row));
        }
    }
    let ghost n1 = all@.len();
    assert(n1 == rn.len());
    if scope_includes(scope, SearchHitType::Message) {
        let rows = merge_hits(messages.vector_hits, messages.text_hits);
        for row in it: rows.into_iter()
            invariant
                it.seq() == rm,
                n1 == rn.len(),
                all@.len() == n1 + it.index(),
                forall|i: int| 0 <= i < n1 ==> adapts_note(#[trigger] rn[i], all@[i]),
                forall|i: int|
                    0 <= i < it.index() ==> adapts_message(#[trigger] rm[i], all@[n1 + i]),
        {
            all.push(from_message_result(row));
        }
    }
    let ghost n2 = all@.len();
    assert(n2 == rn.len() + rm.len());
    if scope_includes(scope, SearchHitType::ConversationSummary) {
        let rows = merge_hits(conversations.vector_hits, conversations.text_hits);
        for row in it: rows.into_iter()
            invariant
                it.seq() == rc,
                n1 == rn.len(),
                n2 == rn.len() + rm.len(),
                all@.len() == n2 + it.index(),
                forall|i: int| 0 <= i < n1 ==> adapts_note(#[trigger] rn[i], all@[i]),
                forall|i: int| 0 <= i < rm.len() ==> adapts_message(#[trigger] rm[i], all@[n1 + i]),
                forall|i: int|
                    0 <= i < it.index() ==> adapts_conversation(#[trigger] rc[i], all@[n2 + i]),
        {
            all.push(from_conversation_result(row));
        }
    }
    let ghost c = all@;
    assert(gathered(rn, rm, rc, c));
    rank_results(all, limit)
}

} // verus!
