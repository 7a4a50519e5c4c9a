//! Removal of repeated ids, blank bodies and near-duplicate content.
use vstd::prelude::*;
use crate::search::ScopedSearchResult;
use crate::rank::{insert_pos, lemma_sort_desc_permutes, lemma_sort_desc_sorted, sort_desc, sorted_desc};
use crate::text::{
    ascii_lower, chars_of, is_blank, is_whitespace, is_ws, normalize_text_for_dedupe, normalized,
    segments, Separator,
};

verus! {

/// Whether the id of `c[n]` occurs among `c[0..n]`.
pub open spec fn id_seen(c: Seq<ScopedSearchResult>, n: int) -> bool {
    exists|j: int| 0 <= j < n && #[trigger] c[j].id@ == c[n].id@
}

/// Whether a kept candidate already has the normalised body `key`.
pub open spec fn content_seen(kept: Seq<ScopedSearchResult>, key: Seq<char>) -> bool {
    exists|j: int| 0 <= j < kept.len() && normalized(#[trigger] kept[j].content@) == key
}

/// Whether the candidate `c[n]` is dropped, given the candidates kept
/// before it: a repeated id, a blank body, or a non-empty normalised body
/// that a kept candidate already has.
pub open spec fn is_duplicate(c: Seq<ScopedSearchResult>, n: int, kept: Seq<ScopedSearchResult>) -> bool {
    ||| id_seen(c, n)
    ||| is_blank(c[n].content@)
    ||| (normalized(c[n].content@).len() > 0 && content_seen(kept, normalized(c[n].content@)))
}

/// The candidates of `c[0..n]` that are kept, and how many were dropped.
pub open spec fn dedupe_prefix(c: Seq<ScopedSearchResult>, n: nat) -> (Seq<ScopedSearchResult>, nat)
    decreases n,
{
    if n == 0 {
        (Seq::empty(), 0)
    } else {
        let (kept, dropped) = dedupe_prefix(c, (n - 1) as nat);
        if is_duplicate(c, n - 1, kept) {
            (kept, dropped + 1)
        } else {
            (kept.push(c[n - 1]), dropped)
        }
    }
}

/// Scanning in order, the first candidate of each id and of each
/// normalised body is kept; blank bodies are dropped.
pub open spec fn deduped(c: Seq<ScopedSearchResult>) -> (Seq<ScopedSearchResult>, nat) {
    dedupe_prefix(c, c.len())
}

proof fn lemma_dedupe_prefix_len(c: Seq<ScopedSearchResult>, n: nat)
    ensures
        dedupe_prefix(c, n).0.len() + dedupe_prefix(c, n).1 == n,
    decreases n,
{
    if n > 0 {
        lemma_dedupe_prefix_len(c, (n - 1) as nat);
    }
}

/// Whether `s` holds nothing but whitespace.
pub fn is_blank_text(s: &str) -> (r: bool)
    ensures
        r == is_blank(s@),
{
    let cs = chars_of(s);
    let mut i: usize = 0;
    while i < cs.len()
        invariant
            i <= cs.len(),
            cs@ == s@,
            forall|j: int| 0 <= j < i ==> crate::text::is_ws(#[trigger] cs@[j]),
        decreases cs.len() - i,
    {
        if !is_whitespace(cs[i]) {
            return false;
        }
        i = i + 1;
    }
    true
}

fn contains_text(v: &Vec<String>, s: &String) -> (r: bool)
    ensures
        r == exists|j: int| 0 <= j < v.len() && #[trigger] v@[j]@ == s@,
{
    let mut i: usize = 0;
    while i < v.len()
        invariant
            i <= v.len(),
            forall|j: int| 0 <= j < i ==> #[trigger] v@[j]@ != s@,
        decreases v.len() - i,
    {
        if v[i].eq(s) {
            return true;
        }
        i = i + 1;
    }
    false
}

/// Drops repeated ids, blank bodies and near-duplicate bodies, keeping the
/// first of each; returns the kept candidates and the number dropped.
pub fn dedupe(hits: Vec<ScopedSearchResult>) -> (r: (Vec<ScopedSearchResult>, usize))
    ensures
        (r.0@, r.1 as nat) == deduped(hits@),
{
    let ghost c = hits@;
    let mut kept: Vec<ScopedSearchResult> = Vec::new();
    let mut seen_ids: Vec<String> = Vec::new();
    let mut seen_keys: Vec<String> = Vec::new();
    let mut dropped: usize = 0;
    let total = hits.len();
    for h in it: hits.into_iter()
        invariant
            it.seq() == c,
            total == c.len(),
            (kept@, dropped as nat) == dedupe_prefix(c, it.index() as nat),
            seen_ids@.len() == it.index(),
            forall|j: int| 0 <= j < it.index() ==> #[trigger] seen_ids@[j]@ == c[j].id@,
            seen_keys@.len() == kept@.len(),
            forall|j: int| 0 <= j < kept@.len() ==> #[trigger] seen_keys@[j]@ == normalized(kept@[j].content@),
    {
        let ghost n = it.index() as int;
        proof {
            lemma_dedupe_prefix_len(c, n as nat);
        }
        let id_repeat = contains_text(&seen_ids, &h.id);
        proof {
            if id_repeat {
                let j = choose|j: int| 0 <= j < seen_ids@.len() && #[trigger] seen_ids@[j]@ == h.id@;
                assert(c[j].id@ == c[n].id@);
            } else {
                assert forall|j: int| 0 <= j < n implies #[trigger] c[j].id@ != c[n].id@ by {
                    assert(seen_ids@[j]@ == c[j].id@);
                }
            }
        }
        seen_ids.push(h.id.clone());
        if id_repeat || is_blank_text(h.content.as_str()) {
            dropped = dropped + 1;
        } else {
            let key = normalize_text_for_dedupe(h.content.as_str());
            let key_repeat = key.as_str().unicode_len() > 0 && contains_text(&seen_keys, &key);
            proof {
                if key@.len() > 0 {
                    if key_repeat {
                        let j = choose|j: int| 0 <= j < seen_keys@.len() && #[trigger] seen_keys@[j]@ == key@;
                        assert(normalized(kept@[j].content@) == key@);
                    } else {
                        assert forall|j: int| 0 <= j < kept@.len() implies normalized(
                            #[trigger] kept@[j].content@,
                        ) != key@ by {
                            assert(seen_keys@[j]@ == normalized(kept@[j].content@));
                        }
                    }
                }
            }
            if key_repeat {
                dropped = dropped + 1;
            } else {
                kept.push(h);
                seen_keys.push(key);
            }
        }
    }
    proof {
        assert(c.take(c.len() as int) =~= c);
    }
    (kept, dropped)
}

proof fn lemma_blank_has_no_segments(s: Seq<char>)
    requires
        is_blank(s),
    ensures
        segments(s.map_values(|c: char| ascii_lower(c)), Separator::NonAlphanumeric).len() == 0,
    decreases s.len(),
{
    if s.len() > 0 {
        let low = s.map_values(|c: char| ascii_lower(c));
        assert(s.drop_last().map_values(|c: char| ascii_lower(c)) =~= low.drop_last());
        assert(is_ws(s.last()));
        lemma_blank_has_no_segments(s.drop_last());
    }
}

/// A body whose normalised form is not empty is not blank.
pub proof fn lemma_normalized_not_blank(s: Seq<char>)
    requires
        normalized(s).len() > 0,
    ensures
        !is_blank(s),
{
    if is_blank(s) {
        lemma_blank_has_no_segments(s);
    }
}

/// Of two candidates whose bodies normalise to the same non-empty text, the
/// one with the higher score is the one kept once they are sorted by
/// descending score and deduplicated, whatever order they came in.
pub proof fn lemma_dedupe_keeps_best(a: ScopedSearchResult, b: ScopedSearchResult)
    requires
        normalized(a.content@) == normalized(b.content@),
        normalized(a.content@).len() > 0,
        a.score > b.score,
    ensures
        deduped(sort_desc(seq![a, b])).0 == seq![a],
        deduped(sort_desc(seq![b, a])).0 == seq![a],
{
    lemma_normalized_not_blank(a.content@);
    let s1 = seq![a, b];
    let s2 = seq![b, a];
    assert(s1.drop_last() =~= seq![a]);
    assert(s2.drop_last() =~= seq![b]);
    assert(seq![a].drop_last() =~= Seq::<ScopedSearchResult>::empty());
    assert(seq![b].drop_last() =~= Seq::<ScopedSearchResult>::empty());
    let e = Seq::<ScopedSearchResult>::empty();
    assert(sort_desc(e) == e);
    assert(insert_pos(e, a.score) == 0);
    assert(insert_pos(e, b.score) == 0);
    assert(e.insert(0, a) =~= seq![a]);
    assert(e.insert(0, b) =~= seq![b]);
    assert(sort_desc(seq![a]) =~= seq![a]);
    assert(sort_desc(seq![b]) =~= seq![b]);
    assert(insert_pos(seq![b], a.score) == insert_pos(Seq::<ScopedSearchResult>::empty(), a.score));
    assert(sort_desc(s1) =~= seq![a, b]);
    assert(sort_desc(s2) =~= seq![a, b]);
    let s = seq![a, b];
    assert(!id_seen(s, 0));
    assert(s[0] == a);
    assert(dedupe_prefix(s, 0) == (e, 0nat));
    assert(!content_seen(e, normalized(a.content@)));
    assert(!is_duplicate(s, 0, e));
    assert(e.push(a) =~= seq![a]);
    assert(dedupe_prefix(s, 1).0 =~= seq![a]);
    assert(normalized(s[1].content@) == normalized(seq![a][0].content@));
    assert(content_seen(seq![a], normalized(s[1].content@)));
    assert(deduped(s).0 =~= seq![a]);
}

proof fn lemma_kept_from(c: Seq<ScopedSearchResult>, n: nat)
    requires
        n <= c.len(),
    ensures
        forall|k: int| 0 <= k < dedupe_prefix(c, n).0.len() ==> c.contains(#[trigger] dedupe_prefix(c, n).0[k]),
    decreases n,
{
    if n > 0 {
        lemma_kept_from(c, (n - 1) as nat);
        let prev = dedupe_prefix(c, (n - 1) as nat).0;
        assert forall|k: int| 0 <= k < dedupe_prefix(c, n).0.len() implies c.contains(
            #[trigger] dedupe_prefix(c, n).0[k],
        ) by {
            if k < prev.len() {
                assert(dedupe_prefix(c, n).0[k] == prev[k]);
            } else {
                assert(dedupe_prefix(c, n).0[k] == c[n - 1]);
            }
        }
    }
}

proof fn lemma_content_persists(c: Seq<ScopedSearchResult>, n: nat, m: nat, key: Seq<char>)
    requires
        n <= m <= c.len(),
        content_seen(dedupe_prefix(c, n).0, key),
    ensures
        content_seen(dedupe_prefix(c, m).0, key),
    decreases m - n,
{
    if m > n {
        lemma_content_persists(c, n, (m - 1) as nat, key);
        let prev = dedupe_prefix(c, (m - 1) as nat).0;
        let j = choose|j: int| 0 <= j < prev.len() && normalized(#[trigger] prev[j].content@) == key;
        assert(dedupe_prefix(c, m).0[j] == prev[j]);
    }
}

/// Once a candidate whose id no other candidate shares has been scanned,
/// its non-empty normalised body counts as seen.
proof fn lemma_key_seen_after(s: Seq<ScopedSearchResult>, x: ScopedSearchResult, p: int)
    requires
        0 <= p < s.len(),
        s[p] == x,
        normalized(x.content@).len() > 0,
        forall|i: int| 0 <= i < s.len() && #[trigger] s[i].id@ == x.id@ ==> s[i] == x,
    ensures
        content_seen(dedupe_prefix(s, (p + 1) as nat).0, normalized(x.content@)),
    decreases p,
{
    let key = normalized(x.content@);
    let kept = dedupe_prefix(s, p as nat).0;
    lemma_normalized_not_blank(x.content@);
    if id_seen(s, p) {
        let j = choose|j: int| 0 <= j < p && #[trigger] s[j].id@ == s[p].id@;
        lemma_key_seen_after(s, x, j);
        lemma_content_persists(s, (j + 1) as nat, (p + 1) as nat, key);
    } else if content_seen(kept, key) {
        lemma_content_persists(s, p as nat, (p + 1) as nat, key);
    } else {
        let next = dedupe_prefix(s, (p + 1) as nat).0;
        assert(next[kept.len() as int] == x);
    }
}

proof fn lemma_never_kept(s: Seq<ScopedSearchResult>, x: ScopedSearchResult, y: ScopedSearchResult, m: nat)
    requires
        m <= s.len(),
        sorted_desc(s),
        s.contains(x),
        x.score > y.score,
        normalized(x.content@) == normalized(y.content@),
        normalized(x.content@).len() > 0,
        forall|i: int| 0 <= i < s.len() && #[trigger] s[i].id@ == x.id@ ==> s[i] == x,
    ensures
        forall|k: int| 0 <= k < dedupe_prefix(s, m).0.len() ==> #[trigger] dedupe_prefix(s, m).0[k] != y,
    decreases m,
{
    if m > 0 {
        lemma_never_kept(s, x, y, (m - 1) as nat);
        let q = m - 1;
        let prev = dedupe_prefix(s, q as nat).0;
        if s[q] == y {
            let p = choose|p: int| 0 <= p < s.len() && s[p] == x;
            if q <= p {
                assert(s[q].score >= s[p].score);
            }
            lemma_key_seen_after(s, x, p);
            lemma_content_persists(s, (p + 1) as nat, q as nat, normalized(x.content@));
            assert(is_duplicate(s, q, prev));
        }
        assert forall|k: int| 0 <= k < dedupe_prefix(s, m).0.len() implies #[trigger] dedupe_prefix(
            s,
            m,
        ).0[k] != y by {
            if k < prev.len() {
                assert(dedupe_prefix(s, m).0[k] == prev[k]);
            }
        }
    }
}

/// Among candidates with distinct ids, of two whose bodies normalise to the
/// same non-empty text, the lower-scored one has no kept instance once all
/// candidates are sorted by descending score and deduplicated.
pub proof fn lemma_dedupe_drops_lower_duplicate(c: Seq<ScopedSearchResult>, a: int, b: int)
    requires
        0 <= a < c.len(),
        0 <= b < c.len(),
        c[a].score > c[b].score,
        normalized(c[a].content@) == normalized(c[b].content@),
        normalized(c[a].content@).len() > 0,
        forall|i: int, j: int| 0 <= i < c.len() && 0 <= j < c.len() && i != j ==> #[trigger] c[i].id@ != #[trigger] c[j].id@,
    ensures
        forall|k: int|
            0 <= k < deduped(sort_desc(c)).0.len() ==> (#[trigger] deduped(sort_desc(c)).0[k]).id@ != c[b].id@,
{
    broadcast use vstd::seq_lib::group_to_multiset_ensures;
    let s = sort_desc(c);
    let x = c[a];
    let y = c[b];
    lemma_sort_desc_sorted(c);
    lemma_sort_desc_permutes(c);
    assert(c[a] == x);
    assert(c.contains(x));
    assert(c.to_multiset().count(x) > 0);
    assert(s.to_multiset().count(x) > 0);
    assert(s.contains(x));
    assert forall|i: int| 0 <= i < s.len() && #[trigger] s[i].id@ == x.id@ implies s[i] == x by {
        assert(s.contains(s[i]));
        assert(s.to_multiset().count(s[i]) > 0);
        assert(c.to_multiset().count(s[i]) > 0);
        assert(c.contains(s[i]));
        let j = choose|j: int| 0 <= j < c.len() && c[j] == s[i];
        if j != a {
            assert(c[j].id@ != c[a].id@);
        }
    }
    lemma_never_kept(s, x, y, s.len());
    lemma_kept_from(s, s.len());
    let kept = deduped(s).0;
    assert forall|k: int| 0 <= k < kept.len() implies (#[trigger] kept[k]).id@ != y.id@ by {
        assert(s.contains(kept[k]));
        assert(s.to_multiset().count(kept[k]) > 0);
        assert(c.to_multiset().count(kept[k]) > 0);
        assert(c.contains(kept[k]));
        let j = choose|j: int| 0 <= j < c.len() && c[j] == kept[k];
        if kept[k].id@ == y.id@ {
            if j != b {
                assert(c[j].id@ != c[b].id@);
            }
            assert(kept[k] != y);
        }
    }
}

} // verus!
