//! Per-source merge of vector hits and text hits into one ordered list with
//! one entry per id.
use vstd::prelude::*;

verus! {

/// A raw hit of one source: it has an id, an optional vector distance and an
/// optional text relevance, and the two signals can be replaced.
pub trait RankedHit: Sized {
    spec fn hit_key(&self) -> Seq<char>;

    spec fn hit_distance(&self) -> Option<i64>;

    spec fn hit_relevance(&self) -> Option<u64>;

    /// The same hit with its distance replaced.
    spec fn with_distance(&self, d: Option<i64>) -> Self;

    /// The same hit with its relevance replaced.
    spec fn with_relevance(&self, t: Option<u64>) -> Self;

    proof fn lemma_signals(&self, d: Option<i64>, t: Option<u64>)
        ensures
            self.with_distance(d).hit_key() == self.hit_key(),
            self.with_distance(d).hit_distance() == d,
            self.with_distance(d).hit_relevance() == self.hit_relevance(),
            self.with_relevance(t).hit_key() == self.hit_key(),
            self.with_relevance(t).hit_distance() == self.hit_distance(),
            self.with_relevance(t).hit_relevance() == t,
    ;

    fn key(&self) -> (r: &String)
        ensures
            r@ == self.hit_key(),
    ;

    fn relevance(&self) -> (r: Option<u64>)
        ensures
            r == self.hit_relevance(),
    ;

    fn replace_distance(self, d: Option<i64>) -> (r: Self)
        ensures
            r == self.with_distance(d),
    ;

    fn replace_relevance(self, t: Option<u64>) -> (r: Self)
        ensures
            r == self.with_relevance(t),
    ;
}

/// No two entries share an id.
pub open spec fn unique_keys<T: RankedHit>(s: Seq<T>) -> bool {
    forall|i: int, j: int|
        0 <= i < s.len() && 0 <= j < s.len() && i != j ==> #[trigger] s[i].hit_key()
            != #[trigger] s[j].hit_key()
}

pub open spec fn has_key<T: RankedHit>(s: Seq<T>, key: Seq<char>) -> bool {
    exists|i: int| 0 <= i < s.len() && #[trigger] s[i].hit_key() == key
}

/// The position of the entry with id `key`, or -1.
pub open spec fn key_index<T: RankedHit>(s: Seq<T>, key: Seq<char>) -> int {
    if has_key(s, key) {
        choose|i: int| 0 <= i < s.len() && #[trigger] s[i].hit_key() == key
    } else {
        -1
    }
}

/// A vector hit replaces the entry with its id, or is appended.
pub open spec fn upsert<T: RankedHit>(entries: Seq<T>, h: T) -> Seq<T> {
    let i = key_index(entries, h.hit_key());
    if i >= 0 {
        entries.update(i, h)
    } else {
        entries.push(h)
    }
}

/// A text hit sets the relevance of the entry with its id (when it carries
/// one), keeping that entry's distance; a new id is appended without a
/// distance.
pub open spec fn overlay<T: RankedHit>(entries: Seq<T>, h: T) -> Seq<T> {
    let i = key_index(entries, h.hit_key());
    if i >= 0 {
        if h.hit_relevance() is Some {
            entries.update(i, entries[i].with_relevance(h.hit_relevance()))
        } else {
            entries
        }
    } else {
        entries.push(h.with_distance(None))
    }
}

pub open spec fn upsert_all<T: RankedHit>(hits: Seq<T>) -> Seq<T>
    decreases hits.len(),
{
    if hits.len() == 0 {
        Seq::empty()
    } else {
        upsert(upsert_all(hits.drop_last()), hits.last())
    }
}

pub open spec fn overlay_all<T: RankedHit>(entries: Seq<T>, hits: Seq<T>) -> Seq<T>
    decreases hits.len(),
{
    if hits.len() == 0 {
        entries
    } else {
        overlay(overlay_all(entries, hits.drop_last()), hits.last())
    }
}

/// All vector hits first, in order; then every text hit over them.
pub open spec fn merged<T: RankedHit>(vector_hits: Seq<T>, text_hits: Seq<T>) -> Seq<T> {
    overlay_all(upsert_all(vector_hits), text_hits)
}

proof fn lemma_key_index<T: RankedHit>(s: Seq<T>, key: Seq<char>, i: int)
    requires
        unique_keys(s),
        0 <= i < s.len(),
        s[i].hit_key() == key,
    ensures
        key_index(s, key) == i,
{
}

pub proof fn lemma_upsert_unique<T: RankedHit>(entries: Seq<T>, h: T)
    requires
        unique_keys(entries),
    ensures
        unique_keys(upsert(entries, h)),
        forall|k: Seq<char>| has_key(upsert(entries, h), k) <==> (has_key(entries, k) || k == h.hit_key()),
{
    let r = upsert(entries, h);
    let i = key_index(entries, h.hit_key());
    assert forall|k: Seq<char>| has_key(r, k) <==> (has_key(entries, k) || k == h.hit_key()) by {
        if has_key(r, k) {
            let j = choose|j: int| 0 <= j < r.len() && #[trigger] r[j].hit_key() == k;
            if k != h.hit_key() {
                assert(entries[j].hit_key() == k);
            }
        }
        if has_key(entries, k) {
            let j = choose|j: int| 0 <= j < entries.len() && #[trigger] entries[j].hit_key() == k;
            assert(r[j].hit_key() == k);
        }
        if k == h.hit_key() {
            if i >= 0 {
                assert(r[i].hit_key() == k);
            } else {
                assert(r[entries.len() as int].hit_key() == k);
            }
        }
    }
}

pub proof fn lemma_overlay_unique<T: RankedHit>(entries: Seq<T>, h: T)
    requires
        unique_keys(entries),
    ensures
        unique_keys(overlay(entries, h)),
        forall|k: Seq<char>| has_key(overlay(entries, h), k) <==> (has_key(entries, k) || k == h.hit_key()),
{
    let r = overlay(entries, h);
    let i = key_index(entries, h.hit_key());
    if i >= 0 {
        entries[i].lemma_signals(None, h.hit_relevance());
    } else {
        h.lemma_signals(None, None);
    }
    assert forall|k: Seq<char>| has_key(r, k) <==> (has_key(entries, k) || k == h.hit_key()) by {
        if has_key(r, k) {
            let j = choose|j: int| 0 <= j < r.len() && #[trigger] r[j].hit_key() == k;
            if k != h.hit_key() {
                assert(entries[j].hit_key() == k);
            }
        }
        if has_key(entries, k) {
            let j = choose|j: int| 0 <= j < entries.len() && #[trigger] entries[j].hit_key() == k;
            assert(r[j].hit_key() == k);
        }
        if k == h.hit_key() {
            if i >= 0 {
                assert(r[i].hit_key() == k);
            } else {
                assert(r[entries.len() as int].hit_key() == k);
            }
        }
    }
}

/// The entry of `s` with id `key`.
pub open spec fn entry<T: RankedHit>(s: Seq<T>, key: Seq<char>) -> T {
    s[key_index(s, key)]
}

proof fn lemma_entry_at<T: RankedHit>(s: Seq<T>, key: Seq<char>)
    requires
        unique_keys(s),
        has_key(s, key),
    ensures
        0 <= key_index(s, key) < s.len(),
        entry(s, key).hit_key() == key,
{
}

proof fn lemma_upsert_entry<T: RankedHit>(entries: Seq<T>, h: T, k: Seq<char>)
    requires
        unique_keys(entries),
    ensures
        h.hit_key() == k ==> entry(upsert(entries, h), k) == h,
        h.hit_key() != k && has_key(entries, k) ==> entry(upsert(entries, h), k) == entry(entries, k),
{
    lemma_upsert_unique(entries, h);
    let r = upsert(entries, h);
    let j = key_index(entries, h.hit_key());
    if h.hit_key() == k {
        if j >= 0 {
            lemma_key_index(r, k, j);
        } else {
            lemma_key_index(r, k, entries.len() as int);
        }
    } else if has_key(entries, k) {
        let i = key_index(entries, k);
        lemma_entry_at(entries, k);
        assert(r[i] == entries[i]);
        lemma_key_index(r, k, i);
    }
}

proof fn lemma_upsert_all_entry<T: RankedHit>(vs: Seq<T>, k: Seq<char>)
    requires
        has_key(vs, k),
    ensures
        unique_keys(upsert_all(vs)),
        has_key(upsert_all(vs), k),
        exists|j: int| 0 <= j < vs.len() && #[trigger] vs[j].hit_key() == k && entry(upsert_all(vs), k) == vs[j],
    decreases vs.len(),
{
    lemma_upsert_all_unique(vs);
    let p = vs.drop_last();
    let h = vs.last();
    lemma_upsert_all_unique(p);
    lemma_upsert_unique(upsert_all(p), h);
    lemma_upsert_entry(upsert_all(p), h, k);
    if h.hit_key() == k {
        assert(vs[vs.len() - 1].hit_key() == k);
    } else {
        let j = choose|j: int| 0 <= j < vs.len() && #[trigger] vs[j].hit_key() == k;
        assert(j != vs.len() - 1);
        assert(p[j].hit_key() == k);
        lemma_upsert_all_entry(p, k);
        let j2 = choose|j2: int| 0 <= j2 < p.len() && #[trigger] p[j2].hit_key() == k && entry(upsert_all(p), k) == p[j2];
        assert(vs[j2] == p[j2]);
    }
}

proof fn lemma_upsert_all_unique<T: RankedHit>(vs: Seq<T>)
    ensures
        unique_keys(upsert_all(vs)),
    decreases vs.len(),
{
    if vs.len() > 0 {
        lemma_upsert_all_unique(vs.drop_last());
        lemma_upsert_unique(upsert_all(vs.drop_last()), vs.last());
    }
}

proof fn lemma_overlay_entry<T: RankedHit>(entries: Seq<T>, h: T, k: Seq<char>)
    requires
        unique_keys(entries),
    ensures
        (has_key(entries, k) || h.hit_key() == k) ==> has_key(overlay(entries, h), k),
        has_key(entries, k) ==> entry(overlay(entries, h), k).hit_distance() == entry(entries, k).hit_distance(),
        has_key(entries, k) && entry(entries, k).hit_relevance() is Some ==> entry(overlay(entries, h), k).hit_relevance() is Some,
        h.hit_key() == k && h.hit_relevance() is Some ==> entry(overlay(entries, h), k).hit_relevance() is Some,
{
    lemma_overlay_unique(entries, h);
    let r = overlay(entries, h);
    let j = key_index(entries, h.hit_key());
    if has_key(entries, k) {
        let i = key_index(entries, k);
        lemma_entry_at(entries, k);
        if j >= 0 && h.hit_key() == k {
            lemma_key_index(entries, k, j);
            entries[i].lemma_signals(None, h.hit_relevance());
            if h.hit_relevance() is Some {
                assert(r[i] == entries[i].with_relevance(h.hit_relevance()));
            }
        } else if j >= 0 {
            if h.hit_relevance() is Some {
                lemma_entry_at(entries, h.hit_key());
                entries[j].lemma_signals(None, h.hit_relevance());
                assert(r[i] == entries[i]);
            }
        } else {
            assert(r[i] == entries[i]);
        }
        lemma_key_index(r, k, i);
    } else if h.hit_key() == k {
        h.lemma_signals(None, None);
        lemma_key_index(r, k, entries.len() as int);
    }
}

proof fn lemma_overlay_all_entry<T: RankedHit>(entries: Seq<T>, ts: Seq<T>, k: Seq<char>)
    requires
        unique_keys(entries),
    ensures
        unique_keys(overlay_all(entries, ts)),
        (has_key(entries, k) || has_key(ts, k)) ==> has_key(overlay_all(entries, ts), k),
        has_key(entries, k) ==> entry(overlay_all(entries, ts), k).hit_distance() == entry(entries, k).hit_distance(),
        (exists|j: int| 0 <= j < ts.len() && #[trigger] ts[j].hit_key() == k && ts[j].hit_relevance() is Some)
            ==> entry(overlay_all(entries, ts), k).hit_relevance() is Some,
    decreases ts.len(),
{
    if ts.len() > 0 {
        let p = ts.drop_last();
        let h = ts.last();
        lemma_overlay_all_entry(entries, p, k);
        let mid = overlay_all(entries, p);
        lemma_overlay_unique(mid, h);
        lemma_overlay_entry(mid, h, k);
        if has_key(ts, k) && !has_key(entries, k) && h.hit_key() != k {
            let j = choose|j: int| 0 <= j < ts.len() && #[trigger] ts[j].hit_key() == k;
            assert(p[j].hit_key() == k);
        }
        if exists|j: int| 0 <= j < ts.len() && #[trigger] ts[j].hit_key() == k && ts[j].hit_relevance() is Some {
            let j = choose|j: int| 0 <= j < ts.len() && #[trigger] ts[j].hit_key() == k && ts[j].hit_relevance() is Some;
            if j < ts.len() - 1 {
                assert(p[j] == ts[j]);
                assert(has_key(p, k));
            }
        }
    }
}

/// Merging the hits of one source yields exactly one entry for an id that
/// either list holds; that entry carries a distance when every vector hit of
/// the id carries one, and a relevance when some text hit of the id does.
pub proof fn lemma_merge_one_entry_per_id<T: RankedHit>(vector_hits: Seq<T>, text_hits: Seq<T>, key: Seq<char>)
    requires
        has_key(vector_hits, key) || has_key(text_hits, key),
    ensures
        has_key(merged(vector_hits, text_hits), key),
        forall|i: int, j: int|
            0 <= i < merged(vector_hits, text_hits).len() && 0 <= j < merged(vector_hits, text_hits).len()
                && #[trigger] merged(vector_hits, text_hits)[i].hit_key() == key
                && #[trigger] merged(vector_hits, text_hits)[j].hit_key() == key ==> i == j,
        has_key(vector_hits, key) && (forall|i: int|
            0 <= i < vector_hits.len() && #[trigger] vector_hits[i].hit_key() == key ==> vector_hits[i].hit_distance() is Some)
            ==> entry(merged(vector_hits, text_hits), key).hit_distance() is Some,
        (exists|j: int|
            0 <= j < text_hits.len() && #[trigger] text_hits[j].hit_key() == key && text_hits[j].hit_relevance() is Some)
            ==> entry(merged(vector_hits, text_hits), key).hit_relevance() is Some,
{
    let base = upsert_all(vector_hits);
    lemma_upsert_all_unique(vector_hits);
    if has_key(vector_hits, key) {
        lemma_upsert_all_entry(vector_hits, key);
    }
    lemma_overlay_all_entry(base, text_hits, key);
}

/// The entry of an id that both lists hold: the vector hit, with the text
/// hit's relevance when it carries one.
pub open spec fn combined<T: RankedHit>(v: T, t: T) -> T {
    if t.hit_relevance() is Some {
        v.with_relevance(t.hit_relevance())
    } else {
        v
    }
}

proof fn lemma_overlay_all_keys<T: RankedHit>(entries: Seq<T>, ts: Seq<T>)
    requires
        unique_keys(entries),
    ensures
        unique_keys(overlay_all(entries, ts)),
        forall|k: Seq<char>|
            has_key(overlay_all(entries, ts), k) <==> (has_key(entries, k) || has_key(ts, k)),
    decreases ts.len(),
{
    if ts.len() > 0 {
        let p = ts.drop_last();
        let h = ts.last();
        lemma_overlay_all_keys(entries, p);
        lemma_overlay_unique(overlay_all(entries, p), h);
        assert forall|k: Seq<char>|
            has_key(overlay_all(entries, ts), k) <==> (has_key(entries, k) || has_key(ts, k)) by {
            assert(has_key(overlay_all(entries, p), k) <==> (has_key(entries, k) || has_key(p, k)));
            if has_key(ts, k) && k != h.hit_key() {
                let j = choose|j: int| 0 <= j < ts.len() && #[trigger] ts[j].hit_key() == k;
                assert(p[j].hit_key() == k);
            }
            if has_key(p, k) {
                let j = choose|j: int| 0 <= j < p.len() && #[trigger] p[j].hit_key() == k;
                assert(ts[j].hit_key() == k);
            }
            if k == h.hit_key() {
                assert(ts[ts.len() - 1].hit_key() == k);
            }
        }
    }
}

proof fn lemma_overlay_exact<T: RankedHit>(entries: Seq<T>, h: T, k: Seq<char>)
    requires
        unique_keys(entries),
    ensures
        h.hit_key() != k && has_key(entries, k) ==> entry(overlay(entries, h), k) == entry(entries, k),
        h.hit_key() == k && has_key(entries, k) ==> entry(overlay(entries, h), k) == combined(entry(entries, k), h),
        h.hit_key() == k && !has_key(entries, k) ==> entry(overlay(entries, h), k) == h.with_distance(None),
{
    lemma_overlay_unique(entries, h);
    let r = overlay(entries, h);
    let j = key_index(entries, h.hit_key());
    if has_key(entries, k) {
        let i = key_index(entries, k);
        lemma_entry_at(entries, k);
        if h.hit_key() == k {
            lemma_key_index(entries, k, j);
            entries[i].lemma_signals(None, h.hit_relevance());
        } else if j >= 0 {
            lemma_entry_at(entries, h.hit_key());
            if h.hit_relevance() is Some {
                entries[j].lemma_signals(None, h.hit_relevance());
            }
            assert(r[i] == entries[i]);
        } else {
            assert(r[i] == entries[i]);
        }
        lemma_key_index(r, k, i);
    } else if h.hit_key() == k {
        h.lemma_signals(None, None);
        lemma_key_index(r, k, entries.len() as int);
    }
}

proof fn lemma_overlay_all_exact<T: RankedHit>(entries: Seq<T>, ts: Seq<T>, k: Seq<char>)
    requires
        unique_keys(entries),
        unique_keys(ts),
    ensures
        !has_key(ts, k) && has_key(entries, k) ==> entry(overlay_all(entries, ts), k) == entry(entries, k),
        forall|j: int|
            0 <= j < ts.len() && #[trigger] ts[j].hit_key() == k ==> entry(overlay_all(entries, ts), k) == (
            if has_key(entries, k) {
                combined(entry(entries, k), ts[j])
            } else {
                ts[j].with_distance(None)
            }),
    decreases ts.len(),
{
    if ts.len() > 0 {
        let p = ts.drop_last();
        let h = ts.last();
        assert(unique_keys(p)) by {
            assert forall|a: int, b: int|
                0 <= a < p.len() && 0 <= b < p.len() && a != b implies #[trigger] p[a].hit_key()
                != #[trigger] p[b].hit_key() by {
                assert(p[a] == ts[a] && p[b] == ts[b]);
            }
        }
        lemma_overlay_all_exact(entries, p, k);
        lemma_overlay_all_keys(entries, p);
        let mid = overlay_all(entries, p);
        lemma_overlay_exact(mid, h, k);
        if h.hit_key() == k {
            assert(!has_key(p, k)) by {
                if has_key(p, k) {
                    let a = choose|a: int| 0 <= a < p.len() && #[trigger] p[a].hit_key() == k;
                    assert(ts[a].hit_key() == ts[ts.len() - 1].hit_key());
                }
            }
            assert forall|j: int| 0 <= j < ts.len() && #[trigger] ts[j].hit_key() == k implies j
                == ts.len() - 1 by {
                if j != ts.len() - 1 {
                    assert(ts[j].hit_key() == ts[ts.len() - 1].hit_key());
                }
            }
        } else {
            if !has_key(ts, k) {
                assert(!has_key(p, k)) by {
                    if has_key(p, k) {
                        let a = choose|a: int| 0 <= a < p.len() && #[trigger] p[a].hit_key() == k;
                        assert(ts[a].hit_key() == k);
                    }
                }
            }
            assert forall|j: int| 0 <= j < ts.len() && #[trigger] ts[j].hit_key() == k implies entry(
                overlay_all(entries, ts),
                k,
            ) == (if has_key(entries, k) {
                combined(entry(entries, k), ts[j])
            } else {
                ts[j].with_distance(None)
            }) by {
                assert(j != ts.len() - 1);
                assert(p[j] == ts[j]);
                assert(p[j].hit_key() == k);
                assert(has_key(mid, k));
            }
        }
    }
}

proof fn lemma_upsert_all_exact<T: RankedHit>(vs: Seq<T>, i: int)
    requires
        unique_keys(vs),
        0 <= i < vs.len(),
    ensures
        entry(upsert_all(vs), vs[i].hit_key()) == vs[i],
{
    let k = vs[i].hit_key();
    lemma_upsert_all_entry(vs, k);
    let j = choose|j: int| 0 <= j < vs.len() && #[trigger] vs[j].hit_key() == k && entry(upsert_all(vs), k) == vs[j];
    if j != i {
        assert(vs[j].hit_key() != vs[i].hit_key());
    }
}

/// With ids unique within each list, the merged entry of an id is exactly:
/// the vector hit with the text hit's relevance laid over it when both lists
/// hold the id (its relevance stays when the text hit has none); the vector
/// hit alone; or the text hit alone without a distance.
pub proof fn lemma_merge_entry_exact<T: RankedHit>(vector_hits: Seq<T>, text_hits: Seq<T>, key: Seq<char>)
    requires
        unique_keys(vector_hits),
        unique_keys(text_hits),
        has_key(vector_hits, key) || has_key(text_hits, key),
    ensures
        has_key(merged(vector_hits, text_hits), key),
        unique_keys(merged(vector_hits, text_hits)),
        forall|i: int, j: int|
            0 <= i < vector_hits.len() && 0 <= j < text_hits.len() && #[trigger] vector_hits[i].hit_key()
                == key && #[trigger] text_hits[j].hit_key() == key ==> entry(merged(vector_hits, text_hits), key)
                == combined(vector_hits[i], text_hits[j]),
        forall|i: int|
            0 <= i < vector_hits.len() && #[trigger] vector_hits[i].hit_key() == key && !has_key(text_hits, key)
                ==> entry(merged(vector_hits, text_hits), key) == vector_hits[i],
        forall|j: int|
            0 <= j < text_hits.len() && #[trigger] text_hits[j].hit_key() == key && !has_key(vector_hits, key)
                ==> entry(merged(vector_hits, text_hits), key) == text_hits[j].with_distance(None),
{
    let base = upsert_all(vector_hits);
    lemma_upsert_all_unique(vector_hits);
    lemma_overlay_all_keys(base, text_hits);
    lemma_overlay_all_exact(base, text_hits, key);
    if has_key(vector_hits, key) {
        lemma_upsert_all_entry(vector_hits, key);
        assert forall|i: int| 0 <= i < vector_hits.len() && #[trigger] vector_hits[i].hit_key() == key
            implies entry(base, key) == vector_hits[i] by {
            lemma_upsert_all_exact(vector_hits, i);
        }
    } else {
        assert(!has_key(base, key)) by {
            lemma_upsert_all_keys(vector_hits);
        }
    }
}

proof fn lemma_upsert_all_keys<T: RankedHit>(vs: Seq<T>)
    ensures
        forall|k: Seq<char>| has_key(upsert_all(vs), k) <==> has_key(vs, k),
    decreases vs.len(),
{
    if vs.len() > 0 {
        let p = vs.drop_last();
        let h = vs.last();
        lemma_upsert_all_keys(p);
        lemma_upsert_all_unique(p);
        lemma_upsert_unique(upsert_all(p), h);
        assert forall|k: Seq<char>| has_key(upsert_all(vs), k) <==> has_key(vs, k) by {
            assert(has_key(upsert_all(p), k) <==> has_key(p, k));
            if has_key(vs, k) && k != h.hit_key() {
                let j = choose|j: int| 0 <= j < vs.len() && #[trigger] vs[j].hit_key() == k;
                assert(p[j].hit_key() == k);
            }
            if has_key(p, k) {
                let j = choose|j: int| 0 <= j < p.len() && #[trigger] p[j].hit_key() == k;
                assert(vs[j].hit_key() == k);
            }
            if k == h.hit_key() {
                assert(vs[vs.len() - 1].hit_key() == k);
            }
        }
    }
}

/// The index of the entry of `entries` with the id `key`, if any.
fn find_key<T: RankedHit>(entries: &Vec<T>, key: &String) -> (r: Option<usize>)
    requires
        unique_keys(entries@),
    ensures
        match r {
            Some(i) => i < entries.len() && key_index(entries@, key@) == i,
            None => !has_key(entries@, key@) && key_index(entries@, key@) == -1,
        },
{
    let mut i: usize = 0;
    while i < entries.len()
        invariant
            i <= entries.len(),
            unique_keys(entries@),
            forall|j: int| 0 <= j < i ==> #[trigger] entries@[j].hit_key() != key@,
        decreases entries.len() - i,
    {
        let k: &String = entries[i].key();
        if k.eq(key) {
            proof {
                lemma_key_index(entries@, key@, i as int);
            }
            return Some(i);
        }
        i = i + 1;
    }
    None
}

/// Merges the vector hits and the text hits of one source: one entry per id,
/// in order of first appearance; a text hit never clears the distance that a
/// vector hit supplied.
pub fn merge_hits<T: RankedHit>(vector_hits: Vec<T>, text_hits: Vec<T>) -> (r: Vec<T>)
    ensures
        r@ == merged(vector_hits@, text_hits@),
        unique_keys(r@),
        forall|k: Seq<char>| has_key(r@, k) <==> (has_key(vector_hits@, k) || has_key(text_hits@, k)),
{
    let ghost vs = vector_hits@;
    let ghost ts = text_hits@;
    let mut entries: Vec<T> = Vec::new();
    for h in it: vector_hits.into_iter()
        invariant
            it.seq() == vs,
            entries@ == upsert_all(vs.take(it.index() as int)),
            unique_keys(entries@),
            forall|k: Seq<char>| has_key(entries@, k) <==> has_key(vs.take(it.index() as int), k),
    {
        let ghost n = it.index() as int;
        let ghost before = entries@;
        proof {
            assert(vs.take(n + 1).drop_last() =~= vs.take(n));
            lemma_upsert_unique(entries@, h);
            assert forall|k: Seq<char>| has_key(vs.take(n + 1), k) <==> (has_key(vs.take(n), k) || k == h.hit_key()) by {
                if has_key(vs.take(n + 1), k) {
                    let j = choose|j: int| 0 <= j < n + 1 && #[trigger] vs.take(n + 1)[j].hit_key() == k;
                    if j < n {
                        assert(vs.take(n)[j].hit_key() == k);
                    }
                }
                if has_key(vs.take(n), k) {
                    let j = choose|j: int| 0 <= j < n && #[trigger] vs.take(n)[j].hit_key() == k;
                    assert(vs.take(n + 1)[j].hit_key() == k);
                }
                if k == h.hit_key() {
                    assert(vs.take(n + 1)[n].hit_key() == k);
                }
            }
        }
        match find_key(&entries, h.key()) {
            Some(i) => {
                entries.set(i, h);
            },
            None => {
                entries.push(h);
            },
        }
        assert(entries@ == upsert(before, vs.take(n + 1).last()));
        assert forall|k: Seq<char>| has_key(entries@, k) <==> has_key(vs.take(n + 1), k) by {
            assert(has_key(before, k) <==> has_key(vs.take(n), k));
        }
    }
    proof {
        assert(vs.take(vs.len() as int) =~= vs);
        assert forall|k: Seq<char>| has_key(entries@, k) <==> (has_key(vs, k) || has_key(ts.take(0), k)) by {
            assert(has_key(entries@, k) <==> has_key(vs.take(vs.len() as int), k));
        }
    }
    let ghost base = entries@;
    for h in it: text_hits.into_iter()
        invariant
            it.seq() == ts,
            entries@ == overlay_all(base, ts.take(it.index() as int)),
            unique_keys(entries@),
            forall|k: Seq<char>| has_key(entries@, k) <==> (has_key(vs, k) || has_key(ts.take(it.index() as int), k)),
    {
        let ghost n = it.index() as int;
        let ghost before = entries@;
        proof {
            assert(ts.take(n + 1).drop_last() =~= ts.take(n));
            lemma_overlay_unique(entries@, h);
            assert forall|k: Seq<char>| has_key(ts.take(n + 1), k) <==> (has_key(ts.take(n), k) || k == h.hit_key()) by {
                if has_key(ts.take(n + 1), k) {
                    let j = choose|j: int| 0 <= j < n + 1 && #[trigger] ts.take(n + 1)[j].hit_key() == k;
                    if j < n {
                        assert(ts.take(n)[j].hit_key() == k);
                    }
                }
                if has_key(ts.take(n), k) {
                    let j = choose|j: int| 0 <= j < n && #[trigger] ts.take(n)[j].hit_key() == k;
                    assert(ts.take(n + 1)[j].hit_key() == k);
                }
                if k == h.hit_key() {
                    assert(ts.take(n + 1)[n].hit_key() == k);
                }
            }
        }
        match find_key(&entries, h.key()) {
            Some(i) => {
                let t = h.relevance();
                if t.is_some() {
                    let e = entries.remove(i);
                    let e = e.replace_relevance(t);
                    entries.insert(i, e);
                    proof {
                        assert(entries@ =~= overlay(overlay_all(base, ts.take(n)), h));
                    }
                }
            },
            None => {
                entries.push(h.replace_distance(None));
            },
        }
        assert forall|k: Seq<char>| has_key(entries@, k) <==> (has_key(vs, k) || has_key(ts.take(n + 1), k)) by {
            assert(has_key(before, k) <==> (has_key(vs, k) || has_key(ts.take(n), k)));
        }
    }
    proof {
        assert(ts.take(ts.len() as int) =~= ts);
    }
    entries
}

} // verus!
