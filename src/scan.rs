//! Searching and trimming character sequences.
use vstd::prelude::*;
use crate::text::{is_blank, is_whitespace, is_ws};

verus! {

/// `i` is the first position of `c` in `s`.
pub open spec fn is_first(s: Seq<char>, c: char, i: int) -> bool {
    0 <= i < s.len() && s[i] == c && forall|j: int| 0 <= j < i ==> #[trigger] s[j] != c
}

/// `i` is the last position of `c` in `s`.
pub open spec fn is_last(s: Seq<char>, c: char, i: int) -> bool {
    0 <= i < s.len() && s[i] == c && forall|j: int| i < j < s.len() ==> #[trigger] s[j] != c
}

/// The first position of `c` in `s`, if any.
pub open spec fn first_of(s: Seq<char>, c: char) -> Option<int> {
    if exists|i: int| is_first(s, c, i) {
        Some(choose|i: int| is_first(s, c, i))
    } else {
        None
    }
}

/// The last position of `c` in `s`, if any.
pub open spec fn last_of(s: Seq<char>, c: char) -> Option<int> {
    if exists|i: int| is_last(s, c, i) {
        Some(choose|i: int| is_last(s, c, i))
    } else {
        None
    }
}

pub open spec fn starts_with(s: Seq<char>, p: Seq<char>) -> bool {
    s.len() >= p.len() && s.take(p.len() as int) == p
}

pub open spec fn ends_with(s: Seq<char>, p: Seq<char>) -> bool {
    s.len() >= p.len() && s.skip(s.len() - p.len()) == p
}

/// `i` is the first position where `p` occurs in `s`.
pub open spec fn is_first_occurrence(s: Seq<char>, p: Seq<char>, i: int) -> bool {
    &&& 0 <= i <= s.len() - p.len()
    &&& s.subrange(i, i + p.len()) == p
    &&& forall|j: int| 0 <= j < i ==> #[trigger] s.subrange(j, j + p.len()) != p
}

/// The first position where `p` occurs in `s`, if any.
pub open spec fn find_seq(s: Seq<char>, p: Seq<char>) -> Option<int> {
    if exists|i: int| is_first_occurrence(s, p, i) {
        Some(choose|i: int| is_first_occurrence(s, p, i))
    } else {
        None
    }
}

/// `i` is the first position of `s` that is not whitespace.
pub open spec fn is_first_solid(s: Seq<char>, i: int) -> bool {
    0 <= i < s.len() && !is_ws(s[i]) && forall|j: int| 0 <= j < i ==> is_ws(#[trigger] s[j])
}

/// `i` is the last position of `s` that is not whitespace.
pub open spec fn is_last_solid(s: Seq<char>, i: int) -> bool {
    0 <= i < s.len() && !is_ws(s[i]) && forall|j: int| i < j < s.len() ==> is_ws(#[trigger] s[j])
}

/// `s` without leading and trailing whitespace.
pub open spec fn trimmed(s: Seq<char>) -> Seq<char> {
    if is_blank(s) {
        Seq::empty()
    } else {
        s.subrange(
            choose|i: int| is_first_solid(s, i),
            (choose|i: int| is_last_solid(s, i)) + 1,
        )
    }
}

/// The first position at or after `from` that holds `c`.
pub fn find_char(s: &Vec<char>, from: usize, c: char) -> (r: Option<usize>)
    requires
        from <= s.len(),
    ensures
        match r {
            Some(i) => from <= i < s.len() && s@[i as int] == c && forall|j: int|
                from <= j < i ==> #[trigger] s@[j] != c,
            None => forall|j: int| from <= j < s.len() ==> #[trigger] s@[j] != c,
        },
{
    let mut i = from;
    while i < s.len()
        invariant
            from <= i <= s.len(),
            forall|j: int| from <= j < i ==> #[trigger] s@[j] != c,
        decreases s.len() - i,
    {
        if s[i] == c {
            return Some(i);
        }
        i = i + 1;
    }
    None
}

/// The first position of `c` in `s`.
pub fn first_char_index(s: &Vec<char>, c: char) -> (r: Option<usize>)
    ensures
        r matches Some(i) ==> i < s.len() && first_of(s@, c) == Some(i as int),
        r is None ==> first_of(s@, c) is None,
{
    let r = find_char(s, 0, c);
    proof {
        match r {
            Some(i) => {
                assert(is_first(s@, c, i as int));
                let k = choose|k: int| is_first(s@, c, k);
                if k < i as int {
                    assert(s@[k] != c);
                }
                if k > i as int {
                    assert(s@[i as int] != c);
                }
            },
            None => {
                if exists|k: int| is_first(s@, c, k) {
                    let k = choose|k: int| is_first(s@, c, k);
                    assert(s@[k] != c);
                }
            },
        }
    }
    r
}

/// The last position of `c` in `s`.
pub fn last_char_index(s: &Vec<char>, c: char) -> (r: Option<usize>)
    ensures
        r matches Some(i) ==> i < s.len() && last_of(s@, c) == Some(i as int),
        r is None ==> last_of(s@, c) is None,
{
    let mut i = s.len();
    while i > 0
        invariant
            i <= s.len(),
            forall|j: int| i <= j < s.len() ==> #[trigger] s@[j] != c,
        decreases i,
    {
        if s[i - 1] == c {
            proof {
                let f = (i - 1) as int;
                assert(is_last(s@, c, f));
                let k = choose|k: int| is_last(s@, c, k);
                if k < f {
                    assert(s@[f] != c);
                }
                if k > f {
                    assert(s@[k] != c);
                }
            }
            return Some(i - 1);
        }
        i = i - 1;
    }
    proof {
        if exists|k: int| is_last(s@, c, k) {
            let k = choose|k: int| is_last(s@, c, k);
            assert(s@[k] != c);
        }
    }
    None
}

/// Whether `p` occurs in `s` at position `at`.
pub fn occurs_at(s: &Vec<char>, p: &Vec<char>, at: usize) -> (r: bool)
    requires
        at <= s.len(),
    ensures
        r == (at + p.len() <= s.len() && s@.subrange(at as int, at + p.len()) == p@),
{
    if p.len() > s.len() - at {
        return false;
    }
    let mut k: usize = 0;
    while k < p.len()
        invariant
            at + p.len() <= s.len(),
            k <= p.len(),
            forall|j: int| 0 <= j < k ==> s@[at + j] == #[trigger] p@[j],
        decreases p.len() - k,
    {
        if s[at + k] != p[k] {
            assert(s@.subrange(at as int, at + p.len())[k as int] != p@[k as int]);
            return false;
        }
        k = k + 1;
    }
    assert(s@.subrange(at as int, at + p.len()) =~= p@);
    true
}

/// The first position where `p` occurs in `s`.
pub fn find_subsequence(s: &Vec<char>, p: &Vec<char>) -> (r: Option<usize>)
    ensures
        r matches Some(i) ==> find_seq(s@, p@) == Some(i as int),
        r is None ==> find_seq(s@, p@) is None,
{
    if p.len() > s.len() {
        proof {
            if exists|k: int| is_first_occurrence(s@, p@, k) {
                let k = choose|k: int| is_first_occurrence(s@, p@, k);
                assert(false);
            }
        }
        return None;
    }
    let limit = s.len() - p.len();
    let mut i: usize = 0;
    while i < limit
        invariant
            limit == s.len() - p.len(),
            i <= limit,
            forall|j: int| 0 <= j < i ==> #[trigger] s@.subrange(j, j + p.len()) != p@,
        decreases limit - i,
    {
        if occurs_at(s, p, i) {
            proof {
                assert(is_first_occurrence(s@, p@, i as int));
                let k = choose|k: int| is_first_occurrence(s@, p@, k);
                if k < i as int {
                    assert(s@.subrange(k, k + p.len()) != p@);
                }
                if k > i as int {
                    assert(s@.subrange(i as int, i + p.len()) != p@);
                }
            }
            return Some(i);
        }
        i = i + 1;
    }
    if occurs_at(s, p, limit) {
        proof {
            assert(is_first_occurrence(s@, p@, limit as int));
            let k = choose|k: int| is_first_occurrence(s@, p@, k);
            if k < limit as int {
                assert(s@.subrange(k, k + p.len()) != p@);
            }
        }
        return Some(limit);
    }
    proof {
        if exists|k: int| is_first_occurrence(s@, p@, k) {
            let k = choose|k: int| is_first_occurrence(s@, p@, k);
            assert(s@.subrange(k, k + p.len()) != p@);
        }
    }
    None
}

/// Whether `s` begins with `p`.
pub fn has_prefix(s: &Vec<char>, p: &Vec<char>) -> (r: bool)
    ensures
        r == starts_with(s@, p@),
{
    let r = occurs_at(s, p, 0);
    proof {
        assert(s@.take(p.len() as int) =~= s@.subrange(0, p.len() as int));
    }
    r
}

/// Whether `s` ends with `p`.
pub fn has_suffix(s: &Vec<char>, p: &Vec<char>) -> (r: bool)
    ensures
        r == ends_with(s@, p@),
{
    if p.len() > s.len() {
        return false;
    }
    let at = s.len() - p.len();
    let r = occurs_at(s, p, at);
    proof {
        assert(s@.skip(at as int) =~= s@.subrange(at as int, at + p.len()));
    }
    r
}

/// The characters `s[from..to]`.
pub fn slice_chars(s: &Vec<char>, from: usize, to: usize) -> (r: Vec<char>)
    requires
        from <= to <= s.len(),
    ensures
        r@ == s@.subrange(from as int, to as int),
{
    let mut out: Vec<char> = Vec::new();
    let mut i = from;
    while i < to
        invariant
            from <= i <= to <= s.len(),
            out@ == s@.subrange(from as int, i as int),
        decreases to - i,
    {
        out.push(s[i]);
        assert(s@.subrange(from as int, i + 1) =~= s@.subrange(from as int, i as int).push(s@[i as int]));
        i = i + 1;
    }
    out
}

/// `s` without leading and trailing whitespace.
pub fn trim_chars(s: &Vec<char>) -> (r: Vec<char>)
    ensures
        r@ == trimmed(s@),
{
    let mut a: usize = 0;
    while a < s.len() && is_whitespace(s[a])
        invariant
            a <= s.len(),
            forall|j: int| 0 <= j < a ==> is_ws(#[trigger] s@[j]),
        decreases s.len() - a,
    {
        a = a + 1;
    }
    if a == s.len() {
        assert(is_blank(s@));
        return Vec::new();
    }
    let mut b: usize = s.len();
    while b > a + 1 && is_whitespace(s[b - 1])
        invariant
            a < b <= s.len(),
            !is_ws(s@[a as int]),
            forall|j: int| b <= j < s.len() ==> is_ws(#[trigger] s@[j]),
        decreases b,
    {
        b = b - 1;
    }
    proof {
        let ai = a as int;
        let bi = (b - 1) as int;
        assert(!is_blank(s@)) by {
            assert(!is_ws(s@[ai]));
        }
        assert(is_first_solid(s@, ai));
        assert(is_last_solid(s@, bi));
        let x = choose|i: int| is_first_solid(s@, i);
        let y = choose|i: int| is_last_solid(s@, i);
        if x < ai {
            assert(is_ws(s@[x]));
        }
        if x > ai {
            assert(is_ws(s@[ai]));
        }
        if y < bi {
            assert(is_ws(s@[bi]));
        }
        if y > bi {
            assert(is_ws(s@[y]));
        }
    }
    slice_chars(s, a, b)
}

} // verus!
