//! Character-level text model: whitespace, words, joining, and the
//! normalisation used to compare bodies for near-duplicates.
use vstd::prelude::*;

verus! {

/// The Unicode `White_Space` characters (those of `char::is_whitespace`).
pub open spec fn is_ws(c: char) -> bool {
    let u = c as u32;
    ||| 9 <= u <= 13
    ||| u == 32
    ||| u == 0x85
    ||| u == 0xa0
    ||| u == 0x1680
    ||| 0x2000 <= u <= 0x200a
    ||| u == 0x2028
    ||| u == 0x2029
    ||| u == 0x202f
    ||| u == 0x205f
    ||| u == 0x3000
}

pub open spec fn is_ascii_alnum(c: char) -> bool {
    let u = c as u32;
    ||| 48 <= u <= 57
    ||| 65 <= u <= 90
    ||| 97 <= u <= 122
}

/// ASCII upper-case letters map to lower case; every other character is kept.
pub open spec fn ascii_lower(c: char) -> char {
    let u = c as u32;
    if 65 <= u <= 90 {
        (u + 32) as char
    } else {
        c
    }
}

/// What separates the segments of a text.
pub enum Separator {
    Whitespace,
    NonAlphanumeric,
}

pub open spec fn separates(sep: Separator, c: char) -> bool {
    match sep {
        Separator::Whitespace => is_ws(c),
        Separator::NonAlphanumeric => !is_ascii_alnum(c),
    }
}

/// The maximal runs of non-separator characters of `s`, left to right.
pub open spec fn segments(s: Seq<char>, sep: Separator) -> Seq<Seq<char>>
    decreases s.len(),
{
    if s.len() == 0 {
        Seq::empty()
    } else {
        let prev = segments(s.drop_last(), sep);
        let c = s.last();
        if separates(sep, c) {
            prev
        } else if s.len() >= 2 && !separates(sep, s[s.len() - 2]) {
            prev.update(prev.len() - 1, prev.last().push(c))
        } else {
            prev.push(seq![c])
        }
    }
}

/// The whitespace-delimited words of `s`.
pub open spec fn words(s: Seq<char>) -> Seq<Seq<char>> {
    segments(s, Separator::Whitespace)
}

/// The parts joined with `sep` between consecutive parts.
pub open spec fn join(parts: Seq<Seq<char>>, sep: Seq<char>) -> Seq<char>
    decreases parts.len(),
{
    if parts.len() == 0 {
        Seq::empty()
    } else if parts.len() == 1 {
        parts[0]
    } else {
        join(parts.drop_last(), sep) + sep + parts.last()
    }
}

/// A text that holds nothing but whitespace.
pub open spec fn is_blank(s: Seq<char>) -> bool {
    forall|i: int| 0 <= i < s.len() ==> is_ws(#[trigger] s[i])
}

/// Lower-case ASCII, every run of other characters collapsed into one space,
/// no leading or trailing space.
pub open spec fn normalized(s: Seq<char>) -> Seq<char> {
    join(segments(s.map_values(|c: char| ascii_lower(c)), Separator::NonAlphanumeric), seq![' '])
}

pub proof fn lemma_segments_push(s: Seq<char>, c: char, sep: Separator)
    ensures
        segments(s.push(c), sep) == (if separates(sep, c) {
            segments(s, sep)
        } else if s.len() >= 1 && !separates(sep, s.last()) {
            segments(s, sep).update(segments(s, sep).len() - 1, segments(s, sep).last().push(c))
        } else {
            segments(s, sep).push(seq![c])
        }),
        s.len() >= 1 && !separates(sep, s.last()) ==> segments(s, sep).len() > 0,
{
    assert(s.push(c).drop_last() =~= s);
    if s.len() >= 1 && !separates(sep, s.last()) {
        lemma_segments_end(s, sep);
    }
}

/// A text that ends inside a segment has at least one segment.
pub proof fn lemma_segments_end(s: Seq<char>, sep: Separator)
    requires
        s.len() >= 1,
        !separates(sep, s.last()),
    ensures
        segments(s, sep).len() > 0,
    decreases s.len(),
{
    if s.len() >= 2 && !separates(sep, s[s.len() - 2]) {
        lemma_segments_end(s.drop_last(), sep);
    }
}

pub proof fn lemma_join_push(parts: Seq<Seq<char>>, x: Seq<char>, sep: Seq<char>)
    ensures
        join(parts.push(x), sep) == (if parts.len() == 0 {
            x
        } else {
            join(parts, sep) + sep + x
        }),
{
    assert(parts.push(x).drop_last() =~= parts);
}

pub proof fn lemma_join_extend_last(parts: Seq<Seq<char>>, c: char, sep: Seq<char>)
    requires
        parts.len() > 0,
    ensures
        join(parts.update(parts.len() - 1, parts.last().push(c)), sep) == join(parts, sep).push(c),
{
    let q = parts.update(parts.len() - 1, parts.last().push(c));
    if parts.len() == 1 {
    } else {
        assert(q.drop_last() =~= parts.drop_last());
        assert(join(q, sep) =~= join(parts, sep).push(c));
    }
}

/// The marker appended to a snippet whose words were cut.
pub open spec fn ellipsis() -> Seq<char> {
    seq![' ', '.', '.', '.']
}

/// The snippet, its word count and whether words were cut, when `s` is
/// limited to `max_tokens` whitespace-delimited words.
pub open spec fn token_limited(s: Seq<char>, max_tokens: nat) -> (Seq<char>, nat, bool) {
    let w = words(s);
    if max_tokens == 0 || w.len() == 0 {
        (Seq::empty(), 0, false)
    } else if w.len() <= max_tokens {
        (join(w, seq![' ']), w.len(), false)
    } else {
        (join(w.take(max_tokens as int), seq![' ']) + ellipsis(), max_tokens, true)
    }
}

pub proof fn lemma_segments_len(s: Seq<char>, sep: Separator)
    ensures
        segments(s, sep).len() <= s.len(),
    decreases s.len(),
{
    if s.len() > 0 {
        lemma_segments_len(s.drop_last(), sep);
        if s.len() >= 2 && !separates(sep, s[s.len() - 2]) {
            assert(s.drop_last().last() == s[s.len() - 2]);
            lemma_segments_end(s.drop_last(), sep);
        }
    }
}

/// The key under which two bodies count as the same content.
pub fn normalize_text_for_dedupe(text: &str) -> (r: String)
    ensures
        r@ == normalized(text@),
{
    let cs = chars_of(text);
    let ghost low = text@.map_values(|c: char| ascii_lower(c));
    let ghost sep = Separator::NonAlphanumeric;
    let mut out: Vec<char> = Vec::new();
    let mut in_run = false;
    let mut started = false;
    let mut i: usize = 0;
    while i < cs.len()
        invariant
            i <= cs.len(),
            cs@ == text@,
            low == text@.map_values(|c: char| ascii_lower(c)),
            sep == Separator::NonAlphanumeric,
            out@ == join(segments(low.take(i as int), sep), seq![' ']),
            in_run == (i > 0 && !separates(sep, low[i - 1])),
            started == (segments(low.take(i as int), sep).len() > 0),
        decreases cs.len() - i,
    {
        let c = lower_ascii(cs[i]);
        let ghost prefix = low.take(i as int);
        let ghost segs = segments(prefix, sep);
        proof {
            assert(low.take(i + 1) =~= prefix.push(c));
            lemma_segments_push(prefix, c, sep);
            if i > 0 {
                assert(prefix.last() == low[i - 1]);
            }
        }
        if is_alphanumeric_ascii(c) {
            if in_run {
                proof {
                    lemma_join_extend_last(segs, c, seq![' ']);
                }
                out.push(c);
            } else {
                proof {
                    lemma_join_push(segs, seq![c], seq![' ']);
                }
                if started {
                    out.push(' ');
                }
                out.push(c);
                proof {
                    assert(out@ =~= join(segs.push(seq![c]), seq![' ']));
                }
                started = true;
            }
            in_run = true;
        } else {
            in_run = false;
        }
        i = i + 1;
    }
    assert(low.take(cs.len() as int) =~= low);
    string_of(&out)
}

/// Limits `text` to its first `max_tokens` words, joined by single spaces,
/// and marks a cut with a trailing ellipsis; returns the snippet, its word
/// count (without the marker) and whether words were cut.
pub fn truncate_to_token_limit(text: &str, max_tokens: usize) -> (r: (String, usize, bool))
    ensures
        (r.0@, r.1 as nat, r.2) == token_limited(text@, max_tokens as nat),
{
    if max_tokens == 0 {
        return (String::new(), 0, false);
    }
    let cs = chars_of(text);
    let ghost sep = Separator::Whitespace;
    let mut out: Vec<char> = Vec::new();
    let mut in_word = false;
    let mut count: usize = 0;
    let mut i: usize = 0;
    while i < cs.len()
        invariant
            i <= cs.len(),
            cs@ == text@,
            sep == Separator::Whitespace,
            count == segments(cs@.take(i as int), sep).len(),
            count <= i,
            out@ == join(
                segments(cs@.take(i as int), sep).take(
                    if count <= max_tokens {
                        count as int
                    } else {
                        max_tokens as int
                    },
                ),
                seq![' '],
            ),
            in_word == (i > 0 && !separates(sep, cs@[i - 1])),
        decreases cs.len() - i,
    {
        let c = cs[i];
        let ghost prefix = cs@.take(i as int);
        let ghost segs = segments(prefix, sep);
        proof {
            assert(cs@.take(i + 1) =~= prefix.push(c));
            lemma_segments_push(prefix, c, sep);
            lemma_segments_len(prefix, sep);
            if i > 0 {
                assert(prefix.last() == cs@[i - 1]);
            }
        }
        if !is_whitespace(c) {
            if in_word {
                let ghost next = segs.update(segs.len() - 1, segs.last().push(c));
                if count <= max_tokens {
                    proof {
                        assert(segs.take(count as int) =~= segs);
                        assert(next.take(count as int) =~= next);
                        lemma_join_extend_last(segs, c, seq![' ']);
                    }
                    out.push(c);
                } else {
                    proof {
                        assert(next.take(max_tokens as int) =~= segs.take(max_tokens as int));
                    }
                }
            } else {
                let ghost next = segs.push(seq![c]);
                if count < max_tokens {
                    proof {
                        assert(segs.take(count as int) =~= segs);
                        assert(next.take(count + 1) =~= next);
                        lemma_join_push(segs, seq![c], seq![' ']);
                    }
                    if count > 0 {
                        out.push(' ');
                    }
                    out.push(c);
                    proof {
                        assert(out@ =~= join(next, seq![' ']));
                    }
                } else {
                    proof {
                        assert(next.take(max_tokens as int) =~= segs.take(max_tokens as int));
                    }
                }
                count = count + 1;
            }
            in_word = true;
        } else {
            in_word = false;
        }
        i = i + 1;
    }
    proof {
        assert(cs@.take(cs.len() as int) =~= text@);
    }
    if count == 0 {
        return (String::new(), 0, false);
    }
    if count <= max_tokens {
        proof {
            assert(words(text@).take(count as int) =~= words(text@));
        }
        (string_of(&out), count, false)
    } else {
        out.push(' ');
        out.push('.');
        out.push('.');
        out.push('.');
        proof {
            assert(out@ =~= join(words(text@).take(max_tokens as int), seq![' ']) + ellipsis());
        }
        (string_of(&out), max_tokens, true)
    }
}

/// Whether `c` is Unicode whitespace.
pub fn is_whitespace(c: char) -> (r: bool)
    ensures
        r == is_ws(c),
{
    let u = c as u32;
    (9 <= u && u <= 13) || u == 32 || u == 0x85 || u == 0xa0 || u == 0x1680 || (0x2000 <= u && u
        <= 0x200a) || u == 0x2028 || u == 0x2029 || u == 0x202f || u == 0x205f || u == 0x3000
}

pub fn is_alphanumeric_ascii(c: char) -> (r: bool)
    ensures
        r == is_ascii_alnum(c),
{
    let u = c as u32;
    (48 <= u && u <= 57) || (65 <= u && u <= 90) || (97 <= u && u <= 122)
}

pub fn lower_ascii(c: char) -> (r: char)
    ensures
        r == ascii_lower(c),
{
    let u = c as u32;
    if 65 <= u && u <= 90 {
        ((u + 32) as u8) as char
    } else {
        c
    }
}

/// What `str::to_lowercase` returns: the full Unicode lower-case mapping,
/// which depends on the characters alone.
pub uninterp spec fn lower_of(s: Seq<char>) -> Seq<char>;

/// Relies on `str::to_lowercase`: Unicode lower case of every character;
/// the empty string stays empty.
#[verifier::external_body]
pub(crate) fn lowercase(s: &str) -> (r: String)
    ensures
        r@ == lower_of(s@),
        s@.len() == 0 ==> r@.len() == 0,
{
    s.to_lowercase()
}

/// The words of `s` joined by single spaces.
pub fn collapse_whitespace(s: &str) -> (r: String)
    ensures
        r@ == join(words(s@), seq![' ']),
{
    let len = chars_of(s).len();
    proof {
        lemma_segments_len(s@, Separator::Whitespace);
        assert(words(s@).len() <= len);
    }
    let (joined, _, _) = truncate_to_token_limit(s, usize::MAX);
    proof {
        if words(s@).len() == 0 {
            assert(words(s@) =~= Seq::<Seq<char>>::empty());
        }
    }
    joined
}

/// An entity name in canonical form: lower case, words joined by single
/// spaces.
pub fn canonicalize(name: &str) -> (r: String)
    ensures
        r@ == join(words(lower_of(name@)), seq![' ']),
{
    let lowered = lowercase(name);
    collapse_whitespace(lowered.as_str())
}

/// Relies on `String::push`: appends one character.
#[verifier::external_body]
fn push_char(s: &mut String, c: char)
    ensures
        final(s)@ == old(s)@.push(c),
{
    s.push(c)
}

/// The characters of `s`, in order.
pub fn chars_of(s: &str) -> (r: Vec<char>)
    ensures
        r@ == s@,
{
    let mut out: Vec<char> = Vec::new();
    for c in it: s.chars()
        invariant
            it.seq() == s@,
            out@ == it.seq().take(it.index() as int),
    {
        out.push(c);
    }
    out
}

/// A string holding exactly the characters of `v`.
pub fn string_of(v: &Vec<char>) -> (r: String)
    ensures
        r@ == v@,
{
    let mut out = String::new();
    let mut i: usize = 0;
    while i < v.len()
        invariant
            i <= v.len(),
            out@ == v@.take(i as int),
        decreases v.len() - i,
    {
        push_char(&mut out, v[i]);
        assert(v@.take(i as int).push(v@[i as int]) =~= v@.take(i + 1));
        i = i + 1;
    }
    assert(v@.take(v.len() as int) =~= v@);
    out
}

} // verus!
