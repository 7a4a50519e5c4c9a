//! Cleaning of model-generated JSON text and of text handed to extraction.
use vstd::prelude::*;
use crate::scan::{
    ends_with, find_char, find_subsequence, find_seq, first_char_index, first_of, has_prefix,
    has_suffix, is_first, last_char_index, last_of, slice_chars, starts_with, trim_chars, trimmed,
};
use crate::text::{chars_of, string_of};

verus! {

/// A Markdown code fence.
pub open spec fn fence() -> Seq<char> {
    seq!['`', '`', '`']
}

/// The text after the first line break, or nothing when there is none.
pub open spec fn after_first_line(s: Seq<char>) -> Seq<char> {
    match first_of(s, '\n') {
        Some(i) => s.skip(i + 1),
        None => Seq::empty(),
    }
}

/// Every `\r\n` line ending written as `\n`.
pub open spec fn crlf_to_lf(s: Seq<char>) -> Seq<char>
    decreases s.len(),
{
    if s.len() == 0 {
        s
    } else if s.len() >= 2 && s[0] == '\r' && s[1] == '\n' {
        seq!['\n'] + crlf_to_lf(s.skip(2))
    } else {
        seq![s[0]] + crlf_to_lf(s.skip(1))
    }
}

/// A text that opens with a code fence loses its first line and a closing
/// fence, and is trimmed; any other text is kept.
pub open spec fn unfenced(t: Seq<char>) -> Seq<char> {
    if starts_with(t, fence()) {
        let body = crlf_to_lf(after_first_line(t));
        trimmed(
            if ends_with(body, fence()) {
                body.take(body.len() - 3)
            } else {
                body
            },
        )
    } else {
        t
    }
}

/// The trimmed payload without code fences, cut to the span from its first
/// `{` to its last `}` when that span is well ordered.
pub open spec fn json_payload(p: Seq<char>) -> Seq<char> {
    let t = trimmed(p);
    if t.len() == 0 {
        t
    } else {
        let w = unfenced(t);
        match (first_of(w, '{'), last_of(w, '}')) {
            (Some(a), Some(b)) => if a < b {
                w.subrange(a, b + 1)
            } else {
                w
            },
            _ => w,
        }
    }
}

proof fn lemma_first_of_is(s: Seq<char>, c: char, i: int)
    requires
        is_first(s, c, i),
    ensures
        first_of(s, c) == Some(i),
{
    let k = choose|k: int| is_first(s, c, k);
    if k < i {
        assert(s[k] != c);
    }
    if k > i {
        assert(s[i] != c);
    }
}

proof fn lemma_first_of_none(s: Seq<char>, c: char)
    requires
        forall|j: int| 0 <= j < s.len() ==> #[trigger] s[j] != c,
    ensures
        first_of(s, c) is None,
{
    if exists|k: int| is_first(s, c, k) {
        let k = choose|k: int| is_first(s, c, k);
        assert(s[k] != c);
    }
}

fn crlf_chars_to_lf(s: &Vec<char>) -> (r: Vec<char>)
    ensures
        r@ == crlf_to_lf(s@),
{
    let mut out: Vec<char> = Vec::new();
    let mut i: usize = 0;
    proof {
        assert(s@.skip(0) =~= s@);
        assert(out@ + crlf_to_lf(s@) =~= crlf_to_lf(s@));
    }
    while i < s.len()
        invariant
            i <= s.len(),
            out@ + crlf_to_lf(s@.skip(i as int)) == crlf_to_lf(s@),
        decreases s.len() - i,
    {
        let ghost rest = s@.skip(i as int);
        let ghost before = out@;
        if i + 1 < s.len() && s[i] == '\r' && s[i + 1] == '\n' {
            out.push('\n');
            proof {
                assert(rest.skip(2) =~= s@.skip(i + 2));
                assert(before + crlf_to_lf(rest) =~= out@ + crlf_to_lf(s@.skip(i + 2)));
            }
            i = i + 2;
        } else {
            out.push(s[i]);
            proof {
                assert(rest.skip(1) =~= s@.skip(i + 1));
                assert(before + crlf_to_lf(rest) =~= out@ + crlf_to_lf(s@.skip(i + 1)));
            }
            i = i + 1;
        }
    }
    proof {
        assert(out@ + crlf_to_lf(s@.skip(i as int)) =~= out@);
    }
    out
}

fn fence_chars() -> (r: Vec<char>)
    ensures
        r@ == fence(),
{
    vec!['`', '`', '`']
}

/// Strips code fences and surrounding prose from a model's JSON answer.
pub fn normalize_json_payload(payload: &str) -> (r: String)
    ensures
        r@ == json_payload(payload@),
{
    let chars = chars_of(payload);
    let t = trim_chars(&chars);
    if t.len() == 0 {
        return string_of(&t);
    }
    let fence = fence_chars();
    let w: Vec<char> = if has_prefix(&t, &fence) {
        let rest: Vec<char> = match first_char_index(&t, '\n') {
            Some(i) => slice_chars(&t, i + 1, t.len()),
            None => Vec::new(),
        };
        proof {
            assert(rest@ =~= after_first_line(t@));
        }
        let body = crlf_chars_to_lf(&rest);
        let body = if has_suffix(&body, &fence) {
            let end = body.len() - 3;
            let cut = slice_chars(&body, 0, end);
            proof {
                assert(cut@ =~= body@.take(body@.len() - 3));
            }
            cut
        } else {
            body
        };
        trim_chars(&body)
    } else {
        t
    };
    match (first_char_index(&w, '{'), last_char_index(&w, '}')) {
        (Some(a), Some(b)) => {
            if a < b {
                let span = slice_chars(&w, a, b + 1);
                return string_of(&span);
            }
        },
        _ => {},
    }
    string_of(&w)
}

/// Every `,]` written as `]`.
pub open spec fn drop_trailing_commas(s: Seq<char>) -> Seq<char>
    decreases s.len(),
{
    if s.len() == 0 {
        s
    } else if s.len() >= 2 && s[0] == ',' && s[1] == ']' {
        seq![']'] + drop_trailing_commas(s.skip(2))
    } else {
        seq![s[0]] + drop_trailing_commas(s.skip(1))
    }
}

/// `s` without its `\n` and `\r` characters.
pub open spec fn without_line_breaks(s: Seq<char>) -> Seq<char>
    decreases s.len(),
{
    if s.len() == 0 {
        s
    } else {
        (if s[0] == '\n' || s[0] == '\r' {
            Seq::empty()
        } else {
            seq![s[0]]
        }) + without_line_breaks(s.skip(1))
    }
}

/// Repairs a JSON array: no comma before a closing bracket, no line breaks.
pub fn clean_json_array(payload: &str) -> (r: String)
    ensures
        r@ == without_line_breaks(drop_trailing_commas(payload@)),
{
    let s = chars_of(payload);
    let mut a: Vec<char> = Vec::new();
    let mut i: usize = 0;
    proof {
        assert(s@.skip(0) =~= s@);
        assert(a@ + drop_trailing_commas(s@) =~= drop_trailing_commas(s@));
    }
    while i < s.len()
        invariant
            i <= s.len(),
            a@ + drop_trailing_commas(s@.skip(i as int)) == drop_trailing_commas(s@),
        decreases s.len() - i,
    {
        let ghost rest = s@.skip(i as int);
        let ghost before = a@;
        if i + 1 < s.len() && s[i] == ',' && s[i + 1] == ']' {
            a.push(']');
            proof {
                assert(rest.skip(2) =~= s@.skip(i + 2));
                assert(before + drop_trailing_commas(rest) =~= a@ + drop_trailing_commas(s@.skip(i + 2)));
            }
            i = i + 2;
        } else {
            a.push(s[i]);
            proof {
                assert(rest.skip(1) =~= s@.skip(i + 1));
                assert(before + drop_trailing_commas(rest) =~= a@ + drop_trailing_commas(s@.skip(i + 1)));
            }
            i = i + 1;
        }
    }
    proof {
        assert(a@ + drop_trailing_commas(s@.skip(i as int)) =~= a@);
    }
    let mut out: Vec<char> = Vec::new();
    let mut j: usize = 0;
    proof {
        assert(a@.skip(0) =~= a@);
        assert(out@ + without_line_breaks(a@) =~= without_line_breaks(a@));
    }
    while j < a.len()
        invariant
            j <= a.len(),
            out@ + without_line_breaks(a@.skip(j as int)) == without_line_breaks(a@),
        decreases a.len() - j,
    {
        let ghost rest = a@.skip(j as int);
        let ghost before = out@;
        let c = a[j];
        if c != '\n' && c != '\r' {
            out.push(c);
        }
        proof {
            assert(rest.skip(1) =~= a@.skip(j + 1));
            assert(before + without_line_breaks(rest) =~= out@ + without_line_breaks(a@.skip(j + 1)));
        }
        j = j + 1;
    }
    proof {
        assert(out@ + without_line_breaks(a@.skip(j as int)) =~= out@);
    }
    string_of(&out)
}

/// The marker that ends a text cut for extraction.
pub open spec fn truncation_marker() -> Seq<char> {
    "\n\n[truncated]"@
}

/// A text of `max_chars` characters or more keeps its first `max_chars`
/// and gains the marker; a shorter text, or any text when `max_chars` is 0,
/// is kept whole.
pub open spec fn extraction_text(s: Seq<char>, max_chars: nat) -> Seq<char> {
    if max_chars == 0 || s.len() < max_chars {
        s
    } else {
        s.take(max_chars as int) + truncation_marker()
    }
}

/// Bounds the text sent to entity extraction to `max_chars` characters.
pub fn truncate_for_extraction(text: &str, max_chars: usize) -> (r: String)
    ensures
        r@ == extraction_text(text@, max_chars as nat),
{
    let s = chars_of(text);
    if max_chars == 0 || s.len() < max_chars {
        return String::from_str(text);
    }
    let head = slice_chars(&s, 0, max_chars);
    let mut out = string_of(&head);
    out.append("\n\n[truncated]");
    proof {
        assert(head@ =~= text@.take(max_chars as int));
    }
    out
}

/// Note ids carry the `note:` table prefix.
pub open spec fn prefixed_note_id(s: Seq<char>) -> Seq<char> {
    if starts_with(s, "note:"@) {
        s
    } else {
        "note:"@ + s
    }
}

/// The id with the `note:` prefix, added when missing.
pub fn normalize_note_id(note_id: &str) -> (r: String)
    ensures
        r@ == prefixed_note_id(note_id@),
{
    let s = chars_of(note_id);
    let prefix = chars_of("note:");
    if has_prefix(&s, &prefix) {
        String::from_str(note_id)
    } else {
        String::from_str("note:").concat(note_id)
    }
}

/// Lexer state while scanning a JSON array: bracket depth, inside a string,
/// right after a backslash inside a string.
pub open spec fn scan_step(st: (nat, bool, bool), c: char) -> (nat, bool, bool) {
    let (depth, in_string, escape) = st;
    if in_string {
        if escape {
            (depth, true, false)
        } else if c == '\\' {
            (depth, true, true)
        } else if c == '"' {
            (depth, false, false)
        } else {
            (depth, true, false)
        }
    } else if c == '"' {
        (depth, true, false)
    } else if c == '[' {
        (depth + 1, false, false)
    } else if c == ']' {
        (if depth == 0 { 0 } else { (depth - 1) as nat }, false, false)
    } else {
        (depth, false, false)
    }
}

/// The lexer state after the first `n` characters of `s`.
pub open spec fn scan_state(s: Seq<char>, n: nat) -> (nat, bool, bool)
    decreases n,
{
    if n == 0 {
        (0, false, false)
    } else {
        scan_step(scan_state(s, (n - 1) as nat), s[n - 1])
    }
}

/// The character at `n` is a `]`, outside strings, that closes the
/// outermost bracket.
pub open spec fn closes_at(s: Seq<char>, n: int) -> bool {
    0 <= n < s.len() && !scan_state(s, n as nat).1 && s[n] == ']' && scan_state(s, n as nat).0 == 1
}

pub open spec fn is_first_close(s: Seq<char>, n: int) -> bool {
    closes_at(s, n) && forall|m: int| 0 <= m < n ==> !#[trigger] closes_at(s, m)
}

/// `s` up to the bracket that closes its outermost bracket, if any.
pub open spec fn closed_array(s: Seq<char>) -> Option<Seq<char>> {
    if exists|n: int| is_first_close(s, n) {
        Some(s.take((choose|n: int| is_first_close(s, n)) + 1))
    } else {
        None
    }
}

/// The array text from the first `[` at or after the first occurrence of
/// `key` to the bracket that closes it, if both exist.
pub open spec fn json_array_after(s: Seq<char>, key: Seq<char>) -> Option<Seq<char>> {
    match find_seq(s, key) {
        None => None,
        Some(k) => match first_of(s.skip(k), '[') {
            None => None,
            Some(b) => closed_array(s.skip(k + b)),
        },
    }
}

/// Finds the JSON array that follows `key` in `payload`, skipping brackets
/// inside strings.
pub fn extract_json_array(payload: &str, key: &str) -> (r: Option<String>)
    ensures
        match r {
            Some(x) => json_array_after(payload@, key@) == Some(x@),
            None => json_array_after(payload@, key@) is None,
        },
{
    let s = chars_of(payload);
    let k = chars_of(key);
    let key_pos = match find_subsequence(&s, &k) {
        Some(p) => p,
        None => return None,
    };
    let ghost rest = s@.skip(key_pos as int);
    let array_start = match find_char(&s, key_pos, '[') {
        Some(a) => {
            proof {
                assert forall|j: int| 0 <= j < a - key_pos implies #[trigger] rest[j] != '[' by {
                    assert(rest[j] == s@[key_pos + j]);
                }
                lemma_first_of_is(rest, '[', a - key_pos);
            }
            a
        },
        None => {
            proof {
                assert forall|j: int| 0 <= j < rest.len() implies #[trigger] rest[j] != '[' by {
                    assert(rest[j] == s@[key_pos + j]);
                }
                lemma_first_of_none(rest, '[');
            }
            return None;
        },
    };
    let ghost region = s@.skip(array_start as int);
    assert(first_of(rest, '[') == Some(array_start - key_pos));
    assert(s@.skip(key_pos + (array_start - key_pos)) == region);
    let mut depth: usize = 0;
    let mut in_string = false;
    let mut escape = false;
    let mut i = array_start;
    while i < s.len()
        invariant
            array_start <= i <= s.len(),
            key_pos <= array_start,
            s@ == payload@,
            k@ == key@,
            region == s@.skip(array_start as int),
            find_seq(s@, k@) == Some(key_pos as int),
            rest == s@.skip(key_pos as int),
            first_of(rest, '[') == Some(array_start - key_pos),
            s@.skip(key_pos + (array_start - key_pos)) == region,
            (depth as nat, in_string, escape) == scan_state(region, (i - array_start) as nat),
            depth <= i - array_start,
            forall|m: int| 0 <= m < i - array_start ==> !#[trigger] closes_at(region, m),
        decreases s.len() - i,
    {
        let ghost n = (i - array_start) as int;
        let c = s[i];
        assert(region[n] == c);
        if !in_string && c == ']' && depth == 1 {
            let out = slice_chars(&s, array_start, i + 1);
            proof {
                assert(closes_at(region, n));
                assert(is_first_close(region, n));
                let m = choose|m: int| is_first_close(region, m);
                if m < n {
                    assert(!closes_at(region, m));
                }
                if m > n {
                    assert(!closes_at(region, n));
                }
                assert(out@ =~= region.take(n + 1));
                assert(closed_array(region) == Some(region.take(n + 1)));
            }
            return Some(string_of(&out));
        }
        if in_string {
            if escape {
                escape = false;
            } else if c == '\\' {
                escape = true;
            } else if c == '"' {
                in_string = false;
            }
        } else if c == '"' {
            in_string = true;
        } else if c == '[' {
            depth = depth + 1;
        } else if c == ']' {
            if depth > 0 {
                depth = depth - 1;
            }
        }
        i = i + 1;
    }
    proof {
        if exists|m: int| is_first_close(region, m) {
            let m = choose|m: int| is_first_close(region, m);
            assert(!closes_at(region, m));
        }
    }
    None
}

} // verus!
