//! Character-level text utilities: splitting, tokenizing, trimming and
//! digit rendering, each specified over `Seq<char>`.

use vstd::prelude::*;

verus! {

/// Unicode whitespace (the characters with the White_Space property),
/// the separator set used when tokenizing a start line and when trimming
/// header names and values.
pub open spec fn is_ws(c: char) -> bool {
    ||| ('\u{09}' <= c && c <= '\u{0D}')
    ||| c == ' '
    ||| c == '\u{85}'
    ||| c == '\u{A0}'
    ||| c == '\u{1680}'
    ||| ('\u{2000}' <= c && c <= '\u{200A}')
    ||| c == '\u{2028}'
    ||| c == '\u{2029}'
    ||| c == '\u{202F}'
    ||| c == '\u{205F}'
    ||| c == '\u{3000}'
}

/// Index of the first occurrence of `c` in `s`, or `-1` if absent.
pub open spec fn find_char(s: Seq<char>, c: char) -> int
    decreases s.len(),
{
    if s.len() == 0 {
        -1
    } else if s[0] == c {
        0
    } else {
        let r = find_char(s.skip(1), c);
        if r < 0 {
            -1
        } else {
            r + 1
        }
    }
}

pub proof fn lemma_find_char(s: Seq<char>, c: char)
    ensures
        -1 <= find_char(s, c) < s.len(),
        find_char(s, c) >= 0 ==> s[find_char(s, c)] == c,
        forall|j: int| 0 <= j < find_char(s, c) ==> s[j] != c,
        find_char(s, c) < 0 ==> (forall|j: int| 0 <= j < s.len() ==> s[j] != c),
    decreases s.len(),
{
    if s.len() == 0 {
    } else if s[0] == c {
    } else {
        let t = s.skip(1);
        lemma_find_char(t, c);
        assert(forall|j: int| 1 <= j < s.len() ==> s[j] == t[j - 1]);
        let r = find_char(t, c);
        if r >= 0 {
            assert(s[r + 1] == t[r]);
        }
    }
}

/// `s` split at every occurrence of `c`; the separators are not kept.
/// Always yields at least one piece, and empty pieces are kept.
pub open spec fn spec_split(s: Seq<char>, c: char) -> Seq<Seq<char>>
    decreases s.len(),
    via spec_split_decreases
{
    if find_char(s, c) < 0 {
        seq![s]
    } else {
        let i = find_char(s, c);
        seq![s.subrange(0, i)] + spec_split(s.skip(i + 1), c)
    }
}

#[via_fn]
proof fn spec_split_decreases(s: Seq<char>, c: char) {
    lemma_find_char(s, c);
}

pub proof fn lemma_spec_split_len(s: Seq<char>, c: char)
    ensures
        spec_split(s, c).len() >= 1,
    decreases s.len(),
{
    lemma_find_char(s, c);
    if find_char(s, c) >= 0 {
        lemma_spec_split_len(s.skip(find_char(s, c) + 1), c);
    }
}

/// The views of a sequence of string slices.
pub open spec fn views(ts: Seq<&str>) -> Seq<Seq<char>> {
    ts.map_values(|t: &str| t@)
}

proof fn lemma_views_push(ts: Seq<&str>, x: &str)
    ensures
        views(ts.push(x)) =~= views(ts).push(x@),
{
}

/// Exact equality of two string slices, decided character by character.
pub fn str_eq(a: &str, b: &str) -> (r: bool)
    ensures
        r == (a@ == b@),
{
    let alen: usize = a.unicode_len();
    let blen: usize = b.unicode_len();
    if alen != blen {
        return false;
    }
    let mut i: usize = 0;
    while i < alen
        invariant
            0 <= i <= alen,
            alen == a@.len(),
            alen == b@.len(),
            forall|j: int| 0 <= j < i ==> a@[j] == b@[j],
        decreases alen - i,
    {
        if a.get_char(i) != b.get_char(i) {
            return false;
        }
        i += 1;
    }
    proof {
        assert(a@ =~= b@);
    }
    true
}

/// Whether `c` occurs anywhere in `s`.
pub open spec fn has_char(s: Seq<char>, c: char) -> bool {
    exists|i: int| 0 <= i < s.len() && s[i] == c
}

pub fn contains_char(s: &str, c: char) -> (r: bool)
    ensures
        r == has_char(s@, c),
{
    let len: usize = s.unicode_len();
    let mut i: usize = 0;
    while i < len
        invariant
            0 <= i <= len,
            len == s@.len(),
            forall|j: int| 0 <= j < i ==> s@[j] != c,
        decreases len - i,
    {
        if s.get_char(i) == c {
            return true;
        }
        i += 1;
    }
    false
}

/// Splits `s` at every occurrence of `c`.
pub fn split_char<'a>(s: &'a str, c: char) -> (parts: Vec<&'a str>)
    ensures
        views(parts@) == spec_split(s@, c),
        parts@.len() == spec_split(s@, c).len(),
        forall|i: int| 0 <= i < parts@.len() ==> parts@[i]@ == spec_split(s@, c)[i],
{
    let len: usize = s.unicode_len();
    let mut parts: Vec<&str> = Vec::new();
    let mut start: usize = 0;
    let mut i: usize = 0;
    proof {
        assert(s@.subrange(0, len as int) =~= s@);
        assert(views(parts@) =~= Seq::<Seq<char>>::empty());
        assert(views(parts@) + spec_split(s@, c) =~= spec_split(s@, c));
    }
    while i < len
        invariant
            0 <= start <= i <= len,
            len == s@.len(),
            forall|j: int| start <= j < i ==> s@[j] != c,
            spec_split(s@, c) == views(parts@) + spec_split(
                s@.subrange(start as int, len as int),
                c,
            ),
        decreases len - i,
    {
        if s.get_char(i) == c {
            let piece = s.substring_char(start, i);
            proof {
                let tail = s@.subrange(start as int, len as int);
                lemma_find_char(tail, c);
                assert(tail[i - start] == c);
                assert(forall|j: int| 0 <= j < i - start ==> tail[j] != c);
                assert(find_char(tail, c) == i - start);
                assert(tail.subrange(0, i - start) =~= s@.subrange(start as int, i as int));
                assert(tail.skip(i - start + 1) =~= s@.subrange(i as int + 1, len as int));
                lemma_views_push(parts@, piece);
                assert(views(parts@.push(piece)) + spec_split(
                    s@.subrange(i as int + 1, len as int),
                    c,
                ) =~= views(parts@) + spec_split(tail, c));
            }
            parts.push(piece);
            start = i + 1;
        }
        i += 1;
    }
    let last = s.substring_char(start, len);
    proof {
        let tail = s@.subrange(start as int, len as int);
        lemma_find_char(tail, c);
        assert(spec_split(tail, c) == seq![tail]);
        lemma_views_push(parts@, last);
        assert(views(parts@.push(last)) =~= views(parts@) + seq![tail]);
    }
    parts.push(last);
    proof {
        assert forall|i: int| 0 <= i < parts@.len() implies parts@[i]@ == spec_split(s@, c)[i] by {
            assert(views(parts@)[i] == parts@[i]@);
        }
    }
    parts
}

/// A line with one final carriage return removed, if it has one.
pub open spec fn drop_final_cr(l: Seq<char>) -> Seq<char> {
    if l.len() > 0 && l[l.len() - 1] == '\r' {
        l.subrange(0, l.len() - 1)
    } else {
        l
    }
}

/// `s` split into lines: the pieces between `'\n'` separators. A `'\r'`
/// standing right before a `'\n'` is removed with it; a final piece not
/// terminated by `'\n'` is kept verbatim (including any trailing `'\r'`),
/// and when `s` ends in `'\n'` there is no final empty piece. The empty
/// text has no lines at all.
pub open spec fn spec_lines(s: Seq<char>) -> Seq<Seq<char>> {
    if s.len() == 0 {
        Seq::empty()
    } else if s[s.len() - 1] == '\n' {
        spec_split(s, '\n').drop_last().map_values(|l: Seq<char>| drop_final_cr(l))
    } else {
        let raw = spec_split(s, '\n');
        raw.drop_last().map_values(|l: Seq<char>| drop_final_cr(l)).push(raw.last())
    }
}

/// Splits `s` into lines on `'\n'` boundaries, removing one `'\r'` before
/// each boundary; a final line not ending in `'\n'` is kept verbatim.
pub fn split_lines<'a>(s: &'a str) -> (lines: Vec<&'a str>)
    ensures
        lines@.len() == spec_lines(s@).len(),
        forall|i: int| 0 <= i < lines@.len() ==> lines@[i]@ == spec_lines(s@)[i],
{
    let len: usize = s.unicode_len();
    let mut lines: Vec<&str> = Vec::new();
    if len == 0 {
        return lines;
    }
    let mut parts = split_char(s, '\n');
    let terminated: bool = s.get_char(len - 1) == '\n';
    let ghost raw0 = spec_split(s@, '\n');
    proof {
        lemma_spec_split_len(s@, '\n');
    }
    if terminated {
        parts.pop();
        proof {
            assert(views(parts@) =~= raw0.drop_last());
        }
    }
    let n: usize = parts.len();
    let mut k: usize = 0;
    while k < n
        invariant
            0 <= k <= n,
            n == parts@.len(),
            len == s@.len(),
            len > 0,
            raw0 == spec_split(s@, '\n'),
            raw0.len() >= 1,
            terminated == (s@[len - 1] == '\n'),
            terminated ==> views(parts@) == raw0.drop_last(),
            !terminated ==> views(parts@) == raw0,
            lines@.len() == k,
            forall|idx: int| 0 <= idx < k ==> lines@[idx]@ == spec_lines(s@)[idx],
        decreases n - k,
    {
        let p: &str = parts[k];
        if !terminated && k == n - 1 {
            proof {
                assert(p@ == views(parts@)[k as int]);
                assert(spec_lines(s@)[k as int] == raw0.last());
            }
            lines.push(p);
        } else {
            let plen: usize = p.unicode_len();
            proof {
                assert(p@ == views(parts@)[k as int]);
                assert(spec_lines(s@)[k as int] == drop_final_cr(p@));
            }
            if plen > 0 && p.get_char(plen - 1) == '\r' {
                let stripped = p.substring_char(0, plen - 1);
                proof {
                    assert(stripped@ =~= drop_final_cr(p@));
                }
                lines.push(stripped);
            } else {
                proof {
                    assert(p@ == drop_final_cr(p@));
                }
                lines.push(p);
            }
        }
        k += 1;
    }
    lines
}

/// `s` split into maximal runs of non-whitespace characters; whitespace
/// separates tokens and is never part of one, and no token is empty.
pub open spec fn spec_tokens(s: Seq<char>) -> Seq<Seq<char>>
    decreases s.len(),
{
    if s.len() == 0 {
        Seq::empty()
    } else if is_ws(s[0]) {
        spec_tokens(s.skip(1))
    } else {
        let rest = spec_tokens(s.skip(1));
        if s.len() > 1 && !is_ws(s[1]) {
            seq![seq![s[0]] + rest[0]] + rest.skip(1)
        } else {
            seq![seq![s[0]]] + rest
        }
    }
}

pub proof fn lemma_tokens_nonempty(s: Seq<char>)
    requires
        s.len() > 0,
        !is_ws(s[0]),
    ensures
        spec_tokens(s).len() >= 1,
{
}

/// Unfolds `spec_tokens` over an initial run of `k` non-whitespace
/// characters followed by whitespace or the end of the text.
pub proof fn lemma_tokens_run(s: Seq<char>, k: int)
    requires
        1 <= k <= s.len(),
        forall|j: int| 0 <= j < k ==> !is_ws(s[j]),
        k == s.len() || is_ws(s[k]),
    ensures
        spec_tokens(s) == seq![s.subrange(0, k)] + spec_tokens(s.skip(k)),
    decreases k,
{
    let rest = spec_tokens(s.skip(1));
    if k == 1 {
        assert(seq![s[0]] =~= s.subrange(0, 1));
        if s.len() > 1 {
            assert(s.skip(1)[0] == s[1]);
        }
        assert(spec_tokens(s) =~= seq![s.subrange(0, 1)] + spec_tokens(s.skip(1)));
    } else {
        let t = s.skip(1);
        assert(forall|j: int| 0 <= j < k - 1 ==> t[j] == s[j + 1]);
        lemma_tokens_run(t, k - 1);
        assert(t[0] == s[1]);
        assert(!is_ws(s[1]));
        lemma_tokens_nonempty(t);
        assert(rest == seq![t.subrange(0, k - 1)] + spec_tokens(t.skip(k - 1)));
        assert(rest[0] == t.subrange(0, k - 1));
        assert(seq![s[0]] + t.subrange(0, k - 1) =~= s.subrange(0, k));
        assert(rest.skip(1) =~= spec_tokens(t.skip(k - 1)));
        assert(t.skip(k - 1) =~= s.skip(k));
        assert(seq![seq![s[0]] + rest[0]] + rest.skip(1) =~= seq![s.subrange(0, k)]
            + spec_tokens(s.skip(k)));
    }
}

pub fn is_ws_char(c: char) -> (r: bool)
    ensures
        r == is_ws(c),
{
    ('\u{09}' <= c && c <= '\u{0D}') || c == ' ' || c == '\u{85}' || c == '\u{A0}'
        || c == '\u{1680}' || ('\u{2000}' <= c && c <= '\u{200A}') || c == '\u{2028}'
        || c == '\u{2029}' || c == '\u{202F}' || c == '\u{205F}' || c == '\u{3000}'
}

/// Splits `s` into whitespace-separated tokens.
pub fn split_tokens<'a>(s: &'a str) -> (toks: Vec<&'a str>)
    ensures
        views(toks@) == spec_tokens(s@),
        toks@.len() == spec_tokens(s@).len(),
        forall|i: int| 0 <= i < toks@.len() ==> toks@[i]@ == spec_tokens(s@)[i],
{
    let len: usize = s.unicode_len();
    let mut toks: Vec<&str> = Vec::new();
    let mut i: usize = 0;
    proof {
        assert(s@.skip(0) =~= s@);
        assert(views(toks@) =~= Seq::<Seq<char>>::empty());
        assert(views(toks@) + spec_tokens(s@) =~= spec_tokens(s@));
    }
    while i < len
        invariant
            0 <= i <= len,
            len == s@.len(),
            spec_tokens(s@) == views(toks@) + spec_tokens(s@.skip(i as int)),
        decreases len - i,
    {
        let c = s.get_char(i);
        if is_ws_char(c) {
            proof {
                assert(s@.skip(i as int)[0] == s@[i as int]);
                assert(s@.skip(i as int).skip(1) =~= s@.skip(i as int + 1));
            }
            i += 1;
        } else {
            let mut j: usize = i + 1;
            while j < len && !is_ws_char(s.get_char(j))
                invariant
                    i < j <= len,
                    len == s@.len(),
                    forall|t: int| i <= t < j ==> !is_ws(s@[t]),
                decreases len - j,
            {
                j += 1;
            }
            let tok = s.substring_char(i, j);
            proof {
                let tail = s@.skip(i as int);
                assert(forall|t: int| 0 <= t < j - i ==> tail[t] == s@[t + i]);
                if j < len {
                    assert(tail[j - i] == s@[j as int]);
                }
                lemma_tokens_run(tail, j - i);
                assert(tail.subrange(0, j - i) =~= s@.subrange(i as int, j as int));
                assert(tail.skip(j - i) =~= s@.skip(j as int));
                lemma_views_push(toks@, tok);
                assert(views(toks@.push(tok)) + spec_tokens(s@.skip(j as int)) =~= views(toks@)
                    + spec_tokens(tail));
            }
            toks.push(tok);
            i = j;
        }
    }
    proof {
        assert(s@.skip(len as int) =~= Seq::<char>::empty());
        assert(spec_tokens(s@.skip(len as int)) =~= Seq::<Seq<char>>::empty());
        assert(spec_tokens(s@) =~= views(toks@));
        assert forall|k: int| 0 <= k < toks@.len() implies toks@[k]@ == spec_tokens(s@)[k] by {
            assert(views(toks@)[k] == toks@[k]@);
        }
    }
    toks
}

/// `s` with all leading and trailing whitespace removed.
pub open spec fn spec_trim(s: Seq<char>) -> Seq<char>
    decreases s.len(),
{
    if s.len() == 0 {
        s
    } else if is_ws(s[0]) {
        spec_trim(s.skip(1))
    } else if is_ws(s[s.len() - 1]) {
        spec_trim(s.subrange(0, s.len() - 1))
    } else {
        s
    }
}

proof fn lemma_trim_range(s: Seq<char>, a: int, b: int)
    requires
        0 <= a <= b <= s.len(),
        forall|j: int| 0 <= j < a ==> is_ws(s[j]),
        forall|j: int| b <= j < s.len() ==> is_ws(s[j]),
        a == b || (!is_ws(s[a]) && !is_ws(s[b - 1])),
    ensures
        spec_trim(s) == s.subrange(a, b),
    decreases s.len(),
{
    if s.len() == 0 {
        assert(s.subrange(a, b) =~= s);
    } else if a > 0 {
        let t = s.skip(1);
        assert(forall|j: int| 0 <= j < t.len() ==> t[j] == s[j + 1]);
        lemma_trim_range(t, a - 1, b - 1);
        assert(t.subrange(a - 1, b - 1) =~= s.subrange(a, b));
    } else if a == b {
        // every character is whitespace
        assert(is_ws(s[0]));
        let t = s.skip(1);
        assert(forall|j: int| 0 <= j < t.len() ==> t[j] == s[j + 1]);
        lemma_trim_range(t, 0, 0);
        assert(t.subrange(0, 0) =~= s.subrange(a, b));
    } else if b < s.len() {
        assert(!is_ws(s[0]));
        assert(is_ws(s[s.len() - 1]));
        let t = s.subrange(0, s.len() - 1);
        assert(forall|j: int| 0 <= j < t.len() ==> t[j] == s[j]);
        lemma_trim_range(t, a, b);
        assert(t.subrange(a, b) =~= s.subrange(a, b));
    } else {
        assert(!is_ws(s[0]));
        assert(!is_ws(s[s.len() - 1]));
        assert(s.subrange(0, s.len() as int) =~= s);
    }
}

/// Removes leading and trailing whitespace.
pub fn trim_str<'a>(s: &'a str) -> (r: &'a str)
    ensures
        r@ == spec_trim(s@),
{
    let len: usize = s.unicode_len();
    let mut a: usize = 0;
    while a < len && is_ws_char(s.get_char(a))
        invariant
            0 <= a <= len,
            len == s@.len(),
            forall|j: int| 0 <= j < a ==> is_ws(s@[j]),
        decreases len - a,
    {
        a += 1;
    }
    let mut b: usize = len;
    while b > a && is_ws_char(s.get_char(b - 1))
        invariant
            a <= b <= len,
            len == s@.len(),
            forall|j: int| b <= j < len ==> is_ws(s@[j]),
        decreases b,
    {
        b -= 1;
    }
    proof {
        lemma_trim_range(s@, a as int, b as int);
    }
    s.substring_char(a, b)
}

/// A decimal digit.
pub open spec fn is_digit(c: char) -> bool {
    '0' <= c && c <= '9'
}

pub fn is_digit_char(c: char) -> (r: bool)
    ensures
        r == is_digit(c),
{
    '0' <= c && c <= '9'
}

/// One of a letter's two ASCII cases.
pub open spec fn is_ci(c: char, lower: char, upper: char) -> bool {
    c == lower || c == upper
}

/// `inf`, `infinity` or `nan` in any ASCII case: the special values a
/// floating-point parse accepts besides ordinary numbers.
pub open spec fn is_special_float(s: Seq<char>) -> bool {
    ||| (s.len() == 3 && is_ci(s[0], 'i', 'I') && is_ci(s[1], 'n', 'N') && is_ci(s[2], 'f', 'F'))
    ||| (s.len() == 8 && is_ci(s[0], 'i', 'I') && is_ci(s[1], 'n', 'N') && is_ci(s[2], 'f', 'F')
        && is_ci(s[3], 'i', 'I') && is_ci(s[4], 'n', 'N') && is_ci(s[5], 'i', 'I') && is_ci(
        s[6],
        't',
        'T',
    ) && is_ci(s[7], 'y', 'Y'))
    ||| (s.len() == 3 && is_ci(s[0], 'n', 'N') && is_ci(s[1], 'a', 'A') && is_ci(s[2], 'n', 'N'))
}

/// A mantissa: at least one digit, at most one decimal point, nothing
/// else. This admits `1`, `1.`, `.5` and `1.5`, but not `.` alone.
pub open spec fn is_mantissa(s: Seq<char>) -> bool {
    &&& (forall|i: int| 0 <= i < s.len() ==> is_digit(s[i]) || s[i] == '.')
    &&& (forall|i: int, j: int| 0 <= i < j < s.len() ==> !(s[i] == '.' && s[j] == '.'))
    &&& (exists|i: int| 0 <= i < s.len() && is_digit(s[i]))
}

/// An exponent suffix, what follows the `e` or `E`: an optional sign,
/// then one or more digits.
pub open spec fn is_exp_suffix(s: Seq<char>) -> bool {
    if s.len() > 0 && (s[0] == '+' || s[0] == '-') {
        s.len() > 1 && (forall|i: int| 1 <= i < s.len() ==> is_digit(s[i]))
    } else {
        s.len() > 0 && (forall|i: int| 0 <= i < s.len() ==> is_digit(s[i]))
    }
}

/// An unsigned number: a mantissa, optionally followed by `e` or `E`
/// and an exponent suffix.
pub open spec fn is_float_number(s: Seq<char>) -> bool {
    ||| is_mantissa(s)
    ||| exists|e: int|
        0 <= e < s.len() && (s[e] == 'e' || s[e] == 'E') && is_mantissa(s.take(e)) && is_exp_suffix(
            s.skip(e + 1),
        )
}

/// The input shape of a floating-point parse, and so the shape accepted
/// as the numeric portion of an HTTP version marker: an optional sign,
/// then either a special value or a number with an optional exponent.
pub open spec fn is_number_token(s: Seq<char>) -> bool {
    if s.len() > 0 && (s[0] == '+' || s[0] == '-') {
        is_special_float(s.skip(1)) || is_float_number(s.skip(1))
    } else {
        is_special_float(s) || is_float_number(s)
    }
}

/// No character of a numeric token is whitespace or a slash, so such a
/// token survives start-line tokenization and the version-marker split
/// unchanged.
pub proof fn lemma_number_token_chars(s: Seq<char>)
    requires
        is_number_token(s),
    ensures
        s.len() > 0,
        forall|i: int| 0 <= i < s.len() ==> !is_ws(s[i]) && s[i] != '/',
{
    let signed0 = s.len() > 0 && (s[0] == '+' || s[0] == '-');
    let b = if signed0 {
        s.skip(1)
    } else {
        s
    };
    assert(b.len() > 0) by {
        if !is_special_float(b) {
            if is_mantissa(b) {
                let t = choose|t: int| 0 <= t < b.len() && is_digit(b[t]);
            } else {
                let e = choose|e: int|
                    0 <= e < b.len() && (b[e] == 'e' || b[e] == 'E') && is_mantissa(b.take(e))
                        && is_exp_suffix(b.skip(e + 1));
            }
        }
    }
    assert forall|i: int| 0 <= i < b.len() implies !is_ws(b[i]) && b[i] != '/' by {
        if is_special_float(b) {
        } else if is_mantissa(b) {
            assert(is_digit(b[i]) || b[i] == '.');
        } else {
            let e = choose|e: int|
                0 <= e < b.len() && (b[e] == 'e' || b[e] == 'E') && is_mantissa(b.take(e))
                    && is_exp_suffix(b.skip(e + 1));
            if i < e {
                assert(b.take(e)[i] == b[i]);
                assert(is_digit(b[i]) || b[i] == '.');
            } else if i > e {
                let suf = b.skip(e + 1);
                assert(suf[i - e - 1] == b[i]);
                if suf.len() > 0 && (suf[0] == '+' || suf[0] == '-') {
                    if i - e - 1 > 0 {
                        assert(is_digit(suf[i - e - 1]));
                    }
                } else {
                    assert(is_digit(suf[i - e - 1]));
                }
            }
        }
    }
    assert forall|i: int| 0 <= i < s.len() implies !is_ws(s[i]) && s[i] != '/' by {
        if signed0 {
            if i > 0 {
                assert(s[i] == b[i - 1]);
            }
        } else {
            assert(s[i] == b[i]);
        }
    }
}

/// Tokenizing text that starts with a whitespace-free run, a space, and
/// a remainder yields that run and then the remainder's tokens.
pub proof fn lemma_tokens_cons(a: Seq<char>, rest: Seq<char>)
    requires
        a.len() > 0,
        forall|i: int| 0 <= i < a.len() ==> !is_ws(a[i]),
    ensures
        spec_tokens(a + seq![' '] + rest) == seq![a] + spec_tokens(rest),
{
    let s = a + seq![' '] + rest;
    assert(forall|i: int| 0 <= i < a.len() ==> s[i] == a[i]);
    assert(s[a.len() as int] == ' ');
    lemma_tokens_run(s, a.len() as int);
    assert(s.subrange(0, a.len() as int) =~= a);
    let tail = s.skip(a.len() as int);
    assert(tail[0] == ' ');
    assert(tail.skip(1) =~= rest);
    assert(spec_tokens(tail) == spec_tokens(rest));
    assert(spec_tokens(s) =~= seq![a] + spec_tokens(rest));
}

/// A nonempty whitespace-free text is one single token.
pub proof fn lemma_tokens_single(a: Seq<char>)
    requires
        a.len() > 0,
        forall|i: int| 0 <= i < a.len() ==> !is_ws(a[i]),
    ensures
        spec_tokens(a) == seq![a],
{
    lemma_tokens_run(a, a.len() as int);
    assert(a.subrange(0, a.len() as int) =~= a);
    assert(a.skip(a.len() as int) =~= Seq::<char>::empty());
    assert(spec_tokens(Seq::<char>::empty()) == Seq::<Seq<char>>::empty());
    assert(spec_tokens(a) =~= seq![a]);
}

/// Text without a line feed, terminated by one CRLF, is one single line.
pub proof fn lemma_lines_single(line: Seq<char>)
    requires
        forall|i: int| 0 <= i < line.len() ==> line[i] != '\n',
    ensures
        spec_lines(line + "\r\n"@) == seq![line],
{
    reveal_strlit("\r\n");
    assert("\r\n"@ =~= seq!['\r', '\n']);
    let s = line + "\r\n"@;
    let n = line.len() as int;
    assert(s.len() == n + 2);
    assert(forall|i: int| 0 <= i < n ==> s[i] == line[i]);
    assert(s[n] == '\r');
    assert(s[n + 1] == '\n');
    lemma_find_char(s, '\n');
    assert(find_char(s, '\n') == n + 1);
    assert(s.subrange(0, n + 1) =~= line + seq!['\r']);
    assert(s.skip(n + 2) =~= Seq::<char>::empty());
    lemma_find_char(Seq::<char>::empty(), '\n');
    assert(spec_split(Seq::<char>::empty(), '\n') == seq![Seq::<char>::empty()]);
    assert(spec_split(s, '\n') == seq![line + seq!['\r']] + seq![Seq::<char>::empty()]);
    let raw = spec_split(s, '\n');
    assert(raw.len() == 2);
    assert(raw.drop_last() =~= seq![line + seq!['\r']]);
    let mapped = raw.drop_last().map_values(|l: Seq<char>| drop_final_cr(l));
    assert(mapped.len() == 1);
    assert(mapped[0] == drop_final_cr(line + seq!['\r']));
    assert((line + seq!['\r'])[line.len() as int] == '\r');
    assert(drop_final_cr(line + seq!['\r']) =~= line);
    assert(s[s.len() - 1] == '\n');
    assert(spec_lines(s) =~= seq![line]);
}

/// Splitting into lines eats one CRLF-terminated line at a time: text
/// without a line feed, a CRLF, and a remainder give that line and then
/// the remainder's lines.
pub proof fn lemma_lines_cons(line: Seq<char>, rest: Seq<char>)
    requires
        forall|i: int| 0 <= i < line.len() ==> line[i] != '\n',
    ensures
        spec_lines(line + "\r\n"@ + rest) == seq![line] + spec_lines(rest),
{
    reveal_strlit("\r\n");
    assert("\r\n"@ =~= seq!['\r', '\n']);
    let s = line + "\r\n"@ + rest;
    let n = line.len() as int;
    assert(s.len() == n + 2 + rest.len());
    assert(forall|i: int| 0 <= i < n ==> s[i] == line[i]);
    assert(s[n] == '\r');
    assert(s[n + 1] == '\n');
    assert(forall|i: int| 0 <= i < rest.len() ==> s[n + 2 + i] == rest[i]);
    lemma_find_char(s, '\n');
    assert(find_char(s, '\n') == n + 1);
    assert(s.subrange(0, n + 1) =~= line + seq!['\r']);
    assert(s.skip(n + 2) =~= rest);
    let piece = line + seq!['\r'];
    assert(spec_split(s, '\n') == seq![piece] + spec_split(rest, '\n'));
    let sr = spec_split(rest, '\n');
    lemma_spec_split_len(rest, '\n');
    assert(piece[piece.len() - 1] == '\r');
    assert(drop_final_cr(piece) =~= line);
    let a = spec_split(s, '\n');
    if rest.len() == 0 {
        lemma_lines_single(line);
        assert(s =~= line + "\r\n"@);
        assert(seq![line] + spec_lines(rest) =~= seq![line]);
    } else if rest[rest.len() - 1] == '\n' {
        assert(s[s.len() - 1] == '\n');
        assert(a.drop_last() =~= seq![piece] + sr.drop_last());
        assert(a.drop_last().map_values(|l: Seq<char>| drop_final_cr(l)) =~= seq![line]
            + sr.drop_last().map_values(|l: Seq<char>| drop_final_cr(l)));
    } else {
        assert(s[s.len() - 1] == rest[rest.len() - 1]);
        assert(s[s.len() - 1] != '\n');
        assert(a.last() == sr.last());
        assert(a.drop_last() =~= seq![piece] + sr.drop_last());
        assert(a.drop_last().map_values(|l: Seq<char>| drop_final_cr(l)) =~= seq![line]
            + sr.drop_last().map_values(|l: Seq<char>| drop_final_cr(l)));
        assert(a.drop_last().map_values(|l: Seq<char>| drop_final_cr(l)).push(a.last()) =~= seq![
            line,
        ] + sr.drop_last().map_values(|l: Seq<char>| drop_final_cr(l)).push(sr.last()));
    }
}

fn special_ci(s: &str, start: usize, len: usize) -> (r: bool)
    requires
        start <= len,
        len == s@.len(),
    ensures
        r == is_special_float(s@.skip(start as int)),
{
    let ghost b = s@.skip(start as int);
    proof {
        assert(forall|t: int| 0 <= t < b.len() ==> b[t] == s@[t + start]);
    }
    let n: usize = len - start;
    if n == 3 {
        let c0 = s.get_char(start);
        let c1 = s.get_char(start + 1);
        let c2 = s.get_char(start + 2);
        let inf = (c0 == 'i' || c0 == 'I') && (c1 == 'n' || c1 == 'N') && (c2 == 'f' || c2 == 'F');
        let nan = (c0 == 'n' || c0 == 'N') && (c1 == 'a' || c1 == 'A') && (c2 == 'n' || c2 == 'N');
        inf || nan
    } else if n == 8 {
        let c0 = s.get_char(start);
        let c1 = s.get_char(start + 1);
        let c2 = s.get_char(start + 2);
        let c3 = s.get_char(start + 3);
        let c4 = s.get_char(start + 4);
        let c5 = s.get_char(start + 5);
        let c6 = s.get_char(start + 6);
        let c7 = s.get_char(start + 7);
        (c0 == 'i' || c0 == 'I') && (c1 == 'n' || c1 == 'N') && (c2 == 'f' || c2 == 'F') && (c3
            == 'i' || c3 == 'I') && (c4 == 'n' || c4 == 'N') && (c5 == 'i' || c5 == 'I') && (c6
            == 't' || c6 == 'T') && (c7 == 'y' || c7 == 'Y')
    } else {
        false
    }
}

fn exp_marker(s: &str, i: usize) -> (r: bool)
    requires
        i < s@.len(),
    ensures
        r == (s@[i as int] == 'e' || s@[i as int] == 'E'),
{
    let c = s.get_char(i);
    c == 'e' || c == 'E'
}

/// Decides whether characters `from .. to` of `s` form a mantissa.
#[verifier::loop_isolation(false)]
fn check_mantissa(s: &str, from: usize, to: usize) -> (r: bool)
    requires
        from <= to <= s@.len(),
    ensures
        r == is_mantissa(s@.subrange(from as int, to as int)),
{
    let ghost m = s@.subrange(from as int, to as int);
    proof {
        assert(forall|t: int| 0 <= t < m.len() ==> m[t] == s@[t + from]);
    }
    let mut i: usize = from;
    let mut seen_digit: bool = false;
    let mut seen_dot: bool = false;
    while i < to
        invariant
            from <= i <= to,
            seen_digit == (exists|t: int| 0 <= t < i - from && is_digit(m[t])),
            seen_dot == (exists|t: int| 0 <= t < i - from && m[t] == '.'),
            forall|t: int| 0 <= t < i - from ==> is_digit(m[t]) || m[t] == '.',
            forall|t1: int, t2: int| 0 <= t1 < t2 < i - from ==> !(m[t1] == '.' && m[t2] == '.'),
        decreases to - i,
    {
        let c = s.get_char(i);
        proof {
            assert(c == m[i - from]);
        }
        if c == '.' {
            if seen_dot {
                proof {
                    let t1 = choose|t: int| 0 <= t < i - from && m[t] == '.';
                    assert(m[t1] == '.' && m[i - from] == '.');
                }
                return false;
            }
            seen_dot = true;
        } else if is_digit_char(c) {
            proof {
                assert(is_digit(m[i - from]));
            }
            seen_digit = true;
        } else {
            proof {
                assert(!(is_digit(m[i - from]) || m[i - from] == '.'));
            }
            return false;
        }
        i += 1;
    }
    proof {
        if seen_digit {
            let t = choose|t: int| 0 <= t < to - from && is_digit(m[t]);
            assert(is_mantissa(m));
        } else {
            assert(!is_mantissa(m)) by {
                if is_mantissa(m) {
                    let t = choose|t: int| 0 <= t < m.len() && is_digit(m[t]);
                }
            }
        }
    }
    seen_digit
}

/// Decides whether characters `from ..` of `s` form an exponent suffix.
#[verifier::loop_isolation(false)]
fn check_exp_suffix(s: &str, from: usize, len: usize) -> (r: bool)
    requires
        from <= len,
        len == s@.len(),
    ensures
        r == is_exp_suffix(s@.skip(from as int)),
{
    let ghost u = s@.skip(from as int);
    proof {
        assert(u.len() == len - from);
        assert(forall|t: int| 0 <= t < u.len() ==> u[t] == s@[t + from]);
    }
    let mut p: usize = from;
    let mut signed0: bool = false;
    if p < len {
        let cp = s.get_char(p);
        proof {
            assert(cp == u[0]);
        }
        if cp == '+' || cp == '-' {
            signed0 = true;
            p += 1;
        }
    }
    if p == len {
        proof {
            assert(!is_exp_suffix(u));
        }
        return false;
    }
    let mut q: usize = p;
    while q < len
        invariant
            p <= q <= len,
            forall|t: int| p <= t < q ==> is_digit(s@[t]),
        decreases len - q,
    {
        if !is_digit_char(s.get_char(q)) {
            proof {
                assert(u[q - from] == s@[q as int]);
                assert(!is_digit(u[q - from]));
                assert(!is_exp_suffix(u));
            }
            return false;
        }
        q += 1;
    }
    proof {
        if signed0 {
            assert forall|i: int| 1 <= i < u.len() implies is_digit(u[i]) by {
                assert(u[i] == s@[i + from]);
            }
        } else {
            assert forall|i: int| 0 <= i < u.len() implies is_digit(u[i]) by {
                assert(u[i] == s@[i + from]);
            }
        }
        assert(is_exp_suffix(u));
    }
    true
}

/// Decides whether `s` is a well-formed numeric version token.
#[verifier::loop_isolation(false)]
#[verifier::rlimit(50)]
pub fn check_number_token(s: &str) -> (r: bool)
    ensures
        r == is_number_token(s@),
{
    let len: usize = s.unicode_len();
    if len == 0 {
        return false;
    }
    let c0 = s.get_char(0);
    let start: usize = if c0 == '+' || c0 == '-' {
        1
    } else {
        0
    };
    let ghost b = if s@.len() > 0 && (s@[0] == '+' || s@[0] == '-') {
        s@.skip(1)
    } else {
        s@
    };
    proof {
        assert(b =~= s@.skip(start as int));
        assert(forall|t: int| 0 <= t < b.len() ==> b[t] == s@[t + start]);
        assert(b.len() == len - start);
    }
    if special_ci(s, start, len) {
        return true;
    }
    // Find the first exponent marker, if any.
    let mut e_idx: usize = start;
    while e_idx < len && !exp_marker(s, e_idx)
        invariant
            start <= e_idx <= len,
            forall|t: int| start <= t < e_idx ==> !(s@[t] == 'e' || s@[t] == 'E'),
        decreases len - e_idx,
    {
        e_idx += 1;
    }
    let ghost eb = e_idx - start;
    if e_idx == len {
        let ok = check_mantissa(s, start, len);
        proof {
            assert(s@.subrange(start as int, len as int) =~= b);
            assert(!(exists|e: int|
                0 <= e < b.len() && (b[e] == 'e' || b[e] == 'E') && is_mantissa(b.take(e))
                    && is_exp_suffix(b.skip(e + 1)))) by {
                if exists|e: int|
                    0 <= e < b.len() && (b[e] == 'e' || b[e] == 'E') && is_mantissa(b.take(e))
                        && is_exp_suffix(b.skip(e + 1)) {
                    let e = choose|e: int|
                        0 <= e < b.len() && (b[e] == 'e' || b[e] == 'E') && is_mantissa(b.take(e))
                            && is_exp_suffix(b.skip(e + 1));
                    assert(s@[e + start] == b[e]);
                }
            }
        }
        return ok;
    }
    let mok = check_mantissa(s, start, e_idx);
    let eok = check_exp_suffix(s, e_idx + 1, len);
    proof {
        assert(s@.subrange(start as int, e_idx as int) =~= b.take(eb as int));
        assert(s@.skip(e_idx as int + 1) =~= b.skip(eb + 1));
        // the marker rules the whole token out as a bare mantissa
        assert(b[eb as int] == s@[e_idx as int]);
        assert(!is_mantissa(b));
        // no marker position other than the first can satisfy the form
        assert forall|e: int|
            0 <= e < b.len() && (b[e] == 'e' || b[e] == 'E') && is_mantissa(b.take(e))
                && is_exp_suffix(b.skip(e + 1)) implies e == eb by {
            if e < eb {
                assert(s@[e + start] == b[e]);
            } else if e > eb {
                assert(b.take(e)[eb as int] == b[eb as int]);
            }
        }
        if mok && eok {
            assert(0 <= eb < b.len() && (b[eb as int] == 'e' || b[eb as int] == 'E') && is_mantissa(
                b.take(eb as int),
            ) && is_exp_suffix(b.skip(eb + 1)));
        }
    }
    mok && eok
}

/// The character for a single decimal digit value.
pub open spec fn digit_char(d: nat) -> char {
    if d == 0 {
        '0'
    } else if d == 1 {
        '1'
    } else if d == 2 {
        '2'
    } else if d == 3 {
        '3'
    } else if d == 4 {
        '4'
    } else if d == 5 {
        '5'
    } else if d == 6 {
        '6'
    } else if d == 7 {
        '7'
    } else if d == 8 {
        '8'
    } else {
        '9'
    }
}

/// The decimal rendering of `n`, most significant digit first, with no
/// leading zeros (except for `n == 0` itself).
pub open spec fn spec_digits(n: nat) -> Seq<char>
    decreases n,
{
    if n < 10 {
        seq![digit_char(n)]
    } else {
        spec_digits(n / 10).push(digit_char(n % 10))
    }
}

fn digit_str(d: u16) -> (r: &'static str)
    requires
        d < 10,
    ensures
        r@ == seq![digit_char(d as nat)],
{
    if d == 0 {
        proof {
            reveal_strlit("0");
            assert("0"@ =~= seq![digit_char(0)]);
        }
        "0"
    } else if d == 1 {
        proof {
            reveal_strlit("1");
            assert("1"@ =~= seq![digit_char(1)]);
        }
        "1"
    } else if d == 2 {
        proof {
            reveal_strlit("2");
            assert("2"@ =~= seq![digit_char(2)]);
        }
        "2"
    } else if d == 3 {
        proof {
            reveal_strlit("3");
            assert("3"@ =~= seq![digit_char(3)]);
        }
        "3"
    } else if d == 4 {
        proof {
            reveal_strlit("4");
            assert("4"@ =~= seq![digit_char(4)]);
        }
        "4"
    } else if d == 5 {
        proof {
            reveal_strlit("5");
            assert("5"@ =~= seq![digit_char(5)]);
        }
        "5"
    } else if d == 6 {
        proof {
            reveal_strlit("6");
            assert("6"@ =~= seq![digit_char(6)]);
        }
        "6"
    } else if d == 7 {
        proof {
            reveal_strlit("7");
            assert("7"@ =~= seq![digit_char(7)]);
        }
        "7"
    } else if d == 8 {
        proof {
            reveal_strlit("8");
            assert("8"@ =~= seq![digit_char(8)]);
        }
        "8"
    } else {
        proof {
            reveal_strlit("9");
            assert("9"@ =~= seq![digit_char(9)]);
        }
        "9"
    }
}

/// Renders `n` in decimal.
pub fn u16_digits(n: u16) -> (r: String)
    ensures
        r@ == spec_digits(n as nat),
    decreases n,
{
    if n < 10 {
        String::from_str(digit_str(n))
    } else {
        let mut r = u16_digits(n / 10);
        r.append(digit_str(n % 10));
        proof {
            assert(r@ =~= spec_digits(n as nat));
        }
        r
    }
}

} // verus!
