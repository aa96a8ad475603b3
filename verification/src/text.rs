use vstd::prelude::*;
use vstd::string::*;

verus! {

/// Unicode `White_Space`, the property that `char::is_whitespace` tests.
pub open spec fn is_ws(c: char) -> bool {
    ||| ('\u{9}' <= c && c <= '\u{d}')
    ||| c == ' '
    ||| c == '\u{85}'
    ||| c == '\u{a0}'
    ||| c == '\u{1680}'
    ||| ('\u{2000}' <= c && c <= '\u{200a}')
    ||| c == '\u{2028}'
    ||| c == '\u{2029}'
    ||| c == '\u{202f}'
    ||| c == '\u{205f}'
    ||| c == '\u{3000}'
}

/// Whether `c` is Unicode white space.
pub fn is_whitespace_char(c: char) -> (b: bool)
    ensures
        b == is_ws(c),
{
    ('\u{9}' <= c && c <= '\u{d}') || c == ' ' || c == '\u{85}' || c == '\u{a0}' || c == '\u{1680}'
        || ('\u{2000}' <= c && c <= '\u{200a}') || c == '\u{2028}' || c == '\u{2029}' || c
        == '\u{202f}' || c == '\u{205f}' || c == '\u{3000}'
}

/// The maximal runs of non-white-space characters of `s`, in order.
pub open spec fn ws_tokens(s: Seq<char>) -> Seq<Seq<char>>
    decreases s.len(),
{
    if s.len() == 0 {
        Seq::empty()
    } else {
        let t = ws_tokens(s.drop_last());
        let c = s.last();
        if is_ws(c) {
            t
        } else if s.len() >= 2 && !is_ws(s[s.len() - 2]) {
            t.update(t.len() - 1, t.last().push(c))
        } else {
            t.push(seq![c])
        }
    }
}

/// The pieces of `parts` joined, with `sep` between neighbours.
pub open spec fn join_with(parts: Seq<Seq<char>>, sep: Seq<char>) -> Seq<char>
    decreases parts.len(),
{
    if parts.len() == 0 {
        Seq::empty()
    } else if parts.len() == 1 {
        parts[0]
    } else {
        join_with(parts.drop_last(), sep) + sep + parts.last()
    }
}

/// `s` with every run of white space collapsed into one space, and none at
/// either end.
pub open spec fn collapse_ws(s: Seq<char>) -> Seq<char> {
    join_with(ws_tokens(s), seq![' '])
}

/// `s` without its leading white space.
pub open spec fn trim_start_spec(s: Seq<char>) -> Seq<char>
    decreases s.len(),
{
    if s.len() > 0 && is_ws(s[0]) {
        trim_start_spec(s.drop_first())
    } else {
        s
    }
}

/// `s` without its trailing white space.
pub open spec fn trim_end_spec(s: Seq<char>) -> Seq<char>
    decreases s.len(),
{
    if s.len() > 0 && is_ws(s.last()) {
        trim_end_spec(s.drop_last())
    } else {
        s
    }
}

/// `s` without white space at either end, as `str::trim` gives it.
pub open spec fn trim_spec(s: Seq<char>) -> Seq<char> {
    trim_end_spec(trim_start_spec(s))
}

/// ASCII upper-case letters mapped to lower case, everything else unchanged.
pub open spec fn ascii_lower(c: char) -> char {
    if 'A' <= c && c <= 'Z' {
        ((c as u32) + 32) as char
    } else {
        c
    }
}

/// `s` with `ascii_lower` applied to each character.
pub open spec fn ascii_lower_seq(s: Seq<char>) -> Seq<char> {
    Seq::new(s.len(), |i: int| ascii_lower(s[i]))
}

/// The text of `s` in title case, as the `titlecase` crate writes it.
pub uninterp spec fn titlecase_of(s: Seq<char>) -> Seq<char>;

/// The Unicode upper-case form of `s`, as `str::to_uppercase` writes it.
pub uninterp spec fn uppercase_of(s: Seq<char>) -> Seq<char>;

/// Calls `titlecase::titlecase`. Its contract claims only that the result is
/// the crate's title-case form of the argument (`titlecase_of`); the style
/// rules themselves are not restated here.
#[verifier::external_body]
fn titlecase_str(s: &str) -> (r: String)
    ensures
        r@ == titlecase_of(s@),
{
    titlecase::titlecase(s)
}

/// Calls `str::to_uppercase`; the result is named `uppercase_of` of the
/// argument and nothing more is claimed.
#[verifier::external_body]
pub(crate) fn to_uppercase(s: &str) -> (r: String)
    ensures
        r@ == uppercase_of(s@),
{
    s.to_uppercase()
}

/// Calls `String::push`: the character is appended at the end.
#[verifier::external_body]
pub(crate) fn push_char(s: &mut String, c: char)
    ensures
        final(s)@ == old(s)@.push(c),
{
    s.push(c)
}

/// The characters of `s`, in order.
pub fn str_chars(s: &str) -> (v: Vec<char>)
    ensures
        v@ == s@,
{
    let n = s.unicode_len();
    let mut v: Vec<char> = Vec::new();
    let mut i: usize = 0;
    while i < n
        invariant
            n == s@.len(),
            i <= n,
            v@ == s@.subrange(0, i as int),
        decreases n - i,
    {
        let c = s.get_char(i);
        v.push(c);
        i = i + 1;
        assert(v@ =~= s@.subrange(0, i as int));
    }
    v
}

/// A string holding the characters of `v`.
pub fn string_from_chars(v: &[char]) -> (s: String)
    ensures
        s@ == v@,
{
    let mut s = String::new();
    let mut i: usize = 0;
    while i < v.len()
        invariant
            i <= v@.len(),
            s@ == v@.subrange(0, i as int),
        decreases v.len() - i,
    {
        push_char(&mut s, v[i]);
        i = i + 1;
        assert(s@ =~= v@.subrange(0, i as int));
    }
    s
}

/// Whether two character slices are equal.
pub fn chars_eq(a: &[char], b: &[char]) -> (r: bool)
    ensures
        r == (a@ == b@),
{
    if a.len() != b.len() {
        return false;
    }
    let mut i: usize = 0;
    while i < a.len()
        invariant
            a@.len() == b@.len(),
            i <= a@.len(),
            forall|j: int| 0 <= j < i ==> a@[j] == b@[j],
        decreases a.len() - i,
    {
        if a[i] != b[i] {
            return false;
        }
        i = i + 1;
    }
    assert(a@ =~= b@);
    true
}

/// Whether a string has the given characters.
pub fn str_is(s: &str, lit: &[char]) -> (r: bool)
    ensures
        r == (s@ == lit@),
{
    let v = str_chars(s);
    chars_eq(v.as_slice(), lit)
}

proof fn lemma_join_extend_last(t: Seq<Seq<char>>, sep: Seq<char>, c: char)
    requires
        t.len() > 0,
    ensures
        join_with(t.update(t.len() - 1, t.last().push(c)), sep) == join_with(t, sep).push(c),
{
    let u = t.update(t.len() - 1, t.last().push(c));
    if t.len() == 1 {
        assert(u[0] == t[0].push(c));
    } else {
        assert(u.drop_last() =~= t.drop_last());
        assert(u.last() == t.last().push(c));
        assert(join_with(u, sep) == join_with(t.drop_last(), sep) + sep + t.last().push(c));
        assert((join_with(t.drop_last(), sep) + sep + t.last()).push(c) =~= join_with(
            t.drop_last(),
            sep,
        ) + sep + t.last().push(c));
    }
}

pub proof fn lemma_join_push(t: Seq<Seq<char>>, sep: Seq<char>, x: Seq<char>)
    ensures
        join_with(t.push(x), sep) == if t.len() == 0 {
            x
        } else {
            join_with(t, sep) + sep + x
        },
{
    let u = t.push(x);
    assert(u.drop_last() =~= t);
    if t.len() == 0 {
        assert(u.len() == 1);
    }
}

/// Trim leading/trailing whitespace and collapse internal whitespace runs.
pub fn normalize_whitespace(value: &str) -> (r: String)
    ensures
        r@ == collapse_ws(value@),
{
    let chars = str_chars(value);
    let n = chars.len();
    let mut out: Vec<char> = Vec::new();
    let mut started = false;
    let mut prev_word = false;
    let mut i: usize = 0;
    while i < n
        invariant
            n == chars@.len(),
            chars@ == value@,
            i <= n,
            out@ == join_with(ws_tokens(chars@.subrange(0, i as int)), seq![' ']),
            started == (ws_tokens(chars@.subrange(0, i as int)).len() > 0),
            prev_word == (i > 0 && !is_ws(chars@[i - 1])),
            prev_word ==> started,
        decreases n - i,
    {
        let c = chars[i];
        let ghost pre = chars@.subrange(0, i as int);
        let ghost cur = chars@.subrange(0, i + 1);
        assert(cur.drop_last() =~= pre);
        assert(cur.last() == c);
        let ws = is_whitespace_char(c);
        if ws {
            prev_word = false;
        } else if prev_word {
            proof {
                assert(cur[cur.len() - 2] == chars@[i - 1]);
                lemma_join_extend_last(ws_tokens(pre), seq![' '], c);
            }
            out.push(c);
        } else {
            proof {
                if i > 0 {
                    assert(cur[cur.len() - 2] == chars@[i - 1]);
                }
                lemma_join_push(ws_tokens(pre), seq![' '], seq![c]);
            }
            if started {
                out.push(' ');
                assert(out@ =~= join_with(ws_tokens(pre), seq![' ']) + seq![' ']);
            }
            out.push(c);
            assert(out@ =~= join_with(ws_tokens(cur), seq![' ']));
            started = true;
            prev_word = true;
        }
        i = i + 1;
    }
    assert(chars@.subrange(0, n as int) =~= value@);
    string_from_chars(out.as_slice())
}

/// Normalize whitespace and convert the resulting value to title case.
pub fn normalize_title(value: &str) -> (r: String)
    ensures
        r@ == titlecase_of(collapse_ws(value@)),
{
    let normalized = normalize_whitespace(value);
    titlecase_str(normalized.as_str())
}

/// The index just past the leading white space of `s`.
fn leading_ws_end(s: &Vec<char>) -> (k: usize)
    ensures
        k <= s@.len(),
        trim_start_spec(s@) == s@.subrange(k as int, s@.len() as int),
        forall|j: int| 0 <= j < k ==> is_ws(#[trigger] s@[j]),
        k < s@.len() ==> !is_ws(s@[k as int]),
{
    let mut k: usize = 0;
    assert(s@.subrange(0, s@.len() as int) =~= s@);
    while k < s.len() && is_whitespace_char(s[k])
        invariant
            k <= s@.len(),
            trim_start_spec(s@) == trim_start_spec(s@.subrange(k as int, s@.len() as int)),
            forall|j: int| 0 <= j < k ==> is_ws(#[trigger] s@[j]),
        decreases s.len() - k,
    {
        let ghost rest = s@.subrange(k as int, s@.len() as int);
        assert(rest.drop_first() =~= s@.subrange(k + 1, s@.len() as int));
        k = k + 1;
    }
    let ghost rest = s@.subrange(k as int, s@.len() as int);
    assert(rest.len() > 0 ==> rest[0] == s@[k as int]);
    k
}

/// The characters of `s` without white space at either end, as `str::trim`
/// gives them.
pub fn trim_chars(s: &Vec<char>) -> (r: Vec<char>)
    ensures
        r@ == trim_spec(s@),
{
    let start = leading_ws_end(s);
    let mut end: usize = s.len();
    assert(trim_start_spec(s@) == s@.subrange(start as int, end as int));
    while end > start && is_whitespace_char(s[end - 1])
        invariant
            start <= end <= s@.len(),
            trim_spec(s@) == trim_end_spec(s@.subrange(start as int, end as int)),
        decreases end,
    {
        let ghost mid = s@.subrange(start as int, end as int);
        assert(mid.drop_last() =~= s@.subrange(start as int, end - 1));
        end = end - 1;
    }
    let ghost fin = s@.subrange(start as int, end as int);
    assert(fin.len() > 0 ==> fin.last() == s@[end - 1]);
    assert(trim_spec(s@) == fin);
    let mut r: Vec<char> = Vec::new();
    let mut i = start;
    while i < end
        invariant
            start <= i <= end <= s@.len(),
            r@ == s@.subrange(start as int, i as int),
        decreases end - i,
    {
        r.push(s[i]);
        i = i + 1;
        assert(r@ =~= s@.subrange(start as int, i as int));
    }
    r
}

/// `s` with ASCII upper-case letters turned to lower case.
pub fn ascii_lowercase_chars(s: &Vec<char>) -> (r: Vec<char>)
    ensures
        r@ == ascii_lower_seq(s@),
{
    let mut r: Vec<char> = Vec::new();
    let mut i: usize = 0;
    while i < s.len()
        invariant
            i <= s@.len(),
            r@ =~= ascii_lower_seq(s@.subrange(0, i as int)),
        decreases s.len() - i,
    {
        let c = s[i];
        let l = if 'A' <= c && c <= 'Z' {
            char_from_u32((c as u32) + 32)
        } else {
            c
        };
        r.push(l);
        i = i + 1;
        assert(r@ =~= ascii_lower_seq(s@.subrange(0, i as int)));
    }
    assert(s@.subrange(0, s@.len() as int) =~= s@);
    r
}

/// The character with an ASCII code point.
fn char_from_u32(u: u32) -> (c: char)
    requires
        u < 128,
    ensures
        c as u32 == u,
{
    let c = u as u8 as char;
    c
}

/// The white-space separated words of `s` (`str::split_whitespace`).
pub fn split_ws(s: &Vec<char>) -> (r: Vec<Vec<char>>)
    ensures
        r@.len() == ws_tokens(s@).len(),
        forall|i: int| 0 <= i < r@.len() ==> (#[trigger] r@[i])@ == ws_tokens(s@)[i],
{
    let n = s.len();
    let mut toks: Vec<Vec<char>> = Vec::new();
    let mut prev_word = false;
    let mut i: usize = 0;
    while i < n
        invariant
            n == s@.len(),
            i <= n,
            toks@.len() == ws_tokens(s@.subrange(0, i as int)).len(),
            forall|j: int|
                0 <= j < toks@.len() ==> (#[trigger] toks@[j])@ == ws_tokens(
                    s@.subrange(0, i as int),
                )[j],
            prev_word == (i > 0 && !is_ws(s@[i - 1])),
            prev_word ==> toks@.len() > 0,
        decreases n - i,
    {
        let c = s[i];
        let ghost pre = s@.subrange(0, i as int);
        let ghost cur = s@.subrange(0, i + 1);
        assert(cur.drop_last() =~= pre);
        assert(cur.last() == c);
        if is_whitespace_char(c) {
            prev_word = false;
        } else if prev_word {
            assert(cur[cur.len() - 2] == s@[i - 1]);
            let ghost t0 = toks@;
            let mut last = toks.pop().unwrap();
            last.push(c);
            toks.push(last);
            assert forall|j: int| 0 <= j < toks@.len() implies (#[trigger] toks@[j])@ == ws_tokens(
                cur,
            )[j] by {
                if j < toks@.len() - 1 {
                    assert(toks@[j] == t0[j]);
                }
            }
        } else {
            proof {
                if i > 0 {
                    assert(cur[cur.len() - 2] == s@[i - 1]);
                }
            }
            let ghost t0 = toks@;
            let mut w: Vec<char> = Vec::new();
            w.push(c);
            toks.push(w);
            assert(w@ =~= seq![c]);
            assert forall|j: int| 0 <= j < toks@.len() implies (#[trigger] toks@[j])@ == ws_tokens(
                cur,
            )[j] by {
                if j < toks@.len() - 1 {
                    assert(toks@[j] == t0[j]);
                }
            }
            prev_word = true;
        }
        i = i + 1;
    }
    assert(s@.subrange(0, n as int) =~= s@);
    toks
}

} // verus!
