use vstd::prelude::*;

use crate::text::{
    ascii_lower_seq, ascii_lowercase_chars, chars_eq, collapse_ws, is_whitespace_char, is_ws,
    normalize_title, normalize_whitespace, str_chars, string_from_chars, titlecase_of, trim_chars,
    trim_spec,
};

verus! {

/// The index of the first `c` in `s`, or `s.len()` when there is none.
pub open spec fn first_index(s: Seq<char>, c: char) -> int
    decreases s.len(),
{
    if s.len() == 0 {
        0
    } else if s[0] == c {
        0
    } else {
        1 + first_index(s.drop_first(), c)
    }
}

/// The characters of `s` from index `from` on.
pub open spec fn tail_from(s: Seq<char>, from: int) -> Seq<char> {
    s.subrange(from, s.len() as int)
}

pub proof fn lemma_first_index(s: Seq<char>, c: char)
    ensures
        0 <= first_index(s, c) <= s.len(),
        forall|j: int| 0 <= j < first_index(s, c) ==> s[j] != c,
        first_index(s, c) < s.len() ==> s[first_index(s, c)] == c,
    decreases s.len(),
{
    if s.len() > 0 && s[0] != c {
        lemma_first_index(s.drop_first(), c);
        assert forall|j: int| 0 <= j < first_index(s, c) implies s[j] != c by {
            if j > 0 {
                assert(s[j] == s.drop_first()[j - 1]);
            }
        }
    }
}

/// The position of the first `c` in `s` (or its length when `c` is absent).
pub fn find_char(s: &Vec<char>, c: char) -> (k: usize)
    ensures
        k == first_index(s@, c),
        k <= s@.len(),
{
    let mut i: usize = 0;
    assert(tail_from(s@, 0) =~= s@);
    while i < s.len() && s[i] != c
        invariant
            i <= s@.len(),
            first_index(s@, c) == i + first_index(tail_from(s@, i as int), c),
        decreases s.len() - i,
    {
        assert(tail_from(s@, i as int).drop_first() =~= tail_from(s@, i + 1));
        i = i + 1;
    }
    proof {
        lemma_first_index(s@, c);
    }
    i
}

/// The characters `s[from..to]`.
pub fn slice_chars(s: &Vec<char>, from: usize, to: usize) -> (r: Vec<char>)
    requires
        from <= to <= s@.len(),
    ensures
        r@ == s@.subrange(from as int, to as int),
{
    let mut r: Vec<char> = Vec::new();
    let mut i = from;
    while i < to
        invariant
            from <= i <= to <= s@.len(),
            r@ == s@.subrange(from as int, i as int),
        decreases to - i,
    {
        r.push(s[i]);
        i = i + 1;
        assert(r@ =~= s@.subrange(from as int, i as int));
    }
    r
}

/// The identifier that remains of `id` once an agency prefix ending in the
/// first `_` is removed; `id` itself when it holds no `_`.
pub open spec fn strip_agency_prefix(id: Seq<char>) -> Seq<char> {
    let k = first_index(id, '_');
    if k < id.len() {
        tail_from(id, k + 1)
    } else {
        id
    }
}

/// Strip agency prefix from IDs (e.g., "MTA NYCT_M1" -> "M1", "MTA NYCT_1234" -> "1234")
pub fn parse_prefixed_id(id: String) -> (r: String)
    ensures
        r@ == strip_agency_prefix(id@),
{
    let chars = str_chars(id.as_str());
    let k = find_char(&chars, '_');
    if k < chars.len() {
        let rest = slice_chars(&chars, k + 1, chars.len());
        string_from_chars(rest.as_slice())
    } else {
        id
    }
}

/// A triple of characters that spells one of the stop ids that the MTA
/// publishes for stops that do not exist.
pub open spec fn is_fake_triple(a: char, b: char, c: char) -> bool {
    ||| (a, b, c) == ('F', '1', '7')
    ||| (a, b, c) == ('A', '6', '2')
    ||| (a, b, c) == ('Q', '0', '2')
    ||| (a, b, c) == ('H', '1', '9')
    ||| (a, b, c) == ('H', '1', '7')
    ||| (a, b, c) == ('A', '5', '8')
    ||| (a, b, c) == ('A', '2', '9')
    ||| (a, b, c) == ('A', '3', '9')
    ||| (a, b, c) == ('F', '1', '0')
    ||| (a, b, c) == ('H', '1', '8')
    ||| (a, b, c) == ('H', '0', '5')
    ||| (a, b, c) == ('R', '6', '0')
    ||| (a, b, c) == ('D', '2', '3')
    ||| (a, b, c) == ('R', '6', '5')
    ||| (a, b, c) == ('M', '0', '7')
    ||| (a, b, c) == ('X', '2', '2')
    ||| (a, b, c) == ('N', '1', '2')
    ||| (a, b, c) == ('R', '1', '0')
    ||| (a, b, c) == ('B', '0', '5')
    ||| (a, b, c) == ('M', '1', '7')
    ||| (a, b, c) == ('R', '7', '0')
    ||| (a, b, c) == ('J', '1', '8')
    ||| (a, b, c) == ('G', '2', '5')
    ||| (a, b, c) == ('D', '6', '0')
    ||| (a, b, c) == ('B', '2', '4')
    ||| (a, b, c) == ('S', '0', 'M')
    ||| (a, b, c) == ('S', '1', '2')
    ||| (a, b, c) == ('S', '1', '0')
}

/// Stop ids that appear in the MTA's feeds for stops that do not exist.
pub open spec fn is_fake_stop_id(s: Seq<char>) -> bool {
    s.len() == 3 && is_fake_triple(s[0], s[1], s[2])
}

/// Whether a subway stop id names one of the MTA's non-existent stops.
pub fn fake_stop_id(s: &Vec<char>) -> (b: bool)
    ensures
        b == is_fake_stop_id(s@),
{
    if s.len() != 3 {
        return false;
    }
    let (a, b, c) = (s[0], s[1], s[2]);
    (a == 'F' && b == '1' && c == '7')
        || (a == 'A' && b == '6' && c == '2')
        || (a == 'Q' && b == '0' && c == '2')
        || (a == 'H' && b == '1' && c == '9')
        || (a == 'H' && b == '1' && c == '7')
        || (a == 'A' && b == '5' && c == '8')
        || (a == 'A' && b == '2' && c == '9')
        || (a == 'A' && b == '3' && c == '9')
        || (a == 'F' && b == '1' && c == '0')
        || (a == 'H' && b == '1' && c == '8')
        || (a == 'H' && b == '0' && c == '5')
        || (a == 'R' && b == '6' && c == '0')
        || (a == 'D' && b == '2' && c == '3')
        || (a == 'R' && b == '6' && c == '5')
        || (a == 'M' && b == '0' && c == '7')
        || (a == 'X' && b == '2' && c == '2')
        || (a == 'N' && b == '1' && c == '2')
        || (a == 'R' && b == '1' && c == '0')
        || (a == 'B' && b == '0' && c == '5')
        || (a == 'M' && b == '1' && c == '7')
        || (a == 'R' && b == '7' && c == '0')
        || (a == 'J' && b == '1' && c == '8')
        || (a == 'G' && b == '2' && c == '5')
        || (a == 'D' && b == '6' && c == '0')
        || (a == 'B' && b == '2' && c == '4')
        || (a == 'S' && b == '0' && c == 'M')
        || (a == 'S' && b == '1' && c == '2')
        || (a == 'S' && b == '1' && c == '0')
}

/// The Staten Island Railway's route id, with its express variant `SS`
/// folded into `SI`.
pub open spec fn fold_sir(route_id: Seq<char>) -> Seq<char> {
    if route_id == seq!['S', 'S'] {
        seq!['S', 'I']
    } else {
        route_id
    }
}

/// A subway route id split into its base route and whether it is the
/// express (`...X`) variant.
pub open spec fn split_express(route_id: Seq<char>) -> (Seq<char>, bool) {
    let r = fold_sir(route_id);
    if r.len() > 0 && r.last() == 'X' {
        (r.drop_last(), true)
    } else {
        (r, false)
    }
}

/// `(route_id, express)` of a subway route id: `SS` becomes `SI`, and a
/// trailing `X` is removed and marks the express variant.
pub fn split_express_route_id(id: &str) -> (r: (String, bool))
    ensures
        r.0@ == split_express(id@).0,
        r.1 == split_express(id@).1,
{
    let chars = str_chars(id);
    let mut route: Vec<char> = if chars_eq(chars.as_slice(), &['S', 'S']) {
        vec!['S', 'I']
    } else {
        chars
    };
    assert(route@ == fold_sir(id@));
    let mut express = false;
    if route.len() > 0 && route[route.len() - 1] == 'X' {
        route.pop();
        express = true;
    }
    (string_from_chars(route.as_slice()), express)
}

/// A subway stop id without its trailing `N`/`S` direction letter.
pub open spec fn without_direction(s: Seq<char>) -> Seq<char> {
    if s.len() > 0 && (s.last() == 'N' || s.last() == 'S') {
        s.drop_last()
    } else {
        s
    }
}

/// Whether `s` ends with `suffix`.
pub open spec fn ends_with(s: Seq<char>, suffix: Seq<char>) -> bool {
    suffix.len() <= s.len() && s.subrange(s.len() - suffix.len(), s.len() as int) == suffix
}

/// Whether the characters `s` end with `suffix`.
pub fn chars_end_with(s: &Vec<char>, suffix: &[char]) -> (b: bool)
    ensures
        b == ends_with(s@, suffix@),
{
    if suffix.len() > s.len() {
        return false;
    }
    let off = s.len() - suffix.len();
    let mut i: usize = 0;
    while i < suffix.len()
        invariant
            off + suffix@.len() == s@.len(),
            off + suffix.len() == s.len(),
            i <= suffix@.len(),
            forall|j: int| 0 <= j < i ==> s@[off + j] == suffix@[j],
        decreases suffix.len() - i,
    {
        if s[off + i] != suffix[i] {
            proof {
                let t = s@.subrange(off as int, s@.len() as int);
                assert(t[i as int] == s@[off + i]);
            }
            return false;
        }
        i = i + 1;
    }
    assert(s@.subrange(off as int, s@.len() as int) =~= suffix@);
    true
}

/// The characters of an optional string slice.
pub open spec fn opt_str_view(o: Option<&str>) -> Option<Seq<char>> {
    match o {
        Some(s) => Some(s@),
        None => None,
    }
}

/// The characters of an optional string.
pub open spec fn opt_string_view(o: Option<String>) -> Option<Seq<char>> {
    match o {
        Some(s) => Some(s@),
        None => None,
    }
}

/// A copy of an optional string.
pub fn clone_opt_string(o: &Option<String>) -> (r: Option<String>)
    ensures
        r == *o,
{
    match o {
        Some(s) => Some(s.clone()),
        None => None,
    }
}

/// The characters after the last `c` in `s`, or all of `s` when it holds
/// none: the last piece that `str::split(c)` yields.
pub open spec fn after_last(s: Seq<char>, c: char) -> Seq<char>
    decreases s.len(),
{
    if s.len() == 0 {
        s
    } else if s.last() == c {
        Seq::empty()
    } else {
        after_last(s.drop_last(), c).push(s.last())
    }
}

/// The last piece of `s` split at `c`.
pub fn last_piece(s: &Vec<char>, c: char) -> (r: Vec<char>)
    ensures
        r@ == after_last(s@, c),
{
    let mut k: usize = s.len();
    assert(s@.subrange(0, k as int) =~= s@);
    assert(after_last(s@, c) =~= after_last(s@, c) + s@.subrange(k as int, s@.len() as int));
    while k > 0 && s[k - 1] != c
        invariant
            k <= s@.len(),
            after_last(s@, c) == after_last(s@.subrange(0, k as int), c) + s@.subrange(
                k as int,
                s@.len() as int,
            ),
        decreases k,
    {
        let ghost p = s@.subrange(0, k as int);
        assert(p.drop_last() =~= s@.subrange(0, k - 1));
        assert(after_last(p, c) == after_last(s@.subrange(0, k - 1), c).push(s@[k - 1]));
        assert(after_last(s@.subrange(0, k - 1), c).push(s@[k - 1]) + s@.subrange(
            k as int,
            s@.len() as int,
        ) =~= after_last(s@.subrange(0, k - 1), c) + s@.subrange(k - 1, s@.len() as int));
        k = k - 1;
    }
    proof {
        let p = s@.subrange(0, k as int);
        if k > 0 {
            assert(p.last() == s@[k - 1]);
        }
        assert(after_last(p, c) =~= Seq::<char>::empty());
    }
    slice_chars(s, k, s.len())
}

/// The suffix `-html` that marks an HTML translation's language tag.
pub open spec fn html_suffix() -> Seq<char> {
    seq!['-', 'h', 't', 'm', 'l']
}

/// The text format of an alert translation.
#[derive(Clone, Copy, Debug, PartialEq, Eq, Structural)]
pub enum AlertFormat {
    Plain,
    Html,
}

/// What MTA's language field means: the format and the language tag.
pub open spec fn mta_language(lang: Option<Seq<char>>) -> (AlertFormat, Seq<char>) {
    match lang {
        Some(l) => if ends_with(l, html_suffix()) {
            (AlertFormat::Html, l.subrange(0, l.len() - 5))
        } else {
            (AlertFormat::Plain, l)
        },
        None => (AlertFormat::Plain, seq!['e', 'n']),
    }
}

/// Parses MTA's language field (e.g., "en", "en-html") into format and language.
/// "en" -> (Plain, "en")
/// "en-html" -> (Html, "en")
pub fn parse_mta_language(lang: Option<&str>) -> (r: (AlertFormat, String))
    ensures
        r.0 == mta_language(opt_str_view(lang)).0,
        r.1@ == mta_language(opt_str_view(lang)).1,
{
    match lang {
        Some(l) => {
            let chars = str_chars(l);
            if chars_end_with(&chars, &['-', 'h', 't', 'm', 'l']) {
                let lang = slice_chars(&chars, 0, chars.len() - 5);
                (AlertFormat::Html, string_from_chars(lang.as_slice()))
            } else {
                (AlertFormat::Plain, string_from_chars(chars.as_slice()))
            }
        },
        None => (AlertFormat::Plain, string_from_chars(&['e', 'n'])),
    }
}

/// The characters that end a leading route-id token in a headsign.
pub open spec fn is_token_sep(c: char) -> bool {
    is_ws(c) || c == '-' || c == ':' || c == '/' || c == '.'
}

/// Whether `c` ends a leading route-id token.
pub fn token_sep(c: char) -> (b: bool)
    ensures
        b == is_token_sep(c),
{
    is_whitespace_char(c) || c == '-' || c == ':' || c == '/' || c == '.'
}

/// The index of the first token separator in `s`, or its length.
pub open spec fn first_sep(s: Seq<char>) -> int
    decreases s.len(),
{
    if s.len() == 0 {
        0
    } else if is_token_sep(s[0]) {
        0
    } else {
        1 + first_sep(s.drop_first())
    }
}

/// `s` without its leading token separators.
pub open spec fn skip_seps(s: Seq<char>) -> Seq<char>
    decreases s.len(),
{
    if s.len() > 0 && is_token_sep(s[0]) {
        skip_seps(s.drop_first())
    } else {
        s
    }
}

/// Whether two strings are equal when ASCII letters are compared without case,
/// as `str::eq_ignore_ascii_case` decides.
pub open spec fn eq_ignore_ascii_case_spec(a: Seq<char>, b: Seq<char>) -> bool {
    ascii_lower_seq(a) == ascii_lower_seq(b)
}

/// Whether two character sequences match up to ASCII case.
pub fn chars_eq_ignore_ascii_case(a: &Vec<char>, b: &Vec<char>) -> (r: bool)
    ensures
        r == eq_ignore_ascii_case_spec(a@, b@),
{
    let la = ascii_lowercase_chars(a);
    let lb = ascii_lowercase_chars(b);
    chars_eq(la.as_slice(), lb.as_slice())
}

/// A headsign without a leading copy of the route id: the trimmed headsign,
/// or, when its first token (up to white space or one of `- : / .`) equals the
/// route id up to ASCII case, what follows that token with the separators and
/// surrounding white space removed.
pub open spec fn strip_route_prefix_spec(route_id: Seq<char>, headsign: Seq<char>) -> Seq<char> {
    let t = trim_spec(headsign);
    if route_id.len() == 0 || t.len() == 0 {
        t
    } else {
        let k = first_sep(t);
        if !eq_ignore_ascii_case_spec(t.subrange(0, k), route_id) {
            t
        } else {
            trim_spec(skip_seps(tail_from(t, k)))
        }
    }
}

proof fn lemma_first_sep(s: Seq<char>)
    ensures
        0 <= first_sep(s) <= s.len(),
    decreases s.len(),
{
    if s.len() > 0 && !is_token_sep(s[0]) {
        lemma_first_sep(s.drop_first());
    }
}

/// Remove a route-id token from the start of a headsign when present.
///
/// Examples:
/// - "509 ATLANTIC CITY" -> "ATLANTIC CITY"
/// - "509-ATLANTIC CITY" -> "ATLANTIC CITY"
pub fn strip_route_id_prefix(route_id: &str, headsign: &str) -> (r: String)
    ensures
        r@ == strip_route_prefix_spec(route_id@, headsign@),
{
    let rid = str_chars(route_id);
    let raw = str_chars(headsign);
    let t = trim_chars(&raw);
    if rid.len() == 0 || t.len() == 0 {
        return string_from_chars(t.as_slice());
    }
    let mut k: usize = 0;
    assert(tail_from(t@, 0) =~= t@);
    while k < t.len() && !token_sep(t[k])
        invariant
            k <= t@.len(),
            first_sep(t@) == k + first_sep(tail_from(t@, k as int)),
        decreases t.len() - k,
    {
        assert(tail_from(t@, k as int).drop_first() =~= tail_from(t@, k + 1));
        k = k + 1;
    }
    assert(first_sep(t@) == k);
    let first = slice_chars(&t, 0, k);
    if !chars_eq_ignore_ascii_case(&first, &rid) {
        return string_from_chars(t.as_slice());
    }
    let mut j = k;
    assert(skip_seps(tail_from(t@, k as int)) == skip_seps(tail_from(t@, j as int)));
    while j < t.len() && token_sep(t[j])
        invariant
            k <= j <= t@.len(),
            skip_seps(tail_from(t@, k as int)) == skip_seps(tail_from(t@, j as int)),
        decreases t.len() - j,
    {
        assert(tail_from(t@, j as int).drop_first() =~= tail_from(t@, j + 1));
        j = j + 1;
    }
    let rest = slice_chars(&t, j, t.len());
    assert(skip_seps(tail_from(t@, j as int)) == tail_from(t@, j as int));
    let trimmed = trim_chars(&rest);
    string_from_chars(trimmed.as_slice())
}

/// A headsign as displayed: white space collapsed, a repeated route-id prefix
/// removed, then title case.
pub open spec fn normalized_headsign(route_id: Seq<char>, headsign: Seq<char>) -> Seq<char> {
    titlecase_of(collapse_ws(strip_route_prefix_spec(route_id, collapse_ws(headsign))))
}

/// Normalize a destination headsign by removing a repeated route-id prefix and
/// converting the remaining text to title case.
pub fn normalize_headsign(route_id: &str, headsign: &str) -> (r: String)
    ensures
        r@ == normalized_headsign(route_id@, headsign@),
{
    let compact = normalize_whitespace(headsign);
    let stripped = strip_route_id_prefix(route_id, compact.as_str());
    normalize_title(stripped.as_str())
}

/// The key under which route names are matched: white space collapsed and
/// ASCII letters lower-cased.
pub open spec fn route_name_key_spec(value: Seq<char>) -> Seq<char> {
    ascii_lower_seq(collapse_ws(value))
}

/// The lookup key for a route name.
pub fn route_name_key(value: &str) -> (r: String)
    ensures
        r@ == route_name_key_spec(value@),
{
    let n = normalize_whitespace(value);
    let chars = str_chars(n.as_str());
    let lower = ascii_lowercase_chars(&chars);
    string_from_chars(lower.as_slice())
}

} // verus!
