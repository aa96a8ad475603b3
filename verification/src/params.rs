//! List parameters of the HTTP API: comma-separated ids in a query string.
use vstd::prelude::*;

use crate::num::{parse_i32, parse_int_spec};
use crate::text::{join_with, str_chars, string_from_chars};

verus! {

/// The pieces of `s` between the separators `c`, as `str::split` gives
/// them: an empty text is one empty piece, and neighbouring separators
/// leave an empty piece between them.
pub open spec fn split_pieces(s: Seq<char>, c: char) -> Seq<Seq<char>>
    decreases s.len(),
{
    if s.len() == 0 {
        seq![Seq::empty()]
    } else {
        let p = split_pieces(s.drop_last(), c);
        if s.last() == c {
            p.push(Seq::empty())
        } else {
            p.update(p.len() - 1, p.last().push(s.last()))
        }
    }
}

/// There is always at least one piece.
pub proof fn lemma_split_pieces_len(s: Seq<char>, c: char)
    ensures
        split_pieces(s, c).len() >= 1,
    decreases s.len(),
{
    if s.len() > 0 {
        lemma_split_pieces_len(s.drop_last(), c);
    }
}

/// Joining the pieces with the separator gives back the text.
pub proof fn lemma_split_join(s: Seq<char>, c: char)
    ensures
        join_with(split_pieces(s, c), seq![c]) == s,
    decreases s.len(),
{
    if s.len() == 0 {
        assert(join_with(seq![Seq::<char>::empty()], seq![c]) == Seq::<char>::empty());
    } else {
        let t = s.drop_last();
        lemma_split_join(t, c);
        lemma_split_pieces_len(t, c);
        let p = split_pieces(t, c);
        if s.last() == c {
            let q = p.push(Seq::<char>::empty());
            assert(q.drop_last() =~= p);
            assert(join_with(q, seq![c]) =~= s);
        } else {
            let w = p.last().push(s.last());
            let q = p.update(p.len() - 1, w);
            assert(q.drop_last() =~= p.drop_last());
            assert(q.last() == w);
            assert(s =~= t.push(s.last()));
            if p.len() == 1 {
                assert(join_with(p, seq![c]) == p[0]);
                assert(join_with(q, seq![c]) == q[0]);
                assert(q[0] =~= s);
            } else {
                assert(join_with(p, seq![c]) == join_with(p.drop_last(), seq![c]) + seq![c] + p.last());
                assert(join_with(q, seq![c]) == join_with(q.drop_last(), seq![c]) + seq![c] + q.last());
                let a = join_with(p.drop_last(), seq![c]);
                assert(a + seq![c] + w =~= (a + seq![c] + p.last()).push(s.last()));
            }
        }
    }
}

/// The comma-separated pieces of a list parameter.
pub fn parse_list(s: &str) -> (r: Vec<String>)
    ensures
        r@.len() == split_pieces(s@, ',').len(),
        forall|i: int| 0 <= i < r@.len() ==> (#[trigger] r@[i])@ == split_pieces(s@, ',')[i],
{
    let chars = str_chars(s);
    let mut done: Vec<String> = Vec::new();
    let mut cur: Vec<char> = Vec::new();
    let mut i: usize = 0;
    while i < chars.len()
        invariant
            i <= chars@.len(),
            chars@ == s@,
            split_pieces(chars@.subrange(0, i as int), ',') == Seq::new(done@.len() as nat, |j: int| done@[j]@).push(
                cur@,
            ),
        decreases chars.len() - i,
    {
        let ghost pre = chars@.subrange(0, i as int);
        let ghost cur_s = chars@.subrange(0, i + 1);
        assert(cur_s.drop_last() =~= pre);
        assert(cur_s.last() == chars@[i as int]);
        let ghost d0 = Seq::new(done@.len() as nat, |j: int| done@[j]@);
        if chars[i] == ',' {
            done.push(string_from_chars(cur.as_slice()));
            cur = Vec::new();
            assert(Seq::new(done@.len() as nat, |j: int| done@[j]@) =~= d0.push(
                split_pieces(pre, ',').last(),
            ));
            assert(split_pieces(cur_s, ',') =~= Seq::new(done@.len() as nat, |j: int| done@[j]@).push(
                cur@,
            ));
        } else {
            cur.push(chars[i]);
            assert(split_pieces(cur_s, ',') =~= Seq::new(done@.len() as nat, |j: int| done@[j]@).push(
                cur@,
            ));
        }
        i = i + 1;
    }
    assert(chars@.subrange(0, i as int) =~= s@);
    let ghost d0 = Seq::new(done@.len() as nat, |j: int| done@[j]@);
    done.push(string_from_chars(cur.as_slice()));
    assert(Seq::new(done@.len() as nat, |j: int| done@[j]@) =~= d0.push(cur@));
    assert forall|j: int| 0 <= j < done@.len() implies (#[trigger] done@[j])@ == split_pieces(s@, ',')[j] by {
        assert(Seq::new(done@.len() as nat, |j: int| done@[j]@)[j] == done@[j]@);
    }
    done
}

/// The numbers of a comma-separated list parameter, when every piece is an
/// `i32` (as `str::parse` reads it).
pub open spec fn int_list(s: Seq<char>) -> Option<Seq<i32>> {
    let p = split_pieces(s, ',');
    if forall|i: int|
        0 <= i < p.len() ==> parse_int_spec(#[trigger] p[i], true, i32::MIN as int, i32::MAX as int) is Some {
        Some(
            Seq::new(
                p.len(),
                |i: int| parse_int_spec(p[i], true, i32::MIN as int, i32::MAX as int).unwrap() as i32,
            ),
        )
    } else {
        None
    }
}

/// The numbers of a comma-separated list parameter; none when a piece is
/// not an `i32`.
pub fn parse_int_list(s: &str) -> (r: Option<Vec<i32>>)
    ensures
        match r {
            Some(v) => int_list(s@) == Some(v@),
            None => int_list(s@) is None,
        },
{
    let pieces = parse_list(s);
    let ghost p = split_pieces(s@, ',');
    let mut out: Vec<i32> = Vec::new();
    let mut i: usize = 0;
    while i < pieces.len()
        invariant
            i <= pieces@.len(),
            p == split_pieces(s@, ','),
            pieces@.len() == p.len(),
            forall|j: int| 0 <= j < pieces@.len() ==> (#[trigger] pieces@[j])@ == p[j],
            out@.len() == i,
            forall|j: int|
                0 <= j < i ==> parse_int_spec(#[trigger] p[j], true, i32::MIN as int, i32::MAX as int)
                    == Some(out@[j] as int),
        decreases pieces.len() - i,
    {
        let c = str_chars(pieces[i].as_str());
        match parse_i32(&c) {
            Some(v) => {
                out.push(v);
            },
            None => {
                assert(c@ == pieces@[i as int]@);
                assert(pieces@[i as int]@ == p[i as int]);
                assert(!(parse_int_spec(p[i as int], true, i32::MIN as int, i32::MAX as int) is Some));
                return None;
            },
        }
        i = i + 1;
    }
    assert(Seq::new(p.len(), |j: int| parse_int_spec(p[j], true, i32::MIN as int, i32::MAX as int).unwrap() as i32)
        =~= out@);
    Some(out)
}

} // verus!
