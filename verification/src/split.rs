//! Splitting text at a separator character, keeping the non-empty pieces.

use vstd::prelude::*;
use crate::text::views;

verus! {

broadcast use vstd::seq_lib::group_seq_properties;

/// The pieces of `s` between the occurrences of `sep`, as `str::split`
/// yields them: one more piece than there are separators, empty ones included.
pub open spec fn split_pieces(s: Seq<char>, sep: char) -> Seq<Seq<char>>
    decreases s.len(),
{
    if s.len() == 0 {
        seq![seq![]]
    } else {
        let p = split_pieces(s.drop_last(), sep);
        if s.last() == sep {
            p.push(seq![])
        } else {
            p.update(p.len() - 1, p.last().push(s.last()))
        }
    }
}

/// A piece that is not empty.
pub open spec fn is_nonempty(p: Seq<char>) -> bool {
    p.len() > 0
}

/// The non-empty pieces of `s` between the occurrences of `sep`, in order.
pub open spec fn segments(s: Seq<char>, sep: char) -> Seq<Seq<char>> {
    split_pieces(s, sep).filter(|p: Seq<char>| is_nonempty(p))
}

/// `s` holds no occurrence of `c`.
pub open spec fn lacks(s: Seq<char>, c: char) -> bool {
    forall|i: int| 0 <= i < s.len() ==> s[i] != c
}

/// There is always at least one piece.
pub proof fn lemma_split_pieces_nonempty(s: Seq<char>, sep: char)
    ensures
        split_pieces(s, sep).len() >= 1,
    decreases s.len(),
{
    if s.len() > 0 {
        lemma_split_pieces_nonempty(s.drop_last(), sep);
    }
}

/// Text without the separator is a single piece.
pub proof fn lemma_split_pieces_single(s: Seq<char>, sep: char)
    requires
        lacks(s, sep),
    ensures
        split_pieces(s, sep) == seq![s],
    decreases s.len(),
{
    if s.len() > 0 {
        lemma_split_pieces_single(s.drop_last(), sep);
        assert(s.drop_last().push(s.last()) =~= s);
    }
}

/// Splitting `a`, a separator and `b` gives the pieces of `a` followed by those of `b`.
pub proof fn lemma_split_pieces_concat(a: Seq<char>, b: Seq<char>, sep: char)
    ensures
        split_pieces(a + seq![sep] + b, sep) == split_pieces(a, sep) + split_pieces(b, sep),
    decreases b.len(),
{
    lemma_split_pieces_nonempty(a, sep);
    lemma_split_pieces_nonempty(b, sep);
    let s = a + seq![sep] + b;
    if b.len() == 0 {
        assert(s.drop_last() =~= a);
        assert(split_pieces(b, sep) =~= seq![seq![]]);
        assert(split_pieces(a, sep).push(seq![]) =~= split_pieces(a, sep) + seq![seq![]]);
    } else {
        lemma_split_pieces_concat(a, b.drop_last(), sep);
        assert(s.drop_last() =~= a + seq![sep] + b.drop_last());
        assert(s.last() == b.last());
        lemma_split_pieces_nonempty(b.drop_last(), sep);
        let pa = split_pieces(a, sep);
        let pb = split_pieces(b.drop_last(), sep);
        if b.last() == sep {
            assert((pa + pb).push(seq![]) =~= pa + pb.push(seq![]));
        } else {
            assert((pa + pb).update((pa + pb).len() - 1, (pa + pb).last().push(b.last())) =~= pa
                + pb.update(pb.len() - 1, pb.last().push(b.last())));
        }
    }
}

/// Non-empty text without the separator is its own single segment.
pub proof fn lemma_segments_single(s: Seq<char>, sep: char)
    requires
        lacks(s, sep),
        s.len() > 0,
    ensures
        segments(s, sep) == seq![s],
{
    lemma_split_pieces_single(s, sep);
    let pred = |p: Seq<char>| is_nonempty(p);
    assert(seq![s] =~= Seq::<Seq<char>>::empty().push(s));
    Seq::<Seq<char>>::empty().lemma_filter_push(s, pred);
    reveal(Seq::filter);
    assert(Seq::<Seq<char>>::empty().filter(pred) =~= Seq::<Seq<char>>::empty());
}

/// The segments of `a`, a separator and `b` are those of `a` followed by those of `b`.
pub proof fn lemma_segments_concat(a: Seq<char>, b: Seq<char>, sep: char)
    ensures
        segments(a + seq![sep] + b, sep) == segments(a, sep) + segments(b, sep),
{
    lemma_split_pieces_concat(a, b, sep);
    let pred = |p: Seq<char>| is_nonempty(p);
    Seq::filter_distributes_over_add(split_pieces(a, sep), split_pieces(b, sep), pred);
}

/// `s` begins with `prefix`.
pub open spec fn starts_with(s: Seq<char>, prefix: Seq<char>) -> bool {
    prefix.len() <= s.len() && s.take(prefix.len() as int) == prefix
}

/// Returns what follows `prefix` in `s`, when `s` starts with it.
pub fn strip_prefix<'a>(s: &'a str, prefix: &str) -> (r: Option<&'a str>)
    ensures
        r is Some <==> starts_with(s@, prefix@),
        r matches Some(rest) ==> rest@ == s@.skip(prefix@.len() as int),
{
    let n = s.unicode_len();
    let m = prefix.unicode_len();
    if m > n {
        return None;
    }
    let mut i: usize = 0;
    while i < m
        invariant
            n == s@.len(),
            m == prefix@.len(),
            m <= n,
            i <= m,
            forall|j: int| 0 <= j < i ==> s@[j] == prefix@[j],
        decreases m - i,
    {
        if s.get_char(i) != prefix.get_char(i) {
            assert(s@.take(m as int)[i as int] != prefix@[i as int]);
            return None;
        }
        i = i + 1;
    }
    assert(s@.take(m as int) =~= prefix@);
    Some(s.substring_char(m, n))
}

/// Splits `s` at every `sep` and keeps the non-empty pieces, in order.
pub fn nonempty_segments(s: &str, sep: char) -> (r: Vec<String>)
    ensures
        views(r@) == segments(s@, sep),
{
    let n = s.unicode_len();
    let mut out: Vec<String> = Vec::new();
    let mut start: usize = 0;
    let mut i: usize = 0;
    let ghost pred = |p: Seq<char>| is_nonempty(p);
    proof {
        assert(s@.take(0) =~= Seq::<char>::empty());
        reveal(Seq::filter);
        assert(split_pieces(s@.take(0), sep).drop_last() =~= Seq::<Seq<char>>::empty());
    }
    while i < n
        invariant
            n == s@.len(),
            start <= i <= n,
            pred == (|p: Seq<char>| is_nonempty(p)),
            split_pieces(s@.take(i as int), sep).len() >= 1,
            views(out@) == split_pieces(s@.take(i as int), sep).drop_last().filter(pred),
            split_pieces(s@.take(i as int), sep).last() == s@.subrange(start as int, i as int),
        decreases n - i,
    {
        let c = s.get_char(i);
        let ghost before = split_pieces(s@.take(i as int), sep);
        proof {
            assert(s@.take(i + 1).drop_last() =~= s@.take(i as int));
            assert(s@.take(i + 1).last() == c);
            assert(before =~= before.drop_last().push(before.last()));
        }
        if c == sep {
            if start < i {
                let piece = String::from_str(s.substring_char(start, i));
                out.push(piece);
            }
            proof {
                before.drop_last().lemma_filter_push(before.last(), pred);
                assert(views(out@) =~= before.drop_last().push(before.last()).filter(pred));
                assert(split_pieces(s@.take(i + 1), sep).drop_last() =~= before);
            }
            start = i + 1;
        } else {
            proof {
                assert(split_pieces(s@.take(i + 1), sep).drop_last() =~= before.drop_last());
                assert(s@.subrange(start as int, i + 1) =~= s@.subrange(start as int, i as int).push(c));
            }
        }
        i = i + 1;
    }
    let ghost fin = split_pieces(s@.take(n as int), sep);
    proof {
        assert(s@.take(n as int) =~= s@);
        assert(fin =~= fin.drop_last().push(fin.last()));
        fin.drop_last().lemma_filter_push(fin.last(), pred);
    }
    if start < n {
        let piece = String::from_str(s.substring_char(start, n));
        out.push(piece);
    }
    proof {
        assert(views(out@) =~= fin.filter(pred));
    }
    out
}

} // verus!
