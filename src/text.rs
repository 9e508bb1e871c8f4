//! Character-level text handling: whitespace, trimming, splitting and joining.
use vstd::prelude::*;
use vstd::std_specs::iter::IteratorSpec;
use vstd::string::*;

verus! {

/// The Unicode `White_Space` property.
pub open spec fn white_space(c: char) -> bool {
    let u = c as u32;
    (0x9 <= u && u <= 0xd) || u == 0x20 || u == 0x85 || u == 0xa0 || u == 0x1680 || (0x2000 <= u
        && u <= 0x200a) || u == 0x2028 || u == 0x2029 || u == 0x202f || u == 0x205f || u == 0x3000
}

/// Whether `c` has the Unicode `White_Space` property.
pub fn is_white_space(c: char) -> (r: bool)
    ensures
        r == white_space(c),
{
    let u = c as u32;
    (0x9 <= u && u <= 0xd) || u == 0x20 || u == 0x85 || u == 0xa0 || u == 0x1680 || (0x2000 <= u
        && u <= 0x200a) || u == 0x2028 || u == 0x2029 || u == 0x202f || u == 0x205f || u == 0x3000
}

/// `s` with its leading whitespace removed.
pub open spec fn trim_start(s: Seq<char>) -> Seq<char>
    decreases s.len(),
{
    if s.len() > 0 && white_space(s[0]) {
        trim_start(s.drop_first())
    } else {
        s
    }
}

/// `s` with its trailing whitespace removed.
pub open spec fn trim_end(s: Seq<char>) -> Seq<char>
    decreases s.len(),
{
    if s.len() > 0 && white_space(s.last()) {
        trim_end(s.drop_last())
    } else {
        s
    }
}

/// `s` with whitespace removed from both ends.
pub open spec fn trim(s: Seq<char>) -> Seq<char> {
    trim_end(trim_start(s))
}

/// The pieces of `s` between the characters for which `sep` holds, in order,
/// empty pieces included: a string with `k` separators has `k + 1` pieces.
pub open spec fn pieces(s: Seq<char>, sep: spec_fn(char) -> bool) -> Seq<Seq<char>>
    decreases s.len(),
{
    if s.len() == 0 {
        seq![Seq::<char>::empty()]
    } else {
        let prev = pieces(s.drop_last(), sep);
        if sep(s.last()) {
            prev.push(Seq::<char>::empty())
        } else {
            prev.update(prev.len() - 1, prev.last().push(s.last()))
        }
    }
}

pub open spec fn is_space(c: char) -> bool {
    c == ' '
}

/// The tokens of `s` split on single spaces.
pub open spec fn split_spaces(s: Seq<char>) -> Seq<Seq<char>> {
    pieces(s, |c: char| is_space(c))
}

pub open spec fn non_empty(t: Seq<char>) -> bool {
    t.len() > 0
}

/// The maximal runs of non-whitespace characters of `s`, in order.
pub open spec fn whitespace_words(s: Seq<char>) -> Seq<Seq<char>> {
    pieces(s, |c: char| white_space(c)).filter(|t: Seq<char>| non_empty(t))
}

/// The words of `ws` joined with single spaces.
pub open spec fn join_words(ws: Seq<Seq<char>>) -> Seq<char>
    decreases ws.len(),
{
    if ws.len() == 0 {
        Seq::<char>::empty()
    } else if ws.len() == 1 {
        ws[0]
    } else {
        join_words(ws.drop_last()) + seq![' '] + ws.last()
    }
}

pub proof fn lemma_pieces_len(s: Seq<char>, sep: spec_fn(char) -> bool)
    ensures
        pieces(s, sep).len() >= 1,
    decreases s.len(),
{
    if s.len() > 0 {
        lemma_pieces_len(s.drop_last(), sep);
    }
}

/// Appending characters that are no separator extends the last piece.
pub proof fn lemma_pieces_extend(s: Seq<char>, w: Seq<char>, sep: spec_fn(char) -> bool)
    requires
        forall|j: int| 0 <= j < w.len() ==> !sep(w[j]),
    ensures
        pieces(s + w, sep) == pieces(s, sep).update(
            pieces(s, sep).len() - 1,
            pieces(s, sep).last() + w,
        ),
    decreases w.len(),
{
    lemma_pieces_len(s, sep);
    if w.len() == 0 {
        assert(s + w =~= s);
        assert(pieces(s, sep).last() + w =~= pieces(s, sep).last());
        assert(pieces(s, sep).update(pieces(s, sep).len() - 1, pieces(s, sep).last())
            =~= pieces(s, sep));
    } else {
        let w0 = w.drop_last();
        lemma_pieces_extend(s, w0, sep);
        assert((s + w).drop_last() =~= s + w0);
        assert((s + w).last() == w.last());
        assert(pieces(s, sep).last() + w0 + seq![w.last()] =~= pieces(s, sep).last() + w);
        let p = pieces(s + w0, sep);
        assert(p.last() =~= pieces(s, sep).last() + w0);
        assert(p.last().push(w.last()) =~= pieces(s, sep).last() + w);
        assert(pieces(s + w, sep) =~= pieces(s, sep).update(
            pieces(s, sep).len() - 1,
            pieces(s, sep).last() + w,
        ));
    }
}

/// A separator followed by characters that are no separator adds one piece.
pub proof fn lemma_pieces_sep(s: Seq<char>, c: char, w: Seq<char>, sep: spec_fn(char) -> bool)
    requires
        sep(c),
        forall|j: int| 0 <= j < w.len() ==> !sep(w[j]),
    ensures
        pieces(s + seq![c] + w, sep) == pieces(s, sep).push(w),
{
    let s1 = s + seq![c];
    assert(s1.drop_last() =~= s);
    lemma_pieces_extend(s1, w, sep);
    assert(Seq::<char>::empty() + w =~= w);
    assert(pieces(s1, sep) == pieces(s, sep).push(Seq::<char>::empty()));
    assert(pieces(s1 + w, sep) =~= pieces(s, sep).push(w));
}

/// Splitting words that hold no space, joined by single spaces, gives them back.
pub proof fn lemma_split_join(ws: Seq<Seq<char>>)
    requires
        ws.len() >= 1,
        forall|i: int, j: int| 0 <= i < ws.len() && 0 <= j < ws[i].len() ==> ws[i][j] != ' ',
    ensures
        split_spaces(join_words(ws)) == ws,
    decreases ws.len(),
{
    let sep = |c: char| is_space(c);
    if ws.len() == 1 {
        lemma_pieces_extend(Seq::<char>::empty(), ws[0], sep);
        assert(Seq::<char>::empty() + ws[0] =~= ws[0]);
        assert(Seq::<char>::empty() + ws[0] =~= Seq::<char>::empty() + ws[0]);
        assert(pieces(Seq::<char>::empty(), sep) == seq![Seq::<char>::empty()]);
        assert(split_spaces(join_words(ws)) =~= ws);
    } else {
        let front = ws.drop_last();
        lemma_split_join(front);
        lemma_pieces_sep(join_words(front), ' ', ws.last(), sep);
        assert(front.push(ws.last()) =~= ws);
    }
}

/// The first character of joined words is that of the first word.
pub proof fn lemma_join_ends(ws: Seq<Seq<char>>)
    requires
        ws.len() >= 1,
        forall|i: int| 0 <= i < ws.len() ==> ws[i].len() > 0,
    ensures
        join_words(ws).len() > 0,
        join_words(ws)[0] == ws[0][0],
        join_words(ws).last() == ws.last().last(),
    decreases ws.len(),
{
    if ws.len() > 1 {
        lemma_join_ends(ws.drop_last());
    }
}

/// Trimming leaves a string that starts and ends with no whitespace as it is.
pub proof fn lemma_trim_unchanged(s: Seq<char>)
    requires
        s.len() > 0,
        !white_space(s[0]),
        !white_space(s.last()),
    ensures
        trim(s) == s,
{
}

proof fn lemma_trim_start_step(s: Seq<char>, i: int)
    requires
        0 <= i < s.len(),
        white_space(s[i]),
    ensures
        trim_start(s.subrange(i, s.len() as int)) == trim_start(s.subrange(i + 1, s.len() as int)),
{
    assert(s.subrange(i, s.len() as int).drop_first() =~= s.subrange(i + 1, s.len() as int));
}

proof fn lemma_trim_end_step(s: Seq<char>, lo: int, hi: int)
    requires
        0 <= lo < hi <= s.len(),
        white_space(s[hi - 1]),
    ensures
        trim_end(s.subrange(lo, hi)) == trim_end(s.subrange(lo, hi - 1)),
{
    assert(s.subrange(lo, hi).drop_last() =~= s.subrange(lo, hi - 1));
}

/// Copies the characters of `s` into a vector.
pub fn chars_of(s: &str) -> (r: Vec<char>)
    ensures
        r@ == s@,
{
    let n = s.unicode_len();
    let mut r: Vec<char> = Vec::new();
    let mut it = s.chars();
    let mut i: usize = 0;
    while i < n
        invariant
            n == s@.len(),
            i <= n,
            r@ == s@.take(i as int),
            it.obeys_prophetic_iter_laws(),
            it.remaining() == s@.skip(i as int),
        decreases n - i,
    {
        let c = it.next();
        proof {
            assert(it.remaining().len() + 1 == s@.skip(i as int).len());
        }
        match c {
            Some(ch) => {
                r.push(ch);
            },
            None => {},
        }
        assert(r@ =~= s@.take(i as int + 1));
        assert(it.remaining() =~= s@.skip(i as int + 1));
        i = i + 1;
    }
    assert(r@ =~= s@);
    r
}

/// `s` with whitespace removed from both ends.
pub fn trim_str(s: &str) -> (r: &str)
    ensures
        r@ == trim(s@),
{
    let cs = chars_of(s);
    let n = cs.len();
    let mut lo: usize = 0;
    assert(s@.subrange(0, n as int) =~= s@);
    while lo < n && is_white_space(cs[lo])
        invariant
            cs@ == s@,
            n == s@.len(),
            lo <= n,
            trim_start(s@) == trim_start(s@.subrange(lo as int, n as int)),
        decreases n - lo,
    {
        proof {
            lemma_trim_start_step(s@, lo as int);
        }
        lo = lo + 1;
    }
    let ghost t = s@.subrange(lo as int, n as int);
    assert(trim_start(s@) == t) by {
        if lo < n {
            assert(t[0] == s@[lo as int]);
        }
    }
    let mut hi: usize = n;
    while hi > lo && is_white_space(cs[hi - 1])
        invariant
            cs@ == s@,
            n == s@.len(),
            lo <= hi <= n,
            trim_end(t) == trim_end(s@.subrange(lo as int, hi as int)),
        decreases hi,
    {
        proof {
            lemma_trim_end_step(s@, lo as int, hi as int);
        }
        hi = hi - 1;
    }
    assert(trim_end(s@.subrange(lo as int, hi as int)) == s@.subrange(lo as int, hi as int)) by {
        if hi > lo {
            assert(s@.subrange(lo as int, hi as int).last() == s@[hi - 1]);
        }
    }
    s.substring_char(lo, hi)
}

proof fn lemma_filter_push(a: Seq<Seq<char>>, x: Seq<char>)
    ensures
        a.push(x).filter(|t: Seq<char>| non_empty(t)) == if x.len() > 0 {
            a.filter(|t: Seq<char>| non_empty(t)).push(x)
        } else {
            a.filter(|t: Seq<char>| non_empty(t))
        },
{
    reveal(Seq::filter);
    assert(a.push(x).drop_last() =~= a);
}

/// Splits `s` on single spaces, keeping empty tokens.
pub fn split_on_spaces(s: &str) -> (r: Vec<String>)
    ensures
        r.deep_view() == split_spaces(s@),
{
    let cs = chars_of(s);
    let n = cs.len();
    let mut out: Vec<String> = Vec::new();
    let mut start: usize = 0;
    let mut i: usize = 0;
    assert(s@.take(0) =~= Seq::<char>::empty());
    assert(out.deep_view().push(s@.subrange(0, 0)) =~= seq![Seq::<char>::empty()]);
    while i < n
        invariant
            cs@ == s@,
            n == s@.len(),
            start <= i <= n,
            out.deep_view().push(s@.subrange(start as int, i as int)) == split_spaces(
                s@.take(i as int),
            ),
        decreases n - i,
    {
        let ghost prev = out.deep_view();
        assert(s@.take(i + 1).drop_last() =~= s@.take(i as int));
        assert(s@.take(i + 1).last() == cs@[i as int]);
        if cs[i] == ' ' {
            let piece = String::from_str(s.substring_char(start, i));
            out.push(piece);
            assert(out.deep_view() =~= prev.push(s@.subrange(start as int, i as int)));
            start = i + 1;
            assert(split_spaces(s@.take(i + 1)) == split_spaces(s@.take(i as int)).push(
                Seq::<char>::empty(),
            ));
            assert(s@.subrange(start as int, i + 1) =~= Seq::<char>::empty());
            assert(out.deep_view().push(s@.subrange(start as int, i + 1)) =~= split_spaces(
                s@.take(i + 1),
            ));
        } else {
            assert(s@.subrange(start as int, i as int).push(cs@[i as int]) =~= s@.subrange(
                start as int,
                i + 1,
            ));
            let ghost pp = split_spaces(s@.take(i as int));
            assert(pp.last() == s@.subrange(start as int, i as int));
            assert(split_spaces(s@.take(i + 1)) == pp.update(
                pp.len() - 1,
                pp.last().push(cs@[i as int]),
            ));
            assert(pp.update(pp.len() - 1, pp.last().push(cs@[i as int])) =~= out.deep_view().push(
                s@.subrange(start as int, i + 1),
            ));
            assert(out.deep_view().push(s@.subrange(start as int, i + 1)) =~= split_spaces(
                s@.take(i + 1),
            ));
        }
        i = i + 1;
    }
    let ghost prev = out.deep_view();
    let piece = String::from_str(s.substring_char(start, n));
    out.push(piece);
    assert(out.deep_view() =~= prev.push(s@.subrange(start as int, n as int)));
    assert(s@.take(n as int) =~= s@);
    out
}

/// The maximal runs of non-whitespace characters of `s`.
pub fn words_of(s: &str) -> (r: Vec<String>)
    ensures
        r.deep_view() == whitespace_words(s@),
        forall|k: int| 0 <= k < r.len() ==> r@[k]@.len() > 0,
        forall|k: int, j: int|
            0 <= k < r.len() && 0 <= j < r@[k]@.len() ==> !white_space(#[trigger] r@[k]@[j]),
{
    let cs = chars_of(s);
    let n = cs.len();
    let mut out: Vec<String> = Vec::new();
    let mut start: usize = 0;
    let mut i: usize = 0;
    let ghost done: Seq<Seq<char>> = Seq::empty();
    assert(s@.take(0) =~= Seq::<char>::empty());
    assert(done.push(s@.subrange(0, 0)) =~= seq![Seq::<char>::empty()]);
    proof {
        reveal(Seq::filter);
    }
    assert(out.deep_view() =~= done.filter(|t: Seq<char>| non_empty(t)));
    while i < n
        invariant
            cs@ == s@,
            n == s@.len(),
            start <= i <= n,
            done.push(s@.subrange(start as int, i as int)) == pieces(
                s@.take(i as int),
                |c: char| white_space(c),
            ),
            out.deep_view() == done.filter(|t: Seq<char>| non_empty(t)),
            forall|j: int| start <= j < i ==> !white_space(#[trigger] s@[j]),
            forall|k: int| 0 <= k < out.len() ==> out@[k]@.len() > 0,
            forall|k: int, j: int|
                0 <= k < out.len() && 0 <= j < out@[k]@.len() ==> !white_space(#[trigger] out@[k]@[j]),
        decreases n - i,
    {
        let ghost prev = out.deep_view();
        let ghost cur = s@.subrange(start as int, i as int);
        assert(s@.take(i + 1).drop_last() =~= s@.take(i as int));
        assert(s@.take(i + 1).last() == cs@[i as int]);
        if is_white_space(cs[i]) {
            proof {
                lemma_filter_push(done, cur);
            }
            if start < i {
                let piece = String::from_str(s.substring_char(start, i));
                out.push(piece);
                assert(out.deep_view() =~= prev.push(cur));
            }
            proof {
                done = done.push(cur);
            }
            start = i + 1;
            assert(pieces(s@.take(i + 1), |c: char| white_space(c)) == pieces(
                s@.take(i as int),
                |c: char| white_space(c),
            ).push(Seq::<char>::empty()));
            assert(s@.subrange(start as int, i + 1) =~= Seq::<char>::empty());
            assert(done.push(s@.subrange(start as int, i + 1)) =~= pieces(
                s@.take(i + 1),
                |c: char| white_space(c),
            ));
        } else {
            assert(cur.push(cs@[i as int]) =~= s@.subrange(start as int, i + 1));
            let ghost pp = pieces(s@.take(i as int), |c: char| white_space(c));
            assert(pp.last() == cur);
            assert(pieces(s@.take(i + 1), |c: char| white_space(c)) == pp.update(
                pp.len() - 1,
                pp.last().push(cs@[i as int]),
            ));
            assert(pp.update(pp.len() - 1, pp.last().push(cs@[i as int])) =~= done.push(
                s@.subrange(start as int, i + 1),
            ));
            assert(done.push(s@.subrange(start as int, i + 1)) =~= pieces(
                s@.take(i + 1),
                |c: char| white_space(c),
            ));
        }
        i = i + 1;
    }
    let ghost prev = out.deep_view();
    let ghost cur = s@.subrange(start as int, n as int);
    proof {
        lemma_filter_push(done, cur);
    }
    if start < n {
        let piece = String::from_str(s.substring_char(start, n));
        out.push(piece);
        assert(out.deep_view() =~= prev.push(cur));
    }
    assert(s@.take(n as int) =~= s@);
    out
}

} // verus!
