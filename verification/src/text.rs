//! Character-level text handling: whitespace, trimming, line splitting.

use vstd::prelude::*;

verus! {

/// Whether `c` has the Unicode `White_Space` property, the property that
/// `char::is_whitespace` reports.
pub open spec fn is_ws(c: char) -> bool {
    let n = c as u32;
    ||| 0x9 <= n && n <= 0xd
    ||| n == 0x20
    ||| n == 0x85
    ||| n == 0xa0
    ||| n == 0x1680
    ||| 0x2000 <= n && n <= 0x200a
    ||| n == 0x2028
    ||| n == 0x2029
    ||| n == 0x202f
    ||| n == 0x205f
    ||| n == 0x3000
}

/// `s` without its leading whitespace.
pub open spec fn trim_start(s: Seq<char>) -> Seq<char>
    decreases s.len(),
{
    if s.len() > 0 && is_ws(s[0]) {
        trim_start(s.drop_first())
    } else {
        s
    }
}

/// `s` without its trailing whitespace.
pub open spec fn trim_end(s: Seq<char>) -> Seq<char>
    decreases s.len(),
{
    if s.len() > 0 && is_ws(s.last()) {
        trim_end(s.drop_last())
    } else {
        s
    }
}

/// `s` without leading and trailing whitespace, as `str::trim` gives it.
pub open spec fn trim(s: Seq<char>) -> Seq<char> {
    trim_end(trim_start(s))
}

/// The pieces of `s` between `'\n'` characters: one more piece than `s`
/// holds newlines.
pub open spec fn pieces(s: Seq<char>) -> Seq<Seq<char>>
    decreases s.len(),
{
    if s.len() == 0 {
        seq![Seq::<char>::empty()]
    } else {
        let p = pieces(s.drop_last());
        if s.last() == '\n' {
            p.push(Seq::<char>::empty())
        } else {
            p.update(p.len() - 1, p.last().push(s.last()))
        }
    }
}

/// The lines of `s` in the sense of `str::lines`, up to a `'\r'` before the
/// `'\n'` (which every use here trims away): the pieces between newlines,
/// where a final newline ends the last line instead of opening an empty one.
pub open spec fn lines(s: Seq<char>) -> Seq<Seq<char>> {
    if s.len() == 0 {
        Seq::empty()
    } else if s.last() == '\n' {
        pieces(s).drop_last()
    } else {
        pieces(s)
    }
}

/// The character views of a sequence of strings.
pub open spec fn views(v: Seq<String>) -> Seq<Seq<char>> {
    v.map_values(|s: String| s@)
}


/// Splitting into pieces always yields at least one piece.
pub proof fn lemma_pieces_nonempty(s: Seq<char>)
    ensures
        pieces(s).len() >= 1,
    decreases s.len(),
{
    if s.len() > 0 {
        lemma_pieces_nonempty(s.drop_last());
    }
}

/// How the pieces of a prefix grow by one character.
pub proof fn lemma_pieces_step(s: Seq<char>, i: int)
    requires
        0 <= i < s.len(),
    ensures
        pieces(s.take(i + 1)) == (if s[i] == '\n' {
            pieces(s.take(i)).push(Seq::<char>::empty())
        } else {
            pieces(s.take(i)).update(
                pieces(s.take(i)).len() - 1,
                pieces(s.take(i)).last().push(s[i]),
            )
        }),
{
    assert(s.take(i + 1).drop_last() =~= s.take(i));
    assert(s.take(i + 1).last() == s[i]);
    lemma_pieces_nonempty(s.take(i));
}

/// No piece holds a newline.
pub proof fn lemma_pieces_no_newline(s: Seq<char>)
    ensures
        forall|j: int, k: int|
            0 <= j < pieces(s).len() && 0 <= k < pieces(s)[j].len() ==> #[trigger] pieces(s)[j][k]
                != '\n',
    decreases s.len(),
{
    if s.len() > 0 {
        lemma_pieces_no_newline(s.drop_last());
        lemma_pieces_nonempty(s.drop_last());
        let p = pieces(s.drop_last());
        if s.last() != '\n' {
            assert forall|j: int, k: int|
                0 <= j < pieces(s).len() && 0 <= k < pieces(s)[j].len() implies #[trigger] pieces(
                s,
            )[j][k] != '\n' by {
                if j == p.len() - 1 {
                    if k < p.last().len() {
                        assert(pieces(s)[j][k] == p[j][k]);
                    }
                } else {
                    assert(pieces(s)[j] == p[j]);
                }
            }
        } else {
            assert forall|j: int, k: int|
                0 <= j < pieces(s).len() && 0 <= k < pieces(s)[j].len() implies #[trigger] pieces(
                s,
            )[j][k] != '\n' by {
                if j < p.len() {
                    assert(pieces(s)[j] == p[j]);
                }
            }
        }
    }
}

/// Appending text without a newline extends the last piece.
pub proof fn lemma_pieces_append(a: Seq<char>, w: Seq<char>)
    requires
        forall|k: int| 0 <= k < w.len() ==> w[k] != '\n',
    ensures
        pieces(a + w) == pieces(a).update(pieces(a).len() - 1, pieces(a).last() + w),
    decreases w.len(),
{
    lemma_pieces_nonempty(a);
    if w.len() == 0 {
        assert(a + w =~= a);
        assert(pieces(a).last() + w =~= pieces(a).last());
        assert(pieces(a).update(pieces(a).len() - 1, pieces(a).last() + w) =~= pieces(a));
    } else {
        let w2 = w.drop_last();
        lemma_pieces_append(a, w2);
        assert((a + w).drop_last() =~= a + w2);
        assert((a + w).last() == w.last());
        lemma_pieces_nonempty(a + w2);
        assert((pieces(a).last() + w2).push(w.last()) =~= pieces(a).last() + w);
        assert(pieces(a + w) =~= pieces(a).update(pieces(a).len() - 1, pieces(a).last() + w));
    }
}

/// A newline at the end opens a new, empty piece.
pub proof fn lemma_pieces_newline(a: Seq<char>)
    ensures
        pieces(a.push('\n')) == pieces(a).push(Seq::<char>::empty()),
{
    assert(a.push('\n').drop_last() =~= a);
}

/// Trimming the start leaves text that is empty or starts with a
/// non-whitespace character, and is a suffix of the original.
pub proof fn lemma_trim_start_shape(s: Seq<char>)
    ensures
        trim_start(s).len() <= s.len(),
        trim_start(s) == s.subrange(s.len() - trim_start(s).len(), s.len() as int),
        trim_start(s).len() == 0 || !is_ws(trim_start(s)[0]),
    decreases s.len(),
{
    if s.len() > 0 && is_ws(s[0]) {
        lemma_trim_start_shape(s.drop_first());
        let t = trim_start(s.drop_first());
        assert(s.drop_first().subrange(s.len() - 1 - t.len(), s.len() - 1) =~= s.subrange(
            s.len() - t.len(),
            s.len() as int,
        ));
    } else {
        assert(s.subrange(0, s.len() as int) =~= s);
    }
}

/// Trimming the end leaves a prefix of the original that is empty or ends
/// with a non-whitespace character.
pub proof fn lemma_trim_end_shape(s: Seq<char>)
    ensures
        trim_end(s).len() <= s.len(),
        trim_end(s) == s.subrange(0, trim_end(s).len() as int),
        trim_end(s).len() == 0 || !is_ws(trim_end(s).last()),
    decreases s.len(),
{
    if s.len() > 0 && is_ws(s.last()) {
        lemma_trim_end_shape(s.drop_last());
        let t = trim_end(s.drop_last());
        assert(s.drop_last().subrange(0, t.len() as int) =~= s.subrange(0, t.len() as int));
    } else {
        assert(s.subrange(0, s.len() as int) =~= s);
    }
}

/// Trimmed text is empty or neither starts nor ends with whitespace, and is
/// a contiguous part of the original.
pub proof fn lemma_trim_shape(s: Seq<char>)
    ensures
        trim(s).len() == 0 || (!is_ws(trim(s)[0]) && !is_ws(trim(s).last())),
        exists|a: int| 0 <= a && a + trim(s).len() <= s.len() && trim(s) == #[trigger] s.subrange(a, a + trim(s).len()),
{
    lemma_trim_start_shape(s);
    let u = trim_start(s);
    lemma_trim_end_shape(u);
    let a = s.len() - u.len();
    assert(trim(s) == u.subrange(0, trim(s).len() as int));
    assert(u.subrange(0, trim(s).len() as int) =~= s.subrange(a, a + trim(s).len()));
    if trim(s).len() > 0 {
        assert(trim(s)[0] == u[0]);
    }
}

/// Trimming twice is trimming once.
pub proof fn lemma_trim_idempotent(s: Seq<char>)
    ensures
        trim(trim(s)) == trim(s),
{
    lemma_trim_shape(s);
    let t = trim(s);
    if t.len() > 0 {
        assert(trim_start(t) == t);
        assert(trim_end(t) == t);
    } else {
        assert(trim_start(t) == t);
    }
}

/// Trimming text without newlines leaves text without newlines.
pub proof fn lemma_trim_no_newline(s: Seq<char>)
    requires
        forall|k: int| 0 <= k < s.len() ==> s[k] != '\n',
    ensures
        forall|k: int| 0 <= k < trim(s).len() ==> trim(s)[k] != '\n',
{
    lemma_trim_shape(s);
    let t = trim(s);
    let a = choose|a: int| 0 <= a && a + t.len() <= s.len() && t == #[trigger] s.subrange(a, a + t.len());
    assert forall|k: int| 0 <= k < t.len() implies t[k] != '\n' by {
        assert(t[k] == s[a + k]);
    }
}

/// Whether `c` is whitespace, as `char::is_whitespace` answers.
pub fn is_whitespace(c: char) -> (b: bool)
    ensures
        b == is_ws(c),
{
    let n: u32 = c as u32;
    (0x9 <= n && n <= 0xd) || n == 0x20 || n == 0x85 || n == 0xa0 || n == 0x1680 || (0x2000 <= n
        && n <= 0x200a) || n == 0x2028 || n == 0x2029 || n == 0x202f || n == 0x205f || n == 0x3000
}

/// `String::push`: appends one character.
#[verifier::external_body]
pub(crate) fn string_push(s: &mut String, c: char)
    ensures
        final(s)@ == old(s)@.push(c),
{
    s.push(c)
}

/// `String::pop`: takes off the last character, if there is one.
#[verifier::external_body]
pub(crate) fn string_pop(s: &mut String) -> (r: Option<char>)
    ensures
        old(s)@.len() == 0 ==> r is None && final(s)@ == old(s)@,
        old(s)@.len() > 0 ==> r == Some(old(s)@.last()) && final(s)@ == old(s)@.drop_last(),
{
    s.pop()
}

/// The characters of `s`, in order.
pub fn chars_of(s: &str) -> (v: Vec<char>)
    ensures
        v@ == s@,
{
    let mut v: Vec<char> = Vec::new();
    for c in it: s.chars()
        invariant
            v@ == it.seq().take(it.index() as int),
    {
        v.push(c);
    }
    v
}

/// The string made of the characters `v[lo..hi]`.
pub fn string_of_range(v: &Vec<char>, lo: usize, hi: usize) -> (s: String)
    requires
        lo <= hi <= v@.len(),
    ensures
        s@ == v@.subrange(lo as int, hi as int),
{
    let mut s = String::new();
    let mut k: usize = lo;
    while k < hi
        invariant
            lo <= k <= hi,
            hi <= v@.len(),
            s@ == v@.subrange(lo as int, k as int),
        decreases hi - k,
    {
        string_push(&mut s, v[k]);
        proof {
            assert(v@.subrange(lo as int, k + 1) =~= v@.subrange(lo as int, k as int).push(v@[k as int]));
        }
        k = k + 1;
    }
    s
}

/// The bounds of `v[lo..hi]` with its surrounding whitespace taken off.
pub fn trim_range(v: &Vec<char>, lo: usize, hi: usize) -> (r: (usize, usize))
    requires
        lo <= hi <= v@.len(),
    ensures
        lo <= r.0 <= r.1 <= hi,
        v@.subrange(r.0 as int, r.1 as int) == trim(v@.subrange(lo as int, hi as int)),
{
    let mut a: usize = lo;
    while a < hi && is_whitespace(v[a])
        invariant
            lo <= a <= hi,
            hi <= v@.len(),
            trim_start(v@.subrange(lo as int, hi as int)) == trim_start(
                v@.subrange(a as int, hi as int),
            ),
        decreases hi - a,
    {
        proof {
            assert(v@.subrange(a as int, hi as int).drop_first() =~= v@.subrange(
                a + 1,
                hi as int,
            ));
        }
        a = a + 1;
    }
    let mut b: usize = hi;
    while b > a && is_whitespace(v[b - 1])
        invariant
            lo <= a <= b <= hi,
            hi <= v@.len(),
            trim_end(v@.subrange(a as int, hi as int)) == trim_end(
                v@.subrange(a as int, b as int),
            ),
        decreases b - a,
    {
        proof {
            assert(v@.subrange(a as int, b as int).drop_last() =~= v@.subrange(
                a as int,
                b - 1,
            ));
        }
        b = b - 1;
    }
    (a, b)
}

/// The bounds of the lines of `v`: for each line of `v`, in order, the
/// range of `v` that holds it.
pub fn line_bounds(v: &Vec<char>) -> (bounds: Vec<(usize, usize)>)
    ensures
        bounds@.len() == lines(v@).len(),
        forall|j: int|
            0 <= j < bounds@.len() ==> (#[trigger] bounds@[j]).0 <= bounds@[j].1 <= v@.len()
                && v@.subrange(bounds@[j].0 as int, bounds@[j].1 as int) == lines(v@)[j],
{
    let n = v.len();
    let mut bounds: Vec<(usize, usize)> = Vec::new();
    let mut start: usize = 0;
    let mut i: usize = 0;
    let ghost mut done: Seq<Seq<char>> = Seq::empty();
    proof {
        assert(v@.take(0) =~= Seq::<char>::empty());
        assert(pieces(v@.take(0)) =~= done.push(v@.subrange(0, 0)));
    }
    while i < n
        invariant
            n == v@.len(),
            start <= i <= n,
            (start == i) <==> (i == 0 || v@[i - 1] == '\n'),
            pieces(v@.take(i as int)) == done.push(v@.subrange(start as int, i as int)),
            bounds@.len() == done.len(),
            forall|j: int|
                0 <= j < bounds@.len() ==> (#[trigger] bounds@[j]).0 <= bounds@[j].1 <= n
                    && v@.subrange(bounds@[j].0 as int, bounds@[j].1 as int) == done[j],
        decreases n - i,
    {
        proof {
            lemma_pieces_step(v@, i as int);
        }
        if v[i] == '\n' {
            bounds.push((start, i));
            proof {
                assert(v@[i as int] == '\n');
                assert(pieces(v@.take(i + 1)) == pieces(v@.take(i as int)).push(
                    Seq::<char>::empty(),
                ));
                done = done.push(v@.subrange(start as int, i as int));
                assert(v@.subrange(i + 1, i + 1) =~= Seq::<char>::empty());
                assert(pieces(v@.take(i + 1)) == done.push(v@.subrange(i + 1, i + 1)));
            }
            start = i + 1;
        } else {
            proof {
                let old_last = v@.subrange(start as int, i as int);
                assert(old_last.push(v@[i as int]) =~= v@.subrange(start as int, i + 1));
                assert(pieces(v@.take(i + 1)) =~= done.push(v@.subrange(start as int, i + 1)));
            }
        }
        i = i + 1;
    }
    proof {
        assert(v@.take(n as int) =~= v@);
    }
    if start < n {
        bounds.push((start, n));
        proof {
            done = done.push(v@.subrange(start as int, n as int));
            assert(lines(v@) == done);
        }
    } else {
        proof {
            if n == 0 {
                assert(done.push(v@.subrange(0, 0)).len() == 1);
                assert(done =~= Seq::<Seq<char>>::empty());
            } else {
                assert(lines(v@) =~= done);
            }
        }
    }
    bounds
}

} // verus!
