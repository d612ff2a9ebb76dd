//! Editing of the custom blocklist file: taking a domain out of its text.

use vstd::prelude::*;
use crate::domains::{domain_entries, entries_of, is_entry, lemma_entries_from_lines};
use crate::loader::opt_view;
use crate::text::{
    chars_of, lemma_pieces_append, lemma_pieces_newline, lemma_pieces_no_newline,
    lemma_pieces_nonempty, lemma_trim_idempotent, lemma_trim_no_newline, line_bounds, lines,
    pieces, string_push, trim, trim_range,
};

verus! {

/// The trimmed lines of `ls` that are not blank and differ from `d`.
pub open spec fn kept_lines(ls: Seq<Seq<char>>, d: Seq<char>) -> Seq<Seq<char>>
    decreases ls.len(),
{
    if ls.len() == 0 {
        Seq::empty()
    } else {
        let rest = kept_lines(ls.drop_last(), d);
        let t = trim(ls.last());
        if t.len() > 0 && t != d {
            rest.push(t)
        } else {
            rest
        }
    }
}

/// How many lines of `ls` are not blank.
pub open spec fn nonblank_count(ls: Seq<Seq<char>>) -> nat
    decreases ls.len(),
{
    if ls.len() == 0 {
        0
    } else {
        nonblank_count(ls.drop_last()) + if trim(ls.last()).len() > 0 {
            1nat
        } else {
            0nat
        }
    }
}

/// Each line of `ls` followed by a newline.
pub open spec fn concat_lines(ls: Seq<Seq<char>>) -> Seq<char>
    decreases ls.len(),
{
    if ls.len() == 0 {
        Seq::empty()
    } else {
        concat_lines(ls.drop_last()) + ls.last().push('\n')
    }
}

/// The lines of `ls` joined with newlines, and a final newline.
pub open spec fn joined(ls: Seq<Seq<char>>) -> Seq<char> {
    if ls.len() == 0 {
        seq!['\n']
    } else {
        concat_lines(ls)
    }
}

/// The text of the custom list after taking `domain` out of `content`, or
/// `None` when no line of it is `domain`: the remaining lines are trimmed
/// and blank lines dropped.
pub open spec fn removal(content: Seq<char>, domain: Seq<char>) -> Option<Seq<char>> {
    let ls = lines(content);
    let kept = kept_lines(ls, domain);
    if kept.len() != nonblank_count(ls) {
        Some(joined(kept))
    } else {
        None
    }
}

/// Whether the `j`-th line of `ls`, trimmed, is the domain `d` and not blank.
pub open spec fn line_is(ls: Seq<Seq<char>>, j: int, d: Seq<char>) -> bool {
    0 <= j < ls.len() && trim(ls[j]).len() > 0 && trim(ls[j]) == d
}

/// A removal keeps fewer lines than are not blank exactly when some line is
/// the domain.
proof fn lemma_kept_count(ls: Seq<Seq<char>>, d: Seq<char>)
    ensures
        kept_lines(ls, d).len() <= nonblank_count(ls),
        kept_lines(ls, d).len() < nonblank_count(ls) <==> exists|j: int| #[trigger] line_is(ls, j, d),
    decreases ls.len(),
{
    if ls.len() > 0 {
        let rest = ls.drop_last();
        lemma_kept_count(rest, d);
        if exists|j: int| #[trigger] line_is(rest, j, d) {
            let j = choose|j: int| #[trigger] line_is(rest, j, d);
            assert(rest[j] == ls[j]);
            assert(line_is(ls, j, d));
        }
        if exists|j: int| #[trigger] line_is(ls, j, d) {
            let j = choose|j: int| #[trigger] line_is(ls, j, d);
            if j < ls.len() - 1 {
                assert(rest[j] == ls[j]);
                assert(line_is(rest, j, d));
            } else {
                assert(line_is(ls, ls.len() - 1, d));
            }
        }
        if trim(ls.last()).len() > 0 && trim(ls.last()) == d {
            assert(line_is(ls, ls.len() - 1, d));
        }
    }
}

/// A removal happens exactly when some line of the list, trimmed, is the
/// domain (and the domain is not blank).
pub proof fn lemma_removal_happens_iff(content: Seq<char>, domain: Seq<char>)
    ensures
        removal(content, domain) is Some <==> exists|j: int| #[trigger] line_is(lines(content), j, domain),
{
    lemma_kept_count(lines(content), domain);
}

/// Each line of `ls`, trimmed.
pub open spec fn trimmed(ls: Seq<Seq<char>>) -> Seq<Seq<char>> {
    ls.map_values(|l: Seq<char>| trim(l))
}

/// Whether a trimmed line is not blank.
pub open spec fn not_blank() -> spec_fn(Seq<char>) -> bool {
    |t: Seq<char>| t.len() > 0
}

/// Whether a trimmed line is not blank and is not `d`.
pub open spec fn not_blank_nor(d: Seq<char>) -> spec_fn(Seq<char>) -> bool {
    |t: Seq<char>| t.len() > 0 && t != d
}

/// The lines kept by a removal are the trimmed lines that are not blank
/// and differ from the domain, in their order.
proof fn lemma_kept_is_filter(ls: Seq<Seq<char>>, d: Seq<char>)
    ensures
        kept_lines(ls, d) == trimmed(ls).filter(not_blank_nor(d)),
    decreases ls.len(),
{
    reveal(Seq::filter);
    if ls.len() > 0 {
        lemma_kept_is_filter(ls.drop_last(), d);
        assert(trimmed(ls).drop_last() =~= trimmed(ls.drop_last()));
        assert(trimmed(ls).last() == trim(ls.last()));
    } else {
        assert(trimmed(ls) =~= Seq::<Seq<char>>::empty());
    }
}

/// Filtering by a predicate that every element meets changes nothing.
proof fn lemma_filter_all(s: Seq<Seq<char>>, p: spec_fn(Seq<char>) -> bool)
    requires
        forall|j: int| 0 <= j < s.len() ==> p(#[trigger] s[j]),
    ensures
        s.filter(p) == s,
    decreases s.len(),
{
    reveal(Seq::filter);
    if s.len() > 0 {
        let r = s.drop_last();
        assert forall|j: int| 0 <= j < r.len() implies p(#[trigger] r[j]) by {
            assert(r[j] == s[j]);
        }
        lemma_filter_all(r, p);
        assert(s[s.len() - 1] == s.last());
        assert(r.push(s.last()) =~= s);
    }
}

/// After a removal, the non-blank lines of the new text, trimmed, are
/// exactly the non-blank trimmed lines of the old text that differ from the
/// domain, in their order: every other line is kept, and only the domain's
/// lines are dropped.
pub proof fn lemma_removal_keeps_other_lines(content: Seq<char>, domain: Seq<char>)
    requires
        removal(content, domain) is Some,
    ensures
        trimmed(lines(removal(content, domain)->0)).filter(not_blank()) == trimmed(
            lines(content),
        ).filter(not_blank_nor(domain)),
{
    let ls = lines(content);
    let kept = kept_lines(ls, domain);
    let c2 = removal(content, domain)->0;
    assert(c2 == joined(kept));
    lemma_kept_is_filter(ls, domain);
    lemma_pieces_no_newline(content);
    lemma_pieces_nonempty(content);
    assert forall|j: int, k: int| 0 <= j < ls.len() && 0 <= k < ls[j].len() implies #[trigger] ls[j][k] != '\n' by {
        assert(ls[j] == pieces(content)[j]);
    }
    lemma_kept_shape(ls, domain);
    if kept.len() == 0 {
        assert(c2 == seq!['\n']);
        assert(c2.drop_last() =~= Seq::<char>::empty());
        assert(pieces(c2.drop_last()) =~= seq![Seq::<char>::empty()]);
        let l2 = lines(c2);
        assert(l2 =~= seq![Seq::<char>::empty()]);
        let t2 = trimmed(l2);
        assert(t2.len() == 1);
        assert(t2[0] == trim(Seq::<char>::empty()));
        assert(trim(Seq::<char>::empty()) =~= Seq::<char>::empty());
        reveal(Seq::filter);
        assert(t2.drop_last() =~= Seq::<Seq<char>>::empty());
        assert(t2.drop_last().filter(not_blank()) =~= Seq::<Seq<char>>::empty());
        assert(t2.filter(not_blank()) =~= Seq::<Seq<char>>::empty());
    } else {
        lemma_lines_of_concat(kept);
        assert(concat_lines(kept) == concat_lines(kept.drop_last()) + kept.last().push('\n'));
        assert(lines(c2) =~= kept);
        assert(trimmed(kept) =~= kept);
        assert forall|j: int| 0 <= j < kept.len() implies (not_blank())(#[trigger] kept[j]) by {
        }
        lemma_filter_all(kept, not_blank());
    }
}

/// Whether a trimmed line is a domain entry.
pub open spec fn entry_pred() -> spec_fn(Seq<char>) -> bool {
    |t: Seq<char>| is_entry(t)
}

/// Whether a domain is not `d`.
pub open spec fn other_than(d: Seq<char>) -> spec_fn(Seq<char>) -> bool {
    |t: Seq<char>| t != d
}

/// The entries of lines are their trimmed texts that are entries.
proof fn lemma_entries_is_filter(ls: Seq<Seq<char>>)
    ensures
        entries_of(ls) == trimmed(ls).filter(entry_pred()),
    decreases ls.len(),
{
    reveal(Seq::filter);
    if ls.len() > 0 {
        lemma_entries_is_filter(ls.drop_last());
        assert(trimmed(ls).drop_last() =~= trimmed(ls.drop_last()));
        assert(trimmed(ls).last() == trim(ls.last()));
    } else {
        assert(trimmed(ls) =~= Seq::<Seq<char>>::empty());
    }
}

/// Filtering twice is filtering once by both predicates.
proof fn lemma_filter_twice(
    s: Seq<Seq<char>>,
    p: spec_fn(Seq<char>) -> bool,
    q: spec_fn(Seq<char>) -> bool,
)
    ensures
        s.filter(p).filter(q) == s.filter(|t: Seq<char>| p(t) && q(t)),
    decreases s.len(),
{
    reveal(Seq::filter);
    if s.len() > 0 {
        lemma_filter_twice(s.drop_last(), p, q);
        let sub = s.drop_last().filter(p);
        if p(s.last()) {
            assert(sub.push(s.last()).drop_last() =~= sub);
        }
    }
}

/// After a removal, the domains that the new text lists are those of the
/// old text without the removed domain, in their order.
pub proof fn lemma_removal_entries(content: Seq<char>, domain: Seq<char>)
    requires
        removal(content, domain) is Some,
    ensures
        domain_entries(removal(content, domain)->0) == domain_entries(content).filter(
            other_than(domain),
        ),
{
    let ls = lines(content);
    let kept = kept_lines(ls, domain);
    let c2 = removal(content, domain)->0;
    let tl = trimmed(ls);
    assert(c2 == joined(kept));
    lemma_kept_is_filter(ls, domain);
    lemma_entries_is_filter(ls);
    lemma_filter_twice(tl, entry_pred(), other_than(domain));
    lemma_filter_twice(tl, not_blank_nor(domain), entry_pred());
    let both1 = |t: Seq<char>| (entry_pred())(t) && (other_than(domain))(t);
    let both2 = |t: Seq<char>| (not_blank_nor(domain))(t) && (entry_pred())(t);
    assert(both1 =~= both2);
    lemma_pieces_no_newline(content);
    lemma_pieces_nonempty(content);
    assert forall|j: int, k: int| 0 <= j < ls.len() && 0 <= k < ls[j].len() implies #[trigger] ls[j][k] != '\n' by {
        assert(ls[j] == pieces(content)[j]);
    }
    lemma_kept_shape(ls, domain);
    if kept.len() == 0 {
        assert(c2 == seq!['\n']);
        assert(c2.drop_last() =~= Seq::<char>::empty());
        assert(pieces(c2.drop_last()) =~= seq![Seq::<char>::empty()]);
        let l2 = lines(c2);
        assert(l2 =~= seq![Seq::<char>::empty()]);
        assert(trim(l2.last()) =~= Seq::<char>::empty());
        assert(entries_of(l2.drop_last()) =~= Seq::<Seq<char>>::empty());
        assert(entries_of(l2) =~= Seq::<Seq<char>>::empty());
        reveal(Seq::filter);
        assert(kept.filter(entry_pred()) =~= Seq::<Seq<char>>::empty());
    } else {
        lemma_lines_of_concat(kept);
        assert(concat_lines(kept) == concat_lines(kept.drop_last()) + kept.last().push('\n'));
        assert(lines(c2) =~= kept);
        lemma_entries_is_filter(kept);
        assert(trimmed(kept) =~= kept);
    }
}

/// Whether the text `v[a..b]` is `w`.
fn range_equals(v: &Vec<char>, a: usize, b: usize, w: &Vec<char>) -> (eq: bool)
    requires
        a <= b <= v@.len(),
    ensures
        eq == (v@.subrange(a as int, b as int) == w@),
{
    if b - a != w.len() {
        return false;
    }
    let mut k: usize = 0;
    while k < w.len()
        invariant
            a <= b <= v@.len(),
            b - a == w@.len(),
            k <= w@.len(),
            forall|j: int| 0 <= j < k ==> v@[a + j] == w@[j],
        decreases w@.len() - k,
    {
        if v[a + k] != w[k] {
            assert(v@.subrange(a as int, b as int)[k as int] != w@[k as int]);
            return false;
        }
        k = k + 1;
    }
    assert(v@.subrange(a as int, b as int) =~= w@);
    true
}

/// Adds `v[a..b]` and a newline to `out`.
fn push_line(out: &mut String, v: &Vec<char>, a: usize, b: usize)
    requires
        a <= b <= v@.len(),
    ensures
        final(out)@ == old(out)@ + v@.subrange(a as int, b as int).push('\n'),
{
    let mut k: usize = a;
    while k < b
        invariant
            a <= k <= b <= v@.len(),
            out@ == old(out)@ + v@.subrange(a as int, k as int),
        decreases b - k,
    {
        string_push(out, v[k]);
        assert(old(out)@ + v@.subrange(a as int, k + 1) =~= (old(out)@ + v@.subrange(
            a as int,
            k as int,
        )).push(v@[k as int]));
        k = k + 1;
    }
    string_push(out, '\n');
    assert(old(out)@ + v@.subrange(a as int, b as int).push('\n') =~= (old(out)@ + v@.subrange(
        a as int,
        b as int,
    )).push('\n'));
}

/// State of the scan over the lines of the list.
struct Scan {
    out: String,
    kept: usize,
    nonblank: usize,
}

/// Takes the line `v[start..end]` into the scan.
fn scan_line(
    v: &Vec<char>,
    start: usize,
    end: usize,
    dv: &Vec<char>,
    scan: &mut Scan,
    Ghost(done): Ghost<Seq<Seq<char>>>,
)
    requires
        start <= end <= v@.len(),
        old(scan).out@ == concat_lines(kept_lines(done, dv@)),
        old(scan).kept == kept_lines(done, dv@).len(),
        old(scan).nonblank == nonblank_count(done),
        old(scan).kept <= old(scan).nonblank <= done.len() < usize::MAX,
    ensures
        final(scan).out@ == concat_lines(
            kept_lines(done.push(v@.subrange(start as int, end as int)), dv@),
        ),
        final(scan).kept == kept_lines(done.push(v@.subrange(start as int, end as int)), dv@).len(),
        final(scan).nonblank == nonblank_count(done.push(v@.subrange(start as int, end as int))),
        final(scan).kept <= final(scan).nonblank <= done.len() + 1,
{
    let ghost line = v@.subrange(start as int, end as int);
    let ghost ls = done.push(line);
    assert(ls.drop_last() =~= done);
    assert(ls.last() == line);
    let ghost rest = kept_lines(done, dv@);
    let (a, b) = trim_range(v, start, end);
    if a < b {
        scan.nonblank = scan.nonblank + 1;
        if !range_equals(v, a, b, dv) {
            push_line(&mut scan.out, v, a, b);
            scan.kept = scan.kept + 1;
            proof {
                let t = v@.subrange(a as int, b as int);
                assert(rest.push(t).drop_last() =~= rest);
                assert(kept_lines(ls, dv@) == rest.push(t));
            }
        }
    }
}

/// The text of the custom list after taking `domain` out of `content`, or
/// `None` when no line of it is `domain`.
pub fn remove_domain_lines(content: &str, domain: &str) -> (res: Option<String>)
    ensures
        opt_view(res) == removal(content@, domain@),
        res is Some <==> exists|j: int| #[trigger] line_is(lines(content@), j, domain@),
        res is Some ==> trimmed(lines(res->0@)).filter(not_blank()) == trimmed(lines(content@)).filter(
            not_blank_nor(domain@),
        ),
        res is Some ==> domain_entries(res->0@) == domain_entries(content@).filter(
            other_than(domain@),
        ),
{
    let v = chars_of(content);
    let dv = chars_of(domain);
    let bounds = line_bounds(&v);
    let ghost ls = lines(v@);
    let mut scan = Scan { out: String::new(), kept: 0, nonblank: 0 };
    let mut j: usize = 0;
    proof {
        assert(ls.take(0) =~= Seq::<Seq<char>>::empty());
    }
    while j < bounds.len()
        invariant
            ls == lines(v@),
            bounds@.len() == ls.len(),
            forall|k: int|
                0 <= k < bounds@.len() ==> (#[trigger] bounds@[k]).0 <= bounds@[k].1 <= v@.len()
                    && v@.subrange(bounds@[k].0 as int, bounds@[k].1 as int) == ls[k],
            j <= bounds@.len(),
            scan.out@ == concat_lines(kept_lines(ls.take(j as int), dv@)),
            scan.kept == kept_lines(ls.take(j as int), dv@).len(),
            scan.nonblank == nonblank_count(ls.take(j as int)),
            scan.kept <= scan.nonblank <= j,
        decreases bounds@.len() - j,
    {
        let (start, end) = bounds[j];
        scan_line(&v, start, end, &dv, &mut scan, Ghost(ls.take(j as int)));
        proof {
            assert(ls.take(j + 1) =~= ls.take(j as int).push(ls[j as int]));
        }
        j = j + 1;
    }
    proof {
        assert(ls.take(ls.len() as int) =~= ls);
    }
    let res = if scan.kept != scan.nonblank {
        if scan.kept == 0 {
            let mut out = String::new();
            string_push(&mut out, '\n');
            Some(out)
        } else {
            Some(scan.out)
        }
    } else {
        None
    };
    proof {
        lemma_removal_happens_iff(content@, domain@);
        if removal(content@, domain@) is Some {
            lemma_removal_keeps_other_lines(content@, domain@);
            lemma_removal_entries(content@, domain@);
        }
    }
    res
}

/// Lines without newlines, each followed by a newline, split back into
/// those lines and an empty last piece.
proof fn lemma_lines_of_concat(ls: Seq<Seq<char>>)
    requires
        forall|j: int, k: int| 0 <= j < ls.len() && 0 <= k < ls[j].len() ==> #[trigger] ls[j][k] != '\n',
    ensures
        pieces(concat_lines(ls)) == ls.push(Seq::<char>::empty()),
    decreases ls.len(),
{
    if ls.len() == 0 {
    } else {
        let rest = ls.drop_last();
        let w = ls.last();
        lemma_lines_of_concat(rest);
        let a = concat_lines(rest);
        assert forall|k: int| 0 <= k < w.len() implies w[k] != '\n' by {
            assert(ls[ls.len() - 1][k] == w[k]);
        }
        lemma_pieces_append(a, w);
        assert(a + w.push('\n') =~= (a + w).push('\n'));
        lemma_pieces_newline(a + w);
        assert(Seq::<char>::empty() + w =~= w);
        assert(rest.push(Seq::<char>::empty()).update(rest.len() as int, w) =~= ls);
    }
}

/// Lines kept by a removal carry no newline, are trimmed, not blank, and
/// differ from the removed domain.
proof fn lemma_kept_shape(ls: Seq<Seq<char>>, d: Seq<char>)
    requires
        forall|j: int, k: int| 0 <= j < ls.len() && 0 <= k < ls[j].len() ==> #[trigger] ls[j][k] != '\n',
    ensures
        forall|j: int|
            0 <= j < kept_lines(ls, d).len() ==> {
                &&& trim(#[trigger] kept_lines(ls, d)[j]) == kept_lines(ls, d)[j]
                &&& kept_lines(ls, d)[j].len() > 0
                &&& kept_lines(ls, d)[j] != d
            },
        forall|j: int, k: int|
            0 <= j < kept_lines(ls, d).len() && 0 <= k < kept_lines(ls, d)[j].len()
                ==> #[trigger] kept_lines(ls, d)[j][k] != '\n',
    decreases ls.len(),
{
    if ls.len() > 0 {
        let rest = ls.drop_last();
        assert forall|j: int, k: int| 0 <= j < rest.len() && 0 <= k < rest[j].len() implies #[trigger] rest[j][k] != '\n' by {
            assert(rest[j] == ls[j]);
        }
        lemma_kept_shape(rest, d);
        let t = trim(ls.last());
        assert forall|k: int| 0 <= k < ls.last().len() implies ls.last()[k] != '\n' by {
            assert(ls[ls.len() - 1][k] == ls.last()[k]);
        }
        lemma_trim_no_newline(ls.last());
        lemma_trim_idempotent(ls.last());
        let rk = kept_lines(rest, d);
        let kk = kept_lines(ls, d);
        if t.len() > 0 && t != d {
            assert(kk == rk.push(t));
            assert forall|j: int, k: int| 0 <= j < kk.len() && 0 <= k < kk[j].len() implies #[trigger] kk[j][k] != '\n' by {
                if j < rk.len() {
                    assert(kk[j] == rk[j]);
                } else {
                    assert(kk[j] == t);
                }
            }
            assert forall|j: int| 0 <= j < kk.len() implies {
                &&& trim(#[trigger] kk[j]) == kk[j]
                &&& kk[j].len() > 0
                &&& kk[j] != d
            } by {
                if j < rk.len() {
                    assert(kk[j] == rk[j]);
                } else {
                    assert(kk[j] == t);
                }
            }
        } else {
            assert(kk == rk);
        }
    }
}

/// Lines that are all trimmed, not blank and different from `d` are all
/// kept, and all count as not blank.
proof fn lemma_kept_all(ls: Seq<Seq<char>>, d: Seq<char>)
    requires
        forall|j: int|
            0 <= j < ls.len() ==> {
                &&& trim(#[trigger] ls[j]) == ls[j]
                &&& ls[j].len() > 0
                &&& ls[j] != d
            },
    ensures
        kept_lines(ls, d) == ls,
        nonblank_count(ls) == ls.len(),
    decreases ls.len(),
{
    if ls.len() > 0 {
        let rest = ls.drop_last();
        assert forall|j: int| 0 <= j < rest.len() implies {
            &&& trim(#[trigger] rest[j]) == rest[j]
            &&& rest[j].len() > 0
            &&& rest[j] != d
        } by {
            assert(rest[j] == ls[j]);
        }
        lemma_kept_all(rest, d);
        assert(trim(ls.last()) == ls[ls.len() - 1]);
        assert(rest.push(ls.last()) =~= ls);
    }
}

/// Taking a domain out of the custom list twice changes nothing the second
/// time: once a removal has happened, the domain is gone from the text.
pub proof fn lemma_removal_idempotent(content: Seq<char>, domain: Seq<char>)
    requires
        removal(content, domain) is Some,
    ensures
        removal(removal(content, domain)->0, domain) is None,
{
    let ls = lines(content);
    let kept = kept_lines(ls, domain);
    let c2 = joined(kept);
    assert(removal(content, domain)->0 == c2);
    lemma_pieces_no_newline(content);
    lemma_pieces_nonempty(content);
    assert forall|j: int, k: int| 0 <= j < ls.len() && 0 <= k < ls[j].len() implies #[trigger] ls[j][k] != '\n' by {
        assert(ls[j] == pieces(content)[j]);
    }
    lemma_kept_shape(ls, domain);
    if kept.len() == 0 {
        assert(c2 == seq!['\n']);
        assert(c2.drop_last() =~= Seq::<char>::empty());
        assert(pieces(c2.drop_last()) =~= seq![Seq::<char>::empty()]);
        assert(lines(c2) =~= seq![Seq::<char>::empty()]);
        let l2 = lines(c2);
        assert(l2.drop_last() =~= Seq::<Seq<char>>::empty());
        assert(trim(l2.last()) =~= Seq::<char>::empty());
        assert(kept_lines(l2.drop_last(), domain) =~= Seq::<Seq<char>>::empty());
        assert(kept_lines(l2, domain) =~= Seq::<Seq<char>>::empty());
        assert(nonblank_count(l2.drop_last()) == 0);
        assert(nonblank_count(l2) == 0);
    } else {
        lemma_lines_of_concat(kept);
        assert(concat_lines(kept).len() > 0 && concat_lines(kept).last() == '\n') by {
            assert(concat_lines(kept) == concat_lines(kept.drop_last()) + kept.last().push('\n'));
        }
        assert(lines(c2) =~= kept);
        lemma_kept_all(kept, domain);
        assert(kept_lines(lines(c2), domain).len() == nonblank_count(lines(c2)));
    }
}

/// After a removal, the list no longer holds the domain: none of the domains
/// that the new text lists is the removed one.
pub proof fn lemma_removed_domain_absent(content: Seq<char>, domain: Seq<char>)
    requires
        removal(content, domain) is Some,
    ensures
        forall|j: int|
            0 <= j < domain_entries(removal(content, domain)->0).len() ==> #[trigger] domain_entries(
                removal(content, domain)->0,
            )[j] != domain,
{
    let ls = lines(content);
    let kept = kept_lines(ls, domain);
    let c2 = removal(content, domain)->0;
    lemma_pieces_no_newline(content);
    lemma_pieces_nonempty(content);
    assert forall|j: int, k: int| 0 <= j < ls.len() && 0 <= k < ls[j].len() implies #[trigger] ls[j][k] != '\n' by {
        assert(ls[j] == pieces(content)[j]);
    }
    lemma_kept_shape(ls, domain);
    if kept.len() == 0 {
        let l2 = lines(c2);
        assert(c2 == seq!['\n']);
        assert(c2.drop_last() =~= Seq::<char>::empty());
        assert(pieces(c2.drop_last()) =~= seq![Seq::<char>::empty()]);
        assert(l2 =~= seq![Seq::<char>::empty()]);
        assert(trim(l2.last()) =~= Seq::<char>::empty());
        assert(entries_of(l2.drop_last()) =~= Seq::<Seq<char>>::empty());
        assert(entries_of(l2) =~= Seq::<Seq<char>>::empty());
    } else {
        lemma_lines_of_concat(kept);
        assert(concat_lines(kept) == concat_lines(kept.drop_last()) + kept.last().push('\n'));
        assert(lines(c2) =~= kept);
        lemma_entries_from_lines(kept);
        let e = domain_entries(c2);
        assert forall|j: int| 0 <= j < e.len() implies #[trigger] e[j] != domain by {
            let k = choose|k: int| 0 <= k < kept.len() && e[j] == trim(#[trigger] kept[k]);
            assert(trim(kept[k]) == kept[k]);
        }
    }
}

/// The text to append to the custom list to add `domain` as one more line:
/// the domain and a newline, preceded by a newline when the list does not
/// end with one.
pub open spec fn append_text(current: Seq<char>, domain: Seq<char>) -> Seq<char> {
    if current.len() > 0 && current.last() != '\n' {
        seq!['\n'] + domain.push('\n')
    } else {
        domain.push('\n')
    }
}

/// The text to append to a custom list whose text is `current` so that
/// `domain` becomes a line of its own.
pub fn line_to_append(current: &str, domain: &str) -> (s: String)
    ensures
        s@ == append_text(current@, domain@),
{
    let cv = chars_of(current);
    let dv = chars_of(domain);
    let mut s = String::new();
    if cv.len() > 0 && cv[cv.len() - 1] != '\n' {
        string_push(&mut s, '\n');
    }
    let ghost start = s@;
    let mut k: usize = 0;
    while k < dv.len()
        invariant
            k <= dv@.len(),
            s@ == start + dv@.take(k as int),
        decreases dv@.len() - k,
    {
        string_push(&mut s, dv[k]);
        assert(start + dv@.take(k + 1) =~= (start + dv@.take(k as int)).push(dv@[k as int]));
        k = k + 1;
    }
    string_push(&mut s, '\n');
    assert(dv@.take(dv@.len() as int) =~= dv@);
    assert(s@ =~= append_text(cv@, dv@));
    s
}

/// Text that is empty or ends with a newline splits into its lines and an
/// empty last piece.
proof fn lemma_pieces_of_closed(c: Seq<char>)
    requires
        c.len() == 0 || c.last() == '\n',
    ensures
        pieces(c) == lines(c).push(Seq::<char>::empty()),
{
    if c.len() > 0 {
        lemma_pieces_newline(c.drop_last());
        assert(c.drop_last().push('\n') =~= c);
        assert(pieces(c).drop_last().push(Seq::<char>::empty()) =~= pieces(c));
    } else {
        assert(lines(c).push(Seq::<char>::empty()) =~= seq![Seq::<char>::empty()]);
    }
}

/// Appending what `line_to_append` gives adds the trimmed domain as the
/// last entry of the list (when it is an entry at all: not blank, not a
/// comment), and leaves the entries before it as they were.
pub proof fn lemma_append_adds_entry(current: Seq<char>, domain: Seq<char>)
    requires
        forall|k: int| 0 <= k < domain.len() ==> domain[k] != '\n',
    ensures
        domain_entries(current + append_text(current, domain)) == if is_entry(trim(domain)) {
            domain_entries(current).push(trim(domain))
        } else {
            domain_entries(current)
        },
{
    let needs_sep = current.len() > 0 && current.last() != '\n';
    let closed = if needs_sep {
        current.push('\n')
    } else {
        current
    };
    assert(current + append_text(current, domain) =~= (closed + domain).push('\n'));
    if needs_sep {
        lemma_pieces_newline(current);
        assert(lines(closed) =~= lines(current));
    }
    lemma_pieces_of_closed(closed);
    lemma_pieces_append(closed, domain);
    assert(Seq::<char>::empty() + domain =~= domain);
    assert(pieces(closed + domain) =~= lines(closed).push(domain));
    lemma_pieces_newline(closed + domain);
    let all = (closed + domain).push('\n');
    assert(lines(all) =~= lines(closed).push(domain));
    assert(lines(closed).push(domain).drop_last() =~= lines(closed));
}

} // verus!
