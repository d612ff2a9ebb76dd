//! Parsing of blocklist files: one domain per line, with blank lines and
//! `#` comments skipped.

use vstd::prelude::*;
use crate::text::{chars_of, lemma_pieces_nonempty, pieces, lemma_trim_idempotent, line_bounds, lines, string_of_range, trim, trim_range, views};

verus! {

/// Whether a trimmed line is a domain entry: not blank, not a comment.
pub open spec fn is_entry(t: Seq<char>) -> bool {
    t.len() > 0 && t[0] != '#'
}

/// The trimmed entries among `ls`, in order.
pub open spec fn entries_of(ls: Seq<Seq<char>>) -> Seq<Seq<char>>
    decreases ls.len(),
{
    if ls.len() == 0 {
        Seq::empty()
    } else {
        let rest = entries_of(ls.drop_last());
        let t = trim(ls.last());
        if is_entry(t) {
            rest.push(t)
        } else {
            rest
        }
    }
}

/// The domains that a blocklist file with text `content` lists.
pub open spec fn domain_entries(content: Seq<char>) -> Seq<Seq<char>> {
    entries_of(lines(content))
}

/// Each entry is the trimmed text of one of the lines, and is an entry: not
/// blank and not a comment.
pub proof fn lemma_entries_from_lines(ls: Seq<Seq<char>>)
    ensures
        forall|j: int|
            0 <= j < entries_of(ls).len() ==> is_entry(#[trigger] entries_of(ls)[j]) && exists|k: int|
                0 <= k < ls.len() && entries_of(ls)[j] == trim(#[trigger] ls[k]),
    decreases ls.len(),
{
    if ls.len() > 0 {
        let rest = ls.drop_last();
        lemma_entries_from_lines(rest);
        let e = entries_of(ls);
        let re = entries_of(rest);
        assert forall|j: int| 0 <= j < e.len() implies is_entry(#[trigger] e[j]) && exists|k: int|
            0 <= k < ls.len() && e[j] == trim(#[trigger] ls[k]) by {
            if j < re.len() {
                assert(e[j] == re[j]);
                let k = choose|k: int| 0 <= k < rest.len() && re[j] == trim(#[trigger] rest[k]);
                assert(rest[k] == ls[k]);
            } else {
                assert(e[j] == trim(ls[ls.len() - 1]));
            }
        }
    }
}

/// Every domain that a list yields is a clean entry: trimmed, not blank, and
/// not a comment.
pub proof fn lemma_domain_entries_clean(content: Seq<char>)
    ensures
        forall|j: int|
            0 <= j < domain_entries(content).len() ==> is_entry(#[trigger] domain_entries(content)[j])
                && trim(domain_entries(content)[j]) == domain_entries(content)[j],
{
    let ls = lines(content);
    lemma_entries_from_lines(ls);
    assert forall|j: int| 0 <= j < entries_of(ls).len() implies is_entry(#[trigger] entries_of(ls)[j])
        && trim(entries_of(ls)[j]) == entries_of(ls)[j] by {
        let k = choose|k: int| 0 <= k < ls.len() && entries_of(ls)[j] == trim(#[trigger] ls[k]);
        lemma_trim_idempotent(ls[k]);
    }
}

/// A final newline changes nothing: the last line of a list counts whether
/// or not a newline ends it.
pub proof fn lemma_final_newline_irrelevant(content: Seq<char>)
    ensures
        domain_entries(content.push('\n')) == domain_entries(content),
{
    let c2 = content.push('\n');
    assert(c2.drop_last() =~= content);
    if content.len() == 0 || content.last() == '\n' {
        lemma_pieces_nonempty(content);
        if content.len() > 0 {
            assert(content.drop_last().push('\n') =~= content);
            assert(pieces(content).last() == Seq::<char>::empty());
            assert(pieces(content).drop_last().push(Seq::<char>::empty()) =~= pieces(content));
        } else {
            assert(pieces(content) =~= seq![Seq::<char>::empty()]);
        }
        assert(lines(c2) =~= lines(content).push(Seq::<char>::empty()));
        assert(lines(content).push(Seq::<char>::empty()).drop_last() =~= lines(content));
        assert(trim(Seq::<char>::empty()) =~= Seq::<char>::empty());
    } else {
        assert(lines(c2) =~= lines(content));
    }
}

/// Adds the entry of the line `v[start..end]`, if it is one, to `res`.
fn push_entry(v: &Vec<char>, start: usize, end: usize, res: &mut Vec<String>, Ghost(done): Ghost<Seq<Seq<char>>>)
    requires
        start <= end <= v@.len(),
        views(old(res)@) == entries_of(done),
    ensures
        views(final(res)@) == entries_of(done.push(v@.subrange(start as int, end as int))),
{
    let (a, b) = trim_range(v, start, end);
    let ghost line = v@.subrange(start as int, end as int);
    assert(done.push(line).drop_last() =~= done);
    if a < b && v[a] != '#' {
        let s = string_of_range(v, a, b);
        res.push(s);
        assert(views(res@) =~= views(old(res)@).push(s@));
    }
}

/// The domains listed in the text of a blocklist file: each line trimmed,
/// blank lines and lines that start with `#` left out.
pub fn parse_domains(content: &str) -> (res: Vec<String>)
    ensures
        views(res@) == domain_entries(content@),
{
    let v = chars_of(content);
    let bounds = line_bounds(&v);
    let ghost ls = lines(v@);
    let mut res: Vec<String> = Vec::new();
    let mut j: usize = 0;
    proof {
        assert(views(res@) =~= Seq::<Seq<char>>::empty());
        assert(ls.take(0) =~= Seq::<Seq<char>>::empty());
    }
    while j < bounds.len()
        invariant
            ls == lines(v@),
            bounds@.len() == ls.len(),
            forall|k: int|
                0 <= k < bounds@.len() ==> (#[trigger] bounds@[k]).0 <= bounds@[k].1 <= v@.len()
                    && v@.subrange(bounds@[k].0 as int, bounds@[k].1 as int) == ls[k],
            j <= bounds@.len(),
            views(res@) == entries_of(ls.take(j as int)),
        decreases bounds@.len() - j,
    {
        let (start, end) = bounds[j];
        push_entry(&v, start, end, &mut res, Ghost(ls.take(j as int)));
        proof {
            assert(ls.take(j + 1) =~= ls.take(j as int).push(ls[j as int]));
        }
        j = j + 1;
    }
    proof {
        assert(ls.take(ls.len() as int) =~= ls);
    }
    res
}

/// The entries of several list texts, one list after the other.
pub open spec fn all_entries(texts: Seq<Seq<char>>) -> Seq<Seq<char>>
    decreases texts.len(),
{
    if texts.len() == 0 {
        Seq::empty()
    } else {
        all_entries(texts.drop_last()) + domain_entries(texts.last())
    }
}

/// The domains of several list texts, one list after the other.
pub fn merge_domains(texts: &Vec<String>) -> (res: Vec<String>)
    ensures
        views(res@) == all_entries(views(texts@)),
{
    let mut res: Vec<String> = Vec::new();
    let mut k: usize = 0;
    while k < texts.len()
        invariant
            k <= texts@.len(),
            views(res@) == all_entries(views(texts@).take(k as int)),
        decreases texts@.len() - k,
    {
        let mut parsed = parse_domains(texts[k].as_str());
        let ghost before = res@;
        let ghost pv = parsed@;
        res.append(&mut parsed);
        proof {
            let vt = views(texts@);
            assert(vt.take(k + 1).drop_last() =~= vt.take(k as int));
            assert(vt.take(k + 1).last() == texts@[k as int]@);
            assert(views(before + pv) =~= views(before) + views(pv));
        }
        k = k + 1;
    }
    proof {
        assert(views(texts@).take(texts@.len() as int) =~= views(texts@));
    }
    res
}

} // verus!
