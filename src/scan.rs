//! What a scan prints, as a function of the entries that the walk yields.
use vstd::prelude::*;
use crate::filter::{accepted, extension_requested, fold_all, lemma_accepted_iff_requested};

verus! {

/// The lines that a scan prints, in the order of the walk: the path of each
/// entry that could be read (`Some`) and that a filter holding `folded`
/// accepts. An entry that failed (`None`) is left out.
pub open spec fn scan_output(entries: Seq<Option<Seq<char>>>, folded: Seq<Seq<char>>) -> Seq<
    Seq<char>,
>
    decreases entries.len(),
{
    if entries.len() == 0 {
        Seq::empty()
    } else {
        let rest = scan_output(entries.drop_last(), folded);
        match entries.last() {
            Some(p) => if accepted(p, folded) {
                rest.push(p)
            } else {
                rest
            },
            None => rest,
        }
    }
}

proof fn lemma_scan_output_members(entries: Seq<Option<Seq<char>>>, folded: Seq<Seq<char>>, p: Seq<char>)
    ensures
        scan_output(entries, folded).contains(p) <==> (entries.contains(Some(p)) && accepted(
            p,
            folded,
        )),
    decreases entries.len(),
{
    if entries.len() > 0 {
        let init = entries.drop_last();
        lemma_scan_output_members(init, folded, p);
        assert(entries =~= init.push(entries.last()));
        if init.contains(Some(p)) {
            let k = choose|k: int| 0 <= k < init.len() && init[k] == Some(p);
            assert(entries[k] == Some(p));
        }
        if entries.contains(Some(p)) {
            let k = choose|k: int| 0 <= k < entries.len() && entries[k] == Some(p);
            if k < init.len() {
                assert(init[k] == Some(p));
            }
        }
        let rest = scan_output(init, folded);
        if rest.contains(p) {
            let k = choose|k: int| 0 <= k < rest.len() && rest[k] == p;
            assert(rest.push(entries.last().unwrap_or(p))[k] == p);
        }
        match entries.last() {
            Some(q) => if accepted(q, folded) {
                assert(rest.push(q)[rest.len() as int] == q);
                if rest.push(q).contains(p) && p != q {
                    let k = choose|k: int| 0 <= k < rest.len() + 1 && rest.push(q)[k] == p;
                    assert(rest[k] == p);
                }
            },
            None => {},
        }
    }
}

/// A scan prints a path exactly when the walk read an entry with that path
/// and its extension equals one of the requested extensions, ignoring case.
pub proof fn lemma_scan_prints_requested(
    entries: Seq<Option<Seq<char>>>,
    requested: Seq<Seq<char>>,
    p: Seq<char>,
)
    ensures
        scan_output(entries, fold_all(requested)).contains(p) <==> (entries.contains(Some(p))
            && extension_requested(p, requested)),
{
    lemma_scan_output_members(entries, fold_all(requested), p);
    lemma_accepted_iff_requested(p, requested);
}

/// Two scans over the same entries, in whatever order the walk yields them,
/// print the same set of paths.
pub proof fn lemma_scan_repeatable(
    first: Seq<Option<Seq<char>>>,
    second: Seq<Option<Seq<char>>>,
    requested: Seq<Seq<char>>,
)
    requires
        first.to_set() == second.to_set(),
    ensures
        scan_output(first, fold_all(requested)).to_set() == scan_output(
            second,
            fold_all(requested),
        ).to_set(),
{
    let folded = fold_all(requested);
    assert forall|p: Seq<char>|
        scan_output(first, folded).to_set().contains(p) == scan_output(
            second,
            folded,
        ).to_set().contains(p) by {
        lemma_scan_output_members(first, folded, p);
        lemma_scan_output_members(second, folded, p);
        assert(first.to_set().contains(Some(p)) == first.contains(Some(p)));
        assert(second.to_set().contains(Some(p)) == second.contains(Some(p)));
        assert(first.to_set().contains(Some(p)) == second.to_set().contains(Some(p)));
        assert(scan_output(first, folded).to_set().contains(p) == scan_output(first, folded).contains(p));
        assert(scan_output(second, folded).to_set().contains(p) == scan_output(second, folded).contains(p));
    }
    assert(scan_output(first, folded).to_set() =~= scan_output(second, folded).to_set());
}

/// A scan in which no entry read has a requested extension prints nothing.
pub proof fn lemma_scan_without_match_is_silent(
    entries: Seq<Option<Seq<char>>>,
    requested: Seq<Seq<char>>,
)
    requires
        forall|p: Seq<char>| entries.contains(Some(p)) ==> !extension_requested(p, requested),
    ensures
        scan_output(entries, fold_all(requested)).len() == 0,
{
    let out = scan_output(entries, fold_all(requested));
    if out.len() > 0 {
        let p = out[0];
        assert(out.contains(p));
        lemma_scan_prints_requested(entries, requested, p);
    }
}

} // verus!
