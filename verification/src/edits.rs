//! The edits of a rename: the locations that the compiler gives for renaming a symbol,
//! grouped by the document they are in, each document once, with its ranges in order.

use vstd::prelude::*;
use crate::compiler::types::Range;
use crate::dependency::{StringTable, seq_intern, distinct, lemma_seq_intern, lemma_seq_find};

verus! {

/// The mathematical form of rename locations: the document's URI and the range in it.
pub open spec fn locations_view(v: Seq<(String, Range)>) -> Seq<(Seq<char>, Range)> {
    v.map_values(|l: (String, Range)| (l.0@, l.1))
}

/// The documents of `locs`, each once, in the order in which they first occur.
pub open spec fn spec_documents(locs: Seq<(Seq<char>, Range)>) -> Seq<Seq<char>>
    decreases locs.len(),
{
    if locs.len() == 0 {
        Seq::empty()
    } else {
        seq_intern(spec_documents(locs.drop_last()), locs.last().0)
    }
}

/// The ranges of the locations of `locs` in the document `u`, in their order.
pub open spec fn spec_ranges_in(locs: Seq<(Seq<char>, Range)>, u: Seq<char>) -> Seq<Range>
    decreases locs.len(),
{
    if locs.len() == 0 {
        Seq::empty()
    } else {
        spec_ranges_in(locs.drop_last(), u) + (if locs.last().0 == u { seq![locs.last().1] } else { Seq::empty() })
    }
}

/// The documents of a list of locations occur once each, and every location's document is
/// among them.
proof fn lemma_documents(locs: Seq<(Seq<char>, Range)>)
    ensures
        distinct(spec_documents(locs)),
        forall|i: int| 0 <= i < locs.len() ==> spec_documents(locs).contains(#[trigger] locs[i].0),
        forall|k: int| 0 <= k < spec_documents(locs).len() ==> exists|i: int| 0 <= i < locs.len() && locs[i].0 == #[trigger] spec_documents(locs)[k],
    decreases locs.len(),
{
    if locs.len() > 0 {
        let init = locs.drop_last();
        lemma_documents(init);
        let d = spec_documents(init);
        let x = locs.last().0;
        lemma_seq_intern(d, x);
        lemma_seq_find(spec_documents(locs), x);
        assert forall|i: int| 0 <= i < locs.len() implies spec_documents(locs).contains(#[trigger] locs[i].0) by {
            if i < locs.len() - 1 {
                assert(init[i] == locs[i]);
                let k = choose|k: int| 0 <= k < d.len() && d[k] == init[i].0;
                assert(spec_documents(locs)[k] == d[k]);
            }
        }
        assert forall|k: int| 0 <= k < spec_documents(locs).len() implies exists|i: int| 0 <= i < locs.len() && locs[i].0 == #[trigger] spec_documents(locs)[k] by {
            if k < d.len() {
                let i = choose|i: int| 0 <= i < init.len() && init[i].0 == d[k];
                assert(locs[i] == init[i]);
            } else {
                assert(locs[locs.len() - 1].0 == x);
            }
        }
        if !d.contains(x) {
            assert(spec_documents(locs) == d.push(x));
        }
    }
}

/// Groups the locations of a rename by document: each document once, in the order in which
/// it first occurs among `locations`, with the ranges of its locations in their order.
pub fn rename_edits(locations: &Vec<(String, Range)>) -> (r: Vec<(String, Vec<Range>)>)
    ensures
        r@.len() == spec_documents(locations_view(locations@)).len(),
        forall|k: int| 0 <= k < r@.len() ==> (#[trigger] r@[k]).0@ == spec_documents(locations_view(locations@))[k]
            && r@[k].1@ == spec_ranges_in(locations_view(locations@), r@[k].0@),
        forall|k: int, q: int| 0 <= k < r@.len() && 0 <= q < r@.len() && k != q ==> (#[trigger] r@[k]).0@ != (#[trigger] r@[q]).0@,
        forall|i: int| 0 <= i < locations@.len() ==> exists|k: int| 0 <= k < r@.len() && (#[trigger] r@[k]).0@ == (#[trigger] locations@[i]).0@,
{
    let ghost locs = locations_view(locations@);
    proof {
        lemma_documents(locs);
    }
    let mut documents = StringTable::new();
    let mut i: usize = 0;
    proof {
        assert(locs.take(0) =~= Seq::<(Seq<char>, Range)>::empty());
    }
    while i < locations.len()
        invariant
            i <= locations@.len(),
            locs == locations_view(locations@),
            documents.view_seq() == spec_documents(locs.take(i as int)),
        decreases locations@.len() - i,
    {
        documents.intern(locations[i].0.as_str());
        proof {
            assert(locs.take(i as int + 1).drop_last() =~= locs.take(i as int));
            assert(locs.take(i as int + 1).last() == locs[i as int]);
        }
        i = i + 1;
    }
    proof {
        assert(locs.take(i as int) =~= locs);
    }
    let n = documents.items.len();
    let mut r: Vec<(String, Vec<Range>)> = Vec::new();
    let mut k: usize = 0;
    while k < n
        invariant
            n == documents.view_seq().len(),
            documents.view_seq() == spec_documents(locs),
            locs == locations_view(locations@),
            k <= n,
            r@.len() == k,
            forall|q: int| 0 <= q < k ==> (#[trigger] r@[q]).0@ == spec_documents(locs)[q]
                && r@[q].1@ == spec_ranges_in(locs, r@[q].0@),
        decreases n - k,
    {
        let u = documents.get(k);
        let mut ranges: Vec<Range> = Vec::new();
        let mut j: usize = 0;
        proof {
            assert(locs.take(0) =~= Seq::<(Seq<char>, Range)>::empty());
        }
        while j < locations.len()
            invariant
                j <= locations@.len(),
                locs == locations_view(locations@),
                ranges@ == spec_ranges_in(locs.take(j as int), u@),
            decreases locations@.len() - j,
        {
            let ghost before = ranges@;
            if locations[j].0 == *u {
                ranges.push(locations[j].1);
            }
            proof {
                let t = locs.take(j as int + 1);
                assert(t.drop_last() =~= locs.take(j as int));
                assert(t.last() == locs[j as int]);
                assert(locs[j as int] == (locations@[j as int].0@, locations@[j as int].1));
                if locs[j as int].0 == u@ {
                    assert(ranges@ =~= before + seq![locs[j as int].1]);
                } else {
                    assert(ranges@ =~= before + Seq::<Range>::empty());
                }
            }
            j = j + 1;
        }
        proof {
            assert(locs.take(j as int) =~= locs);
        }
        r.push((u.clone(), ranges));
        k = k + 1;
    }
    proof {
        assert forall|i: int| 0 <= i < locations@.len() implies exists|k: int| 0 <= k < r@.len() && (#[trigger] r@[k]).0@ == (#[trigger] locations@[i]).0@ by {
            assert(locs[i].0 == locations@[i].0@);
            let k = choose|k: int| 0 <= k < spec_documents(locs).len() && spec_documents(locs)[k] == locs[i].0;
            assert(r@[k].0@ == locations@[i].0@);
        }
    }
    r
}

} // verus!
