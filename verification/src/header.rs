//! The header reconciler: pairwise-compares the reference catalogues of all
//! inputs and either yields the merged header (the first input's header plus
//! one provenance line) or fails with per-pair discrepancy diagnostics.

use vstd::prelude::*;
use vstd::string::StringExecFns;

use crate::diff::count_discrepancies;
use crate::diff::names_view;

verus! {

/// A record-file header: the reference catalogue (names with their lengths)
/// and the free-text header lines.
pub struct Header {
    pub ref_names: Vec<String>,
    pub ref_lens: Vec<u32>,
    pub lines: Vec<String>,
}

impl Header {
    /// Every reference name has a length, and the catalogue fits in memory.
    pub open spec fn wf(&self) -> bool {
        &&& self.ref_names@.len() == self.ref_lens@.len()
        &&& self.ref_names@.len() < usize::MAX
    }

    /// The ordered reference-name sequence that compatibility is judged by.
    pub open spec fn catalogue(&self) -> Seq<Seq<char>> {
        names_view(self.ref_names@)
    }
}

/// The discrepancy-span count found between one pair of inputs.
pub struct PairDiscrepancy {
    pub left: usize,
    pub right: usize,
    pub count: usize,
}

/// Reconciliation failure: the inputs disagree on their reference
/// catalogues; the per-pair counts say where.
pub struct IncompatibleHeaders {
    pub reports: Vec<PairDiscrepancy>,
}

/// All inputs carry the same reference-name sequence.
pub open spec fn pairwise_compatible(hs: Seq<Header>) -> bool {
    forall|i: int, j: int|
        0 <= i < j < hs.len() ==> (#[trigger] hs[i]).catalogue() == (#[trigger] hs[j]).catalogue()
}

/// Each report names a pair in order, and its count is zero exactly when
/// that pair's catalogues are equal.
pub open spec fn reports_wf(reps: Seq<PairDiscrepancy>, hs: Seq<Header>) -> bool {
    forall|k: int|
        0 <= k < reps.len() ==> {
            let rep = #[trigger] reps[k];
            &&& (rep.left as int) < (rep.right as int)
            &&& (rep.right as int) < hs.len()
            &&& ((rep.count == 0) <==> hs[rep.left as int].catalogue()
                == hs[rep.right as int].catalogue())
        }
}

/// The reports stand in lexicographic pair order.
pub open spec fn reports_sorted(reps: Seq<PairDiscrepancy>) -> bool {
    forall|k1: int, k2: int|
        0 <= k1 < k2 < reps.len() ==> ((#[trigger] reps[k1]).left < (#[trigger] reps[k2]).left || (
        reps[k1].left == reps[k2].left && reps[k1].right < reps[k2].right))
}

/// Some report speaks of the pair `(i, j)`.
pub open spec fn has_report(reps: Seq<PairDiscrepancy>, i: int, j: int) -> bool {
    exists|k: int| 0 <= k < reps.len() && (#[trigger] reps[k]).left == i && reps[k].right == j
}

/// Every unordered pair of distinct inputs has a report.
pub open spec fn reports_complete(reps: Seq<PairDiscrepancy>, hs: Seq<Header>) -> bool {
    forall|i: int, j: int| 0 <= i < j < hs.len() ==> #[trigger] has_report(reps, i, j)
}

/// The input paths joined with a comma and a space.
pub open spec fn joined_paths(paths: Seq<Seq<char>>) -> Seq<char>
    decreases paths.len(),
{
    if paths.len() == 0 {
        Seq::empty()
    } else if paths.len() == 1 {
        paths[0]
    } else {
        joined_paths(paths.drop_last()) + ", "@ + paths.last()
    }
}

/// The fixed text that opens the provenance line.
pub open spec fn prov_prefix() -> Seq<char> {
    "@CO\tmergebams has included the BAM records from the following files (using the header from the first): "@
}

/// The whole provenance line: the fixed text, then every input path in
/// order, comma-joined.
pub open spec fn prov_line(paths: Seq<Seq<char>>) -> Seq<char> {
    prov_prefix() + joined_paths(paths)
}

/// Build the provenance line for the given input paths.
pub fn make_provenance_line(paths: &Vec<String>) -> (r: String)
    ensures
        r@ == prov_line(names_view(paths@)),
{
    let mut s: String = String::new();
    s.append(
        "@CO\tmergebams has included the BAM records from the following files (using the header from the first): ",
    );
    proof {
        let pv = names_view(paths@);
        assert(s@ =~= prov_prefix() + joined_paths(pv.take(0)));
    }
    let mut i: usize = 0;
    while i < paths.len()
        invariant
            i <= paths@.len(),
            s@ == prov_prefix() + joined_paths(names_view(paths@).take(i as int)),
        decreases paths@.len() - i,
    {
        if i > 0 {
            s.append(", ");
        }
        s.append(paths[i].as_str());
        proof {
            let pv = names_view(paths@);
            assert(pv[i as int] == paths@[i as int]@);
            assert(pv.take(i + 1).drop_last() =~= pv.take(i as int));
            assert(pv.take(i + 1).last() == pv[i as int]);
            if i == 0 {
                assert(joined_paths(pv.take(1)) == pv.take(1)[0]);
                assert(s@ =~= prov_prefix() + joined_paths(pv.take(1)));
            } else {
                assert(joined_paths(pv.take(i + 1)) == joined_paths(pv.take(i as int)) + ", "@
                    + pv[i as int]);
                assert(s@ =~= prov_prefix() + joined_paths(pv.take(i + 1)));
            }
        }
        i = i + 1;
    }
    proof {
        assert(names_view(paths@).take(paths@.len() as int) =~= names_view(paths@));
    }
    s
}

fn clone_strings(v: &Vec<String>) -> (r: Vec<String>)
    ensures
        r@ == v@,
{
    let mut r: Vec<String> = Vec::new();
    let mut i: usize = 0;
    while i < v.len()
        invariant
            i <= v@.len(),
            r@ =~= v@.take(i as int),
        decreases v@.len() - i,
    {
        r.push(v[i].clone());
        i = i + 1;
    }
    proof {
        assert(v@.take(v@.len() as int) =~= v@);
    }
    r
}

fn clone_u32s(v: &Vec<u32>) -> (r: Vec<u32>)
    ensures
        r@ == v@,
{
    let mut r: Vec<u32> = Vec::new();
    let mut i: usize = 0;
    while i < v.len()
        invariant
            i <= v@.len(),
            r@ =~= v@.take(i as int),
        decreases v@.len() - i,
    {
        r.push(v[i]);
        i = i + 1;
    }
    proof {
        assert(v@.take(v@.len() as int) =~= v@);
    }
    r
}

/// The merged header: the first input's header with one appended provenance
/// line naming every input path in order.
pub fn make_new_header(first: &Header, paths: &Vec<String>) -> (h: Header)
    ensures
        h.ref_names@ == first.ref_names@,
        h.ref_lens@ == first.ref_lens@,
        names_view(h.lines@) == names_view(first.lines@) + seq![
            prov_line(names_view(paths@)),
        ],
{
    let mut lines = clone_strings(&first.lines);
    lines.push(make_provenance_line(paths));
    let h = Header {
        ref_names: clone_strings(&first.ref_names),
        ref_lens: clone_u32s(&first.ref_lens),
        lines,
    };
    proof {
        assert(names_view(h.lines@) =~= names_view(first.lines@) + seq![
            prov_line(names_view(paths@)),
        ]);
    }
    h
}

/// Reconcile the headers of all inputs.
///
/// Every unordered pair of distinct inputs is compared; a pair's discrepancy
/// count is zero exactly when the two reference-name sequences are equal.
/// When no pair disagrees, the run succeeds with the merged header and the
/// per-pair reports; when any pair disagrees, it fails, carrying the same
/// reports as diagnostics.
#[verifier::rlimit(80)]
pub fn checkheaders(headers: &Vec<Header>, paths: &Vec<String>) -> (r: Result<
    (Header, Vec<PairDiscrepancy>),
    IncompatibleHeaders,
>)
    requires
        headers@.len() >= 1,
        forall|k: int| 0 <= k < headers@.len() ==> (#[trigger] headers@[k]).wf(),
    ensures
        r is Ok <==> pairwise_compatible(headers@),
        r matches Ok(v) ==> {
            &&& v.0.ref_names@ == headers@[0].ref_names@
            &&& v.0.ref_lens@ == headers@[0].ref_lens@
            &&& names_view(v.0.lines@) == names_view(headers@[0].lines@) + seq![
                prov_line(names_view(paths@)),
            ]
            &&& reports_wf(v.1@, headers@)
            &&& reports_sorted(v.1@)
            &&& reports_complete(v.1@, headers@)
        },
        r matches Err(e) ==> {
            &&& reports_wf(e.reports@, headers@)
            &&& reports_sorted(e.reports@)
            &&& reports_complete(e.reports@, headers@)
        },
{
    let n = headers.len();
    let mut reps: Vec<PairDiscrepancy> = Vec::new();
    let mut all_ok = true;
    let mut i: usize = 0;
    while i < n
        invariant
            n == headers@.len(),
            forall|k: int| 0 <= k < n ==> (#[trigger] headers@[k]).wf(),
            i <= n,
            reports_wf(reps@, headers@),
            reports_sorted(reps@),
            forall|k: int| 0 <= k < reps@.len() ==> (#[trigger] reps@[k]).left < i,
            forall|i0: int, j0: int|
                0 <= i0 < j0 < n && i0 < i ==> #[trigger] has_report(reps@, i0, j0),
            all_ok <==> (forall|i0: int, j0: int|
                0 <= i0 < j0 < n && i0 < i ==> (#[trigger] headers@[i0]).catalogue() == (
                #[trigger] headers@[j0]).catalogue()),
        decreases n - i,
    {
        let mut j = i + 1;
        while j < n
            invariant
                n == headers@.len(),
                forall|k: int| 0 <= k < n ==> (#[trigger] headers@[k]).wf(),
                i < n,
                i + 1 <= j <= n,
                reports_wf(reps@, headers@),
                reports_sorted(reps@),
                forall|k: int|
                    0 <= k < reps@.len() ==> ((#[trigger] reps@[k]).left < i || (reps@[k].left == i
                        && reps@[k].right < j)),
                forall|i0: int, j0: int|
                    0 <= i0 < j0 < n && (i0 < i || (i0 == i && j0 < j)) ==> #[trigger] has_report(
                        reps@,
                        i0,
                        j0,
                    ),
                all_ok <==> (forall|i0: int, j0: int|
                    0 <= i0 < j0 < n && (i0 < i || (i0 == i && j0 < j)) ==> (
                    #[trigger] headers@[i0]).catalogue() == (#[trigger] headers@[j0]).catalogue()),
            decreases n - j,
        {
            let c = count_discrepancies(&headers[i].ref_names, &headers[j].ref_names);
            if c != 0 {
                all_ok = false;
            }
            let ghost reps0 = reps@;
            reps.push(PairDiscrepancy { left: i, right: j, count: c });
            proof {
                assert(reps@ =~= reps0.push(PairDiscrepancy { left: i, right: j, count: c }));
                assert(forall|k: int| 0 <= k < reps0.len() ==> reps@[k] == reps0[k]);
                assert(reps@[reps0.len() as int].left == i && reps@[reps0.len() as int].right == j
                    && reps@[reps0.len() as int].count == c);
                assert forall|i0: int, j0: int|
                    0 <= i0 < j0 < n && (i0 < i || (i0 == i && j0 < j + 1)) implies #[trigger] has_report(
                    reps@,
                    i0,
                    j0,
                ) by {
                    if i0 == i && j0 == j {
                        assert(reps@[reps0.len() as int].left == i0 && reps@[reps0.len() as int].right
                            == j0);
                    } else {
                        assert(has_report(reps0, i0, j0));
                        let k = choose|k: int|
                            0 <= k < reps0.len() && (#[trigger] reps0[k]).left == i0
                                && reps0[k].right == j0;
                        assert(reps@[k].left == i0 && reps@[k].right == j0);
                    }
                }
            }
            j = j + 1;
        }
        i = i + 1;
    }
    if all_ok {
        let h = make_new_header(&headers[0], paths);
        Ok((h, reps))
    } else {
        Err(IncompatibleHeaders { reports: reps })
    }
}

} // verus!
