//! Sequence-alignment diff between two reference-name catalogues.
//!
//! Two catalogues are aligned with a longest-common-subsequence diff; every
//! maximal contiguous run of non-matching elements counts as one discrepancy
//! span. The count is zero exactly when the two catalogues are equal as
//! ordered sequences; the non-zero counts themselves are advisory
//! diagnostics.

use vstd::prelude::*;

verus! {

/// The name sequences of a catalogue, element by element.
pub open spec fn names_view(v: Seq<String>) -> Seq<Seq<char>> {
    v.map_values(|s: String| s@)
}

fn string_eq(x: &String, y: &String) -> (r: bool)
    ensures
        r == (x@ == y@),
{
    x.eq(y)
}

/// Whether two catalogues hold the same names in the same order.
pub fn names_equal(a: &Vec<String>, b: &Vec<String>) -> (r: bool)
    ensures
        r == (names_view(a@) == names_view(b@)),
{
    if a.len() != b.len() {
        proof {
            assert(names_view(a@).len() != names_view(b@).len());
        }
        return false;
    }
    let mut k: usize = 0;
    while k < a.len()
        invariant
            a@.len() == b@.len(),
            k <= a@.len(),
            forall|p: int| 0 <= p < k ==> a@[p]@ == b@[p]@,
        decreases a@.len() - k,
    {
        if !string_eq(&a[k], &b[k]) {
            proof {
                assert(names_view(a@)[k as int] == a@[k as int]@);
                assert(names_view(b@)[k as int] == b@[k as int]@);
            }
            return false;
        }
        k = k + 1;
    }
    proof {
        assert(names_view(a@) =~= names_view(b@));
    }
    true
}

/// Well-formedness of a longest-common-subsequence length table for
/// sequences of length `n` and `m`.
spec fn table_wf(t: Seq<Vec<usize>>, n: int, m: int) -> bool {
    &&& t.len() == n + 1
    &&& forall|i: int| 0 <= i <= n ==> (#[trigger] t[i])@.len() == m + 1
    &&& forall|i: int, j: int|
        0 <= i <= n && 0 <= j <= m ==> (#[trigger] t[i]@[j]) as int <= i
}

/// Fill the longest-common-subsequence length table for `a` and `b`.
fn lcs_table(a: &Vec<String>, b: &Vec<String>) -> (t: Vec<Vec<usize>>)
    requires
        a@.len() < usize::MAX,
        b@.len() < usize::MAX,
    ensures
        table_wf(t@, a@.len() as int, b@.len() as int),
{
    let n = a.len();
    let m = b.len();
    let mut t: Vec<Vec<usize>> = Vec::new();
    let mut row0: Vec<usize> = Vec::new();
    let mut j0: usize = 0;
    while j0 <= m
        invariant
            m < usize::MAX,
            j0 <= m + 1,
            row0@.len() == j0,
            forall|j: int| 0 <= j < j0 ==> (#[trigger] row0@[j]) == 0,
        decreases m + 1 - j0,
    {
        row0.push(0);
        j0 = j0 + 1;
    }
    t.push(row0);
    let mut i: usize = 1;
    while i <= n
        invariant
            n < usize::MAX,
            m < usize::MAX,
            n == a@.len(),
            m == b@.len(),
            1 <= i <= n + 1,
            t@.len() == i,
            forall|p: int| 0 <= p < i ==> (#[trigger] t@[p])@.len() == m + 1,
            forall|p: int, j: int|
                0 <= p < i && 0 <= j <= m ==> (#[trigger] t@[p]@[j]) as int <= p,
        decreases n + 1 - i,
    {
        let mut row: Vec<usize> = Vec::new();
        row.push(0);
        let mut j: usize = 1;
        while j <= m
            invariant
                n < usize::MAX,
                m < usize::MAX,
                n == a@.len(),
                m == b@.len(),
                1 <= i <= n,
                1 <= j <= m + 1,
                t@.len() == i,
                forall|p: int| 0 <= p < i ==> (#[trigger] t@[p])@.len() == m + 1,
                forall|p: int, q: int|
                    0 <= p < i && 0 <= q <= m ==> (#[trigger] t@[p]@[q]) as int <= p,
                row@.len() == j,
                forall|q: int| 0 <= q < j ==> (#[trigger] row@[q]) as int <= i,
            decreases m + 1 - j,
        {
            let up_left = t[i - 1][j - 1];
            let up = t[i - 1][j];
            let left = row[j - 1];
            let v: usize = if string_eq(&a[i - 1], &b[j - 1]) {
                up_left + 1
            } else if up >= left {
                up
            } else {
                left
            };
            row.push(v);
            j = j + 1;
        }
        t.push(row);
        i = i + 1;
    }
    t
}

/// Count the discrepancy spans between two catalogues: walk the alignment
/// that the length table induces, from the ends of both sequences back to
/// their starts, and count every maximal run of non-matching steps once.
///
/// The count is zero exactly when the catalogues hold the same names in the
/// same order.
pub fn count_discrepancies(a: &Vec<String>, b: &Vec<String>) -> (r: usize)
    requires
        a@.len() < usize::MAX,
        b@.len() < usize::MAX,
    ensures
        (r == 0) == (names_view(a@) == names_view(b@)),
        r as int <= a@.len() + 1,
        r as int <= b@.len() + 1,
{
    if names_equal(a, b) {
        return 0;
    }
    let n = a.len();
    let m = b.len();
    let t = lcs_table(a, b);
    let mut i = n;
    let mut j = m;
    let mut count: usize = 0;
    let mut in_gap = false;
    let ghost mut matched: int = 0;
    proof {
        assert(names_view(a@).subrange(n as int, n as int) =~= names_view(b@).subrange(
            m as int,
            m as int,
        ));
    }
    while i > 0 || j > 0
        invariant
            n == a@.len(),
            m == b@.len(),
            n < usize::MAX,
            m < usize::MAX,
            table_wf(t@, n as int, m as int),
            i <= n,
            j <= m,
            matched <= n - i,
            matched <= m - j,
            count as int <= matched + (if in_gap {
                1int
            } else {
                0int
            }),
            in_gap ==> count >= 1,
            (count == 0 && !in_gap) ==> (n - i == m - j && names_view(a@).subrange(
                i as int,
                n as int,
            ) == names_view(b@).subrange(j as int, m as int)),
        decreases i + j,
    {
        let take_match = if i > 0 && j > 0 {
            string_eq(&a[i - 1], &b[j - 1]) && t[i - 1][j - 1] + 1 == t[i][j]
        } else {
            false
        };
        if take_match {
            proof {
                if count == 0 && !in_gap {
                    let av = names_view(a@);
                    let bv = names_view(b@);
                    assert(av[i - 1] == a@[i - 1]@);
                    assert(bv[j - 1] == b@[j - 1]@);
                    assert(av.subrange(i - 1, n as int) =~= seq![av[i - 1]] + av.subrange(
                        i as int,
                        n as int,
                    ));
                    assert(bv.subrange(j - 1, m as int) =~= seq![bv[j - 1]] + bv.subrange(
                        j as int,
                        m as int,
                    ));
                }
            }
            i = i - 1;
            j = j - 1;
            in_gap = false;
            proof {
                matched = matched + 1;
            }
        } else {
            if !in_gap {
                count = count + 1;
                in_gap = true;
            }
            if j > 0 && (i == 0 || t[i][j - 1] >= t[i - 1][j]) {
                j = j - 1;
            } else {
                i = i - 1;
            }
        }
    }
    proof {
        if count == 0 {
            assert(names_view(a@).subrange(0, n as int) =~= names_view(a@));
            assert(names_view(b@).subrange(0, m as int) =~= names_view(b@));
        }
    }
    count
}

} // verus!
