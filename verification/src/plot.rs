//! Where a plotted series is drawn and where it breaks: a missing observation
//! (a `null`, or a value that is not finite) draws a gap, never a zero. The
//! series is cut into maximal runs of observed points; each run is one line.

use vstd::prelude::*;

verus! {

broadcast use vstd::seq::group_seq_axioms, vstd::seq_lib::group_seq_properties;

/// Where the run of observed points starting at `i` ends: the first missing
/// point at or after `i`, or the end.
pub open spec fn run_end(observed: Seq<bool>, i: int) -> int
    decreases observed.len() - i,
{
    if 0 <= i < observed.len() && observed[i] {
        run_end(observed, i + 1)
    } else {
        i
    }
}

/// The maximal runs of observed points from `i` on, in order, each as a
/// start and an exclusive end.
pub open spec fn runs_from(observed: Seq<bool>, i: int) -> Seq<(int, int)>
    decreases observed.len() - i,
{
    if i < 0 || i >= observed.len() {
        seq![]
    } else if !observed[i] {
        runs_from(observed, i + 1)
    } else {
        let e = run_end(observed, i);
        if e <= i || e > observed.len() {
            seq![]
        } else {
            seq![(i, e)] + runs_from(observed, e)
        }
    }
}

pub open spec fn runs_view(v: Seq<(usize, usize)>) -> Seq<(int, int)> {
    v.map_values(|r: (usize, usize)| (r.0 as int, r.1 as int))
}

proof fn lemma_run_end_bounds(observed: Seq<bool>, i: int)
    requires
        0 <= i <= observed.len(),
    ensures
        i <= run_end(observed, i) <= observed.len(),
        forall|j: int| i <= j < run_end(observed, i) ==> #[trigger] observed[j],
        run_end(observed, i) < observed.len() ==> !observed[run_end(observed, i)],
    decreases observed.len() - i,
{
    if i < observed.len() && observed[i] {
        lemma_run_end_bounds(observed, i + 1);
    }
}

/// The runs of observed points: one per stretch of consecutive observed
/// points, in order.
pub fn observed_runs(observed: &Vec<bool>) -> (r: Vec<(usize, usize)>)
    ensures
        runs_view(r@) == runs_from(observed@, 0),
{
    let n = observed.len();
    let mut out: Vec<(usize, usize)> = Vec::new();
    let mut i: usize = 0;
    while i < n
        invariant
            n == observed@.len(),
            i <= n,
            runs_from(observed@, 0) == runs_view(out@) + runs_from(observed@, i as int),
        decreases n - i,
    {
        if !observed[i] {
            i = i + 1;
        } else {
            let start = i;
            proof {
                lemma_run_end_bounds(observed@, start as int);
            }
            while i < n && observed[i]
                invariant
                    n == observed@.len(),
                    start <= i <= n,
                    run_end(observed@, start as int) == run_end(observed@, i as int),
                    observed@[start as int],
                decreases n - i,
            {
                i = i + 1;
            }
            proof {
                assert(run_end(observed@, i as int) == i);
                assert(runs_view(out@.push((start, i))) =~= runs_view(out@) + seq![(start as int, i as int)]);
            }
            out.push((start, i));
        }
    }
    proof {
        assert(runs_from(observed@, n as int) =~= Seq::<(int, int)>::empty());
        assert(runs_view(out@) + Seq::<(int, int)>::empty() =~= runs_view(out@));
    }
    out
}

proof fn lemma_runs_from_shape(observed: Seq<bool>, i: int)
    requires
        0 <= i <= observed.len(),
    ensures
        ({
            let rs = runs_from(observed, i);
            &&& forall|k: int|
                0 <= k < rs.len() ==> i <= (#[trigger] rs[k]).0 < rs[k].1 <= observed.len()
            &&& forall|k: int, j: int|
                #![trigger rs[k], observed[j]]
                0 <= k < rs.len() && rs[k].0 <= j < rs[k].1 ==> observed[j]
            &&& forall|k: int|
                0 <= k < rs.len() ==> (#[trigger] rs[k]).1 == observed.len() || !observed[rs[k].1]
            &&& forall|k: int|
                0 <= k < rs.len() ==> (#[trigger] rs[k]).0 == i || !observed[rs[k].0 - 1]
            &&& forall|k: int| 0 <= k < rs.len() - 1 ==> (#[trigger] rs[k]).1 < rs[k + 1].0
            &&& forall|j: int|
                i <= j < observed.len() && #[trigger] observed[j] ==> exists|k: int|
                    0 <= k < rs.len() && (#[trigger] rs[k]).0 <= j < rs[k].1
        }),
    decreases observed.len() - i,
{
    let rs = runs_from(observed, i);
    if i < observed.len() {
        if !observed[i] {
            lemma_runs_from_shape(observed, i + 1);
            assert(rs == runs_from(observed, i + 1));
            assert forall|k: int| 0 <= k < rs.len() implies (#[trigger] rs[k]).0 == i || !observed[rs[k].0 - 1] by {
                if rs[k].0 == i + 1 {
                    assert(!observed[i]);
                }
            }
            assert forall|j: int| i <= j < observed.len() && #[trigger] observed[j] implies exists|k: int|
                0 <= k < rs.len() && (#[trigger] rs[k]).0 <= j < rs[k].1 by {
                assert(j != i);
            }
        } else {
            lemma_run_end_bounds(observed, i);
            let e = run_end(observed, i);
            lemma_run_end_bounds(observed, i + 1);
            assert(e > i);
            lemma_runs_from_shape(observed, e);
            let rest = runs_from(observed, e);
            assert(rs == seq![(i, e)] + rest);
            assert forall|k: int| 0 <= k < rs.len() implies i <= (#[trigger] rs[k]).0 < rs[k].1 <= observed.len() by {
                if k > 0 {
                    assert(rs[k] == rest[k - 1]);
                }
            }
            assert forall|k: int, j: int|
                #![trigger rs[k], observed[j]]
                0 <= k < rs.len() && rs[k].0 <= j < rs[k].1 implies observed[j] by {
                if k > 0 {
                    assert(rs[k] == rest[k - 1]);
                }
            }
            assert forall|k: int| 0 <= k < rs.len() implies (#[trigger] rs[k]).1 == observed.len() || !observed[rs[k].1] by {
                if k > 0 {
                    assert(rs[k] == rest[k - 1]);
                }
            }
            assert forall|k: int| 0 <= k < rs.len() implies (#[trigger] rs[k]).0 == i || !observed[rs[k].0 - 1] by {
                if k > 0 {
                    assert(rs[k] == rest[k - 1]);
                    if rest[k - 1].0 == e {
                        assert(e < observed.len());
                    }
                }
            }
            assert forall|k: int| 0 <= k < rs.len() - 1 implies (#[trigger] rs[k]).1 < rs[k + 1].0 by {
                assert(rs[k + 1] == rest[k]);
                if k > 0 {
                    assert(rs[k] == rest[k - 1]);
                } else {
                    assert(rest[0].0 >= e);
                    if rest[0].0 == e {
                        assert(!observed[e]);
                        assert(rest[0].0 < rest[0].1);
                        assert(observed[rest[0].0]);
                    }
                }
            }
            assert forall|j: int| i <= j < observed.len() && #[trigger] observed[j] implies exists|k: int|
                0 <= k < rs.len() && (#[trigger] rs[k]).0 <= j < rs[k].1 by {
                if j < e {
                    assert(rs[0].0 <= j < rs[0].1);
                } else {
                    let k = choose|k: int| 0 <= k < rest.len() && (#[trigger] rest[k]).0 <= j < rest[k].1;
                    assert(rs[k + 1] == rest[k]);
                }
            }
        }
    }
}

/// A missing value draws a gap: the runs are non-empty, hold only observed
/// points, cannot be extended on either side, stand apart in order (a gap
/// between any two), and every observed point lies in one of them.
pub proof fn lemma_missing_values_draw_gaps(observed: Seq<bool>)
    ensures
        ({
            let rs = runs_from(observed, 0);
            &&& forall|k: int| 0 <= k < rs.len() ==> 0 <= (#[trigger] rs[k]).0 < rs[k].1 <= observed.len()
            &&& forall|k: int, j: int|
                #![trigger rs[k], observed[j]]
                0 <= k < rs.len() && rs[k].0 <= j < rs[k].1 ==> observed[j]
            &&& forall|k: int|
                0 <= k < rs.len() ==> (#[trigger] rs[k]).1 == observed.len() || !observed[rs[k].1]
            &&& forall|k: int| 0 <= k < rs.len() ==> (#[trigger] rs[k]).0 == 0 || !observed[rs[k].0 - 1]
            &&& forall|k: int| 0 <= k < rs.len() - 1 ==> (#[trigger] rs[k]).1 < rs[k + 1].0
            &&& forall|j: int|
                0 <= j < observed.len() && #[trigger] observed[j] ==> exists|k: int|
                    0 <= k < rs.len() && (#[trigger] rs[k]).0 <= j < rs[k].1
        }),
{
    lemma_runs_from_shape(observed, 0);
}

} // verus!
