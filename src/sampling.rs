use vstd::prelude::*;
use crate::instant::{fits_seconds, Instant, Span};

verus! {

/// The two instants at which a position is sampled to estimate its rate of change at a
/// given instant: half a span before it and half a span after it.
#[derive(Clone, Copy, Debug, PartialEq, Eq, Structural)]
pub struct SampleWindow {
    pub before: Instant,
    pub after: Instant,
}

/// The centred sampling window of width `epsilon` around `at`: the half width is half of
/// `epsilon`, rounded down to a whole nanosecond. `None` when either end falls outside the
/// range of `Instant`. An empty `epsilon` gives a window whose two ends are `at` itself.
pub fn sample_window(at: &Instant, epsilon: &Span) -> (r: Option<SampleWindow>)
    requires
        at.wf(),
        epsilon.wf(),
    ensures
        r is Some <==> fits_seconds(at@ - epsilon@ / 2) && fits_seconds(at@ + epsilon@ / 2),
        r matches Some(w) ==> {
            &&& w.before.wf()
            &&& w.after.wf()
            &&& w.before@ == at@ - epsilon@ / 2
            &&& w.after@ == at@ + epsilon@ / 2
        },
        epsilon@ == 0 ==> r == Some(SampleWindow { before: *at, after: *at }),
{
    let half = epsilon.half();
    let before = at.checked_sub(&half);
    let after = at.checked_add(&half);
    match (before, after) {
        (Some(b), Some(a)) => {
            proof {
                if epsilon@ == 0 {
                    Instant::lemma_view_injective(b, *at);
                    Instant::lemma_view_injective(a, *at);
                }
            }
            Some(SampleWindow { before: b, after: a })
        },
        _ => {
            assert(epsilon@ == 0 ==> fits_seconds(at@)) by (nonlinear_arith)
                requires
                    at@ == at.secs * 1_000_000_000 + at.nanos,
                    0 <= at.nanos < 1_000_000_000,
            {
                assert(at@ / 1_000_000_000 == at.secs);
            };
            None
        },
    }
}

} // verus!
