//! Start-up: choosing the curve and checking the parameters once.
//!
//! The curve's parameters are fixed when the library is built, so that
//! initialization comes down to checking that the caller asks for the curve
//! and the limb sizes that were built in. Only the first call checks: an
//! [`InitLatch`] keeps its outcome and hands it to every later caller,
//! whatever that caller asks for.
use vstd::prelude::*;
use crate::ffi::{BLS12_381, MCLBN_COMPILED_TIME_VAR};

verus! {

/// The status of a successful initialization.
pub const INIT_OK: i32 = 0;

/// The status for a curve that is not provided.
pub const INIT_UNKNOWN_CURVE: i32 = -1;

/// The status for limb sizes that differ from those built in.
pub const INIT_SIZE_MISMATCH: i32 = -2;

/// The curves that can be selected.
#[derive(Debug, Clone, Copy, PartialEq, Eq, Structural)]
pub enum Curve {
    Bls12_381,
}

impl Curve {
    /// The identifier of the curve.
    pub open spec fn id(self) -> i32 {
        match self {
            Curve::Bls12_381 => BLS12_381,
        }
    }
}

/// The status that a check of these parameters gives: zero for success, a
/// negative code otherwise.
pub open spec fn init_status(curve: i32, compiled_time_var: i32) -> i32 {
    if curve != BLS12_381 {
        INIT_UNKNOWN_CURVE
    } else if compiled_time_var != MCLBN_COMPILED_TIME_VAR {
        INIT_SIZE_MISMATCH
    } else {
        INIT_OK
    }
}

/// What one call does to the latch: the state it leaves and the status it
/// returns. The first call checks the parameters; every later call returns
/// what the first returned, whatever parameters it brings.
pub open spec fn latch_step(state: Option<i32>, curve: i32, compiled_time_var: i32) -> (
    Option<i32>,
    i32,
) {
    match state {
        Some(status) => (state, status),
        None => (
            Some(init_status(curve, compiled_time_var)),
            init_status(curve, compiled_time_var),
        ),
    }
}

/// The state that a run of calls leaves, each call given by its parameters.
pub open spec fn latch_run(state: Option<i32>, calls: Seq<(i32, i32)>) -> Option<i32>
    decreases calls.len(),
{
    if calls.len() == 0 {
        state
    } else {
        latch_step(latch_run(state, calls.drop_last()), calls.last().0, calls.last().1).0
    }
}

/// A status as a result: success for zero, else the status as the error.
pub open spec fn status_result(status: i32) -> Result<(), i32> {
    if status == INIT_OK {
        Ok(())
    } else {
        Err(status)
    }
}

/// The memory of the first initialization: empty until the first call of
/// [`mcl_bn_init`], and unchanged by every later one.
#[derive(Debug, Clone, Copy)]
pub struct InitLatch {
    first: Option<i32>,
}

impl View for InitLatch {
    type V = Option<i32>;

    /// The status of the first initialization, once there was one.
    closed spec fn view(&self) -> Option<i32> {
        self.first
    }
}

impl InitLatch {
    /// A latch that has seen no initialization.
    pub fn new() -> (latch: InitLatch)
        ensures
            latch@ is None,
    {
        InitLatch { first: None }
    }

    /// Whether an initialization has succeeded.
    pub fn is_ready(&self) -> (ready: bool)
        ensures
            ready <==> self@ == Some(INIT_OK),
    {
        match self.first {
            Some(status) => status == INIT_OK,
            None => false,
        }
    }
}

/// Checks the parameters and returns the status, zero for success.
fn check_parameters(curve: i32, compiled_time_var: i32) -> (status: i32)
    ensures
        status == init_status(curve, compiled_time_var),
{
    if curve != BLS12_381 {
        INIT_UNKNOWN_CURVE
    } else if compiled_time_var != MCLBN_COMPILED_TIME_VAR {
        INIT_SIZE_MISMATCH
    } else {
        INIT_OK
    }
}

/// Initializes the library once. The first call on a latch checks the
/// parameters and the latch remembers the status, be it success or failure.
/// Every later call checks nothing and changes nothing: it returns what the
/// first returned, whatever parameters it brings. See [`latch_step`].
pub fn mcl_bn_init(latch: &mut InitLatch, curve: i32, compiled_time_var: i32) -> (status: i32)
    ensures
        (final(latch)@, status) == latch_step(old(latch)@, curve, compiled_time_var),
{
    match latch.first {
        Some(status) => status,
        None => {
            let status: i32 = check_parameters(curve, compiled_time_var);
            latch.first = Some(status);
            status
        },
    }
}

/// Initializes the library once for `curve`, with the limb sizes built in,
/// through [`mcl_bn_init`]. A status other than zero comes back as the
/// error, also where it is the status that an earlier call left in the latch.
pub fn init_curve(latch: &mut InitLatch, curve: Curve) -> (r: Result<(), i32>)
    ensures
        final(latch)@ == latch_step(old(latch)@, curve.id(), MCLBN_COMPILED_TIME_VAR).0,
        r == status_result(latch_step(old(latch)@, curve.id(), MCLBN_COMPILED_TIME_VAR).1),
{
    let id: i32 = match curve {
        Curve::Bls12_381 => BLS12_381,
    };
    let status: i32 = mcl_bn_init(latch, id, MCLBN_COMPILED_TIME_VAR);
    if status == INIT_OK {
        Ok(())
    } else {
        Err(status)
    }
}

/// Only the first call takes effect: after any run of at least one call,
/// the latch holds the status of the first, and one more call returns that
/// status and leaves the latch as it found it.
pub proof fn lemma_init_first_call_wins(calls: Seq<(i32, i32)>, curve: i32, compiled_time_var: i32)
    requires
        calls.len() > 0,
    ensures
        latch_run(None, calls) == Some(init_status(calls[0].0, calls[0].1)),
        latch_step(latch_run(None, calls), curve, compiled_time_var) == (
            latch_run(None, calls),
            init_status(calls[0].0, calls[0].1),
        ),
    decreases calls.len(),
{
    if calls.len() == 1 {
        assert(calls.drop_last().len() == 0);
        assert(calls.last() == calls[0]);
    } else {
        let init = calls.drop_last();
        assert(init[0] == calls[0]);
        lemma_init_first_call_wins(init, calls.last().0, calls.last().1);
    }
}

/// Where every caller asks for the curve and the limb sizes that were built
/// in, in whatever order the calls arrive, every caller sees success.
pub proof fn lemma_init_all_callers_succeed(calls: Seq<(i32, i32)>, i: int)
    requires
        0 <= i < calls.len(),
        forall|j: int|
            0 <= j < calls.len() ==> #[trigger] calls[j] == (BLS12_381, MCLBN_COMPILED_TIME_VAR),
    ensures
        latch_step(latch_run(None, calls.take(i)), calls[i].0, calls[i].1).1 == INIT_OK,
        latch_run(None, calls.take(i + 1)) == Some(INIT_OK),
{
    let done = calls.take(i);
    let upto = calls.take(i + 1);
    assert(upto.drop_last() =~= done);
    assert(upto.last() == calls[i]);
    assert(calls[i] == (BLS12_381, MCLBN_COMPILED_TIME_VAR));
    if i > 0 {
        assert(done[0] == calls[0]);
        assert(calls[0] == (BLS12_381, MCLBN_COMPILED_TIME_VAR));
        lemma_init_first_call_wins(done, calls[i].0, calls[i].1);
    } else {
        assert(done.len() == 0);
    }
}

} // verus!
