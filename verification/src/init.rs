//! Initialization policies for newly registered variables.
//!
//! The engine's samplers are floating-point and out of scope; this integer
//! model draws from a deterministic xorshift generator owned by the store, so
//! every policy is specified exactly: a constant fill is pinned element by
//! element, and each random policy pins the range its draws fall in.

use vstd::prelude::*;
use crate::device::{Device, Kind};
use crate::shape::{dims_ok, numel_of, prod, try_numel};
use crate::tensor::Tensor;

verus! {

/// Variable initializations.
#[derive(Clone, Copy, Debug, PartialEq, Eq, Structural)]
pub enum Init {
    /// Every element equal to the given constant.
    Const(i64),
    /// Every element drawn uniformly from the half-open range `lo..up`.
    Uniform { lo: i64, up: i64 },
    /// Every element drawn from `mean - stdev ..= mean + stdev`, the integer
    /// stand-in for the engine's normal sampler.
    Randn { mean: i64, stdev: i64 },
    /// Every element drawn from `-b ..= b` where `b` is the integer analog of
    /// the `sqrt(6 / fan_in)` heuristic bound, `fan_in` being the product of
    /// the dimensions after the first.
    KaimingUniform,
}

/// The fan-in of a shape: the number of inputs feeding each output, the
/// product of the dimensions after the first; `1` for a scalar or vector.
pub open spec fn fan_in_of(dims: Seq<i64>) -> int {
    if dims.len() <= 1 {
        1
    } else {
        prod(dims.skip(1))
    }
}

/// What an initialization demands of the dimensions it is applied to.
pub open spec fn init_ok(i: Init, dims: Seq<i64>) -> bool {
    match i {
        Init::Const(_) => true,
        Init::Uniform { lo, up } => lo < up,
        Init::Randn { mean, stdev } => 0 <= stdev && i64::MIN <= mean - stdev && mean + stdev
            <= i64::MAX,
        Init::KaimingUniform => fan_in_of(dims) >= 1,
    }
}

/// The integer analog of the Kaiming bound `sqrt(6 / fan_in)`.
pub open spec fn kaiming_bound(fan_in: int) -> int {
    if fan_in >= 7 {
        0
    } else if fan_in >= 2 {
        1
    } else {
        2
    }
}

/// The range an initialization policy confines each element to.
pub open spec fn init_value_ok(i: Init, dims: Seq<i64>, v: i64) -> bool {
    match i {
        Init::Const(c) => v == c,
        Init::Uniform { lo, up } => lo <= v < up,
        Init::Randn { mean, stdev } => mean - stdev <= v <= mean + stdev,
        Init::KaimingUniform => -kaiming_bound(fan_in_of(dims)) <= v <= kaiming_bound(
            fan_in_of(dims),
        ),
    }
}

/// One step of the store's xorshift generator.
pub open spec fn spec_next_state(s: u64) -> u64 {
    let a = s ^ (s << 13);
    let b = a ^ (a >> 7);
    b ^ (b << 17)
}

pub(crate) fn next_state(s: u64) -> (r: u64)
    ensures
        r == spec_next_state(s),
{
    let a = s ^ (s << 13);
    let b = a ^ (a >> 7);
    b ^ (b << 17)
}

/// A draw in `lo ..= up` from the given generator state.
fn draw_in(state: u64, lo: i64, up: i64) -> (r: i64)
    requires
        lo <= up,
    ensures
        lo <= r <= up,
{
    let span: u128 = ((up as i128) - (lo as i128) + 1) as u128;
    let off: u128 = (state as u128) % span;
    ((lo as i128) + (off as i128)) as i64
}

/// Builds the initial tensor for a newly registered variable, threading the
/// store's generator state.
pub(crate) fn init(i: Init, dims: &Vec<i64>, device: Device, state: u64) -> (r: (Tensor, u64))
    requires
        dims_ok(dims@),
        init_ok(i, dims@),
    ensures
        r.0@.wf(),
        r.0@.shape == dims@,
        r.0@.kind == Kind::Float,
        r.0@.device == device,
        r.0@.requires_grad == false,
        forall|t: int| 0 <= t < r.0@.data.len() ==> init_value_ok(i, dims@, #[trigger] r.0@.data[t]),
{
    match i {
        Init::Const(c) => (Tensor::full(dims, c, Kind::Float, device), state),
        Init::Uniform { lo, up } => sample_tensor(dims, device, state, lo, up - 1),
        Init::Randn { mean, stdev } => sample_tensor(dims, device, state, mean - stdev, mean + stdev),
        Init::KaimingUniform => {
            let b: i64 = if dims.len() <= 1 {
                2
            } else {
                let mut fan_dims: Vec<i64> = Vec::new();
                let mut j: usize = 1;
                while j < dims.len()
                    invariant
                        1 <= j <= dims@.len(),
                        fan_dims@ == dims@.skip(1).take(j - 1),
                    decreases dims@.len() - j,
                {
                    fan_dims.push(dims[j]);
                    proof {
                        assert(fan_dims@ =~= dims@.skip(1).take(j as int));
                    }
                    j += 1;
                }
                proof {
                    assert(fan_dims@ =~= dims@.skip(1));
                }
                match try_numel(&fan_dims) {
                    None => 0,
                    Some(f) => if f >= 7 {
                        0
                    } else if f >= 2 {
                        1
                    } else {
                        2
                    },
                }
            };
            proof {
                assert(b == kaiming_bound(fan_in_of(dims@)));
            }
            sample_tensor(dims, device, state, -b, b)
        },
    }
}

/// A tensor of shape `dims` whose elements are drawn from `lo ..= up`.
fn sample_tensor(dims: &Vec<i64>, device: Device, state: u64, lo: i64, up: i64) -> (r: (
    Tensor,
    u64,
))
    requires
        dims_ok(dims@),
        lo <= up,
    ensures
        r.0@.wf(),
        r.0@.shape == dims@,
        r.0@.kind == Kind::Float,
        r.0@.device == device,
        r.0@.requires_grad == false,
        forall|t: int| 0 <= t < r.0@.data.len() ==> lo <= #[trigger] r.0@.data[t] <= up,
{
    let n = numel_of(dims);
    let mut s = state;
    let mut data: Vec<i64> = Vec::new();
    let mut j: usize = 0;
    while j < n
        invariant
            0 <= j <= n,
            data@.len() == j,
            forall|t: int| 0 <= t < j ==> lo <= #[trigger] data@[t] <= up,
            lo <= up,
        decreases n - j,
    {
        s = next_state(s);
        data.push(draw_in(s, lo, up));
        j += 1;
    }
    (Tensor::from_shape_values(dims, data, Kind::Float, device), s)
}

} // verus!
