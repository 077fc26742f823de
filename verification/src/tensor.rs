//! A plain-value model of an engine's tensor handle.
//!
//! A tensor is a shape, a flat row-major buffer of `i64` elements, an element
//! kind, a device tag, and a gradient-tracking flag.  An engine's handles are
//! reference counted and share storage; in this value model a handle is a
//! snapshot, so `shallow_clone` and `copy` coincide, and in-place update of a
//! registered variable goes through the store that owns it.

use vstd::prelude::*;
use vstd::arithmetic::div_mod::{
    lemma_fundamental_div_mod, lemma_mod_bound, lemma_multiply_divide_lt,
};
use crate::device::{Device, Kind};
use crate::shape::{
    dims_ok, lemma_prod_insert_one, lemma_prod_nonneg, lemma_prod_pos, lemma_prod_prefix_le,
    lemma_prod_remove, lemma_prod_split, lemma_prod_suffix_le, lemma_prod_zero, numel_of, prod,
};

verus! {

/// The mathematical value of a tensor.
pub ghost struct TensorModel {
    pub shape: Seq<i64>,
    pub data: Seq<i64>,
    pub kind: Kind,
    pub device: Device,
    pub requires_grad: bool,
}

impl TensorModel {
    /// Well-formed: no negative dimension, and the buffer holds exactly one
    /// element per point of the shape.
    pub open spec fn wf(self) -> bool {
        &&& forall|i: int| 0 <= i < self.shape.len() ==> 0 <= #[trigger] self.shape[i]
        &&& self.data.len() == prod(self.shape)
        &&& self.data.len() <= usize::MAX
    }

    pub open spec fn rank(self) -> int {
        self.shape.len() as int
    }

    /// The same value on another device.
    pub open spec fn on_device(self, device: Device) -> TensorModel {
        TensorModel { device, ..self }
    }

    /// The same value with another gradient-tracking flag.
    pub open spec fn with_grad(self, requires_grad: bool) -> TensorModel {
        TensorModel { requires_grad, ..self }
    }

    /// The same tensor with its buffer overwritten in place.
    pub open spec fn with_data(self, data: Seq<i64>) -> TensorModel {
        TensorModel { data, ..self }
    }
}

/// The flat source position that feeds element `t` of a gather along axis
/// `dim` with index list `idxs`: writing the destination position as
/// `(o * k + m) * inner + i`, the source position is
/// `(o * mid + idxs[m]) * inner + i`.
pub open spec fn gather_src(shape: Seq<i64>, dim: int, idxs: Seq<i64>, t: int) -> int {
    let inner = prod(shape.skip(dim + 1));
    let mid = shape[dim];
    let k = idxs.len() as int;
    let o = t / (k * inner);
    let m = (t % (k * inner)) / inner;
    let i = (t % (k * inner)) % inner;
    (o * mid + idxs[m]) * inner + i
}

/// The buffer produced by gathering along axis `dim` of a tensor with shape
/// `shape` and buffer `data`, taking the rows named by `idxs` in order.
/// Select, narrow and index-select all produce such a buffer.
pub open spec fn gather_data(shape: Seq<i64>, data: Seq<i64>, dim: int, idxs: Seq<i64>)
    -> Seq<i64> {
    Seq::new(
        prod(shape.update(dim, idxs.len() as i64)) as nat,
        |t: int| data[gather_src(shape, dim, idxs, t)],
    )
}

/// The consecutive index list `start, start + 1, ..., start + length - 1`,
/// which turns a narrow into a gather.
pub open spec fn range_idxs(start: i64, length: i64) -> Seq<i64> {
    Seq::new(length as nat, |j: int| (start + j) as i64)
}

#[derive(Debug)]
pub struct Tensor {
    shape: Vec<i64>,
    data: Vec<i64>,
    kind: Kind,
    device: Device,
    requires_grad: bool,
}

impl View for Tensor {
    type V = TensorModel;

    closed spec fn view(&self) -> TensorModel {
        TensorModel {
            shape: self.shape@,
            data: self.data@,
            kind: self.kind,
            device: self.device,
            requires_grad: self.requires_grad,
        }
    }
}

/// Copies a vector of elements; the engine's buffers are opaque, ours are
/// plain vectors.
fn copy_vec(v: &Vec<i64>) -> (r: Vec<i64>)
    ensures
        r@ == v@,
{
    let mut out: Vec<i64> = Vec::new();
    let mut j: usize = 0;
    while j < v.len()
        invariant
            0 <= j <= v@.len(),
            out@ == v@.take(j as int),
        decreases v@.len() - j,
    {
        out.push(v[j]);
        proof {
            assert(out@ =~= v@.take(j + 1));
        }
        j += 1;
    }
    proof {
        assert(v@.take(v@.len() as int) =~= v@);
    }
    out
}

impl Tensor {
    /// A tensor of shape `dims` with every element equal to `value`.
    pub fn full(dims: &Vec<i64>, value: i64, kind: Kind, device: Device) -> (r: Tensor)
        requires
            dims_ok(dims@),
        ensures
            r@.wf(),
            r@.shape == dims@,
            r@.data == Seq::new(prod(dims@) as nat, |t: int| value),
            r@.kind == kind,
            r@.device == device,
            r@.requires_grad == false,
    {
        let n = numel_of(dims);
        let mut data: Vec<i64> = Vec::new();
        let mut j: usize = 0;
        while j < n
            invariant
                0 <= j <= n,
                data@.len() == j,
                forall|t: int| 0 <= t < j ==> data@[t] == value,
            decreases n - j,
        {
            data.push(value);
            j += 1;
        }
        proof {
            lemma_prod_nonneg(dims@);
            assert(data@ =~= Seq::new(prod(dims@) as nat, |t: int| value));
        }
        Tensor { shape: copy_vec(dims), data, kind, device, requires_grad: false }
    }

    /// A tensor of shape `dims` filled with zeros.
    pub fn zeros(dims: &Vec<i64>, kind: Kind, device: Device) -> (r: Tensor)
        requires
            dims_ok(dims@),
        ensures
            r@.wf(),
            r@.shape == dims@,
            r@.data == Seq::new(prod(dims@) as nat, |t: int| 0i64),
            r@.kind == kind,
            r@.device == device,
            r@.requires_grad == false,
    {
        Tensor::full(dims, 0, kind, device)
    }

    /// A tensor of shape `dims` filled with ones.
    pub fn ones(dims: &Vec<i64>, kind: Kind, device: Device) -> (r: Tensor)
        requires
            dims_ok(dims@),
        ensures
            r@.wf(),
            r@.shape == dims@,
            r@.data == Seq::new(prod(dims@) as nat, |t: int| 1i64),
            r@.kind == kind,
            r@.device == device,
            r@.requires_grad == false,
    {
        Tensor::full(dims, 1, kind, device)
    }

    /// A rank-1 tensor holding `values`, as the engine materializes a plain
    /// integer sequence handed to it.
    pub fn from_values(values: Vec<i64>, kind: Kind, device: Device) -> (r: Tensor)
        requires
            values@.len() <= i64::MAX,
        ensures
            r@.wf(),
            r@.shape == seq![values@.len() as i64],
            r@.data == values@,
            r@.kind == kind,
            r@.device == device,
            r@.requires_grad == false,
    {
        let n = values.len() as i64;
        let mut shape: Vec<i64> = Vec::new();
        shape.push(n);
        proof {
            assert(shape@ =~= seq![values@.len() as i64]);
            assert(shape@.skip(1) =~= Seq::<i64>::empty());
            assert(prod(Seq::<i64>::empty()) == 1);
            assert(prod(shape@) == values@.len());
        }
        Tensor { shape, data: values, kind, device, requires_grad: false }
    }

    /// A tensor of shape `dims` holding the given elements, row major.
    pub fn from_shape_values(dims: &Vec<i64>, values: Vec<i64>, kind: Kind, device: Device)
        -> (r: Tensor)
        requires
            dims_ok(dims@),
            values@.len() == prod(dims@),
        ensures
            r@.wf(),
            r@.shape == dims@,
            r@.data == values@,
            r@.kind == kind,
            r@.device == device,
            r@.requires_grad == false,
    {
        Tensor { shape: copy_vec(dims), data: values, kind, device, requires_grad: false }
    }

    /// The shape, as a fresh vector.
    pub fn size(&self) -> (r: Vec<i64>)
        ensures
            r@ == self@.shape,
    {
        copy_vec(&self.shape)
    }

    /// The number of axes.
    pub fn dim(&self) -> (r: usize)
        ensures
            r == self@.rank(),
    {
        self.shape.len()
    }

    /// The length of axis `dim`.
    pub fn dim_len(&self, dim: usize) -> (r: i64)
        requires
            dim < self@.rank(),
        ensures
            r == self@.shape[dim as int],
    {
        self.shape[dim]
    }

    /// The elements, row major, as a fresh vector.
    pub fn values(&self) -> (r: Vec<i64>)
        ensures
            r@ == self@.data,
    {
        copy_vec(&self.data)
    }

    /// The number of elements.
    pub fn numel(&self) -> (r: usize)
        ensures
            r == self@.data.len(),
    {
        self.data.len()
    }

    pub fn kind(&self) -> (r: Kind)
        ensures
            r == self@.kind,
    {
        self.kind
    }

    pub fn device(&self) -> (r: Device)
        ensures
            r == self@.device,
    {
        self.device
    }

    pub fn requires_grad(&self) -> (r: bool)
        ensures
            r == self@.requires_grad,
    {
        self.requires_grad
    }

    /// A deep copy: same value, same attributes, fresh storage.
    pub fn copy(&self) -> (r: Tensor)
        ensures
            r@ == self@,
    {
        Tensor {
            shape: copy_vec(&self.shape),
            data: copy_vec(&self.data),
            kind: self.kind,
            device: self.device,
            requires_grad: self.requires_grad,
        }
    }

    /// Another handle to the same value.  An engine would share storage; in
    /// this value model the handle is a snapshot copy.
    pub fn shallow_clone(&self) -> (r: Tensor)
        ensures
            r@ == self@,
    {
        self.copy()
    }

    /// The same value moved to `device`.
    pub fn to_device(&self, device: Device) -> (r: Tensor)
        ensures
            r@ == self@.on_device(device),
    {
        Tensor {
            shape: copy_vec(&self.shape),
            data: copy_vec(&self.data),
            kind: self.kind,
            device,
            requires_grad: self.requires_grad,
        }
    }

    /// The same value with the gradient-tracking flag set to `r`.
    pub fn set_requires_grad(&self, requires_grad: bool) -> (r: Tensor)
        ensures
            r@ == self@.with_grad(requires_grad),
    {
        Tensor {
            shape: copy_vec(&self.shape),
            data: copy_vec(&self.data),
            kind: self.kind,
            device: self.device,
            requires_grad,
        }
    }

    /// The gather core every axis view operation reduces to: element
    /// `(o * k + m) * inner + i` of the result is element
    /// `(o * mid + idxs[m]) * inner + i` of the source.
    fn gather(&self, dim: usize, idxs: &Vec<i64>) -> (out: Vec<i64>)
        requires
            self@.wf(),
            dim < self@.rank(),
            idxs@.len() <= i64::MAX,
            forall|j: int| 0 <= j < idxs@.len() ==> 0 <= #[trigger] idxs@[j]
                < self@.shape[dim as int],
            prod(self@.shape.update(dim as int, idxs@.len() as i64)) <= usize::MAX,
        ensures
            out@ == gather_data(self@.shape, self@.data, dim as int, idxs@),
    {
        let ghost s = self@.shape;
        let ghost d = dim as int;
        let ghost upd = s.update(d, idxs@.len() as i64);
        let rank = self.shape.len();
        let k = idxs.len();

        // The length of the result.
        let mut new_shape = copy_vec(&self.shape);
        new_shape[dim] = k as i64;
        proof {
            assert(new_shape@ =~= upd);
        }
        let new_len = numel_of(&new_shape);

        if new_len == 0 {
            let out: Vec<i64> = Vec::new();
            proof {
                assert(out@ =~= gather_data(s, self@.data, d, idxs@));
            }
            return out;
        }

        proof {
            // A positive product means every updated dimension is positive.
            assert forall|i: int| 0 <= i < upd.len() implies 1 <= #[trigger] upd[i] by {
                if upd[i] == 0 {
                    lemma_prod_zero(upd, i);
                }
            }
            // In particular there is at least one index, so the gathered axis
            // itself is positive as well.
            assert(0 <= idxs@[0] < s[d]);
            assert forall|i: int| 0 <= i < s.len() implies 1 <= #[trigger] s[i] by {
                if i != d {
                    assert(upd[i] == s[i]);
                }
            }
            lemma_prod_suffix_le(s, d + 1);
            lemma_prod_prefix_le(s, d);
            lemma_prod_pos(s.take(d));
            lemma_prod_pos(s.skip(d + 1));
        }

        // The three factors around the gathered axis.
        let mut prefix: Vec<i64> = Vec::new();
        let mut j: usize = 0;
        while j < dim
            invariant
                0 <= j <= dim,
                dim < self@.shape.len(),
                prefix@ == self@.shape.subrange(0, j as int),
            decreases dim - j,
        {
            prefix.push(self.shape[j]);
            proof {
                assert(prefix@ =~= self@.shape.subrange(0, j + 1));
            }
            j += 1;
        }
        let mut suffix: Vec<i64> = Vec::new();
        let mut j2: usize = dim + 1;
        while j2 < rank
            invariant
                rank == self@.shape.len(),
                dim + 1 <= j2 <= self@.shape.len(),
                suffix@ == self@.shape.subrange(dim + 1, j2 as int),
            decreases self@.shape.len() - j2,
        {
            suffix.push(self.shape[j2]);
            proof {
                assert(suffix@ =~= self@.shape.subrange(dim + 1, j2 + 1));
            }
            j2 += 1;
        }
        proof {
            assert(prefix@ =~= s.take(d));
            assert(suffix@ =~= s.skip(d + 1));
        }
        let outer = numel_of(&prefix);
        let inner = numel_of(&suffix);
        let ghost numel = self@.data.len() as int;
        proof {
            lemma_prod_split(s, d);
            lemma_prod_split(upd, d);
            assert(upd.take(d) =~= s.take(d));
            assert(upd.skip(d + 1) =~= s.skip(d + 1));
            assert(s[d] <= numel) by (nonlinear_arith)
                requires
                    numel == outer * s[d] * inner,
                    outer >= 1,
                    inner >= 1,
                    s[d] >= 1,
            ;
        }
        let mid = self.shape[dim] as usize;
        proof {
            assert(new_len == outer * k * inner);
            assert(k * inner <= new_len && k * inner >= 1) by (nonlinear_arith)
                requires
                    new_len == outer * k * inner,
                    outer >= 1,
                    k >= 1,
                    inner >= 1,
            ;
        }
        let ki = k * inner;

        let mut out: Vec<i64> = Vec::new();
        let mut t: usize = 0;
        while t < new_len
            invariant
                self@.wf(),
                0 <= t <= new_len,
                out@.len() == t,
                s == self@.shape,
                d == dim,
                dim < s.len(),
                k == idxs@.len(),
                k >= 1,
                forall|j: int| 0 <= j < idxs@.len() ==> 0 <= #[trigger] idxs@[j] < s[d],
                mid == s[d],
                inner == prod(s.skip(d + 1)),
                outer == prod(s.take(d)),
                inner >= 1,
                outer >= 1,
                mid >= 1,
                ki == k * inner,
                ki >= 1,
                numel == self@.data.len(),
                numel == outer * mid * inner,
                new_len == outer * k * inner,
                new_len <= usize::MAX,
                forall|j: int| 0 <= j < t ==> out@[j]
                    == self@.data[gather_src(s, d, idxs@, j)],
            decreases new_len - t,
        {
            let o = t / ki;
            let rem = t % ki;
            proof {
                lemma_fundamental_div_mod(t as int, ki as int);
                lemma_mod_bound(t as int, ki as int);
                assert(t < ki * outer) by (nonlinear_arith)
                    requires
                        t < new_len,
                        new_len == outer * k * inner,
                        ki == k * inner,
                ;
                lemma_multiply_divide_lt(t as int, ki as int, outer as int);
            }
            let m = rem / inner;
            let i = rem % inner;
            proof {
                lemma_fundamental_div_mod(rem as int, inner as int);
                lemma_mod_bound(rem as int, inner as int);
                assert(rem < inner * k) by (nonlinear_arith)
                    requires
                        rem < ki,
                        ki == k * inner,
                ;
                lemma_multiply_divide_lt(rem as int, inner as int, k as int);
            }
            let v = idxs[m] as usize;
            proof {
                assert(o * mid + v < outer * mid) by (nonlinear_arith)
                    requires
                        o < outer,
                        v < mid,
                        mid >= 1,
                        o >= 0,
                        v >= 0,
                ;
                assert(outer * mid <= numel) by (nonlinear_arith)
                    requires
                        numel == outer * mid * inner,
                        inner >= 1,
                        outer >= 1,
                        mid >= 1,
                ;
                assert((o * mid + v) * inner + i < numel) by (nonlinear_arith)
                    requires
                        o * mid + v <= outer * mid - 1,
                        numel == outer * mid * inner,
                        0 <= i < inner,
                        inner >= 1,
                        o * mid + v >= 0,
                ;
            }
            let src = (o * mid + v) * inner + i;
            out.push(self.data[src]);
            proof {
                assert(src as int == gather_src(s, d, idxs@, t as int));
            }
            t += 1;
        }
        proof {
            assert(out@ =~= gather_data(s, self@.data, d, idxs@));
        }
        out
    }

    /// A single-index selection along axis `dim`: the axis is removed from
    /// the shape.
    pub fn select(&self, dim: usize, index: i64) -> (r: Tensor)
        requires
            self@.wf(),
            dim < self@.rank(),
            0 <= index < self@.shape[dim as int],
        ensures
            r@.wf(),
            r@.shape == self@.shape.remove(dim as int),
            r@.data == gather_data(self@.shape, self@.data, dim as int, seq![index]),
            r@.kind == self@.kind,
            r@.device == self@.device,
            r@.requires_grad == self@.requires_grad,
    {
        let ghost s = self@.shape;
        let ghost d = dim as int;
        let idxs: Vec<i64> = vec![index];
        proof {
            lemma_prod_split(s, d);
            lemma_prod_split(s.update(d, 1i64), d);
            assert(s.update(d, 1i64).take(d) =~= s.take(d));
            assert(s.update(d, 1i64).skip(d + 1) =~= s.skip(d + 1));
            lemma_prod_nonneg(s.take(d));
            lemma_prod_nonneg(s.skip(d + 1));
            assert(prod(s.update(d, 1i64)) <= prod(s)) by (nonlinear_arith)
                requires
                    prod(s) == prod(s.take(d)) * s[d] * prod(s.skip(d + 1)),
                    prod(s.update(d, 1i64)) == prod(s.take(d)) * 1i64 * prod(s.skip(d + 1)),
                    s[d] >= 1,
                    prod(s.take(d)) >= 0,
                    prod(s.skip(d + 1)) >= 0,
            ;
            assert(idxs@ =~= seq![index]);
        }
        let data = self.gather(dim, &idxs);
        let mut new_shape = copy_vec(&self.shape);
        new_shape.remove(dim);
        proof {
            lemma_prod_remove(s, d);
            lemma_prod_split(s.update(d, 1i64), d);
            assert(prod(s.remove(d)) == prod(s.update(d, 1i64)));
        }
        Tensor {
            shape: new_shape,
            data,
            kind: self.kind,
            device: self.device,
            requires_grad: self.requires_grad,
        }
    }

    /// A sub-range view along axis `dim`: the axis is kept, its length
    /// becomes `length`.
    pub fn narrow(&self, dim: usize, start: i64, length: i64) -> (r: Tensor)
        requires
            self@.wf(),
            dim < self@.rank(),
            0 <= start,
            0 <= length,
            start + length <= self@.shape[dim as int],
        ensures
            r@.wf(),
            r@.shape == self@.shape.update(dim as int, length),
            r@.data == gather_data(
                self@.shape,
                self@.data,
                dim as int,
                range_idxs(start, length),
            ),
            r@.kind == self@.kind,
            r@.device == self@.device,
            r@.requires_grad == self@.requires_grad,
    {
        let ghost s = self@.shape;
        let ghost d = dim as int;
        let mut idxs: Vec<i64> = Vec::new();
        let mut j: i64 = 0;
        while j < length
            invariant
                0 <= j <= length,
                start + length <= i64::MAX,
                idxs@ == range_idxs(start, length).take(j as int),
            decreases length - j,
        {
            idxs.push(start + j);
            proof {
                assert(idxs@ =~= range_idxs(start, length).take(j + 1));
            }
            j += 1;
        }
        proof {
            assert(idxs@ =~= range_idxs(start, length));
            lemma_prod_split(s, d);
            lemma_prod_split(s.update(d, length), d);
            assert(s.update(d, length).take(d) =~= s.take(d));
            assert(s.update(d, length).skip(d + 1) =~= s.skip(d + 1));
            lemma_prod_nonneg(s.take(d));
            lemma_prod_nonneg(s.skip(d + 1));
            assert(prod(s.update(d, length)) <= prod(s)) by (nonlinear_arith)
                requires
                    prod(s) == prod(s.take(d)) * s[d] * prod(s.skip(d + 1)),
                    prod(s.update(d, length)) == prod(s.take(d)) * length * prod(
                        s.skip(d + 1),
                    ),
                    0 <= length <= s[d],
                    prod(s.take(d)) >= 0,
                    prod(s.skip(d + 1)) >= 0,
            ;
        }
        let data = self.gather(dim, &idxs);
        let mut new_shape = copy_vec(&self.shape);
        new_shape[dim] = length;
        proof {
            assert(new_shape@ =~= s.update(d, length));
        }
        Tensor {
            shape: new_shape,
            data,
            kind: self.kind,
            device: self.device,
            requires_grad: self.requires_grad,
        }
    }

    /// A gather along axis `dim`: row `m` of the result is row `index[m]` of
    /// the source; the axis is kept with length equal to the index count.
    /// The caller has already checked that the result fits in memory.
    pub fn index_select(&self, dim: usize, index: &Tensor) -> (r: Tensor)
        requires
            self@.wf(),
            index@.wf(),
            index@.rank() == 1,
            dim < self@.rank(),
            forall|j: int| 0 <= j < index@.data.len() ==> 0 <= #[trigger] index@.data[j]
                < self@.shape[dim as int],
            prod(self@.shape.update(dim as int, index@.data.len() as i64)) <= usize::MAX,
        ensures
            r@.wf(),
            r@.shape == self@.shape.update(dim as int, index@.data.len() as i64),
            r@.data == gather_data(self@.shape, self@.data, dim as int, index@.data),
            r@.kind == self@.kind,
            r@.device == self@.device,
            r@.requires_grad == self@.requires_grad,
    {
        let ghost s = self@.shape;
        let ghost d = dim as int;
        let idxs = index.values();
        proof {
            // A rank-1 tensor has as many elements as its one dimension says,
            // so the index count fits in an `i64`.
            assert(index@.shape.skip(1) =~= Seq::<i64>::empty());
            assert(prod(Seq::<i64>::empty()) == 1);
            assert(index@.data.len() == index@.shape[0]);
            lemma_prod_nonneg(s.update(d, index@.data.len() as i64));
        }
        let data = self.gather(dim, &idxs);
        let k = idxs.len() as i64;
        let mut new_shape = copy_vec(&self.shape);
        new_shape[dim] = k;
        proof {
            assert(new_shape@ =~= s.update(d, index@.data.len() as i64));
        }
        Tensor {
            shape: new_shape,
            data,
            kind: self.kind,
            device: self.device,
            requires_grad: self.requires_grad,
        }
    }

    /// Inserts a new length-1 axis at position `dim` without consuming an
    /// existing one; the elements are untouched.
    pub fn unsqueeze(&self, dim: usize) -> (r: Tensor)
        requires
            self@.wf(),
            dim <= self@.rank(),
        ensures
            r@.wf(),
            r@.shape == self@.shape.insert(dim as int, 1i64),
            r@.data == self@.data,
            r@.kind == self@.kind,
            r@.device == self@.device,
            r@.requires_grad == self@.requires_grad,
    {
        let mut new_shape = copy_vec(&self.shape);
        new_shape.insert(dim, 1);
        proof {
            lemma_prod_insert_one(self@.shape, dim as int);
        }
        Tensor {
            shape: new_shape,
            data: copy_vec(&self.data),
            kind: self.kind,
            device: self.device,
            requires_grad: self.requires_grad,
        }
    }

    /// Overwrites the elements in place with those of `src`, which must hold
    /// as many; shape, kind, device and gradient bookkeeping stay untouched.
    pub fn copy_(&mut self, src: &Tensor)
        requires
            src@.data.len() == old(self)@.data.len(),
        ensures
            final(self)@ == old(self)@.with_data(src@.data),
    {
        self.data = copy_vec(&src.data);
    }
}

} // verus!
