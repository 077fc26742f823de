//! The index specification compiler and evaluator.
//!
//! A heterogeneous, Python-slice-like index expression is first normalized
//! into an ordered sequence of `TensorIndexer` terms, then evaluated against a
//! source tensor as a pipeline of primitive single-axis view operations.  The
//! evaluator keeps an axis cursor: a select removes the current axis and
//! leaves the cursor in place, every other term advances it.

use vstd::prelude::*;
use crate::device::Kind;
use crate::shape::{prod, try_numel};
use crate::tensor::{gather_data, range_idxs, Tensor, TensorModel};

verus! {

/// The marker users put in an index expression to insert a new length-1 axis.
pub struct NewAxis;

/// One end of a range index.
#[derive(Clone, Copy, Debug, PartialEq, Eq, Structural)]
pub enum Bound {
    Included(i64),
    Excluded(i64),
    Unbounded,
}

/// A normalized index term.
pub enum TensorIndexer {
    /// Consumes an axis and removes it from the result.
    Select(i64),
    /// Consumes an axis, keeping a sub-range of it.
    Narrow(Bound, Bound),
    /// Consumes an axis by gather-style selection: the axis is kept, its
    /// length becomes the index tensor's element count.
    IndexSelect(Tensor),
    /// Inserts a new length-1 axis without consuming an existing one.
    InsertNewAxis,
}

/// Why an index expression was rejected.
#[derive(Clone, Copy, Debug, PartialEq, Eq, Structural)]
pub enum IndexError {
    /// An index tensor has more than one dimension or a non-integer element
    /// kind; detected before any view primitive executes.
    UnsupportedIndexKind,
    /// More index terms than the tensor has axes; the payload is the tensor's
    /// rank.  Detected before any view primitive executes.
    IndexArityError(usize),
    /// A view primitive rejected a resolved bound; the payload is the
    /// offending term's position.
    ViewOperationError(usize),
}

/// The resolved inclusive start of a narrow, before validity is checked.
pub open spec fn narrow_start(b: Bound) -> int {
    match b {
        Bound::Included(a) => a as int,
        Bound::Excluded(a) => a + 1,
        Bound::Unbounded => 0,
    }
}

/// The resolved exclusive end of a narrow against an axis of length `len`,
/// before validity is checked.
pub open spec fn narrow_end(b: Bound, len: i64) -> int {
    match b {
        Bound::Included(a) => a + 1,
        Bound::Excluded(a) => a as int,
        Bound::Unbounded => len as int,
    }
}

/// A well-formed term: an index tensor carries a well-formed value.
pub open spec fn term_wf(term: TensorIndexer) -> bool {
    match term {
        TensorIndexer::IndexSelect(t) => t@.wf(),
        _ => true,
    }
}

/// The outcome of one evaluator step on value `m` with the cursor at
/// `cursor`, for the term at position `pos`: the stepped value and the new
/// cursor, or the error the step reports.
pub open spec fn step_result(m: TensorModel, cursor: int, pos: int, term: TensorIndexer)
    -> Result<(TensorModel, int), IndexError> {
    match term {
        TensorIndexer::InsertNewAxis => Ok(
            (TensorModel { shape: m.shape.insert(cursor, 1i64), ..m }, cursor + 1),
        ),
        TensorIndexer::Select(i) => if 0 <= i < m.shape[cursor] {
            Ok(
                (
                    TensorModel {
                        shape: m.shape.remove(cursor),
                        data: gather_data(m.shape, m.data, cursor, seq![i]),
                        ..m
                    },
                    cursor,
                ),
            )
        } else {
            Err(IndexError::ViewOperationError(pos as usize))
        },
        TensorIndexer::Narrow(Bound::Unbounded, Bound::Unbounded) => Ok((m, cursor + 1)),
        TensorIndexer::Narrow(lo, up) => {
            let start = narrow_start(lo);
            let end = narrow_end(up, m.shape[cursor]);
            if 0 <= start && start <= end && end <= m.shape[cursor] {
                Ok(
                    (
                        TensorModel {
                            shape: m.shape.update(cursor, (end - start) as i64),
                            data: gather_data(
                                m.shape,
                                m.data,
                                cursor,
                                range_idxs(start as i64, (end - start) as i64),
                            ),
                            ..m
                        },
                        cursor + 1,
                    ),
                )
            } else {
                Err(IndexError::ViewOperationError(pos as usize))
            }
        },
        TensorIndexer::IndexSelect(t) => if !(t@.rank() == 1
            && t@.kind.spec_is_index_kind()) {
            Err(IndexError::UnsupportedIndexKind)
        } else if (forall|j: int| 0 <= j < t@.data.len() ==> 0 <= #[trigger] t@.data[j]
            < m.shape[cursor]) && prod(m.shape.update(cursor, t@.data.len() as i64))
            <= usize::MAX {
            Ok(
                (
                    TensorModel {
                        shape: m.shape.update(cursor, t@.data.len() as i64),
                        data: gather_data(m.shape, m.data, cursor, t@.data),
                        ..m
                    },
                    cursor + 1,
                ),
            )
        } else {
            Err(IndexError::ViewOperationError(pos as usize))
        },
    }
}

/// Evaluates the terms from position `pos` on against value `m` with the
/// cursor at `cursor`.
pub open spec fn spec_eval_from(
    m: TensorModel,
    terms: Seq<TensorIndexer>,
    pos: int,
    cursor: int,
) -> Result<TensorModel, IndexError>
    decreases terms.len() - pos,
{
    if pos < 0 || pos >= terms.len() {
        Ok(m)
    } else {
        match step_result(m, cursor, pos, terms[pos]) {
            Ok(stepped) => spec_eval_from(stepped.0, terms, pos + 1, stepped.1),
            Err(e) => Err(e),
        }
    }
}

/// What indexing a tensor of value `m` with `terms` returns: the arity is
/// checked first, then the terms are evaluated left to right with the cursor
/// starting at axis 0.
pub open spec fn spec_eval(m: TensorModel, terms: Seq<TensorIndexer>)
    -> Result<TensorModel, IndexError> {
    if terms.len() > m.shape.len() {
        Err(IndexError::IndexArityError(m.shape.len() as usize))
    } else {
        spec_eval_from(m, terms, 0, 0)
    }
}

impl TensorIndexer {
    /// Normalizes a tensor-valued index: accepted exactly when the tensor is
    /// rank-1 of a signed-integer kind, and rejected with
    /// `UnsupportedIndexKind` otherwise, before any view primitive executes.
    pub fn from_tensor(tensor: &Tensor) -> (r: Result<TensorIndexer, IndexError>)
        ensures
            match r {
                Ok(term) => tensor@.rank() == 1 && tensor@.kind.spec_is_index_kind() && (
                term matches TensorIndexer::IndexSelect(t) && t@ == tensor@),
                Err(e) => e == IndexError::UnsupportedIndexKind && !(tensor@.rank() == 1
                    && tensor@.kind.spec_is_index_kind()),
            },
    {
        if tensor.dim() != 1 {
            Err(IndexError::UnsupportedIndexKind)
        } else if !tensor.kind().is_index_kind() {
            Err(IndexError::UnsupportedIndexKind)
        } else {
            Ok(TensorIndexer::IndexSelect(tensor.shallow_clone()))
        }
    }

    /// Normalizes a plain integer sequence: it is materialized into a rank-1
    /// integer tensor and gathered from.
    pub fn from_slice(values: Vec<i64>, kind: Kind, device: crate::device::Device) -> (r:
        TensorIndexer)
        requires
            values@.len() <= i64::MAX,
            kind.spec_is_index_kind(),
        ensures
            (r matches TensorIndexer::IndexSelect(t) && t@.wf() && t@.data == values@
                && t@.rank() == 1 && t@.kind == kind),
    {
        TensorIndexer::IndexSelect(Tensor::from_values(values, kind, device))
    }
}

impl Tensor {
    /// Evaluates a normalized index expression against this tensor.
    ///
    /// The arity is checked first: more terms than the tensor has axes fail
    /// with `IndexArityError` before any view operation executes.  The terms
    /// are then applied left to right against the current intermediate
    /// tensor, each observing the shape as it stands after all prior steps.
    /// A term whose resolved bounds a view primitive would reject fails with
    /// `ViewOperationError` carrying the term's position; an index tensor of
    /// the wrong rank or kind fails with `UnsupportedIndexKind`.
    pub fn indexer(&self, index_spec: &Vec<TensorIndexer>) -> (r: Result<Tensor, IndexError>)
        requires
            self@.wf(),
            forall|j: int| 0 <= j < index_spec@.len() ==> term_wf(#[trigger] index_spec@[j]),
        ensures
            match r {
                Ok(t) => t@.wf() && spec_eval(self@, index_spec@) == Ok::<
                    TensorModel,
                    IndexError,
                >(t@),
                Err(e) => spec_eval(self@, index_spec@) == Err::<TensorModel, IndexError>(e),
            },
    {
        let ghost terms = index_spec@;
        let n = index_spec.len();
        let rank0 = self.dim();
        if n > rank0 {
            return Err(IndexError::IndexArityError(rank0));
        }
        let mut curr = self.shallow_clone();
        let mut cursor: usize = 0;
        let mut j: usize = 0;
        while j < n
            invariant
                n == terms.len(),
                terms == index_spec@,
                n <= self@.shape.len(),
                forall|p: int| 0 <= p < terms.len() ==> term_wf(#[trigger] terms[p]),
                0 <= j <= n,
                curr@.wf(),
                cursor <= curr@.rank(),
                curr@.rank() - cursor >= n - j,
                spec_eval_from(self@, terms, 0, 0) == spec_eval_from(
                    curr@,
                    terms,
                    j as int,
                    cursor as int,
                ),
            decreases n - j,
        {
            let ghost m = curr@;
            let ghost c = cursor as int;
            // Binds the current rank to a machine word, so advancing the
            // cursor cannot overflow.
            let _rank = curr.dim();
            let term = &index_spec[j];
            match term {
                TensorIndexer::InsertNewAxis => {
                    let stepped = curr.unsqueeze(cursor);
                    proof {
                        assert(step_result(m, c, j as int, terms[j as int]) == Ok::<
                            (TensorModel, int),
                            IndexError,
                        >((stepped@, c + 1)));
                        assert(spec_eval_from(m, terms, j as int, c) == spec_eval_from(
                            stepped@,
                            terms,
                            j + 1,
                            c + 1,
                        ));
                    }
                    curr = stepped;
                    cursor = cursor + 1;
                },
                TensorIndexer::Select(i) => {
                    let l = curr.dim_len(cursor);
                    if *i < 0 || *i >= l {
                        proof {
                            assert(step_result(m, c, j as int, terms[j as int]) == Err::<
                                (TensorModel, int),
                                IndexError,
                            >(IndexError::ViewOperationError(j)));
                            assert(spec_eval_from(m, terms, j as int, c) == Err::<
                                TensorModel,
                                IndexError,
                            >(IndexError::ViewOperationError(j)));
                        }
                        return Err(IndexError::ViewOperationError(j));
                    }
                    let stepped = curr.select(cursor, *i);
                    proof {
                        assert(step_result(m, c, j as int, terms[j as int]) == Ok::<
                            (TensorModel, int),
                            IndexError,
                        >((stepped@, c)));
                        assert(spec_eval_from(m, terms, j as int, c) == spec_eval_from(
                            stepped@,
                            terms,
                            j + 1,
                            c,
                        ));
                    }
                    curr = stepped;
                },
                TensorIndexer::Narrow(lo, up) => {
                    let l = curr.dim_len(cursor);
                    let pass = match (lo, up) {
                        (Bound::Unbounded, Bound::Unbounded) => true,
                        _ => false,
                    };
                    if pass {
                        proof {
                            assert(step_result(m, c, j as int, terms[j as int]) == Ok::<
                                (TensorModel, int),
                                IndexError,
                            >((m, c + 1)));
                            assert(spec_eval_from(m, terms, j as int, c) == spec_eval_from(
                                m,
                                terms,
                                j + 1,
                                c + 1,
                            ));
                        }
                        cursor = cursor + 1;
                    } else {
                        let start: i128 = match lo {
                            Bound::Included(a) => *a as i128,
                            Bound::Excluded(a) => (*a as i128) + 1,
                            Bound::Unbounded => 0,
                        };
                        let end: i128 = match up {
                            Bound::Included(b) => (*b as i128) + 1,
                            Bound::Excluded(b) => *b as i128,
                            Bound::Unbounded => l as i128,
                        };
                        proof {
                            assert(start == narrow_start(*lo));
                            assert(end == narrow_end(*up, m.shape[c]));
                        }
                        if !(0 <= start && start <= end && end <= l as i128) {
                            proof {
                                assert(step_result(m, c, j as int, terms[j as int]) == Err::<
                                    (TensorModel, int),
                                    IndexError,
                                >(IndexError::ViewOperationError(j)));
                                assert(spec_eval_from(m, terms, j as int, c) == Err::<
                                    TensorModel,
                                    IndexError,
                                >(IndexError::ViewOperationError(j)));
                            }
                            return Err(IndexError::ViewOperationError(j));
                        }
                        let stepped = curr.narrow(cursor, start as i64, (end - start) as i64);
                        proof {
                            assert(step_result(m, c, j as int, terms[j as int]) == Ok::<
                                (TensorModel, int),
                                IndexError,
                            >((stepped@, c + 1)));
                            assert(spec_eval_from(m, terms, j as int, c) == spec_eval_from(
                                stepped@,
                                terms,
                                j + 1,
                                c + 1,
                            ));
                        }
                        curr = stepped;
                        cursor = cursor + 1;
                    }
                },
                TensorIndexer::IndexSelect(t) => {
                    if t.dim() != 1 || !t.kind().is_index_kind() {
                        proof {
                            assert(step_result(m, c, j as int, terms[j as int]) == Err::<
                                (TensorModel, int),
                                IndexError,
                            >(IndexError::UnsupportedIndexKind));
                            assert(spec_eval_from(m, terms, j as int, c) == Err::<
                                TensorModel,
                                IndexError,
                            >(IndexError::UnsupportedIndexKind));
                        }
                        return Err(IndexError::UnsupportedIndexKind);
                    }
                    let l = curr.dim_len(cursor);
                    let vals = t.values();
                    let mut v: usize = 0;
                    let mut in_range = true;
                    while v < vals.len()
                        invariant
                            vals@ == t@.data,
                            l == m.shape[c],
                            0 <= v <= vals@.len(),
                            in_range == (forall|q: int| 0 <= q < v ==> 0 <= #[trigger] vals@[q]
                                < l),
                        decreases vals@.len() - v,
                    {
                        if vals[v] < 0 || vals[v] >= l {
                            in_range = false;
                        }
                        v += 1;
                    }
                    proof {
                        // A rank-1 tensor has as many elements as its one
                        // dimension says, so the count fits an `i64`.
                        assert(t@.shape.skip(1) =~= Seq::<i64>::empty());
                        assert(prod(Seq::<i64>::empty()) == 1);
                        assert(t@.data.len() == t@.shape[0]);
                    }
                    let mut new_shape = curr.size();
                    new_shape[cursor] = vals.len() as i64;
                    proof {
                        assert(new_shape@ =~= m.shape.update(c, t@.data.len() as i64));
                    }
                    let fits = match try_numel(&new_shape) {
                        Some(count) => true,
                        None => false,
                    };
                    if !in_range || !fits {
                        proof {
                            assert(step_result(m, c, j as int, terms[j as int]) == Err::<
                                (TensorModel, int),
                                IndexError,
                            >(IndexError::ViewOperationError(j)));
                        }
                        return Err(IndexError::ViewOperationError(j));
                    }
                    let stepped = curr.index_select(cursor, t);
                    proof {
                        assert(step_result(m, c, j as int, terms[j as int]) == Ok::<
                            (TensorModel, int),
                            IndexError,
                        >((stepped@, c + 1)));
                    }
                    curr = stepped;
                    cursor = cursor + 1;
                },
            }
            j += 1;
        }
        proof {
            assert(spec_eval_from(curr@, terms, n as int, cursor as int) == Ok::<
                TensorModel,
                IndexError,
            >(curr@));
        }
        Ok(curr)
    }

    /// Indexes with a single term: the one-term case of `indexer`.
    pub fn i(&self, index: TensorIndexer) -> (r: Result<Tensor, IndexError>)
        requires
            self@.wf(),
            term_wf(index),
        ensures
            match r {
                Ok(t) => t@.wf() && spec_eval(self@, seq![index]) == Ok::<
                    TensorModel,
                    IndexError,
                >(t@),
                Err(e) => spec_eval(self@, seq![index]) == Err::<TensorModel, IndexError>(e),
            },
    {
        let ghost gindex = index;
        let mut one: Vec<TensorIndexer> = Vec::new();
        one.push(index);
        proof {
            assert(one@ =~= seq![gindex]);
        }
        self.indexer(&one)
    }
}

impl From<NewAxis> for TensorIndexer {
    fn from(marker: NewAxis) -> (r: TensorIndexer) {
        TensorIndexer::InsertNewAxis
    }
}

impl vstd::std_specs::convert::FromSpecImpl<NewAxis> for TensorIndexer {
    open spec fn obeys_from_spec() -> bool {
        true
    }

    open spec fn from_spec(marker: NewAxis) -> TensorIndexer {
        TensorIndexer::InsertNewAxis
    }
}

impl From<i64> for TensorIndexer {
    fn from(index: i64) -> (r: TensorIndexer) {
        TensorIndexer::Select(index)
    }
}

impl vstd::std_specs::convert::FromSpecImpl<i64> for TensorIndexer {
    open spec fn obeys_from_spec() -> bool {
        true
    }

    open spec fn from_spec(index: i64) -> TensorIndexer {
        TensorIndexer::Select(index)
    }
}

} // verus!
