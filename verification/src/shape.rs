//! The product of a sequence of dimensions, and the lemmas the tensor
//! operations need about it.

use vstd::prelude::*;

verus! {

/// The number of elements of a tensor with dimensions `s`: the product of the
/// dimensions, `1` for the empty (scalar) shape.
pub open spec fn prod(s: Seq<i64>) -> int
    decreases s.len(),
{
    if s.len() == 0 {
        1
    } else {
        s[0] * prod(s.skip(1))
    }
}

/// A well-formed dimension list: no negative dimension, and few enough
/// elements to address with a machine word.
pub open spec fn dims_ok(dims: Seq<i64>) -> bool {
    &&& forall|i: int| 0 <= i < dims.len() ==> 0 <= #[trigger] dims[i]
    &&& prod(dims) <= usize::MAX
}

pub proof fn lemma_prod_concat(a: Seq<i64>, b: Seq<i64>)
    ensures
        prod(a + b) == prod(a) * prod(b),
    decreases a.len(),
{
    if a.len() == 0 {
        assert(a + b =~= b);
    } else {
        lemma_prod_concat(a.skip(1), b);
        assert((a + b).skip(1) =~= a.skip(1) + b);
        assert(prod(a + b) == a[0] * (prod(a.skip(1)) * prod(b)));
        assert(a[0] * (prod(a.skip(1)) * prod(b)) == (a[0] * prod(a.skip(1))) * prod(b))
            by (nonlinear_arith);
    }
}

pub proof fn lemma_prod_push(s: Seq<i64>, x: i64)
    ensures
        prod(s.push(x)) == prod(s) * x,
{
    assert(s.push(x) =~= s + seq![x]);
    lemma_prod_concat(s, seq![x]);
    assert(seq![x].skip(1) =~= Seq::<i64>::empty());
    assert(prod(Seq::<i64>::empty()) == 1);
    assert(prod(seq![x]) == x);
}

pub proof fn lemma_prod_nonneg(s: Seq<i64>)
    requires
        forall|i: int| 0 <= i < s.len() ==> 0 <= #[trigger] s[i],
    ensures
        prod(s) >= 0,
    decreases s.len(),
{
    if s.len() > 0 {
        lemma_prod_nonneg(s.skip(1));
        assert(s[0] * prod(s.skip(1)) >= 0) by (nonlinear_arith)
            requires
                s[0] >= 0,
                prod(s.skip(1)) >= 0,
        ;
    }
}

pub proof fn lemma_prod_pos(s: Seq<i64>)
    requires
        forall|i: int| 0 <= i < s.len() ==> 1 <= #[trigger] s[i],
    ensures
        prod(s) >= 1,
    decreases s.len(),
{
    if s.len() > 0 {
        lemma_prod_pos(s.skip(1));
        assert(s[0] * prod(s.skip(1)) >= 1) by (nonlinear_arith)
            requires
                s[0] >= 1,
                prod(s.skip(1)) >= 1,
        ;
    }
}

pub proof fn lemma_prod_zero(s: Seq<i64>, i: int)
    requires
        0 <= i < s.len(),
        s[i] == 0,
    ensures
        prod(s) == 0,
{
    assert(s =~= s.take(i) + seq![s[i]] + s.skip(i + 1));
    lemma_prod_concat(s.take(i) + seq![s[i]], s.skip(i + 1));
    lemma_prod_concat(s.take(i), seq![s[i]]);
    assert(seq![s[i]].skip(1) =~= Seq::<i64>::empty());
    assert(prod(Seq::<i64>::empty()) == 1);
    assert(prod(seq![s[i]]) == 0);
    assert(prod(s.take(i) + seq![s[i]]) == prod(s.take(i)) * 0 == 0);
    assert(prod(s) == 0 * prod(s.skip(i + 1)) == 0);
}

/// The product splits at any axis `d` into the product of the prefix, the
/// dimension at `d`, and the product of the suffix.
pub proof fn lemma_prod_split(s: Seq<i64>, d: int)
    requires
        0 <= d < s.len(),
    ensures
        prod(s) == prod(s.take(d)) * s[d] * prod(s.skip(d + 1)),
{
    assert(s =~= s.take(d) + seq![s[d]] + s.skip(d + 1));
    lemma_prod_concat(s.take(d) + seq![s[d]], s.skip(d + 1));
    lemma_prod_concat(s.take(d), seq![s[d]]);
    assert(seq![s[d]].skip(1) =~= Seq::<i64>::empty());
    assert(prod(Seq::<i64>::empty()) == 1);
    assert(prod(seq![s[d]]) == s[d]);
}

/// When every dimension is at least one, every prefix product is bounded by
/// the whole product.
pub proof fn lemma_prod_prefix_le(s: Seq<i64>, j: int)
    requires
        forall|i: int| 0 <= i < s.len() ==> 1 <= #[trigger] s[i],
        0 <= j <= s.len(),
    ensures
        prod(s.take(j)) <= prod(s),
{
    assert(s =~= s.take(j) + s.skip(j));
    lemma_prod_concat(s.take(j), s.skip(j));
    lemma_prod_pos(s.take(j));
    lemma_prod_pos(s.skip(j));
    assert(prod(s.take(j)) * prod(s.skip(j)) >= prod(s.take(j))) by (nonlinear_arith)
        requires
            prod(s.take(j)) >= 1,
            prod(s.skip(j)) >= 1,
    ;
}

/// When every dimension is at least one, every suffix product is bounded by
/// the whole product.
pub proof fn lemma_prod_suffix_le(s: Seq<i64>, j: int)
    requires
        forall|i: int| 0 <= i < s.len() ==> 1 <= #[trigger] s[i],
        0 <= j <= s.len(),
    ensures
        prod(s.skip(j)) <= prod(s),
{
    assert(s =~= s.take(j) + s.skip(j));
    lemma_prod_concat(s.take(j), s.skip(j));
    lemma_prod_pos(s.take(j));
    lemma_prod_pos(s.skip(j));
    assert(prod(s.take(j)) * prod(s.skip(j)) >= prod(s.skip(j))) by (nonlinear_arith)
        requires
            prod(s.take(j)) >= 1,
            prod(s.skip(j)) >= 1,
    ;
}

/// Removing an axis leaves the product of the remaining axes.
pub proof fn lemma_prod_remove(s: Seq<i64>, d: int)
    requires
        0 <= d < s.len(),
    ensures
        prod(s.remove(d)) == prod(s.take(d)) * prod(s.skip(d + 1)),
{
    assert(s.remove(d) =~= s.take(d) + s.skip(d + 1));
    lemma_prod_concat(s.take(d), s.skip(d + 1));
}

/// Inserting a length-1 axis leaves the product unchanged.
pub proof fn lemma_prod_insert_one(s: Seq<i64>, d: int)
    requires
        0 <= d <= s.len(),
    ensures
        prod(s.insert(d, 1i64)) == prod(s),
{
    let a = s.take(d);
    let b = s.skip(d);
    assert(s.insert(d, 1i64) =~= (a + seq![1i64]) + b);
    assert(s =~= a + b);
    lemma_prod_concat(a + seq![1i64], b);
    lemma_prod_concat(a, seq![1i64]);
    lemma_prod_concat(a, b);
    assert(seq![1i64].skip(1) =~= Seq::<i64>::empty());
    assert(prod(Seq::<i64>::empty()) == 1);
    assert(prod(seq![1i64]) == 1);
    assert(prod(a + seq![1i64]) == prod(a) * 1 == prod(a));
    assert(prod(s.insert(d, 1i64)) == prod(a + seq![1i64]) * prod(b));
    assert(prod(s) == prod(a) * prod(b));
}

/// The number of elements of a shape, or `None` where it exceeds the machine
/// word: the check a growing view operation makes before allocating.
pub fn try_numel(dims: &Vec<i64>) -> (n: Option<usize>)
    requires
        forall|i: int| 0 <= i < dims@.len() ==> 0 <= #[trigger] dims@[i],
    ensures
        match n {
            Some(v) => v == prod(dims@) && prod(dims@) <= usize::MAX,
            None => prod(dims@) > usize::MAX,
        },
{
    let len = dims.len();
    let mut j: usize = 0;
    while j < len
        invariant
            len == dims@.len(),
            0 <= j <= len,
            forall|i: int| 0 <= i < dims@.len() ==> 0 <= #[trigger] dims@[i],
            forall|i: int| 0 <= i < j ==> 1 <= #[trigger] dims@[i],
        decreases len - j,
    {
        if dims[j] == 0 {
            proof {
                lemma_prod_zero(dims@, j as int);
            }
            return Some(0);
        }
        j += 1;
    }
    let mut acc: usize = 1;
    let mut k: usize = 0;
    proof {
        assert(dims@.take(0) =~= Seq::<i64>::empty());
    }
    while k < len
        invariant
            len == dims@.len(),
            0 <= k <= len,
            forall|i: int| 0 <= i < len ==> 1 <= #[trigger] dims@[i],
            acc == prod(dims@.take(k as int)),
            acc >= 1,
        decreases len - k,
    {
        proof {
            lemma_prod_push(dims@.take(k as int), dims@[k as int]);
            assert(dims@.take(k + 1) =~= dims@.take(k as int).push(dims@[k as int]));
            lemma_prod_prefix_le(dims@, k + 1);
        }
        let d = dims[k];
        if (d as u64) > (usize::MAX as u64) {
            // The prefix product already exceeds the machine word, and the
            // remaining dimensions are all at least one.
            proof {
                assert(acc * d > usize::MAX) by (nonlinear_arith)
                    requires
                        acc >= 1,
                        d > usize::MAX,
                ;
            }
            return None;
        }
        match acc.checked_mul(d as usize) {
            Some(next) => {
                acc = next;
            },
            None => {
                return None;
            },
        }
        k += 1;
        proof {
            lemma_prod_pos(dims@.take(k as int));
        }
    }
    proof {
        assert(dims@.take(len as int) =~= dims@);
    }
    Some(acc)
}

/// The number of elements of a tensor with dimensions `dims`, as a machine
/// word.
pub fn numel_of(dims: &Vec<i64>) -> (n: usize)
    requires
        dims_ok(dims@),
    ensures
        n == prod(dims@),
{
    let len = dims.len();
    let mut j: usize = 0;
    while j < len
        invariant
            len == dims@.len(),
            0 <= j <= len,
            dims_ok(dims@),
            forall|i: int| 0 <= i < j ==> 1 <= #[trigger] dims@[i],
        decreases len - j,
    {
        if dims[j] == 0 {
            proof {
                lemma_prod_zero(dims@, j as int);
            }
            return 0;
        }
        j += 1;
    }
    // Every dimension is positive: prefix products stay within `usize`.
    let mut acc: usize = 1;
    let mut k: usize = 0;
    proof {
        assert(dims@.take(0) =~= Seq::<i64>::empty());
    }
    while k < len
        invariant
            len == dims@.len(),
            0 <= k <= len,
            dims_ok(dims@),
            forall|i: int| 0 <= i < len ==> 1 <= #[trigger] dims@[i],
            acc == prod(dims@.take(k as int)),
        decreases len - k,
    {
        proof {
            lemma_prod_prefix_le(dims@, k + 1);
            lemma_prod_push(dims@.take(k as int), dims@[k as int]);
            assert(dims@.take(k + 1) =~= dims@.take(k as int).push(dims@[k as int]));
            lemma_prod_pos(dims@.take(k as int));
            assert(dims@[k as int] <= prod(dims@.take(k + 1))) by (nonlinear_arith)
                requires
                    prod(dims@.take(k + 1)) == prod(dims@.take(k as int)) * dims@[k as int],
                    prod(dims@.take(k as int)) >= 1,
                    dims@[k as int] >= 1,
            ;
        }
        acc = acc * (dims[k] as usize);
        k += 1;
    }
    proof {
        assert(dims@.take(len as int) =~= dims@);
    }
    acc
}

} // verus!
