//! Exact matrices over the Gaussian integers.
//!
//! The fixed gates whose entries are 0, ±1 and ±i have an exact matrix. Such
//! an entry is written as a pair `(re, im)` of integers, a matrix as the
//! sequence of its entries row by row. On these matrices the algebra is that
//! of the integers, and what is said of a gate (that it is unitary, that it
//! is its own inverse) is proved, not measured.

use vstd::arithmetic::div_mod::{
    lemma_fundamental_div_mod, lemma_fundamental_div_mod_converse, lemma_mod_bound,
    lemma_multiply_divide_lt,
};
use vstd::prelude::*;

verus! {

/// The sum of two Gaussian integers.
pub open spec fn gi_sum(a: (int, int), b: (int, int)) -> (int, int) {
    (a.0 + b.0, a.1 + b.1)
}

/// The product of two Gaussian integers.
pub open spec fn gi_product(a: (int, int), b: (int, int)) -> (int, int) {
    (a.0 * b.0 - a.1 * b.1, a.0 * b.1 + a.1 * b.0)
}

/// The conjugate of a Gaussian integer.
pub open spec fn gi_conjugate(a: (int, int)) -> (int, int) {
    (a.0, -a.1)
}

/// The sum of the first `upto` terms of row `r` of `a` times column `c` of
/// `b`, for square matrices of dimension `dim`.
pub open spec fn dot(
    a: Seq<(int, int)>,
    b: Seq<(int, int)>,
    dim: int,
    r: int,
    c: int,
    upto: int,
) -> (int, int)
    decreases upto,
{
    if upto <= 0 {
        (0, 0)
    } else {
        gi_sum(
            dot(a, b, dim, r, c, upto - 1),
            gi_product(a[r * dim + (upto - 1)], b[(upto - 1) * dim + c]),
        )
    }
}

/// The matrix product `a·b` of square matrices of dimension `dim`.
pub open spec fn matrix_product(a: Seq<(int, int)>, b: Seq<(int, int)>, dim: int) -> Seq<
    (int, int),
> {
    Seq::new((dim * dim) as nat, |k: int| dot(a, b, dim, k / dim, k % dim, dim))
}

/// The conjugate transpose of a square matrix of dimension `dim`.
pub open spec fn adjoint(a: Seq<(int, int)>, dim: int) -> Seq<(int, int)> {
    Seq::new((dim * dim) as nat, |k: int| gi_conjugate(a[(k % dim) * dim + k / dim]))
}

/// The identity matrix of dimension `dim`.
pub open spec fn identity_matrix(dim: int) -> Seq<(int, int)> {
    Seq::new(
        (dim * dim) as nat,
        |k: int|
            if k / dim == k % dim {
                (1, 0)
            } else {
                (0, 0)
            },
    )
}

/// `U†·U = I`.
pub open spec fn is_unitary(u: Seq<(int, int)>, dim: int) -> bool {
    u.len() == dim * dim && matrix_product(adjoint(u, dim), u, dim) == identity_matrix(dim)
}

/// `U·U = I`.
pub open spec fn is_self_inverse(u: Seq<(int, int)>, dim: int) -> bool {
    u.len() == dim * dim && matrix_product(u, u, dim) == identity_matrix(dim)
}

/// Zero times anything is zero.
pub proof fn lemma_zero_annihilates(zero: (int, int), other: (int, int))
    requires
        zero == (0int, 0int),
    ensures
        gi_product(zero, other) == (0int, 0int),
        gi_product(other, zero) == (0int, 0int),
{
    let (a, b) = zero;
    let (c, d) = other;
    assert(a * c == 0 && b * d == 0 && a * d == 0 && b * c == 0 && c * a == 0 && d * b == 0 && c
        * b == 0 && d * a == 0) by (nonlinear_arith)
        requires
            a == 0,
            b == 0,
    ;
}

/// A row with at most one entry that is not zero contributes one term to a
/// dot product.
pub proof fn lemma_dot_of_sparse_row(
    a: Seq<(int, int)>,
    b: Seq<(int, int)>,
    dim: int,
    r: int,
    c: int,
    at: int,
    upto: int,
)
    requires
        0 <= at < dim,
        0 <= upto <= dim,
        forall|k: int| 0 <= k < dim && k != at ==> #[trigger] a[r * dim + k] == (0int, 0int),
    ensures
        dot(a, b, dim, r, c, upto) == if at < upto {
            gi_product(a[r * dim + at], b[at * dim + c])
        } else {
            (0int, 0int)
        },
    decreases upto,
{
    if upto > 0 {
        lemma_dot_of_sparse_row(a, b, dim, r, c, at, upto - 1);
        if upto - 1 != at {
            let skipped = a[r * dim + (upto - 1)];
            let other = b[(upto - 1) * dim + c];
            assert(skipped == (0int, 0int));
            lemma_zero_annihilates(skipped, other);
        }
    }
}

/// The matrix that has, in each row `r`, the entry `weight(r)` in column
/// `image(r)` and zero in every other column: a permutation with a factor on
/// each row.
pub open spec fn monomial_matrix(
    dim: int,
    image: spec_fn(int) -> int,
    weight: spec_fn(int) -> (int, int),
) -> Seq<(int, int)> {
    Seq::new(
        (dim * dim) as nat,
        |k: int|
            if k % dim == image(k / dim) {
                weight(k / dim)
            } else {
                (0int, 0int)
            },
    )
}

/// Row `r`, column `c` is entry `r·dim + c`, and the other way round.
pub proof fn lemma_cell(dim: int, r: int, c: int)
    requires
        0 <= r < dim,
        0 <= c < dim,
    ensures
        0 <= r * dim + c < dim * dim,
        (r * dim + c) / dim == r,
        (r * dim + c) % dim == c,
{
    assert(0 <= r * dim + c < dim * dim) by (nonlinear_arith)
        requires
            0 <= r < dim,
            0 <= c < dim,
    ;
    lemma_fundamental_div_mod_converse(r * dim + c, dim, r, c);
}

/// Entry `k` of a matrix lies in row `k / dim` and column `k % dim`.
pub proof fn lemma_cell_of(dim: int, k: int)
    requires
        0 < dim,
        0 <= k < dim * dim,
    ensures
        0 <= k / dim < dim,
        0 <= k % dim < dim,
        k == (k / dim) * dim + k % dim,
{
    lemma_fundamental_div_mod(k, dim);
    lemma_mod_bound(k, dim);
    lemma_multiply_divide_lt(k, dim, dim);
    assert(0 <= k / dim) by (nonlinear_arith)
        requires
            0 < dim,
            0 <= k,
    ;
    assert(dim * (k / dim) == (k / dim) * dim) by (nonlinear_arith);
}

/// A monomial matrix whose permutation is an involution, and whose factors
/// on exchanged rows multiply to one, is its own inverse.
pub proof fn theorem_monomial_self_inverse(
    dim: int,
    image: spec_fn(int) -> int,
    weight: spec_fn(int) -> (int, int),
)
    requires
        0 < dim,
        forall|r: int|
            0 <= r < dim ==> {
                &&& 0 <= #[trigger] image(r) < dim
                &&& image(image(r)) == r
                &&& gi_product(weight(r), weight(image(r))) == (1int, 0int)
            },
    ensures
        is_self_inverse(monomial_matrix(dim, image, weight), dim),
{
    let m = monomial_matrix(dim, image, weight);
    assert forall|k: int| 0 <= k < dim * dim implies #[trigger] matrix_product(m, m, dim)[k]
        == identity_matrix(dim)[k] by {
        lemma_cell_of(dim, k);
        let r = k / dim;
        let c = k % dim;
        let at = image(r);
        assert forall|j: int| 0 <= j < dim && j != at implies #[trigger] m[r * dim + j] == (
            0int,
            0int,
        ) by {
            lemma_cell(dim, r, j);
        }
        lemma_dot_of_sparse_row(m, m, dim, r, c, at, dim);
        lemma_cell(dim, r, at);
        lemma_cell(dim, at, c);
        if c != r {
            lemma_zero_annihilates(m[at * dim + c], m[r * dim + at]);
        }
    }
    assert(matrix_product(m, m, dim) =~= identity_matrix(dim));
}

/// A monomial matrix whose permutation can be undone, and whose factors have
/// modulus one, is unitary.
pub proof fn theorem_monomial_unitary(
    dim: int,
    image: spec_fn(int) -> int,
    inverse: spec_fn(int) -> int,
    weight: spec_fn(int) -> (int, int),
)
    requires
        0 < dim,
        forall|r: int|
            0 <= r < dim ==> {
                &&& 0 <= #[trigger] image(r) < dim
                &&& inverse(image(r)) == r
            },
        forall|r: int|
            0 <= r < dim ==> {
                &&& 0 <= #[trigger] inverse(r) < dim
                &&& image(inverse(r)) == r
            },
        forall|r: int|
            0 <= r < dim ==> gi_product(gi_conjugate(#[trigger] weight(r)), weight(r)) == (
                1int,
                0int,
            ),
    ensures
        is_unitary(monomial_matrix(dim, image, weight), dim),
{
    let m = monomial_matrix(dim, image, weight);
    let a = adjoint(m, dim);
    assert forall|k: int| 0 <= k < dim * dim implies #[trigger] matrix_product(a, m, dim)[k]
        == identity_matrix(dim)[k] by {
        lemma_cell_of(dim, k);
        let r = k / dim;
        let c = k % dim;
        let at = inverse(r);
        assert forall|j: int| 0 <= j < dim && j != at implies #[trigger] a[r * dim + j] == (
            0int,
            0int,
        ) by {
            lemma_cell(dim, r, j);
            lemma_cell(dim, j, r);
            assert(image(j) != r);
        }
        lemma_dot_of_sparse_row(a, m, dim, r, c, at, dim);
        lemma_cell(dim, r, at);
        lemma_cell(dim, at, r);
        lemma_cell(dim, at, c);
        if c != r {
            lemma_zero_annihilates(m[at * dim + c], a[r * dim + at]);
        }
    }
    assert(matrix_product(a, m, dim) =~= identity_matrix(dim));
}

} // verus!
