//! Row-major layout arithmetic: element counts, strides and flat offsets.
//!
//! A shape lists the extent of each dimension, outermost first. The last
//! dimension varies fastest: its stride is 1 and every other stride is the
//! product of the extents that follow it. An index pairs with the strides
//! position by position: component `i` is multiplied by stride `i`.

use vstd::prelude::*;
use vstd::arithmetic::div_mod::{
    lemma_div_pos_is_pos, lemma_fundamental_div_mod_converse, lemma_mod_bound,
    lemma_mod_breakdown, lemma_small_mod,
};

verus! {

/// Product of the extents `shape[from..]`; 1 when there are none.
pub open spec fn product_from(shape: Seq<usize>, from: int) -> nat
    decreases shape.len() - from,
{
    if from >= shape.len() {
        1
    } else {
        (shape[from] as nat) * product_from(shape, from + 1)
    }
}

/// Number of cells that a shape addresses.
pub open spec fn product(shape: Seq<usize>) -> nat {
    product_from(shape, 0)
}

/// Row-major stride of dimension `dim`: the product of all extents after it.
pub open spec fn stride(shape: Seq<usize>, dim: int) -> nat {
    product_from(shape, dim + 1)
}

/// `strides` holds the row-major stride of every dimension of `shape`.
pub open spec fn is_row_major(strides: Seq<usize>, shape: Seq<usize>) -> bool {
    &&& strides.len() == shape.len()
    &&& forall|i: int| 0 <= i < shape.len() ==> strides[i] as nat == stride(shape, i)
}

/// Every extent is at least 1.
pub open spec fn positive(shape: Seq<usize>) -> bool {
    forall|i: int| 0 <= i < shape.len() ==> shape[i] > 0
}

/// `index` has one component per dimension, each below that dimension's extent.
pub open spec fn in_bounds(shape: Seq<usize>, index: Seq<usize>) -> bool {
    &&& index.len() == shape.len()
    &&& forall|i: int| 0 <= i < shape.len() ==> index[i] < shape[i]
}

/// Sum of `weights[i] * index[i]` over the positions `from..`.
pub open spec fn dot_from(weights: Seq<usize>, index: Seq<usize>, from: int) -> nat
    decreases index.len() - from,
{
    if from >= index.len() {
        0
    } else {
        (weights[from] as nat) * (index[from] as nat) + dot_from(
            weights,
            index,
            from + 1,
        )
    }
}

/// Sum of `weights[i] * index[i]` over all positions of `index`.
pub open spec fn dot(weights: Seq<usize>, index: Seq<usize>) -> nat {
    dot_from(weights, index, 0)
}

/// Sum of `index[i] * stride(shape, i)` over the dimensions `from..`.
pub open spec fn offset_from(shape: Seq<usize>, index: Seq<usize>, from: int) -> nat
    decreases shape.len() - from,
{
    if from >= shape.len() {
        0
    } else {
        (index[from] as nat) * stride(shape, from) + offset_from(shape, index, from + 1)
    }
}

/// Flat offset of `index` in a row-major buffer of the given shape.
pub open spec fn offset(shape: Seq<usize>, index: Seq<usize>) -> nat {
    offset_from(shape, index, 0)
}

/// The index whose flat offset is `position`: component `i` is
/// `(position / stride(shape, i)) % shape[i]`.
pub open spec fn unflatten(shape: Seq<usize>, position: nat) -> Seq<usize> {
    Seq::new(
        shape.len(),
        |i: int| ((position / stride(shape, i)) % (shape[i] as nat)) as usize,
    )
}

/// The strides obey the row-major recurrence: the last one is 1 and each
/// other one is the next stride times the next extent.
pub proof fn lemma_stride_recurrence(shape: Seq<usize>, dim: int)
    requires
        0 <= dim < shape.len(),
    ensures
        dim + 1 == shape.len() ==> stride(shape, dim) == 1,
        dim + 1 < shape.len() ==> stride(shape, dim) == stride(shape, dim + 1) * (shape[dim
            + 1] as nat),
{
    if dim + 1 < shape.len() {
        assert(stride(shape, dim) == (shape[dim + 1] as nat) * product_from(shape, dim + 2));
        assert((shape[dim + 1] as nat) * product_from(shape, dim + 2) == product_from(
            shape,
            dim + 2,
        ) * (shape[dim + 1] as nat)) by (nonlinear_arith);
    }
}

/// A zero extent at or after `from` makes the product from `from` zero.
pub proof fn lemma_product_zero(shape: Seq<usize>, from: int, zero_at: int)
    requires
        0 <= from <= zero_at < shape.len(),
        shape[zero_at] == 0,
    ensures
        product_from(shape, from) == 0,
    decreases zero_at - from,
{
    if from < zero_at {
        lemma_product_zero(shape, from + 1, zero_at);
        assert((shape[from] as nat) * 0 == 0) by (nonlinear_arith);
    } else {
        assert(0 * product_from(shape, from + 1) == 0) by (nonlinear_arith);
    }
}

/// With positive extents every partial product is at least 1.
pub proof fn lemma_product_positive(shape: Seq<usize>, from: int)
    requires
        positive(shape),
        0 <= from,
    ensures
        product_from(shape, from) >= 1,
    decreases shape.len() - from,
{
    if from < shape.len() {
        lemma_product_positive(shape, from + 1);
        let d = shape[from] as nat;
        let rest = product_from(shape, from + 1);
        assert(d * rest >= 1) by (nonlinear_arith)
            requires
                d >= 1,
                rest >= 1,
        ;
    }
}

/// With positive extents a product over fewer trailing extents is no larger.
pub proof fn lemma_product_monotone(shape: Seq<usize>, from: int, later: int)
    requires
        positive(shape),
        0 <= from <= later,
    ensures
        product_from(shape, later) <= product_from(shape, from),
    decreases later - from,
{
    if from < later {
        lemma_product_monotone(shape, from + 1, later);
        if from < shape.len() {
            let d = shape[from] as nat;
            let rest = product_from(shape, from + 1);
            assert(d * rest >= rest) by (nonlinear_arith)
                requires
                    d >= 1,
            ;
        } else {
            assert(product_from(shape, later) == 1);
            assert(product_from(shape, from) == 1);
        }
    }
}

/// The offsets contributed by the dimensions `from..` stay below the number
/// of cells that those dimensions span.
proof fn lemma_offset_from_bound(shape: Seq<usize>, index: Seq<usize>, from: int)
    requires
        in_bounds(shape, index),
        0 <= from,
    ensures
        offset_from(shape, index, from) < product_from(shape, from),
    decreases shape.len() - from,
{
    if from < shape.len() {
        lemma_offset_from_bound(shape, index, from + 1);
        let x = index[from] as nat;
        let d = shape[from] as nat;
        let s = stride(shape, from);
        let rest = offset_from(shape, index, from + 1);
        assert(x * s + rest < d * s) by (nonlinear_arith)
            requires
                x < d,
                rest < s,
        ;
    }
}

/// A valid index lands inside the buffer: its offset is below the number of
/// cells of the shape.
pub proof fn lemma_offset_in_range(shape: Seq<usize>, index: Seq<usize>)
    requires
        in_bounds(shape, index),
    ensures
        offset(shape, index) < product(shape),
{
    lemma_offset_from_bound(shape, index, 0);
}

/// Two valid indices whose offsets over the dimensions `from..` agree have
/// the same components from `from` on.
proof fn lemma_offset_from_injective(
    shape: Seq<usize>,
    a: Seq<usize>,
    b: Seq<usize>,
    from: int,
)
    requires
        in_bounds(shape, a),
        in_bounds(shape, b),
        0 <= from,
        offset_from(shape, a, from) == offset_from(shape, b, from),
    ensures
        forall|i: int| from <= i < shape.len() ==> a[i] == b[i],
    decreases shape.len() - from,
{
    if from < shape.len() {
        let s = stride(shape, from) as int;
        let total = offset_from(shape, a, from) as int;
        let rest_a = offset_from(shape, a, from + 1) as int;
        let rest_b = offset_from(shape, b, from + 1) as int;
        lemma_offset_from_bound(shape, a, from + 1);
        lemma_offset_from_bound(shape, b, from + 1);
        lemma_fundamental_div_mod_converse(total, s, a[from] as int, rest_a);
        lemma_fundamental_div_mod_converse(total, s, b[from] as int, rest_b);
        lemma_offset_from_injective(shape, a, b, from + 1);
    }
}

/// Distinct valid indices never share a cell: equal offsets mean equal indices.
pub proof fn lemma_offset_injective(shape: Seq<usize>, a: Seq<usize>, b: Seq<usize>)
    requires
        in_bounds(shape, a),
        in_bounds(shape, b),
        offset(shape, a) == offset(shape, b),
    ensures
        a == b,
{
    lemma_offset_from_injective(shape, a, b, 0);
    assert(a =~= b);
}

/// The components of `unflatten(shape, position)` from `from` on contribute
/// `position` reduced modulo the number of cells that those dimensions span.
proof fn lemma_unflatten_from(shape: Seq<usize>, position: nat, from: int)
    requires
        positive(shape),
        0 <= from <= shape.len(),
    ensures
        offset_from(shape, unflatten(shape, position), from) == position % product_from(
            shape,
            from,
        ),
    decreases shape.len() - from,
{
    let index = unflatten(shape, position);
    if from < shape.len() {
        lemma_unflatten_from(shape, position, from + 1);
        lemma_product_positive(shape, from + 1);
        let s = stride(shape, from) as int;
        let d = shape[from] as int;
        let p = position as int;
        let q = (p / s) % d;
        lemma_mod_breakdown(p, s, d);
        lemma_div_pos_is_pos(p, s);
        lemma_mod_bound(p / s, d);
        assert(index[from] as int == q);
        assert(q * s == s * q) by (nonlinear_arith);
        assert(d * s == s * d) by (nonlinear_arith);
    } else {
        assert(position % 1 == 0);
    }
}

/// Every cell has a valid index: for each position below the number of
/// cells, `unflatten` gives an index within the shape whose offset is that
/// position.
pub proof fn lemma_unflatten(shape: Seq<usize>, position: nat)
    requires
        positive(shape),
        position < product(shape),
    ensures
        in_bounds(shape, unflatten(shape, position)),
        offset(shape, unflatten(shape, position)) == position,
{
    let index = unflatten(shape, position);
    assert forall|i: int| 0 <= i < shape.len() implies index[i] < shape[i] by {
        lemma_product_positive(shape, i + 1);
        lemma_div_pos_is_pos(position as int, stride(shape, i) as int);
        lemma_mod_bound((position as int) / (stride(shape, i) as int), shape[i] as int);
    }
    lemma_unflatten_from(shape, position, 0);
    lemma_small_mod(position, product(shape));
}

/// Over the dimensions `from..`, weighting an index by row-major strides
/// gives what those dimensions contribute to its flat offset.
proof fn lemma_dot_from_is_offset_from(
    strides: Seq<usize>,
    shape: Seq<usize>,
    index: Seq<usize>,
    from: int,
)
    requires
        is_row_major(strides, shape),
        index.len() == shape.len(),
        0 <= from,
    ensures
        dot_from(strides, index, from) == offset_from(shape, index, from),
    decreases shape.len() - from,
{
    if from < shape.len() {
        lemma_dot_from_is_offset_from(strides, shape, index, from + 1);
        let w = strides[from] as nat;
        let x = index[from] as nat;
        assert(w * x == x * stride(shape, from)) by (nonlinear_arith)
            requires
                w == stride(shape, from),
        ;
    }
}

/// Weighting an index by the row-major strides of a shape gives its flat
/// offset in that shape.
pub proof fn lemma_dot_is_offset(strides: Seq<usize>, shape: Seq<usize>, index: Seq<usize>)
    requires
        is_row_major(strides, shape),
        index.len() == shape.len(),
    ensures
        dot(strides, index) == offset(shape, index),
{
    lemma_dot_from_is_offset_from(strides, shape, index, 0);
}

/// A shape that addresses at least one cell has no zero extent.
pub proof fn lemma_nonzero_product_is_positive(shape: Seq<usize>)
    requires
        product(shape) >= 1,
    ensures
        positive(shape),
{
    assert forall|i: int| 0 <= i < shape.len() implies shape[i] > 0 by {
        if shape[i] == 0 {
            lemma_product_zero(shape, 0, i);
        }
    }
}

/// With positive extents no stride exceeds the number of cells.
pub proof fn lemma_strides_fit(shape: Seq<usize>)
    requires
        positive(shape),
    ensures
        forall|i: int| 0 <= i < shape.len() ==> stride(shape, i) <= product(shape),
{
    assert forall|i: int| 0 <= i < shape.len() implies stride(shape, i) <= product(shape) by {
        lemma_product_monotone(shape, 0, i + 1);
    }
}

/// Number of cells of `shape`, or `None` when that number does not fit in
/// `usize`.
pub fn checked_product<const DIM: usize>(shape: &[usize; DIM]) -> (count: Option<usize>)
    ensures
        (match count {
            Some(cells) => cells == product(shape@),
            None => product(shape@) > usize::MAX,
        }),
{
    // A zero extent makes the product zero, however large the others are.
    let mut i: usize = 0;
    while i < DIM
        invariant
            i <= DIM,
            forall|j: int| 0 <= j < i ==> shape@[j] > 0,
        decreases DIM - i,
    {
        if shape[i] == 0 {
            proof {
                lemma_product_zero(shape@, 0, i as int);
            }
            return Some(0);
        }
        i += 1;
    }
    let mut count: usize = 1;
    let mut i: usize = DIM;
    while i > 0
        invariant
            i <= DIM,
            positive(shape@),
            count == product_from(shape@, i as int),
        decreases i,
    {
        i -= 1;
        proof {
            let d = shape@[i as int] as nat;
            assert(count * shape@[i as int] == d * product_from(shape@, i + 1))
                by (nonlinear_arith)
                requires
                    count == product_from(shape@, i + 1),
                    d == shape@[i as int],
            ;
        }
        match count.checked_mul(shape[i]) {
            Some(next) => {
                count = next;
            },
            None => {
                proof {
                    lemma_product_monotone(shape@, 0, i as int);
                }
                return None;
            },
        }
    }
    Some(count)
}

/// Row-major strides of `shape`: the last stride is 1 and every other one is
/// the next stride times the next extent.
pub fn calculate_strides<const DIM: usize>(shape: &[usize; DIM]) -> (strides: [usize; DIM])
    requires
        forall|i: int| 0 <= i < DIM ==> stride(shape@, i) <= usize::MAX,
    ensures
        is_row_major(strides@, shape@),
{
    let mut strides: [usize; DIM] = [1; DIM];
    let mut i: usize = DIM;
    while i > 1
        invariant
            i <= DIM,
            forall|j: int| 0 <= j < DIM ==> stride(shape@, j) <= usize::MAX,
            forall|j: int| i - 1 <= j < DIM && 0 <= j ==> strides@[j] as nat == stride(shape@, j),
        decreases i,
    {
        i -= 1;
        proof {
            lemma_stride_recurrence(shape@, i - 1);
        }
        strides[i - 1] = strides[i] * shape[i];
    }
    strides
}

/// Flat position of `index` under the given strides: the sum of
/// `strides[i] * index[i]` over all dimensions.
pub fn calculate_position<const DIM: usize>(strides: &[usize; DIM], index: &[usize; DIM]) -> (position:
    usize)
    requires
        dot(strides@, index@) <= usize::MAX,
    ensures
        position == dot(strides@, index@),
{
    let mut position: usize = 0;
    let mut i: usize = 0;
    while i < DIM
        invariant
            i <= DIM,
            position + dot_from(strides@, index@, i as int) == dot(strides@, index@),
            dot(strides@, index@) <= usize::MAX,
        decreases DIM - i,
    {
        position += strides[i] * index[i];
        i += 1;
    }
    position
}

/// Whether every component of `index` lies below the matching extent of
/// `shape`.
pub fn index_in_bounds<const DIM: usize>(shape: &[usize; DIM], index: &[usize; DIM]) -> (ok: bool)
    ensures
        ok == in_bounds(shape@, index@),
{
    let mut i: usize = 0;
    while i < DIM
        invariant
            i <= DIM,
            forall|j: int| 0 <= j < i ==> index@[j] < shape@[j],
        decreases DIM - i,
    {
        if index[i] >= shape[i] {
            return false;
        }
        i += 1;
    }
    true
}

} // verus!
