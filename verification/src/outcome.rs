//! What floating-point operations can come to.
//!
//! A sum of two numbers, a product and a sum with two others in single precision, and
//! the conversion of single precision to half are the same on every machine, but for the
//! bits of what is not a number: these have names for their results.
//!
//! What comes out of other operations rests on the machine: its instructions, the
//! number of threads, the order of its additions, its elementary functions.  Their
//! names are relations: they say of bit patterns that the last of them is an outcome
//! of an operation on the others.  What no machine leaves open is said outright: which
//! elements an element of the result comes from, and what zeros and infinities come
//! to.
use vstd::arithmetic::logarithm::log;
use vstd::arithmetic::power2::pow2;
use vstd::multiset::Multiset;
use vstd::prelude::*;

use crate::array::{Array, ElemType};

verus! {

/// The bit pattern with the sign of a zero dropped.
pub open spec fn unsigned_zero(dtype: ElemType, x: int) -> int {
    match dtype {
        ElemType::F16 => if x == 0x8000 {
            0
        } else {
            x
        },
        ElemType::F32 => if x == 0x8000_0000 {
            0
        } else {
            x
        },
        _ => x,
    }
}

/// Whether this is a zero.
pub open spec fn is_zero(dtype: ElemType, x: int) -> bool {
    unsigned_zero(dtype, x) == 0
}

/// Whether this is neither infinite nor not a number: not all bits of the
/// exponent are set.
pub open spec fn is_finite(dtype: ElemType, x: int) -> bool {
    match dtype {
        ElemType::F16 => (x / 0x400) % 0x20 != 0x1f,
        ElemType::F32 => (x / 0x80_0000) % 0x100 != 0xff,
        ElemType::F64 => (x / 0x10_0000_0000_0000) % 0x800 != 0x7ff,
        ElemType::U32 => true,
    }
}

/// Whether this is minus infinity.
pub open spec fn is_minus_infinity(dtype: ElemType, x: int) -> bool {
    match dtype {
        ElemType::F16 => x == 0xfc00,
        ElemType::F32 => x == 0xff80_0000,
        _ => false,
    }
}

/// Whether this is not a number: all bits of the exponent are set, and another one
/// beside the sign.
pub open spec fn is_nan(dtype: ElemType, x: int) -> bool {
    match dtype {
        ElemType::F16 => x % 0x8000 > 0x7c00,
        ElemType::F32 => x % 0x8000_0000 > 0x7f80_0000,
        ElemType::F64 => x % 0x8000_0000_0000_0000 > 0x7ff0_0000_0000_0000,
        ElemType::U32 => false,
    }
}

/// Whether two bit patterns are the same, or neither is a number.
pub open spec fn same_number(dtype: ElemType, x: int, y: int) -> bool {
    x == y || is_nan(dtype, x) && is_nan(dtype, y)
}

/// The bit pattern of the double that is this integer: its exponent is that of the
/// largest power of two in it, and the rest of it stands below.
pub open spec fn double_of(n: nat) -> int {
    if n == 0 {
        0
    } else {
        let e = log(2, n as int) as nat;
        (1023 + e) * pow2(52) + (n - pow2(e)) * pow2((52 - e) as nat)
    }
}

/// The sum of `x` and `y`, rounded to their type.
pub uninterp spec fn sum_of(dtype: ElemType, x: int, y: int) -> int;

/// In single precision, the product of `x` and `mul`, plus `add`, each rounded.
pub uninterp spec fn affine_of(dtype: ElemType, x: int, mul: int, add: int) -> int;

/// In half precision, `z` is an outcome of multiplying `x` by `mul` and adding `add`.
/// How these two doubles are rounded to halves rests on the machine.
pub uninterp spec fn scales(dtype: ElemType, x: int, mul: int, add: int, z: int) -> bool;

/// The element `x` of type `from`, rounded to the type `to`.
pub uninterp spec fn converted(from: ElemType, x: int, to: ElemType) -> int;

/// `z`, the sign of a zero dropped, is an outcome of summing the products of these
/// pairs in some order.
pub uninterp spec fn dots(dtype: ElemType, pairs: Multiset<(int, int)>, z: int) -> bool;

/// `out` is an outcome of a linear layer of this weight and bias on one row.
pub uninterp spec fn projects(
    dtype: ElemType,
    row: Seq<int>,
    weight: Seq<int>,
    bias: Seq<int>,
    out: Seq<int>,
) -> bool;

/// `out` is an outcome of normalising one row, with this weight, bias and epsilon.
pub uninterp spec fn normalises(
    dtype: ElemType,
    row: Seq<int>,
    weight: Seq<int>,
    bias: Seq<int>,
    eps: int,
    out: Seq<int>,
) -> bool;

/// `z` is an outcome of the softmax at an element `x` of a row of these elements,
/// in some order.
pub uninterp spec fn shares(dtype: ElemType, x: int, row: Multiset<int>, z: int) -> bool;

/// `z` is an outcome of the tanh-approximated GELU of `x`.
pub uninterp spec fn gelus(dtype: ElemType, x: int, z: int) -> bool;

/// `z` is an outcome of `x` to the power `exponent`.
pub uninterp spec fn powers(dtype: ElemType, x: int, exponent: int, z: int) -> bool;

/// The sum of `x` and `y`.  A finite number stays what it is where a zero is added,
/// or where it is added to one, and becomes minus infinity where that is added; the
/// sum of two zeros is positive unless both are negative.
pub open spec fn total(dtype: ElemType, x: int, y: int) -> int {
    if is_zero(dtype, x) && is_zero(dtype, y) {
        if x == y {
            x
        } else {
            0
        }
    } else if is_finite(dtype, x) && is_zero(dtype, y) {
        x
    } else if is_zero(dtype, x) && is_finite(dtype, y) {
        y
    } else if is_finite(dtype, x) && is_minus_infinity(dtype, y) {
        y
    } else {
        sum_of(dtype, x, y)
    }
}

/// `z` comes of adding `y` to `x`.
pub open spec fn is_added(dtype: ElemType, x: int, y: int, z: int) -> bool {
    same_number(dtype, z, total(dtype, x, y))
}

/// `z` comes of multiplying `x` by `mul` and adding `add`.
pub open spec fn is_scaled(dtype: ElemType, x: int, mul: int, add: int, z: int) -> bool {
    if dtype == ElemType::F32 {
        same_number(dtype, z, affine_of(dtype, x, mul, add))
    } else {
        scales(dtype, x, mul, add, z)
    }
}

/// Whether all elements of a row are finite.
pub open spec fn is_finite_row(dtype: ElemType, row: Seq<int>) -> bool {
    forall|c: int| 0 <= c < row.len() ==> is_finite(dtype, #[trigger] row[c])
}

/// Whether row `o` of a weight of rows of `inputs` elements holds zeros only.
pub open spec fn is_zero_row(dtype: ElemType, weight: Seq<int>, inputs: nat, o: int) -> bool {
    forall|k: int|
        o * inputs <= k < o * inputs + inputs ==> is_zero(dtype, #[trigger] weight[k])
}

/// `out` comes of a linear layer of this weight and bias on one row.  Where the row is
/// finite and an output has weights of zero, it is the bias.
pub open spec fn is_projected(
    dtype: ElemType,
    row: Seq<int>,
    weight: Seq<int>,
    bias: Seq<int>,
    out: Seq<int>,
) -> bool {
    &&& projects(dtype, row, weight, bias, out)
    &&& is_finite_row(dtype, row) ==> forall|o: int|
        0 <= o < out.len() && is_zero_row(dtype, weight, row.len(), o) && is_finite(
            dtype,
            bias[o],
        ) ==> unsigned_zero(dtype, #[trigger] out[o]) == unsigned_zero(dtype, bias[o])
}

/// Whether the product of a pair can change a sum: that of a zero and a finite
/// number cannot.
pub open spec fn matters(dtype: ElemType, pair: (int, int)) -> bool {
    !(is_zero(dtype, pair.0) && is_finite(dtype, pair.1) || is_finite(dtype, pair.0) && is_zero(
        dtype,
        pair.1,
    ))
}

/// `z` comes of summing the products of these pairs: it is zero where none of them
/// can change a sum.
pub open spec fn is_dot(dtype: ElemType, pairs: Seq<(int, int)>, z: int) -> bool {
    if relevant(dtype, pairs).len() == 0 {
        is_zero(dtype, z)
    } else {
        dots(dtype, relevant(dtype, pairs), unsigned_zero(dtype, z))
    }
}

/// The pairs that can change a sum.
pub open spec fn relevant(dtype: ElemType, pairs: Seq<(int, int)>) -> Multiset<(int, int)> {
    pairs.to_multiset().filter(|pair: (int, int)| matters(dtype, pair))
}

/// The elements of a row that count in its softmax: those that are not minus
/// infinity, the sign of a zero dropped.
pub open spec fn counted(dtype: ElemType, row: Seq<int>) -> Multiset<int> {
    row.map_values(|e: int| unsigned_zero(dtype, e)).to_multiset().filter(
        |e: int| !is_minus_infinity(dtype, e),
    )
}

/// Whether the elements of a row are finite or minus infinity, and not all of them
/// the latter.
pub open spec fn is_masked_row(dtype: ElemType, row: Seq<int>) -> bool {
    &&& forall|j: int|
        0 <= j < row.len() ==> is_finite(dtype, #[trigger] row[j]) || is_minus_infinity(
            dtype,
            row[j],
        )
    &&& exists|j: int| 0 <= j < row.len() && is_finite(dtype, #[trigger] row[j])
}

/// `z` comes of the softmax of a row, at an element `x` of it.  Minus infinity
/// comes to zero, beside finite elements, and does not change what they come to.
pub open spec fn is_share(dtype: ElemType, x: int, row: Seq<int>, z: int) -> bool {
    if is_minus_infinity(dtype, x) && is_masked_row(dtype, row) {
        z == 0
    } else {
        shares(dtype, unsigned_zero(dtype, x), counted(dtype, row), z)
    }
}

/// Whether all elements of an array are finite.
pub open spec fn all_finite(a: Array) -> bool {
    forall|k: int| 0 <= k < a.elems.len() ==> is_finite(a.dtype, #[trigger] a.elems[k])
}

/// Whether two arrays hold the same numbers, under the same dimensions.
pub open spec fn same_numbers(a: Array, b: Array) -> bool {
    &&& b.dtype == a.dtype
    &&& b.dims == a.dims
    &&& b.elems.len() == a.elems.len()
    &&& forall|k: int|
        0 <= k < a.elems.len() ==> same_number(a.dtype, #[trigger] a.elems[k], b.elems[k])
}

/// Whether `r` has the type and the dimensions of `x`, and as many elements.
pub open spec fn is_like(x: Array, r: Array) -> bool {
    &&& r.dtype == x.dtype
    &&& r.dims == x.dims
    &&& r.well_formed()
}

/// `r` is an outcome of adding `b`, stretched to the dimensions of `a`, to `a`,
/// element by element.
pub open spec fn is_sum(a: Array, b: Array, r: Array) -> bool {
    &&& is_like(a, r)
    &&& forall|k: int|
        0 <= k < r.elems.len() ==> is_added(
            a.dtype,
            a.elems[k],
            b.stretched(a.dims).elems[k],
            #[trigger] r.elems[k],
        )
}

/// `r` is an outcome of multiplying the elements of `x` by `mul` and adding `add`.
pub open spec fn is_affine(x: Array, mul: Array, add: Array, r: Array) -> bool {
    &&& is_like(x, r)
    &&& forall|k: int|
        0 <= k < r.elems.len() ==> is_scaled(
            x.dtype,
            x.elems[k],
            mul.elems[0],
            add.elems[0],
            #[trigger] r.elems[k],
        )
}

/// The pairs whose products are summed for an entry of a product of matrices: row
/// `i` of the one, column `j` of the other.
pub open spec fn entry_pairs(a: Array, b: Array, p: int, i: int, j: int) -> Seq<(int, int)> {
    Seq::new(a.width(), |c: int| (a.entry(p, i, c), b.entry(p, c, j)))
}

/// `r` is an outcome of multiplying the matrices of `a` by those of `b`, four
/// dimensions each.
pub open spec fn is_matmul(a: Array, b: Array, r: Array) -> bool {
    &&& r.dtype == a.dtype
    &&& r.dims == a.dims.update(3, b.dims[3])
    &&& r.well_formed()
    &&& forall|p: int, i: int, j: int|
        0 <= p < a.dims[0] * a.dims[1] && 0 <= i < a.dims[2] && 0 <= j < b.dims[3] ==> is_dot(
            a.dtype,
            entry_pairs(a, b, p, i, j),
            #[trigger] r.entry(p, i, j),
        )
}

/// `r` is an outcome of the linear layer of this weight and bias on `x`, row by
/// row.
pub open spec fn is_linear(x: Array, weight: Array, bias: Array, r: Array) -> bool {
    &&& r.dtype == x.dtype
    &&& r.dims == x.dims.drop_last().push(weight.dims[0])
    &&& r.well_formed()
    &&& forall|i: int|
        0 <= i < x.height() ==> is_projected(
            x.dtype,
            x.row(i),
            weight.elems,
            bias.elems,
            #[trigger] r.row(i),
        )
}

/// `r` is an outcome of normalising `x`, row by row, with this weight, bias and
/// epsilon.
pub open spec fn is_layer_norm(
    x: Array,
    weight: Array,
    bias: Array,
    eps: Array,
    r: Array,
) -> bool {
    &&& is_like(x, r)
    &&& forall|i: int|
        0 <= i < x.height() ==> normalises(
            x.dtype,
            x.row(i),
            weight.elems,
            bias.elems,
            eps.elems[0],
            #[trigger] r.row(i),
        )
}

/// `out` is an outcome of the softmax of one row.
pub open spec fn is_softmax_row(dtype: ElemType, row: Seq<int>, out: Seq<int>) -> bool {
    forall|j: int| 0 <= j < row.len() ==> is_share(dtype, row[j], row, #[trigger] out[j])
}

/// `r` is an outcome of the softmax of `x`, row by row.
pub open spec fn is_softmax(x: Array, r: Array) -> bool {
    &&& is_like(x, r)
    &&& forall|i: int|
        0 <= i < x.height() ==> is_softmax_row(x.dtype, x.row(i), #[trigger] r.row(i))
}

/// `r` is an outcome of the tanh-approximated GELU of the elements of `x`.
pub open spec fn is_gelu(x: Array, r: Array) -> bool {
    &&& is_like(x, r)
    &&& forall|k: int|
        0 <= k < r.elems.len() ==> gelus(x.dtype, x.elems[k], #[trigger] r.elems[k])
}

/// `r` is an outcome of raising the elements of `x` to the power `exponent`.
pub open spec fn is_power(x: Array, exponent: Array, r: Array) -> bool {
    &&& is_like(x, r)
    &&& forall|k: int|
        0 <= k < r.elems.len() ==> powers(
            x.dtype,
            x.elems[k],
            exponent.elems[0],
            #[trigger] r.elems[k],
        )
}

/// `r` holds the elements of `x`, converted to the element type of `r`.
pub open spec fn is_converted(x: Array, r: Array) -> bool {
    &&& r.dims == x.dims
    &&& r.well_formed()
    &&& forall|k: int|
        0 <= k < r.elems.len() ==> same_number(
            r.dtype,
            #[trigger] r.elems[k],
            converted(x.dtype, x.elems[k], r.dtype),
        )
}

/// What comes of an addition is the rounded sum.  Only where a zero is added to a finite
/// number, or such a number to a zero, or minus infinity to a finite number, is it known
/// without a name: the number, or minus infinity.
pub proof fn law_sums(dtype: ElemType, x: int, y: int, z: int)
    requires
        is_added(dtype, x, y, z),
    ensures
        !is_zero(dtype, x) && !is_zero(dtype, y) && !is_minus_infinity(dtype, y) ==> same_number(
            dtype,
            z,
            sum_of(dtype, x, y),
        ),
        !is_finite(dtype, x) || !is_finite(dtype, y) && !is_minus_infinity(dtype, y)
            ==> same_number(dtype, z, sum_of(dtype, x, y)),
        is_zero(dtype, y) && is_finite(dtype, x) && !is_zero(dtype, x) ==> same_number(dtype, z, x),
        is_zero(dtype, x) && is_finite(dtype, y) && !is_zero(dtype, y) ==> same_number(dtype, z, y),
        is_zero(dtype, x) && is_zero(dtype, y) ==> same_number(
            dtype,
            z,
            if x == y {
                x
            } else {
                0
            },
        ),
        is_finite(dtype, x) && is_minus_infinity(dtype, y) ==> same_number(dtype, z, y),
{
}

} // verus!
