//! The tensors of `candle`, and the operations on them that the model uses.
//!
//! Every function here hands one call to `candle`.  What is said of it is
//! believed, not proved, and holds of tensors in main memory, which are the
//! only ones that this crate makes.
//!
//! Operations that move elements are described exactly.  Floating-point
//! operations are described by their dimensions and by relations on what they can
//! come to, row by row or element by element.
use candle_core::{DType, Device, Tensor};
use vstd::prelude::*;

use crate::array::{Array, ElemType};
use crate::array::{allocatable, broadcasts_to, double, sizes, volume};
use crate::outcome::{
    affine_of, dots, gelus, normalises, powers, projects, scales, shares, sum_of,
};
use crate::outcome::{
    counted, double_of, entry_pairs, is_finite, is_finite_row, is_masked_row, is_minus_infinity,
    is_zero, is_zero_row, relevant, same_number, unsigned_zero,
};

verus! {

/// A tensor of `candle`.
#[verifier::external_type_specification]
#[verifier::external_body]
pub struct ExTensor(candle_core::Tensor);

/// An error of `candle`.
#[verifier::external_type_specification]
#[verifier::external_body]
pub struct ExError(candle_core::Error);

/// The type of a tensor's elements.
pub uninterp spec fn tensor_dtype(t: Tensor) -> ElemType;

/// The sizes of a tensor's dimensions.
pub uninterp spec fn tensor_dims(t: Tensor) -> Seq<nat>;

/// A tensor's elements, in row-major order whatever their order in memory.
pub uninterp spec fn tensor_elems(t: Tensor) -> Seq<int>;

/// Whether the elements lie in memory in row-major order.
pub uninterp spec fn tensor_row_major(t: Tensor) -> bool;

/// Whether the elements would lie in memory in row-major order, were the two
/// innermost dimensions exchanged.
pub uninterp spec fn tensor_col_major(t: Tensor) -> bool;

/// What a tensor holds.
pub open spec fn contents(t: Tensor) -> Array {
    Array { dtype: tensor_dtype(t), dims: tensor_dims(t), elems: tensor_elems(t) }
}

/// Whether `t` is a tensor that a model of the given element type computes
/// with: elements in row-major order, as many as its dimensions hold, which are
/// small enough to be allocated.
pub open spec fn plain(t: Tensor, dtype: ElemType) -> bool {
    &&& tensor_dtype(t) == dtype
    &&& tensor_row_major(t)
    &&& contents(t).well_formed()
    &&& allocatable(tensor_dims(t))
}

/// Whether `t` is one double, without dimensions.
pub open spec fn is_double(t: Tensor) -> bool {
    &&& plain(t, ElemType::F64)
    &&& tensor_dims(t).len() == 0
}

/// Whether models compute with elements of this type.
pub open spec fn is_model_type(dtype: ElemType) -> bool {
    dtype == ElemType::F16 || dtype == ElemType::F32
}

/// Calls `Tensor::dims`: the sizes of the dimensions.
#[verifier::external_body]
pub(crate) fn dims(t: &Tensor) -> (r: Vec<usize>)
    ensures
        sizes(r@) == tensor_dims(*t),
{
    t.dims().to_vec()
}

/// Calls `Tensor::dims3`: the sizes of three dimensions; an error where there are
/// more or fewer.
#[verifier::external_body]
pub(crate) fn dims3(t: &Tensor) -> (r: Result<(usize, usize, usize), candle_core::Error>)
    ensures
        r is Ok <==> tensor_dims(*t).len() == 3,
        r matches Ok((a, b, c)) ==> tensor_dims(*t) == seq![a as nat, b as nat, c as nat],
{
    t.dims3()
}

/// Calls `Tensor::zeros`: a tensor of zeros under these dimensions, with elements of
/// the type of `like`.
#[verifier::external_body]
pub(crate) fn zeros(dims: Vec<usize>, like: &Tensor) -> (r: Result<Tensor, candle_core::Error>)
    requires
        allocatable(sizes(dims@)),
    ensures
        r is Ok,
        r matches Ok(t) ==> {
            &&& plain(t, tensor_dtype(*like))
            &&& tensor_dims(t) == sizes(dims@)
            &&& tensor_elems(t) == Seq::new(volume(sizes(dims@)), |k: int| 0int)
        },
{
    Tensor::zeros(dims, like.dtype(), &Device::Cpu)
}

/// Calls `Tensor::broadcast_as`: the tensor stretched to these dimensions; an error
/// where it cannot be.
#[verifier::external_body]
pub(crate) fn broadcast_as(t: &Tensor, dims: Vec<usize>) -> (r: Result<Tensor, candle_core::Error>)
    requires
        contents(*t).well_formed(),
    ensures
        r is Ok <==> broadcasts_to(tensor_dims(*t), sizes(dims@)),
        r matches Ok(u) ==> contents(u) == contents(*t).stretched(sizes(dims@)),
{
    t.broadcast_as(dims)
}

/// Calls `Tensor::from_vec`: a tensor of these integers, row-major, under these
/// dimensions.  `candle` does not hold the number of integers to the
/// dimensions, so the caller does.
#[verifier::external_body]
pub(crate) fn from_vec(ids: Vec<u32>, dims: Vec<usize>) -> (r: Result<Tensor, candle_core::Error>)
    requires
        ids@.len() == volume(sizes(dims@)),
        allocatable(sizes(dims@)),
    ensures
        r is Ok,
        r matches Ok(t) ==> {
            &&& plain(t, ElemType::U32)
            &&& tensor_dims(t) == sizes(dims@)
            &&& tensor_elems(t) == ids@.map_values(|id: u32| id as int)
        },
{
    Tensor::from_vec(ids, dims, &Device::Cpu)
}

/// Calls `Tensor::from_raw_buffer`: the double of this bit pattern, without
/// dimensions.
#[verifier::external_body]
pub(crate) fn from_double(bits: u64) -> (r: Result<Tensor, candle_core::Error>)
    ensures
        r is Ok,
        r matches Ok(t) ==> is_double(t) && contents(t) == double(bits),
{
    Tensor::from_raw_buffer(&bits.to_ne_bytes(), DType::F64, &[], &Device::Cpu)
}

/// Calls `Tensor::arange` from 0: the integers below `end`, in one dimension.
#[verifier::external_body]
pub(crate) fn arange(end: u32) -> (r: Result<Tensor, candle_core::Error>)
    requires
        allocatable(seq![end as nat]),
    ensures
        r is Ok,
        r matches Ok(t) ==> {
            &&& plain(t, ElemType::U32)
            &&& tensor_dims(t) == seq![end as nat]
            &&& tensor_elems(t) == Seq::new(end as nat, |k: int| k)
        },
{
    Tensor::arange(0u32, end, &Device::Cpu)
}

/// Calls `Tensor::unsqueeze` at the outermost place: one more dimension, of
/// size 1, around the others.
#[verifier::external_body]
pub(crate) fn unsqueeze(t: &Tensor) -> (r: Result<Tensor, candle_core::Error>)
    ensures
        r is Ok,
        r matches Ok(u) ==> {
            &&& contents(u) == contents(*t).reshaped(seq![1nat] + tensor_dims(*t))
            &&& tensor_row_major(u) == tensor_row_major(*t)
        },
{
    t.unsqueeze(0)
}

/// Calls `Tensor::narrow` on the second dimension of a matrix of one row: the
/// `len` elements from `start` on; an error where the row is shorter.
#[verifier::external_body]
pub(crate) fn narrow(t: &Tensor, start: usize, len: usize) -> (r: Result<
    Tensor,
    candle_core::Error,
>)
    requires
        plain(*t, tensor_dtype(*t)),
        tensor_dims(*t).len() == 2,
        tensor_dims(*t)[0] == 1,
    ensures
        r is Ok <==> start + len <= tensor_dims(*t)[1],
        r matches Ok(u) ==> {
            &&& plain(u, tensor_dtype(*t))
            &&& tensor_dims(u) == seq![1nat, len as nat]
            &&& tensor_elems(u) == tensor_elems(*t).subrange(start as int, start + len)
        },
{
    t.narrow(1, start, len)
}

/// Calls `Tensor::reshape`: the same elements in the same order under other
/// dimensions, laid out in row-major order; an error where the dimensions hold
/// another number of elements.
#[verifier::external_body]
pub(crate) fn reshape(t: &Tensor, dims: Vec<usize>) -> (r: Result<Tensor, candle_core::Error>)
    requires
        contents(*t).well_formed(),
        allocatable(tensor_dims(*t)),
        allocatable(sizes(dims@)),
    ensures
        r is Ok <==> volume(sizes(dims@)) == volume(tensor_dims(*t)),
        r matches Ok(u) ==> {
            &&& contents(u) == contents(*t).reshaped(sizes(dims@))
            &&& tensor_row_major(u)
        },
{
    t.reshape(dims)
}

/// Calls `Tensor::transpose`: two dimensions exchanged.  Exchanging the two
/// innermost exchanges the two orders in memory.
#[verifier::external_body]
pub(crate) fn transpose(t: &Tensor, dim1: usize, dim2: usize) -> (r: Result<
    Tensor,
    candle_core::Error,
>)
    requires
        dim1 < dim2 < tensor_dims(*t).len(),
    ensures
        r is Ok,
        r matches Ok(u) ==> {
            &&& contents(u) == contents(*t).transposed(dim1 as int, dim2 as int)
            &&& dim1 + 2 == tensor_dims(*t).len() ==> tensor_row_major(u) == tensor_col_major(*t)
                && tensor_col_major(u) == tensor_row_major(*t)
        },
{
    t.transpose(dim1, dim2)
}

/// Calls `Tensor::contiguous`: the same tensor, laid out in row-major order.
#[verifier::external_body]
pub(crate) fn contiguous(t: &Tensor) -> (r: Result<Tensor, candle_core::Error>)
    requires
        contents(*t).well_formed(),
        allocatable(tensor_dims(*t)),
    ensures
        r is Ok,
        r matches Ok(u) ==> contents(u) == contents(*t) && tensor_row_major(u),
{
    t.contiguous()
}

/// Calls `Tensor::index_select` on the outermost dimension of a matrix: the
/// rows that the integers in `ids` name, in that order; an error where one of
/// them names no row.
#[verifier::external_body]
pub(crate) fn index_select(t: &Tensor, ids: &Tensor) -> (r: Result<Tensor, candle_core::Error>)
    requires
        plain(*t, tensor_dtype(*t)),
        tensor_dims(*t).len() == 2,
        plain(*ids, ElemType::U32),
        tensor_dims(*ids).len() == 1,
        allocatable(seq![tensor_dims(*ids)[0], tensor_dims(*t)[1]]),
    ensures
        r is Ok <==> forall|k: int|
            0 <= k < tensor_elems(*ids).len() ==> contents(*t).has_row(#[trigger] tensor_elems(*ids)[k]),
        r matches Ok(u) ==> {
            &&& contents(u) == contents(*t).rows(tensor_elems(*ids))
            &&& tensor_row_major(u)
        },
{
    t.index_select(ids, 0)
}

/// Calls `candle_nn::Embedding::forward`: each integer of the matrix `ids`
/// replaced by the row of `table` that it names; an error where one of them
/// names no row.
#[verifier::external_body]
pub(crate) fn embedding(table: &Tensor, hidden_size: usize, ids: &Tensor) -> (r: Result<
    Tensor,
    candle_core::Error,
>)
    requires
        plain(*table, tensor_dtype(*table)),
        tensor_dims(*table).len() == 2,
        tensor_dims(*table)[1] == hidden_size,
        plain(*ids, ElemType::U32),
        tensor_dims(*ids).len() == 2,
        allocatable(tensor_dims(*ids).push(hidden_size as nat)),
    ensures
        r is Ok <==> forall|k: int|
            0 <= k < tensor_elems(*ids).len() ==> contents(*table).has_row(
                #[trigger] tensor_elems(*ids)[k],
            ),
        r matches Ok(u) ==> {
            &&& contents(u) == contents(*table).rows(tensor_elems(*ids)).reshaped(
                tensor_dims(*ids).push(hidden_size as nat),
            )
            &&& tensor_row_major(u)
        },
{
    candle_nn::Module::forward(&candle_nn::Embedding::new(table.clone(), hidden_size), ids)
}

/// Calls `Tensor::broadcast_add`: the sum of `a` and of `b` stretched to the
/// dimensions of `a`, element by element.  A finite number stays what it is where a
/// zero is added to it, or it to a zero, and becomes minus infinity where that is
/// added; the sum of two zeros is positive unless both are negative.  Any other sum
/// has a name; which of the patterns that are no number comes out is left unsaid.
#[verifier::external_body]
pub(crate) fn broadcast_add(a: &Tensor, b: &Tensor) -> (r: Result<Tensor, candle_core::Error>)
    requires
        is_model_type(tensor_dtype(*a)),
        plain(*a, tensor_dtype(*a)),
        tensor_dtype(*b) == tensor_dtype(*a),
        contents(*b).well_formed(),
        broadcasts_to(tensor_dims(*b), tensor_dims(*a)),
    ensures
        r is Ok,
        r matches Ok(u) ==> {
            &&& plain(u, tensor_dtype(*a))
            &&& tensor_dims(u) == tensor_dims(*a)
            &&& forall|k: int|
                0 <= k < tensor_elems(u).len() ==> {
                    let dtype = tensor_dtype(*a);
                    let x = tensor_elems(*a)[k];
                    let y = contents(*b).stretched(tensor_dims(*a)).elems[k];
                    let z = #[trigger] tensor_elems(u)[k];
                    if is_zero(dtype, x) && is_zero(dtype, y) {
                        z == if x == y {
                            x
                        } else {
                            0
                        }
                    } else if is_finite(dtype, x) && is_zero(dtype, y) {
                        z == x
                    } else if is_zero(dtype, x) && is_finite(dtype, y) {
                        z == y
                    } else if is_finite(dtype, x) && is_minus_infinity(dtype, y) {
                        z == y
                    } else {
                        same_number(dtype, z, sum_of(dtype, x, y))
                    }
                }
        },
{
    a.broadcast_add(b)
}

/// Calls `Tensor::affine`: each element of `x` times `mul`, plus `add`, two
/// doubles that are first converted to the type of `x`.  In single precision the result
/// has a name; which of the patterns that are no number comes out is left unsaid.  In
/// half precision it rests on how the machine rounds a double to a half, and only the
/// relation has a name.
#[verifier::external_body]
pub(crate) fn affine(x: &Tensor, mul: &Tensor, add: &Tensor) -> (r: Result<
    Tensor,
    candle_core::Error,
>)
    requires
        is_model_type(tensor_dtype(*x)),
        plain(*x, tensor_dtype(*x)),
        is_double(*mul),
        is_double(*add),
    ensures
        r is Ok,
        r matches Ok(u) ==> {
            &&& plain(u, tensor_dtype(*x))
            &&& tensor_dims(u) == tensor_dims(*x)
            &&& forall|k: int|
                0 <= k < tensor_elems(u).len() ==> {
                    let dtype = tensor_dtype(*x);
                    let e = tensor_elems(*x)[k];
                    let (m, a) = (tensor_elems(*mul)[0], tensor_elems(*add)[0]);
                    let z = #[trigger] tensor_elems(u)[k];
                    if dtype == ElemType::F32 {
                        same_number(dtype, z, affine_of(dtype, e, m, a))
                    } else {
                        scales(dtype, e, m, a, z)
                    }
                }
        },
{
    x.affine(mul.to_scalar()?, add.to_scalar()?)
}

/// Calls `Tensor::matmul` on two stacks of matrices, four dimensions each: the
/// product of each matrix of `a` and its counterpart in `b`.  An entry is the sum of
/// the products of a row and a column, to which a product of a zero and a finite
/// number adds nothing: with no other product it is zero.  In which order products are
/// summed, how sums are rounded, and the sign of a zero are left unsaid.
#[verifier::external_body]
pub(crate) fn matmul(a: &Tensor, b: &Tensor) -> (r: Result<Tensor, candle_core::Error>)
    requires
        is_model_type(tensor_dtype(*a)),
        plain(*a, tensor_dtype(*a)),
        tensor_dtype(*b) == tensor_dtype(*a),
        tensor_row_major(*b) || tensor_col_major(*b),
        contents(*b).well_formed(),
        tensor_dims(*a).len() == 4,
        tensor_dims(*b).len() == 4,
        tensor_dims(*b)[0] == tensor_dims(*a)[0],
        tensor_dims(*b)[1] == tensor_dims(*a)[1],
        tensor_dims(*b)[2] == tensor_dims(*a)[3],
        allocatable(tensor_dims(*a).update(3, tensor_dims(*b)[3])),
    ensures
        r is Ok,
        r matches Ok(u) ==> {
            &&& plain(u, tensor_dtype(*a))
            &&& tensor_dims(u) == tensor_dims(*a).update(3, tensor_dims(*b)[3])
            &&& forall|p: int, i: int, j: int|
                {
                    &&& 0 <= p < tensor_dims(*a)[0] * tensor_dims(*a)[1]
                    &&& 0 <= i < tensor_dims(*a)[2]
                    &&& 0 <= j < tensor_dims(*b)[3]
                } ==> {
                    let dtype = tensor_dtype(*a);
                    let pairs = relevant(
                        dtype,
                        entry_pairs(contents(*a), contents(*b), p, i, j),
                    );
                    let z = #[trigger] contents(u).entry(p, i, j);
                    if pairs.len() == 0 {
                        is_zero(dtype, z)
                    } else {
                        dots(dtype, pairs, unsigned_zero(dtype, z))
                    }
                }
        },
{
    a.matmul(b)
}

/// Calls `candle_nn::Linear::forward`: `x`, of two or three dimensions, times the
/// transposed weight, plus the bias, row by row; an error where the rows of `x` and
/// those of the weight have different lengths.  An output whose weights are zero is the
/// bias, where both the row and the bias are finite, but for the sign of a zero.  In
/// which order products are summed, and how sums are rounded, is left unsaid.
#[verifier::external_body]
pub(crate) fn linear(x: &Tensor, weight: &Tensor, bias: &Tensor) -> (r: Result<
    Tensor,
    candle_core::Error,
>)
    requires
        is_model_type(tensor_dtype(*x)),
        plain(*x, tensor_dtype(*x)),
        plain(*weight, tensor_dtype(*x)),
        plain(*bias, tensor_dtype(*x)),
        tensor_dims(*x).len() == 2 || tensor_dims(*x).len() == 3,
        volume(tensor_dims(*x).drop_last()) > 0,
        tensor_dims(*weight).len() == 2,
        tensor_dims(*bias) == seq![tensor_dims(*weight)[0]],
        tensor_dims(*x).last() > 0 || tensor_dims(*weight)[1] == 0,
        tensor_dims(*weight)[0] > 0 || tensor_dims(*weight)[1] == tensor_dims(*x).last(),
        allocatable(tensor_dims(*x).drop_last().push(tensor_dims(*weight)[0])),
    ensures
        r is Ok <==> tensor_dims(*weight)[1] == tensor_dims(*x).last(),
        r matches Ok(u) ==> {
            &&& plain(u, tensor_dtype(*x))
            &&& tensor_dims(u) == tensor_dims(*x).drop_last().push(tensor_dims(*weight)[0])
            &&& forall|i: int|
                0 <= i < contents(*x).height() ==> projects(
                    tensor_dtype(*x),
                    contents(*x).row(i),
                    tensor_elems(*weight),
                    tensor_elems(*bias),
                    #[trigger] contents(u).row(i),
                )
            &&& forall|i: int, o: int|
                {
                    &&& 0 <= i < contents(*x).height()
                    &&& 0 <= o < tensor_dims(*weight)[0]
                    &&& is_finite_row(tensor_dtype(*x), contents(*x).row(i))
                    &&& is_zero_row(
                        tensor_dtype(*x),
                        tensor_elems(*weight),
                        tensor_dims(*weight)[1],
                        o,
                    )
                    &&& is_finite(tensor_dtype(*x), tensor_elems(*bias)[o])
                } ==> unsigned_zero(tensor_dtype(*x), #[trigger] contents(u).row(i)[o])
                    == unsigned_zero(tensor_dtype(*x), tensor_elems(*bias)[o])
        },
{
    candle_nn::Module::forward(&candle_nn::Linear::new(weight.clone(), Some(bias.clone())), x)
}

/// Calls `candle_nn::LayerNorm::forward`, with the mean removed: the innermost
/// dimension of `x` normalised, with this epsilon, scaled by the weight and
/// shifted by the bias; an error where the rows of `x` and the weight have
/// different lengths.  How the results are rounded is left unsaid.
#[verifier::external_body]
pub(crate) fn layer_norm(x: &Tensor, weight: &Tensor, bias: &Tensor, eps: &Tensor) -> (r: Result<
    Tensor,
    candle_core::Error,
>)
    requires
        is_model_type(tensor_dtype(*x)),
        plain(*x, tensor_dtype(*x)),
        plain(*weight, tensor_dtype(*x)),
        plain(*bias, tensor_dtype(*x)),
        tensor_dims(*weight).len() == 1,
        tensor_dims(*weight)[0] > 0,
        tensor_dims(*bias) == tensor_dims(*weight),
        is_double(*eps),
    ensures
        r is Ok <==> (tensor_dims(*x).len() > 0 && tensor_dims(*x).last() == tensor_dims(
            *weight,
        )[0]),
        r matches Ok(u) ==> {
            &&& plain(u, tensor_dtype(*x))
            &&& tensor_dims(u) == tensor_dims(*x)
            &&& forall|i: int|
                0 <= i < contents(*x).height() ==> normalises(
                    tensor_dtype(*x),
                    contents(*x).row(i),
                    tensor_elems(*weight),
                    tensor_elems(*bias),
                    tensor_elems(*eps)[0],
                    #[trigger] contents(u).row(i),
                )
        },
{
    let norm = candle_nn::LayerNorm::new(weight.clone(), bias.clone(), eps.to_scalar()?);
    candle_nn::Module::forward(&norm, x)
}

/// Calls `candle_nn::ops::softmax_last_dim`: the softmax along the innermost
/// dimension, row by row.  An element comes to its share of the row, whatever the
/// order of the row and the signs of its zeros.  Beside finite elements, minus
/// infinity comes to zero and does not change what they come to.  How the results
/// are rounded is left unsaid.
#[verifier::external_body]
pub(crate) fn softmax_last_dim(x: &Tensor) -> (r: Result<Tensor, candle_core::Error>)
    requires
        is_model_type(tensor_dtype(*x)),
        plain(*x, tensor_dtype(*x)),
        tensor_dims(*x).len() > 0,
        tensor_dims(*x).last() > 0,
    ensures
        r is Ok,
        r matches Ok(u) ==> {
            &&& plain(u, tensor_dtype(*x))
            &&& tensor_dims(u) == tensor_dims(*x)
            &&& forall|i: int, j: int|
                0 <= i < contents(*x).height() && 0 <= j < contents(*x).width() ==> {
                    let dtype = tensor_dtype(*x);
                    let row = contents(*x).row(i);
                    let z = #[trigger] contents(u).row(i)[j];
                    if is_minus_infinity(dtype, row[j]) && is_masked_row(dtype, row) {
                        z == 0
                    } else {
                        shares(dtype, unsigned_zero(dtype, row[j]), counted(dtype, row), z)
                    }
                }
        },
{
    candle_nn::ops::softmax_last_dim(x)
}

/// Calls `Tensor::gelu`: the tanh-approximated GELU of each element.  How the
/// results are rounded is left unsaid.
#[verifier::external_body]
pub(crate) fn gelu(x: &Tensor) -> (r: Result<Tensor, candle_core::Error>)
    requires
        is_model_type(tensor_dtype(*x)),
        plain(*x, tensor_dtype(*x)),
    ensures
        r is Ok,
        r matches Ok(u) ==> {
            &&& plain(u, tensor_dtype(*x))
            &&& tensor_dims(u) == tensor_dims(*x)
            &&& forall|k: int|
                0 <= k < tensor_elems(u).len() ==> gelus(
                    tensor_dtype(*x),
                    tensor_elems(*x)[k],
                    #[trigger] tensor_elems(u)[k],
                )
        },
{
    x.gelu()
}

/// Calls `Tensor::powf` on doubles: each element raised to this power.  How the
/// results are rounded is left unsaid.
#[verifier::external_body]
pub(crate) fn powf(x: &Tensor, exponent: &Tensor) -> (r: Result<Tensor, candle_core::Error>)
    requires
        plain(*x, ElemType::F64),
        is_double(*exponent),
    ensures
        r is Ok,
        r matches Ok(u) ==> {
            &&& plain(u, ElemType::F64)
            &&& tensor_dims(u) == tensor_dims(*x)
            &&& forall|k: int|
                0 <= k < tensor_elems(u).len() ==> powers(
                    ElemType::F64,
                    tensor_elems(*x)[k],
                    tensor_elems(*exponent)[0],
                    #[trigger] tensor_elems(u)[k],
                )
        },
{
    x.powf(exponent.to_scalar()?)
}

/// Calls `Tensor::to_dtype` on integers: each converted to the double that it is.
#[verifier::external_body]
pub(crate) fn to_double(x: &Tensor) -> (r: Result<Tensor, candle_core::Error>)
    requires
        plain(*x, ElemType::U32),
    ensures
        r is Ok,
        r matches Ok(u) ==> {
            &&& plain(u, ElemType::F64)
            &&& tensor_dims(u) == tensor_dims(*x)
            &&& forall|k: int|
                0 <= k < tensor_elems(u).len() ==> #[trigger] tensor_elems(u)[k] == double_of(
                    tensor_elems(*x)[k] as nat,
                )
        },
{
    x.to_dtype(DType::F64)
}

} // verus!
