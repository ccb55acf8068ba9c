//! The layers that the modules of the model are made of.
use candle_core::Tensor;
use vstd::prelude::*;

use crate::array::{Array, ElemType};
use crate::array::{allocatable, double, sizes, volume};
use crate::array::{lemma_parts_within, lemma_within};
use crate::error::lift;
use crate::error::ModelError;
use crate::tensor;
use crate::outcome::{
    all_finite, is_finite, is_layer_norm, is_linear, is_projected, is_zero,
};
use crate::tensor::{contents, is_model_type, plain, tensor_dims, tensor_dtype, tensor_elems};
use crate::weights::{Store, VarBuilder};

verus! {

/// An empty list of sizes.
pub(crate) fn dims0() -> (r: Vec<usize>)
    ensures
        sizes(r@) == Seq::<nat>::empty(),
{
    let r: Vec<usize> = Vec::new();
    assert(sizes(r@) =~= Seq::<nat>::empty());
    r
}

/// A list of one size.
pub(crate) fn dims1(a: usize) -> (r: Vec<usize>)
    ensures
        sizes(r@) == seq![a as nat],
{
    let r: Vec<usize> = vec![a];
    assert(sizes(r@) =~= seq![a as nat]);
    r
}

/// A list of two sizes.
pub(crate) fn dims2(a: usize, b: usize) -> (r: Vec<usize>)
    ensures
        sizes(r@) == seq![a as nat, b as nat],
{
    let r: Vec<usize> = vec![a, b];
    assert(sizes(r@) =~= seq![a as nat, b as nat]);
    r
}

/// A list of three sizes.
pub(crate) fn dims3(a: usize, b: usize, c: usize) -> (r: Vec<usize>)
    ensures
        sizes(r@) == seq![a as nat, b as nat, c as nat],
{
    let r: Vec<usize> = vec![a, b, c];
    assert(sizes(r@) =~= seq![a as nat, b as nat, c as nat]);
    r
}

/// A list of four sizes.
pub(crate) fn dims4(a: usize, b: usize, c: usize, d: usize) -> (r: Vec<usize>)
    ensures
        sizes(r@) == seq![a as nat, b as nat, c as nat, d as nat],
{
    let r: Vec<usize> = vec![a, b, c, d];
    assert(sizes(r@) =~= seq![a as nat, b as nat, c as nat, d as nat]);
    r
}

/// The weights of a linear layer.
pub struct LinearWeights {
    /// One row of weights for each output.
    pub weight: Array,
    /// One shift for each output.
    pub bias: Array,
}

impl LinearWeights {
    /// Whether a store has, here, a linear layer of `inputs` to `outputs`.
    pub open spec fn stored_in(store: Store, outputs: nat, inputs: nat) -> bool {
        &&& store.has("weight"@, seq![outputs, inputs])
        &&& store.has("bias"@, seq![outputs])
    }

    /// Whether these weights are the ones that a store has here.
    pub open spec fn loaded_from(self, store: Store, outputs: nat, inputs: nat) -> bool {
        &&& store.gives("weight"@, seq![outputs, inputs], self.weight)
        &&& store.gives("bias"@, seq![outputs], self.bias)
    }

    /// Whether these are zeros, for a layer of `inputs` to `outputs`.
    pub open spec fn are_zeros(self, dtype: ElemType, outputs: nat, inputs: nat) -> bool {
        &&& self.weight.dims == seq![outputs, inputs]
        &&& forall|k: int|
            0 <= k < outputs * inputs ==> is_zero(dtype, #[trigger] self.weight.elems[k])
        &&& forall|o: int| 0 <= o < outputs ==> is_zero(dtype, #[trigger] self.bias.elems[o])
    }

    /// Whether `r` is an outcome of the layer on `x`.
    pub open spec fn maps(self, x: Array, r: Array) -> bool {
        is_linear(x, self.weight, self.bias, r)
    }
}

/// A linear layer of zeros makes zeros of what is finite.
pub proof fn law_zero_layer_gives_zeros(
    weights: LinearWeights,
    x: Array,
    r: Array,
    outputs: nat,
    inputs: nat,
)
    requires
        x.dims.len() > 0,
        x.dims.last() == inputs,
        x.well_formed(),
        weights.are_zeros(x.dtype, outputs, inputs),
        all_finite(x),
        weights.maps(x, r),
    ensures
        forall|k: int| 0 <= k < r.elems.len() ==> is_zero(x.dtype, #[trigger] r.elems[k]),
{
    let dtype = x.dtype;
    assert(r.dims.drop_last() =~= x.dims.drop_last());
    assert forall|k: int| 0 <= k < r.elems.len() implies is_zero(
        dtype,
        #[trigger] r.elems[k],
    ) by {
        lemma_parts_within(k, x.height() as int, outputs as int);
        let (i, o) = (k / (outputs as int), k % (outputs as int));
        assert forall|c: int| 0 <= c < x.row(i).len() implies is_finite(
            dtype,
            #[trigger] x.row(i)[c],
        ) by {
            lemma_within(i, c, x.height() as int, inputs as int);
            assert(is_finite(dtype, x.elems[i * inputs + c]));
        }
        assert forall|p: int| o * inputs <= p < o * inputs + inputs implies is_zero(
            dtype,
            #[trigger] weights.weight.elems[p],
        ) by {
            lemma_within(o, p - o * inputs, outputs as int, inputs as int);
        }
        assert(is_projected(
            dtype,
            x.row(i),
            weights.weight.elems,
            weights.bias.elems,
            r.row(i),
        ));
        assert(is_zero(dtype, weights.bias.elems[o]));
        lemma_zero_is_finite(dtype, weights.bias.elems[o]);
        assert(r.row(i)[o] == r.elems[k]);
    }
}

/// A zero is finite.
pub proof fn lemma_zero_is_finite(dtype: ElemType, x: int)
    requires
        is_zero(dtype, x),
    ensures
        is_finite(dtype, x),
{
}

/// A linear layer.
pub(crate) struct Linear {
    weight: Tensor,
    bias: Tensor,
}

impl Linear {
    /// The weights of the layer.
    pub closed spec fn weights(self) -> LinearWeights {
        LinearWeights { weight: contents(self.weight), bias: contents(self.bias) }
    }

    /// Whether the layer computes with the given type.
    pub closed spec fn computes_with(self, dtype: ElemType) -> bool {
        &&& is_model_type(dtype)
        &&& plain(self.weight, dtype)
        &&& plain(self.bias, dtype)
    }

    /// A layer of `inputs` to `outputs` that computes with the given type.
    pub open spec fn well_formed(self, dtype: ElemType, outputs: nat, inputs: nat) -> bool {
        &&& self.computes_with(dtype)
        &&& self.weights().weight.dims == seq![outputs, inputs]
        &&& self.weights().bias.dims == seq![outputs]
        &&& allocatable(seq![outputs, inputs])
    }

    /// Loads a layer of `inputs` to `outputs`.  Fails exactly where the builder
    /// has no such layer.
    pub(crate) fn new(vb: &VarBuilder, outputs: usize, inputs: usize) -> (r: Result<Linear, ModelError>)
        ensures
            r is Ok <==> LinearWeights::stored_in(vb.store(), outputs as nat, inputs as nat),
            r matches Ok(layer) ==> {
                &&& layer.weights().loaded_from(vb.store(), outputs as nat, inputs as nat)
                &&& layer.well_formed(
                    vb.store().precision.elem_type(),
                    outputs as nat,
                    inputs as nat,
                )
            },
            r matches Err(e) ==> e is Tensor,
    {
        let weight = lift(vb.get(dims2(outputs, inputs), "weight"))?;
        let bias = lift(vb.get(dims1(outputs), "bias"))?;
        Ok(Linear { weight, bias })
    }

    /// Applies the layer to the innermost dimension of `x`, a matrix or a stack
    /// of matrices.  Fails exactly where that dimension is not of the size of the
    /// layer's inputs.
    pub(crate) fn forward(&self, x: &Tensor) -> (r: Result<Tensor, ModelError>)
        requires
            self.well_formed(
                tensor_dtype(*x),
                self.weights().weight.dims[0],
                self.weights().weight.dims[1],
            ),
            tensor_dims(*x).last() > 0 || self.weights().weight.dims[1] == 0,
            self.weights().weight.dims[0] > 0 || self.weights().weight.dims[1] == tensor_dims(
                *x,
            ).last(),
            plain(*x, tensor_dtype(*x)),
            tensor_dims(*x).len() == 2 || tensor_dims(*x).len() == 3,
            volume(tensor_dims(*x).drop_last()) > 0,
            allocatable(tensor_dims(*x).drop_last().push(self.weights().weight.dims[0])),
        ensures
            r is Ok <==> self.weights().weight.dims[1] == tensor_dims(*x).last(),
            r matches Ok(y) ==> {
                &&& plain(y, tensor_dtype(*x))
                &&& tensor_dims(y) == tensor_dims(*x).drop_last().push(
                    self.weights().weight.dims[0],
                )
                &&& self.weights().maps(contents(*x), contents(y))
            },
            r matches Err(e) ==> e is Tensor,
    {
        lift(tensor::linear(x, &self.weight, &self.bias))
    }
}

impl Linear {
    /// Zeros of the type that the layer computes with.
    pub(crate) fn zeros(&self, dims: Vec<usize>) -> (r: Result<Tensor, ModelError>)
        requires
            allocatable(sizes(dims@)),
        ensures
            r is Ok,
            r matches Ok(t) ==> {
                &&& forall|dtype: ElemType| #[trigger]
                    self.computes_with(dtype) ==> plain(t, dtype)
                &&& tensor_dims(t) == sizes(dims@)
                &&& forall|k: int|
                    0 <= k < tensor_elems(t).len() ==> #[trigger] tensor_elems(t)[k] == 0
            },
    {
        lift(tensor::zeros(dims, &self.weight))
    }
}

/// The weights of a layer normalisation.
pub struct NormWeights {
    /// The scale of each place.
    pub weight: Array,
    /// The shift of each place.
    pub bias: Array,
    /// The bit pattern of the epsilon.
    pub eps: u64,
}

impl NormWeights {
    /// Whether a store has, here, a layer normalisation of this width.
    pub open spec fn stored_in(store: Store, width: nat) -> bool {
        &&& store.has("weight"@, seq![width])
        &&& store.has("bias"@, seq![width])
    }

    /// Whether these weights are the ones that a store has here.
    pub open spec fn loaded_from(self, store: Store, width: nat, eps: u64) -> bool {
        &&& store.gives("weight"@, seq![width], self.weight)
        &&& store.gives("bias"@, seq![width], self.bias)
        &&& self.eps == eps
    }

    /// Whether `r` is an outcome of the layer on `x`.
    pub open spec fn maps(self, x: Array, r: Array) -> bool {
        is_layer_norm(x, self.weight, self.bias, double(self.eps), r)
    }
}

/// A layer normalisation.
pub(crate) struct LayerNorm {
    weight: Tensor,
    bias: Tensor,
    eps: u64,
}

impl LayerNorm {
    /// The weights of the layer.
    pub closed spec fn weights(self) -> NormWeights {
        NormWeights { weight: contents(self.weight), bias: contents(self.bias), eps: self.eps }
    }

    /// Whether the layer computes with the given type.
    pub closed spec fn computes_with(self, dtype: ElemType) -> bool {
        &&& is_model_type(dtype)
        &&& plain(self.weight, dtype)
        &&& plain(self.bias, dtype)
    }

    /// A layer of this width that computes with the given type.
    pub open spec fn well_formed(self, dtype: ElemType, width: nat) -> bool {
        &&& self.computes_with(dtype)
        &&& self.weights().weight.dims == seq![width]
        &&& self.weights().bias.dims == seq![width]
    }

    /// Loads a layer of this width.  Fails exactly where the builder has no such
    /// layer.
    pub(crate) fn new(vb: &VarBuilder, width: usize, eps: u64) -> (r: Result<LayerNorm, ModelError>)
        ensures
            r is Ok <==> NormWeights::stored_in(vb.store(), width as nat),
            r matches Ok(layer) ==> {
                &&& layer.weights().loaded_from(vb.store(), width as nat, eps)
                &&& layer.well_formed(vb.store().precision.elem_type(), width as nat)
            },
            r matches Err(e) ==> e is Tensor,
    {
        let weight = lift(vb.get(dims1(width), "weight"))?;
        let bias = lift(vb.get(dims1(width), "bias"))?;
        Ok(LayerNorm { weight, bias, eps })
    }

    /// Applies the layer to the innermost dimension of `x`.  Fails exactly where
    /// that dimension is not of the layer's width.
    pub(crate) fn forward(&self, x: &Tensor) -> (r: Result<Tensor, ModelError>)
        requires
            self.well_formed(tensor_dtype(*x), self.weights().weight.dims[0]),
            self.weights().weight.dims[0] > 0,
            plain(*x, tensor_dtype(*x)),
        ensures
            r is Ok <==> tensor_dims(*x).len() > 0 && tensor_dims(*x).last()
                == self.weights().weight.dims[0],
            r matches Ok(y) ==> {
                &&& plain(y, tensor_dtype(*x))
                &&& tensor_dims(y) == tensor_dims(*x)
                &&& self.weights().maps(contents(*x), contents(y))
            },
            r matches Err(e) ==> e is Tensor,
    {
        let eps = lift(tensor::from_double(self.eps))?;
        lift(tensor::layer_norm(x, &self.weight, &self.bias, &eps))
    }
}

} // verus!
