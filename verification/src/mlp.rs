//! The feed-forward block.
use candle_core::Tensor;
use vstd::prelude::*;

use crate::array::{allocatable, lemma_volume_2, lemma_with_rows, volume};
use crate::array::{Array, ElemType};
use crate::config::HiddenAct;
use crate::error::lift;
use crate::error::ModelError;
use crate::layers::{Linear, LinearWeights};
use crate::regroup::{lemma_gelu_rows, lemma_linear_rows};
use crate::tensor;
use crate::outcome::is_gelu;
use crate::tensor::{contents, is_model_type, plain, tensor_dims, tensor_dtype};
use crate::weights::{Store, VarBuilder};

verus! {

/// The weights of a feed-forward block.
pub struct MlpWeights {
    /// The layer that widens.
    pub fc1: LinearWeights,
    /// The layer that narrows again.
    pub fc2: LinearWeights,
    /// The activation function between them.
    pub activation: HiddenAct,
}

/// Whether `r` is an outcome of the activation function on `x`.
pub open spec fn is_activated(activation: HiddenAct, x: Array, r: Array) -> bool {
    match activation {
        HiddenAct::Gelu => is_gelu(x, r),
    }
}

impl MlpWeights {
    /// Whether a store has, here, a feed-forward block of these widths.
    pub open spec fn stored_in(store: Store, hidden: nat, intermediate: nat) -> bool {
        &&& LinearWeights::stored_in(store.at("fc1"@), intermediate, hidden)
        &&& LinearWeights::stored_in(store.at("fc2"@), hidden, intermediate)
    }

    /// Whether these weights are the ones that a store has here.
    pub open spec fn loaded_from(
        self,
        store: Store,
        hidden: nat,
        intermediate: nat,
        activation: HiddenAct,
    ) -> bool {
        &&& self.fc1.loaded_from(store.at("fc1"@), intermediate, hidden)
        &&& self.fc2.loaded_from(store.at("fc2"@), hidden, intermediate)
        &&& self.activation == activation
    }

    /// Whether these are the weights of a block of these widths.
    pub open spec fn is_sized(self, hidden: nat, intermediate: nat) -> bool {
        &&& self.fc1.weight.dims == seq![intermediate, hidden]
        &&& self.fc2.weight.dims == seq![hidden, intermediate]
    }

    /// Whether `r` is an outcome of the block on `x`.
    pub open spec fn maps(self, x: Array, r: Array) -> bool {
        exists|wide: Array, active: Array|
            {
                &&& #[trigger] self.fc1.maps(x, wide)
                &&& is_activated(self.activation, wide, active)
                &&& #[trigger] self.fc2.maps(active, r)
            }
    }
}

/// A feed-forward block works row by row: where rows are picked out, what comes out
/// for them is picked out too.
pub proof fn law_mlp_works_on_rows(
    weights: MlpWeights,
    x: Array,
    r: Array,
    outer: Seq<nat>,
    from: spec_fn(int) -> int,
)
    requires
        x.dims.len() > 0,
        weights.maps(x, r),
        forall|k: int| 0 <= k < volume(outer) ==> 0 <= #[trigger] from(k) < x.height(),
    ensures
        weights.maps(x.with_rows(outer, from), r.with_rows(outer, from)),
{
    let (wide, active) = choose|wide: Array, active: Array|
        {
            &&& #[trigger] weights.fc1.maps(x, wide)
            &&& is_activated(weights.activation, wide, active)
            &&& #[trigger] weights.fc2.maps(active, r)
        };
    assert(wide.dims.drop_last() =~= x.dims.drop_last());
    lemma_linear_rows(x, weights.fc1.weight, weights.fc1.bias, wide, outer, from);
    lemma_gelu_rows(wide, active, outer, from);
    lemma_linear_rows(active, weights.fc2.weight, weights.fc2.bias, r, outer, from);
    assert(weights.fc1.maps(x.with_rows(outer, from), wide.with_rows(outer, from)));
    assert(weights.fc2.maps(active.with_rows(outer, from), r.with_rows(outer, from)));
}

/// What a feed-forward block makes of a position is an outcome of the hidden state
/// at that position alone: where `y` holds at row `j` what `x` holds at row `i`,
/// what comes out for `x` at row `i` is what can come out for `y` at row `j`.
pub proof fn law_mlp_sees_one_position(
    weights: MlpWeights,
    x: Array,
    r: Array,
    i: int,
    y: Array,
    j: int,
)
    requires
        x.dims.len() > 0,
        y.dims.len() > 0,
        weights.maps(x, r),
        0 <= i < x.height(),
        0 <= j < y.height(),
        y.dtype == x.dtype,
        y.row(j) == x.row(i),
    ensures
        weights.maps(
            y.with_rows(seq![1nat, 1nat], |k: int| j),
            r.with_rows(seq![1nat, 1nat], |k: int| i),
        ),
{
    let outer = seq![1nat, 1nat];
    lemma_volume_2(1, 1);
    law_mlp_works_on_rows(weights, x, r, outer, |k: int| i);
    let (one_x, one_y) = (x.with_rows(outer, |k: int| i), y.with_rows(outer, |k: int| j));
    assert(x.row(i).len() == x.width() && y.row(j).len() == y.width());
    lemma_with_rows(x, outer, |k: int| i, 0);
    lemma_with_rows(y, outer, |k: int| j, 0);
    assert(outer.push(x.width()).drop_last() =~= outer);
    assert(volume(outer.push(x.width())) == 1 * x.width());
    assert(1 * x.width() == x.width());
    assert forall|c: int| 0 <= c < x.width() implies one_x.elems[c] == one_y.elems[c] by {
        assert(one_x.row(0)[c] == one_y.row(0)[c]);
    }
    assert(one_x.elems =~= one_y.elems);
    assert(one_x =~= one_y);
}

/// A feed-forward block.
pub(crate) struct Mlp {
    fc1: Linear,
    fc2: Linear,
    activation_fn: HiddenAct,
}

impl Mlp {
    /// The weights of the block.
    pub closed spec fn weights(self) -> MlpWeights {
        MlpWeights {
            fc1: self.fc1.weights(),
            fc2: self.fc2.weights(),
            activation: self.activation_fn,
        }
    }

    /// A block of these widths that computes with the given type.
    pub closed spec fn well_formed(self, dtype: ElemType, hidden: nat, intermediate: nat) -> bool {
        &&& is_model_type(dtype)
        &&& self.fc1.well_formed(dtype, intermediate, hidden)
        &&& self.fc2.well_formed(dtype, hidden, intermediate)
    }

    /// Loads a block of these widths.  Fails exactly where the builder has no
    /// such block.
    pub(crate) fn new(
        vb: &VarBuilder,
        hidden_size: usize,
        intermediate_size: usize,
        hidden_act: HiddenAct,
    ) -> (r: Result<Mlp, ModelError>)
        ensures
            r is Ok <==> MlpWeights::stored_in(
                vb.store(),
                hidden_size as nat,
                intermediate_size as nat,
            ),
            r matches Ok(block) ==> {
                &&& block.weights().loaded_from(
                    vb.store(),
                    hidden_size as nat,
                    intermediate_size as nat,
                    hidden_act,
                )
                &&& block.well_formed(
                    vb.store().precision.elem_type(),
                    hidden_size as nat,
                    intermediate_size as nat,
                )
            },
            r matches Err(e) ==> e is Tensor,
    {
        let fc1 = Linear::new(&vb.pp("fc1"), intermediate_size, hidden_size)?;
        let fc2 = Linear::new(&vb.pp("fc2"), hidden_size, intermediate_size)?;
        Ok(Mlp { fc1, fc2, activation_fn: hidden_act })
    }

    /// Applies the activation function.
    fn activate(&self, xs: &Tensor) -> (r: Result<Tensor, ModelError>)
        requires
            is_model_type(tensor_dtype(*xs)),
            plain(*xs, tensor_dtype(*xs)),
        ensures
            r is Ok,
            r matches Ok(ys) ==> {
                &&& plain(ys, tensor_dtype(*xs))
                &&& tensor_dims(ys) == tensor_dims(*xs)
                &&& is_activated(self.weights().activation, contents(*xs), contents(ys))
            },
    {
        match self.activation_fn {
            HiddenAct::Gelu => lift(tensor::gelu(xs)),
        }
    }

    /// Applies the block to hidden states.
    pub(crate) fn forward(&self, xs: &Tensor, Ghost(intermediate): Ghost<nat>) -> (r: Result<
        Tensor,
        ModelError,
    >)
        requires
            tensor_dims(*xs).len() == 3,
            tensor_dims(*xs)[0] > 0,
            tensor_dims(*xs)[1] > 0,
            self.well_formed(tensor_dtype(*xs), tensor_dims(*xs)[2], intermediate),
            plain(*xs, tensor_dtype(*xs)),
            allocatable(seq![tensor_dims(*xs)[0], tensor_dims(*xs)[1], intermediate]),
        ensures
            r is Ok,
            r matches Ok(ys) ==> {
                &&& plain(ys, tensor_dtype(*xs))
                &&& tensor_dims(ys) == tensor_dims(*xs)
                &&& self.weights().maps(contents(*xs), contents(ys))
            },
    {
        let ghost (b, l, w) = (tensor_dims(*xs)[0], tensor_dims(*xs)[1], tensor_dims(*xs)[2]);
        proof {
            assert(tensor_dims(*xs) =~= seq![b, l, w]);
            assert(seq![b, l, w].drop_last() =~= seq![b, l]);
            assert(seq![b, l].push(w) =~= seq![b, l, w]);
            assert(seq![b, l].push(intermediate) =~= seq![b, l, intermediate]);
            assert(seq![b, l].push(intermediate).drop_last() =~= seq![b, l]);
            lemma_volume_2(b, l);
            assert(b * l > 0) by (nonlinear_arith)
                requires
                    b > 0,
                    l > 0,
            ;
        }
        let wide = self.fc1.forward(xs)?;
        let active = self.activate(&wide)?;
        let out = self.fc2.forward(&active)?;
        assert(self.weights().fc1.maps(contents(*xs), contents(wide)));
        assert(self.weights().fc2.maps(contents(active), contents(out)));
        Ok(out)
    }
}

} // verus!
