//! The stack of encoder layers.
use candle_core::Tensor;
use vstd::prelude::*;

use crate::array::{allocatable, double, lemma_source_same, volume};
use crate::array::{Array, ElemType};
use crate::attention::{law_attention_regroups, mask_contents, mask_fits};
use crate::attention::{Attention, AttentionTrace, AttentionWeights};
use crate::config::SiglipTextConfig;
use crate::error::lift;
use crate::error::ModelError;
use crate::layers::{law_zero_layer_gives_zeros, LayerNorm, NormWeights};
use crate::mlp::{is_activated, law_mlp_works_on_rows};
use crate::mlp::{Mlp, MlpWeights};
use crate::regroup::{
    all_in, is_permutation, lemma_norm_rows, lemma_row_sources, lemma_sum_rows, regrouped, row_source,
};
use crate::tensor;
use crate::outcome::{all_finite, is_added, is_finite, is_sum, is_zero, unsigned_zero};
use crate::tensor::{contents, is_model_type, plain, tensor_dims, tensor_dtype};
use crate::weights::decimal;
use crate::weights::{Store, VarBuilder};

verus! {

/// The weights of an encoder layer.
pub struct LayerWeights {
    /// The attention block.
    pub attention: AttentionWeights,
    /// The normalisation before the attention block.
    pub norm1: NormWeights,
    /// The feed-forward block.
    pub mlp: MlpWeights,
    /// The normalisation before the feed-forward block.
    pub norm2: NormWeights,
}

/// The arrays on the way through an encoder layer.
pub struct LayerTrace {
    /// The hidden states, normalised.
    pub normed1: Array,
    /// What the attention block makes of them.
    pub attended: Array,
    /// That, added to the hidden states.
    pub middle: Array,
    /// The sum, normalised.
    pub normed2: Array,
    /// What the feed-forward block makes of it.
    pub fed: Array,
}

impl LayerWeights {
    /// Whether a store has, here, a layer of this configuration.
    pub open spec fn stored_in(store: Store, config: SiglipTextConfig) -> bool {
        &&& AttentionWeights::stored_in(store.at("self_attn"@), config.hidden_size as nat)
        &&& NormWeights::stored_in(store.at("layer_norm1"@), config.hidden_size as nat)
        &&& MlpWeights::stored_in(
            store.at("mlp"@),
            config.hidden_size as nat,
            config.intermediate_size as nat,
        )
        &&& NormWeights::stored_in(store.at("layer_norm2"@), config.hidden_size as nat)
    }

    /// Whether these weights are the ones that a store has here.
    pub open spec fn loaded_from(self, store: Store, config: SiglipTextConfig) -> bool {
        &&& self.attention.loaded_from(
            store.at("self_attn"@),
            config.hidden_size as nat,
            config.num_attention_heads as nat,
        )
        &&& self.norm1.loaded_from(
            store.at("layer_norm1"@),
            config.hidden_size as nat,
            config.layer_norm_eps,
        )
        &&& self.mlp.loaded_from(
            store.at("mlp"@),
            config.hidden_size as nat,
            config.intermediate_size as nat,
            config.hidden_act,
        )
        &&& self.norm2.loaded_from(
            store.at("layer_norm2"@),
            config.hidden_size as nat,
            config.layer_norm_eps,
        )
    }

    /// Whether these are the weights of a layer of this configuration.
    pub open spec fn is_sized(self, config: SiglipTextConfig) -> bool {
        &&& self.attention.is_sized(config.hidden_size as nat)
        &&& self.mlp.is_sized(config.hidden_size as nat, config.intermediate_size as nat)
    }

    /// Whether `trace` leads from `x` to `r`.
    pub open spec fn steps(
        self,
        x: Array,
        mask: Option<Array>,
        trace: LayerTrace,
        r: Array,
    ) -> bool {
        &&& self.norm1.maps(x, trace.normed1)
        &&& self.attention.maps(trace.normed1, mask, trace.attended)
        &&& is_sum(x, trace.attended, trace.middle)
        &&& self.norm2.maps(trace.middle, trace.normed2)
        &&& self.mlp.maps(trace.normed2, trace.fed)
        &&& is_sum(trace.fed, trace.middle, r)
    }

    /// Whether `r` is an outcome of the layer on `x`, under this mask.
    pub open spec fn maps(self, x: Array, mask: Option<Array>, r: Array) -> bool {
        exists|trace: LayerTrace| self.steps(x, mask, trace, r)
    }
}

/// The weights of the encoder, layer by layer.
pub struct EncoderWeights {
    /// The layers, in the order in which they are applied.
    pub layers: Seq<LayerWeights>,
}

impl EncoderWeights {
    /// Where a store has layer `i` of an encoder that it has here.
    pub open spec fn layer_store(store: Store, i: int) -> Store {
        store.at("layers"@).at(decimal(i as nat))
    }

    /// Whether a store has, here, an encoder of this configuration.
    pub open spec fn stored_in(store: Store, config: SiglipTextConfig) -> bool {
        forall|i: int|
            0 <= i < config.num_hidden_layers ==> LayerWeights::stored_in(
                #[trigger] EncoderWeights::layer_store(store, i),
                config,
            )
    }

    /// Whether these weights are the ones that a store has here.
    pub open spec fn loaded_from(self, store: Store, config: SiglipTextConfig) -> bool {
        &&& self.layers.len() == config.num_hidden_layers
        &&& forall|i: int|
            0 <= i < self.layers.len() ==> (#[trigger] self.layers[i]).loaded_from(
                EncoderWeights::layer_store(store, i),
                config,
            )
    }

    /// Whether these are the weights of an encoder of this configuration.
    pub open spec fn is_sized(self, config: SiglipTextConfig) -> bool {
        forall|i: int|
            0 <= i < self.layers.len() ==> (#[trigger] self.layers[i]).is_sized(config)
    }

    /// Whether `states`, the hidden states before and after each layer, are an
    /// outcome of the layers.
    pub open spec fn steps(self, mask: Option<Array>, states: Seq<Array>) -> bool {
        &&& states.len() == self.layers.len() + 1
        &&& forall|i: int|
            0 <= i < self.layers.len() ==> (#[trigger] self.layers[i]).maps(
                states[i],
                mask,
                states[i + 1],
            )
    }

    /// Whether `r` is an outcome of the encoder on `x`, under this mask.
    pub open spec fn maps(self, x: Array, mask: Option<Array>, r: Array) -> bool {
        exists|states: Seq<Array>|
            {
                &&& #[trigger] self.steps(mask, states)
                &&& states.first() == x
                &&& states.last() == r
            }
    }
}

/// A layer's outcomes have the dimensions of what it was applied to.
proof fn lemma_layer_dims(
    weights: LayerWeights,
    config: SiglipTextConfig,
    x: Array,
    mask: Option<Array>,
    r: Array,
)
    requires
        weights.is_sized(config),
        x.dims.len() == 3,
        x.dims[2] == config.hidden_size,
        weights.maps(x, mask, r),
    ensures
        r.dims == x.dims,
        r.dtype == x.dtype,
        r.well_formed(),
{
    let trace = choose|trace: LayerTrace| weights.steps(x, mask, trace, r);
    lemma_mlp_dims(weights.mlp, trace.normed2, trace.fed);
    assert(x.dims.drop_last().push(x.dims[2]) =~= x.dims);
}

/// The dimensions of the outcomes of a feed-forward block.
pub proof fn lemma_mlp_dims(weights: MlpWeights, x: Array, r: Array)
    requires
        x.dims.len() > 0,
        weights.maps(x, r),
    ensures
        r.dims == x.dims.drop_last().push(weights.fc2.weight.dims[0]),
        r.dtype == x.dtype,
{
    let (wide, active) = choose|wide: Array, active: Array|
        {
            &&& #[trigger] weights.fc1.maps(x, wide)
            &&& is_activated(weights.activation, wide, active)
            &&& #[trigger] weights.fc2.maps(active, r)
        };
    assert(wide.dims.drop_last() =~= x.dims.drop_last());
}

/// An unmasked layer knows no order: where texts are picked out, and their positions
/// put in another order, what comes out for them is picked out and put in that order
/// too.
pub proof fn law_layer_regroups(
    weights: LayerWeights,
    config: SiglipTextConfig,
    x: Array,
    r: Array,
    texts: Seq<int>,
    positions: Seq<int>,
)
    requires
        weights.is_sized(config),
        x.dims.len() == 3,
        x.dims[2] == config.hidden_size,
        weights.maps(x, None, r),
        all_in(texts, x.dims[0]),
        is_permutation(positions),
        positions.len() == x.dims[1],
    ensures
        weights.maps(regrouped(x, texts, positions), None, regrouped(r, texts, positions)),
{
    let trace = choose|trace: LayerTrace| weights.steps(x, None, trace, r);
    let (batch, len) = (x.dims[0], x.dims[1]);
    let outer = seq![texts.len(), len];
    let from = row_source(texts, positions, len);
    let (norm1, norm2) = (weights.norm1, weights.norm2);
    assert(x.dims.drop_last().push(x.dims[2]) =~= x.dims);
    lemma_mlp_dims(weights.mlp, trace.normed2, trace.fed);
    let attention = choose|t: AttentionTrace|
        weights.attention.steps(trace.normed1, None, t, trace.attended);
    assert(trace.attended.dims =~= x.dims);
    lemma_row_sources(x, texts, positions, batch, len);
    lemma_norm_rows(x, norm1.weight, norm1.bias, double(norm1.eps), trace.normed1, outer, from);
    law_attention_regroups(weights.attention, trace.normed1, trace.attended, texts, positions);
    lemma_sum_rows(x, trace.attended, trace.middle, outer, from);
    lemma_norm_rows(
        trace.middle,
        norm2.weight,
        norm2.bias,
        double(norm2.eps),
        trace.normed2,
        outer,
        from,
    );
    law_mlp_works_on_rows(weights.mlp, trace.normed2, trace.fed, outer, from);
    lemma_sum_rows(trace.fed, trace.middle, r, outer, from);
    let moved = LayerTrace {
        normed1: regrouped(trace.normed1, texts, positions),
        attended: regrouped(trace.attended, texts, positions),
        middle: regrouped(trace.middle, texts, positions),
        normed2: regrouped(trace.normed2, texts, positions),
        fed: regrouped(trace.fed, texts, positions),
    };
    assert(weights.steps(
        regrouped(x, texts, positions),
        None,
        moved,
        regrouped(r, texts, positions),
    ));
}

/// An unmasked encoder knows no order: where texts are picked out, and their
/// positions put in another order, what comes out for them is picked out and put in
/// that order too.
pub proof fn law_encoder_regroups(
    weights: EncoderWeights,
    config: SiglipTextConfig,
    x: Array,
    r: Array,
    texts: Seq<int>,
    positions: Seq<int>,
)
    requires
        weights.is_sized(config),
        x.dims.len() == 3,
        x.dims[2] == config.hidden_size,
        weights.maps(x, None, r),
        all_in(texts, x.dims[0]),
        is_permutation(positions),
        positions.len() == x.dims[1],
    ensures
        r.dims == x.dims,
        r.dtype == x.dtype,
        weights.maps(regrouped(x, texts, positions), None, regrouped(r, texts, positions)),
{
    let states = choose|states: Seq<Array>|
        {
            &&& #[trigger] weights.steps(None, states)
            &&& states.first() == x
            &&& states.last() == r
        };
    let moved = states.map_values(|a: Array| regrouped(a, texts, positions));
    assert forall|i: int| 0 <= i < states.len() implies (#[trigger] states[i]).dims == x.dims
        && states[i].dtype == x.dtype by {
        lemma_states_dims(weights, config, states, None, i);
    }
    assert forall|i: int| 0 <= i < weights.layers.len() implies (
    #[trigger] weights.layers[i]).maps(moved[i], None, moved[i + 1]) by {
        assert(states[i].dims == x.dims);
        law_layer_regroups(
            weights.layers[i],
            config,
            states[i],
            states[i + 1],
            texts,
            positions,
        );
    }
    assert(weights.steps(None, moved));
    assert(states[states.len() - 1].dims == x.dims);
}

/// The hidden states between layers have the dimensions of the first.
pub proof fn lemma_states_dims(
    weights: EncoderWeights,
    config: SiglipTextConfig,
    states: Seq<Array>,
    mask: Option<Array>,
    i: int,
)
    requires
        weights.is_sized(config),
        weights.steps(mask, states),
        states[0].dims.len() == 3,
        states[0].dims[2] == config.hidden_size,
        0 <= i < states.len(),
    ensures
        states[i].dims == states[0].dims,
        states[i].dtype == states[0].dtype,
        i > 0 ==> states[i].well_formed(),
    decreases i,
{
    if i > 0 {
        lemma_states_dims(weights, config, states, mask, i - 1);
        assert(weights.layers[i - 1].maps(states[i - 1], mask, states[i - 1 + 1]));
        lemma_layer_dims(weights.layers[i - 1], config, states[i - 1], mask, states[i]);
    }
}

/// A layer of which the last weights of both blocks are zeros returns what it was
/// applied to, up to the sign of a zero, where all that is computed stays finite.
pub proof fn law_zero_layer_returns_its_input(
    weights: LayerWeights,
    config: SiglipTextConfig,
    x: Array,
    mask: Option<Array>,
    trace: LayerTrace,
    attention: AttentionTrace,
    wide: Array,
    active: Array,
    r: Array,
)
    requires
        weights.is_sized(config),
        x.dims.len() == 3,
        x.dims[2] == config.hidden_size,
        x.well_formed(),
        weights.attention.out.are_zeros(
            x.dtype,
            config.hidden_size as nat,
            config.hidden_size as nat,
        ),
        weights.mlp.fc2.are_zeros(
            x.dtype,
            config.hidden_size as nat,
            config.intermediate_size as nat,
        ),
        weights.steps(x, mask, trace, r),
        weights.attention.steps(trace.normed1, mask, attention, trace.attended),
        weights.mlp.fc1.maps(trace.normed2, wide),
        is_activated(weights.mlp.activation, wide, active),
        weights.mlp.fc2.maps(active, trace.fed),
        all_finite(x),
        all_finite(attention.mixed),
        all_finite(active),
    ensures
        r.dims == x.dims,
        forall|k: int|
            0 <= k < r.elems.len() ==> unsigned_zero(x.dtype, #[trigger] r.elems[k])
                == unsigned_zero(x.dtype, x.elems[k]),
{
    let (dtype, hidden) = (x.dtype, config.hidden_size as nat);
    assert(x.dims.drop_last().push(x.dims[2]) =~= x.dims);
    assert(attention.mixed.dims =~= x.dims);
    assert(trace.attended.dims =~= x.dims);
    assert(wide.dims.drop_last() =~= x.dims.drop_last());
    assert(trace.fed.dims =~= x.dims);
    law_zero_layer_gives_zeros(
        weights.attention.out,
        attention.mixed,
        trace.attended,
        hidden,
        hidden,
    );
    law_zero_layer_gives_zeros(
        weights.mlp.fc2,
        active,
        trace.fed,
        hidden,
        config.intermediate_size as nat,
    );
    assert forall|k: int| 0 <= k < r.elems.len() implies unsigned_zero(
        dtype,
        #[trigger] r.elems[k],
    ) == unsigned_zero(dtype, x.elems[k]) by {
        lemma_source_same(x.dims, k);
        let (y, m, f) = (trace.attended.elems[k], trace.middle.elems[k], trace.fed.elems[k]);
        assert(is_finite(dtype, x.elems[k]));
        assert(is_zero(dtype, y) && is_zero(dtype, f));
        assert(is_added(dtype, x.elems[k], y, m));
        assert(unsigned_zero(dtype, m) == unsigned_zero(dtype, x.elems[k]) && is_finite(dtype, m));
        assert(is_added(dtype, f, m, r.elems[k]));
    }
}

/// An encoder without layers changes nothing.
pub proof fn law_no_layers_no_change(
    weights: EncoderWeights,
    x: Array,
    mask: Option<Array>,
    r: Array,
)
    requires
        weights.layers.len() == 0,
    ensures
        weights.maps(x, mask, r) <==> r == x,
{
    assert(weights.steps(mask, seq![x]));
}

/// Running hidden states through some layers and then through others comes to
/// running them through all of these layers.
pub proof fn law_layers_follow_one_another(
    first: EncoderWeights,
    rest: EncoderWeights,
    x: Array,
    mask: Option<Array>,
    middle: Array,
    r: Array,
)
    requires
        first.maps(x, mask, middle),
        rest.maps(middle, mask, r),
    ensures
        (EncoderWeights { layers: first.layers + rest.layers }).maps(x, mask, r),
{
    let all = EncoderWeights { layers: first.layers + rest.layers };
    let states1 = choose|states: Seq<Array>|
        {
            &&& #[trigger] first.steps(mask, states)
            &&& states.first() == x
            &&& states.last() == middle
        };
    let states2 = choose|states: Seq<Array>|
        {
            &&& #[trigger] rest.steps(mask, states)
            &&& states.first() == middle
            &&& states.last() == r
        };
    let states = states1 + states2.drop_first();
    let n = first.layers.len();
    assert forall|i: int| 0 <= i < all.layers.len() implies (#[trigger] all.layers[i]).maps(
        states[i],
        mask,
        states[i + 1],
    ) by {
        if i < n {
            assert(all.layers[i] == first.layers[i]);
        } else {
            assert(all.layers[i] == rest.layers[i - n]);
            assert(states[i] == states2[i - n]);
            assert(states[i + 1] == states2[i - n + 1]);
        }
    }
    assert(all.steps(mask, states));
}

/// Running hidden states through layers comes to running them through some of
/// these layers first and then through the others.
pub proof fn law_layers_can_be_parted(
    first: EncoderWeights,
    rest: EncoderWeights,
    x: Array,
    mask: Option<Array>,
    r: Array,
)
    requires
        (EncoderWeights { layers: first.layers + rest.layers }).maps(x, mask, r),
    ensures
        exists|middle: Array| #[trigger]
            first.maps(x, mask, middle) && rest.maps(middle, mask, r),
{
    let all = EncoderWeights { layers: first.layers + rest.layers };
    let states = choose|states: Seq<Array>|
        {
            &&& #[trigger] all.steps(mask, states)
            &&& states.first() == x
            &&& states.last() == r
        };
    let n = first.layers.len() as int;
    let states1 = states.take(n + 1);
    let states2 = states.skip(n);
    assert(first.steps(mask, states1)) by {
        assert forall|i: int| 0 <= i < n implies (#[trigger] first.layers[i]).maps(
            states1[i],
            mask,
            states1[i + 1],
        ) by {
            assert(all.layers[i] == first.layers[i]);
        }
    }
    assert(rest.steps(mask, states2)) by {
        assert forall|i: int| 0 <= i < rest.layers.len() implies (#[trigger] rest.layers[i]).maps(
            states2[i],
            mask,
            states2[i + 1],
        ) by {
            assert(all.layers[n + i] == rest.layers[i]);
        }
    }
    assert(first.maps(x, mask, states[n]));
    assert(rest.maps(states[n], mask, r));
}

/// Whether the width is shared out among heads when an encoder is loaded: there is a
/// first layer, and a store has its attention block.
pub open spec fn heads_needed(store: Store, config: SiglipTextConfig) -> bool {
    &&& config.num_hidden_layers > 0
    &&& AttentionWeights::stored_in(
        EncoderWeights::layer_store(store, 0).at("self_attn"@),
        config.hidden_size as nat,
    )
}

/// Whether the attention heads of this configuration share out its width.
pub open spec fn heads_share_width(config: SiglipTextConfig) -> bool {
    config.num_attention_heads as nat * (config.hidden_size as nat
        / config.num_attention_heads as nat) == config.hidden_size
}

/// Whether hidden states of `batch` texts of `len` positions can be run through
/// an encoder of this configuration: there are some, and all that is computed on
/// the way can be allocated.
pub open spec fn encodable(config: SiglipTextConfig, batch: nat, len: nat) -> bool {
    &&& batch > 0
    &&& len > 0
    &&& config.hidden_size > 0
    &&& allocatable(seq![batch, len, config.hidden_size as nat])
    &&& config.num_hidden_layers > 0 ==> {
        &&& allocatable(seq![batch, len, config.intermediate_size as nat])
        &&& allocatable(seq![batch, config.num_attention_heads as nat, len, len])
    }
}

/// Whether these are the dimensions of hidden states of this configuration.
pub open spec fn are_states(dims: Seq<nat>, config: SiglipTextConfig) -> bool {
    &&& dims.len() == 3
    &&& dims[2] == config.hidden_size
}

/// Whether a layer of this configuration takes hidden states of these dimensions,
/// under this mask.
pub open spec fn takes(
    dims: Seq<nat>,
    mask: Option<&Tensor>,
    config: SiglipTextConfig,
) -> bool {
    &&& are_states(dims, config)
    &&& heads_share_width(config)
    &&& mask_fits(mask, dims, config.num_attention_heads as nat)
}

/// Whether a layer of this configuration can be applied to `xs` under this mask: they
/// are of one type, the mask is not empty, and hidden states of the right width
/// can be run through it.
pub open spec fn applicable(
    xs: Tensor,
    mask: Option<&Tensor>,
    config: SiglipTextConfig,
) -> bool {
    &&& plain(xs, tensor_dtype(xs))
    &&& are_states(tensor_dims(xs), config) ==> encodable(
        config,
        tensor_dims(xs)[0],
        tensor_dims(xs)[1],
    )
    &&& mask matches Some(m) ==> plain(*m, tensor_dtype(xs)) && volume(tensor_dims(*m)) > 0
}

/// A layer takes hidden states of three dimensions and of its own width, where the number
/// of heads divides that width; under a mask, where the mask fits.
pub proof fn law_what_layers_take(dims: Seq<nat>, mask: Option<&Tensor>, config: SiglipTextConfig)
    requires
        config.num_attention_heads > 0,
    ensures
        takes(dims, mask, config) <==> {
            &&& dims.len() == 3
            &&& dims[2] == config.hidden_size
            &&& config.hidden_size as int % (config.num_attention_heads as int) == 0
            &&& mask_fits(mask, dims, config.num_attention_heads as nat)
        },
{
    vstd::arithmetic::div_mod::lemma_fundamental_div_mod(
        config.hidden_size as int,
        config.num_attention_heads as int,
    );
}

/// An encoder layer.
pub(crate) struct EncoderLayer {
    self_attn: Attention,
    layer_norm1: LayerNorm,
    mlp: Mlp,
    layer_norm2: LayerNorm,
}

impl EncoderLayer {
    /// The weights of the layer.
    pub closed spec fn weights(self) -> LayerWeights {
        LayerWeights {
            attention: self.self_attn.weights(),
            norm1: self.layer_norm1.weights(),
            mlp: self.mlp.weights(),
            norm2: self.layer_norm2.weights(),
        }
    }

    /// A layer of this configuration that computes with the given type.
    pub closed spec fn well_formed(self, dtype: ElemType, config: SiglipTextConfig) -> bool {
        &&& is_model_type(dtype)
        &&& self.self_attn.well_formed(dtype, config.hidden_size as nat)
        &&& self.self_attn.weights().heads == config.num_attention_heads
        &&& self.self_attn.weights().head_dim == config.hidden_size as nat
            / config.num_attention_heads as nat
        &&& self.layer_norm1.well_formed(dtype, config.hidden_size as nat)
        &&& self.mlp.well_formed(
            dtype,
            config.hidden_size as nat,
            config.intermediate_size as nat,
        )
        &&& self.layer_norm2.well_formed(dtype, config.hidden_size as nat)
    }

    /// Loads a layer of this configuration.  Fails exactly where the builder has
    /// no such layer.
    pub(crate) fn new(config: &SiglipTextConfig, vb: &VarBuilder) -> (r: Result<
        EncoderLayer,
        ModelError,
    >)
        requires
            AttentionWeights::stored_in(vb.store().at("self_attn"@), config.hidden_size as nat)
                ==> config.num_attention_heads > 0,
        ensures
            r is Ok <==> LayerWeights::stored_in(vb.store(), *config),
            r matches Ok(layer) ==> {
                &&& layer.weights().loaded_from(vb.store(), *config)
                &&& layer.well_formed(vb.store().precision.elem_type(), *config)
            },
            r matches Err(e) ==> e is Tensor,
    {
        let hidden_size: usize = config.hidden_size;
        let eps: u64 = config.layer_norm_eps;
        let self_attn = Attention::new(
            &vb.pp("self_attn"),
            hidden_size,
            config.num_attention_heads,
        )?;
        let layer_norm1 = LayerNorm::new(&vb.pp("layer_norm1"), hidden_size, eps)?;
        let mlp = Mlp::new(
            &vb.pp("mlp"),
            hidden_size,
            config.intermediate_size,
            config.hidden_act,
        )?;
        let layer_norm2 = LayerNorm::new(&vb.pp("layer_norm2"), hidden_size, eps)?;
        Ok(EncoderLayer { self_attn, layer_norm1, mlp, layer_norm2 })
    }

    /// Applies the layer to hidden states.  Fails exactly where it does not take
    /// them under this mask.
    pub(crate) fn forward(
        &self,
        xs: &Tensor,
        attention_mask: Option<&Tensor>,
        Ghost(config): Ghost<SiglipTextConfig>,
    ) -> (r: Result<Tensor, ModelError>)
        requires
            self.well_formed(tensor_dtype(*xs), config),
            config.hidden_size > 0,
            config.num_hidden_layers > 0,
            applicable(*xs, attention_mask, config),
        ensures
            r is Ok <==> takes(tensor_dims(*xs), attention_mask, config),
            r matches Ok(ys) ==> {
                &&& plain(ys, tensor_dtype(*xs))
                &&& tensor_dims(ys) == tensor_dims(*xs)
                &&& self.weights().maps(contents(*xs), mask_contents(attention_mask), contents(ys))
            },
            r matches Err(e) ==> e is Tensor,
    {
        let normed1 = self.layer_norm1.forward(xs)?;
        let attended = self.self_attn.forward(
            &normed1,
            attention_mask,
            Ghost(config.hidden_size as nat),
        )?;
        let middle = lift(tensor::broadcast_add(xs, &attended))?;
        let normed2 = self.layer_norm2.forward(&middle)?;
        let fed = self.mlp.forward(&normed2, Ghost(config.intermediate_size as nat))?;
        let out = lift(tensor::broadcast_add(&fed, &middle))?;
        proof {
            let trace = LayerTrace {
                normed1: contents(normed1),
                attended: contents(attended),
                middle: contents(middle),
                normed2: contents(normed2),
                fed: contents(fed),
            };
            assert(self.weights().steps(
                contents(*xs),
                mask_contents(attention_mask),
                trace,
                contents(out),
            ));
        }
        Ok(out)
    }
}

/// A stack of encoder layers.
pub(crate) struct Encoder {
    layers: Vec<EncoderLayer>,
}

impl Encoder {
    /// The weights of the encoder.
    pub closed spec fn weights(self) -> EncoderWeights {
        EncoderWeights { layers: self.layers@.map_values(|l: EncoderLayer| l.weights()) }
    }

    /// An encoder of this configuration that computes with the given type.
    pub closed spec fn well_formed(self, dtype: ElemType, config: SiglipTextConfig) -> bool {
        &&& self.layers@.len() == config.num_hidden_layers
        &&& forall|i: int|
            0 <= i < self.layers@.len() ==> (#[trigger] self.layers@[i]).well_formed(dtype, config)
    }

    /// Loads the layers, in order.  Fails exactly where the builder lacks one of
    /// them.
    pub(crate) fn new(config: &SiglipTextConfig, vb: &VarBuilder) -> (r: Result<
        Encoder,
        ModelError,
    >)
        requires
            heads_needed(vb.store(), *config) ==> config.num_attention_heads > 0,
        ensures
            r is Ok <==> EncoderWeights::stored_in(vb.store(), *config),
            r matches Ok(encoder) ==> {
                &&& encoder.weights().loaded_from(vb.store(), *config)
                &&& encoder.well_formed(vb.store().precision.elem_type(), *config)
            },
            r matches Err(e) ==> e is Tensor,
    {
        let ghost store = vb.store();
        let layers_vb = vb.pp("layers");
        let mut layers: Vec<EncoderLayer> = Vec::new();
        let mut i: usize = 0;
        while i < config.num_hidden_layers
            invariant
                heads_needed(store, *config) ==> config.num_attention_heads > 0,
                i <= config.num_hidden_layers,
                store == vb.store(),
                layers_vb.store() == store.at("layers"@),
                layers@.len() == i,
                forall|k: int|
                    0 <= k < i ==> LayerWeights::stored_in(
                        #[trigger] EncoderWeights::layer_store(store, k),
                        *config,
                    ),
                forall|k: int|
                    0 <= k < i ==> {
                        &&& (#[trigger] layers@[k]).well_formed(
                            store.precision.elem_type(),
                            *config,
                        )
                        &&& layers@[k].weights().loaded_from(
                            EncoderWeights::layer_store(store, k),
                            *config,
                        )
                    },
            decreases config.num_hidden_layers - i,
        {
            let layer_vb = layers_vb.pp_number(i);
            assert(layer_vb.store() == EncoderWeights::layer_store(store, i as int));
            assert(i > 0 ==> LayerWeights::stored_in(
                EncoderWeights::layer_store(store, 0),
                *config,
            ));
            let layer = EncoderLayer::new(config, &layer_vb)?;
            layers.push(layer);
            i = i + 1;
        }
        Ok(Encoder { layers })
    }

    /// Applies the layers to hidden states, in order.  Fails exactly where there
    /// is a layer and it does not take them under this mask.
    pub(crate) fn forward(
        &self,
        xs: Tensor,
        attention_mask: Option<&Tensor>,
        Ghost(config): Ghost<SiglipTextConfig>,
    ) -> (r: Result<Tensor, ModelError>)
        requires
            self.well_formed(tensor_dtype(xs), config),
            config.hidden_size > 0,
            applicable(xs, attention_mask, config),
        ensures
            r is Ok <==> config.num_hidden_layers == 0 || takes(
                tensor_dims(xs),
                attention_mask,
                config,
            ),
            r matches Ok(ys) ==> {
                &&& plain(ys, tensor_dtype(xs))
                &&& tensor_dims(ys) == tensor_dims(xs)
                &&& self.weights().maps(contents(xs), mask_contents(attention_mask), contents(ys))
            },
            r matches Err(e) ==> e is Tensor,
    {
        let ghost mask = mask_contents(attention_mask);
        let ghost dtype = tensor_dtype(xs);
        let ghost dims = tensor_dims(xs);
        let ghost first = contents(xs);
        let ghost mut states = seq![first];
        let mut current = xs;
        let mut i: usize = 0;
        while i < self.layers.len()
            invariant
                self.well_formed(dtype, config),
                i <= self.layers@.len(),
                mask == mask_contents(attention_mask),
                dims == tensor_dims(xs),
                tensor_dims(current) == dims,
                tensor_dtype(current) == dtype,
                config.hidden_size > 0,
                applicable(current, attention_mask, config),
                i > 0 ==> takes(dims, attention_mask, config),
                states.len() == i + 1,
                states[0] == first,
                states[i as int] == contents(current),
                forall|k: int|
                    0 <= k < i ==> (#[trigger] self.layers@[k]).weights().maps(
                        states[k],
                        mask,
                        states[k + 1],
                    ),
            decreases self.layers@.len() - i,
        {
            current = self.layers[i].forward(&current, attention_mask, Ghost(config))?;
            proof {
                states = states.push(contents(current));
            }
            i = i + 1;
        }
        assert(self.weights().steps(mask, states)) by {
            assert forall|k: int| 0 <= k < self.weights().layers.len() implies (
            #[trigger] self.weights().layers[k]).maps(states[k], mask, states[k + 1]) by {
                assert(self.weights().layers[k] == self.layers@[k].weights());
            }
        }
        Ok(current)
    }
}

} // verus!
