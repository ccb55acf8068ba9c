//! Which stored array each weight of a model is, by its full name.
use vstd::prelude::*;

use crate::array::{extent, sizes, volume, Array, ElemType, Precision};
use crate::attention::law_scale_is_inverse_sqrt_of_head_width;
use crate::batch::ModelType;
use crate::config::SiglipTextConfig;
use crate::encoder::{heads_needed, EncoderWeights, LayerWeights};
use crate::error::ModelError;
use crate::layers::{LinearWeights, NormWeights};
use crate::model::SiglipTextModel;
use crate::outcome::{converted, double_of, powers, same_number};
use crate::weights::{arrays_of, by_name, decimal, full_name, has_new_name, names_of};
use crate::weights::{is_sound, NamedTensor, Store};

verus! {

/// Whether an array of this full name and these dimensions is stored.
pub open spec fn has_array(store: Store, name: Seq<char>, dims: Seq<nat>) -> bool {
    store.arrays.contains_key(name) && store.arrays[name].dims == dims
}

/// Whether `a` is the array that is stored under this full name, under these dimensions:
/// in single precision as it is, in half precision with each number rounded.
pub open spec fn is_array(store: Store, name: Seq<char>, dims: Seq<nat>, a: Array) -> bool {
    let there = store.arrays[name];
    &&& has_array(store, name, dims)
    &&& a.dims == dims
    &&& a.elems.len() == volume(dims)
    &&& match store.precision {
        Precision::F32 => a.dtype == ElemType::F32 && a == there,
        Precision::F16 => {
            &&& a.dtype == ElemType::F16
            &&& forall|k: int|
                0 <= k < a.elems.len() ==> same_number(
                    ElemType::F16,
                    #[trigger] a.elems[k],
                    converted(there.dtype, there.elems[k], ElemType::F16),
                )
        },
    }
}

/// Whether a linear layer of `inputs` to `outputs` is stored under this name.
pub open spec fn has_linear(store: Store, name: Seq<char>, outputs: nat, inputs: nat) -> bool {
    &&& has_array(store, name + ".weight"@, seq![outputs, inputs])
    &&& has_array(store, name + ".bias"@, seq![outputs])
}

/// Whether these are the weights of the linear layer that is stored under this name.
pub open spec fn is_linear_at(
    store: Store,
    name: Seq<char>,
    outputs: nat,
    inputs: nat,
    weights: LinearWeights,
) -> bool {
    &&& is_array(store, name + ".weight"@, seq![outputs, inputs], weights.weight)
    &&& is_array(store, name + ".bias"@, seq![outputs], weights.bias)
}

/// Whether a layer normalisation of this width is stored under this name.
pub open spec fn has_norm(store: Store, name: Seq<char>, width: nat) -> bool {
    &&& has_array(store, name + ".weight"@, seq![width])
    &&& has_array(store, name + ".bias"@, seq![width])
}

/// Whether these are the weights of the layer normalisation that is stored under this
/// name, and this is its epsilon.
pub open spec fn is_norm_at(
    store: Store,
    name: Seq<char>,
    width: nat,
    eps: u64,
    weights: NormWeights,
) -> bool {
    &&& is_array(store, name + ".weight"@, seq![width], weights.weight)
    &&& is_array(store, name + ".bias"@, seq![width], weights.bias)
    &&& weights.eps == eps
}

/// Whether layer `i` of an encoder of this configuration is stored.
pub open spec fn has_layer(store: Store, config: SiglipTextConfig, i: int) -> bool {
    let layer = "encoder.layers."@ + decimal(i as nat);
    let (hidden, wide) = (config.hidden_size as nat, config.intermediate_size as nat);
    &&& has_linear(store, layer + ".self_attn.q_proj"@, hidden, hidden)
    &&& has_linear(store, layer + ".self_attn.k_proj"@, hidden, hidden)
    &&& has_linear(store, layer + ".self_attn.v_proj"@, hidden, hidden)
    &&& has_linear(store, layer + ".self_attn.out_proj"@, hidden, hidden)
    &&& has_norm(store, layer + ".layer_norm1"@, hidden)
    &&& has_linear(store, layer + ".mlp.fc1"@, wide, hidden)
    &&& has_linear(store, layer + ".mlp.fc2"@, hidden, wide)
    &&& has_norm(store, layer + ".layer_norm2"@, hidden)
}

/// Whether `place` is the place in a store under this name: what is called `n` there has
/// the name, a dot and `n` as its full name.
spec fn stands_at(place: Store, store: Store, name: Seq<char>) -> bool {
    &&& place.arrays == store.arrays
    &&& place.precision == store.precision
    &&& forall|n: Seq<char>| #[trigger] full_name(place.path, n) == name + seq!['.'] + n
}

/// A part at the end of a path can as well stand before the name.
proof fn lemma_part_of_name(path: Seq<Seq<char>>, part: Seq<char>, name: Seq<char>)
    ensures
        full_name(path.push(part), name) == full_name(path, part + seq!['.'] + name),
    decreases path.len(),
{
    if path.len() == 0 {
        assert(path.push(part).drop_first() =~= Seq::<Seq<char>>::empty());
        reveal_with_fuel(full_name, 2);
    } else {
        assert(path.push(part).drop_first() =~= path.drop_first().push(part));
        lemma_part_of_name(path.drop_first(), part, name);
    }
}

/// One step into a store from its root.
proof fn lemma_first_step(store: Store, part: Seq<char>)
    requires
        store.path.len() == 0,
    ensures
        stands_at(store.at(part), store, part),
{
    assert forall|n: Seq<char>| #[trigger] full_name(store.at(part).path, n) == part + seq!['.']
        + n by {
        lemma_part_of_name(store.path, part, n);
    }
}

/// One step further into a store.
proof fn lemma_next_step(
    place: Store,
    store: Store,
    name: Seq<char>,
    part: Seq<char>,
    longer: Seq<char>,
)
    requires
        stands_at(place, store, name),
        longer == name + seq!['.'] + part,
    ensures
        stands_at(place.at(part), store, longer),
{
    assert forall|n: Seq<char>| #[trigger] full_name(place.at(part).path, n) == longer + seq!['.']
        + n by {
        lemma_part_of_name(place.path, part, n);
        assert(name + seq!['.'] + (part + seq!['.'] + n) =~= longer + seq!['.'] + n);
    }
}

/// What a store has and gives at a place.
proof fn lemma_weight_at(
    place: Store,
    store: Store,
    name: Seq<char>,
    n: Seq<char>,
    full: Seq<char>,
    dims: Seq<nat>,
)
    requires
        stands_at(place, store, name),
        full == name + seq!['.'] + n,
    ensures
        place.has(n, dims) == has_array(store, full, dims),
        forall|a: Array| #[trigger] place.gives(n, dims, a) ==> is_array(store, full, dims, a),
{
    assert(full_name(place.path, n) == full);
}

/// What a store has and gives of a linear layer at a place.
proof fn lemma_linear_at(place: Store, store: Store, name: Seq<char>, outputs: nat, inputs: nat)
    requires
        stands_at(place, store, name),
    ensures
        LinearWeights::stored_in(place, outputs, inputs) == has_linear(
            store,
            name,
            outputs,
            inputs,
        ),
        forall|w: LinearWeights| #[trigger]
            w.loaded_from(place, outputs, inputs) ==> is_linear_at(
                store,
                name,
                outputs,
                inputs,
                w,
            ),
{
    reveal_strlit("weight");
    reveal_strlit("bias");
    reveal_strlit(".weight");
    reveal_strlit(".bias");
    assert(name + ".weight"@ =~= name + seq!['.'] + "weight"@);
    assert(name + ".bias"@ =~= name + seq!['.'] + "bias"@);
    lemma_weight_at(place, store, name, "weight"@, name + ".weight"@, seq![outputs, inputs]);
    lemma_weight_at(place, store, name, "bias"@, name + ".bias"@, seq![outputs]);
}

/// What a store has and gives of a layer normalisation at a place.
proof fn lemma_norm_at(place: Store, store: Store, name: Seq<char>, width: nat, eps: u64)
    requires
        stands_at(place, store, name),
    ensures
        NormWeights::stored_in(place, width) == has_norm(store, name, width),
        forall|w: NormWeights| #[trigger]
            w.loaded_from(place, width, eps) ==> is_norm_at(store, name, width, eps, w),
{
    reveal_strlit("weight");
    reveal_strlit("bias");
    reveal_strlit(".weight");
    reveal_strlit(".bias");
    assert(name + ".weight"@ =~= name + seq!['.'] + "weight"@);
    assert(name + ".bias"@ =~= name + seq!['.'] + "bias"@);
    lemma_weight_at(place, store, name, "weight"@, name + ".weight"@, seq![width]);
    lemma_weight_at(place, store, name, "bias"@, name + ".bias"@, seq![width]);
}

/// The place of layer `i` of the encoder of a model.
proof fn lemma_layer_place(store: Store, i: int) -> (place: Store)
    requires
        store.path.len() == 0,
        0 <= i,
    ensures
        place == EncoderWeights::layer_store(store.at("encoder"@), i),
        stands_at(place, store, "encoder.layers."@ + decimal(i as nat)),
{
    let encoder = store.at("encoder"@);
    let layers = encoder.at("layers"@);
    reveal_strlit("encoder");
    reveal_strlit("layers");
    reveal_strlit("encoder.layers");
    reveal_strlit("encoder.layers.");
    lemma_first_step(store, "encoder"@);
    assert("encoder.layers"@ =~= "encoder"@ + seq!['.'] + "layers"@);
    lemma_next_step(encoder, store, "encoder"@, "layers"@, "encoder.layers"@);
    let digits = decimal(i as nat);
    assert("encoder.layers."@ + digits =~= "encoder.layers"@ + seq!['.'] + digits);
    lemma_next_step(layers, store, "encoder.layers"@, digits, "encoder.layers."@ + digits);
    layers.at(digits)
}

/// A place two steps behind another.
proof fn lemma_two_steps(
    place: Store,
    store: Store,
    name: Seq<char>,
    part1: Seq<char>,
    part2: Seq<char>,
    parts: Seq<char>,
)
    requires
        stands_at(place, store, name),
        parts == seq!['.'] + part1 + seq!['.'] + part2,
    ensures
        stands_at(place.at(part1).at(part2), store, name + parts),
{
    let longer = name + seq!['.'] + part1;
    lemma_next_step(place, store, name, part1, longer);
    assert(name + parts =~= longer + seq!['.'] + part2);
    lemma_next_step(place.at(part1), store, longer, part2, name + parts);
}

/// The places of the blocks of a layer.
proof fn lemma_block_places(place: Store, store: Store, name: Seq<char>)
    requires
        stands_at(place, store, name),
    ensures
        stands_at(place.at("self_attn"@).at("q_proj"@), store, name + ".self_attn.q_proj"@),
        stands_at(place.at("self_attn"@).at("k_proj"@), store, name + ".self_attn.k_proj"@),
        stands_at(place.at("self_attn"@).at("v_proj"@), store, name + ".self_attn.v_proj"@),
        stands_at(place.at("self_attn"@).at("out_proj"@), store, name + ".self_attn.out_proj"@),
        stands_at(place.at("layer_norm1"@), store, name + ".layer_norm1"@),
        stands_at(place.at("mlp"@).at("fc1"@), store, name + ".mlp.fc1"@),
        stands_at(place.at("mlp"@).at("fc2"@), store, name + ".mlp.fc2"@),
        stands_at(place.at("layer_norm2"@), store, name + ".layer_norm2"@),
{
    reveal_strlit("self_attn");
    reveal_strlit("mlp");
    assert(".self_attn.q_proj"@ =~= seq!['.'] + "self_attn"@ + seq!['.'] + "q_proj"@) by {
        reveal_strlit("q_proj");
        reveal_strlit(".self_attn.q_proj");
    }
    assert(".self_attn.k_proj"@ =~= seq!['.'] + "self_attn"@ + seq!['.'] + "k_proj"@) by {
        reveal_strlit("k_proj");
        reveal_strlit(".self_attn.k_proj");
    }
    assert(".self_attn.v_proj"@ =~= seq!['.'] + "self_attn"@ + seq!['.'] + "v_proj"@) by {
        reveal_strlit("v_proj");
        reveal_strlit(".self_attn.v_proj");
    }
    assert(".self_attn.out_proj"@ =~= seq!['.'] + "self_attn"@ + seq!['.'] + "out_proj"@) by {
        reveal_strlit("out_proj");
        reveal_strlit(".self_attn.out_proj");
    }
    assert(".mlp.fc1"@ =~= seq!['.'] + "mlp"@ + seq!['.'] + "fc1"@) by {
        reveal_strlit("fc1");
        reveal_strlit(".mlp.fc1");
    }
    assert(".mlp.fc2"@ =~= seq!['.'] + "mlp"@ + seq!['.'] + "fc2"@) by {
        reveal_strlit("fc2");
        reveal_strlit(".mlp.fc2");
    }
    assert(name + ".layer_norm1"@ =~= name + seq!['.'] + "layer_norm1"@) by {
        reveal_strlit("layer_norm1");
        reveal_strlit(".layer_norm1");
    }
    assert(name + ".layer_norm2"@ =~= name + seq!['.'] + "layer_norm2"@) by {
        reveal_strlit("layer_norm2");
        reveal_strlit(".layer_norm2");
    }
    lemma_two_steps(place, store, name, "self_attn"@, "q_proj"@, ".self_attn.q_proj"@);
    lemma_two_steps(place, store, name, "self_attn"@, "k_proj"@, ".self_attn.k_proj"@);
    lemma_two_steps(place, store, name, "self_attn"@, "v_proj"@, ".self_attn.v_proj"@);
    lemma_two_steps(place, store, name, "self_attn"@, "out_proj"@, ".self_attn.out_proj"@);
    lemma_next_step(place, store, name, "layer_norm1"@, name + ".layer_norm1"@);
    lemma_two_steps(place, store, name, "mlp"@, "fc1"@, ".mlp.fc1"@);
    lemma_two_steps(place, store, name, "mlp"@, "fc2"@, ".mlp.fc2"@);
    lemma_next_step(place, store, name, "layer_norm2"@, name + ".layer_norm2"@);
}

/// What a store has and gives of a layer.
proof fn lemma_layer_at(place: Store, store: Store, name: Seq<char>, config: SiglipTextConfig)
    requires
        stands_at(place, store, name),
    ensures
        LayerWeights::stored_in(place, config) <==> {
            let (hidden, wide) = (config.hidden_size as nat, config.intermediate_size as nat);
            &&& has_linear(store, name + ".self_attn.q_proj"@, hidden, hidden)
            &&& has_linear(store, name + ".self_attn.k_proj"@, hidden, hidden)
            &&& has_linear(store, name + ".self_attn.v_proj"@, hidden, hidden)
            &&& has_linear(store, name + ".self_attn.out_proj"@, hidden, hidden)
            &&& has_norm(store, name + ".layer_norm1"@, hidden)
            &&& has_linear(store, name + ".mlp.fc1"@, wide, hidden)
            &&& has_linear(store, name + ".mlp.fc2"@, hidden, wide)
            &&& has_norm(store, name + ".layer_norm2"@, hidden)
        },
        forall|w: LayerWeights| #[trigger]
            w.loaded_from(place, config) ==> {
                let (hidden, wide) = (config.hidden_size as nat, config.intermediate_size as nat);
                let eps = config.layer_norm_eps;
                let attention = w.attention;
                &&& is_linear_at(
                    store,
                    name + ".self_attn.q_proj"@,
                    hidden,
                    hidden,
                    attention.query,
                )
                &&& is_linear_at(store, name + ".self_attn.k_proj"@, hidden, hidden, attention.key)
                &&& is_linear_at(
                    store,
                    name + ".self_attn.v_proj"@,
                    hidden,
                    hidden,
                    attention.value,
                )
                &&& is_linear_at(
                    store,
                    name + ".self_attn.out_proj"@,
                    hidden,
                    hidden,
                    attention.out,
                )
                &&& is_norm_at(store, name + ".layer_norm1"@, hidden, eps, w.norm1)
                &&& is_linear_at(store, name + ".mlp.fc1"@, wide, hidden, w.mlp.fc1)
                &&& is_linear_at(store, name + ".mlp.fc2"@, hidden, wide, w.mlp.fc2)
                &&& is_norm_at(store, name + ".layer_norm2"@, hidden, eps, w.norm2)
            },
{
    let (hidden, wide) = (config.hidden_size as nat, config.intermediate_size as nat);
    let eps = config.layer_norm_eps;
    let (attention, mlp) = (place.at("self_attn"@), place.at("mlp"@));
    lemma_block_places(place, store, name);
    let (query, key) = (attention.at("q_proj"@), attention.at("k_proj"@));
    let (value, out) = (attention.at("v_proj"@), attention.at("out_proj"@));
    lemma_linear_at(query, store, name + ".self_attn.q_proj"@, hidden, hidden);
    lemma_linear_at(key, store, name + ".self_attn.k_proj"@, hidden, hidden);
    lemma_linear_at(value, store, name + ".self_attn.v_proj"@, hidden, hidden);
    lemma_linear_at(out, store, name + ".self_attn.out_proj"@, hidden, hidden);
    lemma_norm_at(place.at("layer_norm1"@), store, name + ".layer_norm1"@, hidden, eps);
    lemma_linear_at(mlp.at("fc1"@), store, name + ".mlp.fc1"@, wide, hidden);
    lemma_linear_at(mlp.at("fc2"@), store, name + ".mlp.fc2"@, hidden, wide);
    lemma_norm_at(place.at("layer_norm2"@), store, name + ".layer_norm2"@, hidden, eps);
}

/// Every weight of layer `i` of a loaded model is the array that is stored under its own
/// name, in which the number of the layer stands in decimal digits.
pub proof fn law_layer_weights_by_name(
    store: Store,
    config: SiglipTextConfig,
    model_type: ModelType,
    model: SiglipTextModel,
    i: int,
)
    requires
        SiglipTextModel::loads(store, config, model_type, Ok(model)),
        store.path.len() == 0,
        0 <= i < config.num_hidden_layers,
    ensures
        model.weights().encoder.layers.len() == config.num_hidden_layers,
        ({
            let name = "encoder.layers."@ + decimal(i as nat);
            let layer = model.weights().encoder.layers[i];
            let (hidden, wide) = (config.hidden_size as nat, config.intermediate_size as nat);
            let eps = config.layer_norm_eps;
            &&& is_linear_at(
                store,
                name + ".self_attn.q_proj"@,
                hidden,
                hidden,
                layer.attention.query,
            )
            &&& is_linear_at(
                store,
                name + ".self_attn.k_proj"@,
                hidden,
                hidden,
                layer.attention.key,
            )
            &&& is_linear_at(
                store,
                name + ".self_attn.v_proj"@,
                hidden,
                hidden,
                layer.attention.value,
            )
            &&& is_linear_at(
                store,
                name + ".self_attn.out_proj"@,
                hidden,
                hidden,
                layer.attention.out,
            )
            &&& is_norm_at(store, name + ".layer_norm1"@, hidden, eps, layer.norm1)
            &&& is_linear_at(store, name + ".mlp.fc1"@, wide, hidden, layer.mlp.fc1)
            &&& is_linear_at(store, name + ".mlp.fc2"@, hidden, wide, layer.mlp.fc2)
            &&& is_norm_at(store, name + ".layer_norm2"@, hidden, eps, layer.norm2)
        }),
{
    let place = lemma_layer_place(store, i);
    lemma_layer_at(place, store, "encoder.layers."@ + decimal(i as nat), config);
    assert(model.weights().encoder.layers[i].loaded_from(place, config));
}

/// In every layer of a loaded model there are as many heads as the configuration says,
/// each has an equal share in the hidden size, and the factor on the products of queries
/// and keys is an outcome of raising that share to the power of minus one half.
pub proof fn law_heads_of_layers(
    store: Store,
    config: SiglipTextConfig,
    model_type: ModelType,
    model: SiglipTextModel,
    i: int,
)
    requires
        SiglipTextModel::loads(store, config, model_type, Ok(model)),
        0 <= i < config.num_hidden_layers,
    ensures
        ({
            let attention = model.weights().encoder.layers[i].attention;
            let d = config.hidden_size as nat / config.num_attention_heads as nat;
            &&& attention.heads == config.num_attention_heads
            &&& attention.head_dim == d
            &&& attention.scale.dtype == ElemType::F64
            &&& attention.scale.dims == Seq::<nat>::empty()
            &&& attention.scale.elems.len() == 1
            &&& powers(
                ElemType::F64,
                double_of(d),
                0xbfe0_0000_0000_0000,
                attention.scale.elems[0],
            )
        }),
{
    let layer = model.weights().encoder.layers[i];
    let place = EncoderWeights::layer_store(store.at("encoder"@), i);
    assert(layer.loaded_from(place, config));
    law_scale_is_inverse_sqrt_of_head_width(
        layer.attention,
        place.at("self_attn"@),
        config.hidden_size as nat,
        config.num_attention_heads as nat,
    );
}

/// The tables of the embeddings, the final norm and the head of a loaded model are the
/// arrays that are stored under their own names.  The model computes in the store's
/// precision.
pub proof fn law_outer_weights_by_name(
    store: Store,
    config: SiglipTextConfig,
    model_type: ModelType,
    model: SiglipTextModel,
)
    requires
        SiglipTextModel::loads(store, config, model_type, Ok(model)),
        store.path.len() == 0,
    ensures
        model.config() == config,
        model.precision() == store.precision,
        model.weights().encoder.layers.len() == config.num_hidden_layers,
        ({
            let weights = model.weights();
            let hidden = config.hidden_size as nat;
            &&& is_array(
                store,
                "embeddings.token_embedding.weight"@,
                seq![config.vocab_size as nat, hidden],
                weights.embeddings.token,
            )
            &&& is_array(
                store,
                "embeddings.position_embedding.weight"@,
                seq![config.max_position_embeddings as nat, hidden],
                weights.embeddings.position,
            )
            &&& is_norm_at(
                store,
                "final_layer_norm"@,
                hidden,
                config.layer_norm_eps,
                weights.final_layer_norm,
            )
            &&& is_linear_at(store, "head"@, hidden, hidden, weights.head)
        }),
{
    lemma_tables_at(
        store,
        seq![config.vocab_size as nat, config.hidden_size as nat],
        seq![config.max_position_embeddings as nat, config.hidden_size as nat],
    );
    lemma_outer_places(store, config);
}

/// What a store has and gives of a table of the embeddings.
proof fn lemma_table_at(store: Store, part: Seq<char>, full: Seq<char>, dims: Seq<nat>)
    requires
        store.path.len() == 0,
        full == "embeddings"@ + seq!['.'] + part + seq!['.'] + "weight"@,
    ensures
        ({
            let place = store.at("embeddings"@).at(part);
            &&& place.has("weight"@, dims) == has_array(store, full, dims)
            &&& forall|a: Array| #[trigger]
                place.gives("weight"@, dims, a) ==> is_array(store, full, dims, a)
        }),
{
    let name = "embeddings"@ + seq!['.'] + part;
    let tables = store.at("embeddings"@);
    lemma_first_step(store, "embeddings"@);
    lemma_next_step(tables, store, "embeddings"@, part, name);
    lemma_weight_at(tables.at(part), store, name, "weight"@, full, dims);
}

/// What a store has and gives of the tables of the embeddings.
proof fn lemma_tables_at(store: Store, token_dims: Seq<nat>, position_dims: Seq<nat>)
    requires
        store.path.len() == 0,
    ensures
        ({
            let token = store.at("embeddings"@).at("token_embedding"@);
            let position = store.at("embeddings"@).at("position_embedding"@);
            let token_name = "embeddings.token_embedding.weight"@;
            let position_name = "embeddings.position_embedding.weight"@;
            &&& token.has("weight"@, token_dims) == has_array(store, token_name, token_dims)
            &&& forall|a: Array| #[trigger]
                token.gives("weight"@, token_dims, a) ==> is_array(
                    store,
                    token_name,
                    token_dims,
                    a,
                )
            &&& position.has("weight"@, position_dims) == has_array(
                store,
                position_name,
                position_dims,
            )
            &&& forall|a: Array| #[trigger]
                position.gives("weight"@, position_dims, a) ==> is_array(
                    store,
                    position_name,
                    position_dims,
                    a,
                )
        }),
{
    let (token, position) = ("token_embedding"@, "position_embedding"@);
    reveal_strlit("embeddings");
    reveal_strlit("weight");
    assert("embeddings.token_embedding.weight"@ =~= "embeddings"@ + seq!['.'] + token + seq!['.']
        + "weight"@) by {
        reveal_strlit("token_embedding");
        reveal_strlit("embeddings.token_embedding.weight");
    }
    assert("embeddings.position_embedding.weight"@ =~= "embeddings"@ + seq!['.'] + position
        + seq!['.'] + "weight"@) by {
        reveal_strlit("position_embedding");
        reveal_strlit("embeddings.position_embedding.weight");
    }
    lemma_table_at(store, token, "embeddings.token_embedding.weight"@, token_dims);
    lemma_table_at(store, position, "embeddings.position_embedding.weight"@, position_dims);
}

/// What a store has and gives outside the encoder.
proof fn lemma_outer_places(store: Store, config: SiglipTextConfig)
    requires
        store.path.len() == 0,
    ensures
        ({
            let hidden = config.hidden_size as nat;
            let eps = config.layer_norm_eps;
            &&& NormWeights::stored_in(store.at("final_layer_norm"@), hidden) == has_norm(
                store,
                "final_layer_norm"@,
                hidden,
            )
            &&& forall|w: NormWeights| #[trigger]
                w.loaded_from(store.at("final_layer_norm"@), hidden, eps) ==> is_norm_at(
                    store,
                    "final_layer_norm"@,
                    hidden,
                    eps,
                    w,
                )
            &&& LinearWeights::stored_in(store.at("head"@), hidden, hidden) == has_linear(
                store,
                "head"@,
                hidden,
                hidden,
            )
            &&& forall|w: LinearWeights| #[trigger]
                w.loaded_from(store.at("head"@), hidden, hidden) ==> is_linear_at(
                    store,
                    "head"@,
                    hidden,
                    hidden,
                    w,
                )
        }),
{
    let hidden = config.hidden_size as nat;
    lemma_first_step(store, "final_layer_norm"@);
    lemma_first_step(store, "head"@);
    lemma_norm_at(
        store.at("final_layer_norm"@),
        store,
        "final_layer_norm"@,
        hidden,
        config.layer_norm_eps,
    );
    lemma_linear_at(store.at("head"@), store, "head"@, hidden, hidden);
}

/// A model is loaded exactly where embeddings are asked for and every weight of its
/// configuration is stored under its own name, with its own dimensions.
pub proof fn law_loads_what_is_stored_by_name(
    store: Store,
    config: SiglipTextConfig,
    model_type: ModelType,
    r: Result<SiglipTextModel, ModelError>,
)
    requires
        SiglipTextModel::loads(store, config, model_type, r),
        store.path.len() == 0,
    ensures
        r is Ok <==> {
            let hidden = config.hidden_size as nat;
            &&& model_type is Embedding
            &&& has_array(
                store,
                "embeddings.token_embedding.weight"@,
                seq![config.vocab_size as nat, hidden],
            )
            &&& has_array(
                store,
                "embeddings.position_embedding.weight"@,
                seq![config.max_position_embeddings as nat, hidden],
            )
            &&& forall|i: int|
                0 <= i < config.num_hidden_layers ==> #[trigger] has_layer(store, config, i)
            &&& has_norm(store, "final_layer_norm"@, hidden)
            &&& has_linear(store, "head"@, hidden, hidden)
        },
        r matches Err(e) ==> if model_type is Classifier {
            e is UnsupportedModelType
        } else {
            e is Tensor
        },
{
    lemma_tables_at(
        store,
        seq![config.vocab_size as nat, config.hidden_size as nat],
        seq![config.max_position_embeddings as nat, config.hidden_size as nat],
    );
    lemma_outer_places(store, config);
    assert(EncoderWeights::stored_in(store.at("encoder"@), config) <==> forall|i: int|
        0 <= i < config.num_hidden_layers ==> #[trigger] has_layer(store, config, i)) by {
        assert forall|i: int| 0 <= i < config.num_hidden_layers implies has_layer(
            store,
            config,
            i,
        ) == LayerWeights::stored_in(
            #[trigger] EncoderWeights::layer_store(store.at("encoder"@), i),
            config,
        ) by {
            let place = lemma_layer_place(store, i);
            lemma_layer_at(place, store, "encoder.layers."@ + decimal(i as nat), config);
        }
        if EncoderWeights::stored_in(store.at("encoder"@), config) {
            assert forall|i: int| 0 <= i < config.num_hidden_layers implies #[trigger] has_layer(
                store,
                config,
                i,
            ) by {
                assert(LayerWeights::stored_in(
                    EncoderWeights::layer_store(store.at("encoder"@), i),
                    config,
                ));
            }
        }
    }
}

/// Loading an encoder divides its width among heads exactly where there is a first layer
/// and its four projections are stored under their names.
pub proof fn law_when_heads_are_needed(store: Store, config: SiglipTextConfig)
    requires
        store.path.len() == 0,
    ensures
        heads_needed(store.at("encoder"@), config) <==> {
            let hidden = config.hidden_size as nat;
            let layer = "encoder.layers."@ + decimal(0);
            &&& config.num_hidden_layers > 0
            &&& has_linear(store, layer + ".self_attn.q_proj"@, hidden, hidden)
            &&& has_linear(store, layer + ".self_attn.k_proj"@, hidden, hidden)
            &&& has_linear(store, layer + ".self_attn.v_proj"@, hidden, hidden)
            &&& has_linear(store, layer + ".self_attn.out_proj"@, hidden, hidden)
        },
{
    let hidden = config.hidden_size as nat;
    let name = "encoder.layers."@ + decimal(0);
    let place = lemma_layer_place(store, 0);
    let attention = place.at("self_attn"@);
    lemma_block_places(place, store, name);
    let (query, key) = (attention.at("q_proj"@), attention.at("k_proj"@));
    let (value, out) = (attention.at("v_proj"@), attention.at("out_proj"@));
    lemma_linear_at(query, store, name + ".self_attn.q_proj"@, hidden, hidden);
    lemma_linear_at(key, store, name + ".self_attn.k_proj"@, hidden, hidden);
    lemma_linear_at(value, store, name + ".self_attn.v_proj"@, hidden, hidden);
    lemma_linear_at(out, store, name + ".self_attn.out_proj"@, hidden, hidden);
}

/// The number that digits in base ten stand for.
pub open spec fn value_of(digits: Seq<char>) -> int
    decreases digits.len(),
{
    if digits.len() == 0 {
        0
    } else {
        value_of(digits.drop_last()) * 10 + (digits.last() as int - '0' as int)
    }
}

/// The digits of a number are digits, and stand for it.
pub proof fn law_decimal_stands_for_its_number(n: nat)
    ensures
        decimal(n).len() > 0,
        forall|k: int| 0 <= k < decimal(n).len() ==> '0' <= #[trigger] decimal(n)[k] <= '9',
        value_of(decimal(n)) == n,
    decreases n,
{
    if n < 10 {
        assert(decimal(n).drop_last() =~= Seq::<char>::empty());
        assert(value_of(Seq::<char>::empty()) == 0);
    } else {
        law_decimal_stands_for_its_number(n / 10);
        assert(decimal(n).drop_last() =~= decimal(n / 10));
    }
}

/// No two layers have a name in common: the names of weights of different layers are
/// different, whatever follows the number of the layer and a dot.
pub proof fn law_layers_have_names_of_their_own(i: nat, rest1: Seq<char>, j: nat, rest2: Seq<char>)
    requires
        i != j,
        rest1.len() > 0,
        rest1[0] == '.',
        rest2.len() > 0,
        rest2[0] == '.',
    ensures
        "encoder.layers."@ + decimal(i) + rest1 != "encoder.layers."@ + decimal(j) + rest2,
{
    let (a, b) = (decimal(i), decimal(j));
    let prefix = "encoder.layers."@;
    let (name1, name2) = (prefix + a + rest1, prefix + b + rest2);
    law_decimal_stands_for_its_number(i);
    law_decimal_stands_for_its_number(j);
    if name1 == name2 {
        if a.len() < b.len() {
            assert(name1[prefix.len() + a.len() as int] == '.');
            assert(name2[prefix.len() + a.len() as int] == b[a.len() as int]);
        } else if b.len() < a.len() {
            assert(name2[prefix.len() + b.len() as int] == '.');
            assert(name1[prefix.len() + b.len() as int] == a[b.len() as int]);
        } else {
            assert forall|k: int| 0 <= k < a.len() implies a[k] == b[k] by {
                assert(name1[prefix.len() + k] == a[k]);
                assert(name2[prefix.len() + k] == b[k]);
            }
            assert(a =~= b);
        }
    }
}

/// A builder of named tensors holds, under the name of each, its dimensions and its bit
/// patterns, in single precision.
pub proof fn law_tensors_are_stored_by_name(tensors: Seq<NamedTensor>, i: int)
    requires
        forall|k: int| 0 <= k < tensors.len() ==> #[trigger] has_new_name(tensors, k),
        0 <= i < tensors.len(),
    ensures
        ({
            let arrays = by_name(names_of(tensors), arrays_of(tensors));
            let array = arrays[tensors[i].name@];
            &&& arrays.contains_key(tensors[i].name@)
            &&& array.dtype == ElemType::F32
            &&& array.dims.len() == tensors[i].dims@.len()
            &&& forall|d: int|
                0 <= d < array.dims.len() ==> #[trigger] array.dims[d] == tensors[i].dims@[d]
            &&& array.elems.len() == tensors[i].bits@.len()
            &&& forall|k: int|
                0 <= k < array.elems.len() ==> #[trigger] array.elems[k] == tensors[i].bits@[k]
        }),
    decreases tensors.len(),
{
    let rest = tensors.drop_last();
    assert(names_of(tensors).drop_last() =~= names_of(rest));
    assert(arrays_of(tensors).drop_last() =~= arrays_of(rest));
    if i < rest.len() {
        assert forall|k: int| 0 <= k < rest.len() implies #[trigger] has_new_name(rest, k) by {
            assert(has_new_name(tensors, k));
            assert forall|j: int| 0 <= j < k implies (#[trigger] rest[j]).name@
                != rest[k].name@ by {
                assert(tensors[j].name@ != tensors[k].name@);
            }
        }
        law_tensors_are_stored_by_name(rest, i);
        assert(has_new_name(tensors, tensors.len() - 1));
        assert(tensors[i].name@ != tensors.last().name@);
    }
}

/// A named tensor is taken exactly where it holds as many bit patterns as its dimensions
/// multiply to, which can be allocated, and no tensor before it has its name.
pub proof fn law_which_tensors_are_taken(tensors: Seq<NamedTensor>, i: int)
    requires
        0 <= i < tensors.len(),
    ensures
        is_sound(tensors, i) <==> {
            let dims = tensors[i].dims@.map_values(|d: usize| d as nat);
            &&& tensors[i].bits@.len() == volume(dims)
            &&& extent(dims) * 8 <= isize::MAX
            &&& forall|j: int| 0 <= j < i ==> (#[trigger] tensors[j]).name@ != tensors[i].name@
        },
{
    assert(sizes(tensors[i].dims@) =~= tensors[i].dims@.map_values(|d: usize| d as nat));
}

/// A builder of named tensors holds nothing under other names.
pub proof fn law_nothing_else_is_stored(tensors: Seq<NamedTensor>, name: Seq<char>)
    requires
        forall|k: int| 0 <= k < tensors.len() ==> (#[trigger] tensors[k]).name@ != name,
    ensures
        !by_name(names_of(tensors), arrays_of(tensors)).contains_key(name),
    decreases tensors.len(),
{
    if tensors.len() > 0 {
        let rest = tensors.drop_last();
        assert(names_of(tensors).drop_last() =~= names_of(rest));
        assert(arrays_of(tensors).drop_last() =~= arrays_of(rest));
        assert forall|k: int| 0 <= k < rest.len() implies (#[trigger] rest[k]).name@ != name by {
            assert(rest[k] == tensors[k]);
        }
        law_nothing_else_is_stored(rest, name);
        assert(tensors[tensors.len() - 1].name@ != name);
    }
}

} // verus!
