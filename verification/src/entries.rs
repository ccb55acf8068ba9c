//! What comes of each step of a model, entry by entry.
//!
//! Each law takes one step that led from something to something else, and says of every
//! number on the way which numbers it comes of.
use candle_core::Tensor;
use vstd::prelude::*;

use crate::array::{lemma_parts_within, lemma_source_same, lemma_within, Array, ElemType};
use crate::array::{at_least_one, lemma_extent_2, lemma_extent_3, lemma_extent_4};
use crate::array::{lemma_volume_1, lemma_volume_2, lemma_volume_3, lemma_volume_4};
use crate::attention::{AttentionTrace, AttentionWeights};
use crate::batch::{last_rows, law_padded_length, law_padded_row, law_place_of_token_rows};
use crate::batch::{pad_all, token_count, token_rows, Batch};
use crate::config::SiglipTextConfig;
use crate::embeddings::EmbeddingsWeights;
use crate::encoder::{EncoderWeights, LayerTrace, LayerWeights};
use crate::error::ModelError;
use crate::mlp::{is_activated, MlpWeights};
use crate::laws::{lemma_hidden_of_answer, lemma_read_row};
use crate::model::{integers, read_rows, ModelWeights, SiglipTextModel};
use crate::outcome::{affine_of, dots, gelus, normalises, projects, scales, shares};
use crate::outcome::{counted, is_added, is_dot, is_finite, is_finite_row, is_masked_row};
use crate::outcome::{is_minus_infinity, is_projected, is_zero, is_zero_row, relevant, same_number};
use crate::outcome::unsigned_zero;
use crate::tensor::{contents, tensor_dims, tensor_dtype};

verus! {

/// Pairs of `n` elements of `a`, from place `i` on, and of `b`, from place `j` on.
pub open spec fn side_by_side(a: Array, i: int, b: Array, j: int, n: nat) -> Seq<(int, int)> {
    Seq::new(n, |k: int| (a.elems[i + k], b.elems[j + k]))
}

/// Pairs of `n` elements of `a`, from place `i` on, and of column `c` of `b`, from row `j`
/// on, the rows of `b` being `width` long.
pub open spec fn down_a_column(
    a: Array,
    i: int,
    b: Array,
    j: int,
    c: int,
    width: nat,
    n: nat,
) -> Seq<(int, int)> {
    Seq::new(n, |k: int| (a.elems[i + k], b.elems[(j + k) * width + c]))
}

/// Attention, entry by entry.  Queries, keys and values are projections of the hidden
/// states.  In each head, the query of position `i` is matched with the key of position
/// `j`: the products of what they hold for this head are summed, and the sum is scaled.
/// The mask, if there is one, is added.  The softmax runs over the positions `j`.  Its
/// shares mix the values of all positions, head by head, and what the heads found is
/// projected.
pub proof fn law_attention_entry_by_entry(
    weights: AttentionWeights,
    x: Array,
    mask: Option<Array>,
    r: Array,
    batch: nat,
    len: nat,
    width: nat,
) -> (trace: AttentionTrace)
    requires
        x.dims == seq![batch, len, width],
        weights.is_sized(width),
        weights.maps(x, mask, r),
    ensures
        r.dtype == x.dtype,
        r.dims == seq![batch, len, width],
        r.elems.len() == batch * len * width,
        trace.query.dims == r.dims,
        trace.key.dims == r.dims,
        trace.value.dims == r.dims,
        trace.mixed.dims == r.dims,
        trace.products.dims == seq![batch, weights.heads, len, len],
        trace.scaled.dims == trace.products.dims,
        trace.masked.dims == trace.products.dims,
        trace.scores.dims == trace.products.dims,
        forall|p: int|
            0 <= p < batch * len ==> projects(
                x.dtype,
                x.row(p),
                weights.query.weight.elems,
                weights.query.bias.elems,
                #[trigger] trace.query.row(p),
            ),
        forall|p: int|
            0 <= p < batch * len ==> projects(
                x.dtype,
                x.row(p),
                weights.key.weight.elems,
                weights.key.bias.elems,
                #[trigger] trace.key.row(p),
            ),
        forall|p: int|
            0 <= p < batch * len ==> projects(
                x.dtype,
                x.row(p),
                weights.value.weight.elems,
                weights.value.bias.elems,
                #[trigger] trace.value.row(p),
            ),
        forall|b: int, h: int, i: int, j: int|
            #![trigger weights.per_head(trace.products, b, h, i, j)]
            0 <= b < batch && 0 <= h < weights.heads && 0 <= i < len && 0 <= j < len ==> {
                let pairs = relevant(
                    x.dtype,
                    side_by_side(
                        trace.query,
                        (b * len + i) * width + h * weights.head_dim,
                        trace.key,
                        (b * len + j) * width + h * weights.head_dim,
                        weights.head_dim,
                    ),
                );
                let z = trace.products.elems[((b * weights.heads + h) * len + i) * len + j];
                &&& z == weights.per_head(trace.products, b, h, i, j)
                &&& if pairs.len() == 0 {
                    is_zero(x.dtype, z)
                } else {
                    dots(x.dtype, pairs, unsigned_zero(x.dtype, z))
                }
            },
        forall|e: int|
            0 <= e < batch * weights.heads * len * len ==> {
                let scale = weights.scale.elems[0];
                let z = #[trigger] trace.scaled.elems[e];
                if x.dtype == ElemType::F32 {
                    same_number(
                        x.dtype,
                        z,
                        affine_of(x.dtype, trace.products.elems[e], scale, 0),
                    )
                } else {
                    scales(x.dtype, trace.products.elems[e], scale, 0, z)
                }
            },
        mask is None ==> trace.masked.elems == trace.scaled.elems,
        mask matches Some(m) ==> forall|e: int|
            0 <= e < batch * weights.heads * len * len ==> is_added(
                x.dtype,
                trace.scaled.elems[e],
                m.stretched(seq![batch, weights.heads, len, len]).elems[e],
                #[trigger] trace.masked.elems[e],
            ),
        forall|q: int, j: int|
            0 <= q < batch * weights.heads * len && 0 <= j < len ==> {
                let row = trace.masked.row(q);
                let z = #[trigger] trace.scores.row(q)[j];
                if is_minus_infinity(x.dtype, row[j]) && is_masked_row(x.dtype, row) {
                    z == 0
                } else {
                    shares(x.dtype, unsigned_zero(x.dtype, row[j]), counted(x.dtype, row), z)
                }
            },
        forall|b: int, h: int, i: int, c: int|
            #![trigger weights.lane(trace.mixed, b, h, i, c)]
            0 <= b < batch && 0 <= h < weights.heads && 0 <= i < len && 0 <= c
                < weights.head_dim ==> {
                let pairs = relevant(
                    x.dtype,
                    down_a_column(
                        trace.scores,
                        ((b * weights.heads + h) * len + i) * len,
                        trace.value,
                        b * len,
                        h * weights.head_dim + c,
                        width,
                        len,
                    ),
                );
                let z = trace.mixed.elems[(b * len + i) * width + (h * weights.head_dim + c)];
                &&& z == weights.lane(trace.mixed, b, h, i, c)
                &&& if pairs.len() == 0 {
                    is_zero(x.dtype, z)
                } else {
                    dots(x.dtype, pairs, unsigned_zero(x.dtype, z))
                }
            },
        forall|p: int|
            0 <= p < batch * len ==> projects(
                x.dtype,
                trace.mixed.row(p),
                weights.out.weight.elems,
                weights.out.bias.elems,
                #[trigger] r.row(p),
            ),
{
    let (heads, d) = (weights.heads, weights.head_dim);
    let dtype = x.dtype;
    let trace = choose|trace: AttentionTrace| weights.steps(x, mask, trace, r);
    let states = seq![batch, len, width];
    let square = seq![batch, heads, len, len];
    assert(states.drop_last() =~= seq![batch, len]);
    assert(seq![batch, len].push(width) =~= states);
    assert(square.drop_last() =~= seq![batch, heads, len]);
    lemma_volume_2(batch, len);
    lemma_volume_3(batch, len, width);
    lemma_volume_3(batch, heads, len);
    lemma_volume_4(batch, heads, len, len);
    assert forall|b: int, h: int, i: int, j: int|
        #![trigger weights.per_head(trace.products, b, h, i, j)]
        0 <= b < batch && 0 <= h < heads && 0 <= i < len && 0 <= j < len implies ({
        let pairs = relevant(
            dtype,
            side_by_side(
                trace.query,
                (b * len + i) * width + h * d,
                trace.key,
                (b * len + j) * width + h * d,
                d,
            ),
        );
        let z = trace.products.elems[((b * heads + h) * len + i) * len + j];
        &&& z == weights.per_head(trace.products, b, h, i, j)
        &&& if pairs.len() == 0 {
            is_zero(dtype, z)
        } else {
            dots(dtype, pairs, unsigned_zero(dtype, z))
        }
    }) by {
        let z = weights.per_head(trace.products, b, h, i, j);
        assert(trace.query.dtype == dtype);
        assert(is_dot(dtype, weights.match_pairs(trace.query, trace.key, b, h, i, j), z));
        assert(z == trace.products.elems[((b * heads + h) * len + i) * len + j]);
        assert(weights.match_pairs(trace.query, trace.key, b, h, i, j) =~= side_by_side(
            trace.query,
            (b * len + i) * width + h * d,
            trace.key,
            (b * len + j) * width + h * d,
            d,
        ));
    }
    if let Some(m) = mask {
        assert forall|e: int| 0 <= e < batch * heads * len * len implies is_added(
            dtype,
            trace.scaled.elems[e],
            m.stretched(square).elems[e],
            #[trigger] trace.masked.elems[e],
        ) by {
            lemma_source_same(square, e);
        }
    }
    assert forall|b: int, h: int, i: int, c: int|
        #![trigger weights.lane(trace.mixed, b, h, i, c)]
        0 <= b < batch && 0 <= h < heads && 0 <= i < len && 0 <= c < d implies ({
        let pairs = relevant(
            dtype,
            down_a_column(
                trace.scores,
                ((b * heads + h) * len + i) * len,
                trace.value,
                b * len,
                h * d + c,
                width,
                len,
            ),
        );
        let z = trace.mixed.elems[(b * len + i) * width + (h * d + c)];
        &&& z == weights.lane(trace.mixed, b, h, i, c)
        &&& if pairs.len() == 0 {
            is_zero(dtype, z)
        } else {
            dots(dtype, pairs, unsigned_zero(dtype, z))
        }
    }) by {
        let z = weights.lane(trace.mixed, b, h, i, c);
        assert(is_dot(dtype, weights.mix_pairs(trace.scores, trace.value, b, h, i, c), z));
        assert(z == trace.mixed.elems[(b * len + i) * width + (h * d + c)]);
        assert(weights.mix_pairs(trace.scores, trace.value, b, h, i, c) =~= down_a_column(
            trace.scores,
            ((b * heads + h) * len + i) * len,
            trace.value,
            b * len,
            h * d + c,
            width,
            len,
        ));
    }
    trace
}

/// A feed-forward block, entry by entry: each row is projected by the layer that widens,
/// each number of it goes through the activation function, and the row is projected by
/// the layer that narrows.
pub proof fn law_mlp_entry_by_entry(
    weights: MlpWeights,
    x: Array,
    r: Array,
    batch: nat,
    len: nat,
    width: nat,
    intermediate: nat,
) -> (steps: (Array, Array))
    requires
        x.dims == seq![batch, len, width],
        weights.is_sized(width, intermediate),
        weights.maps(x, r),
    ensures
        r.dtype == x.dtype,
        r.dims == seq![batch, len, width],
        r.elems.len() == batch * len * width,
        steps.0.dims == seq![batch, len, intermediate],
        steps.1.dims == seq![batch, len, intermediate],
        forall|p: int|
            0 <= p < batch * len ==> projects(
                x.dtype,
                x.row(p),
                weights.fc1.weight.elems,
                weights.fc1.bias.elems,
                #[trigger] steps.0.row(p),
            ),
        forall|e: int|
            0 <= e < batch * len * intermediate ==> gelus(
                x.dtype,
                steps.0.elems[e],
                #[trigger] steps.1.elems[e],
            ),
        forall|p: int|
            0 <= p < batch * len ==> projects(
                x.dtype,
                steps.1.row(p),
                weights.fc2.weight.elems,
                weights.fc2.bias.elems,
                #[trigger] r.row(p),
            ),
{
    let (wide, active) = choose|wide: Array, active: Array|
        {
            &&& #[trigger] weights.fc1.maps(x, wide)
            &&& is_activated(weights.activation, wide, active)
            &&& #[trigger] weights.fc2.maps(active, r)
        };
    assert(x.dims.drop_last() =~= seq![batch, len]);
    assert(seq![batch, len].push(width) =~= seq![batch, len, width]);
    assert(seq![batch, len].push(intermediate) =~= seq![batch, len, intermediate]);
    assert(seq![batch, len, intermediate].drop_last() =~= seq![batch, len]);
    lemma_volume_2(batch, len);
    lemma_volume_3(batch, len, width);
    lemma_volume_3(batch, len, intermediate);
    (wide, active)
}

/// An encoder layer, entry by entry: the attention block sees the hidden states
/// normalised by the first norm, and is added to them as they were; the feed-forward
/// block sees the sum normalised by the second norm, and is added to the sum.
pub proof fn law_layer_entry_by_entry(
    weights: LayerWeights,
    config: SiglipTextConfig,
    x: Array,
    mask: Option<Array>,
    r: Array,
    batch: nat,
    len: nat,
) -> (trace: LayerTrace)
    requires
        x.dims == seq![batch, len, config.hidden_size as nat],
        weights.is_sized(config),
        weights.maps(x, mask, r),
    ensures
        r.dtype == x.dtype,
        r.dims == seq![batch, len, config.hidden_size as nat],
        r.elems.len() == batch * len * config.hidden_size,
        trace.normed1.dims == r.dims,
        trace.attended.dims == r.dims,
        trace.middle.dims == r.dims,
        trace.normed2.dims == r.dims,
        trace.fed.dims == r.dims,
        forall|p: int|
            0 <= p < batch * len ==> normalises(
                x.dtype,
                x.row(p),
                weights.norm1.weight.elems,
                weights.norm1.bias.elems,
                weights.norm1.eps as int,
                #[trigger] trace.normed1.row(p),
            ),
        weights.attention.maps(trace.normed1, mask, trace.attended),
        forall|e: int|
            0 <= e < batch * len * config.hidden_size ==> is_added(
                x.dtype,
                x.elems[e],
                trace.attended.elems[e],
                #[trigger] trace.middle.elems[e],
            ),
        forall|p: int|
            0 <= p < batch * len ==> normalises(
                x.dtype,
                trace.middle.row(p),
                weights.norm2.weight.elems,
                weights.norm2.bias.elems,
                weights.norm2.eps as int,
                #[trigger] trace.normed2.row(p),
            ),
        weights.mlp.maps(trace.normed2, trace.fed),
        forall|e: int|
            0 <= e < batch * len * config.hidden_size ==> is_added(
                x.dtype,
                trace.fed.elems[e],
                trace.middle.elems[e],
                #[trigger] r.elems[e],
            ),
{
    let width = config.hidden_size as nat;
    let dims = seq![batch, len, width];
    let trace = choose|trace: LayerTrace| weights.steps(x, mask, trace, r);
    assert(dims.drop_last() =~= seq![batch, len]);
    lemma_volume_2(batch, len);
    lemma_volume_3(batch, len, width);
    law_attention_entry_by_entry(
        weights.attention,
        trace.normed1,
        mask,
        trace.attended,
        batch,
        len,
        width,
    );
    law_mlp_entry_by_entry(
        weights.mlp,
        trace.normed2,
        trace.fed,
        batch,
        len,
        width,
        config.intermediate_size as nat,
    );
    assert forall|e: int| 0 <= e < batch * len * width implies is_added(
        x.dtype,
        x.elems[e],
        trace.attended.elems[e],
        #[trigger] trace.middle.elems[e],
    ) by {
        lemma_source_same(dims, e);
    }
    assert forall|e: int| 0 <= e < batch * len * width implies is_added(
        x.dtype,
        trace.fed.elems[e],
        trace.middle.elems[e],
        #[trigger] r.elems[e],
    ) by {
        lemma_source_same(dims, e);
    }
    trace
}

/// An encoder applies all its layers, each once and in order, to what the one before it
/// left: the first to what the encoder is given.
pub proof fn law_encoder_layer_by_layer(
    weights: EncoderWeights,
    x: Array,
    mask: Option<Array>,
    r: Array,
) -> (states: Seq<Array>)
    requires
        weights.maps(x, mask, r),
    ensures
        states.len() == weights.layers.len() + 1,
        states[0] == x,
        states[weights.layers.len() as int] == r,
        forall|i: int|
            0 <= i < weights.layers.len() ==> (#[trigger] weights.layers[i]).maps(
                states[i],
                mask,
                states[i + 1],
            ),
{
    choose|states: Seq<Array>|
        {
            &&& #[trigger] weights.steps(mask, states)
            &&& states.first() == x
            &&& states.last() == r
        }
}

/// Final hidden states are the embeddings of the ids, run through the encoder without a
/// mask, and each row of what comes out normalised by the final norm.
pub proof fn law_hidden_states_step_by_step(
    weights: ModelWeights,
    ids: Seq<u32>,
    batch: nat,
    len: nat,
    hidden: Array,
) -> (steps: (Array, Array))
    requires
        weights.encodes(ids, batch, len, hidden),
    ensures
        weights.embeddings.maps(Seq::new(ids.len(), |k: int| ids[k] as int), batch, len, steps.0),
        weights.encoder.maps(steps.0, None, steps.1),
        hidden.dtype == steps.1.dtype,
        hidden.dims == steps.1.dims,
        forall|p: int|
            0 <= p < steps.1.height() ==> normalises(
                steps.1.dtype,
                steps.1.row(p),
                weights.final_layer_norm.weight.elems,
                weights.final_layer_norm.bias.elems,
                weights.final_layer_norm.eps as int,
                #[trigger] hidden.row(p),
            ),
{
    let numbers = ids.map_values(|id: u32| id as int);
    let (embedded, encoded) = choose|embedded: Array, encoded: Array|
        {
            &&& #[trigger] weights.embeddings.maps(numbers, batch, len, embedded)
            &&& weights.encoder.maps(embedded, None, encoded)
            &&& #[trigger] weights.final_layer_norm.maps(encoded, hidden)
        };
    assert(numbers =~= Seq::new(ids.len(), |k: int| ids[k] as int));
    (embedded, encoded)
}

/// What stands at each place of a padded batch: position `i` of text `b` holds token `i`
/// of the text, where it has one, and the padding token otherwise.
pub proof fn law_padded_token_by_token(batch: Batch, len: nat, pad_id: u32, b: int, i: int)
    requires
        batch.well_formed(),
        batch.within(len),
        0 <= b < batch.cumulative_seq_lengths@.len() - 1,
        0 <= i < len,
    ensures
        pad_all(batch.sequences(), len, pad_id).len() == (batch.cumulative_seq_lengths@.len() - 1)
            * len,
        ({
            let bounds = batch.cumulative_seq_lengths@;
            pad_all(batch.sequences(), len, pad_id)[b * len + i] == if i < bounds[b + 1]
                - bounds[b] {
                batch.input_ids@[bounds[b] + i]
            } else {
                pad_id
            }
        }),
{
    let bounds = batch.cumulative_seq_lengths@;
    let all = pad_all(batch.sequences(), len, pad_id);
    law_padded_length(batch.sequences(), len, pad_id);
    law_padded_row(batch.sequences(), len, pad_id, b);
    lemma_within(b, i, batch.size() as int, len as int);
    lemma_within(b, 0, batch.size() as int, len as int);
    assert(bounds[b] <= bounds[b + 1] <= bounds[bounds.len() - 1]);
    assert(batch.sequences()[b] == batch.input_ids@.subrange(
        bounds[b] as int,
        bounds[b + 1] as int,
    ));
    assert(all.subrange(b * len, b * len + len)[i] == all[b * len + i]);
}

/// An answer, row by row.  The ids are those of the texts, each padded to the number of
/// positions, one text after the other.  The pooled row of a text is its final hidden
/// state at the last position, projected by the head: by a head whose weights are zero, to
/// the bias.  The raw rows of a text are its final hidden states at the positions of its
/// tokens, in order, behind those of the texts asked for before it.
pub proof fn law_answer_row_by_row(
    model: SiglipTextModel,
    batch: Batch,
    pooled: Option<Tensor>,
    raw: Option<Tensor>,
) -> (found: (Seq<u32>, Array))
    requires
        model.answers(batch, Ok((pooled, raw))),
        batch.well_formed(),
        batch.cumulative_seq_lengths@.len() > 1,
        (batch.cumulative_seq_lengths@.len() - 1) * model.config().max_position_embeddings
            <= u32::MAX,
        model.config().max_position_embeddings > 0,
    ensures
        ({
            let (ids, hidden) = found;
            let bounds = batch.cumulative_seq_lengths@;
            let texts = (bounds.len() - 1) as nat;
            let len = model.config().max_position_embeddings as nat;
            let width = model.config().hidden_size as nat;
            let head = model.weights().head;
            &&& ids.len() == texts * len
            &&& forall|p: int|
                0 <= p < texts * len ==> {
                    let (b, i) = (p / (len as int), p % (len as int));
                    #[trigger] ids[p] == if i < bounds[b + 1] - bounds[b] {
                        batch.input_ids@[bounds[b] + i]
                    } else {
                        model.config().pad_token_id
                    }
                }
            &&& model.weights().encodes(ids, texts, len, hidden)
            &&& hidden.dtype == model.precision().elem_type()
            &&& hidden.dims == seq![texts, len, width]
            &&& pooled matches Some(t) && {
                &&& tensor_dtype(t) == hidden.dtype
                &&& tensor_dims(t) == seq![batch.pooled_indices@.len(), width]
                &&& forall|k: int|
                    0 <= k < batch.pooled_indices@.len() ==> projects(
                        hidden.dtype,
                        hidden.row(batch.pooled_indices@[k] * len + (len - 1)),
                        head.weight.elems,
                        head.bias.elems,
                        #[trigger] contents(t).row(k),
                    )
                &&& forall|k: int, o: int|
                    {
                        &&& 0 <= k < batch.pooled_indices@.len()
                        &&& 0 <= o < width
                        &&& is_finite_row(
                            hidden.dtype,
                            hidden.row(batch.pooled_indices@[k] * len + (len - 1)),
                        )
                        &&& is_zero_row(hidden.dtype, head.weight.elems, width, o)
                        &&& is_finite(hidden.dtype, head.bias.elems[o])
                    } ==> unsigned_zero(hidden.dtype, #[trigger] contents(t).row(k)[o])
                        == unsigned_zero(hidden.dtype, head.bias.elems[o])
            }
            &&& raw is None <==> batch.raw_indices@.len() == 0
            &&& raw matches Some(t) ==> {
                &&& tensor_dtype(t) == hidden.dtype
                &&& tensor_dims(t) == seq![
                    token_count(batch.sequences(), batch.raw_indices@),
                    width,
                ]
                &&& forall|m: int, j: int|
                    #![trigger is_token(batch, m, j)]
                    is_token(batch, m, j) ==> contents(t).row(
                        token_count(batch.sequences(), batch.raw_indices@.take(m)) + j,
                    ) == hidden.row(batch.raw_indices@[m] * len + j)
            }
        }),
{
    let bounds = batch.cumulative_seq_lengths@;
    let texts = batch.size();
    let len = model.config().max_position_embeddings as nat;
    let width = model.config().hidden_size as nat;
    let head = model.weights().head;
    let hidden = lemma_hidden_of_answer(model, batch, pooled, raw);
    let ids = pad_all(batch.sequences(), len, model.config().pad_token_id);
    law_padded_length(batch.sequences(), len, model.config().pad_token_id);
    assert forall|p: int| 0 <= p < texts * len implies ({
        let (b, i) = (p / (len as int), p % (len as int));
        #[trigger] ids[p] == if i < bounds[b + 1] - bounds[b] {
            batch.input_ids@[bounds[b] + i]
        } else {
            model.config().pad_token_id
        }
    }) by {
        lemma_parts_within(p, texts as int, len as int);
        law_padded_token_by_token(
            batch,
            len,
            model.config().pad_token_id,
            p / (len as int),
            p % (len as int),
        );
    }
    let n = batch.pooled_indices@.len();
    let rows = last_rows(batch.pooled_indices@, len);
    let t = pooled->Some_0;
    let last = read_rows(hidden, rows);
    assert(last.dims.drop_last() =~= seq![n]);
    lemma_volume_1(n);
    assert forall|k: int| 0 <= k < n implies {
        &&& #[trigger] contents(t).row(k) == contents(t).row(k)
        &&& last.row(k) == hidden.row(batch.pooled_indices@[k] * len + (len - 1))
        &&& is_projected(
            hidden.dtype,
            last.row(k),
            head.weight.elems,
            head.bias.elems,
            contents(t).row(k),
        )
    } by {
        let i = batch.pooled_indices@[k] as int;
        assert(batch.pooled_indices@[k] < batch.size());
        lemma_within(i, len - 1, texts as int, len as int);
        assert(rows[k] == i * len + (len - 1));
        lemma_read_row(hidden, texts, len, width, rows, k);
    }
    if let Some(s) = raw {
        let rows = token_rows(batch.sequences(), batch.raw_indices@, len);
        assert forall|m: int, j: int|
            #![trigger is_token(batch, m, j)]
            is_token(batch, m, j) implies contents(s).row(
            token_count(batch.sequences(), batch.raw_indices@.take(m)) + j,
        ) == hidden.row(batch.raw_indices@[m] * len + j) by {
            let i = batch.raw_indices@[m] as int;
            assert(batch.raw_indices@[m] < batch.size());
            assert(bounds[i] <= bounds[i + 1] <= bounds[bounds.len() - 1]);
            assert(batch.sequences()[i].len() == bounds[i + 1] - bounds[i]);
            assert(batch.sequences()[i].len() <= len);
            law_place_of_token_rows(batch.sequences(), batch.raw_indices@, len, m, j);
            lemma_within(i, j, texts as int, len as int);
            lemma_read_row(
                hidden,
                texts,
                len,
                width,
                rows,
                token_count(batch.sequences(), batch.raw_indices@.take(m)) + j,
            );
        }
    }
    (ids, hidden)
}

/// Whether the text of request `m` for raw rows has a token `j`.
pub open spec fn is_token(batch: Batch, m: int, j: int) -> bool {
    let bounds = batch.cumulative_seq_lengths@;
    let i = batch.raw_indices@[m] as int;
    &&& 0 <= m < batch.raw_indices@.len()
    &&& 0 <= j < bounds[i + 1] - bounds[i]
}

/// An empty batch is answered with pooled rows of no text and no raw rows.
pub proof fn law_answer_to_nothing(
    model: SiglipTextModel,
    batch: Batch,
    r: Result<(Option<Tensor>, Option<Tensor>), ModelError>,
)
    requires
        model.answers(batch, r),
        batch.well_formed(),
        batch.cumulative_seq_lengths@.len() == 1,
    ensures
        r matches Ok((Some(t), None)) && {
            &&& tensor_dtype(t) == model.precision().elem_type()
            &&& tensor_dims(t) == seq![0nat, model.config().hidden_size as nat]
        },
{
    if batch.pooled_indices@.len() > 0 {
        assert(batch.pooled_indices@[0] < batch.size());
    }
}

/// The number of tokens of text `b`: as many as lie between its bounds.
pub open spec fn length_of(batch: Batch, b: int) -> int {
    batch.cumulative_seq_lengths@[b + 1] - batch.cumulative_seq_lengths@[b]
}

/// Token `j` of text `b`.
pub open spec fn token_of(batch: Batch, b: int, j: int) -> u32 {
    batch.input_ids@[batch.cumulative_seq_lengths@[b] + j]
}

/// Whether a token has an embedding in a table of so many tokens; the largest 32-bit
/// integer needs none.
pub open spec fn is_known(id: u32, vocab: nat) -> bool {
    id < vocab || id == u32::MAX
}

/// A batch that is not empty is embedded exactly where no text has more tokens than there
/// are positions; all its tokens, and the padding token where a text has fewer tokens than
/// positions, have an embedding; and the heads of the layers, if there are any, share out
/// the hidden size.  The first text that is too long is reported, before anything else.
pub proof fn law_when_there_are_embeddings(
    model: SiglipTextModel,
    batch: Batch,
    r: Result<(Option<Tensor>, Option<Tensor>), ModelError>,
)
    requires
        model.answers(batch, r),
        batch.well_formed(),
        batch.cumulative_seq_lengths@.len() > 1,
        model.config().num_attention_heads > 0,
    ensures
        ({
            let texts = batch.cumulative_seq_lengths@.len() - 1;
            let config = model.config();
            let len = config.max_position_embeddings;
            let vocab = model.weights().embeddings.token.dims[0];
            let fits = forall|b: int| 0 <= b < texts ==> #[trigger] length_of(batch, b) <= len;
            &&& r is Ok <==> {
                &&& fits
                &&& forall|b: int, j: int|
                    0 <= b < texts && 0 <= j < length_of(batch, b) ==> is_known(
                        #[trigger] token_of(batch, b, j),
                        vocab,
                    )
                &&& forall|b: int|
                    0 <= b < texts && #[trigger] length_of(batch, b) < len ==> is_known(
                        config.pad_token_id,
                        vocab,
                    )
                &&& config.num_hidden_layers == 0 || config.hidden_size as int % (
                config.num_attention_heads as int) == 0
            }
            &&& r matches Err(e) ==> {
                &&& e is SequenceTooLong <==> !fits
                &&& e is SequenceTooLong || e is Tensor
            }
            &&& r matches Err(ModelError::SequenceTooLong { index }) ==> {
                &&& index < texts
                &&& length_of(batch, index as int) > len
                &&& forall|b: int| 0 <= b < index ==> #[trigger] length_of(batch, b) <= len
            }
        }),
{
    let texts = batch.cumulative_seq_lengths@.len() - 1;
    let config = model.config();
    let len = config.max_position_embeddings as nat;
    law_when_texts_fit(batch, len);
    if batch.within(len) {
        lemma_known_ids(model.weights().embeddings, batch, len, config.pad_token_id);
    }
    vstd::arithmetic::div_mod::lemma_fundamental_div_mod(
        config.hidden_size as int,
        config.num_attention_heads as int,
    );
    if let Err(ModelError::SequenceTooLong { index }) = r {
        lemma_length_of(batch, index as int);
        assert forall|b: int| 0 <= b < index implies #[trigger] length_of(batch, b) <= len by {
            lemma_length_of(batch, b);
            assert(batch.sequence(b).len() <= len);
        }
    }
}

/// The length of a text.
proof fn lemma_length_of(batch: Batch, b: int)
    requires
        batch.well_formed(),
        0 <= b < batch.cumulative_seq_lengths@.len() - 1,
    ensures
        0 <= length_of(batch, b),
        batch.sequences()[b].len() == length_of(batch, b),
        batch.sequence(b).len() == length_of(batch, b),
{
    let bounds = batch.cumulative_seq_lengths@;
    assert(bounds[b] <= bounds[b + 1] <= bounds[bounds.len() - 1]);
}

/// The ids of a padded batch have embeddings exactly where its tokens and the padding
/// token, where it pads, have.
proof fn lemma_known_ids(weights: EmbeddingsWeights, batch: Batch, len: nat, pad_id: u32)
    requires
        batch.well_formed(),
        batch.within(len),
        batch.cumulative_seq_lengths@.len() > 1,
    ensures
        weights.knows(integers(pad_all(batch.sequences(), len, pad_id))) <==> {
            let texts = batch.cumulative_seq_lengths@.len() - 1;
            let vocab = weights.token.dims[0];
            &&& forall|b: int, j: int|
                0 <= b < texts && 0 <= j < length_of(batch, b) ==> is_known(
                    #[trigger] token_of(batch, b, j),
                    vocab,
                )
            &&& forall|b: int|
                0 <= b < texts && #[trigger] length_of(batch, b) < len ==> is_known(pad_id, vocab)
        },
{
    let (texts, n) = (batch.size() as int, len as int);
    let ids = pad_all(batch.sequences(), len, pad_id);
    let numbers = integers(ids);
    let vocab = weights.token.dims[0];
    law_padded_length(batch.sequences(), len, pad_id);
    if weights.knows(numbers) {
        assert forall|b: int, j: int|
            0 <= b < texts && 0 <= j < length_of(batch, b) implies is_known(
            #[trigger] token_of(batch, b, j),
            vocab,
        ) by {
            lemma_length_of(batch, b);
            assert(batch.sequences()[b].len() <= len);
            law_padded_token_by_token(batch, len, pad_id, b, j);
            lemma_within(b, j, texts, n);
            assert(weights.token.has_row(numbers[b * len + j]));
        }
        assert forall|b: int|
            0 <= b < texts && #[trigger] length_of(batch, b) < len implies is_known(
            pad_id,
            vocab,
        ) by {
            lemma_length_of(batch, b);
            law_padded_token_by_token(batch, len, pad_id, b, n - 1);
            lemma_within(b, n - 1, texts, n);
            assert(weights.token.has_row(numbers[b * len + (n - 1)]));
        }
    } else {
        let p = choose|p: int|
            0 <= p < numbers.len() && !weights.token.has_row(#[trigger] numbers[p]);
        lemma_parts_within(p, texts, n);
        let (b, i) = (p / n, p % n);
        law_padded_token_by_token(batch, len, pad_id, b, i);
        if i < length_of(batch, b) {
            assert(!is_known(token_of(batch, b, i), vocab));
        } else {
            assert(length_of(batch, b) < len && !is_known(pad_id, vocab));
        }
    }
}

/// No text is too long exactly where no two neighbouring bounds lie further apart.
pub proof fn law_when_texts_fit(batch: Batch, len: nat)
    requires
        batch.well_formed(),
    ensures
        batch.within(len) <==> forall|b: int|
            0 <= b < batch.cumulative_seq_lengths@.len() - 1 ==> #[trigger] length_of(batch, b)
                <= len,
{
    let texts = batch.cumulative_seq_lengths@.len() - 1;
    let fits = forall|b: int| 0 <= b < texts ==> #[trigger] length_of(batch, b) <= len;
    assert forall|b: int| fits && 0 <= b < batch.sequences().len() implies (
    #[trigger] batch.sequences()[b]).len() <= len by {
        lemma_length_of(batch, b);
    }
    assert forall|b: int| batch.within(len) && 0 <= b < texts implies #[trigger] length_of(
        batch,
        b,
    ) <= len by {
        lemma_length_of(batch, b);
    }
}

/// There is room for a batch on which something is computed exactly where there are
/// positions and a hidden size, all its rows can be numbered, and its hidden states, those
/// inside the feed-forward blocks, the products of all positions in all heads, and the
/// rows that are read out can be allocated, at eight bytes a number.
pub proof fn law_room_for_a_batch(model: SiglipTextModel, batch: Batch)
    requires
        batch.well_formed(),
        batch.cumulative_seq_lengths@.len() > 1,
        batch.within(model.config().max_position_embeddings as nat),
    ensures
        model.has_room(batch) <==> {
            let config = model.config();
            let texts = (batch.cumulative_seq_lengths@.len() - 1) as nat;
            let (len, hidden) = (
                config.max_position_embeddings as nat,
                config.hidden_size as nat,
            );
            let tokens = token_count(batch.sequences(), batch.raw_indices@);
            &&& len > 0
            &&& hidden > 0
            &&& texts * len <= u32::MAX
            &&& texts * len * hidden * 8 <= isize::MAX
            &&& config.num_hidden_layers > 0 ==> {
                &&& texts * len * at_least_one(config.intermediate_size as nat) * 8 <= isize::MAX
                &&& texts * at_least_one(config.num_attention_heads as nat) * len * len * 8
                    <= isize::MAX
            }
            &&& at_least_one(batch.pooled_indices@.len()) * hidden * 8 <= isize::MAX
            &&& at_least_one(tokens) * hidden * 8 <= isize::MAX
        },
{
    let config = model.config();
    let texts = batch.size();
    let (len, hidden) = (config.max_position_embeddings as nat, config.hidden_size as nat);
    lemma_extent_3(texts, len, hidden);
    lemma_extent_3(texts, len, config.intermediate_size as nat);
    lemma_extent_4(texts, config.num_attention_heads as nat, len, len);
    lemma_extent_2(batch.pooled_indices@.len(), hidden);
    lemma_extent_2(token_count(batch.sequences(), batch.raw_indices@), hidden);
}

} // verus!
