//! The model.
use candle_core::Tensor;
use vstd::prelude::*;

use crate::array::{allocatable, at_least_one, is_allocatable, offset};
use crate::array::{lemma_extent_1, lemma_extent_2, lemma_extent_3};
use crate::array::{lemma_volume_1, lemma_volume_2, lemma_volume_3};
use crate::array::{Array, Precision};
use crate::batch::{last_rows, law_one_row_per_token, law_padded_length, pad_all, token_count};
use crate::batch::{all_within, law_place_of_token_rows, token_rows};
use crate::batch::{Batch, ModelType, Pool};
use crate::config::SiglipTextConfig;
use crate::embeddings::{EmbeddingsWeights, SiglipTextEmbeddings};
use crate::encoder::{encodable, heads_needed, heads_share_width};
use crate::encoder::{Encoder, EncoderWeights};
use crate::error::lift;
use crate::error::ModelError;
use crate::layers::{dims1, dims2, dims3, dims4};
use crate::layers::{LayerNorm, Linear, LinearWeights, NormWeights};
use crate::tensor;
use crate::tensor::{contents, plain, tensor_dims, tensor_dtype, tensor_elems};
use crate::weights::{Store, VarBuilder};

verus! {

/// The weights of a model.
pub struct ModelWeights {
    /// The embeddings of tokens and positions.
    pub embeddings: EmbeddingsWeights,
    /// The encoder.
    pub encoder: EncoderWeights,
    /// The normalisation after the encoder.
    pub final_layer_norm: NormWeights,
    /// The projection of pooled hidden states.
    pub head: LinearWeights,
}

/// Token ids as mathematical integers.
pub open spec fn integers(ids: Seq<u32>) -> Seq<int> {
    ids.map_values(|id: u32| id as int)
}

impl ModelWeights {
    /// Whether a store has, here, a model of this configuration.
    pub open spec fn stored_in(store: Store, config: SiglipTextConfig) -> bool {
        &&& EmbeddingsWeights::stored_in(
            store.at("embeddings"@),
            config.vocab_size as nat,
            config.max_position_embeddings as nat,
            config.hidden_size as nat,
        )
        &&& EncoderWeights::stored_in(store.at("encoder"@), config)
        &&& NormWeights::stored_in(store.at("final_layer_norm"@), config.hidden_size as nat)
        &&& LinearWeights::stored_in(
            store.at("head"@),
            config.hidden_size as nat,
            config.hidden_size as nat,
        )
    }

    /// Whether these weights are the ones that a store has here.
    pub open spec fn loaded_from(self, store: Store, config: SiglipTextConfig) -> bool {
        &&& self.embeddings.loaded_from(
            store.at("embeddings"@),
            config.vocab_size as nat,
            config.max_position_embeddings as nat,
            config.hidden_size as nat,
        )
        &&& self.encoder.loaded_from(store.at("encoder"@), config)
        &&& self.final_layer_norm.loaded_from(
            store.at("final_layer_norm"@),
            config.hidden_size as nat,
            config.layer_norm_eps,
        )
        &&& self.head.loaded_from(
            store.at("head"@),
            config.hidden_size as nat,
            config.hidden_size as nat,
        )
    }

    /// Whether these are the weights of a model of this configuration, the heads of
    /// whose layers share out its width.
    pub open spec fn is_sized(self, config: SiglipTextConfig) -> bool {
        &&& self.embeddings.token.dims == seq![
            config.vocab_size as nat,
            config.hidden_size as nat,
        ]
        &&& self.embeddings.position.dims == seq![
            config.max_position_embeddings as nat,
            config.hidden_size as nat,
        ]
        &&& self.encoder.is_sized(config)
        &&& self.head.weight.dims == seq![config.hidden_size as nat, config.hidden_size as nat]
    }

    /// Whether `hidden` is an outcome of the final hidden states of `batch` texts
    /// of `len` tokens, whose ids stand one text after the other in `ids`.  No
    /// mask keeps a position from any other.
    pub open spec fn encodes(self, ids: Seq<u32>, batch: nat, len: nat, hidden: Array) -> bool {
        exists|embedded: Array, encoded: Array|
            {
                &&& #[trigger] self.embeddings.maps(integers(ids), batch, len, embedded)
                &&& self.encoder.maps(embedded, None, encoded)
                &&& #[trigger] self.final_layer_norm.maps(encoded, hidden)
            }
    }

    /// Whether `r` is an outcome of pooling the hidden states at these rows: each
    /// row projected by the head.
    pub open spec fn pools(self, hidden: Array, rows: Seq<int>, r: Array) -> bool {
        self.head.maps(read_rows(hidden, rows), r)
    }
}

/// Of final hidden states, those at the given rows, all positions of all texts
/// being numbered one text after the other.
pub open spec fn read_rows(hidden: Array, rows: Seq<int>) -> Array {
    hidden.reshaped(seq![hidden.dims[0] * hidden.dims[1], hidden.dims[2]]).rows(rows)
}

/// The text tower of SigLIP.
pub struct SiglipTextModel {
    embeddings: SiglipTextEmbeddings,
    encoder: Encoder,
    final_layer_norm: LayerNorm,
    head: Linear,
    config: SiglipTextConfig,
    precision: Ghost<Precision>,
}

impl SiglipTextModel {
    /// The configuration of the model.
    pub closed spec fn config(self) -> SiglipTextConfig {
        self.config
    }

    /// The precision in which the model computes.
    pub closed spec fn precision(self) -> Precision {
        self.precision@
    }

    /// The weights of the model.
    pub closed spec fn weights(self) -> ModelWeights {
        ModelWeights {
            embeddings: self.embeddings.weights(),
            encoder: self.encoder.weights(),
            final_layer_norm: self.final_layer_norm.weights(),
            head: self.head.weights(),
        }
    }

    /// The parts are those of a model of the configuration.
    #[verifier::type_invariant]
    spec fn well_formed(self) -> bool {
        let dtype = self.precision@.elem_type();
        let hidden = self.config.hidden_size as nat;
        &&& self.embeddings.well_formed(dtype, hidden)
        &&& self.embeddings.positions() == self.config.max_position_embeddings as u32
        &&& self.embeddings.weights().token.dims[1] == hidden
        &&& self.encoder.well_formed(dtype, self.config)
        &&& self.final_layer_norm.well_formed(dtype, hidden)
        &&& self.head.well_formed(dtype, hidden, hidden)
    }

    /// The token ids that the model reads for a batch: every sequence padded to
    /// the number of positions.
    pub open spec fn padded(self, batch: Batch) -> Seq<u32> {
        pad_all(
            batch.sequences(),
            self.config().max_position_embeddings as nat,
            self.config().pad_token_id,
        )
    }

    /// Whether the model can compute on a batch: every id, the padding's
    /// included, has an embedding, and the attention heads share out the width.
    pub open spec fn computes(self, batch: Batch) -> bool {
        &&& self.weights().embeddings.knows(integers(self.padded(batch)))
        &&& self.config().num_hidden_layers == 0 || heads_share_width(self.config())
    }

    /// Whether there is room for a batch: all that is computed on it can be
    /// allocated, and its rows be numbered.  Nothing is computed on a batch that
    /// is empty or has a text that is too long.
    pub open spec fn has_room(self, batch: Batch) -> bool {
        let len = self.config().max_position_embeddings as nat;
        let hidden = self.config().hidden_size as nat;
        batch.size() > 0 && batch.within(len) ==> {
            &&& encodable(self.config(), batch.size(), len)
            &&& batch.size() * len <= u32::MAX
            &&& allocatable(seq![batch.pooled_indices@.len(), hidden])
            &&& allocatable(seq![token_count(batch.sequences(), batch.raw_indices@), hidden])
        }
    }

    /// Whether `t` has the type and the dimensions of the pooled embeddings of a
    /// batch: one row for each that was asked for.
    pub open spec fn is_pooled(self, batch: Batch, t: Tensor) -> bool {
        &&& plain(t, self.precision().elem_type())
        &&& tensor_dims(t) == seq![
            batch.pooled_indices@.len(),
            self.config().hidden_size as nat,
        ]
    }

    /// Whether `t` has the type and the dimensions of the raw embeddings of a batch.
    pub open spec fn is_raw(self, batch: Batch, t: Tensor) -> bool {
        &&& plain(t, self.precision().elem_type())
        &&& tensor_dims(t) == seq![
            token_count(batch.sequences(), batch.raw_indices@),
            self.config().hidden_size as nat,
        ]
    }

    /// Whether these are the embeddings of a batch, read out of its final hidden
    /// states: pooled, one row for each that was asked for, be it none; raw, where
    /// any were asked for, one row for each token of their texts.
    pub open spec fn reads_out(
        self,
        batch: Batch,
        hidden: Array,
        pooled: Option<Tensor>,
        raw: Option<Tensor>,
    ) -> bool {
        let len = self.config().max_position_embeddings as nat;
        &&& pooled matches Some(t) && {
            &&& self.is_pooled(batch, t)
            &&& self.weights().pools(hidden, last_rows(batch.pooled_indices@, len), contents(t))
        }
        &&& raw is None <==> batch.raw_indices@.len() == 0
        &&& raw matches Some(t) ==> {
            &&& self.is_raw(batch, t)
            &&& contents(t) == read_rows(
                hidden,
                token_rows(batch.sequences(), batch.raw_indices@, len),
            )
        }
    }

    /// Whether `r` answers a request to embed a batch.
    pub open spec fn answers(
        self,
        batch: Batch,
        r: Result<(Option<Tensor>, Option<Tensor>), ModelError>,
    ) -> bool {
        let len = self.config().max_position_embeddings as nat;
        match r {
            Ok((pooled, raw)) => {
                &&& batch.within(len)
                &&& if batch.size() == 0 {
                    &&& pooled matches Some(t) && self.is_pooled(batch, t)
                    &&& raw is None
                } else {
                    &&& self.computes(batch)
                    &&& exists|hidden: Array|
                        {
                            &&& hidden.dims == seq![
                                batch.size(),
                                len,
                                self.config().hidden_size as nat,
                            ]
                            &&& #[trigger] self.weights().encodes(
                                self.padded(batch),
                                batch.size(),
                                len,
                                hidden,
                            )
                            &&& self.reads_out(batch, hidden, pooled, raw)
                        }
                }
            },
            Err(ModelError::SequenceTooLong { index }) => {
                &&& index < batch.size()
                &&& batch.sequence(index as int).len() > len
                &&& forall|i: int| 0 <= i < index ==> (#[trigger] batch.sequence(i)).len() <= len
            },
            Err(ModelError::Tensor(_)) => {
                &&& batch.size() > 0
                &&& batch.within(len)
                &&& !self.computes(batch)
            },
            Err(_) => false,
        }
    }

    /// Whether `r` answers a request to load a model of this configuration.
    pub open spec fn loads(
        store: Store,
        config: SiglipTextConfig,
        model_type: ModelType,
        r: Result<SiglipTextModel, ModelError>,
    ) -> bool {
        match r {
            Ok(model) => {
                &&& model_type is Embedding
                &&& ModelWeights::stored_in(store, config)
                &&& model.weights().loaded_from(store, config)
                &&& model.config() == config
                &&& model.precision() == store.precision
            },
            Err(ModelError::UnsupportedModelType) => model_type is Classifier,
            Err(ModelError::Tensor(_)) => {
                &&& model_type is Embedding
                &&& !ModelWeights::stored_in(store, config)
            },
            Err(_) => false,
        }
    }

    /// Loads a model.  Only embeddings are supported, however they are asked to
    /// be pooled.  Fails otherwise exactly where the builder lacks a weight.
    pub fn load(vb: VarBuilder, config: &SiglipTextConfig, model_type: ModelType) -> (r: Result<
        SiglipTextModel,
        ModelError,
    >)
        requires
            model_type is Embedding && EmbeddingsWeights::stored_in(
                vb.store().at("embeddings"@),
                config.vocab_size as nat,
                config.max_position_embeddings as nat,
                config.hidden_size as nat,
            ) && heads_needed(vb.store().at("encoder"@), *config) ==> config.num_attention_heads
                > 0,
        ensures
            SiglipTextModel::loads(vb.store(), *config, model_type, r),
    {
        match model_type {
            ModelType::Classifier => {
                return Err(ModelError::UnsupportedModelType);
            },
            ModelType::Embedding(_) => {},
        }
        let hidden_size: usize = config.hidden_size;
        let embeddings = SiglipTextEmbeddings::new(
            &vb.pp("embeddings"),
            config.vocab_size,
            config.max_position_embeddings,
            hidden_size,
        )?;
        let encoder = Encoder::new(config, &vb.pp("encoder"))?;
        let final_layer_norm = LayerNorm::new(
            &vb.pp("final_layer_norm"),
            hidden_size,
            config.layer_norm_eps,
        )?;
        let head = Linear::new(&vb.pp("head"), hidden_size, hidden_size)?;
        let precision = Ghost(vb.store().precision);
        Ok(
            SiglipTextModel {
                embeddings,
                encoder,
                final_layer_norm,
                head,
                config: *config,
                precision,
            },
        )
    }

    /// Whether there is room for a batch.
    pub fn has_room_for(&self, batch: &Batch) -> (r: bool)
        requires
            batch.well_formed(),
        ensures
            r == self.has_room(*batch),
    {
        let len: usize = self.config.max_position_embeddings;
        let hidden: usize = self.config.hidden_size;
        let heads: usize = self.config.num_attention_heads;
        let wide: usize = self.config.intermediate_size;
        let size: usize = batch.len();
        if size == 0 || !batch.is_within(len) {
            return true;
        }
        let rows_numbered = match size.checked_mul(len) {
            Some(rows) => rows <= u32::MAX as usize,
            None => false,
        };
        let raw_fits = match batch.raw_token_count() {
            Some(tokens) => is_allocatable(&dims2(tokens, hidden)),
            None => {
                proof {
                    let tokens = token_count(batch.sequences(), batch.raw_indices@);
                    lemma_extent_2(tokens, hidden as nat);
                    assert(tokens * at_least_one(hidden as nat) >= tokens) by (nonlinear_arith)
                        requires
                            at_least_one(hidden as nat) >= 1,
                    ;
                }
                false
            },
        };
        len > 0 && hidden > 0 && rows_numbered && raw_fits && is_allocatable(
            &dims3(size, len, hidden),
        ) && is_allocatable(&dims2(batch.pooled_indices.len(), hidden)) && (
        self.config.num_hidden_layers == 0 || (is_allocatable(&dims3(size, len, wide))
            && is_allocatable(&dims4(size, heads, len, len))))
    }

    /// The final hidden states of a batch that has been padded.  Fails exactly
    /// where the model cannot compute on it.
    fn encode(&self, ids: Vec<u32>, size: usize) -> (r: Result<Tensor, ModelError>)
        requires
            encodable(self.config(), size as nat, self.config().max_position_embeddings as nat),
            self.config().max_position_embeddings <= u32::MAX,
            ids@.len() == size * self.config().max_position_embeddings,
        ensures
            r is Ok <==> self.weights().embeddings.knows(integers(ids@)) && (
            self.config().num_hidden_layers == 0 || heads_share_width(self.config())),
            r matches Ok(hidden) ==> {
                &&& plain(hidden, self.precision().elem_type())
                &&& tensor_dims(hidden) == seq![
                    size as nat,
                    self.config().max_position_embeddings as nat,
                    self.config().hidden_size as nat,
                ]
                &&& self.weights().encodes(
                    ids@,
                    size as nat,
                    self.config().max_position_embeddings as nat,
                    contents(hidden),
                )
            },
            r matches Err(e) ==> e is Tensor,
    {
        let len: usize = self.config.max_position_embeddings;
        let ghost dtype = self.precision@.elem_type();
        proof {
            use_type_invariant(self);
            lemma_volume_2(size as nat, len as nat);
            lemma_extent_2(size as nat, len as nat);
            lemma_extent_3(size as nat, len as nat, self.config.hidden_size as nat);
            assert(size * len <= size * len * self.config.hidden_size) by (nonlinear_arith)
                requires
                    self.config.hidden_size > 0,
            ;
            assert(seq![size as nat, len as nat].push(self.config.hidden_size as nat) =~= seq![
                size as nat,
                len as nat,
                self.config.hidden_size as nat,
            ]);
        }
        let ghost padded = ids@;
        let input_ids = lift(tensor::from_vec(ids, dims2(size, len)))?;
        assert(tensor_elems(input_ids) =~= integers(padded));
        let embedded = self.embeddings.forward(&input_ids, Ghost(dtype))?;
        let ghost start = contents(embedded);
        let encoded = self.encoder.forward(embedded, None, Ghost(self.config))?;
        let hidden = self.final_layer_norm.forward(&encoded)?;
        assert(self.weights().embeddings.maps(integers(padded), size as nat, len as nat, start));
        assert(self.weights().final_layer_norm.maps(contents(encoded), contents(hidden)));
        Ok(hidden)
    }

    /// The rows of `states` with these numbers.
    fn select(states: &Tensor, rows: Vec<u32>) -> (r: Result<Tensor, ModelError>)
        requires
            plain(*states, tensor_dtype(*states)),
            tensor_dims(*states).len() == 2,
            forall|k: int| 0 <= k < rows@.len() ==> #[trigger] rows@[k] < tensor_dims(*states)[0],
            allocatable(seq![rows@.len(), tensor_dims(*states)[1]]),
        ensures
            r is Ok,
            r matches Ok(t) ==> {
                &&& contents(t) == contents(*states).rows(integers(rows@))
                &&& plain(t, tensor_dtype(*states))
                &&& tensor_dims(t) == seq![rows@.len(), tensor_dims(*states)[1]]
            },
    {
        let count: usize = rows.len();
        let ghost numbers = rows@;
        proof {
            let width = tensor_dims(*states)[1];
            lemma_volume_1(count as nat);
            lemma_volume_2(count as nat, width);
            lemma_extent_1(count as nat);
            lemma_extent_2(count as nat, width);
            assert(at_least_one(count as nat) <= at_least_one(count as nat) * at_least_one(width))
                by (nonlinear_arith)
                requires
                    at_least_one(width) >= 1,
            ;
        }
        let ids = lift(tensor::from_vec(rows, dims1(count)))?;
        assert(tensor_elems(ids) =~= integers(numbers));
        lift(tensor::index_select(states, &ids))
    }

    /// Pooled embeddings of no text.
    fn pool_nothing(&self) -> (r: Result<Tensor, ModelError>)
        ensures
            r is Ok,
            r matches Ok(t) ==> {
                &&& plain(t, self.precision().elem_type())
                &&& tensor_dims(t) == seq![0nat, self.config().hidden_size as nat]
            },
    {
        let width: usize = self.config.hidden_size;
        proof {
            use_type_invariant(self);
            let w = at_least_one(width as nat);
            lemma_extent_2(0, width as nat);
            lemma_extent_2(width as nat, width as nat);
            assert(1 * w <= w * w) by (nonlinear_arith)
                requires
                    w >= 1,
            ;
        }
        self.head.zeros(dims2(0, width))
    }

    /// Computes the embeddings of a batch: first the pooled ones, then, where any
    /// were asked for, the raw ones.
    ///
    /// Every sequence is padded to the number of positions.  A pooled embedding
    /// is the final hidden state of the last position, projected by the head; raw
    /// embeddings are the final hidden states of the real tokens.  Fails on the
    /// first sequence that has more tokens than there are positions; else exactly
    /// where the model cannot compute on the batch.
    pub fn forward(&self, batch: Batch) -> (r: Result<
        (Option<Tensor>, Option<Tensor>),
        ModelError,
    >)
        requires
            batch.well_formed(),
            self.has_room(batch),
        ensures
            self.answers(batch, r),
    {
        if batch.is_empty() {
            assert(batch.pooled_indices@.len() == 0) by {
                if batch.pooled_indices@.len() > 0 {
                    assert(batch.pooled_indices@[0] < batch.size());
                }
            }
            assert(batch.raw_indices@.len() == 0) by {
                if batch.raw_indices@.len() > 0 {
                    assert(batch.raw_indices@[0] < batch.size());
                }
            }
            let none = self.pool_nothing()?;
            return Ok((Some(none), None));
        }
        let size: usize = batch.len();
        let len: usize = self.config.max_position_embeddings;
        let width: usize = self.config.hidden_size;
        let ids = batch.pad_to(len, self.config.pad_token_id)?;
        proof {
            use_type_invariant(self);
            law_padded_length(batch.sequences(), len as nat, self.config.pad_token_id);
            law_one_row_per_token(batch.sequences(), batch.raw_indices@, len as nat);
            assert(len <= size * len) by (nonlinear_arith)
                requires
                    size > 0,
            ;
            lemma_volume_3(size as nat, len as nat, width as nat);
            lemma_volume_2((size * len) as nat, width as nat);
            lemma_extent_3(size as nat, len as nat, width as nat);
            lemma_extent_2((size * len) as nat, width as nat);
        }
        let hidden = self.encode(ids, size)?;
        let states = lift(tensor::reshape(&hidden, dims2(size * len, width)))?;
        let pooled = if batch.pooled_indices.len() == 0 {
            let none = self.pool_nothing()?;
            proof {
                let last = read_rows(
                    contents(hidden),
                    last_rows(batch.pooled_indices@, len as nat),
                );
                assert(last.dims.drop_last() =~= seq![0nat]);
                assert(seq![0nat].push(width as nat) =~= seq![0nat, width as nat]);
                lemma_volume_1(0);
                assert(self.weights().head.maps(last, contents(none)));
            }
            none
        } else {
            let rows = batch.pooled_rows(len);
            assert(rows@.len() == integers(rows@).len());
            let last = Self::select(&states, rows)?;
            proof {
                assert(tensor_dims(last).drop_last() =~= seq![batch.pooled_indices@.len()]);
                assert(seq![batch.pooled_indices@.len()].push(width as nat) =~= seq![
                    batch.pooled_indices@.len(),
                    width as nat,
                ]);
                lemma_volume_1(batch.pooled_indices@.len());
            }
            self.head.forward(&last)?
        };
        let raw = if batch.raw_indices.len() == 0 {
            None
        } else {
            let rows = batch.raw_rows(len);
            assert(rows@.len() == integers(rows@).len());
            Some(Self::select(&states, rows)?)
        };
        assert(self.weights().encodes(
            self.padded(batch),
            batch.size(),
            self.config().max_position_embeddings as nat,
            contents(hidden),
        ));
        assert(self.reads_out(batch, contents(hidden), Some(pooled), raw));
        Ok((Some(pooled), raw))
    }

    /// Whether the model works on padded batches: it does.
    pub fn is_padded(&self) -> (r: bool)
        ensures
            r,
    {
        true
    }

    /// Computes the embeddings of a batch, as [`SiglipTextModel::forward`] does.
    pub fn embed(&self, batch: Batch) -> (r: Result<(Option<Tensor>, Option<Tensor>), ModelError>)
        requires
            batch.well_formed(),
            self.has_room(batch),
        ensures
            self.answers(batch, r),
    {
        self.forward(batch)
    }
}

/// Classification is refused, and said to be, whatever the weights and the
/// configuration are.
pub proof fn law_classifier_is_refused(
    store: Store,
    config: SiglipTextConfig,
    r: Result<SiglipTextModel, ModelError>,
)
    requires
        SiglipTextModel::loads(store, config, ModelType::Classifier, r),
    ensures
        r matches Err(e) && {
            &&& e is UnsupportedModelType
            &&& e.text() == "SiglipTextModel only supports embedding mode"@
        },
{
}

/// How embeddings are asked to be pooled makes no difference.
pub proof fn law_pool_is_ignored(
    store: Store,
    config: SiglipTextConfig,
    pool1: Pool,
    pool2: Pool,
    r: Result<SiglipTextModel, ModelError>,
)
    ensures
        SiglipTextModel::loads(store, config, ModelType::Embedding(pool1), r)
            == SiglipTextModel::loads(store, config, ModelType::Embedding(pool2), r),
{
}

/// A model for embeddings is loaded exactly where all its weights are there.
pub proof fn law_loads_complete_checkpoints(
    store: Store,
    config: SiglipTextConfig,
    pool: Pool,
    r: Result<SiglipTextModel, ModelError>,
)
    requires
        SiglipTextModel::loads(store, config, ModelType::Embedding(pool), r),
    ensures
        r is Ok <==> ModelWeights::stored_in(store, config),
{
}

/// A batch is embedded exactly where no text is too long and the model can
/// compute on it; a text that is too long is what is reported first.
pub proof fn law_when_a_batch_is_embedded(
    model: SiglipTextModel,
    batch: Batch,
    r: Result<(Option<Tensor>, Option<Tensor>), ModelError>,
)
    requires
        model.answers(batch, r),
    ensures
        ({
            let within = batch.within(model.config().max_position_embeddings as nat);
            &&& r is Ok <==> within && (batch.size() == 0 || model.computes(batch))
            &&& r matches Err(e) ==> (e is SequenceTooLong <==> !within)
        }),
{
    if let Err(ModelError::SequenceTooLong { index }) = r {
        assert(batch.sequences()[index as int] == batch.sequence(index as int));
    }
}

/// Only the tokens and the requests matter: token types, positions and the
/// longest length that come with a batch make no difference.
pub proof fn law_only_tokens_matter(
    model: SiglipTextModel,
    batch1: Batch,
    batch2: Batch,
    r: Result<(Option<Tensor>, Option<Tensor>), ModelError>,
)
    requires
        batch1.input_ids@ == batch2.input_ids@,
        batch1.cumulative_seq_lengths@ == batch2.cumulative_seq_lengths@,
        batch1.pooled_indices@ == batch2.pooled_indices@,
        batch1.raw_indices@ == batch2.raw_indices@,
    ensures
        model.answers(batch1, r) == model.answers(batch2, r),
{
    if model.answers(batch1, r) {
        lemma_same_answer(model, batch1, batch2, r);
    }
    if model.answers(batch2, r) {
        lemma_same_answer(model, batch2, batch1, r);
    }
}

/// What answers a batch answers another of the same tokens and requests.
proof fn lemma_same_answer(
    model: SiglipTextModel,
    batch1: Batch,
    batch2: Batch,
    r: Result<(Option<Tensor>, Option<Tensor>), ModelError>,
)
    requires
        batch1.input_ids@ == batch2.input_ids@,
        batch1.cumulative_seq_lengths@ == batch2.cumulative_seq_lengths@,
        batch1.pooled_indices@ == batch2.pooled_indices@,
        batch1.raw_indices@ == batch2.raw_indices@,
        model.answers(batch1, r),
    ensures
        model.answers(batch2, r),
{
    let len = model.config().max_position_embeddings as nat;
    assert(batch1.sequences() =~= batch2.sequences());
    match r {
        Ok((pooled, raw)) => {
            if batch1.size() > 0 {
                let hidden = choose|hidden: Array|
                    {
                        &&& hidden.dims == seq![
                            batch1.size(),
                            len,
                            model.config().hidden_size as nat,
                        ]
                        &&& #[trigger] model.weights().encodes(
                            model.padded(batch1),
                            batch1.size(),
                            len,
                            hidden,
                        )
                        &&& model.reads_out(batch1, hidden, pooled, raw)
                    };
                assert(model.weights().encodes(
                    model.padded(batch2),
                    batch2.size(),
                    len,
                    hidden,
                ));
                assert(model.reads_out(batch2, hidden, pooled, raw));
            }
        },
        Err(ModelError::SequenceTooLong { index }) => {
            assert forall|i: int| 0 <= i < index implies (#[trigger] batch2.sequence(i)).len()
                <= len by {
                assert(batch1.sequence(i) == batch2.sequence(i));
            }
        },
        Err(_) => {},
    }
}

/// Row `k` of what is read out of hidden states of `batch` texts of `len`
/// positions, where row number `k` is that of position `j` of text `i`, is what
/// the hidden states hold there.
proof fn lemma_row_is_position(
    hidden: Array,
    batch: nat,
    len: nat,
    width: nat,
    rows: Seq<int>,
    k: int,
    i: int,
    j: int,
    c: int,
)
    requires
        hidden.dims == seq![batch, len, width],
        batch * len <= u32::MAX,
        0 <= k < rows.len(),
        0 <= i < batch,
        0 <= j < len,
        0 <= c < width,
        rows[k] == i * len + j,
    ensures
        0 <= k * width + c < read_rows(hidden, rows).elems.len(),
        read_rows(hidden, rows).elems[k * width + c] == hidden.elems[offset(
            hidden.dims,
            seq![i, j, c],
        )],
{
    reveal_with_fuel(offset, 4);
    let dims = seq![batch, len, width];
    assert(dims.drop_last() =~= seq![batch, len]);
    assert(dims.drop_last().drop_last() =~= seq![batch]);
    assert(dims.drop_last().drop_last().drop_last() =~= Seq::<nat>::empty());
    assert(seq![i, j, c].drop_last() =~= seq![i, j]);
    assert(seq![i, j, c].drop_last().drop_last() =~= seq![i]);
    assert(0 * batch == 0);
    assert(offset(dims, seq![i, j, c]) == (i * len + j) * width + c);
    assert(0 <= k * width + c < rows.len() * width) by (nonlinear_arith)
        requires
            0 <= k < rows.len(),
            0 <= c < width,
    ;
    assert((k * width + c) / (width as int) == k && (k * width + c) % (width as int) == c)
        by (nonlinear_arith)
        requires
            0 <= c < width,
    ;
    assert(i * len + j < batch * len) by (nonlinear_arith)
        requires
            0 <= i < batch,
            0 <= j < len,
    ;
}

/// What is pooled for a text is its hidden state at the last position.
pub proof fn law_pools_the_last_position(
    hidden: Array,
    batch: nat,
    len: nat,
    width: nat,
    indices: Seq<u32>,
    k: int,
    c: int,
)
    requires
        hidden.dims == seq![batch, len, width],
        batch * len <= u32::MAX,
        len > 0,
        0 <= k < indices.len(),
        indices[k] < batch,
        0 <= c < width,
    ensures
        read_rows(hidden, last_rows(indices, len)).elems[k * width + c] == hidden.elems[offset(
            hidden.dims,
            seq![indices[k] as int, len - 1, c],
        )],
{
    lemma_row_is_position(
        hidden,
        batch,
        len,
        width,
        last_rows(indices, len),
        k,
        indices[k] as int,
        len - 1,
        c,
    );
}

/// The raw rows of a text are its hidden states at the positions of its tokens,
/// in order; they follow those of the texts asked for before it.
pub proof fn law_raw_rows_are_token_positions(
    hidden: Array,
    sequences: Seq<Seq<u32>>,
    len: nat,
    width: nat,
    indices: Seq<u32>,
    k: int,
    j: int,
    c: int,
)
    requires
        hidden.dims == seq![sequences.len(), len, width],
        sequences.len() * len <= u32::MAX,
        all_within(sequences, len),
        0 <= k < indices.len(),
        indices[k] < sequences.len(),
        0 <= j < sequences[indices[k] as int].len(),
        0 <= c < width,
    ensures
        ({
            let row = token_count(sequences, indices.take(k)) + j;
            read_rows(hidden, token_rows(sequences, indices, len)).elems[row * width + c]
                == hidden.elems[offset(hidden.dims, seq![indices[k] as int, j, c])]
        }),
{
    law_place_of_token_rows(sequences, indices, len, k, j);
    lemma_row_is_position(
        hidden,
        sequences.len(),
        len,
        width,
        token_rows(sequences, indices, len),
        token_count(sequences, indices.take(k)) + j,
        indices[k] as int,
        j,
        c,
    );
}

} // verus!
