//! What holds of a model's answers to different batches.
//!
//! Two runs need not come to the same numbers: what is said here of an outcome is
//! that it is an outcome of another batch as well.
use candle_core::Tensor;
use vstd::prelude::*;

use crate::array::{lemma_parts, lemma_parts_within, lemma_within};
use crate::array::{double, lemma_volume_1, lemma_volume_2, lemma_with_rows, Array};
use crate::batch::{all_within, last_rows, law_one_row_per_token, law_padded_length};
use crate::batch::{law_padded_row, law_place_of_token_rows, token_count, token_rows};
use crate::batch::{law_padding_again, law_same_rows_same_ids, pad, pad_all, Batch};
use crate::config::SiglipTextConfig;
use crate::embeddings::{law_embedding_regroups, picked_ids};
use crate::encoder::{heads_share_width, law_encoder_regroups};
use crate::error::ModelError;
use crate::masking::is_seen;
use crate::model::{integers, read_rows, ModelWeights, SiglipTextModel};
use crate::outcome::is_projected;
use crate::regroup::{all_in, in_order, is_permutation, lemma_norm_rows, lemma_regrouped};
use crate::regroup::{lemma_row_source, lemma_row_sources, regrouped, row_source};
use crate::tensor::contents;
use crate::weights::Store;

verus! {

/// The weights of a loaded model have the dimensions of its configuration.
pub proof fn law_loaded_weights_are_sized(
    weights: ModelWeights,
    store: Store,
    config: SiglipTextConfig,
)
    requires
        weights.loaded_from(store, config),
        config.num_hidden_layers == 0 || heads_share_width(config),
    ensures
        weights.is_sized(config),
{
    assert forall|i: int| 0 <= i < weights.encoder.layers.len() implies (
    #[trigger] weights.encoder.layers[i]).is_sized(config) by {}
}

/// The final hidden states of texts are an outcome of these texts alone: where texts
/// are picked out of a batch, what came out for them can come out of them.
pub proof fn law_hidden_states_of_texts(
    weights: ModelWeights,
    config: SiglipTextConfig,
    ids: Seq<u32>,
    batch: nat,
    len: nat,
    hidden: Array,
    texts: Seq<int>,
)
    requires
        weights.is_sized(config),
        ids.len() == batch * len,
        weights.encodes(ids, batch, len, hidden),
        all_in(texts, batch),
    ensures
        hidden.dims == seq![batch, len, config.hidden_size as nat],
        weights.encodes(
            picked_ids(ids, len, texts, len),
            texts.len(),
            len,
            regrouped(hidden, texts, in_order(len)),
        ),
{
    let (embedded, encoded) = choose|embedded: Array, encoded: Array|
        {
            &&& #[trigger] weights.embeddings.maps(integers(ids), batch, len, embedded)
            &&& weights.encoder.maps(embedded, None, encoded)
            &&& #[trigger] weights.final_layer_norm.maps(encoded, hidden)
        };
    let order = in_order(len);
    assert(is_permutation(order));
    let norm = weights.final_layer_norm;
    law_embedding_regroups(weights.embeddings, integers(ids), batch, len, embedded, texts, len);
    law_encoder_regroups(weights.encoder, config, embedded, encoded, texts, order);
    lemma_row_sources(encoded, texts, order, batch, len);
    lemma_norm_rows(
        encoded,
        norm.weight,
        norm.bias,
        double(norm.eps),
        hidden,
        seq![texts.len(), len],
        row_source(texts, order, len),
    );
    let picked = picked_ids(ids, len, texts, len);
    assert(integers(picked) =~= picked_ids(integers(ids), len, texts, len)) by {
        assert forall|k: int| 0 <= k < texts.len() * len implies integers(picked)[k]
            == picked_ids(integers(ids), len, texts, len)[k] by {
            lemma_row_source(texts, order, batch, len, k);
        }
    }
    assert(weights.embeddings.maps(
        integers(picked),
        texts.len(),
        len,
        regrouped(embedded, texts, order),
    ));
    assert(norm.maps(regrouped(encoded, texts, order), regrouped(hidden, texts, order)));
}

/// The padded ids of texts that were picked out of a batch.
proof fn lemma_padded_ids_of_texts(
    sequences: Seq<Seq<u32>>,
    picked: Seq<Seq<u32>>,
    texts: Seq<int>,
    len: nat,
    pad_id: u32,
)
    requires
        all_within(sequences, len),
        all_in(texts, sequences.len()),
        picked.len() == texts.len(),
        forall|k: int| 0 <= k < picked.len() ==> #[trigger] picked[k] == sequences[texts[k]],
    ensures
        all_within(picked, len),
        pad_all(picked, len, pad_id) == picked_ids(
            pad_all(sequences, len, pad_id),
            len,
            texts,
            len,
        ),
{
    assert forall|k: int| 0 <= k < picked.len() implies (#[trigger] picked[k]).len() <= len by {
        assert(0 <= texts[k] < sequences.len());
    }
    law_padded_length(sequences, len, pad_id);
    law_padded_length(picked, len, pad_id);
    let (all, some) = (pad_all(sequences, len, pad_id), pad_all(picked, len, pad_id));
    let there = picked_ids(all, len, texts, len);
    let n = len as int;
    assert forall|k: int| 0 <= k < some.len() implies some[k] == there[k] by {
        lemma_parts_within(k, picked.len() as int, n);
        let (b, i) = (k / n, k % n);
        assert(0 <= texts[b] < sequences.len());
        law_padded_row(picked, len, pad_id, b);
        law_padded_row(sequences, len, pad_id, texts[b]);
        lemma_within(texts[b], i, sequences.len() as int, n);
        assert(some.subrange(b * len, b * len + len)[i] == some[b * n + i]);
        assert(all.subrange(texts[b] * len, texts[b] * len + len)[i] == all[texts[b] * n + i]);
        assert(picked[b] == sequences[texts[b]]);
    }
    assert(some =~= there);
}

/// A row that is read out of final hidden states.
pub proof fn lemma_read_row(hidden: Array, batch: nat, len: nat, width: nat, rows: Seq<int>, k: int)
    requires
        hidden.dims == seq![batch, len, width],
        batch * len <= u32::MAX,
        0 <= k < rows.len(),
        0 <= rows[k] < batch * len,
    ensures
        read_rows(hidden, rows).row(k) == hidden.row(rows[k]),
{
    let r = read_rows(hidden, rows);
    let w = width as int;
    assert forall|c: int| 0 <= c < w implies r.row(k)[c] == hidden.row(rows[k])[c] by {
        lemma_parts(k, c, w);
        lemma_within(k, c, rows.len() as int, w);
    }
    assert(r.row(k) =~= hidden.row(rows[k]));
}

/// Whether `batch2` holds texts of `batch`: as its text `k` text `texts[k]`.
pub open spec fn holds_texts(batch2: Batch, batch: Batch, texts: Seq<int>) -> bool {
    &&& texts.len() == batch2.size()
    &&& all_in(texts, batch.size())
    &&& forall|k: int|
        0 <= k < texts.len() ==> #[trigger] batch2.sequences()[k] == batch.sequences()[texts[k]]
}

/// Whether requests for some of these texts, `indices2`, are among the requests `indices`
/// for the texts they come from: as request `m` request `requests[m]`.
pub open spec fn are_requests(
    indices2: Seq<u32>,
    indices: Seq<u32>,
    texts: Seq<int>,
    requests: Seq<int>,
) -> bool {
    &&& requests.len() == indices2.len()
    &&& all_in(requests, indices.len())
    &&& forall|m: int|
        0 <= m < requests.len() ==> indices[#[trigger] requests[m]] == texts[indices2[m] as int]
}

/// Whether the rows of `q` are rows of `p`: as row `m` row `requests[m]`.
pub open spec fn holds_rows(q: Tensor, p: Tensor, requests: Seq<int>) -> bool {
    forall|m: int|
        0 <= m < requests.len() ==> #[trigger] contents(q).row(m) == contents(p).row(requests[m])
}

/// Among the raw rows of a batch, that of token `j` of the text of a request.
pub open spec fn raw_row(batch: Batch, request: int, j: int) -> int {
    token_count(batch.sequences(), batch.raw_indices@.take(request)) + j
}

/// The text that is asked for in a request for raw rows.
pub open spec fn raw_text(batch: Batch, request: int) -> Seq<u32> {
    batch.sequences()[batch.raw_indices@[request] as int]
}

/// Whether the raw rows of `s` are raw rows of `t`: as those of request `m` those of
/// request `requests[m]`.
pub open spec fn holds_raw_rows(
    batch2: Batch,
    s: Tensor,
    batch: Batch,
    t: Tensor,
    requests: Seq<int>,
) -> bool {
    forall|m: int, j: int|
        0 <= m < requests.len() && 0 <= j < raw_text(batch2, m).len() ==> contents(s).row(
            #[trigger] raw_row(batch2, m, j),
        ) == contents(t).row(raw_row(batch, requests[m], j))
}

impl SiglipTextModel {
    /// Whether `hidden` are final hidden states that can come out of a batch.
    pub open spec fn can_encode(self, batch: Batch, hidden: Array) -> bool {
        let len = self.config().max_position_embeddings as nat;
        &&& batch.within(len)
        &&& self.computes(batch)
        &&& hidden.dims == seq![batch.size(), len, self.config().hidden_size as nat]
        &&& self.weights().encodes(self.padded(batch), batch.size(), len, hidden)
    }

    /// Whether `t` are pooled embeddings that can come out of a batch, whatever raw ones
    /// are asked for.
    pub open spec fn can_pool(self, batch: Batch, t: Tensor) -> bool {
        let len = self.config().max_position_embeddings as nat;
        &&& self.is_pooled(batch, t)
        &&& batch.size() > 0 ==> exists|hidden: Array|
            {
                &&& #[trigger] self.can_encode(batch, hidden)
                &&& self.weights().pools(
                    hidden,
                    last_rows(batch.pooled_indices@, len),
                    contents(t),
                )
            }
    }

    /// Whether `t` are raw embeddings that can come out of a batch, whatever pooled ones
    /// are asked for.
    pub open spec fn can_read(self, batch: Batch, t: Tensor) -> bool {
        let len = self.config().max_position_embeddings as nat;
        &&& self.is_raw(batch, t)
        &&& exists|hidden: Array|
            {
                &&& #[trigger] self.can_encode(batch, hidden)
                &&& contents(t) == read_rows(
                    hidden,
                    token_rows(batch.sequences(), batch.raw_indices@, len),
                )
            }
    }
}

/// The hidden states behind an answer.
pub proof fn lemma_hidden_of_answer(
    model: SiglipTextModel,
    batch: Batch,
    pooled: Option<Tensor>,
    raw: Option<Tensor>,
) -> (hidden: Array)
    requires
        model.answers(batch, Ok((pooled, raw))),
        batch.size() > 0,
    ensures
        model.can_encode(batch, hidden),
        model.reads_out(batch, hidden, pooled, raw),
{
    let len = model.config().max_position_embeddings as nat;
    choose|hidden: Array|
        {
            &&& hidden.dims == seq![batch.size(), len, model.config().hidden_size as nat]
            &&& #[trigger] model.weights().encodes(
                model.padded(batch),
                batch.size(),
                len,
                hidden,
            )
            &&& model.reads_out(batch, hidden, pooled, raw)
        }
}

/// The hidden states of texts that were picked out of a batch.
proof fn lemma_hidden_of_part(
    model: SiglipTextModel,
    batch: Batch,
    hidden: Array,
    batch2: Batch,
    texts: Seq<int>,
) -> (hidden2: Array)
    requires
        model.weights().is_sized(model.config()),
        model.can_encode(batch, hidden),
        holds_texts(batch2, batch, texts),
    ensures
        model.can_encode(batch2, hidden2),
        hidden2.dtype == hidden.dtype,
        ({
            let len = model.config().max_position_embeddings as nat;
            forall|b: int, i: int|
                #![trigger texts[b], is_seen(i, len, -1)]
                0 <= b < texts.len() && is_seen(i, len, -1) ==> hidden2.row(b * len + i)
                    == hidden.row(texts[b] * len + i)
        }),
{
    let len = model.config().max_position_embeddings as nat;
    let width = model.config().hidden_size as nat;
    let pad_id = model.config().pad_token_id;
    let weights = model.weights();
    let (size, size2) = (batch.size(), batch2.size());
    lemma_padded_ids_of_texts(batch.sequences(), batch2.sequences(), texts, len, pad_id);
    law_padded_length(batch.sequences(), len, pad_id);
    law_hidden_states_of_texts(
        weights,
        model.config(),
        model.padded(batch),
        size,
        len,
        hidden,
        texts,
    );
    let order = in_order(len);
    let hidden2 = regrouped(hidden, texts, order);
    lemma_regrouped(hidden, texts, order, size, len, width);
    assert(model.computes(batch2)) by {
        let (ids, ids2) = (integers(model.padded(batch)), integers(model.padded(batch2)));
        assert forall|k: int| 0 <= k < ids2.len() implies weights.embeddings.token.has_row(
            #[trigger] ids2[k],
        ) by {
            lemma_row_source(texts, order, size, len, k);
            let from = row_source(texts, order, len)(k);
            assert(ids2[k] == ids[from]);
        }
    }
    assert forall|b: int, i: int|
        #![trigger texts[b], is_seen(i, len, -1)]
        0 <= b < texts.len() && is_seen(i, len, -1) implies hidden2.row(b * len + i)
        == hidden.row(texts[b] * len + i) by {
        lemma_parts(b, i, len as int);
        lemma_within(b, i, size2 as int, len as int);
        lemma_volume_2(size2, len);
        lemma_with_rows(hidden, seq![size2, len], row_source(texts, order, len), b * len + i);
    }
    hidden2
}

/// The pooled embeddings of texts that were picked out of a batch.
proof fn lemma_pooled_of_part(
    model: SiglipTextModel,
    batch: Batch,
    hidden: Array,
    p: Tensor,
    batch2: Batch,
    hidden2: Array,
    q: Tensor,
    texts: Seq<int>,
    requests: Seq<int>,
)
    requires
        model.weights().is_sized(model.config()),
        batch.well_formed(),
        batch2.well_formed(),
        model.has_room(batch),
        model.has_room(batch2),
        batch.size() > 0,
        batch2.size() > 0,
        model.can_encode(batch, hidden),
        model.can_encode(batch2, hidden2),
        hidden2.dtype == hidden.dtype,
        ({
            let len = model.config().max_position_embeddings as nat;
            forall|b: int, i: int|
                #![trigger texts[b], is_seen(i, len, -1)]
                0 <= b < texts.len() && is_seen(i, len, -1) ==> hidden2.row(b * len + i)
                    == hidden.row(texts[b] * len + i)
        }),
        holds_texts(batch2, batch, texts),
        are_requests(batch2.pooled_indices@, batch.pooled_indices@, texts, requests),
        model.is_pooled(batch, p),
        model.weights().pools(
            hidden,
            last_rows(
                batch.pooled_indices@,
                model.config().max_position_embeddings as nat,
            ),
            contents(p),
        ),
        model.is_pooled(batch2, q),
        holds_rows(q, p, requests),
    ensures
        model.weights().pools(
            hidden2,
            last_rows(
                batch2.pooled_indices@,
                model.config().max_position_embeddings as nat,
            ),
            contents(q),
        ),
{
    let len = model.config().max_position_embeddings as nat;
    let width = model.config().hidden_size as nat;
    let weights = model.weights();
    let (size, size2) = (batch.size(), batch2.size());
    let (rows, rows2) = (
        last_rows(batch.pooled_indices@, len),
        last_rows(batch2.pooled_indices@, len),
    );
    let (x, x2) = (read_rows(hidden, rows), read_rows(hidden2, rows2));
    let n = requests.len();
    lemma_volume_1(n);
    lemma_volume_1(batch.pooled_indices@.len());
    assert(x.dims.drop_last() =~= seq![batch.pooled_indices@.len()]);
    assert(x2.dims.drop_last() =~= seq![n]);
    assert(seq![n].push(width) =~= seq![n, width]);
    assert forall|m: int| 0 <= m < x2.height() implies is_projected(
        x2.dtype,
        x2.row(m),
        weights.head.weight.elems,
        weights.head.bias.elems,
        #[trigger] contents(q).row(m),
    ) by {
        let k = requests[m];
        let text2 = batch2.pooled_indices@[m] as int;
        let text = batch.pooled_indices@[k] as int;
        assert(batch2.pooled_indices@[m] < size2);
        assert(batch.pooled_indices@[k] < size);
        assert(texts[text2] == text);
        assert(is_seen(len - 1, len, -1));
        lemma_within(text2, len - 1, size2 as int, len as int);
        lemma_within(text, len - 1, size as int, len as int);
        lemma_read_row(hidden, size, len, width, rows, k);
        lemma_read_row(hidden2, size2, len, width, rows2, m);
        assert(rows[k] == text * len + (len - 1) && rows2[m] == text2 * len + (len - 1));
        assert(x2.row(m) == x.row(k));
        assert(contents(q).row(m) == contents(p).row(k));
        assert(is_projected(
            x.dtype,
            x.row(k),
            weights.head.weight.elems,
            weights.head.bias.elems,
            contents(p).row(k),
        ));
    }
}

/// A raw row is that of a token of a text that was asked for.
proof fn lemma_request_of_row(sequences: Seq<Seq<u32>>, indices: Seq<u32>, k: int) -> (r: (
    int,
    int,
))
    requires
        0 <= k < token_count(sequences, indices),
    ensures
        0 <= r.0 < indices.len(),
        0 <= r.1 < sequences[indices[r.0] as int].len(),
        k == token_count(sequences, indices.take(r.0)) + r.1,
    decreases indices.len(),
{
    let rest = indices.drop_last();
    let before = token_count(sequences, rest);
    if k < before {
        let (m, j) = lemma_request_of_row(sequences, rest, k);
        assert(rest.take(m) =~= indices.take(m));
        (m, j)
    } else {
        assert(rest =~= indices.take(indices.len() - 1));
        (indices.len() - 1, k - before)
    }
}

/// A raw row is the hidden state of its token.
proof fn lemma_raw_row(
    model: SiglipTextModel,
    batch: Batch,
    hidden: Array,
    request: int,
    j: int,
)
    requires
        batch.well_formed(),
        model.has_room(batch),
        model.can_encode(batch, hidden),
        0 <= request < batch.raw_indices@.len(),
        0 <= j < raw_text(batch, request).len(),
    ensures
        ({
            let len = model.config().max_position_embeddings as nat;
            let rows = token_rows(batch.sequences(), batch.raw_indices@, len);
            read_rows(hidden, rows).row(raw_row(batch, request, j)) == hidden.row(
                batch.raw_indices@[request] * len + j,
            )
        }),
{
    let len = model.config().max_position_embeddings as nat;
    let width = model.config().hidden_size as nat;
    let rows = token_rows(batch.sequences(), batch.raw_indices@, len);
    let text = batch.raw_indices@[request] as int;
    assert(batch.raw_indices@[request] < batch.size());
    assert(batch.sequences()[text].len() <= len);
    law_place_of_token_rows(batch.sequences(), batch.raw_indices@, len, request, j);
    lemma_within(text, j, batch.size() as int, len as int);
    lemma_read_row(hidden, batch.size(), len, width, rows, raw_row(batch, request, j));
}

/// Arrays of the same rows are the same.
proof fn lemma_same_rows(a: Array, b: Array)
    requires
        a.well_formed(),
        b.well_formed(),
        a.dtype == b.dtype,
        a.dims == b.dims,
        a.dims.len() > 0,
        forall|k: int| 0 <= k < a.height() ==> #[trigger] a.row(k) == b.row(k),
    ensures
        a == b,
{
    let w = a.width() as int;
    assert forall|e: int| 0 <= e < a.elems.len() implies a.elems[e] == b.elems[e] by {
        lemma_parts_within(e, a.height() as int, w);
        let (k, c) = (e / w, e % w);
        assert(a.row(k) == b.row(k));
        assert(a.row(k)[c] == a.elems[e]);
        assert(b.row(k)[c] == b.elems[e]);
    }
    assert(a.elems =~= b.elems);
}

/// The raw embeddings of texts that were picked out of a batch.
proof fn lemma_raw_of_part(
    model: SiglipTextModel,
    batch: Batch,
    hidden: Array,
    t: Tensor,
    batch2: Batch,
    hidden2: Array,
    s: Tensor,
    texts: Seq<int>,
    requests: Seq<int>,
)
    requires
        batch.well_formed(),
        batch2.well_formed(),
        model.has_room(batch),
        model.has_room(batch2),
        model.can_encode(batch, hidden),
        model.can_encode(batch2, hidden2),
        hidden2.dtype == hidden.dtype,
        ({
            let len = model.config().max_position_embeddings as nat;
            forall|b: int, i: int|
                #![trigger texts[b], is_seen(i, len, -1)]
                0 <= b < texts.len() && is_seen(i, len, -1) ==> hidden2.row(b * len + i)
                    == hidden.row(texts[b] * len + i)
        }),
        holds_texts(batch2, batch, texts),
        are_requests(batch2.raw_indices@, batch.raw_indices@, texts, requests),
        model.is_raw(batch, t),
        contents(t) == read_rows(
            hidden,
            token_rows(
                batch.sequences(),
                batch.raw_indices@,
                model.config().max_position_embeddings as nat,
            ),
        ),
        model.is_raw(batch2, s),
        holds_raw_rows(batch2, s, batch, t, requests),
    ensures
        contents(s) == read_rows(
            hidden2,
            token_rows(
                batch2.sequences(),
                batch2.raw_indices@,
                model.config().max_position_embeddings as nat,
            ),
        ),
{
    let len = model.config().max_position_embeddings as nat;
    let width = model.config().hidden_size as nat;
    let rows2 = token_rows(batch2.sequences(), batch2.raw_indices@, len);
    let read = read_rows(hidden2, rows2);
    let n = token_count(batch2.sequences(), batch2.raw_indices@);
    law_one_row_per_token(batch2.sequences(), batch2.raw_indices@, len);
    lemma_volume_2(n, width);
    lemma_volume_1(n);
    assert(seq![n, width].drop_last() =~= seq![n]);
    assert forall|k: int| 0 <= k < contents(s).height() implies #[trigger] contents(s).row(k)
        == read.row(k) by {
        let (m, j) = lemma_request_of_row(batch2.sequences(), batch2.raw_indices@, k);
        assert(k == raw_row(batch2, m, j));
        let text2 = batch2.raw_indices@[m] as int;
        assert(batch2.raw_indices@[m] < batch2.size());
        let request = requests[m];
        assert(batch.raw_indices@[request] == texts[text2]);
        assert(raw_text(batch2, m) == raw_text(batch, request));
        assert(batch2.sequences()[text2].len() <= len);
        assert(is_seen(j, len, -1));
        lemma_raw_row(model, batch2, hidden2, m, j);
        lemma_raw_row(model, batch, hidden, request, j);
    }
    lemma_same_rows(contents(s), read);
}

/// A text's embeddings are an outcome of that text alone.  Where texts of a batch are
/// put into another, in whatever order and beside whatever other texts they stood, the
/// embeddings that were computed for them in the one are an answer to the other.
pub proof fn law_texts_stand_for_themselves(
    model: SiglipTextModel,
    batch: Batch,
    p: Tensor,
    raw: Option<Tensor>,
    batch2: Batch,
    q: Tensor,
    raw2: Option<Tensor>,
    texts: Seq<int>,
    requests: Seq<int>,
    raw_requests: Seq<int>,
)
    requires
        model.weights().is_sized(model.config()),
        batch.well_formed(),
        model.has_room(batch),
        model.answers(batch, Ok((Some(p), raw))),
        batch2.well_formed(),
        model.has_room(batch2),
        holds_texts(batch2, batch, texts),
        are_requests(batch2.pooled_indices@, batch.pooled_indices@, texts, requests),
        model.is_pooled(batch2, q),
        holds_rows(q, p, requests),
        are_requests(batch2.raw_indices@, batch.raw_indices@, texts, raw_requests),
        raw2 is None <==> batch2.raw_indices@.len() == 0,
        raw2 matches Some(s) ==> {
            &&& model.is_raw(batch2, s)
            &&& raw matches Some(t) && holds_raw_rows(batch2, s, batch, t, raw_requests)
        },
    ensures
        model.answers(batch2, Ok((Some(q), raw2))),
{
    let len = model.config().max_position_embeddings as nat;
    if batch2.size() > 0 {
        assert(0 <= texts[0] < batch.size());
        let hidden = lemma_hidden_of_answer(model, batch, Some(p), raw);
        let hidden2 = lemma_hidden_of_part(model, batch, hidden, batch2, texts);
        lemma_pooled_of_part(model, batch, hidden, p, batch2, hidden2, q, texts, requests);
        if let Some(s) = raw2 {
            lemma_raw_of_part(
                model,
                batch,
                hidden,
                raw->Some_0,
                batch2,
                hidden2,
                s,
                texts,
                raw_requests,
            );
        }
        assert(model.weights().encodes(model.padded(batch2), batch2.size(), len, hidden2));
        assert(model.reads_out(batch2, hidden2, Some(q), raw2));
    } else {
        if batch2.raw_indices@.len() > 0 {
            assert(batch2.raw_indices@[0] < batch2.size());
        }
    }
}

/// A text's pooled embedding is an outcome of that text alone, whatever raw embeddings
/// are asked for: where texts of a batch are put into another, the pooled embeddings that
/// were computed for them in the one can come out of the other.
pub proof fn law_pooled_embeddings_of_texts(
    model: SiglipTextModel,
    batch: Batch,
    p: Tensor,
    raw: Option<Tensor>,
    batch2: Batch,
    q: Tensor,
    texts: Seq<int>,
    requests: Seq<int>,
)
    requires
        model.weights().is_sized(model.config()),
        batch.well_formed(),
        model.has_room(batch),
        model.answers(batch, Ok((Some(p), raw))),
        batch2.well_formed(),
        model.has_room(batch2),
        holds_texts(batch2, batch, texts),
        are_requests(batch2.pooled_indices@, batch.pooled_indices@, texts, requests),
        model.is_pooled(batch2, q),
        holds_rows(q, p, requests),
    ensures
        model.can_pool(batch2, q),
{
    if batch2.size() > 0 {
        assert(0 <= texts[0] < batch.size());
        let hidden = lemma_hidden_of_answer(model, batch, Some(p), raw);
        let hidden2 = lemma_hidden_of_part(model, batch, hidden, batch2, texts);
        lemma_pooled_of_part(model, batch, hidden, p, batch2, hidden2, q, texts, requests);
        assert(model.can_encode(batch2, hidden2));
    }
}

/// A text's raw embeddings are an outcome of that text alone, whatever pooled embeddings
/// are asked for: where texts of a batch are put into another, the raw embeddings that
/// were computed for them in the one can come out of the other.
pub proof fn law_raw_embeddings_of_texts(
    model: SiglipTextModel,
    batch: Batch,
    pooled: Option<Tensor>,
    t: Tensor,
    batch2: Batch,
    s: Tensor,
    texts: Seq<int>,
    requests: Seq<int>,
)
    requires
        model.weights().is_sized(model.config()),
        batch.well_formed(),
        model.has_room(batch),
        model.answers(batch, Ok((pooled, Some(t)))),
        batch2.well_formed(),
        model.has_room(batch2),
        batch2.size() > 0,
        holds_texts(batch2, batch, texts),
        are_requests(batch2.raw_indices@, batch.raw_indices@, texts, requests),
        model.is_raw(batch2, s),
        holds_raw_rows(batch2, s, batch, t, requests),
    ensures
        model.can_read(batch2, s),
{
    assert(0 <= texts[0] < batch.size());
    let hidden = lemma_hidden_of_answer(model, batch, pooled, Some(t));
    let hidden2 = lemma_hidden_of_part(model, batch, hidden, batch2, texts);
    lemma_raw_of_part(model, batch, hidden, t, batch2, hidden2, s, texts, requests);
    assert(model.can_encode(batch2, hidden2));
}

/// Identical inputs get the same embeddings, in whatever batches they stand: what was
/// computed for a text in a batch can come out of that text by itself.
pub proof fn law_text_by_itself(
    model: SiglipTextModel,
    batch: Batch,
    p: Tensor,
    raw: Option<Tensor>,
    request: int,
    alone: Batch,
    q: Tensor,
)
    requires
        model.weights().is_sized(model.config()),
        batch.well_formed(),
        model.has_room(batch),
        model.answers(batch, Ok((Some(p), raw))),
        0 <= request < batch.pooled_indices@.len(),
        alone.well_formed(),
        model.has_room(alone),
        alone.size() == 1,
        alone.sequences()[0] == batch.sequences()[batch.pooled_indices@[request] as int],
        alone.pooled_indices@ == seq![0u32],
        model.is_pooled(alone, q),
        contents(q).row(0) == contents(p).row(request),
    ensures
        model.can_pool(alone, q),
        alone.raw_indices@.len() == 0 ==> model.answers(alone, Ok((Some(q), None))),
{
    let texts = seq![batch.pooled_indices@[request] as int];
    assert(batch.pooled_indices@[request] < batch.size());
    law_pooled_embeddings_of_texts(model, batch, p, raw, alone, q, texts, seq![request]);
    if alone.raw_indices@.len() == 0 {
        law_texts_stand_for_themselves(
            model,
            batch,
            p,
            raw,
            alone,
            q,
            None,
            texts,
            seq![request],
            Seq::empty(),
        );
    }
}

/// The raw rows of a text in a batch are the hidden states of its tokens, as they can come
/// out of that text by itself.
pub proof fn law_raw_rows_by_themselves(
    model: SiglipTextModel,
    batch: Batch,
    pooled: Option<Tensor>,
    t: Tensor,
    request: int,
    alone: Batch,
)
    requires
        model.weights().is_sized(model.config()),
        batch.well_formed(),
        model.has_room(batch),
        model.answers(batch, Ok((pooled, Some(t)))),
        0 <= request < batch.raw_indices@.len(),
        alone.well_formed(),
        alone.size() == 1,
        alone.sequences()[0] == raw_text(batch, request),
    ensures
        exists|hidden: Array|
            {
                &&& #[trigger] model.can_encode(alone, hidden)
                &&& forall|j: int|
                    0 <= j < raw_text(batch, request).len() ==> contents(t).row(
                        #[trigger] raw_row(batch, request, j),
                    ) == hidden.row(j)
            },
{
    let len = model.config().max_position_embeddings as nat;
    let text = batch.raw_indices@[request] as int;
    assert(batch.raw_indices@[request] < batch.size());
    let texts = seq![text];
    let hidden = lemma_hidden_of_answer(model, batch, pooled, Some(t));
    let hidden1 = lemma_hidden_of_part(model, batch, hidden, alone, texts);
    assert forall|j: int| 0 <= j < raw_text(batch, request).len() implies contents(t).row(
        #[trigger] raw_row(batch, request, j),
    ) == hidden1.row(j) by {
        assert(batch.sequences()[text].len() <= len);
        assert(is_seen(j, len, -1));
        assert(texts[0] == text);
        assert(0 * len == 0);
        lemma_raw_row(model, batch, hidden, request, j);
    }
    assert(model.can_encode(alone, hidden1));
}

/// Row `k` belongs to text `k`: where the texts of a batch are put in another order,
/// their pooled embeddings, put in that order, can come out.
pub proof fn law_reordered_texts(
    model: SiglipTextModel,
    batch: Batch,
    p: Tensor,
    raw: Option<Tensor>,
    batch2: Batch,
    q: Tensor,
    order: Seq<int>,
)
    requires
        model.weights().is_sized(model.config()),
        batch.well_formed(),
        model.has_room(batch),
        model.answers(batch, Ok((Some(p), raw))),
        batch2.well_formed(),
        model.has_room(batch2),
        is_permutation(order),
        order.len() == batch.size(),
        holds_texts(batch2, batch, order),
        integers(batch.pooled_indices@) == in_order(batch.size()),
        integers(batch2.pooled_indices@) == in_order(batch.size()),
        model.is_pooled(batch2, q),
        holds_rows(q, p, order),
    ensures
        model.can_pool(batch2, q),
        batch2.raw_indices@.len() == 0 ==> model.answers(batch2, Ok((Some(q), None))),
{
    assert(batch.pooled_indices@.len() == integers(batch.pooled_indices@).len());
    assert(batch2.pooled_indices@.len() == integers(batch2.pooled_indices@).len());
    assert forall|m: int| 0 <= m < order.len() implies batch.pooled_indices@[#[trigger] order[m]]
        == order[batch2.pooled_indices@[m] as int] by {
        assert(integers(batch2.pooled_indices@)[m] == m);
        assert(integers(batch.pooled_indices@)[order[m]] == order[m]);
    }
    law_pooled_embeddings_of_texts(model, batch, p, raw, batch2, q, order, order);
    if batch2.raw_indices@.len() == 0 {
        law_texts_stand_for_themselves(
            model,
            batch,
            p,
            raw,
            batch2,
            q,
            None,
            order,
            order,
            Seq::empty(),
        );
    }
}

/// Whether the texts of `batch2` are those of `batch`, some of them padded by hand, with the
/// model's padding token and to no more than its number of positions.
pub open spec fn is_padded_by_hand(
    model: SiglipTextModel,
    batch: Batch,
    batch2: Batch,
) -> bool {
    let (len, pad_id) = (model.config().max_position_embeddings, model.config().pad_token_id);
    &&& batch2.size() == batch.size()
    &&& batch.within(len as nat)
    &&& forall|k: int|
        0 <= k < batch.size() ==> #[trigger] batch2.sequences()[k].len() <= len
            && batch.sequences()[k].len() <= batch2.sequences()[k].len()
            && batch2.sequences()[k] == pad(
            batch.sequences()[k],
            batch2.sequences()[k].len(),
            pad_id,
        )
}

/// A batch that was padded by hand is padded to the same ids.
proof fn lemma_same_padded(model: SiglipTextModel, batch: Batch, batch2: Batch)
    requires
        is_padded_by_hand(model, batch, batch2),
    ensures
        batch2.within(model.config().max_position_embeddings as nat),
        model.padded(batch2) == model.padded(batch),
{
    let len = model.config().max_position_embeddings as nat;
    let pad_id = model.config().pad_token_id;
    assert forall|k: int| 0 <= k < batch2.sequences().len() implies (
    #[trigger] batch2.sequences()[k]).len() <= len by {}
    assert forall|k: int| 0 <= k < batch.sequences().len() implies pad(
        #[trigger] batch.sequences()[k],
        len,
        pad_id,
    ) == pad(batch2.sequences()[k], len, pad_id) by {
        let n = batch2.sequences()[k].len();
        law_padding_again(batch.sequences()[k], n, len, pad_id);
    }
    law_same_rows_same_ids(batch.sequences(), batch2.sequences(), len, pad_id);
}

/// A text and the same text padded by hand have the same pooled embeddings, and, where no
/// raw ones are asked for, the same answers.
pub proof fn law_padded_by_hand(
    model: SiglipTextModel,
    batch: Batch,
    batch2: Batch,
    q: Tensor,
    r: Result<(Option<Tensor>, Option<Tensor>), ModelError>,
)
    requires
        is_padded_by_hand(model, batch, batch2),
        batch2.pooled_indices@ == batch.pooled_indices@,
    ensures
        model.can_pool(batch, q) == model.can_pool(batch2, q),
        batch.raw_indices@.len() == 0 && batch2.raw_indices@.len() == 0 ==> model.answers(batch, r)
            == model.answers(batch2, r),
{
    lemma_same_padded(model, batch, batch2);
    let len = model.config().max_position_embeddings as nat;
    assert forall|hidden: Array| model.can_encode(batch, hidden) == #[trigger] model.can_encode(
        batch2,
        hidden,
    ) by {}
    if model.can_pool(batch, q) && batch.size() > 0 {
        let hidden = choose|hidden: Array|
            {
                &&& #[trigger] model.can_encode(batch, hidden)
                &&& model.weights().pools(
                    hidden,
                    last_rows(batch.pooled_indices@, len),
                    contents(q),
                )
            };
        assert(model.can_encode(batch2, hidden));
    }
    if model.can_pool(batch2, q) && batch.size() > 0 {
        let hidden = choose|hidden: Array|
            {
                &&& #[trigger] model.can_encode(batch2, hidden)
                &&& model.weights().pools(
                    hidden,
                    last_rows(batch2.pooled_indices@, len),
                    contents(q),
                )
            };
        assert(model.can_encode(batch, hidden));
    }
    if batch.raw_indices@.len() == 0 && batch2.raw_indices@.len() == 0 {
        if model.answers(batch, r) {
            lemma_same_padded_same_answer(model, batch, batch2, r);
        }
        if model.answers(batch2, r) {
            lemma_same_padded_same_answer(model, batch2, batch, r);
        }
    }
}

/// The raw rows of the tokens of a text that was padded by hand are hidden states that can
/// come out of the text as it was.
pub proof fn law_raw_rows_padded_by_hand(
    model: SiglipTextModel,
    batch: Batch,
    batch2: Batch,
    pooled: Option<Tensor>,
    t: Tensor,
)
    requires
        is_padded_by_hand(model, batch, batch2),
        batch2.well_formed(),
        model.has_room(batch2),
        batch2.size() > 0,
        model.answers(batch2, Ok((pooled, Some(t)))),
    ensures
        exists|hidden: Array|
            {
                &&& #[trigger] model.can_encode(batch, hidden)
                &&& forall|request: int, j: int|
                    {
                        &&& 0 <= request < batch2.raw_indices@.len()
                        &&& 0 <= j
                            < batch.sequences()[batch2.raw_indices@[request] as int].len()
                    } ==> contents(t).row(#[trigger] raw_row(batch2, request, j)) == hidden.row(
                        batch2.raw_indices@[request] * model.config().max_position_embeddings + j,
                    )
            },
{
    lemma_same_padded(model, batch, batch2);
    let hidden = lemma_hidden_of_answer(model, batch2, pooled, Some(t));
    assert forall|request: int, j: int|
        {
            &&& 0 <= request < batch2.raw_indices@.len()
            &&& 0 <= j < batch.sequences()[batch2.raw_indices@[request] as int].len()
        } implies contents(t).row(#[trigger] raw_row(batch2, request, j)) == hidden.row(
        batch2.raw_indices@[request] * model.config().max_position_embeddings + j,
    ) by {
        let k = batch2.raw_indices@[request] as int;
        assert(batch2.raw_indices@[request] < batch2.size());
        assert(batch2.sequences()[k].len() >= batch.sequences()[k].len());
        lemma_raw_row(model, batch2, hidden, request, j);
    }
    assert(model.can_encode(batch, hidden));
}

/// What answers a batch answers another that is padded to the same ids, where no raw
/// embeddings are asked for.
proof fn lemma_same_padded_same_answer(
    model: SiglipTextModel,
    batch: Batch,
    batch2: Batch,
    r: Result<(Option<Tensor>, Option<Tensor>), ModelError>,
)
    requires
        batch2.size() == batch.size(),
        batch.within(model.config().max_position_embeddings as nat),
        batch2.within(model.config().max_position_embeddings as nat),
        model.padded(batch2) == model.padded(batch),
        batch2.pooled_indices@ == batch.pooled_indices@,
        batch.raw_indices@.len() == 0,
        batch2.raw_indices@.len() == 0,
        model.answers(batch, r),
    ensures
        model.answers(batch2, r),
{
    let len = model.config().max_position_embeddings as nat;
    match r {
        Ok((pooled, raw)) => {
            if batch.size() > 0 {
                let hidden = choose|hidden: Array|
                    {
                        &&& hidden.dims == seq![
                            batch.size(),
                            len,
                            model.config().hidden_size as nat,
                        ]
                        &&& #[trigger] model.weights().encodes(
                            model.padded(batch),
                            batch.size(),
                            len,
                            hidden,
                        )
                        &&& model.reads_out(batch, hidden, pooled, raw)
                    };
                assert(model.weights().encodes(
                    model.padded(batch2),
                    batch2.size(),
                    len,
                    hidden,
                ));
                assert(model.reads_out(batch2, hidden, pooled, raw));
            }
        },
        Err(ModelError::SequenceTooLong { index }) => {
            assert(batch.sequences()[index as int] == batch.sequence(index as int));
        },
        Err(_) => {},
    }
}

} // verus!
