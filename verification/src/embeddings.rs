//! The embeddings of tokens and positions.
use candle_core::Tensor;
use vstd::prelude::*;

use crate::array::{allocatable, at_least_one, sizes, source};
use crate::array::{lemma_parts, lemma_parts_within, lemma_within};
use crate::array::{lemma_extent_1, lemma_extent_2, lemma_extent_3};
use crate::array::{lemma_volume_2, lemma_volume_3};
use crate::array::{Array, ElemType};
use crate::error::lift;
use crate::error::ModelError;
use crate::layers::dims2;
use crate::tensor;
use crate::outcome::{is_added, is_sum, same_number, same_numbers};
use crate::regroup::{all_in, in_order, lemma_regrouped, regrouped, row_source};
use crate::tensor::{contents, is_model_type, plain, tensor_dims, tensor_elems};
use crate::weights::{Store, VarBuilder};

verus! {

/// The tables of the embeddings.
pub struct EmbeddingsWeights {
    /// One row for each token.
    pub token: Array,
    /// One row for each position.
    pub position: Array,
}

impl EmbeddingsWeights {
    /// Whether a store has, here, tables for so many tokens and positions.
    pub open spec fn stored_in(store: Store, vocab: nat, positions: nat, hidden: nat) -> bool {
        &&& store.at("token_embedding"@).has("weight"@, seq![vocab, hidden])
        &&& store.at("position_embedding"@).has("weight"@, seq![positions, hidden])
    }

    /// Whether these tables are the ones that a store has here.
    pub open spec fn loaded_from(
        self,
        store: Store,
        vocab: nat,
        positions: nat,
        hidden: nat,
    ) -> bool {
        &&& store.at("token_embedding"@).gives("weight"@, seq![vocab, hidden], self.token)
        &&& store.at("position_embedding"@).gives("weight"@, seq![positions, hidden], self.position)
    }

    /// Whether each of these ids names an embedding.
    pub open spec fn knows(self, ids: Seq<int>) -> bool {
        forall|k: int| 0 <= k < ids.len() ==> self.token.has_row(#[trigger] ids[k])
    }

    /// Whether `r` is an outcome of embedding the ids of `batch` texts of `len`
    /// positions: the token's row plus the position's row.
    pub open spec fn maps(self, ids: Seq<int>, batch: nat, len: nat, r: Array) -> bool {
        let hidden = self.token.dims[1];
        is_sum(
            self.token.rows(ids).reshaped(seq![batch, len, hidden]),
            self.position.rows(Seq::new(len, |k: int| k)).reshaped(seq![1, len, hidden]),
            r,
        )
    }
}

/// The embeddings of tokens and positions.
pub(crate) struct SiglipTextEmbeddings {
    token_embedding: Tensor,
    position_embedding: Tensor,
    position_ids: Tensor,
    hidden_size: usize,
}

impl SiglipTextEmbeddings {
    /// The tables of the embeddings.
    pub closed spec fn weights(self) -> EmbeddingsWeights {
        EmbeddingsWeights {
            token: contents(self.token_embedding),
            position: contents(self.position_embedding),
        }
    }

    /// The number of positions that can be embedded.
    pub closed spec fn positions(self) -> nat {
        tensor_dims(self.position_ids)[1]
    }

    /// Embeddings of this width that compute with the given type.
    pub closed spec fn well_formed(self, dtype: ElemType, hidden: nat) -> bool {
        &&& is_model_type(dtype)
        &&& self.hidden_size == hidden
        &&& plain(self.token_embedding, dtype)
        &&& plain(self.position_embedding, dtype)
        &&& plain(self.position_ids, ElemType::U32)
        &&& tensor_dims(self.token_embedding).len() == 2
        &&& tensor_dims(self.token_embedding)[1] == hidden
        &&& tensor_dims(self.position_embedding).len() == 2
        &&& tensor_dims(self.position_embedding)[1] == hidden
        &&& self.positions() <= tensor_dims(self.position_embedding)[0]
        &&& tensor_dims(self.position_ids) == seq![1nat, self.positions()]
        &&& tensor_elems(self.position_ids) == Seq::new(self.positions(), |k: int| k)
    }

    /// Loads tables for so many tokens and positions.  Fails exactly where the
    /// builder has no such tables.
    pub(crate) fn new(
        vb: &VarBuilder,
        vocab_size: usize,
        max_position_embeddings: usize,
        hidden_size: usize,
    ) -> (r: Result<SiglipTextEmbeddings, ModelError>)
        ensures
            r is Ok <==> EmbeddingsWeights::stored_in(
                vb.store(),
                vocab_size as nat,
                max_position_embeddings as nat,
                hidden_size as nat,
            ),
            r matches Ok(tables) ==> {
                &&& tables.weights().loaded_from(
                    vb.store(),
                    vocab_size as nat,
                    max_position_embeddings as nat,
                    hidden_size as nat,
                )
                &&& tables.positions() == max_position_embeddings as u32
                &&& tables.well_formed(
                    vb.store().precision.elem_type(),
                    hidden_size as nat,
                )
            },
            r matches Err(e) ==> e is Tensor,
    {
        let token_embedding = lift(
            vb.pp("token_embedding").get(dims2(vocab_size, hidden_size), "weight"),
        )?;
        let position_embedding = lift(
            vb.pp("position_embedding").get(dims2(max_position_embeddings, hidden_size), "weight"),
        )?;
        let positions: u32 = max_position_embeddings as u32;
        proof {
            assert(positions <= max_position_embeddings) by (bit_vector)
                requires
                    positions == max_position_embeddings as u32,
            ;
            let (p, w) = (max_position_embeddings as nat, hidden_size as nat);
            assert(at_least_one(p) <= at_least_one(p) * at_least_one(w)) by (nonlinear_arith)
                requires
                    at_least_one(w) >= 1,
            ;
            lemma_extent_2(p, w);
            lemma_extent_1(positions as nat);
            lemma_extent_2(1, positions as nat);
            assert(1 * at_least_one(positions as nat) == at_least_one(positions as nat));
        }
        let row = lift(tensor::arange(positions))?;
        let position_ids = lift(tensor::unsqueeze(&row))?;
        proof {
            assert(seq![1nat] + seq![positions as nat] =~= seq![1nat, positions as nat]);
            lemma_volume_2(1, positions as nat);
        }
        Ok(SiglipTextEmbeddings { token_embedding, position_embedding, position_ids, hidden_size })
    }

    /// Embeds a matrix of token ids, one row for each text.  Fails exactly where
    /// the texts have too many positions, or an id names no embedding.
    pub(crate) fn forward(&self, input_ids: &Tensor, Ghost(dtype): Ghost<ElemType>) -> (r: Result<
        Tensor,
        ModelError,
    >)
        requires
            self.well_formed(dtype, self.weights().token.dims[1]),
            plain(*input_ids, ElemType::U32),
            tensor_dims(*input_ids).len() == 2,
            allocatable(tensor_dims(*input_ids).push(self.weights().token.dims[1])),
        ensures
            r is Ok <==> tensor_dims(*input_ids)[1] <= self.positions() && self.weights().knows(
                tensor_elems(*input_ids),
            ),
            r matches Ok(states) ==> {
                &&& plain(states, dtype)
                &&& tensor_dims(states) == tensor_dims(*input_ids).push(
                    self.weights().token.dims[1],
                )
                &&& self.weights().maps(
                    tensor_elems(*input_ids),
                    tensor_dims(*input_ids)[0],
                    tensor_dims(*input_ids)[1],
                    contents(states),
                )
            },
            r matches Err(e) ==> e is Tensor,
    {
        let dims = tensor::dims(input_ids);
        let len: usize = dims[1];
        let ghost (b, l, w) = (
            tensor_dims(*input_ids)[0],
            tensor_dims(*input_ids)[1],
            self.weights().token.dims[1],
        );
        proof {
            assert(sizes(dims@)[1] == len);
            assert(tensor_dims(*input_ids) =~= seq![b, l]);
            assert(seq![b, l].push(w) =~= seq![b, l, w]);
            assert(seq![1nat, l].push(w) =~= seq![1nat, l, w]);
            lemma_volume_2(b, l);
            lemma_volume_2(1, l);
            lemma_volume_3(b, l, w);
            lemma_volume_3(1, l, w);
            lemma_extent_3(b, l, w);
            lemma_extent_3(1, l, w);
            let (rows, cols) = (at_least_one(b), at_least_one(l));
            assert(1 * cols * at_least_one(w) <= rows * cols * at_least_one(w))
                by (nonlinear_arith)
                requires
                    rows > 0,
            ;
        }
        let tokens = lift(tensor::embedding(&self.token_embedding, self.hidden_size, input_ids))?;
        let position_ids = lift(tensor::narrow(&self.position_ids, 0, len))?;
        assert(tensor_elems(position_ids) =~= Seq::new(l, |k: int| k));
        let positions = lift(
            tensor::embedding(&self.position_embedding, self.hidden_size, &position_ids),
        )?;
        lift(tensor::broadcast_add(&tokens, &positions))
    }
}

/// The ids of the first `n` tokens of these texts, of texts of `len` tokens.
pub open spec fn picked_ids<A>(ids: Seq<A>, len: nat, texts: Seq<int>, n: nat) -> Seq<A> {
    Seq::new(texts.len() * n, |k: int| ids[row_source(texts, in_order(n), len)(k)])
}

/// Where tables of one row each are stretched over texts, the place that an element
/// comes from.
proof fn lemma_source_of_position(batch: nat, len: nat, width: nat, b: int, i: int, c: int)
    requires
        0 <= b < batch,
        0 <= i < len,
        0 <= c < width,
    ensures
        source(seq![1nat, len, width], seq![batch, len, width], (b * len + i) * width + c) == i
            * width + c,
{
    reveal_with_fuel(source, 4);
    let (from, to) = (seq![1nat, len, width], seq![batch, len, width]);
    assert(from.drop_last() =~= seq![1nat, len]);
    assert(from.drop_last().drop_last() =~= seq![1nat]);
    assert(to.drop_last() =~= seq![batch, len]);
    assert(to.drop_last().drop_last() =~= seq![batch]);
    lemma_parts(b * len + i, c, width as int);
    lemma_parts(b, i, len as int);
    assert(0 * len == 0);
}

/// Embedding adds the rows of a token and of its position: entry `c` at position `i` of
/// text `b` is the sum of entry `c` of the row of the token that stands there and of entry
/// `c` of row `i` of the table of positions.  The largest 32-bit integer, which is no
/// token's id, has a row of zeros.
pub proof fn law_embedding_entry_by_entry(
    weights: EmbeddingsWeights,
    ids: Seq<int>,
    batch: nat,
    len: nat,
    hidden: nat,
    r: Array,
    b: int,
    i: int,
    c: int,
)
    requires
        weights.token.dims.len() == 2,
        weights.token.dims[1] == hidden,
        weights.position.dims.len() == 2,
        weights.position.dims[1] == hidden,
        ids.len() == batch * len,
        weights.maps(ids, batch, len, r),
        0 <= b < batch,
        0 <= i < len,
        i < u32::MAX,
        0 <= c < hidden,
    ensures
        r.dtype == weights.token.dtype,
        r.dims == seq![batch, len, hidden],
        r.elems.len() == batch * len * hidden,
        is_added(
            weights.token.dtype,
            if ids[b * len + i] == u32::MAX {
                0
            } else {
                weights.token.elems[ids[b * len + i] * hidden + c]
            },
            weights.position.elems[i * hidden + c],
            r.elems[(b * len + i) * hidden + c],
        ),
{
    let w = hidden as int;
    let dims = seq![batch, len, hidden];
    let a = weights.token.rows(ids).reshaped(dims);
    let row = b * len + i;
    let k = row * w + c;
    lemma_volume_3(batch, len, hidden);
    lemma_within(b, i, batch as int, len as int);
    lemma_within(row, c, (batch * len) as int, w);
    lemma_within(i, c, len as int, w);
    lemma_parts(row, c, w);
    lemma_parts(i, c, w);
    lemma_source_of_position(batch, len, hidden, b, i, c);
    assert(0 <= k < r.elems.len());
    assert(a.elems[k] == if ids[row] == u32::MAX {
        0
    } else {
        weights.token.elems[ids[row] * w + c]
    });
}

/// The embedding of the beginning of a text is the beginning of its embedding, and
/// that of a text does not rest on the other texts: where texts are picked out and
/// cut to `n` tokens, what comes out for them is picked out and cut too.
pub proof fn law_embedding_regroups(
    weights: EmbeddingsWeights,
    ids: Seq<int>,
    batch: nat,
    len: nat,
    r: Array,
    texts: Seq<int>,
    n: nat,
)
    requires
        weights.token.dims.len() == 2,
        weights.position.dims.len() == 2,
        weights.position.dims[1] == weights.token.dims[1],
        ids.len() == batch * len,
        weights.maps(ids, batch, len, r),
        all_in(texts, batch),
        n <= len,
    ensures
        weights.maps(
            picked_ids(ids, len, texts, n),
            texts.len(),
            n,
            regrouped(r, texts, in_order(n)),
        ),
{
    let width = weights.token.dims[1];
    let w = width as int;
    let picked = picked_ids(ids, len, texts, n);
    let (dims, dims2) = (seq![batch, len, width], seq![texts.len(), n, width]);
    let a = weights.token.rows(ids).reshaped(dims);
    let a2 = weights.token.rows(picked).reshaped(dims2);
    let p = weights.position.rows(in_order(len)).reshaped(seq![1, len, width]);
    let p2 = weights.position.rows(in_order(n)).reshaped(seq![1, n, width]);
    let r2 = regrouped(r, texts, in_order(n));
    assert(in_order(len) =~= Seq::new(len, |k: int| k));
    assert(in_order(n) =~= Seq::new(n, |k: int| k));
    lemma_regrouped(r, texts, in_order(n), batch, len, width);
    lemma_volume_3(texts.len(), n, width);
    lemma_volume_3(batch, len, width);
    assert forall|k: int| 0 <= k < r2.elems.len() implies is_added(
        a2.dtype,
        a2.elems[k],
        p2.stretched(a2.dims).elems[k],
        #[trigger] r2.elems[k],
    ) by {
        lemma_parts_within(k, (texts.len() * n) as int, w);
        let (row, c) = (k / w, k % w);
        lemma_parts_within(row, texts.len() as int, n as int);
        let (b, i) = (row / (n as int), row % (n as int));
        let t = texts[b];
        lemma_source_of_position(texts.len(), n, width, b, i, c);
        lemma_source_of_position(batch, len, width, t, i, c);
        lemma_within(t, i, batch as int, len as int);
        lemma_parts(t * len + i, c, w);
        lemma_within(t * len + i, c, (batch * len) as int, w);
        lemma_parts(i, c, w);
        lemma_within(i, c, n as int, w);
        lemma_within(i, c, len as int, w);
        let there = (t * len + i) * w + c;
        assert(r2.entry(b, i, c) == r.entry(t, i, c));
        assert(a2.elems[k] == a.elems[there]);
        assert(p2.stretched(a2.dims).elems[k] == p.stretched(a.dims).elems[there]);
        assert(r2.elems[k] == r.elems[there]);
    }
    assert(is_sum(a2, p2, r2));
}

/// Embedding is determined: two embeddings of the same ids hold the same numbers.
pub proof fn law_embedding_is_determined(
    weights: EmbeddingsWeights,
    ids: Seq<int>,
    batch: nat,
    len: nat,
    r1: Array,
    r2: Array,
)
    requires
        weights.maps(ids, batch, len, r1),
        weights.maps(ids, batch, len, r2),
    ensures
        same_numbers(r1, r2),
{
    assert forall|k: int| 0 <= k < r1.elems.len() implies same_number(
        r1.dtype,
        #[trigger] r1.elems[k],
        r2.elems[k],
    ) by {
        let dims = seq![batch, len, weights.token.dims[1]];
        let a = weights.token.rows(ids).reshaped(dims);
        assert(is_added(a.dtype, a.elems[k], weights.position.rows(Seq::new(len, |k: int| k))
            .reshaped(seq![1, len, weights.token.dims[1]]).stretched(a.dims).elems[k], r2.elems[k]));
    }
}

/// The embedding of the beginning of a text, computed by itself, is the beginning of its
/// embedding, number for number, whatever the other texts are.
pub proof fn law_embedding_of_beginnings(
    weights: EmbeddingsWeights,
    ids: Seq<int>,
    batch: nat,
    len: nat,
    r: Array,
    texts: Seq<int>,
    n: nat,
    r2: Array,
)
    requires
        weights.token.dims.len() == 2,
        weights.position.dims.len() == 2,
        weights.position.dims[1] == weights.token.dims[1],
        ids.len() == batch * len,
        weights.maps(ids, batch, len, r),
        all_in(texts, batch),
        n <= len,
        weights.maps(picked_ids(ids, len, texts, n), texts.len(), n, r2),
    ensures
        same_numbers(regrouped(r, texts, in_order(n)), r2),
{
    law_embedding_regroups(weights, ids, batch, len, r, texts, n);
    law_embedding_is_determined(
        weights,
        picked_ids(ids, len, texts, n),
        texts.len(),
        n,
        regrouped(r, texts, in_order(n)),
        r2,
    );
}

/// Equal texts have equal embeddings, number for number, in whatever batches they stand:
/// here text `i` of the one and text `j` of the other.
pub proof fn law_equal_texts_equal_embeddings(
    weights: EmbeddingsWeights,
    ids1: Seq<int>,
    batch1: nat,
    i: int,
    r1: Array,
    ids2: Seq<int>,
    batch2: nat,
    j: int,
    r2: Array,
    len: nat,
)
    requires
        weights.token.dims.len() == 2,
        weights.position.dims.len() == 2,
        weights.position.dims[1] == weights.token.dims[1],
        ids1.len() == batch1 * len,
        ids2.len() == batch2 * len,
        weights.maps(ids1, batch1, len, r1),
        weights.maps(ids2, batch2, len, r2),
        0 <= i < batch1,
        0 <= j < batch2,
        ids1.subrange(i * len, i * len + len) == ids2.subrange(j * len, j * len + len),
    ensures
        same_numbers(
            regrouped(r1, seq![i], in_order(len)),
            regrouped(r2, seq![j], in_order(len)),
        ),
{
    law_embedding_regroups(weights, ids1, batch1, len, r1, seq![i], len);
    law_embedding_regroups(weights, ids2, batch2, len, r2, seq![j], len);
    let (picked1, picked2) = (
        picked_ids(ids1, len, seq![i], len),
        picked_ids(ids2, len, seq![j], len),
    );
    assert(1 * len == len);
    assert forall|k: int| 0 <= k < len implies picked1[k] == picked2[k] by {
        assert(k / (len as int) == 0 && k % (len as int) == k) by (nonlinear_arith)
            requires
                0 <= k < len,
        ;
        lemma_within(i, k, batch1 as int, len as int);
        lemma_within(j, k, batch2 as int, len as int);
        lemma_within(i, len - 1, batch1 as int, len as int);
        lemma_within(j, len - 1, batch2 as int, len as int);
        lemma_within(i, 0, batch1 as int, len as int);
        lemma_within(j, 0, batch2 as int, len as int);
        assert(ids1.subrange(i * len, i * len + len)[k] == ids1[i * len + k]);
        assert(ids2.subrange(j * len, j * len + len)[k] == ids2[j * len + k]);
    }
    assert(picked1 =~= picked2);
    law_embedding_is_determined(
        weights,
        picked1,
        1,
        len,
        regrouped(r1, seq![i], in_order(len)),
        regrouped(r2, seq![j], in_order(len)),
    );
}

/// Equal token ids are embedded in equal rows of the token table, in whatever
/// batches they stand: where `len` ids from `at1` on in one batch are those from
/// `at2` on in the other, so are the rows that are looked up for them.
pub proof fn law_equal_ids_equal_rows(
    table: Array,
    ids1: Seq<int>,
    at1: int,
    ids2: Seq<int>,
    at2: int,
    len: nat,
)
    requires
        0 <= at1,
        at1 + len <= ids1.len(),
        0 <= at2,
        at2 + len <= ids2.len(),
        ids1.subrange(at1, at1 + len) == ids2.subrange(at2, at2 + len),
    ensures
        ({
            let width = table.dims[1];
            table.rows(ids1).elems.subrange(at1 * width, (at1 + len) * width)
                == table.rows(ids2).elems.subrange(at2 * width, (at2 + len) * width)
        }),
{
    let width = table.dims[1];
    let rows1 = table.rows(ids1).elems;
    let rows2 = table.rows(ids2).elems;
    lemma_block(at1, len, width, ids1.len());
    lemma_block(at2, len, width, ids2.len());
    let block1 = rows1.subrange(at1 * width, (at1 + len) * width);
    let block2 = rows2.subrange(at2 * width, (at2 + len) * width);
    assert forall|k: int| 0 <= k < len * width implies #[trigger] block1[k] == block2[k] by {
        let (row, c) = (k / (width as int), k % (width as int));
        assert(width > 0 && 0 <= row < len) by (nonlinear_arith)
            requires
                0 <= k < len * width,
                row == k / (width as int),
        ;
        lemma_row_of(at1, k, width);
        lemma_row_of(at2, k, width);
        assert(ids1.subrange(at1, at1 + len)[row] == ids1[at1 + row]);
        assert(ids2.subrange(at2, at2 + len)[row] == ids2[at2 + row]);
        assert(block1[k] == rows1[at1 * width + k]);
        assert(block2[k] == rows2[at2 * width + k]);
    }
    assert(block1 =~= block2);
}

/// The elements of `len` rows from row `at` on, among those of `rows` rows.
proof fn lemma_block(at: int, len: nat, width: nat, rows: nat)
    requires
        0 <= at,
        at + len <= rows,
    ensures
        0 <= at * width,
        (at + len) * width == at * width + len * width,
        at * width + len * width <= rows * width,
{
    assert((at + len) * width == at * width + len * width) by (nonlinear_arith);
    assert((at + len) * width <= rows * width) by (nonlinear_arith)
        requires
            at + len <= rows,
    ;
    assert(0 <= at * width) by (nonlinear_arith)
        requires
            0 <= at,
    ;
}

/// The row and the place in it of an element, counted from row `at` on.
proof fn lemma_row_of(at: int, k: int, width: nat)
    requires
        width > 0,
    ensures
        (at * width + k) / (width as int) == at + k / (width as int),
        (at * width + k) % (width as int) == k % (width as int),
{
    vstd::arithmetic::div_mod::lemma_fundamental_div_mod(k, width as int);
    let (row, c) = (k / (width as int), k % (width as int));
    assert(at * width + k == (at + row) * width + c) by (nonlinear_arith)
        requires
            k == width * row + c,
    ;
    vstd::arithmetic::div_mod::lemma_fundamental_div_mod_converse(
        at * width + k,
        width as int,
        at + row,
        c,
    );
}

} // verus!
