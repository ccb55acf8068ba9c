//! Multi-head self-attention.
use candle_core::Tensor;
use vstd::prelude::*;

use crate::array::{allocatable, broadcasts_to, double, swap, volume};
use crate::array::{law_transposing_twice, lemma_offset_4, lemma_transposed, lemma_within};
use crate::array::{lemma_extent_2, lemma_extent_3, lemma_extent_4};
use crate::array::{lemma_volume_2, lemma_volume_3, lemma_volume_4};
use crate::array::{Array, ElemType};
use crate::error::lift;
use crate::error::ModelError;
use crate::layers::{dims0, dims3, dims4};
use crate::layers::{Linear, LinearWeights};
use crate::regroup::{
    all_in, is_permutation, lemma_affine_picked, lemma_dot_reordered, lemma_linear_rows,
    lemma_regrouped, lemma_regrouped_entry, lemma_regrouped_products, lemma_row_sources,
    lemma_softmax_regrouped, product_source, regrouped, regrouped_products, reordered, row_source,
};
use crate::tensor;
use crate::outcome::{
    double_of, entry_pairs, is_affine, is_dot, is_like, is_matmul, is_power, is_softmax, is_sum,
    powers,
};
use crate::tensor::{
    contents, is_double, is_model_type, plain, tensor_dims, tensor_dtype, tensor_elems,
};
use crate::weights::{Store, VarBuilder};

verus! {

/// The double that is this integer, without dimensions.
pub open spec fn double_integer(n: u32) -> Array {
    Array { dtype: ElemType::F64, dims: Seq::empty(), elems: seq![double_of(n as nat)] }
}

/// Whether `a` holds an outcome of `n` to the power of minus one half, whose bit
/// pattern stands below, computed in double precision.
pub open spec fn is_inverse_sqrt(n: u32, a: Array) -> bool {
    is_power(double_integer(n), double(0xbfe0_0000_0000_0000), a)
}

/// The inverse square root of `n`, as a double.
pub(crate) fn inverse_sqrt(n: u32) -> (r: Result<Tensor, ModelError>)
    ensures
        r is Ok,
        r matches Ok(t) ==> is_double(t) && is_inverse_sqrt(n, contents(t)),
{
    let ids: Vec<u32> = vec![n];
    proof {
        assert(volume(Seq::<nat>::empty()) == 1);
    }
    let whole = lift(tensor::from_vec(ids, dims0()))?;
    let wide = lift(tensor::to_double(&whole))?;
    assert(tensor_elems(whole)[0] == n);
    assert(contents(wide) =~= double_integer(n));
    let exponent = lift(tensor::from_double(0xbfe0_0000_0000_0000))?;
    let inverse = lift(tensor::powf(&wide, &exponent))?;
    assert(is_power(contents(wide), double(0xbfe0_0000_0000_0000), contents(inverse)));
    Ok(inverse)
}

/// The weights of an attention block.
pub struct AttentionWeights {
    /// The projection to queries.
    pub query: LinearWeights,
    /// The projection to keys.
    pub key: LinearWeights,
    /// The projection to values.
    pub value: LinearWeights,
    /// The projection of what the heads found.
    pub out: LinearWeights,
    /// The number of heads.
    pub heads: nat,
    /// The width of each head.
    pub head_dim: nat,
    /// The factor on the products of queries and keys.
    pub scale: Array,
}

/// The arrays on the way through an attention block.
pub struct AttentionTrace {
    /// The queries.
    pub query: Array,
    /// The keys.
    pub key: Array,
    /// The values.
    pub value: Array,
    /// The products of queries and keys.
    pub products: Array,
    /// The products, scaled.
    pub scaled: Array,
    /// The scaled products, the mask added.
    pub masked: Array,
    /// The share of each position in each other.
    pub scores: Array,
    /// The values, mixed by their shares.
    pub mixed: Array,
}

impl AttentionWeights {
    /// Whether a store has, here, an attention block of this width.
    pub open spec fn stored_in(store: Store, hidden: nat) -> bool {
        &&& LinearWeights::stored_in(store.at("q_proj"@), hidden, hidden)
        &&& LinearWeights::stored_in(store.at("k_proj"@), hidden, hidden)
        &&& LinearWeights::stored_in(store.at("v_proj"@), hidden, hidden)
        &&& LinearWeights::stored_in(store.at("out_proj"@), hidden, hidden)
    }

    /// Whether these weights are the ones that a store has here, for so many
    /// heads.
    pub open spec fn loaded_from(self, store: Store, hidden: nat, heads: nat) -> bool {
        &&& self.query.loaded_from(store.at("q_proj"@), hidden, hidden)
        &&& self.key.loaded_from(store.at("k_proj"@), hidden, hidden)
        &&& self.value.loaded_from(store.at("v_proj"@), hidden, hidden)
        &&& self.out.loaded_from(store.at("out_proj"@), hidden, hidden)
        &&& self.heads == heads
        &&& self.head_dim == hidden / heads
        &&& self.head_dim <= u32::MAX
        &&& is_inverse_sqrt(self.head_dim as u32, self.scale)
    }

    /// Whether these are the weights of a block of this width, which its heads
    /// share out.
    pub open spec fn is_sized(self, hidden: nat) -> bool {
        &&& self.query.weight.dims == seq![hidden, hidden]
        &&& self.key.weight.dims == seq![hidden, hidden]
        &&& self.value.weight.dims == seq![hidden, hidden]
        &&& self.out.weight.dims == seq![hidden, hidden]
        &&& self.heads * self.head_dim == hidden
    }

    /// Hidden states of `batch` texts of `len` positions, parted into heads: a
    /// matrix of positions by head width for each text and head.
    pub open spec fn split(self, states: Array, batch: nat, len: nat) -> Array {
        states.reshaped(seq![batch, len, self.heads, self.head_dim]).transposed(1, 2)
    }

    /// Of an array with a matrix for each text and head, an entry of the matrix of
    /// text `b` and head `h`.
    pub open spec fn per_head(self, a: Array, b: int, h: int, i: int, j: int) -> int {
        a.entry(b * self.heads + h, i, j)
    }

    /// Of an array with a matrix for each text and head, a row of the matrix of text
    /// `b` and head `h`.
    pub open spec fn head_row(self, a: Array, b: int, h: int, i: int) -> Seq<int> {
        a.row((b * self.heads + h) * a.dims[2] + i)
    }

    /// Of hidden states, element `c` of head `h` at position `i` of text `b`.
    pub open spec fn lane(self, a: Array, b: int, h: int, i: int, c: int) -> int {
        a.entry(b, i, h * self.head_dim + c)
    }

    /// The pairs whose products say how well the query of position `i` matches the
    /// key of position `j`.
    pub open spec fn match_pairs(
        self,
        query: Array,
        key: Array,
        b: int,
        h: int,
        i: int,
        j: int,
    ) -> Seq<(int, int)> {
        Seq::new(
            self.head_dim,
            |c: int| (self.lane(query, b, h, i, c), self.lane(key, b, h, j, c)),
        )
    }

    /// The pairs whose products mix the values of all positions into position `i`.
    pub open spec fn mix_pairs(
        self,
        scores: Array,
        value: Array,
        b: int,
        h: int,
        i: int,
        c: int,
    ) -> Seq<(int, int)> {
        Seq::new(
            scores.width(),
            |j: int| (self.per_head(scores, b, h, i, j), self.lane(value, b, h, j, c)),
        )
    }

    /// Whether `products` are outcomes of matching queries and keys.
    pub open spec fn matches(self, query: Array, key: Array, products: Array) -> bool {
        let (batch, len) = (query.dims[0], query.dims[1]);
        &&& products.dtype == query.dtype
        &&& products.dims == seq![batch, self.heads, len, len]
        &&& products.well_formed()
        &&& forall|b: int, h: int, i: int, j: int|
            0 <= b < batch && 0 <= h < self.heads && 0 <= i < len && 0 <= j < len ==> is_dot(
                query.dtype,
                self.match_pairs(query, key, b, h, i, j),
                #[trigger] self.per_head(products, b, h, i, j),
            )
    }

    /// Whether `mixed` are outcomes of mixing values by their scores.
    pub open spec fn mixes(self, scores: Array, value: Array, mixed: Array) -> bool {
        let (batch, len) = (value.dims[0], value.dims[1]);
        &&& is_like(value, mixed)
        &&& forall|b: int, h: int, i: int, c: int|
            0 <= b < batch && 0 <= h < self.heads && 0 <= i < len && 0 <= c < self.head_dim
                ==> is_dot(
                value.dtype,
                self.mix_pairs(scores, value, b, h, i, c),
                #[trigger] self.lane(mixed, b, h, i, c),
            )
    }

    /// Whether `trace` leads from `x` to `r`.
    pub open spec fn steps(
        self,
        x: Array,
        mask: Option<Array>,
        trace: AttentionTrace,
        r: Array,
    ) -> bool {
        &&& self.query.maps(x, trace.query)
        &&& self.key.maps(x, trace.key)
        &&& self.value.maps(x, trace.value)
        &&& self.matches(trace.query, trace.key, trace.products)
        &&& is_affine(trace.products, self.scale, double(0), trace.scaled)
        &&& match mask {
            None => trace.masked == trace.scaled,
            Some(m) => is_sum(trace.scaled, m.stretched(trace.scaled.dims), trace.masked),
        }
        &&& is_softmax(trace.masked, trace.scores)
        &&& self.mixes(trace.scores, trace.value, trace.mixed)
        &&& self.out.maps(trace.mixed, r)
    }

    /// Whether `r` is an outcome of the block on `x`, under this mask.
    pub open spec fn maps(self, x: Array, mask: Option<Array>, r: Array) -> bool {
        exists|trace: AttentionTrace| self.steps(x, mask, trace, r)
    }
}

/// The factor on the products of queries and keys is an outcome of raising the width of a
/// head, the share that each head has in the hidden size, to the power of minus one half,
/// in double precision.
pub proof fn law_scale_is_inverse_sqrt_of_head_width(
    weights: AttentionWeights,
    store: Store,
    hidden: nat,
    heads: nat,
)
    requires
        weights.loaded_from(store, hidden, heads),
    ensures
        weights.heads == heads,
        weights.head_dim == hidden / heads,
        weights.scale.dtype == ElemType::F64,
        weights.scale.dims == Seq::<nat>::empty(),
        weights.scale.elems.len() == 1,
        powers(
            ElemType::F64,
            double_of(hidden / heads),
            0xbfe0_0000_0000_0000,
            weights.scale.elems[0],
        ),
{
    assert(volume(Seq::<nat>::empty()) == 1);
    assert(powers(
        ElemType::F64,
        double_of(weights.head_dim),
        0xbfe0_0000_0000_0000,
        weights.scale.elems[0],
    ));
}

/// The factor rests on the width of a head alone: blocks whose heads are of one width have
/// factors of the same outcomes, whatever their hidden sizes and numbers of heads.
pub proof fn law_scale_rests_on_head_width(
    weights1: AttentionWeights,
    store1: Store,
    hidden1: nat,
    heads1: nat,
    weights2: AttentionWeights,
    store2: Store,
    hidden2: nat,
    heads2: nat,
)
    requires
        weights1.loaded_from(store1, hidden1, heads1),
        weights2.loaded_from(store2, hidden2, heads2),
        hidden1 / heads1 == hidden2 / heads2,
    ensures
        (AttentionWeights { scale: weights1.scale, ..weights2 }).loaded_from(
            store2,
            hidden2,
            heads2,
        ),
{
}

/// Parting hidden states into heads loses nothing: what the heads hold is joined
/// to the same hidden states again.
pub proof fn law_joining_undoes_splitting(
    weights: AttentionWeights,
    states: Array,
    batch: nat,
    len: nat,
    hidden: nat,
)
    requires
        states.well_formed(),
        states.dims == seq![batch, len, hidden],
        weights.heads * weights.head_dim == hidden,
    ensures
        weights.split(states, batch, len).transposed(1, 2).reshaped(states.dims) == states,
{
    let parted = states.reshaped(seq![batch, len, weights.heads, weights.head_dim]);
    lemma_volume_3(batch, len, hidden);
    lemma_volume_4(batch, len, weights.heads, weights.head_dim);
    let (h, d) = (weights.heads, weights.head_dim);
    assert(batch * len * h * d == batch * len * (h * d)) by (nonlinear_arith);
    law_transposing_twice(parted, 1, 2);
}

/// Unmasked attention knows no order: where texts are picked out, and their
/// positions put in another order, what comes out for them is picked out and put
/// in that order too.
pub proof fn law_attention_regroups(
    weights: AttentionWeights,
    x: Array,
    r: Array,
    texts: Seq<int>,
    positions: Seq<int>,
)
    requires
        x.dims.len() == 3,
        weights.is_sized(x.dims[2]),
        weights.maps(x, None, r),
        all_in(texts, x.dims[0]),
        is_permutation(positions),
        positions.len() == x.dims[1],
    ensures
        weights.maps(regrouped(x, texts, positions), None, regrouped(r, texts, positions)),
{
    let (batch, len, width) = (x.dims[0], x.dims[1], x.dims[2]);
    let (heads, d) = (weights.heads, weights.head_dim);
    let trace = choose|trace: AttentionTrace| weights.steps(x, None, trace, r);
    let states = seq![batch, len, width];
    assert(x.dims =~= states);
    assert(x.dims.drop_last().push(width) =~= states);
    let outer = seq![texts.len(), len];
    let from = row_source(texts, positions, len);
    lemma_row_sources(x, texts, positions, batch, len);
    lemma_row_sources(trace.mixed, texts, positions, batch, len);
    lemma_linear_rows(x, weights.query.weight, weights.query.bias, trace.query, outer, from);
    lemma_linear_rows(x, weights.key.weight, weights.key.bias, trace.key, outer, from);
    lemma_linear_rows(x, weights.value.weight, weights.value.bias, trace.value, outer, from);
    lemma_linear_rows(trace.mixed, weights.out.weight, weights.out.bias, r, outer, from);
    lemma_regrouped(trace.query, texts, positions, batch, len, width);
    lemma_regrouped(trace.key, texts, positions, batch, len, width);
    lemma_regrouped(trace.value, texts, positions, batch, len, width);
    lemma_regrouped(trace.mixed, texts, positions, batch, len, width);
    lemma_regrouped_products(trace.products, texts, positions, batch, heads, len);
    lemma_affine_picked(
        trace.products,
        weights.scale,
        double(0),
        trace.scaled,
        seq![texts.len(), heads, len, len],
        product_source(texts, positions, heads, len),
    );
    lemma_softmax_regrouped(trace.masked, trace.scores, texts, positions, batch, heads, len);
    let moved = AttentionTrace {
        query: regrouped(trace.query, texts, positions),
        key: regrouped(trace.key, texts, positions),
        value: regrouped(trace.value, texts, positions),
        products: regrouped_products(trace.products, texts, positions),
        scaled: regrouped_products(trace.scaled, texts, positions),
        masked: regrouped_products(trace.masked, texts, positions),
        scores: regrouped_products(trace.scores, texts, positions),
        mixed: regrouped(trace.mixed, texts, positions),
    };
    assert(weights.matches(moved.query, moved.key, moved.products)) by {
        assert forall|b: int, h: int, i: int, j: int|
            0 <= b < texts.len() && 0 <= h < heads && 0 <= i < len && 0 <= j < len implies is_dot(
            moved.query.dtype,
            weights.match_pairs(moved.query, moved.key, b, h, i, j),
            #[trigger] weights.per_head(moved.products, b, h, i, j),
        ) by {
            lemma_regrouped_entry(
                trace.products,
                texts,
                positions,
                batch,
                heads,
                len,
                b,
                h,
                i,
                j,
            );
            let there = weights.match_pairs(
                trace.query,
                trace.key,
                texts[b],
                h,
                positions[i],
                positions[j],
            );
            let here = weights.match_pairs(moved.query, moved.key, b, h, i, j);
            assert forall|c: int| 0 <= c < d implies here[c] == there[c] by {
                lemma_within(h, c, heads as int, d as int);
            }
            assert(here =~= there);
            assert(is_dot(
                trace.query.dtype,
                there,
                weights.per_head(trace.products, texts[b], h, positions[i], positions[j]),
            ));
        }
    }
    assert(weights.mixes(moved.scores, moved.value, moved.mixed)) by {
        assert forall|b: int, h: int, i: int, c: int|
            0 <= b < texts.len() && 0 <= h < heads && 0 <= i < len && 0 <= c < d implies is_dot(
            moved.value.dtype,
            weights.mix_pairs(moved.scores, moved.value, b, h, i, c),
            #[trigger] weights.lane(moved.mixed, b, h, i, c),
        ) by {
            lemma_within(h, c, heads as int, d as int);
            let there = weights.mix_pairs(
                trace.scores,
                trace.value,
                texts[b],
                h,
                positions[i],
                c,
            );
            let here = weights.mix_pairs(moved.scores, moved.value, b, h, i, c);
            assert forall|j: int| 0 <= j < len implies here[j] == reordered(
                there,
                positions,
            )[j] by {
                lemma_regrouped_entry(
                    trace.scores,
                    texts,
                    positions,
                    batch,
                    heads,
                    len,
                    b,
                    h,
                    i,
                    j,
                );
            }
            assert(here =~= reordered(there, positions));
            let z = weights.lane(trace.mixed, texts[b], h, positions[i], c);
            assert(is_dot(trace.value.dtype, there, z));
            lemma_dot_reordered(trace.value.dtype, there, positions, z);
        }
    }
    assert(weights.steps(
        regrouped(x, texts, positions),
        None,
        moved,
        regrouped(r, texts, positions),
    ));
}

/// An attention block.
pub(crate) struct Attention {
    q_proj: Linear,
    k_proj: Linear,
    v_proj: Linear,
    out_proj: Linear,
    num_heads: usize,
    head_dim: usize,
    scale: Tensor,
}

/// The dimensions of the products of the positions of hidden states of these
/// dimensions.
pub open spec fn square(dims: Seq<nat>, heads: nat) -> Seq<nat> {
    seq![dims[0], heads, dims[1], dims[1]]
}

/// Whether a mask, if there is one, can be stretched over the products of the
/// positions of hidden states of these dimensions.
pub open spec fn mask_fits(mask: Option<&Tensor>, dims: Seq<nat>, heads: nat) -> bool {
    match mask {
        Some(m) => broadcasts_to(tensor_dims(*m), square(dims, heads)),
        None => true,
    }
}

/// What a mask holds.
pub open spec fn mask_contents(mask: Option<&Tensor>) -> Option<Array> {
    match mask {
        Some(m) => Some(contents(*m)),
        None => None,
    }
}

/// A mask is read as it is, and is only refused where it cannot be stretched over the
/// products: read from the innermost dimension outwards, a size of it is neither 1 nor that
/// of the products, which have as many rows and columns as there are positions, for each
/// text and head.
pub proof fn law_masks_are_read_as_they_are(mask: Option<&Tensor>, dims: Seq<nat>, heads: nat)
    requires
        dims.len() == 3,
    ensures
        mask is None ==> mask_contents(mask) is None && mask_fits(mask, dims, heads),
        mask matches Some(m) ==> {
            let sizes = tensor_dims(*m);
            let over = seq![dims[0], heads, dims[1], dims[1]];
            &&& mask_contents(mask) == Some(contents(*m))
            &&& mask_fits(mask, dims, heads) <==> {
                &&& sizes.len() <= 4
                &&& forall|i: int|
                    0 <= i < sizes.len() ==> #[trigger] sizes[i] == 1 || sizes[i] == over[i + 4
                        - sizes.len()]
            }
        },
{
}

impl Attention {
    /// The weights of the block.
    pub closed spec fn weights(self) -> AttentionWeights {
        AttentionWeights {
            query: self.q_proj.weights(),
            key: self.k_proj.weights(),
            value: self.v_proj.weights(),
            out: self.out_proj.weights(),
            heads: self.num_heads as nat,
            head_dim: self.head_dim as nat,
            scale: contents(self.scale),
        }
    }

    /// A block of this width that computes with the given type.
    pub closed spec fn well_formed(self, dtype: ElemType, hidden: nat) -> bool {
        &&& is_model_type(dtype)
        &&& self.q_proj.well_formed(dtype, hidden, hidden)
        &&& self.k_proj.well_formed(dtype, hidden, hidden)
        &&& self.v_proj.well_formed(dtype, hidden, hidden)
        &&& self.out_proj.well_formed(dtype, hidden, hidden)
        &&& self.num_heads > 0
        &&& self.head_dim == hidden / self.num_heads as nat
        &&& is_double(self.scale)
    }

    /// Loads a block of this width and number of heads.  Fails exactly where the
    /// builder has no such block.
    pub(crate) fn new(vb: &VarBuilder, hidden_size: usize, num_heads: usize) -> (r: Result<
        Attention,
        ModelError,
    >)
        requires
            AttentionWeights::stored_in(vb.store(), hidden_size as nat) ==> num_heads > 0,
        ensures
            r is Ok <==> AttentionWeights::stored_in(vb.store(), hidden_size as nat),
            r matches Ok(block) ==> {
                &&& block.weights().loaded_from(vb.store(), hidden_size as nat, num_heads as nat)
                &&& block.well_formed(vb.store().precision.elem_type(), hidden_size as nat)
            },
            r matches Err(e) ==> e is Tensor,
    {
        let q_proj = Linear::new(&vb.pp("q_proj"), hidden_size, hidden_size)?;
        let k_proj = Linear::new(&vb.pp("k_proj"), hidden_size, hidden_size)?;
        let v_proj = Linear::new(&vb.pp("v_proj"), hidden_size, hidden_size)?;
        let out_proj = Linear::new(&vb.pp("out_proj"), hidden_size, hidden_size)?;
        let head_dim: usize = hidden_size / num_heads;
        proof {
            lemma_width_is_small(hidden_size, num_heads);
        }
        let scale = inverse_sqrt(head_dim as u32)?;
        Ok(Attention { q_proj, k_proj, v_proj, out_proj, num_heads, head_dim, scale })
    }

    /// Parts hidden states of `batch` texts of `len` positions into heads.
    /// Fails exactly where the heads do not share out the width.
    fn split_heads(&self, states: &Tensor, batch: usize, len: usize) -> (r: Result<
        Tensor,
        ModelError,
    >)
        requires
            self.num_heads > 0,
            contents(*states).well_formed(),
            tensor_dims(*states).len() == 3,
            tensor_dims(*states)[0] == batch,
            tensor_dims(*states)[1] == len,
            batch > 0,
            len > 0,
            self.head_dim == tensor_dims(*states)[2] / self.num_heads as nat,
            allocatable(tensor_dims(*states)),
            allocatable(
                seq![batch as nat, len as nat, self.num_heads as nat, self.head_dim as nat],
            ),
            allocatable(
                seq![batch as nat, self.num_heads as nat, len as nat, self.head_dim as nat],
            ),
        ensures
            r is Ok <==> self.num_heads * self.head_dim == tensor_dims(*states)[2],
            r matches Ok(t) ==> {
                &&& contents(t) == self.weights().split(contents(*states), batch as nat, len as nat)
                &&& tensor_dims(t) == seq![
                    batch as nat,
                    self.num_heads as nat,
                    len as nat,
                    self.head_dim as nat,
                ]
                &&& plain(t, tensor_dtype(*states))
            },
            r matches Err(e) ==> e is Tensor,
    {
        let ghost hidden = tensor_dims(*states)[2];
        let ghost apart = seq![
            batch as nat,
            len as nat,
            self.num_heads as nat,
            self.head_dim as nat,
        ];
        proof {
            lemma_split_volume(
                batch as nat,
                len as nat,
                self.num_heads as nat,
                self.head_dim as nat,
                hidden,
            );
            assert(tensor_dims(*states) =~= seq![batch as nat, len as nat, hidden]);
        }
        let parted = lift(
            tensor::reshape(states, dims4(batch, len, self.num_heads, self.head_dim)),
        )?;
        let turned = lift(tensor::transpose(&parted, 1, 2))?;
        assert(swap(apart, 1, 2) =~= seq![
            batch as nat,
            self.num_heads as nat,
            len as nat,
            self.head_dim as nat,
        ]);
        lift(tensor::contiguous(&turned))
    }

    /// Applies the block, of width `hidden`, to hidden states.  Fails exactly where
    /// they have another number of dimensions or another width, the heads do not
    /// share out the width, or there is a mask that does not fit.
    pub(crate) fn forward(
        &self,
        xs: &Tensor,
        attention_mask: Option<&Tensor>,
        Ghost(hidden): Ghost<nat>,
    ) -> (r: Result<Tensor, ModelError>)
        requires
            self.well_formed(tensor_dtype(*xs), hidden),
            hidden > 0,
            plain(*xs, tensor_dtype(*xs)),
            tensor_dims(*xs).len() == 3 ==> {
                &&& tensor_dims(*xs)[0] > 0
                &&& tensor_dims(*xs)[1] > 0
                &&& tensor_dims(*xs)[2] > 0
                &&& allocatable(seq![tensor_dims(*xs)[0], tensor_dims(*xs)[1], hidden])
                &&& allocatable(square(tensor_dims(*xs), self.weights().heads))
            },
            attention_mask matches Some(mask) ==> {
                &&& plain(*mask, tensor_dtype(*xs))
                &&& volume(tensor_dims(*mask)) > 0
            },
        ensures
            r is Ok <==> {
                &&& tensor_dims(*xs).len() == 3
                &&& tensor_dims(*xs)[2] == hidden
                &&& self.weights().heads * self.weights().head_dim == hidden
                &&& mask_fits(attention_mask, tensor_dims(*xs), self.weights().heads)
            },
            r matches Ok(ys) ==> {
                &&& plain(ys, tensor_dtype(*xs))
                &&& tensor_dims(ys) == tensor_dims(*xs)
                &&& self.weights().maps(contents(*xs), mask_contents(attention_mask), contents(ys))
            },
            r matches Err(e) ==> e is Tensor,
    {
        let (batch, len, width) = lift(tensor::dims3(xs))?;
        let ghost (b, l, w) = (batch as nat, len as nat, hidden);
        let ghost (h, d) = (self.num_heads as nat, self.head_dim as nat);
        let ghost products_dims = seq![b, h, l, l];
        proof {
            assert(tensor_dims(*xs).drop_last() =~= seq![b, l]);
            assert(seq![b, l].push(w) =~= seq![b, l, w]);
            lemma_volume_2(b, l);
            assert(b * l > 0) by (nonlinear_arith)
                requires
                    b > 0,
                    l > 0,
            ;
            assert(square(tensor_dims(*xs), h) =~= products_dims);
            lemma_split_extent(b, l, h, d, w);
        }

        let query = self.q_proj.forward(xs)?;
        let key = self.k_proj.forward(xs)?;
        let value = self.v_proj.forward(xs)?;

        let query_heads = self.split_heads(&query, batch, len)?;
        let key_heads = self.split_heads(&key, batch, len)?;
        let value_heads = self.split_heads(&value, batch, len)?;

        let key_turned = lift(tensor::transpose(&key_heads, 2, 3))?;
        assert(swap(seq![b, h, l, d], 2, 3) =~= seq![b, h, d, l]);
        assert(seq![b, h, l, d].update(3, l) =~= products_dims);
        let products = lift(tensor::matmul(&query_heads, &key_turned))?;
        let zero = lift(tensor::from_double(0))?;
        let scaled = lift(tensor::affine(&products, &self.scale, &zero))?;
        let ghost scaled_array = contents(scaled);
        let masked = match attention_mask {
            None => scaled,
            Some(mask) => {
                let stretched = lift(
                    tensor::broadcast_as(mask, dims4(batch, self.num_heads, len, len)),
                )?;
                lift(tensor::broadcast_add(&scaled, &stretched))?
            },
        };
        let scores = lift(tensor::softmax_last_dim(&masked))?;
        proof {
            lemma_split_volume(b, l, h, d, w);
            assert(b * h * l * d == b * l * h * d) by (nonlinear_arith);
        }
        assert(products_dims.update(3, d) =~= seq![b, h, l, d]);
        let mixed = lift(tensor::matmul(&scores, &value_heads))?;
        let gathered = lift(tensor::transpose(&mixed, 1, 2))?;
        assert(swap(seq![b, h, l, d], 1, 2) =~= seq![b, l, h, d]);
        let joined = lift(tensor::reshape(&gathered, dims3(batch, len, width)))?;
        let out = self.out_proj.forward(&joined)?;
        proof {
            let weights = self.weights();
            lemma_matches(
                weights,
                contents(query),
                contents(key),
                contents(products),
                b,
                l,
            );
            lemma_mixes(weights, contents(scores), contents(value), contents(mixed), b, l);
            let trace = AttentionTrace {
                query: contents(query),
                key: contents(key),
                value: contents(value),
                products: contents(products),
                scaled: scaled_array,
                masked: contents(masked),
                scores: contents(scores),
                mixed: contents(joined),
            };
            assert(weights.steps(
                contents(*xs),
                mask_contents(attention_mask),
                trace,
                contents(out),
            ));
        }
        Ok(out)
    }
}

/// An element of hidden states that were parted into heads.
proof fn lemma_split_entry(
    weights: AttentionWeights,
    states: Array,
    batch: nat,
    len: nat,
    b: int,
    h: int,
    i: int,
    c: int,
)
    requires
        states.dims == seq![batch, len, weights.heads * weights.head_dim],
        0 <= b < batch,
        0 <= h < weights.heads,
        0 <= i < len,
        0 <= c < weights.head_dim,
    ensures
        weights.split(states, batch, len).entry(b * weights.heads + h, i, c) == weights.lane(
            states,
            b,
            h,
            i,
            c,
        ),
{
    let (heads, d) = (weights.heads, weights.head_dim);
    let dims = seq![batch, len, heads, d];
    let parted = states.reshaped(dims);
    let turned = seq![batch, heads, len, d];
    assert(swap(dims, 1, 2) =~= turned);
    lemma_transposed(parted, 1, 2, seq![b, h, i, c]);
    assert(swap(seq![b, h, i, c], 1, 2) =~= seq![b, i, h, c]);
    lemma_offset_4(turned, seq![b, h, i, c]);
    lemma_offset_4(dims, seq![b, i, h, c]);
    assert(((b * len + i) * heads + h) * d + c == (b * len + i) * (heads * d) + (h * d + c))
        by (nonlinear_arith);
}

/// Multiplying the matrices of the queries and of the keys, parted into heads, is
/// matching queries and keys.
proof fn lemma_matches(
    weights: AttentionWeights,
    query: Array,
    key: Array,
    products: Array,
    batch: nat,
    len: nat,
)
    requires
        query.dims == seq![batch, len, weights.heads * weights.head_dim],
        key.dims == query.dims,
        is_matmul(
            weights.split(query, batch, len),
            weights.split(key, batch, len).transposed(2, 3),
            products,
        ),
    ensures
        weights.matches(query, key, products),
{
    let (heads, d) = (weights.heads, weights.head_dim);
    let left = weights.split(query, batch, len);
    let right = weights.split(key, batch, len);
    let turned = right.transposed(2, 3);
    let dims = seq![batch, heads, len, d];
    assert(swap(seq![batch, len, heads, d], 1, 2) =~= dims);
    assert(swap(dims, 2, 3) =~= seq![batch, heads, d, len]);
    assert(dims.update(3, len) =~= seq![batch, heads, len, len]);
    assert forall|b: int, h: int, i: int, j: int|
        0 <= b < batch && 0 <= h < heads && 0 <= i < len && 0 <= j < len implies is_dot(
        query.dtype,
        weights.match_pairs(query, key, b, h, i, j),
        #[trigger] weights.per_head(products, b, h, i, j),
    ) by {
        let p = b * heads + h;
        lemma_within(b, h, batch as int, heads as int);
        let pairs = entry_pairs(left, turned, p, i, j);
        assert forall|c: int| 0 <= c < d implies pairs[c] == weights.match_pairs(
            query,
            key,
            b,
            h,
            i,
            j,
        )[c] by {
            lemma_split_entry(weights, query, batch, len, b, h, i, c);
            lemma_split_entry(weights, key, batch, len, b, h, j, c);
            lemma_transposed(right, 2, 3, seq![b, h, c, j]);
            assert(swap(seq![b, h, c, j], 2, 3) =~= seq![b, h, j, c]);
            lemma_offset_4(seq![batch, heads, d, len], seq![b, h, c, j]);
            lemma_offset_4(dims, seq![b, h, j, c]);
        }
        assert(pairs =~= weights.match_pairs(query, key, b, h, i, j));
        assert(is_dot(query.dtype, pairs, products.entry(p, i, j)));
    }
}

/// Multiplying the matrices of the scores and of the values, parted into heads, and
/// joining the heads again is mixing the values.
proof fn lemma_mixes(
    weights: AttentionWeights,
    scores: Array,
    value: Array,
    product: Array,
    batch: nat,
    len: nat,
)
    requires
        value.dims == seq![batch, len, weights.heads * weights.head_dim],
        scores.dims == seq![batch, weights.heads, len, len],
        scores.dtype == value.dtype,
        is_matmul(scores, weights.split(value, batch, len), product),
    ensures
        weights.mixes(scores, value, product.transposed(1, 2).reshaped(value.dims)),
{
    let (heads, d) = (weights.heads, weights.head_dim);
    let right = weights.split(value, batch, len);
    let dims = seq![batch, heads, len, d];
    let joined_dims = seq![batch, len, heads, d];
    assert(swap(joined_dims, 1, 2) =~= dims);
    assert(swap(dims, 1, 2) =~= joined_dims);
    assert(scores.dims.update(3, d) =~= dims);
    let joined = product.transposed(1, 2).reshaped(value.dims);
    lemma_volume_3(batch, len, heads * d);
    lemma_volume_4(batch, len, heads, d);
    assert(batch * len * heads * d == batch * len * (heads * d)) by (nonlinear_arith);
    assert forall|b: int, h: int, i: int, c: int|
        0 <= b < batch && 0 <= h < heads && 0 <= i < len && 0 <= c < d implies is_dot(
        value.dtype,
        weights.mix_pairs(scores, value, b, h, i, c),
        #[trigger] weights.lane(joined, b, h, i, c),
    ) by {
        let p = b * heads + h;
        lemma_within(b, h, batch as int, heads as int);
        let pairs = entry_pairs(scores, right, p, i, c);
        assert forall|j: int| 0 <= j < len implies pairs[j] == weights.mix_pairs(
            scores,
            value,
            b,
            h,
            i,
            c,
        )[j] by {
            lemma_split_entry(weights, value, batch, len, b, h, j, c);
        }
        assert(pairs =~= weights.mix_pairs(scores, value, b, h, i, c));
        lemma_transposed(product, 1, 2, seq![b, i, h, c]);
        assert(swap(seq![b, i, h, c], 1, 2) =~= seq![b, h, i, c]);
        lemma_offset_4(joined_dims, seq![b, i, h, c]);
        lemma_offset_4(dims, seq![b, h, i, c]);
        assert(((b * len + i) * heads + h) * d + c == (b * len + i) * (heads * d) + (h * d + c))
            by (nonlinear_arith);
        assert(is_dot(value.dtype, pairs, product.entry(p, i, c)));
    }
}

/// A width whose square matrix is in memory, shared out among heads, fits in 32
/// bits.
proof fn lemma_width_is_small(hidden: usize, heads: usize)
    requires
        allocatable(seq![hidden as nat, hidden as nat]),
        heads > 0,
    ensures
        hidden / heads <= u32::MAX,
{
    lemma_extent_2(hidden as nat, hidden as nat);
    if hidden > 0 {
        assert(hidden <= u32::MAX) by (nonlinear_arith)
            requires
                hidden * hidden * 8 <= isize::MAX,
                isize::MAX <= 0x7fff_ffff_ffff_ffff,
        ;
    }
    assert(hidden / heads <= hidden) by (nonlinear_arith)
        requires
            heads > 0,
    ;
}

/// Hidden states that are parted into heads can be allocated, where the hidden
/// states and the products of their positions can.
proof fn lemma_split_extent(batch: nat, len: nat, heads: nat, head_dim: nat, hidden: nat)
    requires
        batch > 0,
        len > 0,
        heads > 0,
        head_dim == hidden / heads,
        allocatable(seq![batch, len, hidden]),
        allocatable(seq![batch, heads, len, len]),
    ensures
        allocatable(seq![batch, len, heads, head_dim]),
        allocatable(seq![batch, heads, len, head_dim]),
{
    lemma_extent_3(batch, len, hidden);
    lemma_extent_4(batch, heads, len, len);
    lemma_extent_4(batch, len, heads, head_dim);
    lemma_extent_4(batch, heads, len, head_dim);
    if head_dim > 0 {
        lemma_split_volume(batch, len, heads, head_dim, hidden);
        assert(hidden > 0) by (nonlinear_arith)
            requires
                head_dim == hidden / heads,
                head_dim > 0,
                heads > 0,
        ;
        assert(batch * heads * len * head_dim == batch * len * heads * head_dim)
            by (nonlinear_arith);
    } else {
        assert(batch * len * heads * 1 <= batch * heads * len * len) by (nonlinear_arith)
            requires
                len > 0,
        ;
        assert(batch * heads * len * 1 == batch * len * heads * 1) by (nonlinear_arith);
    }
}

/// The volume of hidden states parted into heads: no more than before, and as
/// much exactly where the heads share out the width.
proof fn lemma_split_volume(batch: nat, len: nat, heads: nat, head_dim: nat, hidden: nat)
    requires
        batch > 0,
        len > 0,
        heads > 0,
        head_dim == hidden / heads,
    ensures
        volume(seq![batch, len, hidden]) == batch * len * hidden,
        volume(seq![batch, len, heads, head_dim]) == batch * len * heads * head_dim,
        batch * len * heads * head_dim <= batch * len * hidden,
        batch * len * heads * head_dim == batch * len * hidden <==> heads * head_dim == hidden,
{
    lemma_volume_3(batch, len, hidden);
    lemma_volume_4(batch, len, heads, head_dim);
    let rows = batch * len;
    let shared = heads * head_dim;
    assert(shared <= hidden) by (nonlinear_arith)
        requires
            shared == heads * (hidden / heads),
            heads > 0,
    ;
    assert(rows > 0) by (nonlinear_arith)
        requires
            rows == batch * len,
            batch > 0,
            len > 0,
    ;
    assert(rows * heads * head_dim == rows * shared) by (nonlinear_arith)
        requires
            shared == heads * head_dim,
    ;
    assert(rows * shared <= rows * hidden) by (nonlinear_arith)
        requires
            shared <= hidden,
    ;
    if shared < hidden {
        assert(rows * shared < rows * hidden) by (nonlinear_arith)
            requires
                shared < hidden,
                rows > 0,
        ;
    }
}

} // verus!
