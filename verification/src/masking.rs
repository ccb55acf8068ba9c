//! What masks do.
//!
//! A mask of zeros is no mask.  A position that a mask puts at minus infinity, as a
//! key, has no influence on the other positions of its text; and no text has any on
//! another.
use vstd::prelude::*;

use crate::array::{broadcasts_to, double, lemma_parts, lemma_source_same};
use crate::array::{lemma_source_within, lemma_volume_2, lemma_volume_3, lemma_volume_4};
use crate::array::{lemma_within, volume, Array, ElemType};
use crate::attention::{AttentionTrace, AttentionWeights};
use crate::config::SiglipTextConfig;
use crate::encoder::{lemma_mlp_dims, lemma_states_dims};
use crate::encoder::{EncoderWeights, LayerTrace, LayerWeights};
use crate::mlp::law_mlp_works_on_rows;
use crate::outcome::{all_finite, counted, is_added, is_dot, is_finite, is_minus_infinity, is_share};
use crate::outcome::{is_masked_row, is_softmax, is_softmax_row, is_sum, is_zero, matters};
use crate::outcome::{normalises, is_projected, relevant, is_scaled, total, unsigned_zero};

verus! {

/// A mask of zeros is no mask, where the products of queries and keys are finite.
pub proof fn law_zero_mask_is_no_mask(
    weights: AttentionWeights,
    x: Array,
    mask: Array,
    trace: AttentionTrace,
    r: Array,
)
    requires
        mask.well_formed(),
        broadcasts_to(mask.dims, trace.scaled.dims),
        forall|k: int| 0 <= k < mask.elems.len() ==> is_zero(x.dtype, #[trigger] mask.elems[k]),
        all_finite(trace.scaled),
    ensures
        weights.steps(x, None, trace, r) ==> weights.maps(x, Some(mask), r),
        weights.steps(x, Some(mask), trace, r) ==> weights.maps(x, None, r),
{
    let scaled = trace.scaled;
    let wide = mask.stretched(scaled.dims);
    assert forall|k: int| 0 <= k < volume(scaled.dims) implies is_zero(
        x.dtype,
        #[trigger] wide.stretched(scaled.dims).elems[k],
    ) by {
        lemma_source_same(scaled.dims, k);
        lemma_source_within(mask.dims, scaled.dims, k);
    }
    if weights.steps(x, None, trace, r) {
        let masked = Array {
            elems: Seq::new(
                scaled.elems.len(),
                |k: int|
                    total(x.dtype, scaled.elems[k], wide.stretched(scaled.dims).elems[k]),
            ),
            ..scaled
        };
        assert(is_sum(scaled, wide, masked));
        assert forall|k: int| 0 <= k < masked.elems.len() implies is_finite(
            x.dtype,
            #[trigger] masked.elems[k],
        ) && unsigned_zero(x.dtype, masked.elems[k]) == unsigned_zero(
            x.dtype,
            scaled.elems[k],
        ) by {
            assert(is_finite(x.dtype, scaled.elems[k]));
        }
        lemma_softmax_ignores_zero_signs(scaled, masked, trace.scores);
        let under_mask = AttentionTrace { masked, ..trace };
        assert(weights.steps(x, Some(mask), under_mask, r));
    }
    if weights.steps(x, Some(mask), trace, r) {
        let masked = trace.masked;
        assert forall|k: int| 0 <= k < scaled.elems.len() implies unsigned_zero(
            x.dtype,
            #[trigger] masked.elems[k],
        ) == unsigned_zero(x.dtype, scaled.elems[k]) by {
            assert(is_finite(x.dtype, scaled.elems[k]));
        }
        lemma_softmax_ignores_zero_signs(masked, scaled, trace.scores);
        let unmasked = AttentionTrace { masked: scaled, ..trace };
        assert(weights.steps(x, None, unmasked, r));
    }
}

/// The softmax of finite elements does not rest on the signs of zeros.
proof fn lemma_softmax_ignores_zero_signs(a: Array, b: Array, r: Array)
    requires
        is_softmax(a, r),
        a.well_formed(),
        a.dims.len() > 0,
        b.dims == a.dims,
        b.dtype == a.dtype,
        b.well_formed(),
        all_finite(b),
        forall|k: int|
            0 <= k < a.elems.len() ==> unsigned_zero(a.dtype, #[trigger] a.elems[k])
                == unsigned_zero(a.dtype, b.elems[k]),
    ensures
        is_softmax(b, r),
{
    let dtype = a.dtype;
    let w = a.width() as int;
    assert forall|i: int| 0 <= i < b.height() implies is_softmax_row(
        dtype,
        b.row(i),
        #[trigger] r.row(i),
    ) by {
        let clean = |e: int| unsigned_zero(dtype, e);
        assert forall|j: int| 0 <= j < w implies a.row(i).map_values(clean)[j] == b.row(
            i,
        ).map_values(clean)[j] && is_finite(dtype, b.row(i)[j]) && !is_minus_infinity(
            dtype,
            a.row(i)[j],
        ) by {
            lemma_within(i, j, a.height() as int, w);
            let k = i * w + j;
            assert(unsigned_zero(dtype, a.elems[k]) == unsigned_zero(dtype, b.elems[k]));
            assert(is_finite(dtype, b.elems[k]));
        }
        assert(a.row(i).map_values(clean) =~= b.row(i).map_values(clean));
        assert(counted(dtype, a.row(i)) == counted(dtype, b.row(i)));
        assert(is_softmax_row(dtype, a.row(i), r.row(i)));
        assert forall|j: int| 0 <= j < b.row(i).len() implies is_share(
            dtype,
            b.row(i)[j],
            b.row(i),
            #[trigger] r.row(i)[j],
        ) by {
            assert(is_share(dtype, a.row(i)[j], a.row(i), r.row(i)[j]));
            lemma_within(i, j, a.height() as int, w);
            assert(is_finite(dtype, b.elems[i * w + j]));
            assert(a.row(i).map_values(clean)[j] == b.row(i).map_values(clean)[j]);
        }
    }
}

/// Pairs that cannot change a sum can be exchanged for others that cannot.
proof fn lemma_irrelevant_pair(
    dtype: ElemType,
    pairs: Seq<(int, int)>,
    other: Seq<(int, int)>,
    j: int,
)
    requires
        pairs.len() == other.len(),
        0 <= j < pairs.len(),
        forall|k: int| 0 <= k < pairs.len() && k != j ==> #[trigger] pairs[k] == other[k],
        !matters(dtype, pairs[j]),
        !matters(dtype, other[j]),
    ensures
        relevant(dtype, pairs) == relevant(dtype, other),
{
    assert(pairs.remove(j) =~= other.remove(j));
    vstd::seq_lib::to_multiset_remove(pairs, j);
    vstd::seq_lib::to_multiset_remove(other, j);
    let (m, n) = (relevant(dtype, pairs), relevant(dtype, other));
    let rest = pairs.remove(j).to_multiset();
    assert forall|v: (int, int)| m.count(v) == n.count(v) by {
        if matters(dtype, v) {
            assert(pairs.to_multiset().count(v) == rest.count(v));
            assert(other.to_multiset().count(v) == rest.count(v));
        }
    }
    assert(m =~= n);
}

/// Whether position `i` of a text of `len` positions is one to look at: any but `hide`.
pub open spec fn is_seen(i: int, len: nat, hide: int) -> bool {
    0 <= i < len && i != hide
}

/// Whether a layer is an outcome of a linear layer at the positions of text `t` that
/// are looked at.
pub open spec fn projects_seen(
    x: Array,
    weight: Array,
    bias: Array,
    r: Array,
    t: int,
    hide: int,
) -> bool {
    let len = x.dims[1];
    forall|i: int|
        #[trigger] is_seen(i, len, hide) ==> is_projected(
            x.dtype,
            x.row(t * len + i),
            weight.elems,
            bias.elems,
            r.row(t * len + i),
        )
}

/// Whether `trace` leads from the query of position `i` and the key of position `j` of
/// text `t` to their masked product.
pub open spec fn steps_at(
    weights: AttentionWeights,
    dtype: ElemType,
    wide: Array,
    trace: AttentionTrace,
    t: int,
    h: int,
    i: int,
    j: int,
) -> bool {
    &&& is_dot(
        dtype,
        weights.match_pairs(trace.query, trace.key, t, h, i, j),
        weights.per_head(trace.products, t, h, i, j),
    )
    &&& is_scaled(
        dtype,
        weights.per_head(trace.products, t, h, i, j),
        weights.scale.elems[0],
        double(0).elems[0],
        weights.per_head(trace.scaled, t, h, i, j),
    )
    &&& is_added(
        dtype,
        weights.per_head(trace.scaled, t, h, i, j),
        weights.per_head(wide, t, h, i, j),
        weights.per_head(trace.masked, t, h, i, j),
    )
}

/// Whether `trace` leads from the positions of text `t` that are looked at, all but
/// `hide`, to what comes out for them.  Nothing is read of `x` at position `hide`, nor of
/// any other text: the value at `hide` is zero, and its share is that of minus infinity.
pub open spec fn steps_around(
    weights: AttentionWeights,
    x: Array,
    mask: Array,
    trace: AttentionTrace,
    r: Array,
    t: int,
    hide: int,
) -> bool {
    let (len, heads, dtype) = (x.dims[1], weights.heads, x.dtype);
    let wide = mask.stretched(seq![x.dims[0], heads, len, len]);
    &&& projects_seen(x, weights.query.weight, weights.query.bias, trace.query, t, hide)
    &&& projects_seen(x, weights.key.weight, weights.key.bias, trace.key, t, hide)
    &&& projects_seen(x, weights.value.weight, weights.value.bias, trace.value, t, hide)
    &&& forall|h: int, c: int|
        0 <= hide < len && 0 <= h < heads && 0 <= c < weights.head_dim
            ==> #[trigger] weights.lane(trace.value, t, h, hide, c) == 0
    &&& forall|h: int, i: int, j: int|
        0 <= h < heads && is_seen(i, len, hide) && is_seen(j, len, hide) ==> #[trigger] steps_at(
            weights,
            dtype,
            wide,
            trace,
            t,
            h,
            i,
            j,
        )
    &&& forall|h: int, i: int|
        #![trigger weights.per_head(trace.masked, t, h, i, hide)]
        0 <= h < heads && is_seen(i, len, hide) && 0 <= hide < len ==> is_minus_infinity(
            dtype,
            weights.per_head(trace.masked, t, h, i, hide),
        )
    &&& forall|h: int, i: int|
        0 <= h < heads && is_seen(i, len, hide) ==> is_softmax_row(
            dtype,
            weights.head_row(trace.masked, t, h, i),
            #[trigger] weights.head_row(trace.scores, t, h, i),
        )
    &&& forall|h: int, i: int, c: int|
        #![trigger weights.lane(trace.mixed, t, h, i, c)]
        0 <= h < heads && is_seen(i, len, hide) && 0 <= c < weights.head_dim ==> is_dot(
            dtype,
            weights.mix_pairs(trace.scores, trace.value, t, h, i, c),
            weights.lane(trace.mixed, t, h, i, c),
        )
    &&& projects_seen(trace.mixed, weights.out.weight, weights.out.bias, r, t, hide)
}

/// Whether what comes out for text `t`, at the positions that are looked at, is an
/// outcome of attention on these positions alone.
pub open spec fn attends_around(
    weights: AttentionWeights,
    x: Array,
    mask: Array,
    r: Array,
    t: int,
    hide: int,
) -> bool {
    exists|trace: AttentionTrace| steps_around(weights, x, mask, trace, r, t, hide)
}

/// Whether `y` holds what `x` holds at the positions of text `t` that are looked at.
pub open spec fn agree_around(x: Array, y: Array, t: int, hide: int) -> bool {
    &&& y.dtype == x.dtype
    &&& y.dims == x.dims
    &&& forall|i: int|
        #[trigger] is_seen(i, x.dims[1], hide) ==> y.row(t * x.dims[1] + i) == x.row(
            t * x.dims[1] + i,
        )
}

/// Whether a mask hides position `hide` of text `t`, as a key, from all others: it is
/// minus infinity there, for every head.
pub open spec fn hides(
    mask: Array,
    batch: nat,
    heads: nat,
    len: nat,
    t: int,
    hide: int,
) -> bool {
    let wide = mask.stretched(seq![batch, heads, len, len]);
    forall|p: int, i: int|
        t * heads <= p < t * heads + heads && 0 <= i < len ==> is_minus_infinity(
            mask.dtype,
            #[trigger] wide.entry(p, i, hide),
        )
}

/// Whether what attention computes for text `t` stays finite, but for the key at
/// `hide`, which the mask puts at minus infinity: its value, its products before the
/// mask, and all other products behind it, of which there are some.
pub open spec fn stays_finite(
    weights: AttentionWeights,
    trace: AttentionTrace,
    t: int,
    hide: int,
) -> bool {
    let (dtype, len) = (trace.value.dtype, trace.value.dims[1]);
    &&& exists|j: int| #[trigger] is_seen(j, len, hide)
    &&& forall|h: int, c: int|
        0 <= h < weights.heads && 0 <= c < weights.head_dim ==> is_finite(
            dtype,
            #[trigger] weights.lane(trace.value, t, h, hide, c),
        )
    &&& forall|h: int, i: int|
        0 <= h < weights.heads && 0 <= i < len ==> is_finite(
            dtype,
            #[trigger] weights.per_head(trace.scaled, t, h, i, hide),
        )
    &&& forall|h: int, i: int, j: int|
        0 <= h < weights.heads && 0 <= i < len && is_seen(j, len, hide) ==> is_finite(
            dtype,
            #[trigger] weights.per_head(trace.masked, t, h, i, j),
        )
}

/// A trace with the value at one position of one text blanked out.
spec fn blanked(value: Array, t: int, hide: int) -> Array {
    let (len, width) = (value.dims[1] as int, value.dims[2] as int);
    Array {
        elems: Seq::new(
            value.elems.len(),
            |k: int|
                if k / width == t * len + hide {
                    0
                } else {
                    value.elems[k]
                },
        ),
        ..value
    }
}

/// A position that is masked as a key has no influence on the other positions of its
/// text: what comes out for them is an outcome of these alone, so that it is one of
/// any `y` that holds the same there.  With no position hidden, what comes out for a
/// text is an outcome of that text alone, under its mask.
pub proof fn law_masked_key_has_no_influence(
    weights: AttentionWeights,
    x: Array,
    y: Array,
    mask: Array,
    trace: AttentionTrace,
    r: Array,
    t: int,
    hide: int,
)
    requires
        x.dims.len() == 3,
        weights.is_sized(x.dims[2]),
        mask.dtype == x.dtype,
        weights.steps(x, Some(mask), trace, r),
        0 <= t < x.dims[0],
        -1 <= hide < x.dims[1],
        hide >= 0 ==> hides(mask, x.dims[0], weights.heads, x.dims[1], t, hide),
        hide >= 0 ==> stays_finite(weights, trace, t, hide),
        agree_around(x, y, t, hide),
    ensures
        attends_around(weights, y, mask, r, t, hide),
{
    let (batch, len, width) = (x.dims[0], x.dims[1], x.dims[2]);
    let (heads, d, dtype) = (weights.heads, weights.head_dim, x.dtype);
    assert(x.dims.drop_last() =~= seq![batch, len]);
    lemma_volume_2(batch, len);
    lemma_volume_3(batch, len, width);
    lemma_volume_3(batch, heads, len);
    lemma_volume_4(batch, heads, len, len);
    assert(seq![batch, heads, len, len].drop_last() =~= seq![batch, heads, len]);
    assert(seq![batch, len].push(width) =~= x.dims);
    assert(trace.value.dims =~= seq![batch, len, width]);
    let blank = AttentionTrace { value: blanked(trace.value, t, hide), ..trace };
    let wide = mask.stretched(seq![batch, heads, len, len]);
    assert forall|i: int| #[trigger] is_seen(i, len, hide) implies {
        &&& is_projected(
            y.dtype,
            y.row(t * len + i),
            weights.query.weight.elems,
            weights.query.bias.elems,
            blank.query.row(t * len + i),
        )
        &&& is_projected(
            y.dtype,
            y.row(t * len + i),
            weights.key.weight.elems,
            weights.key.bias.elems,
            blank.key.row(t * len + i),
        )
        &&& is_projected(
            y.dtype,
            y.row(t * len + i),
            weights.value.weight.elems,
            weights.value.bias.elems,
            blank.value.row(t * len + i),
        )
        &&& is_projected(
            blank.mixed.dtype,
            blank.mixed.row(t * len + i),
            weights.out.weight.elems,
            weights.out.bias.elems,
            r.row(t * len + i),
        )
    } by {
        lemma_within(t, i, batch as int, len as int);
        lemma_blanked(trace.value, batch, len, width, t, hide, i);
        assert(trace.mixed.dims.drop_last() =~= seq![batch, len]);
        let k = t * len + i;
        assert(is_projected(
            x.dtype,
            x.row(k),
            weights.query.weight.elems,
            weights.query.bias.elems,
            trace.query.row(k),
        ));
        assert(is_projected(
            x.dtype,
            x.row(k),
            weights.key.weight.elems,
            weights.key.bias.elems,
            trace.key.row(k),
        ));
        assert(is_projected(
            x.dtype,
            x.row(k),
            weights.value.weight.elems,
            weights.value.bias.elems,
            trace.value.row(k),
        ));
        assert(is_projected(
            trace.mixed.dtype,
            trace.mixed.row(k),
            weights.out.weight.elems,
            weights.out.bias.elems,
            r.row(k),
        ));
    }
    assert forall|h: int, c: int|
        0 <= hide < len && 0 <= h < heads && 0 <= c < d implies #[trigger] weights.lane(
        blank.value,
        t,
        h,
        hide,
        c,
    ) == 0 by {
        lemma_within(h, c, heads as int, d as int);
        lemma_within(t, hide, batch as int, len as int);
        lemma_within(t * len + hide, h * d + c, (batch * len) as int, width as int);
        lemma_parts(t * len + hide, h * d + c, width as int);
    }
    assert forall|h: int, i: int, j: int|
        0 <= h < heads && 0 <= i < len && 0 <= j < len implies #[trigger] steps_at(
        weights,
        dtype,
        wide,
        blank,
        t,
        h,
        i,
        j,
    ) by {
        let p = t * heads + h;
        lemma_within(t, h, batch as int, heads as int);
        lemma_within(p, i, (batch * heads) as int, len as int);
        lemma_within(p * len + i, j, (batch * heads * len) as int, len as int);
        let k = (p * len + i) * len + j;
        lemma_source_same(seq![batch, heads, len, len], k);
        assert(weights.per_head(trace.products, t, h, i, j) == trace.products.elems[k]);
        assert(weights.per_head(trace.scaled, t, h, i, j) == trace.scaled.elems[k]);
        assert(weights.per_head(trace.masked, t, h, i, j) == trace.masked.elems[k]);
    }
    assert forall|h: int, i: int|
        #![trigger weights.per_head(blank.masked, t, h, i, hide)]
        0 <= h < heads && is_seen(i, len, hide) && 0 <= hide < len implies is_minus_infinity(
        dtype,
        weights.per_head(blank.masked, t, h, i, hide),
    ) by {
        assert(is_minus_infinity(mask.dtype, wide.entry(t * heads + h, i, hide)));
        assert(steps_at(weights, dtype, wide, blank, t, h, i, hide));
        assert(is_finite(dtype, weights.per_head(trace.scaled, t, h, i, hide)));
        lemma_minus_infinity_is_no_zero(dtype, wide.entry(t * heads + h, i, hide));
    }
    assert forall|h: int, i: int| 0 <= h < heads && is_seen(i, len, hide) implies is_softmax_row(
        dtype,
        weights.head_row(blank.masked, t, h, i),
        #[trigger] weights.head_row(blank.scores, t, h, i),
    ) by {
        lemma_within(t, h, batch as int, heads as int);
        lemma_within(t * heads + h, i, (batch * heads) as int, len as int);
        let k = (t * heads + h) * len + i;
        assert(is_softmax_row(dtype, trace.masked.row(k), trace.scores.row(k)));
    }
    assert forall|h: int, i: int, c: int|
        #![trigger weights.lane(blank.mixed, t, h, i, c)]
        0 <= h < heads && is_seen(i, len, hide) && 0 <= c < d implies is_dot(
        dtype,
        weights.mix_pairs(blank.scores, blank.value, t, h, i, c),
        weights.lane(blank.mixed, t, h, i, c),
    ) by {
        lemma_within(h, c, heads as int, d as int);
        let there = weights.mix_pairs(trace.scores, trace.value, t, h, i, c);
        let here = weights.mix_pairs(blank.scores, blank.value, t, h, i, c);
        assert(is_dot(dtype, there, weights.lane(trace.mixed, t, h, i, c)));
        assert forall|j: int| 0 <= j < len && j != hide implies #[trigger] there[j]
            == here[j] by {
            lemma_blanked(trace.value, batch, len, width, t, hide, j);
            assert(blank.value.row(t * len + j)[h * d + c] == trace.value.row(t * len + j)[h * d
                + c]);
        }
        if hide >= 0 {
            let row = weights.head_row(trace.masked, t, h, i);
            lemma_row_of_head(weights, trace.masked, batch, len, t, h, i);
            lemma_row_of_head(weights, trace.scores, batch, len, t, h, i);
            assert(is_masked_row(dtype, row)) by {
                assert forall|j: int| 0 <= j < row.len() implies is_finite(
                    dtype,
                    #[trigger] row[j],
                ) || is_minus_infinity(dtype, row[j]) by {
                    assert(row[j] == weights.per_head(trace.masked, t, h, i, j));
                    if j != hide {
                        assert(is_seen(j, len, hide));
                    }
                }
                let j = choose|j: int| #[trigger] is_seen(j, len, hide);
                assert(row[j] == weights.per_head(trace.masked, t, h, i, j));
                assert(is_finite(dtype, row[j]));
            }
            assert(is_softmax_row(dtype, row, weights.head_row(trace.scores, t, h, i)));
            assert(row[hide] == weights.per_head(trace.masked, t, h, i, hide));
            assert(weights.head_row(trace.scores, t, h, i)[hide] == weights.per_head(
                trace.scores,
                t,
                h,
                i,
                hide,
            ));
            assert(is_share(
                dtype,
                row[hide],
                row,
                weights.head_row(trace.scores, t, h, i)[hide],
            ));
            assert(there[hide].0 == 0);
            assert(is_finite(dtype, weights.lane(trace.value, t, h, hide, c)));
            assert(is_zero(dtype, 0) && is_finite(dtype, 0));
            lemma_irrelevant_pair(dtype, there, here, hide);
        } else {
            assert(there =~= here);
        }
    }
    assert(projects_seen(y, weights.query.weight, weights.query.bias, blank.query, t, hide));
    assert(projects_seen(y, weights.key.weight, weights.key.bias, blank.key, t, hide));
    assert(projects_seen(y, weights.value.weight, weights.value.bias, blank.value, t, hide));
    assert(projects_seen(blank.mixed, weights.out.weight, weights.out.bias, r, t, hide));
    assert(steps_around(weights, y, mask, blank, r, t, hide));
}

/// Minus infinity is no zero.
proof fn lemma_minus_infinity_is_no_zero(dtype: ElemType, x: int)
    requires
        is_minus_infinity(dtype, x),
    ensures
        !is_zero(dtype, x),
{
}

/// A row of the matrix of a text and head, entry by entry.
proof fn lemma_row_of_head(
    weights: AttentionWeights,
    a: Array,
    batch: nat,
    len: nat,
    t: int,
    h: int,
    i: int,
)
    requires
        a.dims == seq![batch, weights.heads, len, len],
    ensures
        weights.head_row(a, t, h, i).len() == len,
        forall|j: int|
            0 <= j < len ==> #[trigger] weights.head_row(a, t, h, i)[j] == weights.per_head(
                a,
                t,
                h,
                i,
                j,
            ),
{
}

/// Blanking one row out leaves the others of its text.
proof fn lemma_blanked(
    value: Array,
    batch: nat,
    len: nat,
    width: nat,
    t: int,
    hide: int,
    i: int,
)
    requires
        value.dims == seq![batch, len, width],
        value.well_formed(),
        0 <= t < batch,
        0 <= i < len,
        i != hide,
    ensures
        blanked(value, t, hide).row(t * len + i) == value.row(t * len + i),
{
    let blank = blanked(value, t, hide);
    let w = width as int;
    lemma_within(t, i, batch as int, len as int);
    lemma_volume_3(batch, len, width);
    let k = t * len + i;
    let (row, same) = (blank.row(k), value.row(k));
    assert forall|c: int| 0 <= c < w implies row[c] == same[c] by {
        lemma_parts(k, c, w);
        lemma_within(k, c, (batch * len) as int, w);
    }
    assert(row =~= same);
}

/// Whether `z` are outcomes of adding the elements of two rows.
pub open spec fn adds_rows(dtype: ElemType, x: Seq<int>, y: Seq<int>, z: Seq<int>) -> bool {
    forall|c: int| 0 <= c < z.len() ==> is_added(dtype, x[c], y[c], #[trigger] z[c])
}

/// One row of an array, by itself.
pub open spec fn one_row(a: Array, k: int) -> Array {
    a.with_rows(seq![1nat, 1nat], |i: int| k)
}

/// Whether `trace` leads through a layer at one row, attention apart.
pub open spec fn layer_steps_at(
    weights: LayerWeights,
    x: Array,
    trace: LayerTrace,
    r: Array,
    k: int,
) -> bool {
    let (dtype, norm1, norm2) = (x.dtype, weights.norm1, weights.norm2);
    &&& normalises(
        dtype,
        x.row(k),
        norm1.weight.elems,
        norm1.bias.elems,
        double(norm1.eps).elems[0],
        trace.normed1.row(k),
    )
    &&& adds_rows(dtype, x.row(k), trace.attended.row(k), trace.middle.row(k))
    &&& normalises(
        dtype,
        trace.middle.row(k),
        norm2.weight.elems,
        norm2.bias.elems,
        double(norm2.eps).elems[0],
        trace.normed2.row(k),
    )
    &&& weights.mlp.maps(one_row(trace.normed2, k), one_row(trace.fed, k))
    &&& adds_rows(dtype, trace.fed.row(k), trace.middle.row(k), r.row(k))
}

/// Whether `trace` leads through a layer at the positions of text `t` that are looked
/// at, reading these alone.
pub open spec fn layer_steps_around(
    weights: LayerWeights,
    x: Array,
    mask: Array,
    trace: LayerTrace,
    r: Array,
    t: int,
    hide: int,
) -> bool {
    let len = x.dims[1];
    &&& trace.normed1.dtype == x.dtype
    &&& trace.normed1.dims == x.dims
    &&& attends_around(weights.attention, trace.normed1, mask, trace.attended, t, hide)
    &&& forall|i: int|
        #[trigger] is_seen(i, len, hide) ==> layer_steps_at(weights, x, trace, r, t * len + i)
}

/// Whether what comes out for text `t`, at the positions that are looked at, is an
/// outcome of a layer on these positions alone.
pub open spec fn layer_around(
    weights: LayerWeights,
    x: Array,
    mask: Array,
    r: Array,
    t: int,
    hide: int,
) -> bool {
    exists|trace: LayerTrace| layer_steps_around(weights, x, mask, trace, r, t, hide)
}

/// Whether a mask hides a position of a text from a layer, in a run through it that
/// stays finite but for that.
pub open spec fn layer_hides(
    weights: LayerWeights,
    x: Array,
    mask: Array,
    trace: LayerTrace,
    attention: AttentionTrace,
    r: Array,
    t: int,
    hide: int,
) -> bool {
    &&& weights.steps(x, Some(mask), trace, r)
    &&& weights.attention.steps(trace.normed1, Some(mask), attention, trace.attended)
    &&& hide >= 0 ==> {
        &&& hides(mask, x.dims[0], weights.attention.heads, x.dims[1], t, hide)
        &&& stays_finite(weights.attention, attention, t, hide)
    }
}

/// Whether `r` comes of a run through a layer in which a mask hides a position, and
/// which stays finite but for that.
pub open spec fn can_hide(
    weights: LayerWeights,
    x: Array,
    mask: Array,
    r: Array,
    t: int,
    hide: int,
) -> bool {
    exists|trace: LayerTrace, attention: AttentionTrace|
        layer_hides(weights, x, mask, trace, attention, r, t, hide)
}

/// A position that is masked as a key has no influence on the other positions of its
/// text in a layer.
pub proof fn law_masked_key_in_a_layer(
    weights: LayerWeights,
    config: SiglipTextConfig,
    x: Array,
    y: Array,
    mask: Array,
    trace: LayerTrace,
    attention: AttentionTrace,
    r: Array,
    t: int,
    hide: int,
)
    requires
        weights.is_sized(config),
        x.dims.len() == 3,
        x.dims[2] == config.hidden_size,
        x.well_formed(),
        mask.dtype == x.dtype,
        0 <= t < x.dims[0],
        -1 <= hide < x.dims[1],
        layer_hides(weights, x, mask, trace, attention, r, t, hide),
        agree_around(x, y, t, hide),
    ensures
        layer_around(weights, y, mask, r, t, hide),
{
    let (batch, len, width) = (x.dims[0], x.dims[1], x.dims[2]);
    let w = width as int;
    assert(x.dims.drop_last() =~= seq![batch, len]);
    assert(x.dims.drop_last().push(width) =~= x.dims);
    lemma_volume_2(batch, len);
    lemma_volume_2(1, 1);
    lemma_mlp_dims(weights.mlp, trace.normed2, trace.fed);
    assert(trace.attended.dims =~= x.dims);
    law_masked_key_has_no_influence(
        weights.attention,
        trace.normed1,
        trace.normed1,
        mask,
        attention,
        trace.attended,
        t,
        hide,
    );
    assert forall|i: int| #[trigger] is_seen(i, len, hide) implies layer_steps_at(
        weights,
        y,
        trace,
        r,
        t * len + i,
    ) by {
        let k = t * len + i;
        lemma_within(t, i, batch as int, len as int);
        assert(normalises(
            x.dtype,
            x.row(k),
            weights.norm1.weight.elems,
            weights.norm1.bias.elems,
            double(weights.norm1.eps).elems[0],
            trace.normed1.row(k),
        ));
        assert(normalises(
            x.dtype,
            trace.middle.row(k),
            weights.norm2.weight.elems,
            weights.norm2.bias.elems,
            double(weights.norm2.eps).elems[0],
            trace.normed2.row(k),
        ));
        lemma_sum_adds_rows(x, trace.attended, trace.middle, k);
        lemma_sum_adds_rows(trace.fed, trace.middle, r, k);
        law_mlp_works_on_rows(
            weights.mlp,
            trace.normed2,
            trace.fed,
            seq![1nat, 1nat],
            |i: int| k,
        );
    }
    assert(layer_steps_around(weights, y, mask, trace, r, t, hide));
}

/// A sum of arrays adds their rows.
proof fn lemma_sum_adds_rows(a: Array, b: Array, r: Array, k: int)
    requires
        is_sum(a, b, r),
        b.dims == a.dims,
        a.dims.len() > 0,
        0 <= k < a.height(),
    ensures
        adds_rows(a.dtype, a.row(k), b.row(k), r.row(k)),
{
    let w = a.width() as int;
    let (x, y, z) = (a.row(k), b.row(k), r.row(k));
    assert forall|c: int| 0 <= c < z.len() implies is_added(
        a.dtype,
        x[c],
        y[c],
        #[trigger] z[c],
    ) by {
        lemma_within(k, c, a.height() as int, w);
        lemma_source_same(a.dims, k * w + c);
        assert(r.elems[k * w + c] == z[c]);
    }
}

/// Whether what comes out for text `t`, at the positions that are looked at, is an
/// outcome of an encoder on these positions alone.
pub open spec fn encodes_around(
    weights: EncoderWeights,
    x: Array,
    mask: Array,
    r: Array,
    t: int,
    hide: int,
) -> bool {
    exists|states: Seq<Array>|
        {
            &&& #[trigger] encoder_steps_around(weights, mask, states, t, hide)
            &&& states.first() == x
            &&& agree_around(states.last(), r, t, hide)
        }
}

/// Whether `states`, the hidden states before and after each layer, are an outcome of
/// the layers at the positions of text `t` that are looked at, reading these alone.
pub open spec fn encoder_steps_around(
    weights: EncoderWeights,
    mask: Array,
    states: Seq<Array>,
    t: int,
    hide: int,
) -> bool {
    &&& states.len() == weights.layers.len() + 1
    &&& forall|i: int|
        0 <= i < weights.layers.len() ==> layer_around(
            #[trigger] weights.layers[i],
            states[i],
            mask,
            states[i + 1],
            t,
            hide,
        )
}

/// Whether a mask hides a position of a text in every layer, in a run through them
/// that stays finite but for that.
pub open spec fn encoder_hides(
    weights: EncoderWeights,
    mask: Array,
    states: Seq<Array>,
    t: int,
    hide: int,
) -> bool {
    forall|i: int|
        0 <= i < weights.layers.len() ==> can_hide(
            #[trigger] weights.layers[i],
            states[i],
            mask,
            states[i + 1],
            t,
            hide,
        )
}

/// A position that is masked as a key has no influence on the other positions of its
/// text, through all layers of an encoder.
pub proof fn law_masked_key_in_an_encoder(
    weights: EncoderWeights,
    config: SiglipTextConfig,
    states: Seq<Array>,
    y: Array,
    mask: Array,
    t: int,
    hide: int,
)
    requires
        weights.is_sized(config),
        weights.steps(Some(mask), states),
        states[0].dims.len() == 3,
        states[0].dims[2] == config.hidden_size,
        states[0].well_formed(),
        mask.dtype == states[0].dtype,
        0 <= t < states[0].dims[0],
        -1 <= hide < states[0].dims[1],
        encoder_hides(weights, mask, states, t, hide),
        agree_around(states[0], y, t, hide),
    ensures
        encodes_around(weights, y, mask, states.last(), t, hide),
{
    let n = weights.layers.len() as int;
    let moved = states.update(0, y);
    assert forall|i: int| 0 <= i < n implies layer_around(
        #[trigger] weights.layers[i],
        moved[i],
        mask,
        moved[i + 1],
        t,
        hide,
    ) by {
        lemma_states_dims(weights, config, states, Some(mask), i);
        assert(can_hide(weights.layers[i], states[i], mask, states[i + 1], t, hide));
        let (layer, before, after) = (weights.layers[i], states[i], states[i + 1]);
        let (trace, attention) = choose|trace: LayerTrace, attention: AttentionTrace|
            layer_hides(layer, before, mask, trace, attention, after, t, hide);
        law_masked_key_in_a_layer(
            weights.layers[i],
            config,
            states[i],
            moved[i],
            mask,
            trace,
            attention,
            states[i + 1],
            t,
            hide,
        );
    }
    assert(encoder_steps_around(weights, mask, moved, t, hide));
}

} // verus!
