//! Texts and positions picked out of arrays, or put in another order.
//!
//! What the parts of the model compute commutes with this: the hidden states of a
//! text are an outcome of that text alone, wherever it stands in a batch.
use vstd::prelude::*;

use crate::array::{lemma_parts, lemma_parts_within, lemma_source_same, lemma_within};
use crate::array::{lemma_volume_2, lemma_volume_3, lemma_volume_4, lemma_with_rows};
use crate::array::{volume, Array, ElemType};
use crate::outcome::{gelus, normalises, is_projected, is_scaled, unsigned_zero};
use crate::outcome::{is_added, is_dot, is_finite, is_masked_row, is_minus_infinity, is_share};
use crate::outcome::{
    is_affine, is_gelu, is_layer_norm, is_linear, is_softmax, is_softmax_row, is_sum,
};

verus! {

/// Whether these are numbers below `bound`.
pub open spec fn all_in(numbers: Seq<int>, bound: nat) -> bool {
    forall|i: int| 0 <= i < numbers.len() ==> 0 <= #[trigger] numbers[i] < bound
}

/// Whether these are the numbers below their number, each once.
pub open spec fn is_permutation(numbers: Seq<int>) -> bool {
    &&& all_in(numbers, numbers.len())
    &&& forall|i: int, j: int|
        0 <= i < j < numbers.len() ==> #[trigger] numbers[i] != #[trigger] numbers[j]
}

/// The numbers below `n`, in order.
pub open spec fn in_order(n: nat) -> Seq<int> {
    Seq::new(n, |i: int| i)
}

/// The elements of `s` in the order that `order` gives: as element `i` the one at
/// `order[i]`.
pub open spec fn reordered<A>(s: Seq<A>, order: Seq<int>) -> Seq<A> {
    Seq::new(order.len(), |i: int| s[order[i]])
}

/// Of hidden states of `len` positions, the row that row `k` of the states of these
/// texts and positions comes from.
pub open spec fn row_source(texts: Seq<int>, positions: Seq<int>, len: nat) -> spec_fn(int) -> int {
    |k: int|
        texts[k / (positions.len() as int)] * len + positions[k % (positions.len() as int)]
}

/// The hidden states at these positions of these texts.
pub open spec fn regrouped(states: Array, texts: Seq<int>, positions: Seq<int>) -> Array {
    states.with_rows(
        seq![texts.len(), positions.len()],
        row_source(texts, positions, states.dims[1]),
    )
}

/// Of products of positions, with a matrix for each text and head, the place that
/// place `k` of the products of these texts and positions comes from.
pub open spec fn product_source(
    texts: Seq<int>,
    positions: Seq<int>,
    heads: nat,
    len: nat,
) -> spec_fn(int) -> int {
    let n = positions.len() as int;
    |k: int|
        {
            let (q, j) = (k / n, k % n);
            let (p, i) = (q / n, q % n);
            let (b, h) = (p / (heads as int), p % (heads as int));
            ((texts[b] * heads + h) * len + positions[i]) * len + positions[j]
        }
}

/// The products of these positions, in these texts.
pub open spec fn regrouped_products(
    products: Array,
    texts: Seq<int>,
    positions: Seq<int>,
) -> Array {
    let heads = products.dims[1];
    products.picked(
        seq![texts.len(), heads, positions.len(), positions.len()],
        product_source(texts, positions, heads, products.dims[2]),
    )
}

/// Reordering a sequence keeps its elements.
pub proof fn lemma_reordered_multiset<A>(s: Seq<A>, order: Seq<int>)
    requires
        is_permutation(order),
        order.len() == s.len(),
    ensures
        reordered(s, order).to_multiset() == s.to_multiset(),
    decreases s.len(),
{
    let t = reordered(s, order);
    if s.len() == 0 {
        assert(t =~= s);
    } else {
        let n = s.len() - 1;
        let m = order[n];
        assert(0 <= m < s.len());
        let rest = s.remove(m);
        let shorter = Seq::new(
            n as nat,
            |i: int|
                if order[i] < m {
                    order[i]
                } else {
                    order[i] - 1
                },
        );
        assert forall|i: int| 0 <= i < n implies 0 <= #[trigger] shorter[i] < n by {
            assert(order[i] != order[n]);
            assert(0 <= order[i] < s.len());
        }
        assert forall|i: int, j: int| 0 <= i < j < n implies #[trigger] shorter[i]
            != #[trigger] shorter[j] by {
            assert(order[i] != order[j]);
            assert(order[i] != order[n]);
            assert(order[j] != order[n]);
        }
        lemma_reordered_multiset(rest, shorter);
        assert(t.drop_last() =~= reordered(rest, shorter)) by {
            assert forall|i: int| 0 <= i < n implies t.drop_last()[i] == reordered(
                rest,
                shorter,
            )[i] by {
                assert(order[i] != order[n]);
                assert(0 <= order[i] < s.len());
            }
        }
        assert(t =~= t.drop_last().push(s[m]));
        s.to_multiset_ensures();
        t.drop_last().to_multiset_ensures();
        assert(s.contains(s[m]));
        assert(s.to_multiset().count(s[m]) > 0);
        assert(rest.to_multiset() == s.to_multiset().remove(s[m]));
        assert(t.to_multiset() =~= s.to_multiset().remove(s[m]).insert(s[m]));
        assert(t.to_multiset() =~= s.to_multiset());
    }
}

/// The element of regrouped hidden states at a position of a text.
pub proof fn lemma_regrouped(
    a: Array,
    texts: Seq<int>,
    positions: Seq<int>,
    batch: nat,
    len: nat,
    width: nat,
)
    requires
        a.dims == seq![batch, len, width],
        all_in(texts, batch),
        all_in(positions, len),
    ensures
        regrouped(a, texts, positions).dims == seq![texts.len(), positions.len(), width],
        regrouped(a, texts, positions).well_formed(),
        volume(seq![texts.len(), positions.len()]) == texts.len() * positions.len(),
        forall|b: int, i: int, c: int|
            0 <= b < texts.len() && 0 <= i < positions.len() && 0 <= c < width
                ==> #[trigger] regrouped(a, texts, positions).entry(b, i, c) == a.entry(
                texts[b],
                positions[i],
                c,
            ),
{
    let r = regrouped(a, texts, positions);
    let outer = seq![texts.len(), positions.len()];
    assert(outer.push(width) =~= seq![texts.len(), positions.len(), width]);
    lemma_volume_2(texts.len(), positions.len());
    lemma_volume_3(texts.len(), positions.len(), width);
    assert forall|b: int, i: int, c: int|
        0 <= b < texts.len() && 0 <= i < positions.len() && 0 <= c < width implies #[trigger] r.entry(
        b,
        i,
        c,
    ) == a.entry(texts[b], positions[i], c) by {
        let n = positions.len() as int;
        lemma_parts(b, i, n);
        lemma_within(b, i, texts.len() as int, n);
        lemma_parts(b * n + i, c, width as int);
        lemma_within(b * n + i, c, texts.len() * n, width as int);
    }
}

/// The rows that regrouped hidden states come from are there.
pub proof fn lemma_row_source(texts: Seq<int>, positions: Seq<int>, batch: nat, len: nat, k: int)
    requires
        all_in(texts, batch),
        all_in(positions, len),
        0 <= k < texts.len() * positions.len(),
    ensures
        0 <= row_source(texts, positions, len)(k) < batch * len,
{
    let n = positions.len() as int;
    lemma_parts_within(k, texts.len() as int, n);
    lemma_within(texts[k / n], positions[k % n], batch as int, len as int);
}

/// The rows that regrouped hidden states come from are there, all of them.
pub proof fn lemma_row_sources(
    x: Array,
    texts: Seq<int>,
    positions: Seq<int>,
    batch: nat,
    len: nat,
)
    requires
        x.dims.len() == 3,
        x.dims[0] == batch,
        x.dims[1] == len,
        all_in(texts, batch),
        all_in(positions, len),
    ensures
        x.height() == batch * len,
        forall|k: int|
            0 <= k < volume(seq![texts.len(), positions.len()]) ==> 0 <= #[trigger] row_source(
                texts,
                positions,
                len,
            )(k) < x.height(),
{
    lemma_volume_2(batch, len);
    lemma_volume_2(texts.len(), positions.len());
    assert(x.dims.drop_last() =~= seq![batch, len]);
    assert forall|k: int| 0 <= k < volume(seq![texts.len(), positions.len()]) implies 0
        <= #[trigger] row_source(texts, positions, len)(k) < x.height() by {
        lemma_row_source(texts, positions, batch, len, k);
    }
}

/// The softmax of products commutes with regrouping them.
pub proof fn lemma_softmax_regrouped(
    x: Array,
    r: Array,
    texts: Seq<int>,
    positions: Seq<int>,
    batch: nat,
    heads: nat,
    len: nat,
)
    requires
        x.dims == seq![batch, heads, len, len],
        is_softmax(x, r),
        all_in(texts, batch),
        is_permutation(positions),
        positions.len() == len,
    ensures
        is_softmax(
            regrouped_products(x, texts, positions),
            regrouped_products(r, texts, positions),
        ),
{
    let (px, pr) = (
        regrouped_products(x, texts, positions),
        regrouped_products(r, texts, positions),
    );
    let (t, h, n) = (texts.len(), heads, len);
    assert(px.dims.drop_last() =~= seq![t, h, n]);
    assert(x.dims.drop_last() =~= seq![batch, heads, len]);
    lemma_volume_3(t, h, n);
    lemma_volume_3(batch, heads, len);
    assert forall|k: int| 0 <= k < px.height() implies is_softmax_row(
        x.dtype,
        px.row(k),
        #[trigger] pr.row(k),
    ) by {
        lemma_parts_within(k, (t * h) as int, n as int);
        let (p, i) = (k / (n as int), k % (n as int));
        lemma_parts_within(p, t as int, h as int);
        let (b, head) = (p / (h as int), p % (h as int));
        let from = texts[b] * heads + head;
        let row = from * len + positions[i];
        lemma_within(texts[b], head, batch as int, heads as int);
        lemma_within(from, positions[i], (batch * heads) as int, len as int);
        assert forall|j: int| 0 <= j < n implies px.row(k)[j] == reordered(
            x.row(row),
            positions,
        )[j] && pr.row(k)[j] == reordered(r.row(row), positions)[j] by {
            lemma_regrouped_entry(x, texts, positions, batch, heads, len, b, head, i, j);
            lemma_regrouped_entry(r, texts, positions, batch, heads, len, b, head, i, j);
        }
        assert(px.row(k) =~= reordered(x.row(row), positions));
        assert(pr.row(k) =~= reordered(r.row(row), positions));
        assert(is_softmax_row(x.dtype, x.row(row), r.row(row)));
        lemma_softmax_reordered(x.dtype, x.row(row), r.row(row), positions);
    }
}

/// The places that regrouped products come from are there.
pub proof fn lemma_regrouped_products(
    a: Array,
    texts: Seq<int>,
    positions: Seq<int>,
    batch: nat,
    heads: nat,
    len: nat,
)
    requires
        a.dims == seq![batch, heads, len, len],
        all_in(texts, batch),
        all_in(positions, len),
    ensures
        regrouped_products(a, texts, positions).dims == seq![
            texts.len(),
            heads,
            positions.len(),
            positions.len(),
        ],
        regrouped_products(a, texts, positions).well_formed(),
        forall|k: int|
            0 <= k < volume(seq![texts.len(), heads, positions.len(), positions.len()]) ==> 0
                <= #[trigger] product_source(texts, positions, heads, len)(k) < volume(
                seq![batch, heads, len, len],
            ),
{
    let n = positions.len() as int;
    let (m, s) = (texts.len() as int, product_source(texts, positions, heads, len));
    lemma_volume_4(texts.len(), heads, positions.len(), positions.len());
    lemma_volume_4(batch, heads, len, len);
    assert forall|k: int| 0 <= k < m * heads * n * n implies 0 <= #[trigger] s(k) < batch * heads
        * len * len by {
        lemma_parts_within(k, m * heads * n, n);
        let (q, j) = (k / n, k % n);
        lemma_parts_within(q, m * heads, n);
        let (p, i) = (q / n, q % n);
        lemma_parts_within(p, m, heads as int);
        let (b, h) = (p / (heads as int), p % (heads as int));
        lemma_within(texts[b], h, batch as int, heads as int);
        let from = texts[b] * heads + h;
        lemma_within(from, positions[i], (batch * heads) as int, len as int);
        lemma_within(
            from * len + positions[i],
            positions[j],
            (batch * heads * len) as int,
            len as int,
        );
    }
}

/// An entry of regrouped products.
pub proof fn lemma_regrouped_entry(
    a: Array,
    texts: Seq<int>,
    positions: Seq<int>,
    batch: nat,
    heads: nat,
    len: nat,
    b: int,
    h: int,
    i: int,
    j: int,
)
    requires
        a.dims == seq![batch, heads, len, len],
        0 <= b < texts.len(),
        0 <= h < heads,
        0 <= i < positions.len(),
        0 <= j < positions.len(),
    ensures
        regrouped_products(a, texts, positions).entry(b * heads + h, i, j) == a.entry(
            texts[b] * heads + h,
            positions[i],
            positions[j],
        ),
{
    let n = positions.len() as int;
    let m = texts.len() as int;
    lemma_volume_4(texts.len(), heads, positions.len(), positions.len());
    let p = b * heads + h;
    lemma_parts(b, h, heads as int);
    lemma_within(b, h, m, heads as int);
    lemma_parts(p, i, n);
    lemma_within(p, i, m * heads, n);
    lemma_parts(p * n + i, j, n);
    lemma_within(p * n + i, j, m * heads * n, n);
}

/// Sums of arrays of one shape commute with picking.
pub proof fn lemma_sum_picked(
    a: Array,
    b: Array,
    r: Array,
    dims: Seq<nat>,
    from: spec_fn(int) -> int,
)
    requires
        is_sum(a, b, r),
        b.dims == a.dims,
        forall|k: int| 0 <= k < volume(dims) ==> 0 <= #[trigger] from(k) < volume(a.dims),
    ensures
        is_sum(a.picked(dims, from), b.picked(dims, from), r.picked(dims, from)),
{
    let (pa, pb, pr) = (a.picked(dims, from), b.picked(dims, from), r.picked(dims, from));
    assert forall|k: int| 0 <= k < pr.elems.len() implies is_added(
        pa.dtype,
        pa.elems[k],
        pb.stretched(pa.dims).elems[k],
        #[trigger] pr.elems[k],
    ) by {
        lemma_source_same(dims, k);
        lemma_source_same(a.dims, from(k));
        assert(r.elems[from(k)] == pr.elems[k]);
    }
}

/// Scaling commutes with picking.
pub proof fn lemma_affine_picked(
    x: Array,
    mul: Array,
    add: Array,
    r: Array,
    dims: Seq<nat>,
    from: spec_fn(int) -> int,
)
    requires
        is_affine(x, mul, add, r),
        forall|k: int| 0 <= k < volume(dims) ==> 0 <= #[trigger] from(k) < volume(x.dims),
    ensures
        is_affine(x.picked(dims, from), mul, add, r.picked(dims, from)),
{
    let pr = r.picked(dims, from);
    assert forall|k: int| 0 <= k < pr.elems.len() implies is_scaled(
        x.dtype,
        x.picked(dims, from).elems[k],
        mul.elems[0],
        add.elems[0],
        #[trigger] pr.elems[k],
    ) by {
        assert(r.elems[from(k)] == pr.elems[k]);
    }
}

/// The activation function commutes with picking.
pub proof fn lemma_gelu_picked(x: Array, r: Array, dims: Seq<nat>, from: spec_fn(int) -> int)
    requires
        is_gelu(x, r),
        forall|k: int| 0 <= k < volume(dims) ==> 0 <= #[trigger] from(k) < volume(x.dims),
    ensures
        is_gelu(x.picked(dims, from), r.picked(dims, from)),
{
    let pr = r.picked(dims, from);
    assert forall|k: int| 0 <= k < pr.elems.len() implies gelus(
        x.dtype,
        x.picked(dims, from).elems[k],
        #[trigger] pr.elems[k],
    ) by {
        assert(r.elems[from(k)] == pr.elems[k]);
    }
}

/// A linear layer commutes with picking rows.
pub proof fn lemma_linear_rows(
    x: Array,
    weight: Array,
    bias: Array,
    r: Array,
    outer: Seq<nat>,
    from: spec_fn(int) -> int,
)
    requires
        x.dims.len() > 0,
        is_linear(x, weight, bias, r),
        forall|k: int| 0 <= k < volume(outer) ==> 0 <= #[trigger] from(k) < x.height(),
    ensures
        is_linear(x.with_rows(outer, from), weight, bias, r.with_rows(outer, from)),
{
    let (px, pr) = (x.with_rows(outer, from), r.with_rows(outer, from));
    assert(px.dims.drop_last() =~= outer);
    assert forall|i: int| 0 <= i < px.height() implies is_projected(
        x.dtype,
        px.row(i),
        weight.elems,
        bias.elems,
        #[trigger] pr.row(i),
    ) by {
        lemma_with_rows(x, outer, from, i);
        lemma_with_rows(r, outer, from, i);
        assert(0 <= from(i) < x.height());
    }
}

/// A layer normalisation commutes with picking rows.
pub proof fn lemma_norm_rows(
    x: Array,
    weight: Array,
    bias: Array,
    eps: Array,
    r: Array,
    outer: Seq<nat>,
    from: spec_fn(int) -> int,
)
    requires
        x.dims.len() > 0,
        is_layer_norm(x, weight, bias, eps, r),
        forall|k: int| 0 <= k < volume(outer) ==> 0 <= #[trigger] from(k) < x.height(),
    ensures
        is_layer_norm(x.with_rows(outer, from), weight, bias, eps, r.with_rows(outer, from)),
{
    let (px, pr) = (x.with_rows(outer, from), r.with_rows(outer, from));
    assert(px.dims.drop_last() =~= outer);
    assert forall|i: int| 0 <= i < px.height() implies normalises(
        x.dtype,
        px.row(i),
        weight.elems,
        bias.elems,
        eps.elems[0],
        #[trigger] pr.row(i),
    ) by {
        lemma_with_rows(x, outer, from, i);
        lemma_with_rows(r, outer, from, i);
        assert(0 <= from(i) < x.height());
    }
}

/// The places that rows come from are there, where the rows are.
pub proof fn lemma_with_rows_places(a: Array, outer: Seq<nat>, from: spec_fn(int) -> int)
    requires
        a.dims.len() > 0,
        forall|k: int| 0 <= k < volume(outer) ==> 0 <= #[trigger] from(k) < a.height(),
    ensures
        ({
            let width = a.width() as int;
            let places = |k: int| from(k / width) * width + k % width;
            forall|k: int|
                0 <= k < volume(outer.push(a.width())) ==> 0 <= #[trigger] places(k) < volume(
                    a.dims,
                )
        }),
{
    let width = a.width() as int;
    let places = |k: int| from(k / width) * width + k % width;
    assert(outer.push(a.width()).drop_last() =~= outer);
    assert forall|k: int| 0 <= k < volume(outer.push(a.width())) implies 0 <= #[trigger] places(k)
        < volume(a.dims) by {
        lemma_parts_within(k, volume(outer) as int, width);
        assert(0 <= from(k / width) < a.height());
        lemma_within(from(k / width), k % width, a.height() as int, width);
    }
}

/// Sums commute with picking rows.
pub proof fn lemma_sum_rows(
    a: Array,
    b: Array,
    r: Array,
    outer: Seq<nat>,
    from: spec_fn(int) -> int,
)
    requires
        a.dims.len() > 0,
        is_sum(a, b, r),
        b.dims == a.dims,
        forall|k: int| 0 <= k < volume(outer) ==> 0 <= #[trigger] from(k) < a.height(),
    ensures
        is_sum(a.with_rows(outer, from), b.with_rows(outer, from), r.with_rows(outer, from)),
{
    let width = a.width() as int;
    lemma_with_rows_places(a, outer, from);
    lemma_sum_picked(
        a,
        b,
        r,
        outer.push(a.width()),
        |k: int| from(k / width) * width + k % width,
    );
}

/// The activation function commutes with picking rows.
pub proof fn lemma_gelu_rows(x: Array, r: Array, outer: Seq<nat>, from: spec_fn(int) -> int)
    requires
        x.dims.len() > 0,
        is_gelu(x, r),
        forall|k: int| 0 <= k < volume(outer) ==> 0 <= #[trigger] from(k) < x.height(),
    ensures
        is_gelu(x.with_rows(outer, from), r.with_rows(outer, from)),
{
    let width = x.width() as int;
    lemma_with_rows_places(x, outer, from);
    lemma_gelu_picked(
        x,
        r,
        outer.push(x.width()),
        |k: int| from(k / width) * width + k % width,
    );
}

/// The softmax of a row commutes with reordering it.
pub proof fn lemma_softmax_reordered(
    dtype: ElemType,
    row: Seq<int>,
    out: Seq<int>,
    order: Seq<int>,
)
    requires
        is_permutation(order),
        order.len() == row.len(),
        is_softmax_row(dtype, row, out),
    ensures
        is_softmax_row(dtype, reordered(row, order), reordered(out, order)),
{
    let (row2, out2) = (reordered(row, order), reordered(out, order));
    let clean = |e: int| unsigned_zero(dtype, e);
    lemma_reordered_multiset(row.map_values(clean), order);
    assert(row2.map_values(clean) =~= reordered(row.map_values(clean), order));
    lemma_masked_row_reordered(dtype, row, order);
    assert forall|j: int| 0 <= j < row2.len() implies is_share(
        dtype,
        row2[j],
        row2,
        #[trigger] out2[j],
    ) by {
        assert(0 <= order[j] < row.len());
        assert(out[order[j]] == out2[j]);
    }
}

/// Whether a row holds finite elements beside minus infinity only does not rest on
/// its order.
proof fn lemma_masked_row_reordered(dtype: ElemType, row: Seq<int>, order: Seq<int>)
    requires
        is_permutation(order),
        order.len() == row.len(),
    ensures
        is_masked_row(dtype, reordered(row, order)) <==> is_masked_row(dtype, row),
{
    let row2 = reordered(row, order);
    lemma_reordered_multiset(row, order);
    row.to_multiset_ensures();
    row2.to_multiset_ensures();
    assert forall|e: int| row.contains(e) <==> row2.contains(e) by {
        assert(row.to_multiset().count(e) == row2.to_multiset().count(e));
    }
    if is_masked_row(dtype, row) {
        lemma_masked_row_same_elements(dtype, row, row2);
    }
    if is_masked_row(dtype, row2) {
        lemma_masked_row_same_elements(dtype, row2, row);
    }
}

/// A row of the same elements holds finite elements beside minus infinity only.
proof fn lemma_masked_row_same_elements(dtype: ElemType, row: Seq<int>, other: Seq<int>)
    requires
        is_masked_row(dtype, row),
        forall|e: int| row.contains(e) <==> other.contains(e),
    ensures
        is_masked_row(dtype, other),
{
    assert forall|j: int| 0 <= j < other.len() implies is_finite(dtype, #[trigger] other[j])
        || is_minus_infinity(dtype, other[j]) by {
        assert(other.contains(other[j]));
        assert(row.contains(other[j]));
        let k = choose|k: int| 0 <= k < row.len() && row[k] == other[j];
        assert(is_finite(dtype, row[k]) || is_minus_infinity(dtype, row[k]));
    }
    let k = choose|k: int| 0 <= k < row.len() && is_finite(dtype, #[trigger] row[k]);
    assert(row.contains(row[k]));
    assert(other.contains(row[k]));
    let j = choose|j: int| 0 <= j < other.len() && other[j] == row[k];
    assert(is_finite(dtype, other[j]));
}

/// A sum of products does not rest on the order of the pairs.
pub proof fn lemma_dot_reordered(
    dtype: ElemType,
    pairs: Seq<(int, int)>,
    order: Seq<int>,
    z: int,
)
    requires
        is_permutation(order),
        order.len() == pairs.len(),
        is_dot(dtype, pairs, z),
    ensures
        is_dot(dtype, reordered(pairs, order), z),
{
    lemma_reordered_multiset(pairs, order);
}

} // verus!
