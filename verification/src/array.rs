//! A mathematical model of tensors: an element type, the size of each
//! dimension, and the elements in row-major order.
use vstd::prelude::*;

verus! {

/// The element types that the tensors of this crate have.
#[derive(Clone, Copy, Debug, PartialEq, Eq, Structural)]
pub enum ElemType {
    /// 32-bit unsigned integers: token ids, positions, row numbers.
    U32,
    /// Half precision.
    F16,
    /// Single precision.
    F32,
    /// Double precision.
    F64,
}

/// The precision a model computes in.
#[derive(Clone, Copy, Debug, PartialEq, Eq, Structural)]
pub enum Precision {
    /// Half precision.
    F16,
    /// Single precision.
    F32,
}

impl Precision {
    /// The element type of the tensors of a model of this precision.
    pub open spec fn elem_type(self) -> ElemType {
        match self {
            Precision::F16 => ElemType::F16,
            Precision::F32 => ElemType::F32,
        }
    }
}

/// What a tensor holds.  The elements are in row-major order; an element is
/// its bit pattern read as an unsigned integer, so that of a `U32` tensor is
/// the integer itself.
#[verifier::ext_equal]
pub struct Array {
    /// The type of the elements.
    pub dtype: ElemType,
    /// The size of each dimension, outermost first.
    pub dims: Seq<nat>,
    /// The elements, row-major.
    pub elems: Seq<int>,
}

/// The number of elements that dimensions of these sizes hold.
pub open spec fn volume(dims: Seq<nat>) -> nat
    decreases dims.len(),
{
    if dims.len() == 0 {
        1
    } else {
        volume(dims.drop_last()) * dims.last()
    }
}

/// The number of elements that dimensions of these sizes hold, those of size 0
/// left out.
pub open spec fn extent(dims: Seq<nat>) -> nat
    decreases dims.len(),
{
    if dims.len() == 0 {
        1
    } else {
        extent(dims.drop_last()) * at_least_one(dims.last())
    }
}

/// The larger of `n` and 1.
pub open spec fn at_least_one(n: nat) -> nat {
    if n == 0 {
        1
    } else {
        n
    }
}

/// Whether tensors of any of the element types can have these dimensions: the
/// elements can be allocated, and no product of some of the sizes overflows.
pub open spec fn allocatable(dims: Seq<nat>) -> bool {
    extent(dims) * 8 <= isize::MAX
}

/// The sizes of a list of machine integers.
pub open spec fn sizes(dims: Seq<usize>) -> Seq<nat> {
    dims.map_values(|d: usize| d as nat)
}

/// The position, in row-major order, of the element with these coordinates.
pub open spec fn offset(dims: Seq<nat>, coords: Seq<int>) -> int
    decreases dims.len(),
{
    if dims.len() == 0 {
        0
    } else {
        offset(dims.drop_last(), coords.drop_last()) * dims.last() + coords.last()
    }
}

/// The coordinates of the element at position `k` in row-major order.
pub open spec fn coords(dims: Seq<nat>, k: int) -> Seq<int>
    decreases dims.len(),
{
    if dims.len() == 0 {
        Seq::empty()
    } else {
        coords(dims.drop_last(), k / (dims.last() as int)).push(k % (dims.last() as int))
    }
}

/// `s` with the entries at `i` and `j` exchanged.
pub open spec fn swap<A>(s: Seq<A>, i: int, j: int) -> Seq<A> {
    s.update(i, s[j]).update(j, s[i])
}

/// Whether dimensions `from` can be stretched to dimensions `to`: read from
/// the innermost outwards, each size is the same or is stretched from 1.
pub open spec fn broadcasts_to(from: Seq<nat>, to: Seq<nat>) -> bool {
    &&& from.len() <= to.len()
    &&& forall|i: int|
        #![trigger from[i]]
        0 <= i < from.len() ==> from[i] == 1 || from[i] == to[i + to.len() - from.len()]
}

/// Where dimensions `from` are stretched to dimensions `to`, the place that the
/// element at place `k` comes from.
pub open spec fn source(from: Seq<nat>, to: Seq<nat>, k: int) -> int
    decreases from.len(),
{
    if from.len() == 0 {
        0
    } else {
        let size = to.last() as int;
        source(from.drop_last(), to.drop_last(), k / size) * from.last() + if from.last() == 1 {
            0
        } else {
            k % size
        }
    }
}

impl Array {
    /// As many elements as the dimensions hold.
    pub open spec fn well_formed(self) -> bool {
        self.elems.len() == volume(self.dims)
    }

    /// The same elements, in the same order, under other dimensions.
    pub open spec fn reshaped(self, dims: Seq<nat>) -> Array {
        Array { dims, ..self }
    }

    /// Two dimensions exchanged: the element at some coordinates is the one
    /// that was at those coordinates exchanged.
    pub open spec fn transposed(self, i: int, j: int) -> Array {
        let dims = swap(self.dims, i, j);
        Array {
            dims,
            elems: Seq::new(
                volume(dims),
                |k: int| self.elems[offset(self.dims, swap(coords(dims, k), i, j))],
            ),
            ..self
        }
    }

    /// The size of the innermost dimension.
    pub open spec fn width(self) -> nat {
        self.dims.last()
    }

    /// The number of rows: as many as the outer dimensions hold.
    pub open spec fn height(self) -> nat {
        volume(self.dims.drop_last())
    }

    /// One row: the elements along the innermost dimension.
    pub open spec fn row(self, i: int) -> Seq<int> {
        Seq::new(self.width(), |c: int| self.elems[i * self.width() + c])
    }

    /// The element at row `i` and column `j` of matrix `p`, the matrices being
    /// those of the two innermost dimensions.
    pub open spec fn entry(self, p: int, i: int, j: int) -> int {
        self.elems[(p * self.dims[self.dims.len() - 2] + i) * self.width() + j]
    }

    /// Stretched to other dimensions: where this has size 1, the same elements
    /// over and over.
    pub open spec fn stretched(self, dims: Seq<nat>) -> Array {
        Array {
            dims,
            elems: Seq::new(volume(dims), |k: int| self.elems[source(self.dims, dims, k)]),
            ..self
        }
    }

    /// Elements of this array, under other dimensions: at place `k` the one at
    /// place `from(k)`.
    pub open spec fn picked(self, dims: Seq<nat>, from: spec_fn(int) -> int) -> Array {
        Array { dims, elems: Seq::new(volume(dims), |k: int| self.elems[from(k)]), ..self }
    }

    /// Rows of this array, under other outer dimensions: as row `k` the row
    /// `from(k)`.
    pub open spec fn with_rows(self, outer: Seq<nat>, from: spec_fn(int) -> int) -> Array {
        let width = self.width() as int;
        self.picked(
            outer.push(self.width()),
            |k: int| from(k / width) * width + k % width,
        )
    }

    /// Whether `id` names a row: a row number below the outermost size, or the
    /// largest 32-bit integer, which names a row of zeros.
    pub open spec fn has_row(self, id: int) -> bool {
        0 <= id < self.dims[0] || id == u32::MAX
    }

    /// Of a matrix, the rows that `ids` names, in that order.
    pub open spec fn rows(self, ids: Seq<int>) -> Array {
        let width = self.dims[1];
        Array {
            dims: seq![ids.len(), width],
            elems: Seq::new(
                ids.len() * width,
                |k: int|
                    {
                        let id = ids[k / (width as int)];
                        if id == u32::MAX {
                            0
                        } else {
                            self.elems[id * width + k % (width as int)]
                        }
                    },
            ),
            ..self
        }
    }
}

/// Whether these are the coordinates of an element.
pub open spec fn in_range(dims: Seq<nat>, coords: Seq<int>) -> bool {
    &&& coords.len() == dims.len()
    &&& forall|i: int| 0 <= i < dims.len() ==> 0 <= #[trigger] coords[i] < dims[i]
}

/// The coordinates of a position lead back to it.
pub proof fn lemma_offset_of_coords(dims: Seq<nat>, k: int)
    requires
        0 <= k < volume(dims),
    ensures
        in_range(dims, coords(dims, k)),
        offset(dims, coords(dims, k)) == k,
    decreases dims.len(),
{
    if dims.len() > 0 {
        let (rest, d) = (dims.drop_last(), dims.last() as int);
        let v = volume(rest);
        assert(d > 0 && 0 <= k / d < v && 0 <= k % d < d && (k / d) * d + k % d == k)
            by (nonlinear_arith)
            requires
                0 <= k < v * d,
                d >= 0,
        ;
        lemma_offset_of_coords(rest, k / d);
        let c = coords(dims, k);
        assert(c.drop_last() =~= coords(rest, k / d));
        assert forall|i: int| 0 <= i < dims.len() implies 0 <= #[trigger] c[i] < dims[i] by {
            if i < rest.len() {
                assert(c[i] == coords(rest, k / d)[i]);
                assert(rest[i] == dims[i]);
            }
        }
    }
}

/// The position of an element has its coordinates.
pub proof fn lemma_coords_of_offset(dims: Seq<nat>, c: Seq<int>)
    requires
        in_range(dims, c),
    ensures
        0 <= offset(dims, c) < volume(dims),
        coords(dims, offset(dims, c)) == c,
    decreases dims.len(),
{
    if dims.len() > 0 {
        let (rest, d) = (dims.drop_last(), dims.last() as int);
        let before = c.drop_last();
        assert forall|i: int| 0 <= i < rest.len() implies 0 <= #[trigger] before[i] < rest[i] by {
            assert(before[i] == c[i]);
        }
        lemma_coords_of_offset(rest, before);
        assert(0 <= c[dims.len() - 1] < dims[dims.len() - 1]);
        let (o, last, v) = (offset(rest, before), c.last(), volume(rest) as int);
        assert(0 <= o * d + last < v * d && (o * d + last) / d == o && (o * d + last) % d == last)
            by (nonlinear_arith)
            requires
                0 <= o < v,
                0 <= last < d,
        ;
        assert(before.push(last) =~= c);
    } else {
        assert(c =~= coords(dims, offset(dims, c)));
    }
}

/// The position of an element of four dimensions.
pub proof fn lemma_offset_4(dims: Seq<nat>, c: Seq<int>)
    requires
        dims.len() == 4,
        c.len() == 4,
    ensures
        offset(dims, c) == ((c[0] * dims[1] + c[1]) * dims[2] + c[2]) * dims[3] + c[3],
{
    reveal_with_fuel(offset, 5);
    assert(0 * dims[0] == 0);
}

/// An element of an array of which two dimensions were exchanged.
pub proof fn lemma_transposed(a: Array, i: int, j: int, c: Seq<int>)
    requires
        0 <= i < j < a.dims.len(),
        in_range(swap(a.dims, i, j), c),
    ensures
        a.transposed(i, j).elems[offset(swap(a.dims, i, j), c)] == a.elems[offset(
            a.dims,
            swap(c, i, j),
        )],
{
    lemma_coords_of_offset(swap(a.dims, i, j), c);
}

/// Exchanging the same two dimensions twice changes nothing.
pub proof fn law_transposing_twice(a: Array, i: int, j: int)
    requires
        a.well_formed(),
        0 <= i < j < a.dims.len(),
    ensures
        a.transposed(i, j).transposed(i, j) == a,
{
    let once = a.transposed(i, j);
    let twice = once.transposed(i, j);
    assert(swap(once.dims, i, j) =~= a.dims);
    assert forall|k: int| 0 <= k < a.elems.len() implies #[trigger] twice.elems[k] == a.elems[k] by {
        let c = coords(a.dims, k);
        lemma_offset_of_coords(a.dims, k);
        let turned = swap(c, i, j);
        assert(0 <= c[i] < a.dims[i] && 0 <= c[j] < a.dims[j]);
        assert forall|m: int| 0 <= m < once.dims.len() implies 0 <= #[trigger] turned[m]
            < once.dims[m] by {
            if m != i && m != j {
                assert(turned[m] == c[m]);
            }
        }
        lemma_coords_of_offset(once.dims, turned);
        assert(swap(turned, i, j) =~= c);
    }
    assert(twice.elems =~= a.elems);
}

/// A position in rows of `n`, parted into its row and its place there.
pub proof fn lemma_parts(a: int, b: int, n: int)
    requires
        0 <= b < n,
    ensures
        (a * n + b) / n == a,
        (a * n + b) % n == b,
{
    assert((a * n + b) / n == a && (a * n + b) % n == b) by (nonlinear_arith)
        requires
            0 <= b < n,
    ;
}

/// Place `b` of row `a` lies within `m` rows of `n`.
pub proof fn lemma_within(a: int, b: int, m: int, n: int)
    requires
        0 <= a < m,
        0 <= b < n,
    ensures
        0 <= a * n + b < m * n,
{
    assert(0 <= a * n + b < m * n) by (nonlinear_arith)
        requires
            0 <= a < m,
            0 <= b < n,
    ;
}

/// A place within `m` rows of `n` has its row among them.
pub proof fn lemma_parts_within(k: int, m: int, n: int)
    requires
        0 <= k < m * n,
        0 <= n,
    ensures
        n > 0,
        0 <= k / n < m,
        0 <= k % n < n,
        (k / n) * n + k % n == k,
{
    assert(n > 0 && 0 <= k / n < m && 0 <= k % n < n && (k / n) * n + k % n == k)
        by (nonlinear_arith)
        requires
            0 <= k < m * n,
            0 <= n,
    ;
}

/// Stretching to the same dimensions moves nothing.
pub proof fn lemma_source_same(dims: Seq<nat>, k: int)
    requires
        0 <= k < volume(dims),
    ensures
        source(dims, dims, k) == k,
    decreases dims.len(),
{
    if dims.len() > 0 {
        let (rest, d) = (dims.drop_last(), dims.last() as int);
        lemma_parts_within(k, volume(rest) as int, d);
        lemma_source_same(rest, k / d);
    }
}

/// What is stretched comes from somewhere.
pub proof fn lemma_source_within(from: Seq<nat>, to: Seq<nat>, k: int)
    requires
        broadcasts_to(from, to),
        0 <= k < volume(to),
    ensures
        0 <= source(from, to, k) < volume(from),
    decreases from.len(),
{
    if from.len() > 0 {
        let (rest, outer) = (from.drop_last(), to.drop_last());
        let (f, t) = (from.last() as int, to.last() as int);
        lemma_parts_within(k, volume(outer) as int, t);
        assert(broadcasts_to(rest, outer)) by {
            assert forall|i: int| #![trigger rest[i]] 0 <= i < rest.len() implies rest[i] == 1
                || rest[i] == outer[i + outer.len() - rest.len()] by {
                assert(rest[i] == from[i]);
            }
        }
        lemma_source_within(rest, outer, k / t);
        assert(from[from.len() - 1] == 1 || from[from.len() - 1] == to[to.len() - 1]);
        let place = if f == 1 {
            0
        } else {
            k % t
        };
        lemma_within(source(rest, outer, k / t), place, volume(rest) as int, f);
    }
}

/// The rows of an array that was put together from rows.
pub proof fn lemma_with_rows(a: Array, outer: Seq<nat>, from: spec_fn(int) -> int, k: int)
    requires
        a.dims.len() > 0,
        0 <= k < volume(outer),
    ensures
        a.with_rows(outer, from).dims == outer.push(a.width()),
        a.with_rows(outer, from).well_formed(),
        a.with_rows(outer, from).height() == volume(outer),
        a.with_rows(outer, from).row(k) == a.row(from(k)),
{
    let r = a.with_rows(outer, from);
    let w = a.width() as int;
    assert(outer.push(a.width()).drop_last() =~= outer);
    assert forall|c: int| 0 <= c < w implies r.row(k)[c] == a.row(from(k))[c] by {
        lemma_parts(k, c, w);
        lemma_within(k, c, volume(outer) as int, w);
    }
    assert(r.row(k) =~= a.row(from(k)));
}

/// One double without dimensions, of this bit pattern.
pub open spec fn double(bits: u64) -> Array {
    Array { dtype: ElemType::F64, dims: Seq::empty(), elems: seq![bits as int] }
}

/// The volume of one dimension.
pub proof fn lemma_volume_1(a: nat)
    ensures
        volume(seq![a]) == a,
{
    assert(seq![a].drop_last() =~= Seq::<nat>::empty());
    assert(volume(Seq::<nat>::empty()) == 1);
    assert(1 * a == a);
}

/// The volume of two dimensions.
pub proof fn lemma_volume_2(a: nat, b: nat)
    ensures
        volume(seq![a, b]) == a * b,
{
    lemma_volume_1(a);
    assert(seq![a, b].drop_last() =~= seq![a]);
}

/// The volume of three dimensions.
pub proof fn lemma_volume_3(a: nat, b: nat, c: nat)
    ensures
        volume(seq![a, b, c]) == a * b * c,
{
    lemma_volume_2(a, b);
    assert(seq![a, b, c].drop_last() =~= seq![a, b]);
}

/// The volume of four dimensions.
pub proof fn lemma_volume_4(a: nat, b: nat, c: nat, d: nat)
    ensures
        volume(seq![a, b, c, d]) == a * b * c * d,
{
    lemma_volume_3(a, b, c);
    assert(seq![a, b, c, d].drop_last() =~= seq![a, b, c]);
}

/// The extent of one dimension.
pub proof fn lemma_extent_1(a: nat)
    ensures
        extent(seq![a]) == at_least_one(a),
{
    assert(seq![a].drop_last() =~= Seq::<nat>::empty());
    assert(extent(Seq::<nat>::empty()) == 1);
    assert(1 * at_least_one(a) == at_least_one(a));
}

/// The extent of two dimensions.
pub proof fn lemma_extent_2(a: nat, b: nat)
    ensures
        extent(seq![a, b]) == at_least_one(a) * at_least_one(b),
{
    lemma_extent_1(a);
    assert(seq![a, b].drop_last() =~= seq![a]);
}

/// The extent of three dimensions.
pub proof fn lemma_extent_3(a: nat, b: nat, c: nat)
    ensures
        extent(seq![a, b, c]) == at_least_one(a) * at_least_one(b) * at_least_one(c),
{
    lemma_extent_2(a, b);
    assert(seq![a, b, c].drop_last() =~= seq![a, b]);
}

/// The extent of four dimensions.
pub proof fn lemma_extent_4(a: nat, b: nat, c: nat, d: nat)
    ensures
        extent(seq![a, b, c, d]) == at_least_one(a) * at_least_one(b) * at_least_one(c)
            * at_least_one(d),
{
    lemma_extent_3(a, b, c);
    assert(seq![a, b, c, d].drop_last() =~= seq![a, b, c]);
}

/// The extent of the first `i + 1` dimensions, from that of the first `i`.
proof fn lemma_extent_step(dims: Seq<nat>, i: int)
    requires
        0 <= i < dims.len(),
    ensures
        extent(dims.take(i + 1)) == extent(dims.take(i)) * at_least_one(dims[i]),
        extent(dims.take(i + 1)) >= extent(dims.take(i)),
{
    assert(dims.take(i + 1).drop_last() =~= dims.take(i));
    let (before, size) = (extent(dims.take(i)), at_least_one(dims[i]));
    assert(before * size >= before) by (nonlinear_arith)
        requires
            size >= 1,
    ;
}

/// The volume of the first `i + 1` dimensions, from that of the first `i`.
proof fn lemma_volume_step(dims: Seq<nat>, i: int)
    requires
        0 <= i < dims.len(),
    ensures
        volume(dims.take(i + 1)) == volume(dims.take(i)) * dims[i],
{
    assert(dims.take(i + 1).drop_last() =~= dims.take(i));
}

/// The number of elements that dimensions of these sizes hold, where an integer
/// can hold it.
pub fn checked_volume(dims: &Vec<usize>) -> (r: Option<usize>)
    ensures
        match r {
            Some(n) => n == volume(sizes(dims@)),
            None => volume(sizes(dims@)) > usize::MAX,
        },
{
    let ghost all = sizes(dims@);
    let mut so_far: Option<usize> = Some(1);
    let mut i: usize = 0;
    assert(all.take(0) =~= Seq::<nat>::empty());
    while i < dims.len()
        invariant
            all == sizes(dims@),
            i <= dims.len(),
            match so_far {
                Some(n) => n == volume(all.take(i as int)),
                None => volume(all.take(i as int)) > usize::MAX,
            },
        decreases dims.len() - i,
    {
        let d: usize = dims[i];
        proof {
            lemma_volume_step(all, i as int);
            assert(all[i as int] == d);
        }
        let ghost before = volume(all.take(i as int));
        so_far =
        if d == 0 {
            assert(before * 0 == 0);
            Some(0)
        } else {
            assert(before * d >= before) by (nonlinear_arith)
                requires
                    d > 0,
            ;
            match so_far {
                Some(n) => n.checked_mul(d),
                None => None,
            }
        };
        i = i + 1;
    }
    assert(all.take(i as int) =~= all);
    so_far
}

/// Whether dimensions of these sizes hold exactly `count` elements.
pub fn has_volume(dims: &Vec<usize>, count: usize) -> (r: bool)
    ensures
        r == (volume(sizes(dims@)) == count),
{
    match checked_volume(dims) {
        Some(n) => n == count,
        None => false,
    }
}

/// Whether tensors can have dimensions of these sizes.
pub fn is_allocatable(dims: &Vec<usize>) -> (r: bool)
    ensures
        r == allocatable(sizes(dims@)),
{
    let ghost all = sizes(dims@);
    let mut so_far: Option<usize> = Some(1);
    let mut i: usize = 0;
    assert(all.take(0) =~= Seq::<nat>::empty());
    while i < dims.len()
        invariant
            all == sizes(dims@),
            i <= dims.len(),
            match so_far {
                Some(n) => n == extent(all.take(i as int)),
                None => extent(all.take(i as int)) > usize::MAX,
            },
        decreases dims.len() - i,
    {
        let d: usize = dims[i];
        proof {
            lemma_extent_step(all, i as int);
            assert(all[i as int] == d);
        }
        if d > 0 {
            so_far =
            match so_far {
                Some(n) => n.checked_mul(d),
                None => None,
            };
        }
        i = i + 1;
    }
    assert(all.take(i as int) =~= all);
    match so_far {
        Some(n) => n <= (isize::MAX as usize) / 8,
        None => false,
    }
}

/// Tensors whose dimensions are not empty can be allocated exactly where eight bytes for
/// each of their elements fit in an allocation.
pub proof fn law_what_can_be_allocated(dims: Seq<nat>)
    requires
        forall|i: int| 0 <= i < dims.len() ==> #[trigger] dims[i] > 0,
    ensures
        allocatable(dims) <==> volume(dims) * 8 <= isize::MAX,
{
    lemma_extent_is_volume(dims);
}

/// Where no dimension is empty, none is left out.
proof fn lemma_extent_is_volume(dims: Seq<nat>)
    requires
        forall|i: int| 0 <= i < dims.len() ==> #[trigger] dims[i] > 0,
    ensures
        extent(dims) == volume(dims),
    decreases dims.len(),
{
    if dims.len() > 0 {
        let rest = dims.drop_last();
        assert forall|i: int| 0 <= i < rest.len() implies #[trigger] rest[i] > 0 by {
            assert(dims[i] > 0);
        }
        lemma_extent_is_volume(rest);
        assert(dims[dims.len() - 1] > 0);
    }
}

/// Whatever the dimensions, what can be allocated is eight bytes for each of as many
/// elements as their sizes multiply to, an empty one taken for one of size 1.
pub proof fn law_empty_dimensions_count_as_one(dims: Seq<nat>, size: nat)
    ensures
        allocatable(dims) <==> extent(dims) * 8 <= isize::MAX,
        extent(Seq::<nat>::empty()) == 1,
        size > 0 ==> extent(dims.push(size)) == extent(dims) * size,
        extent(dims.push(0)) == extent(dims),
{
    assert(dims.push(size).drop_last() =~= dims);
    assert(dims.push(0).drop_last() =~= dims);
    assert(extent(dims) * 1 == extent(dims));
}

/// As many elements as the sizes multiply to: one dimension more multiplies their number by
/// its size, and without dimensions there is one.
pub proof fn law_sizes_multiply(dims: Seq<nat>, size: nat)
    ensures
        volume(Seq::<nat>::empty()) == 1,
        volume(dims.push(size)) == volume(dims) * size,
{
    assert(dims.push(size).drop_last() =~= dims);
}

} // verus!
