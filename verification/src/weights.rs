//! The weights of a model, by name.
//!
//! A [`VarBuilder`] holds named tensors and a path.  Modules step into their
//! part of the names with [`VarBuilder::pp`] and take their weights out of it
//! with [`VarBuilder::get`].
use std::collections::HashMap;

use candle_core::{DType, Device, Tensor};
use vstd::prelude::*;

use crate::array::{allocatable, sizes, volume};
use crate::array::{has_volume, is_allocatable};
use crate::array::{Array, ElemType, Precision};
use crate::error::ModelError;
use crate::outcome::{converted, is_converted, same_number};
use crate::tensor::{contents, plain, tensor_elems};

verus! {

/// A named tensor in single precision, as plain values.
pub struct NamedTensor {
    /// The name, its parts separated by dots.
    pub name: String,
    /// The size of each dimension, outermost first.
    pub dims: Vec<usize>,
    /// The bit patterns of the elements, in row-major order.
    pub bits: Vec<u32>,
}

impl NamedTensor {
    /// As many elements as the dimensions hold, which are small enough to be
    /// allocated.
    pub open spec fn well_formed(self) -> bool {
        &&& self.bits@.len() == volume(sizes(self.dims@))
        &&& allocatable(sizes(self.dims@))
    }

    /// What the tensor holds.
    pub open spec fn array(self) -> Array {
        single(self.bits@, self.dims@)
    }
}

/// The single-precision array of these bit patterns and dimensions.
pub open spec fn single(bits: Seq<u32>, dims: Seq<usize>) -> Array {
    Array {
        dtype: ElemType::F32,
        dims: sizes(dims),
        elems: bits.map_values(|b: u32| b as int),
    }
}

/// The arrays by name.
pub open spec fn by_name(names: Seq<Seq<char>>, arrays: Seq<Array>) -> Map<Seq<char>, Array>
    decreases names.len(),
{
    if names.len() == 0 {
        Map::empty()
    } else {
        by_name(names.drop_last(), arrays.drop_last()).insert(names.last(), arrays.last())
    }
}

/// Whether no tensor before this one has its name.
pub open spec fn has_new_name(tensors: Seq<NamedTensor>, i: int) -> bool {
    forall|j: int| 0 <= j < i ==> (#[trigger] tensors[j]).name@ != tensors[i].name@
}

/// Whether a tensor of a list is well formed and has a name of its own.
pub open spec fn is_sound(tensors: Seq<NamedTensor>, i: int) -> bool {
    tensors[i].well_formed() && has_new_name(tensors, i)
}

/// The names of a list of tensors.
pub open spec fn names_of(tensors: Seq<NamedTensor>) -> Seq<Seq<char>> {
    tensors.map_values(|t: NamedTensor| t.name@)
}

/// What a list of tensors holds.
pub open spec fn arrays_of(tensors: Seq<NamedTensor>) -> Seq<Array> {
    tensors.map_values(|t: NamedTensor| t.array())
}

/// The name of a weight on a path: the parts and the name, separated by dots.
pub open spec fn full_name(path: Seq<Seq<char>>, name: Seq<char>) -> Seq<char>
    decreases path.len(),
{
    if path.len() == 0 {
        name
    } else {
        path.first() + seq!['.'] + full_name(path.drop_first(), name)
    }
}

/// The digits of `n` in base ten.
pub open spec fn decimal(n: nat) -> Seq<char>
    decreases n,
{
    if n < 10 {
        seq![digit(n)]
    } else {
        decimal(n / 10).push(digit(n % 10))
    }
}

/// The digit of a number below ten.
pub open spec fn digit(n: nat) -> char {
    (('0' as int) + n) as char
}

/// The named tensors of a `candle_nn::VarBuilder`, and the path into their
/// names at which it stands.
#[verifier::external_body]
pub struct VarBuilder {
    inner: candle_nn::VarBuilder<'static>,
}

/// The arrays that a builder holds, by full name.
pub uninterp spec fn stored(vb: VarBuilder) -> Map<Seq<char>, Array>;

/// The path at which a builder stands.
pub uninterp spec fn path_of(vb: VarBuilder) -> Seq<Seq<char>>;

/// The precision in which a builder hands weights out.
pub uninterp spec fn precision_of(vb: VarBuilder) -> Precision;

/// A store of weights together with a place in it: what a builder is.
pub struct Store {
    /// The arrays, by full name.
    pub arrays: Map<Seq<char>, Array>,
    /// The precision in which weights are handed out.
    pub precision: Precision,
    /// The path to this place.
    pub path: Seq<Seq<char>>,
}

impl Store {
    /// One step further along the path.
    pub open spec fn at(self, part: Seq<char>) -> Store {
        Store { path: self.path.push(part), ..self }
    }

    /// The array of this name here.
    pub open spec fn array(self, name: Seq<char>) -> Array {
        self.arrays[full_name(self.path, name)]
    }

    /// Whether there is a weight of this name and these dimensions here.
    pub open spec fn has(self, name: Seq<char>, dims: Seq<nat>) -> bool {
        &&& self.arrays.contains_key(full_name(self.path, name))
        &&& self.array(name).dims == dims
    }

    /// Whether `a` is the weight of this name and these dimensions here: what
    /// is stored, converted to the store's precision.  In single precision that
    /// is what is stored.
    pub open spec fn gives(self, name: Seq<char>, dims: Seq<nat>, a: Array) -> bool {
        let array = self.array(name);
        &&& self.has(name, dims)
        &&& a.dtype == self.precision.elem_type()
        &&& a.dims == dims
        &&& is_converted(array, a)
        &&& self.precision == Precision::F32 ==> a == array
    }
}

/// Calls `Tensor::from_raw_buffer`: the single-precision tensor of these bit
/// patterns, under these dimensions.  `candle` does not hold the number of
/// elements to the dimensions, so the caller does.
#[verifier::external_body]
fn from_bits(bits: &Vec<u32>, dims: &Vec<usize>) -> (r: Result<Tensor, candle_core::Error>)
    requires
        bits@.len() == volume(sizes(dims@)),
        allocatable(sizes(dims@)),
    ensures
        r is Ok,
        r matches Ok(t) ==> plain(t, ElemType::F32) && contents(t) == single(bits@, dims@),
{
    let bytes: Vec<u8> = bits.iter().flat_map(|b| b.to_ne_bytes()).collect();
    Tensor::from_raw_buffer(&bytes, DType::F32, dims, &Device::Cpu)
}

/// Calls `candle_nn::VarBuilder::from_tensors`: a builder of these tensors, at
/// the root of their names, which are all different.
#[verifier::external_body]
fn build(names: Vec<String>, tensors: Vec<Tensor>, precision: Precision) -> (r: VarBuilder)
    requires
        names@.len() == tensors@.len(),
        forall|i: int, j: int|
            0 <= i < j < names@.len() ==> (#[trigger] names@[i])@ != (#[trigger] names@[j])@,
        forall|i: int| 0 <= i < tensors@.len() ==> plain(#[trigger] tensors@[i], ElemType::F32),
    ensures
        stored(r) == by_name(
            names@.map_values(|n: String| n@),
            tensors@.map_values(|t: Tensor| contents(t)),
        ),
        path_of(r) == Seq::<Seq<char>>::empty(),
        precision_of(r) == precision,
{
    let dtype = match precision {
        Precision::F16 => DType::F16,
        Precision::F32 => DType::F32,
    };
    let named: HashMap<String, Tensor> = names.into_iter().zip(tensors).collect();
    VarBuilder { inner: candle_nn::VarBuilder::from_tensors(named, dtype, &Device::Cpu) }
}

impl VarBuilder {
    /// What the builder is.
    pub open spec fn store(self) -> Store {
        Store { arrays: stored(self), precision: precision_of(self), path: path_of(self) }
    }

    /// A builder of these tensors that hands weights out in the given
    /// precision, at the root of their names.  Fails on the first tensor that
    /// holds another number of elements than its dimensions do, whose dimensions are
    /// too large, or whose name another before it has.
    pub fn from_tensors(tensors: Vec<NamedTensor>, precision: Precision) -> (r: Result<
        VarBuilder,
        ModelError,
    >)
        ensures
            match r {
                Ok(vb) => {
                    &&& forall|i: int| 0 <= i < tensors@.len() ==> #[trigger] is_sound(tensors@, i)
                    &&& vb.store() == (Store {
                        arrays: by_name(names_of(tensors@), arrays_of(tensors@)),
                        precision,
                        path: Seq::empty(),
                    })
                },
                Err(ModelError::MalformedTensor { index }) => {
                    &&& index < tensors@.len()
                    &&& !tensors@[index as int].well_formed()
                    &&& forall|i: int| 0 <= i < index ==> #[trigger] is_sound(tensors@, i)
                },
                Err(ModelError::DuplicateName { index }) => {
                    &&& index < tensors@.len()
                    &&& tensors@[index as int].well_formed()
                    &&& !has_new_name(tensors@, index as int)
                    &&& forall|i: int| 0 <= i < index ==> #[trigger] is_sound(tensors@, i)
                },
                Err(_) => false,
            },
    {
        let mut names: Vec<String> = Vec::new();
        let mut built: Vec<Tensor> = Vec::new();
        let mut i: usize = 0;
        while i < tensors.len()
            invariant
                i <= tensors@.len(),
                names@.len() == i,
                built@.len() == i,
                forall|k: int| 0 <= k < i ==> #[trigger] is_sound(tensors@, k),
                forall|k: int| 0 <= k < i ==> (#[trigger] names@[k])@ == tensors@[k].name@,
                forall|j: int, k: int|
                    0 <= j < k < i ==> (#[trigger] names@[j])@ != (#[trigger] names@[k])@,
                forall|k: int|
                    0 <= k < i ==> plain(#[trigger] built@[k], ElemType::F32) && contents(built@[k])
                        == tensors@[k].array(),
            decreases tensors@.len() - i,
        {
            let t = &tensors[i];
            if !has_volume(&t.dims, t.bits.len()) || !is_allocatable(&t.dims) {
                return Err(ModelError::MalformedTensor { index: i });
            }
            let mut j: usize = 0;
            while j < i
                invariant
                    j <= i,
                    i < tensors@.len(),
                    names@.len() == i,
                    t == tensors@[i as int],
                    t.well_formed(),
                    forall|k: int| 0 <= k < i ==> #[trigger] is_sound(tensors@, k),
                    forall|k: int| 0 <= k < i ==> (#[trigger] names@[k])@ == tensors@[k].name@,
                    forall|k: int| 0 <= k < j ==> (#[trigger] tensors@[k]).name@ != t.name@,
                decreases i - j,
            {
                if names[j] == t.name {
                    assert(tensors@[j as int].name@ == t.name@);
                    return Err(ModelError::DuplicateName { index: i });
                }
                j = j + 1;
            }
            match from_bits(&t.bits, &t.dims) {
                Ok(tensor) => {
                    names.push(t.name.clone());
                    built.push(tensor);
                },
                Err(e) => {
                    return Err(ModelError::Tensor(e));
                },
            }
            assert(is_sound(tensors@, i as int));
            assert forall|m: int, k: int| 0 <= m < k < i + 1 implies (#[trigger] names@[m])@
                != (#[trigger] names@[k])@ by {
                assert(tensors@[m].name@ == names@[m]@);
            }
            i = i + 1;
        }
        assert(names@.map_values(|n: String| n@) =~= names_of(tensors@));
        assert(built@.map_values(|t: Tensor| contents(t)) =~= arrays_of(tensors@));
        Ok(build(names, built, precision))
    }

    /// Calls `candle_nn::VarBuilder::pp`: the same builder, one step further
    /// along the path.
    #[verifier::external_body]
    pub(crate) fn pp(&self, part: &str) -> (r: VarBuilder)
        ensures
            r.store() == self.store().at(part@),
    {
        VarBuilder { inner: self.inner.pp(part) }
    }

    /// Calls `candle_nn::VarBuilder::pp` with a number, which stands in the
    /// path by its decimal digits.
    #[verifier::external_body]
    pub(crate) fn pp_number(&self, part: usize) -> (r: VarBuilder)
        ensures
            r.store() == self.store().at(decimal(part as nat)),
    {
        VarBuilder { inner: self.inner.pp(part) }
    }

    /// Calls `candle_nn::VarBuilder::get`: the weight of this name and these
    /// dimensions here, in the builder's precision; an error where there is
    /// none.  What is stored is in single precision, and is rounded to the nearest half on
    /// every machine, so what an element is converted to has a name; which of the patterns
    /// that are no number comes out is left unsaid.
    #[verifier::external_body]
    pub(crate) fn get(&self, dims: Vec<usize>, name: &str) -> (r: Result<
        Tensor,
        candle_core::Error,
    >)
        ensures
            r is Ok <==> self.store().has(name@, sizes(dims@)),
            r matches Ok(t) ==> {
                &&& plain(t, self.store().precision.elem_type())
                &&& self.store().gives(name@, sizes(dims@), contents(t))
                &&& forall|k: int|
                    0 <= k < tensor_elems(t).len() ==> same_number(
                        self.store().precision.elem_type(),
                        #[trigger] tensor_elems(t)[k],
                        converted(
                            self.store().array(name@).dtype,
                            self.store().array(name@).elems[k],
                            self.store().precision.elem_type(),
                        ),
                    )
            },
    {
        self.inner.get(dims, name)
    }
}

} // verus!
