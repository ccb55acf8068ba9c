//! What can go wrong.
use vstd::prelude::*;

verus! {

/// An error of this crate.
#[derive(Debug)]
pub enum ModelError {
    /// The model was asked for something else than embeddings.
    UnsupportedModelType,
    /// The tensor at this place in the list holds another number of elements
    /// than its dimensions do, or its dimensions are too large.
    MalformedTensor {
        /// The place in the list.
        index: usize,
    },
    /// The tensor at this place in the list has a name that another before it has.
    DuplicateName {
        /// The place in the list.
        index: usize,
    },
    /// The sequence at this place in the batch is longer than the model's last
    /// position.
    SequenceTooLong {
        /// The place in the batch.
        index: usize,
    },
    /// `candle` reported an error.
    Tensor(candle_core::Error),
}

impl ModelError {
    /// What the error says.
    pub open spec fn text(self) -> Seq<char> {
        match self {
            ModelError::UnsupportedModelType => "SiglipTextModel only supports embedding mode"@,
            ModelError::MalformedTensor { .. } => "a tensor does not fit its dimensions"@,
            ModelError::DuplicateName { .. } => "two tensors have one name"@,
            ModelError::SequenceTooLong { .. } => "a sequence has more tokens than positions"@,
            ModelError::Tensor(_) => "a tensor operation failed"@,
        }
    }

    /// What the error says.
    pub fn message(&self) -> (r: String)
        ensures
            r@ == self.text(),
    {
        match self {
            ModelError::UnsupportedModelType => {
                "SiglipTextModel only supports embedding mode".to_string()
            },
            ModelError::MalformedTensor { .. } => {
                "a tensor does not fit its dimensions".to_string()
            },
            ModelError::DuplicateName { .. } => "two tensors have one name".to_string(),
            ModelError::SequenceTooLong { .. } => {
                "a sequence has more tokens than positions".to_string()
            },
            ModelError::Tensor(_) => "a tensor operation failed".to_string(),
        }
    }
}

/// What an error says tells which kind of error it is, and tells no more: errors of one
/// kind say the same, errors of two kinds do not.
pub proof fn law_texts_tell_errors_apart(e1: ModelError, e2: ModelError)
    ensures
        e1.text() == e2.text() <==> {
            ||| e1 is UnsupportedModelType && e2 is UnsupportedModelType
            ||| e1 is MalformedTensor && e2 is MalformedTensor
            ||| e1 is DuplicateName && e2 is DuplicateName
            ||| e1 is SequenceTooLong && e2 is SequenceTooLong
            ||| e1 is Tensor && e2 is Tensor
        },
{
    reveal_strlit("SiglipTextModel only supports embedding mode");
    reveal_strlit("a tensor does not fit its dimensions");
    reveal_strlit("two tensors have one name");
    reveal_strlit("a sequence has more tokens than positions");
    reveal_strlit("a tensor operation failed");
    let (text1, text2) = (e1.text(), e2.text());
    assert("two tensors have one name"@[0] == 't' && "a tensor operation failed"@[0] == 'a');
    if text1 =~= text2 {
        assert(text1.len() == text2.len() && text1[0] == text2[0]);
    }
}

/// A result of `candle` as one of this crate.
pub(crate) fn lift<T>(r: Result<T, candle_core::Error>) -> (s: Result<T, ModelError>)
    ensures
        match r {
            Ok(t) => s == Ok::<T, ModelError>(t),
            Err(e) => s == Err::<T, ModelError>(ModelError::Tensor(e)),
        },
{
    match r {
        Ok(t) => Ok(t),
        Err(e) => Err(ModelError::Tensor(e)),
    }
}

} // verus!
