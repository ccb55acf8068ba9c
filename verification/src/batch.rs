//! Batches of token sequences: how they are padded, and which rows of the
//! padded batch are read out again.
use vstd::prelude::*;

use crate::error::ModelError;

verus! {

/// How the hidden states of a text are made into one embedding.
#[derive(Clone, Copy, Debug, PartialEq, Eq, Structural)]
pub enum Pool {
    /// The hidden state of the first token.
    Cls,
    /// The mean of the hidden states.
    Mean,
    /// Sparse lexical expansion.
    Splade,
    /// The hidden state of the last token.
    LastToken,
}

/// What a model is asked for.
#[derive(Clone, Copy, Debug, PartialEq, Eq, Structural)]
pub enum ModelType {
    /// Scores of classes.
    Classifier,
    /// Embeddings, pooled as said.
    Embedding(Pool),
}

/// A batch of token sequences, one after the other.
pub struct Batch {
    /// The token ids of all sequences.
    pub input_ids: Vec<u32>,
    /// The token types of all sequences.
    pub token_type_ids: Vec<u32>,
    /// The positions of all sequences.
    pub position_ids: Vec<u32>,
    /// Where each sequence starts in `input_ids`, and where the last one ends.
    pub cumulative_seq_lengths: Vec<u32>,
    /// The length of the longest sequence.
    pub max_length: u32,
    /// The sequences of which a pooled embedding is wanted.
    pub pooled_indices: Vec<u32>,
    /// The sequences of which the embeddings of all tokens are wanted.
    pub raw_indices: Vec<u32>,
}

/// A sequence padded to `len` tokens, at its end.
pub open spec fn pad(tokens: Seq<u32>, len: nat, pad_id: u32) -> Seq<u32> {
    tokens + Seq::new((len - tokens.len()) as nat, |k: int| pad_id)
}

/// The sequences, each padded to `len` tokens, one after the other.
pub open spec fn pad_all(sequences: Seq<Seq<u32>>, len: nat, pad_id: u32) -> Seq<u32>
    decreases sequences.len(),
{
    if sequences.len() == 0 {
        Seq::empty()
    } else {
        pad_all(sequences.drop_last(), len, pad_id) + pad(sequences.last(), len, pad_id)
    }
}

/// In a batch padded to `len` tokens, the row of the last position of each of
/// these sequences.
pub open spec fn last_rows(indices: Seq<u32>, len: nat) -> Seq<int> {
    indices.map_values(|i: u32| i * len + len - 1)
}

/// In a batch padded to `len` tokens, the rows of the real tokens of each of
/// these sequences.
pub open spec fn token_rows(
    sequences: Seq<Seq<u32>>,
    indices: Seq<u32>,
    len: nat,
) -> Seq<int>
    decreases indices.len(),
{
    if indices.len() == 0 {
        Seq::empty()
    } else {
        let i = indices.last() as int;
        token_rows(sequences, indices.drop_last(), len) + Seq::new(
            sequences[i].len(),
            |j: int| i * len + j,
        )
    }
}

impl Batch {
    /// The number of sequences.
    pub open spec fn size(self) -> nat {
        (self.cumulative_seq_lengths@.len() - 1) as nat
    }

    /// The tokens of one sequence.
    pub open spec fn sequence(self, i: int) -> Seq<u32> {
        self.input_ids@.subrange(
            self.cumulative_seq_lengths@[i] as int,
            self.cumulative_seq_lengths@[i + 1] as int,
        )
    }

    /// The sequences.
    pub open spec fn sequences(self) -> Seq<Seq<u32>> {
        Seq::new(self.size(), |i: int| self.sequence(i))
    }

    /// The bounds of the sequences follow one another within the tokens, and
    /// only sequences of the batch are asked for.
    pub open spec fn well_formed(self) -> bool {
        let bounds = self.cumulative_seq_lengths@;
        &&& bounds.len() > 0
        &&& forall|i: int, j: int| 0 <= i <= j < bounds.len() ==> bounds[i] <= bounds[j]
        &&& bounds.last() <= self.input_ids@.len()
        &&& forall|k: int|
            0 <= k < self.pooled_indices@.len() ==> #[trigger] self.pooled_indices@[k]
                < self.size()
        &&& forall|k: int|
            0 <= k < self.raw_indices@.len() ==> #[trigger] self.raw_indices@[k] < self.size()
    }

    /// Whether no sequence is longer than `len`.
    pub open spec fn within(self, len: nat) -> bool {
        all_within(self.sequences(), len)
    }

    /// The number of sequences.
    pub fn len(&self) -> (r: usize)
        requires
            self.cumulative_seq_lengths@.len() > 0,
        ensures
            r == self.size(),
    {
        self.cumulative_seq_lengths.len() - 1
    }

    /// Whether there is no sequence.
    pub fn is_empty(&self) -> (r: bool)
        requires
            self.cumulative_seq_lengths@.len() > 0,
        ensures
            r == (self.size() == 0),
    {
        self.len() == 0
    }

    /// Whether the batch is well formed.
    pub fn is_well_formed(&self) -> (r: bool)
        ensures
            r == self.well_formed(),
    {
        let bounds = &self.cumulative_seq_lengths;
        if bounds.len() == 0 {
            return false;
        }
        let mut i: usize = 1;
        while i < bounds.len()
            invariant
                bounds@ == self.cumulative_seq_lengths@,
                1 <= i <= bounds@.len(),
                forall|j: int, k: int| 0 <= j <= k < i ==> bounds@[j] <= bounds@[k],
            decreases bounds@.len() - i,
        {
            if bounds[i] < bounds[i - 1] {
                assert(bounds@[i - 1] > bounds@[i as int]);
                return false;
            }
            i = i + 1;
        }
        if bounds[bounds.len() - 1] as usize > self.input_ids.len() {
            return false;
        }
        all_below(&self.pooled_indices, self.len()) && all_below(&self.raw_indices, self.len())
    }

    /// Whether no sequence is longer than `len`.
    pub fn is_within(&self, len: usize) -> (r: bool)
        requires
            self.well_formed(),
        ensures
            r == self.within(len as nat),
    {
        let size: usize = self.len();
        let mut i: usize = 0;
        while i < size
            invariant
                self.well_formed(),
                size == self.size(),
                i <= size,
                forall|k: int|
                    0 <= k < i ==> (#[trigger] self.sequences()[k]).len() <= len,
            decreases size - i,
        {
            if self.length(i) as usize > len {
                assert(self.sequences()[i as int].len() > len);
                return false;
            }
            i = i + 1;
        }
        true
    }

    /// The number of tokens of one sequence.
    fn length(&self, i: usize) -> (r: u32)
        requires
            self.well_formed(),
            i < self.size(),
        ensures
            r == self.sequence(i as int).len(),
            r == self.sequences()[i as int].len(),
    {
        assert(self.size() < self.cumulative_seq_lengths@.len());
        assert(self.cumulative_seq_lengths@.len() == self.cumulative_seq_lengths.len());
        assert(self.cumulative_seq_lengths@[i as int] <= self.cumulative_seq_lengths@[i + 1]);
        assert(self.cumulative_seq_lengths@[i + 1] <= self.cumulative_seq_lengths@.last());
        self.cumulative_seq_lengths[i + 1] - self.cumulative_seq_lengths[i]
    }

    /// The number of tokens of the sequences of which the embeddings of all
    /// tokens are wanted, where an integer can hold it.
    pub fn raw_token_count(&self) -> (r: Option<usize>)
        requires
            self.well_formed(),
        ensures
            match r {
                Some(n) => n == token_count(self.sequences(), self.raw_indices@),
                None => token_count(self.sequences(), self.raw_indices@) > usize::MAX,
            },
    {
        let mut so_far: Option<usize> = Some(0);
        let mut k: usize = 0;
        while k < self.raw_indices.len()
            invariant
                self.well_formed(),
                k <= self.raw_indices@.len(),
                match so_far {
                    Some(n) => n == token_count(
                        self.sequences(),
                        self.raw_indices@.take(k as int),
                    ),
                    None => token_count(self.sequences(), self.raw_indices@.take(k as int))
                        > usize::MAX,
                },
            decreases self.raw_indices@.len() - k,
        {
            proof {
                lemma_token_count_step(self.sequences(), self.raw_indices@, k as int);
            }
            let length: u32 = self.length(self.raw_indices[k] as usize);
            so_far =
            match so_far {
                Some(n) => n.checked_add(length as usize),
                None => None,
            };
            k = k + 1;
        }
        assert(self.raw_indices@.take(k as int) =~= self.raw_indices@);
        so_far
    }

    /// Pads every sequence to `len` tokens.  Fails on the first sequence that is
    /// longer.
    pub fn pad_to(&self, len: usize, pad_id: u32) -> (r: Result<Vec<u32>, ModelError>)
        requires
            self.well_formed(),
        ensures
            match r {
                Ok(ids) => {
                    &&& self.within(len as nat)
                    &&& ids@ == pad_all(self.sequences(), len as nat, pad_id)
                },
                Err(ModelError::SequenceTooLong { index }) => {
                    &&& index < self.size()
                    &&& self.sequence(index as int).len() > len
                    &&& forall|i: int|
                        0 <= i < index ==> (#[trigger] self.sequence(i)).len() <= len
                },
                Err(_) => false,
            },
    {
        let mut ids: Vec<u32> = Vec::new();
        let size: usize = self.len();
        let mut i: usize = 0;
        assert(self.sequences().take(0) =~= Seq::<Seq<u32>>::empty());
        while i < size
            invariant
                self.well_formed(),
                size == self.size(),
                i <= size,
                forall|k: int| 0 <= k < i ==> (#[trigger] self.sequence(k)).len() <= len,
                ids@ == pad_all(self.sequences().take(i as int), len as nat, pad_id),
            decreases size - i,
        {
            let start: usize = self.cumulative_seq_lengths[i] as usize;
            let end: usize = self.cumulative_seq_lengths[i + 1] as usize;
            let ghost tokens = self.sequence(i as int);
            let ghost before = ids@;
            assert(start <= end && end <= self.input_ids@.len()) by {
                assert(self.cumulative_seq_lengths@[i as int] <= self.cumulative_seq_lengths@[i
                    + 1]);
                assert(self.cumulative_seq_lengths@[i + 1]
                    <= self.cumulative_seq_lengths@.last());
            }
            if end - start > len {
                return Err(ModelError::SequenceTooLong { index: i });
            }
            let mut j: usize = start;
            while j < end
                invariant
                    start <= j <= end <= self.input_ids@.len(),
                    tokens == self.input_ids@.subrange(start as int, end as int),
                    ids@ == before + tokens.take(j - start),
                decreases end - j,
            {
                ids.push(self.input_ids[j]);
                j = j + 1;
                assert(tokens.take(j - start) =~= tokens.take(j - start - 1).push(
                    tokens[j - start - 1],
                ));
            }
            assert(tokens.take(j - start) =~= tokens);
            let mut filled: usize = end - start;
            while filled < len
                invariant
                    tokens.len() <= filled <= len,
                    ids@ == before + pad(tokens, filled as nat, pad_id),
                decreases len - filled,
            {
                ids.push(pad_id);
                filled = filled + 1;
                assert(pad(tokens, filled as nat, pad_id) =~= pad(
                    tokens,
                    (filled - 1) as nat,
                    pad_id,
                ).push(pad_id));
            }
            assert(self.sequences().take(i + 1).drop_last() =~= self.sequences().take(i as int));
            i = i + 1;
        }
        assert(self.sequences().take(i as int) =~= self.sequences());
        Ok(ids)
    }

    /// In the batch padded to `len` tokens, the rows of the last position of the
    /// sequences of which a pooled embedding is wanted.
    pub fn pooled_rows(&self, len: usize) -> (r: Vec<u32>)
        requires
            self.well_formed(),
            len > 0,
            self.size() * len <= u32::MAX,
        ensures
            r@.map_values(|row: u32| row as int) == last_rows(self.pooled_indices@, len as nat),
            forall|k: int| 0 <= k < r@.len() ==> #[trigger] r@[k] < self.size() * len,
    {
        let mut rows: Vec<u32> = Vec::new();
        let mut k: usize = 0;
        while k < self.pooled_indices.len()
            invariant
                self.well_formed(),
                len > 0,
                self.size() * len <= u32::MAX,
                k <= self.pooled_indices@.len(),
                rows@.len() == k,
                forall|m: int|
                    0 <= m < k ==> #[trigger] rows@[m] == self.pooled_indices@[m] * len + len - 1,
                forall|m: int| 0 <= m < k ==> #[trigger] rows@[m] < self.size() * len,
            decreases self.pooled_indices@.len() - k,
        {
            let i: u32 = self.pooled_indices[k];
            let ghost size = self.size();
            assert(i * len + len <= size * len && len <= size * len) by (nonlinear_arith)
                requires
                    i < size,
                    len > 0,
            ;
            assert(i * len >= 0) by (nonlinear_arith);
            rows.push(i * (len as u32) + (len as u32 - 1));
            k = k + 1;
        }
        assert(rows@.map_values(|row: u32| row as int) =~= last_rows(
            self.pooled_indices@,
            len as nat,
        ));
        rows
    }

    /// In the batch padded to `len` tokens, the rows of the real tokens of the
    /// sequences of which the embeddings of all tokens are wanted.
    pub fn raw_rows(&self, len: usize) -> (r: Vec<u32>)
        requires
            self.well_formed(),
            self.within(len as nat),
            self.size() * len <= u32::MAX,
        ensures
            r@.map_values(|row: u32| row as int) == token_rows(
                self.sequences(),
                self.raw_indices@,
                len as nat,
            ),
            forall|k: int| 0 <= k < r@.len() ==> #[trigger] r@[k] < self.size() * len,
    {
        let mut rows: Vec<u32> = Vec::new();
        let mut k: usize = 0;
        let ghost sequences = self.sequences();
        assert(self.raw_indices@.take(0) =~= Seq::<u32>::empty());
        assert(rows@.map_values(|row: u32| row as int) =~= Seq::<int>::empty());
        while k < self.raw_indices.len()
            invariant
                self.well_formed(),
                self.within(len as nat),
                sequences == self.sequences(),
                self.size() * len <= u32::MAX,
                k <= self.raw_indices@.len(),
                rows@.map_values(|row: u32| row as int) == token_rows(
                    sequences,
                    self.raw_indices@.take(k as int),
                    len as nat,
                ),
                forall|m: int| 0 <= m < rows@.len() ==> #[trigger] rows@[m] < self.size() * len,
            decreases self.raw_indices@.len() - k,
        {
            let i: usize = self.raw_indices[k] as usize;
            let length: u32 = self.length(i);
            let ghost before = rows@.map_values(|row: u32| row as int);
            let mut j: u32 = 0;
            assert(before + Seq::new(0, |m: int| i * len + m) =~= before);
            while j < length
                invariant
                    i < self.size(),
                    length <= len,
                    self.size() * len <= u32::MAX,
                    j <= length,
                    rows@.map_values(|row: u32| row as int) == before + Seq::new(
                        j as nat,
                        |m: int| i * len + m,
                    ),
                    forall|m: int|
                        0 <= m < rows@.len() ==> #[trigger] rows@[m] < self.size() * len,
                decreases length - j,
            {
                let ghost size = self.size();
                assert(i * len + len <= size * len) by (nonlinear_arith)
                    requires
                        i < size,
                ;
                assert(i * len >= 0) by (nonlinear_arith);
                let ghost old_rows = rows@;
                rows.push((i * len) as u32 + j);
                assert(rows@.map_values(|row: u32| row as int) =~= old_rows.map_values(
                    |row: u32| row as int,
                ).push(i * len + j));
                j = j + 1;
                assert(Seq::new(j as nat, |m: int| i * len + m) =~= Seq::new(
                    (j - 1) as nat,
                    |m: int| i * len + m,
                ).push(i * len + j - 1));
            }
            assert(self.raw_indices@.take(k + 1).drop_last() =~= self.raw_indices@.take(k as int));
            k = k + 1;
        }
        assert(self.raw_indices@.take(k as int) =~= self.raw_indices@);
        rows
    }
}

/// Whether every number of a list is below `bound`.
fn all_below(numbers: &Vec<u32>, bound: usize) -> (r: bool)
    ensures
        r == forall|k: int| 0 <= k < numbers@.len() ==> #[trigger] numbers@[k] < bound,
{
    let mut k: usize = 0;
    while k < numbers.len()
        invariant
            k <= numbers@.len(),
            forall|m: int| 0 <= m < k ==> #[trigger] numbers@[m] < bound,
        decreases numbers@.len() - k,
    {
        if numbers[k] as usize >= bound {
            return false;
        }
        k = k + 1;
    }
    true
}

/// Whether no sequence is longer than `len`.
pub open spec fn all_within(sequences: Seq<Seq<u32>>, len: nat) -> bool {
    forall|i: int| 0 <= i < sequences.len() ==> (#[trigger] sequences[i]).len() <= len
}

/// The tokens of these sequences, one after the other.
pub open spec fn tokens_of(sequences: Seq<Seq<u32>>, indices: Seq<u32>) -> Seq<u32>
    decreases indices.len(),
{
    if indices.len() == 0 {
        Seq::empty()
    } else {
        tokens_of(sequences, indices.drop_last()) + sequences[indices.last() as int]
    }
}

/// How many tokens these sequences have, all together.
pub open spec fn token_count(sequences: Seq<Seq<u32>>, indices: Seq<u32>) -> nat
    decreases indices.len(),
{
    if indices.len() == 0 {
        0
    } else {
        token_count(sequences, indices.drop_last()) + sequences[indices.last() as int].len()
    }
}

/// A batch is well formed exactly where its bounds never fall, the last of them lies
/// within the tokens, and each request is for a text that it has: there is one text fewer
/// than there are bounds.
pub proof fn law_well_formed_batches(batch: Batch)
    ensures
        batch.well_formed() <==> {
            let bounds = batch.cumulative_seq_lengths@;
            &&& bounds.len() > 0
            &&& forall|i: int|
                0 < i < bounds.len() ==> bounds[i - 1] <= #[trigger] bounds[i]
            &&& bounds[bounds.len() - 1] <= batch.input_ids@.len()
            &&& forall|k: int|
                0 <= k < batch.pooled_indices@.len() ==> #[trigger] batch.pooled_indices@[k] + 1
                    < bounds.len()
            &&& forall|k: int|
                0 <= k < batch.raw_indices@.len() ==> #[trigger] batch.raw_indices@[k] + 1
                    < bounds.len()
        },
{
    let bounds = batch.cumulative_seq_lengths@;
    if forall|i: int| 0 < i < bounds.len() ==> bounds[i - 1] <= #[trigger] bounds[i] {
        assert forall|i: int, j: int| 0 <= i <= j < bounds.len() implies bounds[i]
            <= bounds[j] by {
            lemma_bounds_rise(bounds, i, j);
        }
    }
}

/// Bounds that never fall from one to the next never fall.
proof fn lemma_bounds_rise(bounds: Seq<u32>, i: int, j: int)
    requires
        forall|k: int| 0 < k < bounds.len() ==> bounds[k - 1] <= #[trigger] bounds[k],
        0 <= i <= j < bounds.len(),
    ensures
        bounds[i] <= bounds[j],
    decreases j - i,
{
    if i < j {
        lemma_bounds_rise(bounds, i, j - 1);
    }
}

/// The texts of a batch follow one another: put together, they are the tokens between the
/// first bound and the last.
pub proof fn law_texts_follow_one_another(batch: Batch, n: int)
    requires
        batch.well_formed(),
        0 <= n < batch.cumulative_seq_lengths@.len(),
    ensures
        batch.sequences().len() + 1 == batch.cumulative_seq_lengths@.len(),
        batch.sequences().take(n).flatten() == batch.input_ids@.subrange(
            batch.cumulative_seq_lengths@[0] as int,
            batch.cumulative_seq_lengths@[n] as int,
        ),
    decreases n,
{
    let bounds = batch.cumulative_seq_lengths@;
    let texts = batch.sequences();
    assert(bounds[n] <= bounds[bounds.len() - 1]);
    if n > 0 {
        law_texts_follow_one_another(batch, n - 1);
        assert(bounds[0] <= bounds[n - 1] <= bounds[n]);
        assert(texts.take(n).drop_last() =~= texts.take(n - 1));
        texts.take(n).lemma_flatten_and_flatten_alt_are_equivalent();
        texts.take(n - 1).lemma_flatten_and_flatten_alt_are_equivalent();
        assert(texts.take(n).last() == texts[n - 1]);
        assert(batch.input_ids@.subrange(bounds[0] as int, bounds[n] as int)
            =~= batch.input_ids@.subrange(bounds[0] as int, bounds[n - 1] as int) + texts[n - 1]);
    } else {
        assert(texts.take(0) =~= Seq::<Seq<u32>>::empty());
        assert(batch.input_ids@.subrange(bounds[0] as int, bounds[0] as int) =~= Seq::<
            u32,
        >::empty());
    }
}

/// The rows that are pooled are the last of their texts, in the order of the requests.
pub proof fn law_last_rows(indices: Seq<u32>, len: nat, k: int)
    requires
        0 <= k < indices.len(),
    ensures
        last_rows(indices, len).len() == indices.len(),
        last_rows(indices, len)[k] == (indices[k] + 1) * len - 1,
{
    assert((indices[k] + 1) * len == indices[k] * len + len) by (nonlinear_arith);
}

/// The tokens of some texts and of some others are as many as those of all of them; those
/// of one text are as many as it has.
pub proof fn law_tokens_add_up(sequences: Seq<Seq<u32>>, indices1: Seq<u32>, indices2: Seq<u32>)
    ensures
        token_count(sequences, indices1 + indices2) == token_count(sequences, indices1)
            + token_count(sequences, indices2),
        indices1.len() == 1 ==> token_count(sequences, indices1)
            == sequences[indices1[0] as int].len(),
    decreases indices2.len(),
{
    if indices2.len() == 0 {
        assert(indices1 + indices2 =~= indices1);
    } else {
        let rest = indices2.drop_last();
        assert((indices1 + indices2).drop_last() =~= indices1 + rest);
        law_tokens_add_up(sequences, indices1, rest);
    }
    if indices1.len() == 1 {
        assert(indices1.drop_last() =~= Seq::<u32>::empty());
        assert(token_count(sequences, Seq::<u32>::empty()) == 0);
    }
}

/// The rows of real tokens are as many as the tokens.
pub proof fn law_one_row_per_token(sequences: Seq<Seq<u32>>, indices: Seq<u32>, len: nat)
    ensures
        token_rows(sequences, indices, len).len() == token_count(sequences, indices),
    decreases indices.len(),
{
    if indices.len() > 0 {
        law_one_row_per_token(sequences, indices.drop_last(), len);
    }
}

/// The row of token `j` of the `k`-th text asked for stands behind those of the
/// texts asked for before it.
pub proof fn law_place_of_token_rows(
    sequences: Seq<Seq<u32>>,
    indices: Seq<u32>,
    len: nat,
    k: int,
    j: int,
)
    requires
        0 <= k < indices.len(),
        0 <= j < sequences[indices[k] as int].len(),
    ensures
        token_count(sequences, indices.take(k)) + j < token_rows(sequences, indices, len).len(),
        token_rows(sequences, indices, len)[token_count(sequences, indices.take(k)) + j]
            == indices[k] * len + j,
    decreases indices.len(),
{
    let rest = indices.drop_last();
    law_one_row_per_token(sequences, rest, len);
    if k < rest.len() {
        law_place_of_token_rows(sequences, rest, len, k, j);
        assert(rest.take(k) =~= indices.take(k));
    } else {
        assert(rest =~= indices.take(k));
    }
}

/// The tokens of the first `i + 1` sequences, from those of the first `i`.
proof fn lemma_token_count_step(sequences: Seq<Seq<u32>>, indices: Seq<u32>, i: int)
    requires
        0 <= i < indices.len(),
    ensures
        token_count(sequences, indices.take(i + 1)) == token_count(sequences, indices.take(i))
            + sequences[indices[i] as int].len(),
{
    assert(indices.take(i + 1).drop_last() =~= indices.take(i));
}

/// A padded batch holds `len` tokens per sequence.
pub proof fn law_padded_length(sequences: Seq<Seq<u32>>, len: nat, pad_id: u32)
    requires
        all_within(sequences, len),
    ensures
        pad_all(sequences, len, pad_id).len() == sequences.len() * len,
    decreases sequences.len(),
{
    if sequences.len() > 0 {
        let rest = sequences.drop_last();
        assert(all_within(rest, len)) by {
            assert forall|i: int| 0 <= i < rest.len() implies (#[trigger] rest[i]).len() <= len by {
                assert(rest[i] == sequences[i]);
            }
        }
        law_padded_length(rest, len, pad_id);
        assert(sequences.last().len() <= len);
        assert(rest.len() * len + len == sequences.len() * len) by (nonlinear_arith)
            requires
                rest.len() + 1 == sequences.len(),
        ;
    } else {
        assert(0 * len == 0);
    }
}

/// Padding a text that was padded in part comes to padding the text.
pub proof fn law_padding_again(tokens: Seq<u32>, part: nat, len: nat, pad_id: u32)
    requires
        tokens.len() <= part <= len,
    ensures
        pad(pad(tokens, part, pad_id), len, pad_id) == pad(tokens, len, pad_id),
{
}

/// Batches whose texts are padded to the same rows are padded to the same ids.
pub proof fn law_same_rows_same_ids(
    batch1: Seq<Seq<u32>>,
    batch2: Seq<Seq<u32>>,
    len: nat,
    pad_id: u32,
)
    requires
        batch1.len() == batch2.len(),
        forall|i: int|
            0 <= i < batch1.len() ==> pad(#[trigger] batch1[i], len, pad_id) == pad(
                batch2[i],
                len,
                pad_id,
            ),
    ensures
        pad_all(batch1, len, pad_id) == pad_all(batch2, len, pad_id),
    decreases batch1.len(),
{
    if batch1.len() > 0 {
        let (rest1, rest2) = (batch1.drop_last(), batch2.drop_last());
        assert forall|i: int| 0 <= i < rest1.len() implies pad(
            #[trigger] rest1[i],
            len,
            pad_id,
        ) == pad(rest2[i], len, pad_id) by {
            assert(rest1[i] == batch1[i]);
        }
        law_same_rows_same_ids(rest1, rest2, len, pad_id);
        assert(batch1[batch1.len() - 1] == batch1.last());
    }
}

/// Row `i` of a padded batch is sequence `i`, padded: whatever the other
/// sequences are, and wherever in the batch it stands.
pub proof fn law_padded_row(sequences: Seq<Seq<u32>>, len: nat, pad_id: u32, i: int)
    requires
        all_within(sequences, len),
        0 <= i < sequences.len(),
    ensures
        i * len + len <= pad_all(sequences, len, pad_id).len(),
        pad_all(sequences, len, pad_id).subrange(i * len, i * len + len) == pad(
            sequences[i],
            len,
            pad_id,
        ),
    decreases sequences.len(),
{
    let all = pad_all(sequences, len, pad_id);
    let rest = sequences.drop_last();
    assert(all_within(rest, len)) by {
        assert forall|k: int| 0 <= k < rest.len() implies (#[trigger] rest[k]).len() <= len by {
            assert(rest[k] == sequences[k]);
        }
    }
    law_padded_length(sequences, len, pad_id);
    law_padded_length(rest, len, pad_id);
    assert(i * len + len <= sequences.len() * len) by (nonlinear_arith)
        requires
            i < sequences.len(),
    ;
    assert(0 <= i * len) by (nonlinear_arith)
        requires
            0 <= i,
    ;
    assert(sequences.last().len() <= len);
    if i < rest.len() {
        law_padded_row(rest, len, pad_id, i);
        let before = pad_all(rest, len, pad_id);
        assert(all.subrange(i * len, i * len + len) =~= before.subrange(i * len, i * len + len));
        assert(rest[i] == sequences[i]);
    } else {
        assert(all.subrange(i * len, i * len + len) =~= pad(sequences[i], len, pad_id));
    }
}

/// Equal texts are padded to equal rows, in whatever batches they stand.
pub proof fn law_equal_texts_equal_rows(
    batch1: Seq<Seq<u32>>,
    i: int,
    batch2: Seq<Seq<u32>>,
    j: int,
    len: nat,
    pad_id: u32,
)
    requires
        all_within(batch1, len),
        all_within(batch2, len),
        0 <= i < batch1.len(),
        0 <= j < batch2.len(),
        batch1[i] == batch2[j],
    ensures
        pad_all(batch1, len, pad_id).subrange(i * len, i * len + len) == pad_all(
            batch2,
            len,
            pad_id,
        ).subrange(j * len, j * len + len),
{
    law_padded_row(batch1, len, pad_id, i);
    law_padded_row(batch2, len, pad_id, j);
}

/// The position that is pooled holds the padding token, unless the text fills
/// all positions: then it holds the text's last token.
pub proof fn law_pooled_position(
    sequences: Seq<Seq<u32>>,
    indices: Seq<u32>,
    len: nat,
    pad_id: u32,
    k: int,
)
    requires
        all_within(sequences, len),
        len > 0,
        0 <= k < indices.len(),
        indices[k] < sequences.len(),
    ensures
        ({
            let row = last_rows(indices, len)[k];
            let text = sequences[indices[k] as int];
            &&& 0 <= row < pad_all(sequences, len, pad_id).len()
            &&& pad_all(sequences, len, pad_id)[row] == if text.len() < len {
                pad_id
            } else {
                text.last()
            }
        }),
{
    let i = indices[k] as int;
    let all = pad_all(sequences, len, pad_id);
    law_padded_row(sequences, len, pad_id, i);
    assert(0 <= i * len) by (nonlinear_arith)
        requires
            0 <= i,
    ;
    assert(all.subrange(i * len, i * len + len)[len - 1] == all[i * len + len - 1]);
    assert(sequences[i].len() <= len);
}

/// The rows that are read out raw hold the tokens of the texts that were asked
/// for, in order, and no padding.
pub proof fn law_raw_rows_hold_the_texts(
    sequences: Seq<Seq<u32>>,
    indices: Seq<u32>,
    len: nat,
    pad_id: u32,
)
    requires
        all_within(sequences, len),
        forall|k: int| 0 <= k < indices.len() ==> #[trigger] indices[k] < sequences.len(),
    ensures
        token_rows(sequences, indices, len).map_values(
            |row: int| pad_all(sequences, len, pad_id)[row],
        ) == tokens_of(sequences, indices),
    decreases indices.len(),
{
    let all = pad_all(sequences, len, pad_id);
    let read = |row: int| all[row];
    if indices.len() > 0 {
        let rest = indices.drop_last();
        let i = indices.last() as int;
        assert forall|k: int| 0 <= k < rest.len() implies #[trigger] rest[k] < sequences.len() by {
            assert(rest[k] == indices[k]);
        }
        law_raw_rows_hold_the_texts(sequences, rest, len, pad_id);
        assert(indices[indices.len() - 1] < sequences.len());
        law_padded_row(sequences, len, pad_id, i);
        assert(sequences[i].len() <= len);
        assert(0 <= i * len) by (nonlinear_arith)
            requires
                0 <= i,
        ;
        let rows = Seq::new(sequences[i].len(), |j: int| i * len + j);
        let padded = all.subrange(i * len, i * len + len);
        assert(rows.map_values(read) =~= sequences[i]) by {
            assert forall|j: int| 0 <= j < sequences[i].len() implies #[trigger] rows.map_values(
                read,
            )[j] == sequences[i][j] by {
                assert(padded[j] == all[i * len + j]);
                assert(padded[j] == pad(sequences[i], len, pad_id)[j]);
            }
        }
        assert(token_rows(sequences, indices, len).map_values(read) =~= token_rows(
            sequences,
            rest,
            len,
        ).map_values(read) + rows.map_values(read));
    }
    assert(token_rows(sequences, indices, len).map_values(read) =~= tokens_of(sequences, indices));
}

} // verus!
