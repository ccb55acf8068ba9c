//! The configuration of a model.
use vstd::prelude::*;

verus! {

/// The activation function between the two layers of a feed-forward block.
#[derive(Clone, Copy, Debug, PartialEq, Eq, Structural)]
pub enum HiddenAct {
    /// GELU in its tanh approximation.
    Gelu,
}

/// The vocabulary size, where a configuration gives none.
pub fn default_text_vocab_size() -> (r: usize)
    ensures
        r == 32000,
{
    32000
}

/// The width of the hidden states, where a configuration gives none.
pub fn default_text_hidden_size() -> (r: usize)
    ensures
        r == 768,
{
    768
}

/// The width inside a feed-forward block, where a configuration gives none.
pub fn default_text_intermediate_size() -> (r: usize)
    ensures
        r == 3072,
{
    3072
}

/// The number of encoder layers, where a configuration gives none.
pub fn default_text_num_hidden_layers() -> (r: usize)
    ensures
        r == 12,
{
    12
}

/// The number of attention heads, where a configuration gives none.
pub fn default_text_num_attention_heads() -> (r: usize)
    ensures
        r == 12,
{
    12
}

/// The number of positions, where a configuration gives none.
pub fn default_text_max_position_embeddings() -> (r: usize)
    ensures
        r == 64,
{
    64
}

/// The bit pattern of the epsilon of layer normalisation, 1e-6 as a double,
/// where a configuration gives none.
pub fn default_text_layer_norm_eps() -> (r: u64)
    ensures
        r == 0x3eb0_c6f7_a0b5_ed8d,
{
    0x3eb0_c6f7_a0b5_ed8d
}

/// The id of the padding token, where a configuration gives none.
pub fn default_text_pad_token_id() -> (r: u32)
    ensures
        r == 1,
{
    1
}

/// The id of the token that begins a text, where a configuration gives none.
pub fn default_text_bos_token_id() -> (r: u32)
    ensures
        r == 49406,
{
    49406
}

/// The id of the token that ends a text, where a configuration gives none.
pub fn default_text_eos_token_id() -> (r: u32)
    ensures
        r == 49407,
{
    49407
}

/// The activation function, where a configuration gives none.
pub fn default_text_hidden_act() -> (r: HiddenAct)
    ensures
        r == HiddenAct::Gelu,
{
    HiddenAct::Gelu
}

/// The configuration of the text tower.
#[derive(Clone, Copy, Debug)]
pub struct SiglipTextConfig {
    /// The number of tokens that have an embedding.
    pub vocab_size: usize,
    /// The width of the hidden states.
    pub hidden_size: usize,
    /// The width inside a feed-forward block.
    pub intermediate_size: usize,
    /// The number of encoder layers.
    pub num_hidden_layers: usize,
    /// The number of attention heads.
    pub num_attention_heads: usize,
    /// The number of positions: every text is padded to this length.
    pub max_position_embeddings: usize,
    /// The epsilon of layer normalisation: the bit pattern of a double.
    pub layer_norm_eps: u64,
    /// The id of the padding token.
    pub pad_token_id: u32,
    /// The id of the token that begins a text.
    pub bos_token_id: u32,
    /// The id of the token that ends a text.
    pub eos_token_id: u32,
    /// The activation function of the feed-forward blocks.
    pub hidden_act: HiddenAct,
}

/// Whether two doubles of these bit patterns are equal: they are the same number, or
/// both are zeros.
pub open spec fn equal_doubles(a: u64, b: u64) -> bool {
    let (size_a, size_b) = (
        a % 0x8000_0000_0000_0000,
        b % 0x8000_0000_0000_0000,
    );
    ||| a == b && size_a <= 0x7ff0_0000_0000_0000
    ||| size_a == 0 && size_b == 0
}

/// Whether two doubles of these bit patterns are equal.
fn are_equal_doubles(a: u64, b: u64) -> (r: bool)
    ensures
        r == equal_doubles(a, b),
{
    let size_a: u64 = a % 0x8000_0000_0000_0000;
    let size_b: u64 = b % 0x8000_0000_0000_0000;
    (a == b && size_a <= 0x7ff0_0000_0000_0000) || (size_a == 0 && size_b == 0)
}

impl SiglipTextConfig {
    /// Whether two configurations are equal: all their fields are, the epsilon as a
    /// double.
    pub open spec fn equals(self, other: SiglipTextConfig) -> bool {
        &&& self.vocab_size == other.vocab_size
        &&& self.hidden_size == other.hidden_size
        &&& self.intermediate_size == other.intermediate_size
        &&& self.num_hidden_layers == other.num_hidden_layers
        &&& self.num_attention_heads == other.num_attention_heads
        &&& self.max_position_embeddings == other.max_position_embeddings
        &&& equal_doubles(self.layer_norm_eps, other.layer_norm_eps)
        &&& self.pad_token_id == other.pad_token_id
        &&& self.bos_token_id == other.bos_token_id
        &&& self.eos_token_id == other.eos_token_id
        &&& self.hidden_act == other.hidden_act
    }
}

impl PartialEq for SiglipTextConfig {
    fn eq(&self, other: &SiglipTextConfig) -> (r: bool) {
        self.vocab_size == other.vocab_size && self.hidden_size == other.hidden_size
            && self.intermediate_size == other.intermediate_size && self.num_hidden_layers
            == other.num_hidden_layers && self.num_attention_heads == other.num_attention_heads
            && self.max_position_embeddings == other.max_position_embeddings
            && are_equal_doubles(self.layer_norm_eps, other.layer_norm_eps) && self.pad_token_id
            == other.pad_token_id && self.bos_token_id == other.bos_token_id
            && self.eos_token_id == other.eos_token_id && self.hidden_act == other.hidden_act
    }
}

impl vstd::std_specs::cmp::PartialEqSpecImpl for SiglipTextConfig {
    open spec fn obeys_eq_spec() -> bool {
        true
    }

    open spec fn eq_spec(&self, other: &SiglipTextConfig) -> bool {
        self.equals(*other)
    }
}

/// Configurations are equal exactly where they have all fields but the epsilon in common,
/// and their epsilons are the same number: the same bits, and no more of them set than in
/// an infinity, or zeros of whatever sign.
pub proof fn law_equal_configurations(a: SiglipTextConfig, b: SiglipTextConfig)
    ensures
        a.equals(b) <==> {
            let (x, y) = (a.layer_norm_eps, b.layer_norm_eps);
            &&& b == (SiglipTextConfig { layer_norm_eps: y, ..a })
            &&& {
                ||| x == y && (x <= 0x7ff0_0000_0000_0000 || 0x8000_0000_0000_0000 <= x
                    <= 0xfff0_0000_0000_0000)
                ||| (x == 0 || x == 0x8000_0000_0000_0000) && (y == 0 || y
                    == 0x8000_0000_0000_0000)
            }
        },
{
}

/// The configuration of the whole model, of which only the text tower is read.
#[derive(Clone, Copy, Debug)]
pub struct SiglipConfig {
    /// The configuration of the text tower.
    pub text_config: SiglipTextConfig,
}

} // verus!
