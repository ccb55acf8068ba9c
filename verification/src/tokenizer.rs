//! Which token pads.
//!
//! The model pads every text itself, with the token its tokenizer would pad
//! with.  A configuration names such a token too, but not always the right
//! one, so what the tokenizer's files say comes first.
use vstd::prelude::*;

use crate::config::SiglipTextConfig;

verus! {

/// A token that a tokenizer was given beyond its trained vocabulary.
pub struct AddedToken {
    /// The token's text.
    pub content: String,
    /// The token's id.
    pub id: u32,
}

/// What the files of a tokenizer say about padding.
pub struct TokenizerFiles {
    /// The id in the padding strategy, where there is one.
    pub padding_pad_id: Option<u32>,
    /// The text of the padding token, where it is named.
    pub pad_token: Option<String>,
    /// The added tokens, in the order of the file.
    pub added_tokens: Vec<AddedToken>,
}

/// The place of the first token with this text, or the number of tokens.
pub open spec fn first_token(tokens: Seq<AddedToken>, content: Seq<char>) -> int
    decreases tokens.len(),
{
    if tokens.len() == 0 || tokens.first().content@ == content {
        0
    } else {
        1 + first_token(tokens.drop_first(), content)
    }
}

impl TokenizerFiles {
    /// The id that the padding token's name stands for, where it stands for one.
    pub open spec fn named_pad_id(self) -> Option<u32> {
        match self.pad_token {
            Some(content) => {
                let place = first_token(self.added_tokens@, content@);
                if place < self.added_tokens@.len() {
                    Some(self.added_tokens@[place].id)
                } else {
                    None
                }
            },
            None => None,
        }
    }

    /// The id that a tokenizer of these files pads with, where the files say.
    pub open spec fn pad_id(self) -> Option<u32> {
        if self.padding_pad_id is Some {
            self.padding_pad_id
        } else {
            self.named_pad_id()
        }
    }

    /// The id to pad with: the one of the padding strategy; else that of the
    /// named padding token; else the given one.
    pub open spec fn resolved(self, config_pad_token_id: u32) -> u32 {
        match self.pad_id() {
            Some(id) => id,
            None => config_pad_token_id,
        }
    }

    /// The id to pad with: the one of the padding strategy; else that of the
    /// named padding token; else the given one.
    pub fn resolve_pad_token_id(&self, config_pad_token_id: u32) -> (r: u32)
        ensures
            r == self.resolved(config_pad_token_id),
    {
        if let Some(id) = self.padding_pad_id {
            return id;
        }
        if let Some(content) = &self.pad_token {
            let ghost tokens = self.added_tokens@;
            let mut i: usize = 0;
            assert(tokens.skip(0) =~= tokens);
            while i < self.added_tokens.len()
                invariant
                    tokens == self.added_tokens@,
                    i <= tokens.len(),
                    self.padding_pad_id is None,
                    self.pad_token == Some(*content),
                    first_token(tokens, content@) == i + first_token(
                        tokens.skip(i as int),
                        content@,
                    ),
                decreases tokens.len() - i,
            {
                if self.added_tokens[i].content == *content {
                    return self.added_tokens[i].id;
                }
                assert(tokens.skip(i as int).drop_first() =~= tokens.skip(i + 1));
                i = i + 1;
            }
        }
        config_pad_token_id
    }

    /// The configuration with the padding token of these files.
    pub fn override_pad_token_id(&self, config: SiglipTextConfig) -> (r: SiglipTextConfig)
        ensures
            r == (SiglipTextConfig { pad_token_id: self.resolved(config.pad_token_id), ..config }),
    {
        SiglipTextConfig { pad_token_id: self.resolve_pad_token_id(config.pad_token_id), ..config }
    }
}

/// The first token with this text stands at `place`, where it has the text and none
/// before it does.
proof fn lemma_first_token(tokens: Seq<AddedToken>, content: Seq<char>, place: int)
    requires
        0 <= place <= tokens.len(),
        forall|k: int| 0 <= k < place ==> (#[trigger] tokens[k]).content@ != content,
        place < tokens.len() ==> tokens[place].content@ == content,
    ensures
        first_token(tokens, content) == place,
    decreases tokens.len(),
{
    if place > 0 {
        let rest = tokens.drop_first();
        assert(tokens[0].content@ != content);
        assert forall|k: int| 0 <= k < place - 1 implies (#[trigger] rest[k]).content@
            != content by {
            assert(rest[k] == tokens[k + 1]);
        }
        lemma_first_token(rest, content, place - 1);
    }
}

/// The id of the padding strategy pads, where there is one.
pub proof fn law_strategy_pads(files: TokenizerFiles, id: u32, config: u32)
    requires
        files.padding_pad_id == Some(id),
    ensures
        files.resolved(config) == id,
{
}

/// Without a padding strategy, the padding token that is named pads: its id is that of
/// the first added token with its text.
pub proof fn law_named_token_pads(
    files: TokenizerFiles,
    content: String,
    place: int,
    config: u32,
)
    requires
        files.padding_pad_id is None,
        files.pad_token == Some(content),
        0 <= place < files.added_tokens@.len(),
        files.added_tokens@[place].content@ == content@,
        forall|k: int|
            0 <= k < place ==> (#[trigger] files.added_tokens@[k]).content@ != content@,
    ensures
        files.resolved(config) == files.added_tokens@[place].id,
{
    lemma_first_token(files.added_tokens@, content@, place);
}

/// Without a padding strategy, and where no padding token is named or no added token has
/// its text, the token of the configuration pads.
pub proof fn law_configured_token_pads(files: TokenizerFiles, config: u32)
    requires
        files.padding_pad_id is None,
        files.pad_token matches Some(content) ==> forall|k: int|
            0 <= k < files.added_tokens@.len() ==> (#[trigger] files.added_tokens@[k]).content@
                != content@,
    ensures
        files.resolved(config) == config,
{
    if let Some(content) = files.pad_token {
        lemma_first_token(files.added_tokens@, content@, files.added_tokens@.len() as int);
    }
}

/// Where the files say which token pads, the configuration has no say.
pub proof fn law_files_outrank_config(files: TokenizerFiles, config1: u32, config2: u32)
    requires
        files.pad_id() is Some,
    ensures
        files.resolved(config1) == files.resolved(config2),
{
}

/// Where the files do not say which token pads, the configuration decides.
pub proof fn law_config_decides_otherwise(files: TokenizerFiles, config: u32)
    requires
        files.pad_id() is None,
    ensures
        files.resolved(config) == config,
{
}

/// Resolving a second time changes nothing.
pub proof fn law_resolution_is_stable(files: TokenizerFiles, config: u32)
    ensures
        files.resolved(files.resolved(config)) == files.resolved(config),
{
}

} // verus!
