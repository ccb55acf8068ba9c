//! Batches, configurations and tokenizer files.
use siglip::array::{checked_volume, has_volume, is_allocatable};
use siglip::batch::Batch;
use siglip::config::{
    default_text_bos_token_id, default_text_eos_token_id, default_text_hidden_act,
    default_text_hidden_size, default_text_intermediate_size, default_text_layer_norm_eps,
    default_text_max_position_embeddings, default_text_num_attention_heads,
    default_text_num_hidden_layers, default_text_pad_token_id, default_text_vocab_size, HiddenAct,
    SiglipConfig, SiglipTextConfig,
};
use siglip::error::ModelError;
use siglip::tokenizer::{AddedToken, TokenizerFiles};

fn batch(texts: &[&[u32]], pooled_indices: &[u32], raw_indices: &[u32]) -> Batch {
    let mut input_ids: Vec<u32> = Vec::new();
    let mut cumulative_seq_lengths: Vec<u32> = vec![0];
    for text in texts {
        input_ids.extend(text.iter());
        cumulative_seq_lengths.push(input_ids.len() as u32);
    }
    Batch {
        token_type_ids: vec![0; input_ids.len()],
        position_ids: vec![0; input_ids.len()],
        max_length: texts.iter().map(|t| t.len() as u32).max().unwrap_or(0),
        input_ids,
        cumulative_seq_lengths,
        pooled_indices: pooled_indices.to_vec(),
        raw_indices: raw_indices.to_vec(),
    }
}

#[test]
fn defaults() {
    assert_eq!(default_text_vocab_size(), 32000);
    assert_eq!(default_text_hidden_size(), 768);
    assert_eq!(default_text_intermediate_size(), 3072);
    assert_eq!(default_text_num_hidden_layers(), 12);
    assert_eq!(default_text_num_attention_heads(), 12);
    assert_eq!(default_text_max_position_embeddings(), 64);
    assert_eq!(f64::from_bits(default_text_layer_norm_eps()), 1e-6);
    assert_eq!(default_text_pad_token_id(), 1);
    assert_eq!(default_text_bos_token_id(), 49406);
    assert_eq!(default_text_eos_token_id(), 49407);
    assert_eq!(default_text_hidden_act(), HiddenAct::Gelu);
}

#[test]
fn padding_fills_every_sequence_at_its_end() {
    let b = batch(&[&[5, 6], &[], &[7, 8, 9, 10]], &[], &[]);
    assert_eq!(b.len(), 3);
    assert!(!b.is_empty());
    assert_eq!(
        b.pad_to(4, 1).unwrap(),
        vec![5, 6, 1, 1, 1, 1, 1, 1, 7, 8, 9, 10]
    );
    assert_eq!(
        b.pad_to(5, 0).unwrap(),
        vec![5, 6, 0, 0, 0, 0, 0, 0, 0, 0, 7, 8, 9, 10, 0]
    );
}

#[test]
fn equal_texts_are_padded_equally() {
    let one = batch(&[&[5, 6]], &[], &[]).pad_to(4, 1).unwrap();
    let many = batch(&[&[9], &[5, 6], &[5, 6]], &[], &[])
        .pad_to(4, 1)
        .unwrap();
    assert_eq!(many[4..8], one[..]);
    assert_eq!(many[8..12], one[..]);
}

#[test]
fn padding_a_padded_text_again() {
    let part = batch(&[&[5, 6]], &[], &[]).pad_to(3, 1).unwrap();
    let whole = batch(&[&[5, 6]], &[], &[]).pad_to(6, 1).unwrap();
    assert_eq!(batch(&[&part], &[], &[]).pad_to(6, 1).unwrap(), whole);
}

#[test]
fn padding_fails_on_the_first_long_sequence() {
    let b = batch(&[&[5, 6], &[1, 2, 3], &[7, 8, 9, 10]], &[], &[]);
    assert!(matches!(
        b.pad_to(2, 1),
        Err(ModelError::SequenceTooLong { index: 1 })
    ));
    assert!(!b.is_within(3));
    assert!(b.is_within(4));
}

#[test]
fn pooled_rows_are_the_last_positions() {
    let b = batch(&[&[5, 6], &[7], &[8]], &[2, 0, 2], &[]);
    assert_eq!(b.pooled_rows(64), vec![191, 63, 191]);
    let padded = b.pad_to(64, 1).unwrap();
    assert_eq!(padded[191], 1);
}

#[test]
fn a_text_that_fills_all_positions_is_pooled_at_its_last_token() {
    let b = batch(&[&[5, 6, 7]], &[0], &[]);
    let row = b.pooled_rows(3)[0] as usize;
    assert_eq!(b.pad_to(3, 1).unwrap()[row], 7);
}

#[test]
fn raw_rows_are_those_of_the_tokens() {
    let b = batch(&[&[5, 6], &[], &[7, 8, 9]], &[], &[2, 1, 0]);
    let rows = b.raw_rows(4);
    assert_eq!(rows, vec![8, 9, 10, 0, 1]);
    assert_eq!(b.raw_token_count(), Some(5));
    let padded = b.pad_to(4, 1).unwrap();
    let read: Vec<u32> = rows.iter().map(|r| padded[*r as usize]).collect();
    assert_eq!(read, vec![7, 8, 9, 5, 6]);
}

#[test]
fn an_empty_batch() {
    let b = batch(&[], &[], &[]);
    assert!(b.is_well_formed());
    assert!(b.is_empty());
    assert!(b.is_within(0));
    assert_eq!(b.raw_token_count(), Some(0));
    assert!(b.pad_to(4, 1).unwrap().is_empty());
}

#[test]
fn malformed_batches() {
    assert!(batch(&[&[5], &[6, 7]], &[0, 1], &[1]).is_well_formed());
    assert!(!batch(&[&[5]], &[1], &[]).is_well_formed());
    assert!(!batch(&[&[5]], &[], &[1]).is_well_formed());
    let mut backwards = batch(&[&[5], &[6]], &[], &[]);
    backwards.cumulative_seq_lengths = vec![0, 2, 1];
    assert!(!backwards.is_well_formed());
    let mut beyond = batch(&[&[5]], &[], &[]);
    beyond.cumulative_seq_lengths = vec![0, 2];
    assert!(!beyond.is_well_formed());
    let mut without_bounds = batch(&[], &[], &[]);
    without_bounds.cumulative_seq_lengths = vec![];
    assert!(!without_bounds.is_well_formed());
}

fn files(padding_pad_id: Option<u32>, pad_token: Option<&str>) -> TokenizerFiles {
    let added_tokens = [("<pad>", 0), ("<eos>", 1), ("<bos>", 2), ("<eos>", 7)]
        .iter()
        .map(|(content, id)| AddedToken {
            content: content.to_string(),
            id: *id,
        })
        .collect();
    TokenizerFiles {
        padding_pad_id,
        pad_token: pad_token.map(|t| t.to_string()),
        added_tokens,
    }
}

#[test]
fn the_padding_strategy_comes_first() {
    assert_eq!(files(Some(5), Some("<pad>")).resolve_pad_token_id(1), 5);
    assert_eq!(files(Some(0), None).resolve_pad_token_id(1), 0);
}

#[test]
fn the_named_padding_token_comes_second() {
    assert_eq!(files(None, Some("<pad>")).resolve_pad_token_id(1), 0);
    assert_eq!(files(None, Some("<pad>")).resolve_pad_token_id(9), 0);
    assert_eq!(files(None, Some("<eos>")).resolve_pad_token_id(9), 1);
}

#[test]
fn the_configuration_comes_last() {
    assert_eq!(files(None, None).resolve_pad_token_id(1), 1);
    assert_eq!(files(None, Some("<unk>")).resolve_pad_token_id(3), 3);
}

#[test]
fn resolving_twice() {
    let f = files(None, Some("<eos>"));
    assert_eq!(
        f.resolve_pad_token_id(f.resolve_pad_token_id(4)),
        f.resolve_pad_token_id(4)
    );
}

#[test]
fn only_the_padding_token_is_overridden() {
    let config = SiglipConfig {
        text_config: SiglipTextConfig {
            vocab_size: 256000,
            hidden_size: default_text_hidden_size(),
            intermediate_size: default_text_intermediate_size(),
            num_hidden_layers: default_text_num_hidden_layers(),
            num_attention_heads: default_text_num_attention_heads(),
            max_position_embeddings: default_text_max_position_embeddings(),
            layer_norm_eps: default_text_layer_norm_eps(),
            pad_token_id: default_text_pad_token_id(),
            bos_token_id: default_text_bos_token_id(),
            eos_token_id: default_text_eos_token_id(),
            hidden_act: default_text_hidden_act(),
        },
    };
    let overridden = files(Some(0), None).override_pad_token_id(config.text_config);
    let expected = SiglipTextConfig {
        pad_token_id: 0,
        ..config.text_config
    };
    assert_eq!(overridden, expected);
}

#[test]
fn volumes() {
    assert_eq!(checked_volume(&vec![]), Some(1));
    assert_eq!(checked_volume(&vec![2, 3, 4]), Some(24));
    assert_eq!(checked_volume(&vec![usize::MAX, 2]), None);
    assert_eq!(checked_volume(&vec![usize::MAX, 2, 0]), Some(0));
    assert!(has_volume(&vec![2, 3], 6));
    assert!(!has_volume(&vec![2, 3], 5));
    assert!(!has_volume(&vec![usize::MAX, 2], usize::MAX - 1));
    assert!(is_allocatable(&vec![]));
    assert!(is_allocatable(&vec![1000, 0, 1000]));
    assert!(!is_allocatable(&vec![usize::MAX / 8, 2]));
    assert!(!is_allocatable(&vec![0, usize::MAX, usize::MAX]));
}

#[test]
fn configurations_compare_their_epsilon_as_a_number() {
    let config = |eps: f64| SiglipTextConfig {
        vocab_size: default_text_vocab_size(),
        hidden_size: default_text_hidden_size(),
        intermediate_size: default_text_intermediate_size(),
        num_hidden_layers: default_text_num_hidden_layers(),
        num_attention_heads: default_text_num_attention_heads(),
        max_position_embeddings: default_text_max_position_embeddings(),
        layer_norm_eps: eps.to_bits(),
        pad_token_id: default_text_pad_token_id(),
        bos_token_id: default_text_bos_token_id(),
        eos_token_id: default_text_eos_token_id(),
        hidden_act: default_text_hidden_act(),
    };
    for a in [0.0, -0.0, 1e-6, -1e-6, f64::INFINITY, f64::NEG_INFINITY, f64::NAN, -f64::NAN] {
        for b in [0.0, -0.0, 1e-6, -1e-6, f64::INFINITY, f64::NEG_INFINITY, f64::NAN, -f64::NAN] {
            assert_eq!(config(a) == config(b), a == b);
        }
    }
    let other = SiglipTextConfig {
        eos_token_id: 0,
        ..config(1e-6)
    };
    assert!(config(1e-6) != other);
}
