//! The model as a whole, on small checkpoints.
use candle_core::Tensor;
use siglip::array::Precision;
use siglip::batch::{Batch, ModelType, Pool};
use siglip::config::{HiddenAct, SiglipTextConfig};
use siglip::error::ModelError;
use siglip::model::SiglipTextModel;
use siglip::weights::{NamedTensor, VarBuilder};

/// A matrix or vector of the reference computation.
type Rows = Vec<Vec<f64>>;

fn config() -> SiglipTextConfig {
    SiglipTextConfig {
        vocab_size: 11,
        hidden_size: 6,
        intermediate_size: 10,
        num_hidden_layers: 2,
        num_attention_heads: 2,
        max_position_embeddings: 8,
        layer_norm_eps: 1e-6f64.to_bits(),
        pad_token_id: 1,
        bos_token_id: 9,
        eos_token_id: 10,
        hidden_act: HiddenAct::Gelu,
    }
}

/// The names and dimensions of the weights of a model.
fn shapes(config: &SiglipTextConfig) -> Vec<(String, Vec<usize>)> {
    let (d, w) = (config.hidden_size, config.intermediate_size);
    let mut all = vec![
        (
            "embeddings.token_embedding.weight".to_string(),
            vec![config.vocab_size, d],
        ),
        (
            "embeddings.position_embedding.weight".to_string(),
            vec![config.max_position_embeddings, d],
        ),
        ("final_layer_norm.weight".to_string(), vec![d]),
        ("final_layer_norm.bias".to_string(), vec![d]),
        ("head.weight".to_string(), vec![d, d]),
        ("head.bias".to_string(), vec![d]),
    ];
    for layer in 0..config.num_hidden_layers {
        for part in ["q_proj", "k_proj", "v_proj", "out_proj"] {
            let name = format!("encoder.layers.{}.self_attn.{}", layer, part);
            all.push((format!("{}.weight", name), vec![d, d]));
            all.push((format!("{}.bias", name), vec![d]));
        }
        for part in ["layer_norm1", "layer_norm2"] {
            let name = format!("encoder.layers.{}.{}", layer, part);
            all.push((format!("{}.weight", name), vec![d]));
            all.push((format!("{}.bias", name), vec![d]));
        }
        let name = format!("encoder.layers.{}.mlp", layer);
        all.push((format!("{}.fc1.weight", name), vec![w, d]));
        all.push((format!("{}.fc1.bias", name), vec![w]));
        all.push((format!("{}.fc2.weight", name), vec![d, w]));
        all.push((format!("{}.fc2.bias", name), vec![d]));
    }
    all
}

/// Weights that look random, but are the same every time.
fn checkpoint(config: &SiglipTextConfig) -> Vec<NamedTensor> {
    let mut state: u32 = 12345;
    let mut tensors = Vec::new();
    for (name, dims) in shapes(config) {
        let count: usize = dims.iter().product();
        let mut bits = Vec::new();
        for _ in 0..count {
            state = state.wrapping_mul(1664525).wrapping_add(1013904223);
            let unit = (state >> 8) as f32 / (1u32 << 24) as f32;
            bits.push((unit * 2.0 - 1.0).to_bits());
        }
        tensors.push(NamedTensor { name, dims, bits });
    }
    tensors
}

fn load_as(
    config: &SiglipTextConfig,
    precision: Precision,
    model_type: ModelType,
) -> Result<SiglipTextModel, ModelError> {
    let vb = VarBuilder::from_tensors(checkpoint(config), precision)?;
    SiglipTextModel::load(vb, config, model_type)
}

fn load(config: &SiglipTextConfig) -> SiglipTextModel {
    load_as(config, Precision::F32, ModelType::Embedding(Pool::Mean)).unwrap()
}

/// The token ids of a text, a token for each word.
fn encode(text: &str) -> Vec<u32> {
    let words = ["What", "is", "Deep", "Learning?", "Learning", "is..."];
    let mut ids = Vec::new();
    for word in text.split(' ') {
        ids.push(2 + words.iter().position(|w| *w == word).unwrap() as u32);
    }
    ids.push(10);
    ids
}

fn batch(encodings: Vec<Vec<u32>>, pooled_indices: Vec<u32>, raw_indices: Vec<u32>) -> Batch {
    let mut input_ids = Vec::new();
    let mut token_type_ids = Vec::new();
    let mut position_ids = Vec::new();
    let mut cumulative_seq_lengths = vec![0];
    let mut max_length = 0;
    for encoding in encodings {
        let length = encoding.len() as u32;
        token_type_ids.extend(encoding.iter().map(|_| 0));
        position_ids.extend(0..length);
        input_ids.extend(encoding);
        cumulative_seq_lengths.push(input_ids.len() as u32);
        max_length = max_length.max(length);
    }
    Batch {
        input_ids,
        token_type_ids,
        position_ids,
        cumulative_seq_lengths,
        max_length,
        pooled_indices,
        raw_indices,
    }
}

fn embed(model: &SiglipTextModel, batch: Batch) -> (Option<Tensor>, Option<Tensor>) {
    assert!(batch.is_well_formed());
    assert!(model.has_room_for(&batch));
    model.embed(batch).unwrap()
}

fn rows(tensor: &Tensor) -> Vec<Vec<f32>> {
    tensor.to_vec2::<f32>().unwrap()
}

fn close(a: &[f32], b: &[f32], tolerance: f32) -> bool {
    a.len() == b.len() && a.iter().zip(b).all(|(x, y)| (x - y).abs() <= tolerance)
}

/// A second, plain computation of the model.
struct Reference {
    config: SiglipTextConfig,
    tensors: Vec<NamedTensor>,
}

impl Reference {
    fn new(config: &SiglipTextConfig) -> Reference {
        Reference {
            config: *config,
            tensors: checkpoint(config),
        }
    }

    fn vector(&self, name: &str) -> Vec<f64> {
        let tensor = self.tensors.iter().find(|t| t.name == name).unwrap();
        tensor
            .bits
            .iter()
            .map(|b| f32::from_bits(*b) as f64)
            .collect()
    }

    fn matrix(&self, name: &str) -> Rows {
        let tensor = self.tensors.iter().find(|t| t.name == name).unwrap();
        self.vector(name)
            .chunks(tensor.dims[1])
            .map(|c| c.to_vec())
            .collect()
    }

    fn linear(&self, name: &str, x: &Rows) -> Rows {
        let weight = self.matrix(&format!("{}.weight", name));
        let bias = self.vector(&format!("{}.bias", name));
        x.iter()
            .map(|row| {
                weight
                    .iter()
                    .zip(&bias)
                    .map(|(w, b)| b + w.iter().zip(row).map(|(p, q)| p * q).sum::<f64>())
                    .collect()
            })
            .collect()
    }

    fn norm(&self, name: &str, x: &Rows) -> Rows {
        let weight = self.vector(&format!("{}.weight", name));
        let bias = self.vector(&format!("{}.bias", name));
        let eps = f64::from_bits(self.config.layer_norm_eps);
        x.iter()
            .map(|row| {
                let n = row.len() as f64;
                let mean = row.iter().sum::<f64>() / n;
                let var = row.iter().map(|v| (v - mean) * (v - mean)).sum::<f64>() / n;
                row.iter()
                    .zip(weight.iter().zip(&bias))
                    .map(|(v, (w, b))| (v - mean) / (var + eps).sqrt() * w + b)
                    .collect()
            })
            .collect()
    }

    fn attention(&self, name: &str, x: &Rows) -> Rows {
        let q = self.linear(&format!("{}.q_proj", name), x);
        let k = self.linear(&format!("{}.k_proj", name), x);
        let v = self.linear(&format!("{}.v_proj", name), x);
        let width = self.config.hidden_size / self.config.num_attention_heads;
        let mut mixed = vec![vec![0.0; self.config.hidden_size]; x.len()];
        for head in 0..self.config.num_attention_heads {
            let part = head * width..(head + 1) * width;
            for i in 0..x.len() {
                let mut scores = Vec::new();
                for j in 0..x.len() {
                    let dot: f64 = part.clone().map(|c| q[i][c] * k[j][c]).sum();
                    scores.push((dot / (width as f64).sqrt()).exp());
                }
                let total: f64 = scores.iter().sum();
                for j in 0..x.len() {
                    for c in part.clone() {
                        mixed[i][c] += scores[j] / total * v[j][c];
                    }
                }
            }
        }
        self.linear(&format!("{}.out_proj", name), &mixed)
    }

    fn mlp(&self, name: &str, x: &Rows) -> Rows {
        let mut wide = self.linear(&format!("{}.fc1", name), x);
        for row in wide.iter_mut() {
            for v in row.iter_mut() {
                let inner = (2.0 / std::f64::consts::PI).sqrt() * (*v + 0.044715 * v.powi(3));
                *v = 0.5 * *v * (1.0 + inner.tanh());
            }
        }
        self.linear(&format!("{}.fc2", name), &wide)
    }

    /// The final hidden states of one text.
    fn hidden(&self, text: &[u32]) -> Rows {
        let mut ids = text.to_vec();
        ids.resize(self.config.max_position_embeddings, self.config.pad_token_id);
        let tokens = self.matrix("embeddings.token_embedding.weight");
        let positions = self.matrix("embeddings.position_embedding.weight");
        let mut x: Rows = ids
            .iter()
            .zip(&positions)
            .map(|(id, p)| sum(&tokens[*id as usize], p))
            .collect();
        for layer in 0..self.config.num_hidden_layers {
            let name = format!("encoder.layers.{}", layer);
            let normed = self.norm(&format!("{}.layer_norm1", name), &x);
            let attended = self.attention(&format!("{}.self_attn", name), &normed);
            x = x.iter().zip(&attended).map(|(a, b)| sum(a, b)).collect();
            let normed = self.norm(&format!("{}.layer_norm2", name), &x);
            let fed = self.mlp(&format!("{}.mlp", name), &normed);
            x = x.iter().zip(&fed).map(|(a, b)| sum(a, b)).collect();
        }
        self.norm("final_layer_norm", &x)
    }

    fn raw(&self, text: &[u32]) -> Vec<Vec<f32>> {
        self.hidden(text)[..text.len()]
            .iter()
            .map(|row| row.iter().map(|v| *v as f32).collect())
            .collect()
    }

    fn pooled(&self, text: &[u32]) -> Vec<f32> {
        let last = self.hidden(text).pop().unwrap();
        self.linear("head", &vec![last])[0]
            .iter()
            .map(|v| *v as f32)
            .collect()
    }
}

fn sum(a: &[f64], b: &[f64]) -> Vec<f64> {
    a.iter().zip(b).map(|(p, q)| p + q).collect()
}

#[test]
fn test_siglip() {
    // The final position is pooled and projected, whatever pooling is asked for.
    let config = config();
    let model = load(&config);
    let reference = Reference::new(&config);

    let input_batch = batch(
        vec![
            encode("What is Deep Learning?"),
            encode("Deep Learning is..."),
            encode("What is Deep Learning?"),
        ],
        [0, 1, 2].to_vec(),
        vec![],
    );
    let (pooled, raw) = embed(&model, input_batch);
    assert!(raw.is_none());
    let embeddings_batch = rows(&pooled.unwrap());
    assert_eq!(embeddings_batch.len(), 3);
    let expected = [
        reference.pooled(&encode("What is Deep Learning?")),
        reference.pooled(&encode("Deep Learning is...")),
        reference.pooled(&encode("What is Deep Learning?")),
    ];
    for i in 0..3 {
        assert!(close(&embeddings_batch[i], &expected[i], 1e-4));
    }
    assert!(!close(&embeddings_batch[0], &embeddings_batch[1], 1e-2));

    let input_single = batch(
        vec![encode("What is Deep Learning?")],
        [0].to_vec(),
        vec![],
    );
    let (pooled, _) = embed(&model, input_single);
    let embeddings_single = rows(&pooled.unwrap());
    assert!(close(&embeddings_single[0], &expected[0], 1e-4));

    // Identical inputs must produce identical embeddings.
    assert!(close(&embeddings_batch[0], &embeddings_single[0], 1e-5));
    assert!(close(&embeddings_batch[2], &embeddings_single[0], 1e-5));
}

#[test]
fn test_siglip_all() {
    let config = config();
    let model = load(&config);
    let reference = Reference::new(&config);

    // The hidden states before the head, of the real tokens only.
    let input_single = batch(
        vec![encode("What is Deep Learning?")],
        vec![],
        [0].to_vec(),
    );
    let (pooled, raw) = embed(&model, input_single);
    assert_eq!(pooled.unwrap().dims(), &[0, 6]);
    let embeddings_raw = rows(&raw.unwrap());
    let expected = reference.raw(&encode("What is Deep Learning?"));
    assert_eq!(embeddings_raw.len(), 5);
    for i in 0..5 {
        assert!(close(&embeddings_raw[i], &expected[i], 1e-4));
    }
}

#[test]
fn test_siglip_classifier_unsupported() {
    // Classification is explicitly rejected at load time.
    let result = load_as(&config(), Precision::F32, ModelType::Classifier);
    assert!(
        result.is_err(),
        "expected SigLIP to reject `ModelType::Classifier`"
    );
    match result {
        Err(e) => {
            assert!(matches!(e, ModelError::UnsupportedModelType));
            assert_eq!(e.message(), "SiglipTextModel only supports embedding mode");
        }
        Ok(_) => panic!("loaded"),
    }
}

#[test]
fn classifier_is_rejected_before_weights_are_read() {
    let vb = VarBuilder::from_tensors(vec![], Precision::F32).unwrap();
    let result = SiglipTextModel::load(vb, &config(), ModelType::Classifier);
    assert!(matches!(result, Err(ModelError::UnsupportedModelType)));
}

#[test]
fn pooled_and_raw_rows_come_in_the_order_asked_for() {
    let config = config();
    let model = load(&config);
    let reference = Reference::new(&config);
    let texts = vec![vec![2, 3, 10], vec![4, 5, 6, 7, 8, 9, 3, 10], vec![]];
    let (pooled, raw) = embed(
        &model,
        batch(texts.clone(), vec![2, 0, 1], vec![1, 0, 2, 0]),
    );
    let pooled = rows(&pooled.unwrap());
    assert_eq!(pooled.len(), 3);
    for (row, text) in [(0, 2), (1, 0), (2, 1)] {
        assert!(close(&pooled[row], &reference.pooled(&texts[text]), 1e-4));
    }
    let raw = rows(&raw.unwrap());
    let mut expected = reference.raw(&texts[1]);
    expected.extend(reference.raw(&texts[0]));
    expected.extend(reference.raw(&texts[0]));
    assert_eq!(raw.len(), 14);
    for i in 0..14 {
        assert!(close(&raw[i], &expected[i], 1e-4));
    }
}

#[test]
fn pooling_mode_makes_no_difference() {
    let config = config();
    let text = encode("Deep Learning is...");
    let expected = Reference::new(&config).pooled(&text);
    for pool in [Pool::Cls, Pool::Mean, Pool::Splade, Pool::LastToken] {
        let model = load_as(&config, Precision::F32, ModelType::Embedding(pool)).unwrap();
        let (pooled, _) = embed(&model, batch(vec![text.clone()], vec![0], vec![]));
        assert!(close(&rows(&pooled.unwrap())[0], &expected, 1e-4));
    }
}

#[test]
fn token_types_positions_and_lengths_make_no_difference() {
    let config = config();
    let model = load(&config);
    let text = encode("Deep Learning is...");
    let mut input = batch(vec![text.clone()], vec![0], vec![]);
    input.token_type_ids = vec![7; 3];
    input.position_ids = vec![99; 1];
    input.max_length = 1000;
    let (pooled, _) = embed(&model, input);
    let expected = Reference::new(&config).pooled(&text);
    assert!(close(&rows(&pooled.unwrap())[0], &expected, 1e-4));
}

#[test]
fn the_padding_token_matters() {
    let text = encode("Deep Learning is...");
    let mut pooled = Vec::new();
    for pad_token_id in [0, 1] {
        let config = SiglipTextConfig {
            pad_token_id,
            ..config()
        };
        let (out, _) = embed(&load(&config), batch(vec![text.clone()], vec![0], vec![]));
        let row = rows(&out.unwrap()).remove(0);
        assert!(close(&row, &Reference::new(&config).pooled(&text), 1e-4));
        pooled.push(row);
    }
    assert!(!close(&pooled[0], &pooled[1], 1e-2));
}

#[test]
fn explicit_padding_changes_nothing() {
    let model = load(&config());
    let text = encode("Deep Learning is...");
    let mut padded = text.clone();
    padded.resize(8, 1);
    let (pooled, _) = embed(&model, batch(vec![text, padded], vec![0, 1], vec![]));
    let pooled = rows(&pooled.unwrap());
    assert!(close(&pooled[0], &pooled[1], 1e-5));
}

#[test]
fn half_precision() {
    let config = config();
    let model = load_as(&config, Precision::F16, ModelType::Embedding(Pool::Mean)).unwrap();
    let text = encode("What is Deep Learning?");
    let (pooled, raw) = embed(&model, batch(vec![text.clone()], vec![0], vec![0]));
    let reference = Reference::new(&config);
    for (tensor, expected) in [
        (pooled.unwrap(), vec![reference.pooled(&text)]),
        (raw.unwrap(), reference.raw(&text)),
    ] {
        assert_eq!(tensor.dtype(), candle_core::DType::F16);
        let got = rows(&tensor.to_dtype(candle_core::DType::F32).unwrap());
        assert_eq!(got.len(), expected.len());
        for (g, e) in got.iter().zip(&expected) {
            assert!(close(g, e, 0.1));
        }
    }
}

#[test]
fn a_model_without_layers() {
    let config = SiglipTextConfig {
        num_hidden_layers: 0,
        num_attention_heads: 0,
        ..config()
    };
    let model = load(&config);
    let text = encode("What is Deep Learning?");
    let (pooled, _) = embed(&model, batch(vec![text.clone()], vec![0], vec![]));
    let expected = Reference::new(&config).pooled(&text);
    assert!(close(&rows(&pooled.unwrap())[0], &expected, 1e-4));
}

#[test]
fn more_layers_than_digits() {
    let config = SiglipTextConfig {
        num_hidden_layers: 11,
        ..config()
    };
    let text = encode("What is Deep Learning?");
    let (pooled, _) = embed(&load(&config), batch(vec![text.clone()], vec![0], vec![]));
    let expected = Reference::new(&config).pooled(&text);
    assert!(close(&rows(&pooled.unwrap())[0], &expected, 1e-3));
}

#[test]
fn an_empty_batch_has_no_embeddings() {
    let model = load(&config());
    let (pooled, raw) = embed(&model, batch(vec![], vec![], vec![]));
    let pooled = pooled.unwrap();
    assert_eq!(pooled.dims(), &[0, 6]);
    assert_eq!(pooled.dtype(), candle_core::DType::F32);
    assert!(raw.is_none());
}

#[test]
fn a_batch_without_requests_has_no_embeddings() {
    let model = load(&config());
    let (pooled, raw) = embed(&model, batch(vec![vec![2, 3]], vec![], vec![]));
    let pooled = pooled.unwrap();
    assert_eq!(pooled.dims(), &[0, 6]);
    assert!(rows(&pooled).is_empty());
    assert!(raw.is_none());
}

#[test]
fn raw_embeddings_of_an_empty_text() {
    let model = load(&config());
    let (_, raw) = embed(&model, batch(vec![vec![]], vec![], vec![0]));
    assert_eq!(raw.unwrap().dims(), &[0, 6]);
}

#[test]
fn the_first_text_that_is_too_long_is_reported() {
    let model = load(&config());
    let input = batch(vec![vec![2; 8], vec![2; 9], vec![2; 10]], vec![0], vec![]);
    assert!(model.has_room_for(&input));
    let result = model.forward(input);
    assert!(matches!(
        result,
        Err(ModelError::SequenceTooLong { index: 1 })
    ));
}

#[test]
fn an_unknown_token_is_an_error() {
    let model = load(&config());
    let result = model.forward(batch(vec![vec![2, 11]], vec![0], vec![]));
    assert!(matches!(result, Err(ModelError::Tensor(_))));
}

#[test]
fn a_padding_token_without_embedding_is_an_error() {
    let config = SiglipTextConfig {
        pad_token_id: 11,
        ..config()
    };
    let model = load(&config);
    let result = model.forward(batch(vec![vec![2]], vec![0], vec![]));
    assert!(matches!(result, Err(ModelError::Tensor(_))));
    assert!(model
        .forward(batch(vec![vec![2; 8]], vec![0], vec![]))
        .is_ok());
}

#[test]
fn the_largest_id_is_a_row_of_zeros() {
    let config = SiglipTextConfig {
        num_hidden_layers: 0,
        ..config()
    };
    let reference = Reference::new(&config);
    let (_, raw) = embed(&load(&config), batch(vec![vec![u32::MAX]], vec![], vec![0]));
    let positions = reference.matrix("embeddings.position_embedding.weight");
    let expected: Vec<f32> = reference.norm("final_layer_norm", &positions)[0]
        .iter()
        .map(|v| *v as f32)
        .collect();
    assert!(close(&rows(&raw.unwrap())[0], &expected, 1e-4));
}

#[test]
fn heads_that_do_not_share_out_the_width_are_an_error() {
    let config = SiglipTextConfig {
        num_attention_heads: 4,
        ..config()
    };
    let model = load(&config);
    let result = model.forward(batch(vec![vec![2]], vec![0], vec![]));
    assert!(matches!(result, Err(ModelError::Tensor(_))));
}

#[test]
fn every_weight_is_needed() {
    let config = config();
    for missing in 0..shapes(&config).len() {
        let mut tensors = checkpoint(&config);
        tensors.remove(missing);
        let vb = VarBuilder::from_tensors(tensors, Precision::F32).unwrap();
        let result = SiglipTextModel::load(vb, &config, ModelType::Embedding(Pool::Mean));
        assert!(matches!(result, Err(ModelError::Tensor(_))));
    }
}

#[test]
fn every_weight_has_its_dimensions() {
    let config = config();
    for wrong in 0..shapes(&config).len() {
        let mut tensors = checkpoint(&config);
        tensors[wrong].dims.insert(0, 1);
        let vb = VarBuilder::from_tensors(tensors, Precision::F32).unwrap();
        let result = SiglipTextModel::load(vb, &config, ModelType::Embedding(Pool::Mean));
        assert!(matches!(result, Err(ModelError::Tensor(_))));
    }
}

#[test]
fn the_narrowing_layer_maps_the_inner_width_to_the_outer() {
    let config = config();
    let mut tensors = checkpoint(&config);
    for tensor in tensors.iter_mut() {
        if tensor.name.ends_with("fc2.weight") {
            tensor.dims = vec![config.intermediate_size, config.hidden_size];
        }
    }
    let vb = VarBuilder::from_tensors(tensors, Precision::F32).unwrap();
    let result = SiglipTextModel::load(vb, &config, ModelType::Embedding(Pool::Mean));
    assert!(matches!(result, Err(ModelError::Tensor(_))));
}

#[test]
fn malformed_tensors_are_reported() {
    let mut tensors = checkpoint(&config());
    tensors[3].bits.pop();
    tensors[4].bits.pop();
    let result = VarBuilder::from_tensors(tensors, Precision::F32);
    assert!(matches!(
        result,
        Err(ModelError::MalformedTensor { index: 3 })
    ));
}

#[test]
fn names_that_occur_twice_are_reported() {
    let mut tensors = checkpoint(&config());
    let first = tensors[1].name.clone();
    tensors[4].name = first;
    assert!(matches!(
        VarBuilder::from_tensors(tensors, Precision::F32),
        Err(ModelError::DuplicateName { index: 4 })
    ));
}

#[test]
fn layers_of_zeros_give_the_bias() {
    let config = SiglipTextConfig {
        num_hidden_layers: 0,
        ..config()
    };
    let mut tensors = checkpoint(&config);
    for tensor in tensors.iter_mut() {
        let value = match tensor.name.as_str() {
            "final_layer_norm.weight" | "head.weight" => 0.0f32,
            "final_layer_norm.bias" => 0.25,
            "head.bias" => 0.5,
            _ => continue,
        };
        tensor.bits = vec![value.to_bits(); tensor.bits.len()];
    }
    let vb = VarBuilder::from_tensors(tensors, Precision::F32).unwrap();
    let model = SiglipTextModel::load(vb, &config, ModelType::Embedding(Pool::Mean)).unwrap();
    let (pooled, raw) = embed(&model, batch(vec![vec![2, 3]], vec![0], vec![0]));
    assert_eq!(rows(&pooled.unwrap()), vec![vec![0.5f32; 6]]);
    assert_eq!(rows(&raw.unwrap()), vec![vec![0.25f32; 6]; 2]);
}

#[test]
fn a_layer_of_zeros_returns_its_input() {
    let flat = SiglipTextConfig {
        num_hidden_layers: 0,
        ..config()
    };
    let one = SiglipTextConfig {
        num_hidden_layers: 1,
        ..config()
    };
    let mut outputs = Vec::new();
    for config in [flat, one] {
        let mut tensors = checkpoint(&config);
        for tensor in tensors.iter_mut() {
            if tensor.name.contains("out_proj") || tensor.name.contains("fc2") {
                tensor.bits = vec![0; tensor.bits.len()];
            }
        }
        let vb = VarBuilder::from_tensors(tensors, Precision::F32).unwrap();
        let model = SiglipTextModel::load(vb, &config, ModelType::Embedding(Pool::Mean)).unwrap();
        let (_, raw) = embed(&model, batch(vec![vec![2, 3, 4]], vec![], vec![0]));
        outputs.push(rows(&raw.unwrap()));
    }
    assert_eq!(outputs[0], outputs[1]);
}

#[test]
fn a_missing_table_is_reported_before_heads_are_counted() {
    let headless = SiglipTextConfig {
        num_attention_heads: 0,
        ..config()
    };
    let vb = VarBuilder::from_tensors(vec![], Precision::F32).unwrap();
    let result = SiglipTextModel::load(vb, &headless, ModelType::Embedding(Pool::Mean));
    assert!(matches!(result, Err(ModelError::Tensor(_))));
}

#[test]
fn room_for_a_batch() {
    let model = load(&config());
    assert!(model.has_room_for(&batch(vec![vec![2]], vec![0], vec![0])));
    assert!(model.has_room_for(&batch(vec![], vec![], vec![])));
    let huge = SiglipTextConfig {
        num_attention_heads: usize::MAX,
        ..config()
    };
    assert!(!load(&huge).has_room_for(&batch(vec![vec![2]], vec![0], vec![])));
}

#[test]
fn heads_need_no_room_without_layers() {
    let flat = SiglipTextConfig {
        num_hidden_layers: 0,
        num_attention_heads: usize::MAX,
        intermediate_size: usize::MAX,
        ..config()
    };
    let model = load(&flat);
    let (pooled, _) = embed(&model, batch(vec![vec![2]], vec![0], vec![]));
    assert_eq!(pooled.unwrap().dims(), &[1, 6]);
}

#[test]
fn no_room_without_positions_or_width() {
    let flat = SiglipTextConfig {
        max_position_embeddings: 0,
        ..config()
    };
    let model = load(&flat);
    assert!(!model.has_room_for(&batch(vec![vec![]], vec![0], vec![])));
    assert!(model.has_room_for(&batch(vec![vec![2]], vec![0], vec![])));
    assert!(matches!(
        model.forward(batch(vec![vec![2]], vec![0], vec![])),
        Err(ModelError::SequenceTooLong { index: 0 })
    ));
}

#[test]
fn tensors_with_overflowing_dimensions_are_reported() {
    let tensor = NamedTensor {
        name: "head.weight".to_string(),
        dims: vec![0, usize::MAX, usize::MAX],
        bits: vec![],
    };
    assert!(matches!(
        VarBuilder::from_tensors(vec![tensor], Precision::F32),
        Err(ModelError::MalformedTensor { index: 0 })
    ));
}

#[test]
fn batches_are_padded() {
    assert!(load(&config()).is_padded());
}

#[test]
fn forward_and_embed_agree() {
    let model = load(&config());
    let input = || batch(vec![vec![2, 3, 4]], vec![0], vec![0]);
    let (pooled1, raw1) = model.forward(input()).unwrap();
    let (pooled2, raw2) = model.embed(input()).unwrap();
    assert!(close(
        &rows(&pooled1.unwrap())[0],
        &rows(&pooled2.unwrap())[0],
        1e-5
    ));
    assert!(close(
        &rows(&raw1.unwrap())[2],
        &rows(&raw2.unwrap())[2],
        1e-5
    ));
}

#[test]
fn errors_say_what_went_wrong() {
    let too_long = ModelError::SequenceTooLong { index: 3 };
    assert_eq!(too_long.message(), "a sequence has more tokens than positions");
    let duplicate = ModelError::DuplicateName { index: 3 };
    assert_eq!(duplicate.message(), "two tensors have one name");
    let malformed = ModelError::MalformedTensor { index: 3 };
    assert_eq!(malformed.message(), "a tensor does not fit its dimensions");
    let model = load(&config());
    match model.forward(batch(vec![vec![11]], vec![0], vec![])) {
        Err(e) => assert_eq!(e.message(), "a tensor operation failed"),
        Ok(_) => panic!("embedded"),
    }
}

#[test]
fn reordered_texts_have_reordered_embeddings() {
    let model = load(&config());
    let texts = vec![vec![2, 3, 10], vec![4, 5, 6, 10], vec![7, 10]];
    let order = [2, 0, 1];
    let reordered = order.iter().map(|k| texts[*k].clone()).collect();
    let (first, _) = embed(&model, batch(texts, vec![0, 1, 2], vec![]));
    let (second, _) = embed(&model, batch(reordered, vec![0, 1, 2], vec![]));
    let (first, second) = (rows(&first.unwrap()), rows(&second.unwrap()));
    for k in 0..3 {
        assert!(close(&second[k], &first[order[k]], 1e-5));
    }
}

#[test]
fn the_embedding_of_a_beginning_is_the_beginning_of_the_embedding() {
    let flat = SiglipTextConfig {
        num_hidden_layers: 0,
        ..config()
    };
    let model = load(&flat);
    let (_, raw) = embed(
        &model,
        batch(vec![vec![2, 3, 4, 5], vec![2, 3]], vec![], vec![0, 1]),
    );
    let raw = rows(&raw.unwrap());
    assert!(close(&raw[4], &raw[0], 1e-6));
    assert!(close(&raw[5], &raw[1], 1e-6));
}

#[test]
fn layers_work_on_one_text_at_a_time() {
    let config = config();
    let model = load(&config);
    let reference = Reference::new(&config);
    let text = vec![2, 3, 10];
    for other in 0..9 {
        let (pooled, _) = embed(
            &model,
            batch(vec![vec![other; 5], text.clone()], vec![1], vec![]),
        );
        assert!(close(&rows(&pooled.unwrap())[0], &reference.pooled(&text), 1e-4));
    }
}

#[test]
fn raw_rows_of_a_text_are_those_it_has_by_itself() {
    let model = load(&config());
    let texts = vec![vec![4, 5, 6, 7, 10], vec![2, 3, 10], vec![8, 10]];
    let (pooled, raw) = embed(&model, batch(texts.clone(), vec![0, 1, 2], vec![2, 1, 0]));
    let (pooled, raw) = (rows(&pooled.unwrap()), rows(&raw.unwrap()));
    assert_eq!(raw.len(), 10);
    for (text, first) in [(2, 0), (1, 2), (0, 5)] {
        let alone = batch(vec![texts[text].clone()], vec![0], vec![0]);
        let (own_pooled, own_raw) = embed(&model, alone);
        assert!(close(&rows(&own_pooled.unwrap())[0], &pooled[text], 1e-5));
        let own_raw = rows(&own_raw.unwrap());
        assert_eq!(own_raw.len(), texts[text].len());
        for j in 0..own_raw.len() {
            assert!(close(&own_raw[j], &raw[first + j], 1e-5));
        }
    }
}

#[test]
fn raw_rows_of_a_text_padded_by_hand_begin_with_its_own() {
    let model = load(&config());
    let text = encode("Deep Learning is...");
    let n = text.len();
    let mut padded = text.clone();
    padded.resize(8, 1);
    let (pooled, raw) = embed(&model, batch(vec![text, padded], vec![0, 1], vec![0, 1]));
    let (pooled, raw) = (rows(&pooled.unwrap()), rows(&raw.unwrap()));
    assert!(close(&pooled[0], &pooled[1], 1e-5));
    assert_eq!(raw.len(), n + 8);
    for j in 0..n {
        assert!(close(&raw[j], &raw[n + j], 1e-5));
    }
}
