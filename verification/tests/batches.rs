use loader::batcher::BatchConfig;
use loader::tasks::masking::gpt2_test_endpoint::{Gpt2Endpoint, GptData};
use loader::tasks::masking::masked_data::{mask_positions, MaskedData};
use loader::tasks::masking::masking_test_endpoint::MaskingEndpoint;
use loader::tasks::masking::t5_test_endpoint::T5Endpoint;
use loader::tasks::masking::MaskingConfig;
use loader::tasks::python::config::PythonConfig;
use loader::tasks::python::data::PythonData as SimplePythonData;
use loader::tasks::python::python_data::PythonData;
use loader::tasks::single_class::single_data::SingleClassData;
use loader::tasks::single_class::SingleClassConfig;
use loader::tasks::squad::squad_data::{SquadData, SquadGeneral};
use loader::tasks::squad::squad_endpoint::SquadEnpoint;
use loader::tasks::squad::SquadConfig;
use loader::tokenizer::encoding::EncodingData;
use loader::tokenizer::tokenizer_data::TokenizedData;

#[test]
fn mask_positions_masks_non_zero_places_only() {
    let mut ids = vec![5u32, 0, 7, 9];
    let mut labels = vec![-100i32; 4];
    mask_positions(&mut ids, &mut labels, &vec![1, 2, 3, 0], 3, 103);
    assert_eq!(ids, vec![5, 0, 103, 103]);
    assert_eq!(labels, vec![-100, -100, 7, 9]);
}

#[test]
fn masked_batch_fills_rows() {
    let config = MaskingConfig { mask_length: 2 };
    let batch = BatchConfig { batch_size: 2, sequence_length: 4 };
    let mut data = MaskedData::new(config, batch, 103);
    assert_eq!(data.position_base, vec![0, 1, 2, 3]);
    assert!(!data.put_data(&[11, 12, 13, 14]));
    let masked = data.input_ids[0].iter().filter(|&&v| v == 103).count();
    assert_eq!(masked, 2);
    for j in 0..4 {
        if data.input_ids[0][j] == 103 {
            assert_eq!(data.labels[0][j], 11 + j as i32);
        } else {
            assert_eq!(data.labels[0][j], -100);
            assert_eq!(data.input_ids[0][j], 11 + j as u32);
        }
    }
    assert!(data.put_data(&[21]));
    assert!(data.done());
    // A short row has the attention of its last places (as many as its ids) cleared.
    assert_eq!(data.attention_mask[1], vec![1, 1, 1, 0]);
    let mut sorted = data.position_base.clone();
    sorted.sort();
    assert_eq!(sorted, vec![0, 1, 2, 3]);
    let fresh = data.new_data();
    assert_eq!(fresh.index, 0);
}

#[test]
fn simple_python_rows_label_themselves() {
    let mut data = SimplePythonData::new(2, 4);
    assert!(!data.put_data(&[3, 4]));
    assert_eq!(data.input_ids[0], vec![3, 4, 0, 0]);
    assert_eq!(data.labels[0], vec![3, 4, -100, -100]);
    assert_eq!(data.attention_mask[0], vec![1, 1, 0, 0]);
    assert!(data.put_data(&[1, 2, 3, 4]));
    assert_eq!(data.labels[1], vec![1, 2, 3, 4]);
    assert_eq!(data.attention_mask[1], vec![1, 1, 1, 1]);
}

fn tokenized(n: usize, layers: usize) -> TokenizedData {
    TokenizedData {
        ids: (1..=n as u32).collect(),
        positions: (0..n as u32).collect(),
        attention_mask: (0..layers).map(|l| vec![l as u32; n]).collect(),
        gaps: vec![n],
    }
}

#[test]
fn hierarchical_rows_take_ids_positions_and_layers() {
    let config = PythonConfig { mask_length: 0, context_shape: vec![2, 2] };
    let batch = BatchConfig { batch_size: 1, sequence_length: 70 };
    let mut data = PythonData::new(config, batch, 5);
    assert!(!data.put_data(tokenized(10, 2)));
    assert_eq!(data.index, 0);
    assert!(data.put_data(tokenized(80, 2)));
    assert_eq!(data.input_ids[0][69], 70);
    assert_eq!(data.position_ids[0][0..3], [0, 1, 2]);
    assert_eq!(data.attention_mask[0][1][0], 1);
    assert_eq!(data.attention_mask[0][0][69], 0);
    assert_eq!(data.labels[0], vec![-100; 70]);
}

fn encoding(ids: Vec<u32>, offsets: Vec<(usize, usize)>) -> EncodingData {
    let n = ids.len();
    EncodingData {
        ids,
        type_ids: vec![0; n],
        attention_mask: vec![1; n],
        offsets,
        sequence_ranges: vec![(0, 0, 1), (1, 1, n)],
    }
}

#[test]
fn char_to_token_looks_within_the_sequence() {
    let e = encoding(vec![101, 7, 8, 9], vec![(0, 0), (0, 3), (4, 6), (6, 9)]);
    assert_eq!(e.char_to_token(5, 1), Some(2));
    assert_eq!(e.char_to_token(0, 1), Some(1));
    assert_eq!(e.char_to_token(3, 1), None);
    assert_eq!(e.char_to_token(0, 7), Some(1));
}

#[test]
fn single_class_rows() {
    let batch = BatchConfig { batch_size: 1, sequence_length: 3 };
    let mut data = SingleClassData::new(&SingleClassConfig {}, batch);
    let e = encoding(vec![101, 7, 8, 9], vec![(0, 0), (0, 3), (4, 6), (6, 9)]);
    assert!(data.put_data(&e, 4));
    assert_eq!(data.input_ids[0], vec![101, 7, 8]);
    assert_eq!(data.attention_mask[0], vec![1, 1, 1]);
    assert_eq!(data.label, vec![4]);
}

#[test]
fn squad_finds_answer_tokens() {
    let config = SquadConfig { batch_size: 2, sequence_length: 8 };
    let mut data = SquadData::new(&config);
    let e = encoding(vec![101, 7, 8, 9], vec![(0, 0), (0, 3), (4, 6), (6, 9)]);
    let q = SquadGeneral {
        question: "q".to_string(),
        context: "abc de fgh".to_string(),
        sp: 4,
        ep: 9,
        offset: None,
        answer: Some("defgh".to_string()),
    };
    assert!(!data.put_data(&e, q.clone()));
    assert_eq!(data.start_positions[0], 2);
    assert_eq!(data.end_positions[0], 3);
    assert_eq!(data.index, 1);
    let shifted = SquadGeneral { sp: 3, ep: 8, offset: Some(1), ..q.clone() };
    assert!(data.put_data(&e, shifted));
    assert_eq!(data.start_positions[1], 2);
    assert_eq!(data.end_positions[1], 3);
    let mut other = SquadData::new(&config);
    let missing = SquadGeneral { sp: 20, ep: 22, offset: None, ..q };
    assert!(!other.put_data(&e, missing));
    assert_eq!(other.index, 0);
    assert_eq!(other.answers[0], Some("defgh".to_string()));
}

#[test]
fn gpt_check_compares_labels_with_attention() {
    let ep = Gpt2Endpoint::new(());
    let good = GptData {
        input_ids: vec![vec![5, 6], vec![7, 8]],
        attention_mask: vec![vec![1, 0], vec![1, 1]],
        labels: vec![vec![5, -100], vec![7, 8]],
    };
    assert!(ep.check_batch(good));
    let bad = GptData {
        input_ids: vec![vec![5, 6], vec![7, 8]],
        attention_mask: vec![vec![1, 0], vec![1, 1]],
        labels: vec![vec![5, 6], vec![7, 8]],
    };
    assert!(!ep.check_batch(bad));
    assert!(MaskingEndpoint::new(()).check_batch(3));
    assert!(T5Endpoint::new(()).check_batch("x"));
    assert!(SquadEnpoint::new(()).receive(1));
}
