use decthings_model::codec::decode_result_or_event;
use decthings_model::messages::{
    CallTrainError, EvaluateOutput, ResultMessage,
};
use decthings_model::runner::{
    evaluate_result_parts, result_for_create_model_state, result_for_evaluate,
    result_for_get_model_state, result_for_instantiate_model, result_for_train, Registry,
};
use decthings_model::sender::{encode_message, result_message};

#[test]
fn registry_inserts_replaces_and_removes() {
    let mut registry: Registry<u32> = Registry::new();
    assert!(registry.insert("m1".to_string(), 1).is_none());
    assert!(registry.insert("m2".to_string(), 2).is_none());
    assert_eq!(registry.get(&"m1".to_string()), Some(&1));
    assert_eq!(registry.insert("m1".to_string(), 3), Some(1));
    assert_eq!(registry.get(&"m1".to_string()), Some(&3));
    assert_eq!(registry.remove(&"m1".to_string()), Some(3));
    assert_eq!(registry.get(&"m1".to_string()), None);
    assert_eq!(registry.get(&"m2".to_string()), Some(&2));
}

#[test]
fn removing_an_unknown_id_is_a_no_op() {
    let mut registry: Registry<u32> = Registry::new();
    registry.insert("m1".to_string(), 1);
    assert_eq!(registry.remove(&"ghost".to_string()), None);
    assert_eq!(registry.get(&"m1".to_string()), Some(&1));
    assert_eq!(registry.entries.len(), 1);

    let mut sessions: Registry<()> = Registry::new();
    assert_eq!(sessions.remove(&"unknown-session".to_string()), None);
    assert_eq!(sessions.entries.len(), 0);
}

#[test]
fn result_builders_follow_the_dispatch_table() {
    assert!(matches!(
        result_for_create_model_state(Ok(())),
        ResultMessage::CallCreateModelState { error: None }
    ));
    assert!(matches!(
        result_for_create_model_state(Err("boom".to_string())),
        ResultMessage::CallCreateModelState { error: Some(_) }
    ));
    assert!(matches!(
        result_for_instantiate_model(Ok(())),
        ResultMessage::CallInstantiateModel { error: None }
    ));
    assert!(matches!(
        result_for_train(None),
        ResultMessage::CallTrain { error: Some(CallTrainError::InstantiatedModelNotFound) }
    ));
    assert!(matches!(result_for_train(Some(Ok(()))), ResultMessage::CallTrain { error: None }));
    assert!(matches!(
        result_for_get_model_state(None),
        ResultMessage::CallGetModelState { error: Some(_) }
    ));
}

#[test]
fn evaluate_parts_list_sizes_and_concatenate_payloads() {
    let outputs = vec![
        ("y".to_string(), vec![vec![1u8, 2, 3]]),
        ("z".to_string(), vec![vec![4u8], vec![], vec![5, 6]]),
    ];
    let (descs, payload) = evaluate_result_parts(&outputs);
    assert_eq!(descs.len(), 2);
    assert_eq!(descs[0].name, "y");
    assert_eq!(descs[0].byte_sizes, vec![3]);
    assert_eq!(descs[1].name, "z");
    assert_eq!(descs[1].byte_sizes, vec![1, 0, 2]);
    assert_eq!(payload, vec![1, 2, 3, 4, 5, 6]);
}

#[test]
fn evaluate_reply_carries_one_concatenated_extra_segment() {
    let outputs = vec![("y".to_string(), vec![vec![1u8, 2, 3]])];
    let (result, extras) = result_for_evaluate(Some(Ok(&outputs)));
    match &result {
        ResultMessage::CallEvaluate { error: None, outputs: Some(descs) } => {
            assert_eq!(descs.len(), 1);
            assert_eq!(descs[0].name, "y");
            assert_eq!(descs[0].byte_sizes, vec![3]);
        },
        _ => panic!("expected a successful evaluate result"),
    }
    assert_eq!(extras, vec![vec![1, 2, 3]]);

    let message = result_message("c2", &result, extras);
    let frame = encode_message(&message);
    let (body, extra_segments, used) = decode_result_or_event(&frame).unwrap();
    assert_eq!(used, frame.len());
    assert_eq!(
        serde_json::from_slice::<serde_json::Value>(&body).unwrap(),
        serde_json::from_str::<serde_json::Value>(
            "{\"id\":\"c2\",\"result\":{\"outputs\":[{\"name\":\"y\",\"byteSizes\":[3]}]}}"
        )
        .unwrap()
    );
    assert_eq!(extra_segments, vec![vec![1, 2, 3]]);
}

#[test]
fn missing_model_evaluate_reply() {
    let (result, extras) = result_for_evaluate(None);
    assert!(extras.is_empty());
    let message = result_message("c3", &result, extras);
    let frame = encode_message(&message);
    let (body, _, _) = decode_result_or_event(&frame).unwrap();
    assert_eq!(
        serde_json::from_slice::<serde_json::Value>(&body).unwrap(),
        serde_json::from_str::<serde_json::Value>(
            "{\"id\":\"c3\",\"result\":{\"error\":{\"code\":\"instantiated_model_not_found\"}}}"
        )
        .unwrap()
    );
}

#[test]
fn outputs_reconstruct_by_prefix_sums() {
    let outputs = vec![
        ("a".to_string(), vec![vec![9u8; 4], vec![8u8; 2]]),
        ("b".to_string(), vec![vec![7u8; 3]]),
    ];
    let (descs, payload) = evaluate_result_parts(&outputs);
    let mut offset = 0usize;
    let mut rebuilt: Vec<(String, Vec<Vec<u8>>)> = Vec::new();
    for EvaluateOutput { name, byte_sizes } in descs {
        let mut segs = Vec::new();
        for size in byte_sizes {
            let size = size as usize;
            segs.push(payload[offset..offset + size].to_vec());
            offset += size;
        }
        rebuilt.push((name, segs));
    }
    assert_eq!(offset, payload.len());
    assert_eq!(rebuilt, outputs);
}
