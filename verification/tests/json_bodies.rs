use decthings_model::json::{push_json_string, push_u64_dec};
use decthings_model::messages::{
    encode_data_event_body, encode_event, encode_result_with_id, CallCreateModelStateError,
    CallEvaluateError, CallTrainError, DataEvent, EvaluateOutput, EventMessage, ResultMessage,
};

fn parse(bytes: &[u8]) -> serde_json::Value {
    serde_json::from_slice(bytes).expect("emitted body must be valid JSON")
}

fn parse_str(text: &str) -> serde_json::Value {
    serde_json::from_str(text).unwrap()
}

#[test]
fn decimal_digits() {
    for (n, expected) in [
        (0u64, "0"),
        (7, "7"),
        (10, "10"),
        (12345, "12345"),
        (u64::MAX, "18446744073709551615"),
    ] {
        let mut out = Vec::new();
        push_u64_dec(&mut out, n);
        assert_eq!(out, expected.as_bytes());
    }
}

#[test]
fn string_escaping_matches_the_reference_serializer() {
    let cases = [
        "plain",
        "with \"quotes\" and \\backslash\\",
        "control\u{0}\u{1}\u{8}\u{9}\u{a}\u{c}\u{d}\u{1f} done",
        "unicode: \u{e9}\u{4e16}\u{1f600}",
        "",
    ];
    for case in cases {
        let mut ours = Vec::new();
        push_json_string(&mut ours, case);
        let reference = serde_json::to_vec(&serde_json::Value::String(case.to_string())).unwrap();
        assert_eq!(ours, reference, "escaping of {case:?}");
    }
}

#[test]
fn create_model_state_success_body() {
    let body = encode_result_with_id(
        "c1",
        &ResultMessage::CallCreateModelState { error: None },
    );
    assert_eq!(body, b"{\"result\":{},\"id\":\"c1\"}");
}

#[test]
fn create_model_state_exception_body() {
    let body = encode_result_with_id(
        "c1",
        &ResultMessage::CallCreateModelState {
            error: Some(CallCreateModelStateError::Exception {
                details: Some("Panicked:\nboom".to_string()),
            }),
        },
    );
    assert_eq!(
        parse(&body),
        parse_str(
            "{\"id\":\"c1\",\"result\":{\"error\":{\"code\":\"exception\",\"details\":\"Panicked:\\nboom\"}}}"
        )
    );
}

#[test]
fn train_not_found_body() {
    let body = encode_result_with_id(
        "c9",
        &ResultMessage::CallTrain { error: Some(CallTrainError::InstantiatedModelNotFound) },
    );
    assert_eq!(
        parse(&body),
        parse_str(
            "{\"id\":\"c9\",\"result\":{\"error\":{\"code\":\"instantiated_model_not_found\"}}}"
        )
    );
}

#[test]
fn evaluate_success_body() {
    let body = encode_result_with_id(
        "c2",
        &ResultMessage::CallEvaluate {
            error: None,
            outputs: Some(vec![EvaluateOutput {
                name: "y".to_string(),
                byte_sizes: vec![3],
            }]),
        },
    );
    assert_eq!(body, b"{\"result\":{\"outputs\":[{\"name\":\"y\",\"byteSizes\":[3]}]},\"id\":\"c2\"}");
    assert_eq!(
        parse(&body),
        parse_str("{\"id\":\"c2\",\"result\":{\"outputs\":[{\"name\":\"y\",\"byteSizes\":[3]}]}}")
    );
}

#[test]
fn evaluate_not_found_body() {
    let body = encode_result_with_id(
        "c3",
        &ResultMessage::CallEvaluate {
            error: Some(CallEvaluateError::InstantiatedModelNotFound),
            outputs: None,
        },
    );
    assert_eq!(
        parse(&body),
        parse_str(
            "{\"id\":\"c3\",\"result\":{\"error\":{\"code\":\"instantiated_model_not_found\"}}}"
        )
    );
}

#[test]
fn evaluate_multiple_outputs_body() {
    let body = encode_result_with_id(
        "c4",
        &ResultMessage::CallEvaluate {
            error: None,
            outputs: Some(vec![
                EvaluateOutput { name: "a".to_string(), byte_sizes: vec![1, 2, 3] },
                EvaluateOutput { name: "b".to_string(), byte_sizes: vec![] },
            ]),
        },
    );
    assert_eq!(
        parse(&body),
        parse_str(
            "{\"id\":\"c4\",\"result\":{\"outputs\":[{\"name\":\"a\",\"byteSizes\":[1,2,3]},{\"name\":\"b\",\"byteSizes\":[]}]}}"
        )
    );
}

#[test]
fn model_session_initialized_body() {
    let body = encode_event(&EventMessage::ModelSessionInitialized);
    assert_eq!(body, b"{\"event\":\"modelSessionInitialized\",\"params\":{}}");
}

#[test]
fn training_progress_body() {
    let body = encode_event(&EventMessage::TrainingProgress {
        training_session_id: "s1".to_string(),
        progress_repr: b"0.5".to_vec(),
    });
    assert_eq!(
        parse(&body),
        parse_str(
            "{\"event\":\"trainingProgress\",\"params\":{\"trainingSessionId\":\"s1\",\"progress\":0.5}}"
        )
    );
}

#[test]
fn training_metrics_body() {
    let body = encode_event(&EventMessage::TrainingMetrics {
        training_session_id: "s1".to_string(),
        names: vec!["loss".to_string(), "accuracy".to_string()],
    });
    assert_eq!(
        parse(&body),
        parse_str(
            "{\"event\":\"trainingMetrics\",\"params\":{\"trainingSessionId\":\"s1\",\"names\":[\"loss\",\"accuracy\"]}}"
        )
    );
}

#[test]
fn provide_state_data_body() {
    let body = encode_event(&EventMessage::ProvideStateData {
        command_id: "c1".to_string(),
        names: vec!["w1".to_string()],
    });
    assert_eq!(
        parse(&body),
        parse_str(
            "{\"event\":\"provideStateData\",\"params\":{\"commandId\":\"c1\",\"names\":[\"w1\"]}}"
        )
    );
}

#[test]
fn request_data_body() {
    let body = encode_data_event_body(&DataEvent::RequestData {
        dataset: "d1".to_string(),
        request_id: 0,
        start_index: 0,
        amount: 1,
    });
    assert_eq!(
        body,
        b"{\"event\":\"requestData\",\"dataset\":\"d1\",\"requestId\":0,\"startIndex\":0,\"amount\":1}"
    );
}

#[test]
fn shuffle_body() {
    let body = encode_data_event_body(&DataEvent::Shuffle {
        datasets: vec!["d1".to_string(), "d2".to_string()],
    });
    assert_eq!(
        parse(&body),
        parse_str("{\"event\":\"shuffle\",\"datasets\":[\"d1\",\"d2\"]}")
    );
}
