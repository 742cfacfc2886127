use decthings_model::stateprovider::{create_state_provider, group_parts, ProvideError};

const MIB: usize = 1024 * 1024;

fn pair(key: &str, len: usize) -> (String, Vec<u8>) {
    (key.to_string(), vec![0u8; len])
}

#[test]
fn small_values_go_out_as_one_group() {
    let mut provider = create_state_provider("c1".to_string());
    let data = vec![pair("a", 3), pair("b", 0), pair("c", 5)];
    let groups = provider.provide_all(&data).unwrap();
    assert_eq!(groups.len(), 1);
    let (names, segments) = group_parts(groups.into_iter().next().unwrap());
    assert_eq!(names, vec!["a", "b", "c"]);
    assert_eq!(segments.iter().map(|s| s.len()).collect::<Vec<_>>(), vec![3, 0, 5]);
}

#[test]
fn duplicate_key_within_one_call_is_rejected() {
    let mut provider = create_state_provider("c1".to_string());
    let data = vec![pair("a", 1), pair("a", 2)];
    match provider.provide_all(&data) {
        Err(ProvideError::DuplicateKey { key }) => assert_eq!(key, "a"),
        _ => panic!("expected a duplicate-key rejection"),
    }
}

#[test]
fn duplicate_key_across_calls_is_rejected() {
    let mut provider = create_state_provider("c1".to_string());
    provider.provide_all(&vec![pair("a", 1)]).unwrap();
    match provider.provide_all(&vec![pair("a", 1)]) {
        Err(ProvideError::DuplicateKey { key }) => assert_eq!(key, "a"),
        _ => panic!("expected a duplicate-key rejection"),
    }
    provider.provide_all(&vec![pair("b", 1)]).unwrap();
}

#[test]
fn more_than_one_hundred_keys_are_rejected() {
    let mut provider = create_state_provider("c1".to_string());
    let first: Vec<(String, Vec<u8>)> = (0..60).map(|i| pair(&format!("k{i}"), 1)).collect();
    provider.provide_all(&first).unwrap();
    let second: Vec<(String, Vec<u8>)> = (60..101).map(|i| pair(&format!("k{i}"), 1)).collect();
    match provider.provide_all(&second) {
        Err(ProvideError::TooManyKeys) => {},
        _ => panic!("expected a too-many-keys rejection"),
    }
    let exactly: Vec<(String, Vec<u8>)> = (60..100).map(|i| pair(&format!("k{i}"), 1)).collect();
    provider.provide_all(&exactly).unwrap();
}

#[test]
fn a_value_of_a_full_gibibyte_is_rejected() {
    let mut provider = create_state_provider("c1".to_string());
    let data = vec![pair("big", 1024 * MIB)];
    match provider.provide_all(&data) {
        Err(ProvideError::ValueTooLarge) => {},
        _ => panic!("expected a value-too-large rejection"),
    }
    let data = vec![pair("big", 1024 * MIB - 1)];
    assert!(provider.provide_all(&data).is_ok());
}

#[test]
fn batching_splits_at_the_gibibyte_boundary() {
    let mut provider = create_state_provider("c1".to_string());
    let data = vec![pair("a", 600 * MIB), pair("b", 600 * MIB), pair("c", 100 * MIB)];
    let groups = provider.provide_all(&data).unwrap();
    let shapes: Vec<Vec<(String, usize)>> = groups
        .iter()
        .map(|g| g.iter().map(|(k, v)| (k.clone(), v.len())).collect())
        .collect();
    assert_eq!(
        shapes,
        vec![
            vec![("a".to_string(), 600 * MIB)],
            vec![("b".to_string(), 600 * MIB), ("c".to_string(), 100 * MIB)],
        ]
    );
    for group in &groups {
        let total: usize = group.iter().map(|(_, v)| v.len()).sum();
        assert!(total < 1024 * MIB);
    }
}

#[test]
fn groups_concatenate_back_to_the_input() {
    let mut provider = create_state_provider("c1".to_string());
    let data: Vec<(String, Vec<u8>)> =
        (0..7).map(|i| (format!("k{i}"), vec![i as u8; (i as usize + 1) * 3])).collect();
    let groups = provider.provide_all(&data).unwrap();
    let rejoined: Vec<(String, Vec<u8>)> = groups.into_iter().flatten().collect();
    assert_eq!(rejoined, data);
}
