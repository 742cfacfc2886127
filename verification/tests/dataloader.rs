use decthings_model::dataloader::{create_data_loader, create_weights_loader, DataLoaderManager};

#[test]
fn loader_reports_its_shape() {
    let loader = create_data_loader("d1".to_string(), 10, 400);
    assert_eq!(loader.size(), 10);
    assert_eq!(loader.position(), 0);
    assert_eq!(loader.remaining(), 10);
    assert_eq!(loader.total_byte_size(), 400);
    assert!(loader.has_next(10));
    assert!(!loader.has_next(11));
}

#[test]
fn set_position_rejects_positions_at_or_past_the_size() {
    let mut loader = create_data_loader("d1".to_string(), 5, 100);
    assert!(loader.set_position(4).is_ok());
    assert_eq!(loader.position(), 4);
    assert!(loader.set_position(5).is_err());
    assert_eq!(loader.position(), 4);
    assert!(loader.set_position(6).is_err());
    assert_eq!(loader.position(), 4);
}

#[test]
fn next_request_clamps_and_advances() {
    let mut loader = create_data_loader("d1".to_string(), 5, 100);
    assert_eq!(loader.next_request(2), Some((0, 2)));
    assert_eq!(loader.position(), 2);
    assert_eq!(loader.next_request(10), Some((2, 3)));
    assert_eq!(loader.position(), 5);
    assert_eq!(loader.remaining(), 0);
    assert_eq!(loader.next_request(1), None);
    assert_eq!(loader.position(), 5);
}

#[test]
fn mixed_positioning_stays_within_bounds() {
    let mut loader = create_data_loader("d1".to_string(), 8, 100);
    let mut returned: u64 = 0;
    if let Some((_, n)) = loader.next_request(3) {
        returned += n as u64;
    }
    loader.set_position(1).unwrap();
    if let Some((start, n)) = loader.next_request(100) {
        assert_eq!(start, 1);
        returned += n as u64;
    }
    assert_eq!(returned, 3 + 7);
    assert!(loader.position() <= loader.size());
}

#[test]
fn weights_loader_reads_one_segment_from_the_start() {
    let mut loader = create_weights_loader("w1".to_string(), 1234);
    assert_eq!(loader.size(), 1);
    assert_eq!(loader.total_byte_size(), 1234);
    assert_eq!(loader.read_request(), (0, 1));
    assert_eq!(loader.position(), 1);
    assert_eq!(loader.read_request(), (0, 1));
}

#[test]
fn shuffle_lists_this_dataset_first() {
    let a = create_data_loader("d1".to_string(), 3, 30);
    let b = create_data_loader("d2".to_string(), 3, 30);
    let c = create_data_loader("d3".to_string(), 3, 30);
    let event = a.shuffle_group_event(&[&b, &c]);
    match event {
        decthings_model::messages::DataEvent::Shuffle { datasets } => {
            assert_eq!(datasets, vec!["d1", "d2", "d3"]);
        },
        _ => panic!("expected a shuffle event"),
    }
    let alone = b.shuffle_group_event(&[]);
    match alone {
        decthings_model::messages::DataEvent::Shuffle { datasets } => {
            assert_eq!(datasets, vec!["d2"]);
        },
        _ => panic!("expected a shuffle event"),
    }
}

#[test]
fn manager_allocates_monotonic_ids_and_fires_each_reply_once() {
    let mut manager: DataLoaderManager<&str> = DataLoaderManager::new();
    let a = manager.alloc_request("first");
    let b = manager.alloc_request("second");
    assert_eq!(a, 0);
    assert_eq!(b, 1);
    assert_eq!(manager.provide_data(1), Some("second"));
    assert_eq!(manager.provide_data(1), None);
    assert_eq!(manager.provide_data(99), None);
    assert_eq!(manager.provide_data(0), Some("first"));
    let c = manager.alloc_request("third");
    assert_eq!(c, 2);
}
