use rosm_pbf_reader::dense::DenseNode;
use rosm_pbf_reader::dense::DenseNodeReader;
use rosm_pbf_reader::pbf;
use rosm_pbf_reader::Error;
use rosm_pbf_reader::LogicFault;

#[test]
fn dense_valid_input() {
    let dense_info = pbf::DenseInfo {
        user_sid: vec![i32::MAX, 1],
        version: vec![2, 4],
        timestamp: vec![2, 1],
        changeset: vec![2, -1],
        uid: vec![5, -1],
        visible: vec![true, false],
    };

    let dense_nodes = pbf::DenseNodes {
        id: vec![2, -1],
        denseinfo: Some(dense_info),
        lat: vec![-3, 1],
        lon: vec![3, -1],
        keys_vals: vec![1, 2, 0, 3, 4, 0],
    };

    let mut reader =
        DenseNodeReader::new(&dense_nodes).expect("dense node reader should be created on valid data");
    let mut result: Vec<DenseNode> = Vec::new();
    while let Some(node) = reader.next() {
        if let Ok(node) = node {
            result.push(node);
        }
    }

    assert_eq!(result.len(), 2);
    let first = &mut result[0];
    assert_eq!(first.id, 2);
    assert_eq!(first.lat, -3);
    assert_eq!(first.lon, 3);
    assert_eq!(first.key_value_indices, [1, 2]);
    let first_info = first.info.as_ref().unwrap();
    assert_eq!(first_info.uid, Some(5));
    assert_eq!(first_info.timestamp, Some(2));
    assert_eq!(first_info.version, Some(2));
    assert_eq!(first_info.changeset, Some(2));
    assert_eq!(first_info.visible, Some(true));
    assert_eq!(first_info.user_sid, Some(i32::MAX as u32));

    let second = &mut result[1];
    assert_eq!(second.id, 1);
    assert_eq!(second.lat, -2);
    assert_eq!(second.lon, 2);
    assert_eq!(second.key_value_indices, [3, 4]);
    let second_info = second.info.as_ref().unwrap();
    assert_eq!(second_info.uid, Some(4));
    assert_eq!(second_info.timestamp, Some(3));
    assert_eq!(second_info.version, Some(4));
    assert_eq!(second_info.changeset, Some(1));
    assert_eq!(second_info.visible, Some(false));
    assert_eq!(second_info.user_sid, Some(i32::MAX as u32 + 1));
}

#[test]
fn invalid_required_data_lengths() {
    let dense_nodes = |id_count: usize, lat_count: usize, lon_count: usize| pbf::DenseNodes {
        id: vec![0; id_count],
        denseinfo: None,
        lat: vec![0; lat_count],
        lon: vec![0; lon_count],
        keys_vals: vec![],
    };

    assert!(DenseNodeReader::new(&dense_nodes(0, 0, 0)).is_ok());
    assert!(DenseNodeReader::new(&dense_nodes(1, 0, 0)).is_err());
    assert!(DenseNodeReader::new(&dense_nodes(0, 1, 0)).is_err());
    assert!(DenseNodeReader::new(&dense_nodes(0, 0, 1)).is_err());
}

#[test]
fn invalid_user_sid() {
    let dense_info = pbf::DenseInfo {
        user_sid: vec![0, -1],
        ..Default::default()
    };

    let dense_nodes = pbf::DenseNodes {
        id: vec![0, 0],
        denseinfo: Some(dense_info),
        lat: vec![0, 0],
        lon: vec![0, 0],
        keys_vals: vec![],
    };

    let mut reader =
        DenseNodeReader::new(&dense_nodes).expect("dense node reader should be created on valid data");

    let next = reader.next();
    assert!(next.is_some());
    let next = reader.next();
    assert!(next.is_some());
    assert!(next.unwrap().is_err());
}

#[test]
fn dense_decode_example() {
    let dense_nodes = pbf::DenseNodes {
        id: vec![2, -1],
        denseinfo: None,
        lat: vec![-3, 1],
        lon: vec![3, -1],
        keys_vals: vec![1, 2, 0, 3, 4, 0],
    };

    let mut reader = DenseNodeReader::new(&dense_nodes).unwrap();

    let node0 = reader.next().unwrap().unwrap();
    assert_eq!(node0.id, 2);
    assert_eq!(node0.lat, -3);
    assert_eq!(node0.lon, 3);
    assert_eq!(node0.key_value_indices, [1, 2]);
    assert!(node0.info.is_none());

    let node1 = reader.next().unwrap().unwrap();
    assert_eq!(node1.id, 1);
    assert_eq!(node1.lat, -2);
    assert_eq!(node1.lon, 2);
    assert_eq!(node1.key_value_indices, [3, 4]);

    assert!(reader.next().is_none());
}

#[test]
fn length_mismatch_names_all_three_lengths() {
    let dense_nodes = pbf::DenseNodes {
        id: vec![0, 0],
        denseinfo: None,
        lat: vec![0],
        lon: vec![0, 0, 0],
        keys_vals: vec![],
    };

    match DenseNodeReader::new(&dense_nodes) {
        Err(Error::LogicError(LogicFault::LengthMismatch { id_count, lat_count, lon_count })) => {
            assert_eq!(id_count, 2);
            assert_eq!(lat_count, 1);
            assert_eq!(lon_count, 3);
        }
        _ => panic!("a length mismatch must fail construction with the three lengths"),
    }
}

#[test]
fn user_sid_error_reports_current_and_delta() {
    let dense_info = pbf::DenseInfo {
        user_sid: vec![7, -8],
        ..Default::default()
    };

    let dense_nodes = pbf::DenseNodes {
        id: vec![0, 0],
        denseinfo: Some(dense_info),
        lat: vec![0, 0],
        lon: vec![0, 0],
        keys_vals: vec![],
    };

    let mut reader = DenseNodeReader::new(&dense_nodes).unwrap();
    let first = reader.next().unwrap().unwrap();
    assert_eq!(first.info.as_ref().unwrap().user_sid, Some(7));
    match reader.next().unwrap() {
        Err(Error::LogicError(LogicFault::UserSidOutOfRange { current, delta })) => {
            assert_eq!(current, 7);
            assert_eq!(delta, -8);
        }
        _ => panic!("a negative user_sid accumulation must fail that node"),
    }
}

#[test]
fn tagless_nodes_consume_one_terminator_each() {
    let dense_nodes = pbf::DenseNodes {
        id: vec![1, 1, 1],
        denseinfo: None,
        lat: vec![0, 0, 0],
        lon: vec![0, 0, 0],
        keys_vals: vec![0, 5, 6, 0, 0],
    };

    let mut reader = DenseNodeReader::new(&dense_nodes).unwrap();
    let node0 = reader.next().unwrap().unwrap();
    assert_eq!(node0.key_value_indices, [] as [i32; 0]);
    let node1 = reader.next().unwrap().unwrap();
    assert_eq!(node1.key_value_indices, [5, 6]);
    let node2 = reader.next().unwrap().unwrap();
    assert_eq!(node2.key_value_indices, [] as [i32; 0]);
    assert!(reader.next().is_none());
}
