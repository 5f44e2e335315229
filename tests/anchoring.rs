use hash_anchor::processor::{
    anchor, process_invocation, AnchorError, AnchorLog, AnchorRequest, Invocation,
};
use hash_anchor::record::{record_line, render_bytes};

fn anchored(payload: &[u8]) -> (Result<(), AnchorError>, AnchorLog) {
    let mut log = AnchorLog::new();
    let request = AnchorRequest { payload: payload.to_vec() };
    let outcome = anchor(&request, &mut log);
    (outcome, log)
}

#[test]
fn anchors_four_byte_hash() {
    let (outcome, log) = anchored(&[0xDE, 0xAD, 0xBE, 0xEF]);
    assert_eq!(outcome, Ok(()));
    assert_eq!(log.len(), 1);
    assert_eq!(log.record(0).as_str(), "Record anchored: [222, 173, 190, 239]");
}

#[test]
fn anchors_empty_payload() {
    let (outcome, log) = anchored(&[]);
    assert_eq!(outcome, Ok(()));
    assert_eq!(log.len(), 1);
    assert_eq!(log.record(0).as_str(), "Record anchored: []");
}

#[test]
fn rejected_invocation_logs_nothing() {
    let mut log = AnchorLog::new();
    let outcome = process_invocation(&Invocation::Rejected, &mut log);
    assert_eq!(outcome, Err(AnchorError::InvocationRejected));
    assert!(log.is_empty());
    assert_eq!(log.len(), 0);
}

#[test]
fn rejected_invocation_keeps_earlier_records() {
    let mut log = AnchorLog::new();
    let first = Invocation::Delivered(AnchorRequest { payload: vec![1, 2] });
    assert_eq!(process_invocation(&first, &mut log), Ok(()));
    let outcome = process_invocation(&Invocation::Rejected, &mut log);
    assert_eq!(outcome, Err(AnchorError::InvocationRejected));
    assert_eq!(log.len(), 1);
    assert_eq!(log.record(0).as_str(), "Record anchored: [1, 2]");
}

#[test]
fn delivered_invocation_is_anchored() {
    let mut log = AnchorLog::new();
    let invocation = Invocation::Delivered(AnchorRequest { payload: vec![7] });
    assert_eq!(process_invocation(&invocation, &mut log), Ok(()));
    assert_eq!(log.len(), 1);
    assert_eq!(log.record(0).as_str(), "Record anchored: [7]");
}

#[test]
fn largest_packet_payload_is_logged_verbatim() {
    // A transaction packet carries at most this many bytes, so no
    // instruction's data can be larger.
    let packet_data_size: usize = 1232;
    let payload: Vec<u8> = (0..packet_data_size).map(|i| (i % 256) as u8).collect();
    let (outcome, log) = anchored(&payload);
    assert_eq!(outcome, Ok(()));
    assert_eq!(log.len(), 1);
    let expected = format!("Record anchored: {:?}", payload.as_slice());
    assert_eq!(log.record(0).as_str(), expected.as_str());
    assert!(log.record(0).ends_with("253, 254, 255, 0, 1, 2, 3, 4, 5, 6, 7, 8, 9, 10, 11, 12, 13, 14, 15, 16, 17, 18, 19, 20, 21, 22, 23, 24, 25, 26, 27, 28, 29, 30, 31, 32, 33, 34, 35, 36, 37, 38, 39, 40, 41, 42, 43, 44, 45, 46, 47, 48, 49, 50, 51, 52, 53, 54, 55, 56, 57, 58, 59, 60, 61, 62, 63, 64, 65, 66, 67, 68, 69, 70, 71, 72, 73, 74, 75, 76, 77, 78, 79, 80, 81, 82, 83, 84, 85, 86, 87, 88, 89, 90, 91, 92, 93, 94, 95, 96, 97, 98, 99, 100, 101, 102, 103, 104, 105, 106, 107, 108, 109, 110, 111, 112, 113, 114, 115, 116, 117, 118, 119, 120, 121, 122, 123, 124, 125, 126, 127, 128, 129, 130, 131, 132, 133, 134, 135, 136, 137, 138, 139, 140, 141, 142, 143, 144, 145, 146, 147, 148, 149, 150, 151, 152, 153, 154, 155, 156, 157, 158, 159, 160, 161, 162, 163, 164, 165, 166, 167, 168, 169, 170, 171, 172, 173, 174, 175, 176, 177, 178, 179, 180, 181, 182, 183, 184, 185, 186, 187, 188, 189, 190, 191, 192, 193, 194, 195, 196, 197, 198, 199, 200, 201, 202, 203, 204, 205, 206, 207]"));
}

#[test]
fn repeated_anchor_gives_identical_records() {
    let mut log = AnchorLog::new();
    let request = AnchorRequest { payload: vec![0xAB, 0x00, 0x10] };
    assert_eq!(anchor(&request, &mut log), Ok(()));
    assert_eq!(anchor(&request, &mut log), Ok(()));
    assert_eq!(log.len(), 2);
    assert_eq!(log.record(0), log.record(1));
    assert_eq!(log.record(1).as_str(), "Record anchored: [171, 0, 16]");
}

#[test]
fn anchor_only_appends() {
    let mut log = AnchorLog::new();
    let first = AnchorRequest { payload: vec![5] };
    let second = AnchorRequest { payload: vec![6, 60] };
    assert_eq!(anchor(&first, &mut log), Ok(()));
    assert_eq!(anchor(&second, &mut log), Ok(()));
    assert_eq!(log.len(), 2);
    assert_eq!(log.record(0).as_str(), "Record anchored: [5]");
    assert_eq!(log.record(1).as_str(), "Record anchored: [6, 60]");
    assert_eq!(first.payload, vec![5]);
    assert_eq!(second.payload, vec![6, 60]);
}

#[test]
fn new_log_is_empty() {
    let log = AnchorLog::new();
    assert!(log.is_empty());
    assert_eq!(log.len(), 0);
}

#[test]
fn renders_digit_boundaries() {
    assert_eq!(render_bytes(&[0]).as_str(), "[0]");
    assert_eq!(render_bytes(&[9, 10]).as_str(), "[9, 10]");
    assert_eq!(render_bytes(&[99, 100]).as_str(), "[99, 100]");
    assert_eq!(render_bytes(&[255]).as_str(), "[255]");
    assert_eq!(render_bytes(&[]).as_str(), "[]");
}

#[test]
fn rendering_matches_debug_format() {
    let payloads: Vec<Vec<u8>> = vec![
        vec![],
        vec![0],
        vec![1, 20, 200],
        (0..=255).collect(),
        vec![0xDE, 0xAD, 0xBE, 0xEF],
    ];
    for p in payloads.iter() {
        let expected = format!("{:?}", p.as_slice());
        assert_eq!(render_bytes(p).as_str(), expected.as_str());
        let line = format!("Record anchored: {:?}", p.as_slice());
        assert_eq!(record_line(p).as_str(), line.as_str());
    }
}

#[test]
fn distinct_payloads_give_distinct_records() {
    let pairs: Vec<(Vec<u8>, Vec<u8>)> = vec![
        (vec![1, 2], vec![12]),
        (vec![], vec![0]),
        (vec![1, 1], vec![11]),
        (vec![100], vec![10, 0]),
    ];
    for (p, q) in pairs.iter() {
        assert_ne!(record_line(p), record_line(q));
    }
}
