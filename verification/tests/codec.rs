use deckctl::codec::{
    build_image_reports, encode_brightness, encode_image_chunk, encode_reset, CHUNK_HEADER_LEN,
    CHUNK_PAYLOAD_LEN, FEATURE_REPORT_LEN, OUTPUT_REPORT_LEN,
};

#[test]
fn reset_report_shape() {
    let r = encode_reset();
    assert_eq!(r.len(), FEATURE_REPORT_LEN);
    assert_eq!(r[0], 3);
    assert_eq!(r[1], 2);
    for i in 2..FEATURE_REPORT_LEN {
        assert_eq!(r[i], 0);
    }
}

#[test]
fn brightness_report_shape() {
    let r = encode_brightness(55);
    assert_eq!(r.len(), FEATURE_REPORT_LEN);
    assert_eq!(r[0], 3);
    assert_eq!(r[1], 8);
    assert_eq!(r[2], 55);
    for i in 3..FEATURE_REPORT_LEN {
        assert_eq!(r[i], 0);
    }
}

#[test]
fn brightness_extremes() {
    let low = encode_brightness(0);
    assert_eq!(low[2], 0);
    let high = encode_brightness(100);
    assert_eq!(high[2], 100);
}

#[test]
fn image_chunk_header_layout() {
    let payload: Vec<u8> = vec![9, 8, 7];
    let r = encode_image_chunk(4, &payload, 258, false);
    assert_eq!(r.len(), OUTPUT_REPORT_LEN);
    assert_eq!(r[0], 2);
    assert_eq!(r[1], 7);
    assert_eq!(r[2], 4);
    assert_eq!(r[3], 0);
    assert_eq!(r[4], 3); // payload length, low byte
    assert_eq!(r[5], 0); // payload length, high byte
    assert_eq!(r[6], 2); // sequence number 258, low byte
    assert_eq!(r[7], 1); // sequence number 258, high byte
    assert_eq!(&r[8..11], &[9, 8, 7]);
    for i in 11..OUTPUT_REPORT_LEN {
        assert_eq!(r[i], 0);
    }
}

#[test]
fn image_chunk_last_flag() {
    let payload: Vec<u8> = vec![1];
    let r = encode_image_chunk(0, &payload, 0, true);
    assert_eq!(r[3], 1);
}

#[test]
fn empty_image_sends_no_chunk() {
    let data: Vec<u8> = Vec::new();
    let reports = build_image_reports(3, &data);
    assert_eq!(reports.len(), 0);
}

#[test]
fn small_image_is_one_final_chunk() {
    let data: Vec<u8> = vec![10, 20, 30];
    let reports = build_image_reports(6, &data);
    assert_eq!(reports.len(), 1);
    let r = &reports[0];
    assert_eq!(r[2], 6);
    assert_eq!(r[3], 1);
    assert_eq!(r[4], 3);
    assert_eq!(r[5], 0);
    assert_eq!(r[6], 0);
    assert_eq!(r[7], 0);
    assert_eq!(&r[8..11], &[10, 20, 30]);
}

#[test]
fn full_capacity_image_is_one_chunk() {
    let data: Vec<u8> = vec![7; CHUNK_PAYLOAD_LEN];
    let reports = build_image_reports(0, &data);
    assert_eq!(reports.len(), 1);
    let r = &reports[0];
    assert_eq!(r[3], 1);
    assert_eq!(r[4], (CHUNK_PAYLOAD_LEN & 0xff) as u8);
    assert_eq!(r[5], (CHUNK_PAYLOAD_LEN >> 8) as u8);
}

#[test]
fn capacity_plus_one_splits_in_two() {
    let mut data: Vec<u8> = vec![7; CHUNK_PAYLOAD_LEN];
    data.push(42);
    let reports = build_image_reports(0, &data);
    assert_eq!(reports.len(), 2);
    assert_eq!(reports[0][3], 0);
    assert_eq!(reports[0][4], (CHUNK_PAYLOAD_LEN & 0xff) as u8);
    assert_eq!(reports[0][5], (CHUNK_PAYLOAD_LEN >> 8) as u8);
    assert_eq!(reports[0][6], 0);
    assert_eq!(reports[0][7], 0);
    assert_eq!(reports[1][3], 1);
    assert_eq!(reports[1][4], 1);
    assert_eq!(reports[1][5], 0);
    assert_eq!(reports[1][6], 1);
    assert_eq!(reports[1][7], 0);
    assert_eq!(reports[1][8], 42);
}

#[test]
fn chunk_count_is_ceiling() {
    let data: Vec<u8> = vec![1; 2 * CHUNK_PAYLOAD_LEN + 500];
    let reports = build_image_reports(0, &data);
    assert_eq!(reports.len(), 3);
}

#[test]
fn concatenated_payloads_reconstruct_image() {
    let data: Vec<u8> = (0..2500u32).map(|i| (i % 251) as u8).collect();
    let reports = build_image_reports(1, &data);
    let mut rebuilt: Vec<u8> = Vec::new();
    let mut last_flags = 0;
    for (seq, r) in reports.iter().enumerate() {
        let len = r[4] as usize + ((r[5] as usize) << 8);
        assert_eq!(r[6] as usize + ((r[7] as usize) << 8), seq);
        if r[3] == 1 {
            last_flags += 1;
            assert_eq!(seq, reports.len() - 1);
        }
        rebuilt.extend_from_slice(&r[CHUNK_HEADER_LEN..CHUNK_HEADER_LEN + len]);
    }
    assert_eq!(last_flags, 1);
    assert_eq!(rebuilt, data);
}
