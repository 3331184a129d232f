use newsletter::codec::decode_response;
use newsletter::codec::encode_response;
use newsletter::response::SavedResponse;

#[test]
fn status_only_response_has_exact_byte_layout() {
    // two status bytes, an eight-byte header count, an eight-byte body
    // length: eighteen bytes in all for an empty response
    let r = SavedResponse::with_status(200);
    let bytes = encode_response(&r);
    assert_eq!(bytes.len(), 18);
    assert_eq!(bytes[0], 200);
    assert_eq!(bytes[1], 0);
    assert!(bytes[2..18].iter().all(|b| *b == 0));
}

#[test]
fn status_above_255_uses_both_bytes() {
    let r = SavedResponse::with_status(303);
    let bytes = encode_response(&r);
    assert_eq!(bytes[0], 47);
    assert_eq!(bytes[1], 1);
}

#[test]
fn encoded_response_decodes_byte_identical() {
    let r = SavedResponse {
        status: 303,
        headers: vec![
            (b"Location".to_vec(), b"/admin/newsletters".to_vec()),
            (b"X-Empty".to_vec(), Vec::new()),
        ],
        body: b"hello body".to_vec(),
    };
    let bytes = encode_response(&r);
    let back = decode_response(bytes.as_slice()).expect("an encoding must decode");
    assert!(r.same_as(&back));
}

#[test]
fn see_other_round_trips() {
    let r = SavedResponse::see_other("/admin/newsletters");
    let bytes = encode_response(&r);
    let back = decode_response(bytes.as_slice()).unwrap();
    assert!(r.same_as(&back));
    assert_eq!(back.status, 303);
}

#[test]
fn truncated_encodings_are_rejected() {
    let r = SavedResponse {
        status: 200,
        headers: vec![(b"A".to_vec(), b"B".to_vec())],
        body: b"xyz".to_vec(),
    };
    let bytes = encode_response(&r);
    for cut in 0..bytes.len() {
        assert!(decode_response(&bytes[..cut]).is_none());
    }
}

#[test]
fn trailing_garbage_is_rejected() {
    let mut bytes = encode_response(&SavedResponse::with_status(204));
    bytes.push(0);
    assert!(decode_response(bytes.as_slice()).is_none());
}

#[test]
fn duplicate_copies_byte_for_byte() {
    let r = SavedResponse {
        status: 500,
        headers: vec![(b"K".to_vec(), b"V".to_vec())],
        body: b"payload".to_vec(),
    };
    let copy = r.duplicate();
    assert!(r.same_as(&copy));
    let different = SavedResponse::with_status(500);
    assert!(!r.same_as(&different));
}
