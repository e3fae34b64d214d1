use drawer_core::event::{decode_event, encode_event, history_frame, access_denied_frame, CanvasEvent};

#[test]
fn decode_extracts_fields() {
    let e = decode_event("{\"type\":\"stroke\",\"canvas_id\":\"c1\",\"timestamp\":5,\"payload\":{\"x\":1}}")
        .unwrap();
    assert_eq!(e.event_type, "stroke");
    assert_eq!(e.canvas_id, "c1");
    assert_eq!(e.timestamp, 5);
    assert_eq!(e.payload, "{\"x\":1}");
}

#[test]
fn decode_rejects_missing_fields() {
    assert!(decode_event("{\"type\":\"stroke\",\"canvas_id\":\"c1\"}").is_none());
    assert!(decode_event("{\"canvas_id\":\"c1\",\"timestamp\":5,\"payload\":null}").is_none());
    assert!(decode_event("not json").is_none());
    assert!(decode_event("").is_none());
    assert!(decode_event("{\"type\":7,\"canvas_id\":\"c1\",\"timestamp\":5,\"payload\":null}").is_none());
    assert!(decode_event("{\"type\":\"t\",\"canvas_id\":\"c\",\"timestamp\":-4,\"payload\":null}").is_none());
}

#[test]
fn round_trip_nested_payload() {
    let wire = "{\"type\":\"stroke\",\"canvas_id\":\"c1\",\"timestamp\":9,\"payload\":{\"a\":{\"b\":[1,2]},\"c\":\"x\"}}";
    let e = decode_event(wire).unwrap();
    let sent = encode_event(&e);
    let back = decode_event(&sent).unwrap();
    assert_eq!(back.event_type, e.event_type);
    assert_eq!(back.canvas_id, e.canvas_id);
    assert_eq!(back.timestamp, e.timestamp);
    assert_eq!(back.payload, e.payload);
}

#[test]
fn encode_emits_canonical_object() {
    let e = CanvasEvent {
        event_type: String::from("stroke"),
        canvas_id: String::from("cX"),
        timestamp: 1,
        payload: String::from("{\"x\":1}"),
    };
    assert_eq!(
        encode_event(&e),
        "{\"canvas_id\":\"cX\",\"payload\":{\"x\":1},\"timestamp\":1,\"type\":\"stroke\"}"
    );
}

#[test]
fn encode_never_emits_raw_newline() {
    let e = CanvasEvent {
        event_type: String::from("a\nb"),
        canvas_id: String::from("c\n"),
        timestamp: 0,
        payload: String::from("\"p\\nq\""),
    };
    let s = encode_event(&e);
    assert!(!s.contains('\n'));
}

#[test]
fn zero_length_payload_is_valid() {
    let e = decode_event("{\"type\":\"t\",\"canvas_id\":\"c\",\"timestamp\":0,\"payload\":\"\"}")
        .unwrap();
    assert_eq!(e.payload, "\"\"");
    let back = decode_event(&encode_event(&e)).unwrap();
    assert_eq!(back.payload, "\"\"");
}

#[test]
fn history_frame_is_json_array() {
    let blobs = vec![String::from("E1"), String::from("E2"), String::from("E3")];
    assert_eq!(history_frame(&blobs), "[\"E1\",\"E2\",\"E3\"]");
    let empty: Vec<String> = Vec::new();
    assert_eq!(history_frame(&empty), "[]");
}

#[test]
fn history_frame_escapes_blobs() {
    let blobs = vec![String::from("{\"a\":1}")];
    assert_eq!(history_frame(&blobs), "[\"{\\\"a\\\":1}\"]");
}

#[test]
fn access_denied_frame_text() {
    assert_eq!(
        access_denied_frame(),
        "{\"error\": \"You do not have access to this canvas.\"}"
    );
}

#[test]
fn register_init_asks_history() {
    let e = decode_event("{\"type\":\"register\",\"canvas_id\":\"cX\",\"timestamp\":0,\"payload\":true}")
        .unwrap();
    assert!(e.asks_history());
    let f = decode_event("{\"type\":\"register\",\"canvas_id\":\"cX\",\"timestamp\":0,\"payload\":false}")
        .unwrap();
    assert!(!f.asks_history());
    let g = decode_event("{\"type\":\"hello\",\"canvas_id\":\"cX\",\"timestamp\":0,\"payload\":true}")
        .unwrap();
    assert!(!g.asks_history());
}
