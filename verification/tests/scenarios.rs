use drawer_core::world::{World, Frame, RightRow, CanvasRow};
use drawer_core::rights::Right;
use drawer_core::hub::Hub;

fn world_with(rights: &[(&str, &str, Right)], canvases: &[(&str, bool)]) -> World {
    let mut rrows: Vec<RightRow> = Vec::new();
    for (user, canvas, right) in rights {
        rrows.push(RightRow {
            user_id: String::from(*user),
            canvas_id: String::from(*canvas),
            right: *right,
        });
    }
    let mut crows: Vec<CanvasRow> = Vec::new();
    for (canvas, moderated) in canvases {
        crows.push(CanvasRow { canvas_id: String::from(*canvas), moderated: *moderated });
    }
    World::new(rrows, crows)
}

fn event_texts(w: &World, idx: usize) -> Vec<String> {
    let mut out = Vec::new();
    for f in &w.clients[idx].outbox {
        if let Frame::Event(s) = f {
            out.push(s.clone());
        }
    }
    out
}

fn client_index(w: &World, id: u64) -> usize {
    w.clients.iter().position(|c| c.conn_id == id).unwrap()
}

const HELLO: &str = "{\"type\":\"hello\",\"canvas_id\":\"cX\",\"timestamp\":0,\"payload\":null}";
const REGISTER: &str = "{\"type\":\"register\",\"canvas_id\":\"cX\",\"timestamp\":0,\"payload\":true}";
const STROKE: &str = "{\"type\":\"stroke\",\"canvas_id\":\"cX\",\"timestamp\":1,\"payload\":{\"x\":1}}";
const STROKE_CANON: &str = "{\"canvas_id\":\"cX\",\"payload\":{\"x\":1},\"timestamp\":1,\"type\":\"stroke\"}";

#[test]
fn history_replay() {
    let mut w = world_with(&[("uA", "cX", Right::V)], &[("cX", false)]);
    w.store.append(String::from("cX"), String::from("E1"));
    w.store.append(String::from("cX"), String::from("E2"));
    w.store.append(String::from("cX"), String::from("E3"));
    w.store.append(String::from("cOther"), String::from("ZZ"));
    let id = w.connect("uA", REGISTER).unwrap();
    let k = client_index(&w, id);
    assert!(w.clients[k].open);
    assert_eq!(w.clients[k].outbox.len(), 1);
    match &w.clients[k].outbox[0] {
        Frame::History(s) => assert_eq!(s, "[\"E1\",\"E2\",\"E3\"]"),
        _ => panic!("expected a history frame"),
    }
}

#[test]
fn fan_out_excludes_sender() {
    let mut w = world_with(&[("uA", "cX", Right::W), ("uB", "cX", Right::W)], &[("cX", false)]);
    let a = w.connect("uA", HELLO).unwrap();
    let b = w.connect("uB", HELLO).unwrap();
    w.client_message(a, STROKE);
    let ka = client_index(&w, a);
    let kb = client_index(&w, b);
    assert_eq!(event_texts(&w, kb), vec![STROKE_CANON.to_string()]);
    assert!(event_texts(&w, ka).is_empty());
    assert!(w.clients[ka].outbox.is_empty());
    assert_eq!(w.store.rows.len(), 1);
    assert_eq!(w.store.rows[0].canvas_id, "cX");
    assert_eq!(w.store.rows[0].blob, STROKE_CANON);
}

#[test]
fn moderation_drops_writer_events() {
    let mut w = world_with(&[("uA", "cX", Right::W), ("uB", "cX", Right::V)], &[("cX", true)]);
    let a = w.connect("uA", HELLO).unwrap();
    let b = w.connect("uB", HELLO).unwrap();
    w.client_message(a, STROKE);
    assert!(event_texts(&w, client_index(&w, b)).is_empty());
    assert!(w.store.rows.is_empty());
}

#[test]
fn verified_writer_bypasses_moderation() {
    let mut w = world_with(&[("uA", "cX", Right::V), ("uB", "cX", Right::V)], &[("cX", true)]);
    let a = w.connect("uA", HELLO).unwrap();
    let b = w.connect("uB", HELLO).unwrap();
    w.client_message(a, STROKE);
    assert_eq!(event_texts(&w, client_index(&w, b)), vec![STROKE_CANON.to_string()]);
    assert_eq!(w.store.rows.len(), 1);
}

#[test]
fn readers_never_write() {
    let mut w = world_with(&[("uA", "cX", Right::R), ("uB", "cX", Right::V)], &[("cX", false)]);
    let a = w.connect("uA", HELLO).unwrap();
    let b = w.connect("uB", HELLO).unwrap();
    w.client_message(a, STROKE);
    assert!(event_texts(&w, client_index(&w, b)).is_empty());
    assert!(w.store.rows.is_empty());
}

#[test]
fn live_right_revocation() {
    let mut w = world_with(&[("uA", "cX", Right::W)], &[("cX", false)]);
    let a = w.connect("uA", HELLO).unwrap();
    let ev = w.set_right("cX", "uA", None);
    w.apply_bus(&ev);
    let ka = client_index(&w, a);
    assert!(!w.clients[ka].open);
    assert_eq!(w.clients[ka].outbox.len(), 1);
    match &w.clients[ka].outbox[0] {
        Frame::Notice(s) => assert_eq!(
            s,
            "{\"canvas_id\":\"cX\",\"payload\":{\"right\":null},\"timestamp\":0,\"type\":\"rights_changed\"}"
        ),
        _ => panic!("expected a notice frame"),
    }
    // the closed connection submits: nothing is persisted any more
    w.client_message(a, STROKE);
    assert!(w.store.rows.is_empty());
    // and the rights table no longer holds the pair
    assert!(w.lookup_right("cX", "uA").is_none());
}

#[test]
fn right_upgrade_is_announced_and_adopted() {
    let mut w = world_with(&[("uA", "cX", Right::W), ("uB", "cX", Right::V)], &[("cX", true)]);
    let a = w.connect("uA", HELLO).unwrap();
    let b = w.connect("uB", HELLO).unwrap();
    w.client_message(a, STROKE);
    assert!(w.store.rows.is_empty());
    let ev = w.set_right("cX", "uA", Some(Right::V));
    w.apply_bus(&ev);
    let ka = client_index(&w, a);
    match &w.clients[ka].outbox[0] {
        Frame::Notice(s) => assert_eq!(
            s,
            "{\"canvas_id\":\"cX\",\"payload\":{\"right\":\"V\"},\"timestamp\":0,\"type\":\"rights_changed\"}"
        ),
        _ => panic!("expected a notice frame"),
    }
    w.client_message(a, STROKE);
    assert_eq!(w.store.rows.len(), 1);
    assert_eq!(event_texts(&w, client_index(&w, b)), vec![STROKE_CANON.to_string()]);
}

#[test]
fn moderation_toggle_propagates() {
    let mut w = world_with(&[("uA", "cX", Right::W), ("uB", "cX", Right::V)], &[("cX", false)]);
    let a = w.connect("uA", HELLO).unwrap();
    let b = w.connect("uB", HELLO).unwrap();
    w.client_message(a, STROKE);
    assert_eq!(event_texts(&w, client_index(&w, b)).len(), 1);
    let ev = w.set_moderated("cX", true);
    w.apply_bus(&ev);
    let notice =
        "{\"canvas_id\":\"cX\",\"payload\":{\"moderated\":true},\"timestamp\":0,\"type\":\"rights_changed\"}";
    for id in [a, b] {
        let k = client_index(&w, id);
        match w.clients[k].outbox.last().unwrap() {
            Frame::Notice(s) => assert_eq!(s, notice),
            _ => panic!("expected a notice frame"),
        }
    }
    // A is now gated; B still flows
    w.client_message(a, STROKE);
    assert_eq!(w.store.rows.len(), 1);
    assert_eq!(event_texts(&w, client_index(&w, b)).len(), 1);
    w.client_message(b, STROKE);
    assert_eq!(w.store.rows.len(), 2);
    assert_eq!(event_texts(&w, client_index(&w, a)).len(), 1);
}

#[test]
fn single_client_persists_without_receivers() {
    let mut w = world_with(&[("uA", "cX", Right::V)], &[("cX", false)]);
    let a = w.connect("uA", HELLO).unwrap();
    w.client_message(a, STROKE);
    assert_eq!(w.store.rows.len(), 1);
    let ka = client_index(&w, a);
    assert!(w.clients[ka].outbox.is_empty());
    // a later joiner replays everything persisted so far
    let b_rights = w.set_right("cX", "uB", Some(Right::R));
    w.apply_bus(&b_rights);
    let b = w.connect("uB", REGISTER).unwrap();
    let kb = client_index(&w, b);
    match &w.clients[kb].outbox[0] {
        Frame::History(s) => {
            assert_eq!(s, &format!("[{}]", serde_json::to_string(STROKE_CANON).unwrap()))
        },
        _ => panic!("expected a history frame"),
    }
}

#[test]
fn newline_separated_events_in_order() {
    let mut w = world_with(&[("uA", "cX", Right::V), ("uB", "cX", Right::V)], &[("cX", false)]);
    let a = w.connect("uA", HELLO).unwrap();
    let b = w.connect("uB", HELLO).unwrap();
    let e1 = "{\"type\":\"stroke\",\"canvas_id\":\"cX\",\"timestamp\":1,\"payload\":1}";
    let e2 = "{\"type\":\"stroke\",\"canvas_id\":\"cX\",\"timestamp\":2,\"payload\":2}";
    let msg = format!("{}\n{}\n", e1, e2);
    w.client_message(a, &msg);
    assert_eq!(w.store.rows.len(), 2);
    let c1 = "{\"canvas_id\":\"cX\",\"payload\":1,\"timestamp\":1,\"type\":\"stroke\"}";
    let c2 = "{\"canvas_id\":\"cX\",\"payload\":2,\"timestamp\":2,\"type\":\"stroke\"}";
    assert_eq!(w.store.rows[0].blob, c1);
    assert_eq!(w.store.rows[1].blob, c2);
    assert_eq!(event_texts(&w, client_index(&w, b)), vec![c1.to_string(), c2.to_string()]);
}

#[test]
fn malformed_piece_closes_connection() {
    let mut w = world_with(&[("uA", "cX", Right::V)], &[("cX", false)]);
    let a = w.connect("uA", HELLO).unwrap();
    w.client_message(a, "{\"type\":\"stroke\",\"canvas_id\":\"cX\",\"timestamp\":1,\"payload\":1}\nnot json");
    let ka = client_index(&w, a);
    assert!(!w.clients[ka].open);
    // the well-formed prefix was still persisted, in order
    assert_eq!(w.store.rows.len(), 1);
    w.client_message(a, STROKE);
    assert_eq!(w.store.rows.len(), 1);
}

#[test]
fn no_right_gets_error_frame() {
    let mut w = world_with(&[], &[("cX", false)]);
    let a = w.connect("uA", HELLO).unwrap();
    let ka = client_index(&w, a);
    assert!(!w.clients[ka].open);
    assert_eq!(w.clients[ka].outbox.len(), 1);
    match &w.clients[ka].outbox[0] {
        Frame::Error(s) => {
            assert_eq!(s, "{\"error\": \"You do not have access to this canvas.\"}")
        },
        _ => panic!("expected an error frame"),
    }
    assert!(w.connect("uA", "junk").is_none());
}

#[test]
fn manage_init_is_one_shot() {
    let mut w = world_with(&[("uA", "cX", Right::M), ("uB", "cX", Right::V)], &[("cX", false)]);
    let b = w.connect("uB", HELLO).unwrap();
    let manage = "{\"type\":\"manage\",\"canvas_id\":\"cX\",\"timestamp\":0,\"payload\":{\"op\":\"clear\"}}";
    let a = w.connect("uA", manage).unwrap();
    let ka = client_index(&w, a);
    assert!(!w.clients[ka].open);
    let kb = client_index(&w, b);
    assert_eq!(w.clients[kb].outbox.len(), 1);
    match &w.clients[kb].outbox[0] {
        Frame::Manage(s) => assert_eq!(
            s,
            "{\"canvas_id\":\"cX\",\"payload\":{\"op\":\"clear\"},\"timestamp\":0,\"type\":\"manage\"}"
        ),
        _ => panic!("expected a manage frame"),
    }
    // a plain writer's manage init is no shortcut
    let c_rights = w.set_right("cX", "uC", Some(Right::W));
    w.apply_bus(&c_rights);
    let c = w.connect("uC", manage).unwrap();
    let kc = client_index(&w, c);
    assert!(w.clients[kc].open);
}

#[test]
fn failed_sink_is_skipped_and_buffer_processed() {
    let mut w = world_with(
        &[("uA", "cX", Right::V), ("uB", "cX", Right::V), ("uC", "cX", Right::V)],
        &[("cX", false)],
    );
    let a = w.connect("uA", HELLO).unwrap();
    let b = w.connect("uB", HELLO).unwrap();
    let c = w.connect("uC", HELLO).unwrap();
    w.fail_sink(b);
    w.client_message(a, STROKE);
    assert!(event_texts(&w, client_index(&w, b)).is_empty());
    assert_eq!(event_texts(&w, client_index(&w, c)).len(), 1);
}

#[test]
fn prebuffered_lines_follow_the_init() {
    let mut w = world_with(&[("uA", "cX", Right::V), ("uB", "cX", Right::V)], &[("cX", false)]);
    let b = w.connect("uB", HELLO).unwrap();
    let first_message = format!("{}\n{}", HELLO, STROKE);
    let lines = drawer_core::text::split_lines(&first_message);
    let a = w.connect("uA", lines[0].as_str()).unwrap();
    w.process_lines(a, &lines, 1);
    assert_eq!(w.store.rows.len(), 1);
    assert_eq!(event_texts(&w, client_index(&w, b)), vec![STROKE_CANON.to_string()]);
    assert!(event_texts(&w, client_index(&w, a)).is_empty());
}

#[test]
fn single_event_submission() {
    let mut w = world_with(&[("uA", "cX", Right::V), ("uB", "cX", Right::V)], &[("cX", false)]);
    let a = w.connect("uA", HELLO).unwrap();
    let b = w.connect("uB", HELLO).unwrap();
    let e = drawer_core::event::decode_event(STROKE).unwrap();
    w.submit_event(a, &e);
    assert_eq!(w.store.rows.len(), 1);
    assert_eq!(event_texts(&w, client_index(&w, b)), vec![STROKE_CANON.to_string()]);
    assert!(event_texts(&w, client_index(&w, a)).is_empty());
    // an unknown connection submits into the void
    w.submit_event(999, &e);
    assert_eq!(w.store.rows.len(), 1);
}

#[test]
fn hub_assigns_ids_and_selects_peers() {
    let mut h = Hub::new();
    let a = h.register(String::from("c1"));
    let b = h.register(String::from("c1"));
    let c = h.register(String::from("c2"));
    assert_eq!((a, b, c), (0, 1, 2));
    assert_eq!(h.peers(a), vec![b]);
    assert_eq!(h.peers(b), vec![a]);
    assert!(h.peers(c).is_empty());
    assert!(h.peers(99).is_empty());
}

#[test]
fn hub_evicts_failed_sinks() {
    let mut h = Hub::new();
    let a = h.register(String::from("c1"));
    let b = h.register(String::from("c1"));
    let c = h.register(String::from("c1"));
    h.evict_failed(&vec![b]);
    assert_eq!(h.peers(a), vec![c]);
    // ids are never reused after an eviction
    let d = h.register(String::from("c1"));
    assert_eq!(d, 3);
    assert_eq!(h.peers(a), vec![c, d]);
}
