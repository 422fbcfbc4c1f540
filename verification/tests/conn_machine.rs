//! Tests of the connection lifecycle state machine, the tracked-state
//! aggregator, and whole connection lifecycles.

use iris::ast::{FilterResult, Pred};
use iris::compile::{compile, CompiledSubscription};
use iris::conn::{ConnInfo, LevelEvent};
use iris::eval::AtomEnv;
use iris::layout::{build_layout, fields_at_level, FieldKind, TrackedLayout};
use iris::level::Level;
use iris::registry::{FilterDecl, Registry};

fn bytes(s: &str) -> Vec<u8> {
    s.as_bytes().to_vec()
}

fn atom_id(cs: &CompiledSubscription, name: &str) -> usize {
    for (i, k) in cs.atom_table.iter().enumerate() {
        if !k.file && k.text == name.as_bytes() {
            return i;
        }
    }
    panic!("atom {} not interned", name);
}

fn continue_truth(cs: &CompiledSubscription) -> Vec<FilterResult> {
    vec![FilterResult::Continue; cs.atom_table.len()]
}

fn field_index(lay: &TrackedLayout, name: &str) -> usize {
    for (i, f) in lay.fields.iter().enumerate() {
        if f.name == name.as_bytes() {
            return i;
        }
    }
    panic!("field {} not in layout", name);
}

/// A subscription with the `tls` protocol, a stateful filter
/// `ShortConnLen` counting payload packets and deciding at
/// `L4Terminated`, a gate `tls and ShortConnLen,level=L4Terminated`,
/// and a one-shot callback with the same predicate.
fn short_conn_setup() -> (CompiledSubscription, TrackedLayout) {
    let mut reg = Registry::new();
    reg.push_protocol(bytes("tls"), Level::L7OnDisc);
    reg.push_filter(FilterDecl {
        name: bytes("ShortConnLen"),
        tree: Pred::Atom(bytes("ShortConnLen")),
        level: Level::L4Terminated,
    });
    reg.push_filter_fn_hook(bytes("ShortConnLen"), Level::L4InPayload);
    reg.push_filter_expr(bytes("short_gate"), b"tls and ShortConnLen,level=L4Terminated")
        .unwrap();
    reg.push_callback_expr(
        bytes("tls_cb"),
        b"tls and ShortConnLen,level=L4Terminated",
        false,
        Vec::new(),
    )
    .unwrap();
    let cs = compile(&reg).unwrap();
    let lay = build_layout(&reg, &cs);
    (cs, lay)
}

fn drive_short_conn(n_payload: u64) -> (ConnInfo, Vec<usize>) {
    let (cs, lay) = short_conn_setup();
    let enabled = vec![bytes("tls")];

    // admission: no gates at L4FirstPacket
    let mut env = AtomEnv::new(continue_truth(&cs));
    let (mut conn, acts) = ConnInfo::admit_first_packet(&cs, &lay, &enabled, 0, &mut env)
        .expect("flow admitted");
    assert!(acts.is_empty());

    // payload packets: the ShortConnLen hook at L4InPayload counts them
    for _ in 0..n_payload {
        let mut env = AtomEnv::new(continue_truth(&cs));
        let acts = conn.process_event(&cs, &lay, LevelEvent::PayloadPacket, &mut env);
        assert!(acts.is_empty());
        assert!(!conn.ended);
    }
    let scl_field = field_index(&lay, "ShortConnLen");
    let len = conn.record.as_ref().unwrap().fields[scl_field].updates;
    assert_eq!(len, n_payload);

    // protocol discovery
    let mut env = AtomEnv::new(continue_truth(&cs));
    conn.process_event(&cs, &lay, LevelEvent::ProtocolDiscovered, &mut env);

    // termination: the ShortConnLen evaluator answers from its count
    let mut truth = continue_truth(&cs);
    truth[atom_id(&cs, "tls")] = FilterResult::Accept;
    truth[atom_id(&cs, "ShortConnLen")] = if len <= 10 {
        FilterResult::Accept
    } else {
        FilterResult::Drop
    };
    let mut env = AtomEnv::new(truth);
    let acts = conn.process_event(&cs, &lay, LevelEvent::ConnClosed, &mut env);
    (conn, acts)
}

#[test]
fn long_connection_dropped_at_termination() {
    // eleven payload packets exceed the length bound, so the length filter
    // drops the connection at L4Terminated and the callback never
    // fires
    let (conn, acts) = drive_short_conn(11);
    assert!(acts.is_empty());
    assert!(conn.ended);
    assert!(conn.record.is_none());
    assert_eq!(conn.matched, vec![false]);
    assert_eq!(conn.current, Level::L4Terminated);
}

#[test]
fn short_connection_fires_the_callback() {
    let (conn, acts) = drive_short_conn(5);
    assert_eq!(acts, vec![0]);
    assert!(conn.ended); // the terminal pass releases the record
    assert!(conn.record.is_none());
    assert_eq!(conn.matched, vec![true]);
}

/// `http and matches_any` with the host matching none of the fixed
/// set: `matches_any` answers `Drop` at `L7EndHdrs`, the connection
/// is dropped there and excluded from the callback.
#[test]
fn unmatched_host_dropped_at_headers() {
    let mut reg = Registry::new();
    reg.push_protocol(bytes("http"), Level::L7OnDisc);
    reg.push_filter(FilterDecl {
        name: bytes("matches_any"),
        tree: Pred::Atom(bytes("matches_any")),
        level: Level::L7EndHdrs,
    });
    reg.push_callback_expr(bytes("host_cb"), b"http and matches_any", false, Vec::new())
        .unwrap();
    let cs = compile(&reg).unwrap();
    // the callback's level is inferred from matches_any's availability
    assert_eq!(cs.cb_level, vec![Level::L7EndHdrs]);
    let lay = build_layout(&reg, &cs);
    let enabled = vec![bytes("http")];

    let mut env = AtomEnv::new(continue_truth(&cs));
    let (mut conn, _) =
        ConnInfo::admit_first_packet(&cs, &lay, &enabled, 0, &mut env).expect("admitted");

    let mut env = AtomEnv::new(continue_truth(&cs));
    conn.process_event(&cs, &lay, LevelEvent::ProtocolDiscovered, &mut env);

    let mut truth = continue_truth(&cs);
    truth[atom_id(&cs, "http")] = FilterResult::Accept;
    truth[atom_id(&cs, "matches_any")] = FilterResult::Drop; // no regex matched
    let mut env = AtomEnv::new(truth);
    let acts = conn.process_event(&cs, &lay, LevelEvent::HeadersDone, &mut env);

    assert!(acts.is_empty());
    assert!(conn.ended);
    assert!(conn.record.is_none());
    assert_eq!(conn.matched, vec![false]);
    assert_eq!(conn.current, Level::L7EndHdrs);
}

fn one_shot_setup() -> (CompiledSubscription, TrackedLayout, Vec<Vec<u8>>) {
    let mut reg = Registry::new();
    reg.push_protocol(bytes("tls"), Level::L7OnDisc);
    reg.push_callback_expr(bytes("once"), b"tls,level=L4InPayload", false, Vec::new())
        .unwrap();
    let cs = compile(&reg).unwrap();
    let lay = build_layout(&reg, &cs);
    (cs, lay, vec![bytes("tls")])
}

#[test]
fn one_shot_callback_fires_exactly_once() {
    // the predicate holds on two successive payload passes; the
    // callback runs on the first only
    let (cs, lay, enabled) = one_shot_setup();
    let mut env = AtomEnv::new(continue_truth(&cs));
    let (mut conn, _) =
        ConnInfo::admit_first_packet(&cs, &lay, &enabled, 0, &mut env).expect("admitted");

    let mut truth = continue_truth(&cs);
    truth[atom_id(&cs, "tls")] = FilterResult::Accept;
    let mut env = AtomEnv::new(truth.clone());
    let acts = conn.process_event(&cs, &lay, LevelEvent::PayloadPacket, &mut env);
    assert_eq!(acts, vec![0]);
    assert_eq!(conn.fired, vec![true]);

    let mut env = AtomEnv::new(truth);
    let acts = conn.process_event(&cs, &lay, LevelEvent::PayloadPacket, &mut env);
    assert!(acts.is_empty());
    assert_eq!(conn.matched, vec![true]);
}

#[test]
fn streaming_callback_runs_until_detached() {
    let mut reg = Registry::new();
    reg.push_protocol(bytes("tls"), Level::L7OnDisc);
    reg.push_callback_expr(bytes("stream"), b"tls,level=L4InPayload", true, Vec::new())
        .unwrap();
    let cs = compile(&reg).unwrap();
    let lay = build_layout(&reg, &cs);
    // a streaming callback's own state is a field of the layout
    assert_eq!(lay.fields.len(), 1);
    assert_eq!(lay.fields[0].kind, FieldKind::CallbackState);
    let enabled = vec![bytes("tls")];

    let mut env = AtomEnv::new(continue_truth(&cs));
    let (mut conn, _) =
        ConnInfo::admit_first_packet(&cs, &lay, &enabled, 0, &mut env).expect("admitted");

    let mut truth = continue_truth(&cs);
    truth[atom_id(&cs, "tls")] = FilterResult::Accept;

    let mut env = AtomEnv::new(truth.clone());
    let acts = conn.process_event(&cs, &lay, LevelEvent::PayloadPacket, &mut env);
    assert_eq!(acts, vec![0]);
    conn.report_streaming(&cs, 0, true); // keep tracking

    let mut env = AtomEnv::new(truth.clone());
    let acts = conn.process_event(&cs, &lay, LevelEvent::PayloadPacket, &mut env);
    assert_eq!(acts, vec![0]);
    conn.report_streaming(&cs, 0, false); // detach

    let mut env = AtomEnv::new(truth);
    let acts = conn.process_event(&cs, &lay, LevelEvent::PayloadPacket, &mut env);
    assert!(acts.is_empty());
}

#[test]
fn admission_drop_creates_no_connection() {
    let mut reg = Registry::new();
    reg.push_protocol(bytes("ipv4"), Level::L4FirstPacket);
    reg.push_filter(FilterDecl {
        name: bytes("gate"),
        tree: Pred::Atom(bytes("gate")),
        level: Level::L4FirstPacket,
    });
    let cs = compile(&reg).unwrap();
    let lay = build_layout(&reg, &cs);
    let enabled: Vec<Vec<u8>> = Vec::new();

    let mut truth = continue_truth(&cs);
    truth[atom_id(&cs, "gate")] = FilterResult::Drop;
    let mut env = AtomEnv::new(truth);
    assert!(ConnInfo::admit_first_packet(&cs, &lay, &enabled, 0, &mut env).is_none());
}

#[test]
fn levels_never_regress() {
    let (cs, lay, enabled) = one_shot_setup();
    let mut env = AtomEnv::new(continue_truth(&cs));
    let (mut conn, _) =
        ConnInfo::admit_first_packet(&cs, &lay, &enabled, 0, &mut env).expect("admitted");

    let mut env = AtomEnv::new(continue_truth(&cs));
    conn.process_event(&cs, &lay, LevelEvent::HeadersDone, &mut env);
    assert_eq!(conn.current, Level::L7EndHdrs);

    // a payload packet after header completion is refused: the level
    // sequence stays non-decreasing
    let mut env = AtomEnv::new(continue_truth(&cs));
    let acts = conn.process_event(&cs, &lay, LevelEvent::PayloadPacket, &mut env);
    assert!(acts.is_empty());
    assert_eq!(conn.current, Level::L7EndHdrs);

    // so is a second discovery
    let mut env = AtomEnv::new(continue_truth(&cs));
    let acts = conn.process_event(&cs, &lay, LevelEvent::ProtocolDiscovered, &mut env);
    assert!(acts.is_empty());
    assert_eq!(conn.current, Level::L7EndHdrs);
}

#[test]
fn ended_connection_sees_no_more_passes() {
    // drop finality: after the terminal pass nothing runs again
    let (cs, lay, enabled) = one_shot_setup();
    let mut env = AtomEnv::new(continue_truth(&cs));
    let (mut conn, _) =
        ConnInfo::admit_first_packet(&cs, &lay, &enabled, 0, &mut env).expect("admitted");

    let mut env = AtomEnv::new(continue_truth(&cs));
    conn.process_event(&cs, &lay, LevelEvent::ConnClosed, &mut env);
    assert!(conn.ended);
    assert!(conn.record.is_none());

    let mut truth = continue_truth(&cs);
    truth[atom_id(&cs, "tls")] = FilterResult::Accept;
    let mut env = AtomEnv::new(truth);
    let acts = conn.process_event(&cs, &lay, LevelEvent::PayloadPacket, &mut env);
    assert!(acts.is_empty());
    assert!(conn.ended);
}

#[test]
fn missing_parser_excludes_only_that_field() {
    // ProtocolUnsupported semantics: a datatype whose parser is not
    // enabled is excluded from tracking; the connection continues.
    let mut reg = Registry::new();
    reg.push_protocol(bytes("tls"), Level::L7OnDisc);
    reg.push_protocol(bytes("ssh"), Level::L7OnDisc);
    reg.push_datatype(iris::registry::DatatypeDecl {
        name: bytes("SshHandshake"),
        avail: Level::L7EndHdrs,
        parsers: vec![bytes("ssh")],
    });
    reg.push_datatype_fn(bytes("SshHandshake"), Level::L7EndHdrs);
    reg.push_callback_expr(
        bytes("ssh_cb"),
        b"ssh,level=L7EndHdrs",
        false,
        vec![bytes("SshHandshake")],
    )
    .unwrap();
    let cs = compile(&reg).unwrap();
    let lay = build_layout(&reg, &cs);

    // the ssh parser is not enabled on this build
    let enabled = vec![bytes("tls")];
    let mut env = AtomEnv::new(continue_truth(&cs));
    let (conn, _) =
        ConnInfo::admit_first_packet(&cs, &lay, &enabled, 0, &mut env).expect("admitted");
    let f = field_index(&lay, "SshHandshake");
    assert!(!conn.record.as_ref().unwrap().fields[f].active);
}

#[test]
fn layout_carries_referenced_datatypes_only() {
    let mut reg = Registry::new();
    reg.push_protocol(bytes("tls"), Level::L7OnDisc);
    reg.push_datatype(iris::registry::DatatypeDecl {
        name: bytes("Used"),
        avail: Level::L7EndHdrs,
        parsers: Vec::new(),
    });
    reg.push_datatype(iris::registry::DatatypeDecl {
        name: bytes("Unused"),
        avail: Level::L7EndHdrs,
        parsers: Vec::new(),
    });
    reg.push_callback_expr(bytes("cb"), b"tls", false, vec![bytes("Used")])
        .unwrap();
    let cs = compile(&reg).unwrap();
    let lay = build_layout(&reg, &cs);
    assert_eq!(lay.fields.len(), 1);
    assert_eq!(lay.fields[0].kind, FieldKind::Datatype);
    assert_eq!(lay.fields[0].name, bytes("Used"));
}

#[test]
fn streaming_hooks_schedule_their_levels() {
    // a streaming callback with per-level hooks runs at its hook
    // levels, not at an inferred level
    let mut reg = Registry::new();
    reg.push_protocol(bytes("tls"), Level::L7OnDisc);
    reg.push_callback_expr(bytes("stream"), b"tls", true, Vec::new())
        .unwrap();
    reg.push_callback_fn_hook(bytes("stream"), Level::L4InPayload);
    reg.push_callback_fn_hook(bytes("stream"), Level::L7EndHdrs);
    let cs = compile(&reg).unwrap();
    assert_eq!(cs.programs[Level::L4InPayload.index() as usize].callbacks.len(), 1);
    assert_eq!(cs.programs[Level::L7OnDisc.index() as usize].callbacks.len(), 0);
    assert_eq!(cs.programs[Level::L7EndHdrs.index() as usize].callbacks.len(), 1);
    let lay = build_layout(&reg, &cs);
    let enabled = vec![bytes("tls")];

    let mut env = AtomEnv::new(continue_truth(&cs));
    let (mut conn, _) =
        ConnInfo::admit_first_packet(&cs, &lay, &enabled, 0, &mut env).expect("admitted");

    let mut truth = continue_truth(&cs);
    truth[atom_id(&cs, "tls")] = FilterResult::Accept;

    let mut env = AtomEnv::new(truth.clone());
    let acts = conn.process_event(&cs, &lay, LevelEvent::PayloadPacket, &mut env);
    assert_eq!(acts, vec![0]);
    conn.report_streaming(&cs, 0, true);

    // not hooked at protocol discovery
    let mut env = AtomEnv::new(truth.clone());
    let acts = conn.process_event(&cs, &lay, LevelEvent::ProtocolDiscovered, &mut env);
    assert!(acts.is_empty());

    let mut env = AtomEnv::new(truth);
    let acts = conn.process_event(&cs, &lay, LevelEvent::HeadersDone, &mut env);
    assert_eq!(acts, vec![0]);
}

#[test]
fn actions_come_in_program_order() {
    let mut reg = Registry::new();
    reg.push_protocol(bytes("tls"), Level::L7OnDisc);
    reg.push_callback_expr(bytes("first"), b"tls,level=L7OnDisc", false, Vec::new())
        .unwrap();
    reg.push_callback_expr(bytes("second"), b"tls,level=L7OnDisc", false, Vec::new())
        .unwrap();
    let cs = compile(&reg).unwrap();
    let lay = build_layout(&reg, &cs);
    let enabled = vec![bytes("tls")];

    let mut env = AtomEnv::new(continue_truth(&cs));
    let (mut conn, _) =
        ConnInfo::admit_first_packet(&cs, &lay, &enabled, 0, &mut env).expect("admitted");

    let mut truth = continue_truth(&cs);
    truth[atom_id(&cs, "tls")] = FilterResult::Accept;
    let mut env = AtomEnv::new(truth);
    let acts = conn.process_event(&cs, &lay, LevelEvent::ProtocolDiscovered, &mut env);
    assert_eq!(acts, vec![0, 1]);
    assert_eq!(conn.matched, vec![true, true]);
}

#[test]
fn matched_mask_accumulates_across_levels() {
    let mut reg = Registry::new();
    reg.push_protocol(bytes("tls"), Level::L7OnDisc);
    reg.push_protocol(bytes("http"), Level::L7OnDisc);
    reg.push_callback_expr(bytes("early"), b"tls,level=L4InPayload", false, Vec::new())
        .unwrap();
    reg.push_callback_expr(bytes("late"), b"http,level=L7OnDisc", false, Vec::new())
        .unwrap();
    let cs = compile(&reg).unwrap();
    let lay = build_layout(&reg, &cs);
    let enabled = vec![bytes("tls"), bytes("http")];

    let mut env = AtomEnv::new(continue_truth(&cs));
    let (mut conn, _) =
        ConnInfo::admit_first_packet(&cs, &lay, &enabled, 0, &mut env).expect("admitted");

    let mut truth = continue_truth(&cs);
    truth[atom_id(&cs, "tls")] = FilterResult::Accept;
    let mut env = AtomEnv::new(truth);
    conn.process_event(&cs, &lay, LevelEvent::PayloadPacket, &mut env);
    assert_eq!(conn.matched, vec![true, false]);

    let mut truth = continue_truth(&cs);
    truth[atom_id(&cs, "http")] = FilterResult::Accept;
    let mut env = AtomEnv::new(truth);
    conn.process_event(&cs, &lay, LevelEvent::ProtocolDiscovered, &mut env);
    assert_eq!(conn.matched, vec![true, true]);
}

#[test]
fn update_dispatch_lists_hooked_fields() {
    let (_cs, lay) = short_conn_setup();
    let scl = field_index(&lay, "ShortConnLen");
    assert_eq!(fields_at_level(&lay, Level::L4InPayload), vec![scl]);
    assert!(fields_at_level(&lay, Level::L7OnDisc).is_empty());
    assert!(fields_at_level(&lay, Level::L4Terminated).is_empty());
}
