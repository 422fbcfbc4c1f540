//! Tests of the runtime-facing pieces: membership sets, payload
//! bounds checking, flow affinity, and the per-core connection table.

use iris::ast::FilterResult;
use iris::compile::compile;
use iris::conn::ConnInfo;
use iris::errors::RuntimeError;
use iris::eval::AtomEnv;
use iris::fileset::MembershipSet;
use iris::layout::build_layout;
use iris::level::Level;
use iris::packet::read_payload;
use iris::registry::Registry;
use iris::table::{core_of, ConnTable, FiveTuple};

fn some_conn() -> ConnInfo {
    let mut reg = Registry::new();
    reg.push_protocol(b"tls".to_vec(), Level::L7OnDisc);
    let cs = compile(&reg).unwrap();
    let lay = build_layout(&reg, &cs);
    let enabled: Vec<Vec<u8>> = Vec::new();
    let truth: Vec<FilterResult> = vec![FilterResult::Continue; cs.atom_table.len()];
    let mut env = AtomEnv::new(truth);
    let (conn, _) =
        ConnInfo::admit_first_packet(&cs, &lay, &enabled, 0, &mut env).expect("admitted");
    conn
}

fn ft(port: u16) -> FiveTuple {
    FiveTuple {
        src_ip: 0x0a00_0001,
        dst_ip: 0x0a00_0002,
        src_port: port,
        dst_port: 443,
        proto: 6,
    }
}

#[test]
fn membership_set_finds_its_keys() {
    let mut set = MembershipSet::new();
    set.insert(b"alpha.example".to_vec());
    set.insert(b"beta.example".to_vec());
    assert!(set.contains(b"alpha.example"));
    assert!(set.contains(b"beta.example"));
    assert!(!set.contains(b"gamma.example"));
    assert!(!set.contains(b""));
}

#[test]
fn payload_read_respects_bounds() {
    let pkt = [1u8, 2, 3, 4, 5];
    assert_eq!(read_payload(&pkt, 1, 3).unwrap(), &[2, 3, 4]);
    assert_eq!(read_payload(&pkt, 0, 5).unwrap(), &[1, 2, 3, 4, 5]);
    assert_eq!(read_payload(&pkt, 5, 0).unwrap(), &[] as &[u8]);
    // a bounds violation is recoverable, never a crash
    assert_eq!(read_payload(&pkt, 4, 2), Err(RuntimeError::MalformedPacket));
    assert_eq!(read_payload(&pkt, 6, 0), Err(RuntimeError::MalformedPacket));
}

#[test]
fn flow_affinity_is_deterministic_and_in_range() {
    let a = ft(1000);
    for cores in [1u32, 2, 8, 31] {
        let c = core_of(&a, cores);
        assert!(c < cores);
        // the same five-tuple always lands on the same core
        assert_eq!(c, core_of(&ft(1000), cores));
    }
}

#[test]
fn connection_table_admits_up_to_capacity() {
    let mut table = ConnTable::new(2);
    assert_eq!(table.len(), 0);
    table.insert(ft(1), some_conn()).unwrap();
    table.insert(ft(2), some_conn()).unwrap();
    // a full table denies admission, it never crashes
    assert_eq!(
        table.insert(ft(3), some_conn()),
        Err(RuntimeError::CapacityExceeded)
    );
    assert_eq!(table.len(), 2);
}

#[test]
fn connection_table_lookup_and_eviction() {
    let mut table = ConnTable::new(4);
    table.insert(ft(1), some_conn()).unwrap();
    table.insert(ft(2), some_conn()).unwrap();
    let i = table.lookup(&ft(1)).expect("held");
    assert_eq!(table.keys[i], ft(1));
    assert!(table.lookup(&ft(9)).is_none());

    // evicting one connection frees a slot for a new flow
    let j = table.lookup(&ft(1)).unwrap();
    table.remove(j);
    assert!(table.lookup(&ft(1)).is_none());
    assert_eq!(table.len(), 1);
    table.insert(ft(3), some_conn()).unwrap();
    assert!(table.lookup(&ft(3)).is_some());
}

#[test]
fn side_file_atom_answers_from_the_loaded_set() {
    let mut reg = Registry::new();
    reg.push_protocol(b"tls".to_vec(), Level::L7OnDisc);
    reg.push_callback_expr(
        b"listed".to_vec(),
        b"tls and file=/etc/snis.txt,level=L7EndHdrs",
        false,
        Vec::new(),
    )
    .unwrap();
    let cs = compile(&reg).unwrap();

    let mut set = MembershipSet::new();
    set.insert(b"alpha.example".to_vec());

    // the runtime computes the file atom's outcome from the set
    let mut truth = vec![FilterResult::Continue; cs.atom_table.len()];
    for (i, k) in cs.atom_table.iter().enumerate() {
        if k.file {
            assert_eq!(k.text, b"/etc/snis.txt".to_vec());
            truth[i] = if set.contains(b"alpha.example") {
                FilterResult::Accept
            } else {
                FilterResult::Continue
            };
        }
        if !k.file && k.text == b"tls".to_vec() {
            truth[i] = FilterResult::Accept;
        }
    }
    let mut env = AtomEnv::new(truth);
    let verdict = iris::compile::run_level(
        &cs.programs[Level::L7EndHdrs.index() as usize],
        &mut env,
    );
    assert_eq!(verdict.matched, vec![true]);
}

#[test]
fn buffered_packets_stay_with_the_record() {
    let mut conn = some_conn();
    if let Some(tw) = conn.record.as_mut() {
        tw.buffer_packet(7);
        tw.buffer_packet(9);
    }
    let tw = conn.record.as_ref().unwrap();
    assert_eq!(tw.packets, vec![7, 9]);
    assert_eq!(tw.core_id, 0);
}
