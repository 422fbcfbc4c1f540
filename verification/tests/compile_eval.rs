//! Tests of the registry, the decision tree compiler, and the shared
//! memoised evaluation.

use iris::ast::{FilterResult, Pred};
use iris::compile::{compile, packet_admit, run_level, CompiledSubscription};
use iris::errors::BuildError;
use iris::eval::AtomEnv;
use iris::level::Level;
use iris::parse::ParseError;
use iris::registry::{DatatypeDecl, FilterDecl, Registry};

fn bytes(s: &str) -> Vec<u8> {
    s.as_bytes().to_vec()
}

fn atom_id(cs: &CompiledSubscription, name: &str) -> usize {
    for (i, k) in cs.atom_table.iter().enumerate() {
        if !k.file && k.text == name.as_bytes() {
            return i;
        }
    }
    panic!("atom {} not interned", name);
}

fn base_registry() -> Registry {
    let mut reg = Registry::new();
    reg.push_protocol(bytes("ipv4"), Level::L4FirstPacket);
    reg.push_protocol(bytes("tcp"), Level::L4FirstPacket);
    reg.push_protocol(bytes("udp"), Level::L4FirstPacket);
    reg.push_protocol(bytes("tls"), Level::L7OnDisc);
    reg.push_protocol(bytes("http"), Level::L7OnDisc);
    reg
}

fn continue_truth(cs: &CompiledSubscription) -> Vec<FilterResult> {
    vec![FilterResult::Continue; cs.atom_table.len()]
}

#[test]
fn compiles_empty_registry() {
    let reg = base_registry();
    let cs = compile(&reg).unwrap();
    assert_eq!(cs.n_callbacks, 0);
    assert_eq!(cs.programs.len(), 5);
    assert!(cs.atom_table.is_empty());
}

#[test]
fn interns_shared_atoms_once() {
    let mut reg = base_registry();
    reg.push_callback_expr(bytes("c1"), b"tls and ipv4,level=L7OnDisc", false, Vec::new())
        .unwrap();
    reg.push_callback_expr(bytes("c2"), b"tls and tcp,level=L7OnDisc", false, Vec::new())
        .unwrap();
    let cs = compile(&reg).unwrap();
    // tls appears in both predicates but is interned once
    assert_eq!(cs.atom_table.len(), 3);
    let tls = atom_id(&cs, "tls");
    assert!(cs.atom_table[tls].text == b"tls".to_vec());
}

#[test]
fn unresolved_atom_is_a_build_error() {
    let mut reg = base_registry();
    reg.push_callback_expr(bytes("c"), b"tls and NoSuchThing", false, Vec::new())
        .unwrap();
    match compile(&reg) {
        Err(BuildError::UnresolvedAtom(w)) => assert_eq!(w, bytes("NoSuchThing")),
        other => panic!("expected UnresolvedAtom, got {:?}", other),
    }
}

#[test]
fn unmatched_group_fn_is_a_build_error() {
    let mut reg = base_registry();
    reg.push_datatype_fn(bytes("Phantom"), Level::L4InPayload);
    match compile(&reg) {
        Err(BuildError::UnresolvedAtom(w)) => assert_eq!(w, bytes("Phantom")),
        other => panic!("expected UnresolvedAtom, got {:?}", other),
    }
}

#[test]
fn early_schedule_of_late_datatype_is_a_level_mismatch() {
    let mut reg = base_registry();
    reg.push_datatype(DatatypeDecl {
        name: bytes("TlsHandshake"),
        avail: Level::L7EndHdrs,
        parsers: vec![bytes("tls")],
    });
    reg.push_callback_expr(
        bytes("too_early"),
        b"ipv4,level=L4FirstPacket",
        false,
        vec![bytes("TlsHandshake")],
    )
    .unwrap();
    match compile(&reg) {
        Err(BuildError::LevelMismatch {
            name,
            available,
            scheduled,
        }) => {
            assert_eq!(name, bytes("TlsHandshake"));
            assert_eq!(available, Level::L7EndHdrs);
            assert_eq!(scheduled, Level::L4FirstPacket);
        }
        other => panic!("expected LevelMismatch, got {:?}", other),
    }
}

#[test]
fn grammar_error_reaches_the_caller() {
    let mut reg = base_registry();
    let r = reg.push_callback_expr(bytes("bad"), b"tls and", false, Vec::new());
    assert_eq!(
        r,
        Err(BuildError::GrammarError(ParseError::UnexpectedToken))
    );
}

#[test]
fn filter_expression_needs_a_level() {
    let mut reg = base_registry();
    let r = reg.push_filter_expr(bytes("gate"), b"tls and http");
    assert_eq!(r, Err(BuildError::GrammarError(ParseError::MissingLevel)));
}

#[test]
fn callback_level_is_inferred_from_dependencies() {
    let mut reg = base_registry();
    reg.push_filter(FilterDecl {
        name: bytes("matches_any"),
        tree: Pred::Atom(bytes("matches_any")),
        level: Level::L7EndHdrs,
    });
    reg.push_callback_expr(bytes("cb"), b"http and matches_any", false, Vec::new())
        .unwrap();
    let cs = compile(&reg).unwrap();
    assert_eq!(cs.cb_level, vec![Level::L7EndHdrs]);
}

#[test]
fn callback_without_dependencies_is_scheduled_at_first_packet() {
    let mut reg = base_registry();
    reg.push_callback_expr(bytes("cb"), b"ipv4 and (tcp or udp)", false, Vec::new())
        .unwrap();
    let cs = compile(&reg).unwrap();
    assert_eq!(cs.cb_level, vec![Level::L4FirstPacket]);
    assert_eq!(cs.programs[0].callbacks.len(), 1);
}

#[test]
fn packet_filter_admits_and_drops() {
    let mut reg = base_registry();
    reg.push_filter(FilterDecl {
        name: bytes("admission"),
        tree: Pred::Atom(bytes("admission")),
        level: Level::L4FirstPacket,
    });
    let cs = compile(&reg).unwrap();
    let gate = atom_id(&cs, "admission");

    let mut truth = continue_truth(&cs);
    truth[gate] = FilterResult::Accept;
    let mut env = AtomEnv::new(truth);
    assert!(packet_admit(&cs, &mut env));

    let mut truth = continue_truth(&cs);
    truth[gate] = FilterResult::Drop;
    let mut env = AtomEnv::new(truth);
    assert!(!packet_admit(&cs, &mut env));
}

#[test]
fn short_circuit_and_skips_right_side() {
    // for `a and b` with `a` not accepting, `b`'s evaluator observes
    // zero invocations
    let mut reg = base_registry();
    reg.push_callback_expr(bytes("cb"), b"tls and http,level=L7OnDisc", false, Vec::new())
        .unwrap();
    let cs = compile(&reg).unwrap();
    let a = atom_id(&cs, "tls");
    let b = atom_id(&cs, "http");

    let mut truth = continue_truth(&cs);
    truth[a] = FilterResult::Continue; // left side defers: right side not asked
    truth[b] = FilterResult::Accept;
    let mut env = AtomEnv::new(truth);
    let verdict = run_level(&cs.programs[Level::L7OnDisc.index() as usize], &mut env);
    assert!(!verdict.dropped);
    assert_eq!(verdict.matched, vec![false]);
    assert_eq!(env.invocations(a), 1);
    assert_eq!(env.invocations(b), 0);
}

#[test]
fn short_circuit_or_skips_right_side() {
    let mut reg = base_registry();
    reg.push_callback_expr(bytes("cb"), b"tls or http,level=L7OnDisc", false, Vec::new())
        .unwrap();
    let cs = compile(&reg).unwrap();
    let a = atom_id(&cs, "tls");
    let b = atom_id(&cs, "http");

    let mut truth = continue_truth(&cs);
    truth[a] = FilterResult::Accept; // left side accepts: right side not asked
    truth[b] = FilterResult::Accept;
    let mut env = AtomEnv::new(truth);
    let verdict = run_level(&cs.programs[Level::L7OnDisc.index() as usize], &mut env);
    assert_eq!(verdict.matched, vec![true]);
    assert_eq!(env.invocations(a), 1);
    assert_eq!(env.invocations(b), 0);
}

#[test]
fn shared_atom_is_evaluated_once_per_pass() {
    // two callbacks share the atom `tls`; one pass invokes the shared
    // atom's evaluator exactly once, not twice
    let mut reg = base_registry();
    reg.push_callback_expr(bytes("c1"), b"tls and tcp,level=L7OnDisc", false, Vec::new())
        .unwrap();
    reg.push_callback_expr(bytes("c2"), b"tls and udp,level=L7OnDisc", false, Vec::new())
        .unwrap();
    let cs = compile(&reg).unwrap();
    let tls = atom_id(&cs, "tls");

    let mut truth = continue_truth(&cs);
    truth[tls] = FilterResult::Accept;
    truth[atom_id(&cs, "tcp")] = FilterResult::Accept;
    truth[atom_id(&cs, "udp")] = FilterResult::Accept;
    let mut env = AtomEnv::new(truth);
    let verdict = run_level(&cs.programs[Level::L7OnDisc.index() as usize], &mut env);
    assert_eq!(verdict.matched, vec![true, true]);
    assert_eq!(env.invocations(tls), 1);
}

#[test]
fn negation_swaps_accept_and_continue() {
    let mut reg = base_registry();
    reg.push_callback_expr(bytes("cb"), b"not tls,level=L7OnDisc", false, Vec::new())
        .unwrap();
    let cs = compile(&reg).unwrap();
    let tls = atom_id(&cs, "tls");

    let mut truth = continue_truth(&cs);
    truth[tls] = FilterResult::Continue;
    let mut env = AtomEnv::new(truth);
    let verdict = run_level(&cs.programs[Level::L7OnDisc.index() as usize], &mut env);
    assert_eq!(verdict.matched, vec![true]);

    let mut truth = continue_truth(&cs);
    truth[tls] = FilterResult::Accept;
    let mut env = AtomEnv::new(truth);
    let verdict = run_level(&cs.programs[Level::L7OnDisc.index() as usize], &mut env);
    assert_eq!(verdict.matched, vec![false]);
}

#[test]
fn drop_from_any_atom_is_absorbing() {
    let mut reg = base_registry();
    reg.push_filter_expr(bytes("gate"), b"tls or http,level=L7OnDisc")
        .unwrap();
    let cs = compile(&reg).unwrap();
    let tls = atom_id(&cs, "tls");

    let mut truth = continue_truth(&cs);
    truth[tls] = FilterResult::Drop;
    let mut env = AtomEnv::new(truth);
    let verdict = run_level(&cs.programs[Level::L7OnDisc.index() as usize], &mut env);
    assert!(verdict.dropped);
}
