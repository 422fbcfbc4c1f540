//! The decision tree compiler: merges every registered predicate into
//! one shared decision structure per lifecycle level.
//!
//! Atoms are interned into one table for the whole subscription, so
//! that predicates sharing a sub-expression share the atom's identity
//! and, through the memoising evaluator, its single evaluation per
//! level pass.

use vstd::prelude::*;

use crate::ast::{FilterResult, Pred, PredView};
use crate::errors::BuildError;
use crate::eval::{eval_node, node_wf, spec_eval, AtomEnv, Node};
use crate::level::Level;
use crate::parse::{bytes_eq, clone_bytes};
use crate::registry::{
    cb_declared, dt_declared, filter_declared, hooked_at, proto_declared, CallbackDecl,
    DatatypeDecl, FilterDecl, GroupFn, ProtocolDecl, Registry,
};

verus! {

// ---------------------------------------------------------------------
// The atom table
// ---------------------------------------------------------------------

/// The identity of an atom across every predicate of a subscription:
/// a named atom, or a side-file membership test keyed by its path.
#[derive(Debug)]
pub struct AtomKey {
    /// Whether the atom is a side-file membership test.
    pub file: bool,
    /// The atom's name, or the file's path.
    pub text: Vec<u8>,
}

/// The mathematical shape of an [`AtomKey`].
#[verifier::ext_equal]
pub struct AtomKeyView {
    /// Whether the atom is a side-file membership test.
    pub file: bool,
    /// The atom's name, or the file's path.
    pub text: Seq<u8>,
}

impl View for AtomKey {
    type V = AtomKeyView;

    open spec fn view(&self) -> AtomKeyView {
        AtomKeyView { file: self.file, text: self.text@ }
    }
}

/// The views of an atom table.
pub open spec fn table_view(t: Seq<AtomKey>) -> Seq<AtomKeyView> {
    t.map_values(|k: AtomKey| k@)
}

/// No two entries of the table are the same atom.
pub open spec fn distinct_keys(t: Seq<AtomKeyView>) -> bool {
    forall|i: int, j: int| 0 <= i < j < t.len() ==> t[i] != t[j]
}

/// Whether two atom keys are the same atom.
fn key_eq(a: &AtomKey, b: &AtomKey) -> (r: bool)
    ensures
        r == (a@ == b@),
{
    let te = bytes_eq(a.text.as_slice(), b.text.as_slice());
    if a.file == b.file && te {
        proof {
            assert(a@ =~= b@);
        }
        true
    } else {
        false
    }
}

/// Intern an atom: the index of the atom in the table, which gains the
/// atom at its end if it was not there yet.
fn intern(table: &mut Vec<AtomKey>, key: AtomKey) -> (id: usize)
    ensures
        id < final(table)@.len(),
        table_view(final(table)@)[id as int] == key@,
        final(table)@.len() >= old(table)@.len(),
        forall|j: int| 0 <= j < old(table)@.len() ==> final(table)@[j] == old(table)@[j],
        final(table)@.len() <= old(table)@.len() + 1,
        distinct_keys(table_view(old(table)@)) ==> distinct_keys(table_view(final(table)@)),
{
    let n = table.len();
    let mut i: usize = 0;
    while i < n
        invariant
            i <= n,
            n == table@.len(),
            forall|k: int| 0 <= k < i ==> table_view(table@)[k] != key@,
        decreases n - i,
    {
        proof {
            assert(table_view(table@)[i as int] == table@[i as int]@);
        }
        if key_eq(&table[i], &key) {
            return i;
        }
        i = i + 1;
    }
    let ghost prev = table@;
    table.push(key);
    proof {
        assert(table_view(table@) =~= table_view(prev).push(table@.last()@));
        assert(table_view(table@)[n as int] == table@[n as int]@);
        if distinct_keys(table_view(prev)) {
            assert forall|x: int, y: int|
                0 <= x < y < table_view(table@).len() implies table_view(table@)[x]
                != table_view(table@)[y] by {
                if y < n {
                    assert(table_view(table@)[x] == table_view(prev)[x]);
                    assert(table_view(table@)[y] == table_view(prev)[y]);
                } else {
                    assert(table_view(table@)[x] == table_view(prev)[x]);
                }
            }
        }
    }
    n
}

// ---------------------------------------------------------------------
// Lowering predicate trees onto the table
// ---------------------------------------------------------------------

/// The compiled tree `n` is the tree `p` with every atom replaced by
/// its index in the table.
pub open spec fn lowers_to(p: PredView, n: Node, tab: Seq<AtomKeyView>) -> bool
    decreases p,
{
    match p {
        PredView::Atom(w) => n matches Node::Atom(i) && 0 <= (i as int) < tab.len() && tab[
            i as int
        ] == (AtomKeyView { file: false, text: w }),
        PredView::FileAtom(w) => n matches Node::Atom(i) && 0 <= (i as int) < tab.len() && tab[
            i as int
        ] == (AtomKeyView { file: true, text: w }),
        PredView::Not(a) => n matches Node::Not(na) && lowers_to(*a, *na, tab),
        PredView::And(a, b) => n matches Node::And(na, nb) && lowers_to(*a, *na, tab)
            && lowers_to(*b, *nb, tab),
        PredView::Or(a, b) => n matches Node::Or(na, nb) && lowers_to(*a, *na, tab)
            && lowers_to(*b, *nb, tab),
    }
}

/// Lowering is stable under growing the table at its end.
pub proof fn lemma_lowers_to_extend(p: PredView, n: Node, t1: Seq<AtomKeyView>, t2: Seq<
    AtomKeyView,
>)
    requires
        lowers_to(p, n, t1),
        t1.len() <= t2.len(),
        forall|j: int| 0 <= j < t1.len() ==> t1[j] == t2[j],
    ensures
        lowers_to(p, n, t2),
    decreases p,
{
    match p {
        PredView::Atom(w) => {},
        PredView::FileAtom(w) => {},
        PredView::Not(a) => {
            if let Node::Not(na) = n {
                lemma_lowers_to_extend(*a, *na, t1, t2);
            }
        },
        PredView::And(a, b) => {
            if let Node::And(na, nb) = n {
                lemma_lowers_to_extend(*a, *na, t1, t2);
                lemma_lowers_to_extend(*b, *nb, t1, t2);
            }
        },
        PredView::Or(a, b) => {
            if let Node::Or(na, nb) = n {
                lemma_lowers_to_extend(*a, *na, t1, t2);
                lemma_lowers_to_extend(*b, *nb, t1, t2);
            }
        },
    }
}

/// A well-formed tree stays well-formed as the table grows.
pub proof fn lemma_node_wf_mono(n: Node, k1: nat, k2: nat)
    requires
        node_wf(n, k1),
        k1 <= k2,
    ensures
        node_wf(n, k2),
    decreases n,
{
    match n {
        Node::Atom(_) => {},
        Node::Not(a) => lemma_node_wf_mono(*a, k1, k2),
        Node::And(a, b) => {
            lemma_node_wf_mono(*a, k1, k2);
            lemma_node_wf_mono(*b, k1, k2);
        },
        Node::Or(a, b) => {
            lemma_node_wf_mono(*a, k1, k2);
            lemma_node_wf_mono(*b, k1, k2);
        },
    }
}

/// Lower a predicate tree onto the shared atom table.
fn lower(p: &Pred, table: &mut Vec<AtomKey>) -> (n: Node)
    requires
        distinct_keys(table_view(old(table)@)),
    ensures
        distinct_keys(table_view(final(table)@)),
        final(table)@.len() >= old(table)@.len(),
        forall|j: int| 0 <= j < old(table)@.len() ==> final(table)@[j] == old(table)@[j],
        lowers_to(p@, n, table_view(final(table)@)),
        node_wf(n, table_view(final(table)@).len() as nat),
    decreases p,
{
    match p {
        Pred::Atom(w) => {
            let key = AtomKey { file: false, text: clone_bytes(w) };
            let id = intern(table, key);
            Node::Atom(id)
        },
        Pred::FileAtom(w) => {
            let key = AtomKey { file: true, text: clone_bytes(w) };
            let id = intern(table, key);
            Node::Atom(id)
        },
        Pred::Not(a) => {
            let na = lower(a, table);
            Node::Not(Box::new(na))
        },
        Pred::And(a, b) => {
            let ghost t0 = table@;
            let na = lower(a, table);
            let ghost t1 = table@;
            let nb = lower(b, table);
            proof {
                assert forall|j: int| 0 <= j < table_view(t1).len() implies table_view(t1)[j]
                    == table_view(table@)[j] by {
                    assert(table_view(t1)[j] == t1[j]@);
                    assert(table_view(table@)[j] == table@[j]@);
                }
                lemma_lowers_to_extend(a@, na, table_view(t1), table_view(table@));
                lemma_node_wf_mono(
                    na,
                    table_view(t1).len() as nat,
                    table_view(table@).len() as nat,
                );
            }
            Node::And(Box::new(na), Box::new(nb))
        },
        Pred::Or(a, b) => {
            let ghost t0 = table@;
            let na = lower(a, table);
            let ghost t1 = table@;
            let nb = lower(b, table);
            proof {
                assert forall|j: int| 0 <= j < table_view(t1).len() implies table_view(t1)[j]
                    == table_view(table@)[j] by {
                    assert(table_view(t1)[j] == t1[j]@);
                    assert(table_view(table@)[j] == table@[j]@);
                }
                lemma_lowers_to_extend(a@, na, table_view(t1), table_view(table@));
                lemma_node_wf_mono(
                    na,
                    table_view(t1).len() as nat,
                    table_view(table@).len() as nat,
                );
            }
            Node::Or(Box::new(na), Box::new(nb))
        },
    }
}

/// Copy a compiled tree.
fn clone_node(n: &Node) -> (r: Node)
    ensures
        r == *n,
    decreases n,
{
    match n {
        Node::Atom(i) => Node::Atom(*i),
        Node::Not(a) => Node::Not(Box::new(clone_node(a))),
        Node::And(a, b) => Node::And(Box::new(clone_node(a)), Box::new(clone_node(b))),
        Node::Or(a, b) => Node::Or(Box::new(clone_node(a)), Box::new(clone_node(b))),
    }
}

// ---------------------------------------------------------------------
// Resolution and availability
// ---------------------------------------------------------------------

/// A named atom resolves when a protocol, datatype or filter of that
/// name is declared.
pub open spec fn atom_resolved(
    ps: Seq<ProtocolDecl>,
    ds: Seq<DatatypeDecl>,
    fs: Seq<FilterDecl>,
    w: Seq<u8>,
) -> bool {
    proto_declared(ps, w) || dt_declared(ds, w) || filter_declared(fs, w)
}

/// Every named atom of the tree resolves to a declaration.  Side-file
/// atoms always resolve: their file is read at startup.
pub open spec fn pred_resolved(
    p: PredView,
    ps: Seq<ProtocolDecl>,
    ds: Seq<DatatypeDecl>,
    fs: Seq<FilterDecl>,
) -> bool
    decreases p,
{
    match p {
        PredView::Atom(w) => atom_resolved(ps, ds, fs, w),
        PredView::FileAtom(_) => true,
        PredView::Not(a) => pred_resolved(*a, ps, ds, fs),
        PredView::And(a, b) => pred_resolved(*a, ps, ds, fs) && pred_resolved(*b, ps, ds, fs),
        PredView::Or(a, b) => pred_resolved(*a, ps, ds, fs) && pred_resolved(*b, ps, ds, fs),
    }
}

/// Whether the tree mentions the named atom.
pub open spec fn pred_mentions(p: PredView, w: Seq<u8>) -> bool
    decreases p,
{
    match p {
        PredView::Atom(x) => x == w,
        PredView::FileAtom(_) => false,
        PredView::Not(a) => pred_mentions(*a, w),
        PredView::And(a, b) => pred_mentions(*a, w) || pred_mentions(*b, w),
        PredView::Or(a, b) => pred_mentions(*a, w) || pred_mentions(*b, w),
    }
}

/// Check that every named atom of a tree resolves.
fn check_resolved(p: &Pred, reg: &Registry) -> (r: Result<(), BuildError>)
    ensures
        r is Ok <==> pred_resolved(p@, reg.protocols@, reg.datatypes@, reg.filters@),
        r matches Err(e) ==> match e {
            BuildError::UnresolvedAtom(w) => pred_mentions(p@, w@) && !atom_resolved(
                reg.protocols@,
                reg.datatypes@,
                reg.filters@,
                w@,
            ),
            _ => false,
        },
    decreases p,
{
    match p {
        Pred::Atom(w) => {
            let in_proto = reg.find_protocol(w.as_slice()).is_some();
            let in_dt = reg.find_datatype(w.as_slice()).is_some();
            let in_f = reg.find_filter(w.as_slice()).is_some();
            if in_proto || in_dt || in_f {
                Ok(())
            } else {
                Err(BuildError::UnresolvedAtom(clone_bytes(w)))
            }
        },
        Pred::FileAtom(_) => Ok(()),
        Pred::Not(a) => check_resolved(a, reg),
        Pred::And(a, b) => {
            match check_resolved(a, reg) {
                Err(e) => Err(e),
                Ok(()) => check_resolved(b, reg),
            }
        },
        Pred::Or(a, b) => {
            match check_resolved(a, reg) {
                Err(e) => Err(e),
                Ok(()) => check_resolved(b, reg),
            }
        },
    }
}

/// The first declared datatype of the name has this availability level.
pub open spec fn first_dt_avail(ds: Seq<DatatypeDecl>, w: Seq<u8>, l: Level) -> bool {
    exists|i: int|
        0 <= i < ds.len() && (#[trigger] ds[i]).name@ == w && ds[i].avail == l && (forall|k: int|
            0 <= k < i ==> (#[trigger] ds[k]).name@ != w)
}

/// The first declared filter of the name has this level.
pub open spec fn first_filter_avail(fs: Seq<FilterDecl>, w: Seq<u8>, l: Level) -> bool {
    exists|i: int|
        0 <= i < fs.len() && (#[trigger] fs[i]).name@ == w && fs[i].level == l && (forall|k: int|
            0 <= k < i ==> (#[trigger] fs[k]).name@ != w)
}

/// The level at which the named dependency becomes available: the
/// first datatype of that name, else the first filter.  Protocol
/// presence atoms carry no availability constraint: before the
/// protocol is identified the presence test answers `Continue`.
pub open spec fn avail_is(ds: Seq<DatatypeDecl>, fs: Seq<FilterDecl>, w: Seq<u8>, l: Level) -> bool {
    ||| first_dt_avail(ds, w, l)
    ||| !dt_declared(ds, w) && first_filter_avail(fs, w, l)
}

/// Every datatype or filter atom of the tree is available no later
/// than the level the tree is scheduled at.  Protocol atoms and
/// side-file atoms are answerable at any level.
pub open spec fn pred_avail_ok(
    p: PredView,
    ps: Seq<ProtocolDecl>,
    ds: Seq<DatatypeDecl>,
    fs: Seq<FilterDecl>,
    sched: Level,
) -> bool
    decreases p,
{
    match p {
        PredView::Atom(w) => proto_declared(ps, w) || (exists|l: Level|
            avail_is(ds, fs, w, l) && l.ord() <= sched.ord()),
        PredView::FileAtom(_) => true,
        PredView::Not(a) => pred_avail_ok(*a, ps, ds, fs, sched),
        PredView::And(a, b) => pred_avail_ok(*a, ps, ds, fs, sched) && pred_avail_ok(
            *b,
            ps,
            ds,
            fs,
            sched,
        ),
        PredView::Or(a, b) => pred_avail_ok(*a, ps, ds, fs, sched) && pred_avail_ok(
            *b,
            ps,
            ds,
            fs,
            sched,
        ),
    }
}

/// The availability level of a dependency, when the atom is neither a
/// protocol nor a side-file test.
fn avail_of(reg: &Registry, w: &[u8]) -> (r: Option<Level>)
    ensures
        r matches Some(l) ==> avail_is(reg.datatypes@, reg.filters@, w@, l),
        r is None ==> !dt_declared(reg.datatypes@, w@) && !filter_declared(reg.filters@, w@),
{
    match reg.find_datatype(w) {
        Some(i) => Some(reg.datatypes[i].avail),
        None => match reg.find_filter(w) {
            Some(i) => Some(reg.filters[i].level),
            None => None,
        },
    }
}

/// Check that every dependency of the tree is available at `sched`.
fn check_avail(p: &Pred, reg: &Registry, sched: Level) -> (r: Result<(), BuildError>)
    ensures
        r is Ok <==> pred_avail_ok(p@, reg.protocols@, reg.datatypes@, reg.filters@, sched),
        r matches Err(e) ==> match e {
            BuildError::UnresolvedAtom(w) => pred_mentions(p@, w@) && !atom_resolved(
                reg.protocols@,
                reg.datatypes@,
                reg.filters@,
                w@,
            ),
            BuildError::LevelMismatch { name, available, scheduled } => pred_mentions(p@, name@)
                && !proto_declared(reg.protocols@, name@) && avail_is(
                reg.datatypes@,
                reg.filters@,
                name@,
                available,
            ) && available.ord() > sched.ord() && scheduled == sched,
            _ => false,
        },
    decreases p,
{
    match p {
        Pred::Atom(w) => {
            if reg.find_protocol(w.as_slice()).is_some() {
                return Ok(());
            }
            match avail_of(reg, w.as_slice()) {
                Some(l) => {
                    if l.le(sched) {
                        Ok(())
                    } else {
                        proof {
                            lemma_avail_unique(reg.datatypes@, reg.filters@, w@);
                        }
                        Err(
                            BuildError::LevelMismatch {
                                name: clone_bytes(w),
                                available: l,
                                scheduled: sched,
                            },
                        )
                    }
                },
                None => Err(BuildError::UnresolvedAtom(clone_bytes(w))),
            }
        },
        Pred::FileAtom(_) => Ok(()),
        Pred::Not(a) => check_avail(a, reg, sched),
        Pred::And(a, b) => {
            match check_avail(a, reg, sched) {
                Err(e) => Err(e),
                Ok(()) => check_avail(b, reg, sched),
            }
        },
        Pred::Or(a, b) => {
            match check_avail(a, reg, sched) {
                Err(e) => Err(e),
                Ok(()) => check_avail(b, reg, sched),
            }
        },
    }
}

/// At most one level is the availability level of a name.
pub proof fn lemma_avail_unique(ds: Seq<DatatypeDecl>, fs: Seq<FilterDecl>, w: Seq<u8>)
    ensures
        forall|l1: Level, l2: Level|
            avail_is(ds, fs, w, l1) && avail_is(ds, fs, w, l2) ==> l1 == l2,
{
    assert forall|l1: Level, l2: Level|
        avail_is(ds, fs, w, l1) && avail_is(ds, fs, w, l2) implies l1 == l2 by {
        if first_dt_avail(ds, w, l1) && first_dt_avail(ds, w, l2) {
            let i1 = choose|i: int|
                0 <= i < ds.len() && (#[trigger] ds[i]).name@ == w && ds[i].avail == l1 && (
                forall|k: int| 0 <= k < i ==> (#[trigger] ds[k]).name@ != w);
            let i2 = choose|i: int|
                0 <= i < ds.len() && (#[trigger] ds[i]).name@ == w && ds[i].avail == l2 && (
                forall|k: int| 0 <= k < i ==> (#[trigger] ds[k]).name@ != w);
            assert(i1 == i2);
        } else if first_dt_avail(ds, w, l1) || first_dt_avail(ds, w, l2) {
            // one side found a datatype, the other denies any datatype
            // of the name: impossible
            assert(false);
        } else {
            let i1 = choose|i: int|
                0 <= i < fs.len() && (#[trigger] fs[i]).name@ == w && fs[i].level == l1 && (
                forall|k: int| 0 <= k < i ==> (#[trigger] fs[k]).name@ != w);
            let i2 = choose|i: int|
                0 <= i < fs.len() && (#[trigger] fs[i]).name@ == w && fs[i].level == l2 && (
                forall|k: int| 0 <= k < i ==> (#[trigger] fs[k]).name@ != w);
            assert(i1 == i2);
        }
    }
}


// ---------------------------------------------------------------------
// Datatype dependencies and level inference
// ---------------------------------------------------------------------

/// The named datatype is declared and available no later than `sched`.
pub open spec fn dt_dep_ok(ds: Seq<DatatypeDecl>, w: Seq<u8>, sched: Level) -> bool {
    exists|l: Level| first_dt_avail(ds, w, l) && l.ord() <= sched.ord()
}

/// Every datatype a callback consumes is available by `sched`.
pub open spec fn cb_dts_ok(ds: Seq<DatatypeDecl>, names: Seq<Vec<u8>>, sched: Level) -> bool {
    forall|j: int| 0 <= j < names.len() ==> dt_dep_ok(ds, (#[trigger] names[j])@, sched)
}

/// Check a callback's datatype dependencies against its level.
fn check_dts(reg: &Registry, names: &Vec<Vec<u8>>, sched: Level) -> (r: Result<(), BuildError>)
    ensures
        r is Ok <==> cb_dts_ok(reg.datatypes@, names@, sched),
        r matches Err(e) ==> match e {
            BuildError::UnresolvedAtom(w) => (exists|j: int|
                0 <= j < names@.len() && (#[trigger] names@[j])@ == w@) && !dt_declared(
                reg.datatypes@,
                w@,
            ),
            BuildError::LevelMismatch { name, available, scheduled } => (exists|j: int|
                0 <= j < names@.len() && (#[trigger] names@[j])@ == name@) && first_dt_avail(
                reg.datatypes@,
                name@,
                available,
            ) && available.ord() > sched.ord() && scheduled == sched,
            _ => false,
        },
{
    let n = names.len();
    let mut j: usize = 0;
    while j < n
        invariant
            j <= n,
            n == names@.len(),
            forall|k: int| 0 <= k < j ==> dt_dep_ok(reg.datatypes@, (#[trigger] names@[k])@, sched),
        decreases n - j,
    {
        match reg.find_datatype(names[j].as_slice()) {
            None => {
                return Err(BuildError::UnresolvedAtom(clone_bytes(&names[j])));
            },
            Some(i) => {
                let l = reg.datatypes[i].avail;
                proof {
                    assert(first_dt_avail(reg.datatypes@, names@[j as int]@, l));
                }
                if !l.le(sched) {
                    proof {
                        lemma_first_dt_unique(reg.datatypes@, names@[j as int]@);
                        assert forall|l2: Level|
                            first_dt_avail(reg.datatypes@, names@[j as int]@, l2)
                                && l2.ord() <= sched.ord() implies false by {
                            assert(l2 == l);
                        }
                    }
                    return Err(
                        BuildError::LevelMismatch {
                            name: clone_bytes(&names[j]),
                            available: l,
                            scheduled: sched,
                        },
                    );
                }
                proof {
                    assert(dt_dep_ok(reg.datatypes@, names@[j as int]@, sched));
                }
            },
        }
        j = j + 1;
    }
    Ok(())
}

/// At most one level is the first-declared availability of a datatype.
pub proof fn lemma_first_dt_unique(ds: Seq<DatatypeDecl>, w: Seq<u8>)
    ensures
        forall|l1: Level, l2: Level|
            first_dt_avail(ds, w, l1) && first_dt_avail(ds, w, l2) ==> l1 == l2,
{
    assert forall|l1: Level, l2: Level|
        first_dt_avail(ds, w, l1) && first_dt_avail(ds, w, l2) implies l1 == l2 by {
        let i1 = choose|i: int|
            0 <= i < ds.len() && (#[trigger] ds[i]).name@ == w && ds[i].avail == l1 && (forall|
                k: int,
            | 0 <= k < i ==> (#[trigger] ds[k]).name@ != w);
        let i2 = choose|i: int|
            0 <= i < ds.len() && (#[trigger] ds[i]).name@ == w && ds[i].avail == l2 && (forall|
                k: int,
            | 0 <= k < i ==> (#[trigger] ds[k]).name@ != w);
        assert(i1 == i2);
    }
}

/// The tree has a dependency whose availability level is exactly `l`.
pub open spec fn pred_needs(
    p: PredView,
    ps: Seq<ProtocolDecl>,
    ds: Seq<DatatypeDecl>,
    fs: Seq<FilterDecl>,
    l: Level,
) -> bool
    decreases p,
{
    match p {
        PredView::Atom(w) => !proto_declared(ps, w) && avail_is(ds, fs, w, l),
        PredView::FileAtom(_) => false,
        PredView::Not(a) => pred_needs(*a, ps, ds, fs, l),
        PredView::And(a, b) => pred_needs(*a, ps, ds, fs, l) || pred_needs(*b, ps, ds, fs, l),
        PredView::Or(a, b) => pred_needs(*a, ps, ds, fs, l) || pred_needs(*b, ps, ds, fs, l),
    }
}

/// Some consumed datatype's availability level is exactly `l`.
pub open spec fn dts_need(ds: Seq<DatatypeDecl>, names: Seq<Vec<u8>>, l: Level) -> bool {
    exists|j: int| 0 <= j < names.len() && first_dt_avail(ds, (#[trigger] names[j])@, l)
}

/// Availability at a level carries to every later level.
pub proof fn lemma_avail_ok_mono(
    p: PredView,
    ps: Seq<ProtocolDecl>,
    ds: Seq<DatatypeDecl>,
    fs: Seq<FilterDecl>,
    l1: Level,
    l2: Level,
)
    requires
        pred_avail_ok(p, ps, ds, fs, l1),
        l1.ord() <= l2.ord(),
    ensures
        pred_avail_ok(p, ps, ds, fs, l2),
    decreases p,
{
    match p {
        PredView::Atom(w) => {},
        PredView::FileAtom(_) => {},
        PredView::Not(a) => lemma_avail_ok_mono(*a, ps, ds, fs, l1, l2),
        PredView::And(a, b) => {
            lemma_avail_ok_mono(*a, ps, ds, fs, l1, l2);
            lemma_avail_ok_mono(*b, ps, ds, fs, l1, l2);
        },
        PredView::Or(a, b) => {
            lemma_avail_ok_mono(*a, ps, ds, fs, l1, l2);
            lemma_avail_ok_mono(*b, ps, ds, fs, l1, l2);
        },
    }
}

/// The latest availability level among the tree's dependencies:
/// the level the tree can first be scheduled at.
fn tree_max_avail(p: &Pred, reg: &Registry) -> (r: Result<Level, BuildError>)
    ensures
        r is Ok <==> pred_resolved(p@, reg.protocols@, reg.datatypes@, reg.filters@),
        r matches Ok(l) ==> pred_avail_ok(p@, reg.protocols@, reg.datatypes@, reg.filters@, l)
            && (l == Level::L4FirstPacket || pred_needs(
            p@,
            reg.protocols@,
            reg.datatypes@,
            reg.filters@,
            l,
        )),
        r matches Err(e) ==> match e {
            BuildError::UnresolvedAtom(w) => pred_mentions(p@, w@) && !atom_resolved(
                reg.protocols@,
                reg.datatypes@,
                reg.filters@,
                w@,
            ),
            _ => false,
        },
    decreases p,
{
    match p {
        Pred::Atom(w) => {
            if reg.find_protocol(w.as_slice()).is_some() {
                return Ok(Level::L4FirstPacket);
            }
            match avail_of(reg, w.as_slice()) {
                Some(l) => Ok(l),
                None => Err(BuildError::UnresolvedAtom(clone_bytes(w))),
            }
        },
        Pred::FileAtom(_) => Ok(Level::L4FirstPacket),
        Pred::Not(a) => tree_max_avail(a, reg),
        Pred::And(a, b) => {
            match tree_max_avail(a, reg) {
                Err(e) => Err(e),
                Ok(la) => match tree_max_avail(b, reg) {
                    Err(e) => Err(e),
                    Ok(lb) => {
                        let m = if la.le(lb) {
                            lb
                        } else {
                            la
                        };
                        proof {
                            lemma_avail_ok_mono(
                                a@,
                                reg.protocols@,
                                reg.datatypes@,
                                reg.filters@,
                                la,
                                m,
                            );
                            lemma_avail_ok_mono(
                                b@,
                                reg.protocols@,
                                reg.datatypes@,
                                reg.filters@,
                                lb,
                                m,
                            );
                        }
                        Ok(m)
                    },
                },
            }
        },
        Pred::Or(a, b) => {
            match tree_max_avail(a, reg) {
                Err(e) => Err(e),
                Ok(la) => match tree_max_avail(b, reg) {
                    Err(e) => Err(e),
                    Ok(lb) => {
                        let m = if la.le(lb) {
                            lb
                        } else {
                            la
                        };
                        proof {
                            lemma_avail_ok_mono(
                                a@,
                                reg.protocols@,
                                reg.datatypes@,
                                reg.filters@,
                                la,
                                m,
                            );
                            lemma_avail_ok_mono(
                                b@,
                                reg.protocols@,
                                reg.datatypes@,
                                reg.filters@,
                                lb,
                                m,
                            );
                        }
                        Ok(m)
                    },
                },
            }
        },
    }
}

/// Infer the level of a callback that declares none: the latest
/// availability level among its predicate's dependencies and the
/// datatypes it consumes.
fn infer_level(p: &Pred, names: &Vec<Vec<u8>>, reg: &Registry) -> (r: Result<Level, BuildError>)
    ensures
        r is Ok <==> pred_resolved(p@, reg.protocols@, reg.datatypes@, reg.filters@) && (forall|
            j: int,
        | 0 <= j < names@.len() ==> dt_declared(reg.datatypes@, (#[trigger] names@[j])@)),
        r matches Ok(l) ==> pred_avail_ok(p@, reg.protocols@, reg.datatypes@, reg.filters@, l)
            && cb_dts_ok(reg.datatypes@, names@, l) && (l == Level::L4FirstPacket || pred_needs(
            p@,
            reg.protocols@,
            reg.datatypes@,
            reg.filters@,
            l,
        ) || dts_need(reg.datatypes@, names@, l)),
        r matches Err(e) ==> match e {
            BuildError::UnresolvedAtom(w) => pred_mentions(p@, w@) && !atom_resolved(
                reg.protocols@,
                reg.datatypes@,
                reg.filters@,
                w@,
            ) || (exists|j: int|
                0 <= j < names@.len() && (#[trigger] names@[j])@ == w@) && !dt_declared(
                reg.datatypes@,
                w@,
            ),
            _ => false,
        },
{
    let base = match tree_max_avail(p, reg) {
        Err(e) => {
            return Err(e);
        },
        Ok(l) => l,
    };
    let mut m = base;
    let n = names.len();
    let mut j: usize = 0;
    while j < n
        invariant
            j <= n,
            n == names@.len(),
            pred_avail_ok(p@, reg.protocols@, reg.datatypes@, reg.filters@, m),
            m == Level::L4FirstPacket || pred_needs(
                p@,
                reg.protocols@,
                reg.datatypes@,
                reg.filters@,
                m,
            ) || dts_need(reg.datatypes@, names@, m),
            forall|k: int| 0 <= k < j ==> dt_dep_ok(reg.datatypes@, (#[trigger] names@[k])@, m),
            forall|k: int| 0 <= k < j ==> dt_declared(reg.datatypes@, (#[trigger] names@[k])@),
        decreases n - j,
    {
        match reg.find_datatype(names[j].as_slice()) {
            None => {
                return Err(BuildError::UnresolvedAtom(clone_bytes(&names[j])));
            },
            Some(i) => {
                let l = reg.datatypes[i].avail;
                proof {
                    assert(first_dt_avail(reg.datatypes@, names@[j as int]@, l));
                    assert(dt_declared(reg.datatypes@, names@[j as int]@));
                }
                if !l.le(m) {
                    proof {
                        lemma_avail_ok_mono(
                            p@,
                            reg.protocols@,
                            reg.datatypes@,
                            reg.filters@,
                            m,
                            l,
                        );
                        assert forall|k: int| 0 <= k < j + 1 implies dt_dep_ok(
                            reg.datatypes@,
                            (#[trigger] names@[k])@,
                            l,
                        ) by {
                            if k < j {
                                assert(dt_dep_ok(reg.datatypes@, names@[k]@, m));
                                let lk = choose|lk: Level|
                                    first_dt_avail(reg.datatypes@, names@[k]@, lk) && lk.ord()
                                        <= m.ord();
                                assert(first_dt_avail(reg.datatypes@, names@[k]@, lk));
                                assert(lk.ord() <= l.ord());
                            } else {
                                assert(first_dt_avail(reg.datatypes@, names@[k]@, l));
                            }
                        }
                        assert(dts_need(reg.datatypes@, names@, l));
                    }
                    m = l;
                } else {
                    proof {
                        assert(dt_dep_ok(reg.datatypes@, names@[j as int]@, m));
                    }
                }
            },
        }
        j = j + 1;
    }
    Ok(m)
}


// ---------------------------------------------------------------------
// The compiled subscription
// ---------------------------------------------------------------------

/// A filter gate wired into one level's program.
#[derive(Debug)]
pub struct CompiledFilter {
    /// Index of the filter's declaration in the registry.
    pub src: usize,
    /// The filter's predicate, lowered onto the atom table.
    pub node: Node,
}

/// A callback wired into one level's program.
#[derive(Debug)]
pub struct CompiledCallback {
    /// The callback's index: its declaration in the registry, and its
    /// bit in the matched-callback mask.
    pub cb: usize,
    /// The callback's predicate, lowered onto the atom table.
    pub node: Node,
}

/// The shared decision structure of one level: the filter gates and
/// the callbacks evaluated when a connection reaches the level.
#[derive(Debug)]
pub struct LevelProgram {
    /// The filter gates, in declaration order.
    pub filters: Vec<CompiledFilter>,
    /// The callbacks, in declaration order.
    pub callbacks: Vec<CompiledCallback>,
}

/// The level at the given position of the total order (clamped to the
/// last level).
pub open spec fn ord_level(i: int) -> Level {
    if i == 0 {
        Level::L4FirstPacket
    } else if i == 1 {
        Level::L4InPayload
    } else if i == 2 {
        Level::L7OnDisc
    } else if i == 3 {
        Level::L7EndHdrs
    } else {
        Level::L4Terminated
    }
}

/// A level is recovered from its position.
pub proof fn lemma_ord_level_inverse(l: Level)
    ensures
        ord_level(l.ord()) == l,
{
}

/// The whole compiled subscription: the shared atom table, one program
/// per level, and per-callback metadata.
#[derive(Debug)]
pub struct CompiledSubscription {
    /// Every atom of every wired predicate, each exactly once.
    pub atom_table: Vec<AtomKey>,
    /// One decision program per level, indexed by the level's position.
    pub programs: Vec<LevelProgram>,
    /// How many callbacks are wired; callback indices are below this.
    pub n_callbacks: usize,
    /// Whether each callback is streaming.
    pub streaming: Vec<bool>,
    /// Each callback's effective level: as declared, or inferred from
    /// its dependencies.
    pub cb_level: Vec<Level>,
}

impl CompiledSubscription {
    /// Internal consistency: five programs, a duplicate-free atom
    /// table, every tree well-formed over the table, every callback
    /// index in range, and each level's callback entries in strictly
    /// increasing callback order (so no callback appears twice in one
    /// level's pass).
    pub open spec fn wf(self) -> bool {
        &&& self.programs@.len() == 5
        &&& distinct_keys(table_view(self.atom_table@))
        &&& self.streaming@.len() == self.n_callbacks
        &&& self.cb_level@.len() == self.n_callbacks
        &&& forall|l: int, k: int|
            #![trigger self.programs@[l].filters@[k]]
            0 <= l < self.programs@.len() && 0 <= k < self.programs@[l].filters@.len()
                ==> node_wf(self.programs@[l].filters@[k].node, self.atom_table@.len() as nat)
        &&& forall|l: int, k: int|
            #![trigger self.programs@[l].callbacks@[k]]
            0 <= l < self.programs@.len() && 0 <= k < self.programs@[l].callbacks@.len()
                ==> node_wf(self.programs@[l].callbacks@[k].node, self.atom_table@.len() as nat)
                    && self.programs@[l].callbacks@[k].cb < self.n_callbacks
        &&& forall|l: int, k1: int, k2: int|
            #![trigger self.programs@[l].callbacks@[k1], self.programs@[l].callbacks@[k2]]
            0 <= l < self.programs@.len() && 0 <= k1 < k2 < self.programs@[l].callbacks@.len()
                ==> self.programs@[l].callbacks@[k1].cb < self.programs@[l].callbacks@[k2].cb
    }
}

/// Whether a streaming callback has declared per-level hooks.
pub open spec fn cb_has_hooks(cfns: Seq<GroupFn>, name: Seq<u8>) -> bool {
    exists|i: int| 0 <= i < cfns.len() && (#[trigger] cfns[i]).owner@ == name
}

/// The levels a callback runs at: a streaming callback with hooks runs
/// at its hook levels; every other callback runs at its effective
/// level.
pub open spec fn cb_scheduled_at(
    cbs: Seq<CallbackDecl>,
    cfns: Seq<GroupFn>,
    levels: Seq<Level>,
    c: int,
    l: Level,
) -> bool {
    if cbs[c].streaming && cb_has_hooks(cfns, cbs[c].name@) {
        hooked_at(cfns, cbs[c].name@, l)
    } else {
        levels[c] == l
    }
}

/// The effective level recorded for a callback is its declared level,
/// or, when none was declared, the latest availability level of its
/// dependencies.
pub open spec fn cb_level_ok(
    ps: Seq<ProtocolDecl>,
    ds: Seq<DatatypeDecl>,
    fs: Seq<FilterDecl>,
    cbs: Seq<CallbackDecl>,
    c: int,
    l: Level,
) -> bool {
    match cbs[c].level {
        Some(d) => l == d,
        None => pred_avail_ok(cbs[c].tree@, ps, ds, fs, l) && cb_dts_ok(
            ds,
            cbs[c].datatypes@,
            l,
        ) && (l == Level::L4FirstPacket || pred_needs(cbs[c].tree@, ps, ds, fs, l) || dts_need(
            ds,
            cbs[c].datatypes@,
            l,
        )),
    }
}

/// Whether a callback is wired into the program of the given level.
fn is_scheduled(reg: &Registry, levels: &Vec<Level>, c: usize, l: Level) -> (r: bool)
    requires
        c < reg.callbacks@.len(),
        c < levels@.len(),
    ensures
        r == cb_scheduled_at(reg.callbacks@, reg.callback_fns@, levels@, c as int, l),
{
    let name = reg.callbacks[c].name.as_slice();
    let has_hooks = group_has_owner(&reg.callback_fns, name);
    if reg.callbacks[c].streaming && has_hooks {
        Registry::group_hooked_at(&reg.callback_fns, name, l)
    } else {
        levels[c] == l
    }
}

/// Whether any group function names this owner.
pub fn group_has_owner(fns: &Vec<GroupFn>, owner: &[u8]) -> (r: bool)
    ensures
        r == cb_has_hooks(fns@, owner@),
{
    let n = fns.len();
    let mut i: usize = 0;
    while i < n
        invariant
            i <= n,
            n == fns@.len(),
            forall|k: int| 0 <= k < i ==> (#[trigger] fns@[k]).owner@ != owner@,
        decreases n - i,
    {
        if bytes_eq(fns[i].owner.as_slice(), owner) {
            return true;
        }
        i = i + 1;
    }
    false
}

/// Everything compilation checks: every group function matched, every
/// predicate resolved, and every declared level no earlier than its
/// dependencies' availability.  Compilation succeeds exactly when this
/// holds.
pub open spec fn compile_ok(reg: Registry) -> bool {
    &&& forall|i: int|
        0 <= i < reg.datatype_fns@.len() ==> dt_declared(
            reg.datatypes@,
            (#[trigger] reg.datatype_fns@[i]).owner@,
        )
    &&& forall|i: int|
        0 <= i < reg.filter_fns@.len() ==> filter_declared(
            reg.filters@,
            (#[trigger] reg.filter_fns@[i]).owner@,
        )
    &&& forall|i: int|
        0 <= i < reg.callback_fns@.len() ==> cb_declared(
            reg.callbacks@,
            (#[trigger] reg.callback_fns@[i]).owner@,
        )
    &&& forall|i: int|
        0 <= i < reg.filters@.len() ==> pred_resolved(
            (#[trigger] reg.filters@[i]).tree@,
            reg.protocols@,
            reg.datatypes@,
            reg.filters@,
        ) && pred_avail_ok(
            reg.filters@[i].tree@,
            reg.protocols@,
            reg.datatypes@,
            reg.filters@,
            reg.filters@[i].level,
        )
    &&& forall|c: int|
        0 <= c < reg.callbacks@.len() ==> {
            &&& pred_resolved(
                (#[trigger] reg.callbacks@[c]).tree@,
                reg.protocols@,
                reg.datatypes@,
                reg.filters@,
            )
            &&& forall|j: int|
                0 <= j < reg.callbacks@[c].datatypes@.len() ==> dt_declared(
                    reg.datatypes@,
                    (#[trigger] reg.callbacks@[c].datatypes@[j])@,
                )
            &&& match reg.callbacks@[c].level {
                Some(l) => pred_avail_ok(
                    reg.callbacks@[c].tree@,
                    reg.protocols@,
                    reg.datatypes@,
                    reg.filters@,
                    l,
                ) && cb_dts_ok(reg.datatypes@, reg.callbacks@[c].datatypes@, l),
                None => true,
            }
        }
}

/// A wired filter entry is sound for its level.
pub open spec fn filter_entry_ok(
    e: CompiledFilter,
    regf: Seq<FilterDecl>,
    lord: int,
    tab: Seq<AtomKeyView>,
) -> bool {
    &&& e.src < regf.len()
    &&& regf[e.src as int].level.ord() == lord
    &&& lowers_to(regf[e.src as int].tree@, e.node, tab)
    &&& node_wf(e.node, tab.len() as nat)
}

/// A wired callback entry is sound.
pub open spec fn cb_entry_ok(e: CompiledCallback, cbs: Seq<CallbackDecl>, tab: Seq<
    AtomKeyView,
>) -> bool {
    &&& e.cb < cbs.len()
    &&& lowers_to(cbs[e.cb as int].tree@, e.node, tab)
    &&& node_wf(e.node, tab.len() as nat)
}

/// The compiled subscription carries exactly the registered
/// subscription: every program entry lowers the predicate of a
/// declaration scheduled at its level, and every declaration is wired
/// into the program of each level it is scheduled at.
pub open spec fn compiled_from(reg: Registry, cs: CompiledSubscription) -> bool {
    &&& cs.n_callbacks == reg.callbacks@.len()
    &&& forall|c: int|
        0 <= c < cs.n_callbacks ==> (#[trigger] cs.streaming@[c]) == reg.callbacks@[c].streaming
    &&& forall|c: int|
        0 <= c < cs.n_callbacks ==> cb_level_ok(
            reg.protocols@,
            reg.datatypes@,
            reg.filters@,
            reg.callbacks@,
            c,
            #[trigger] cs.cb_level@[c],
        )
    &&& forall|l: int, k: int|
        #![trigger cs.programs@[l].filters@[k]]
        0 <= l < cs.programs@.len() && 0 <= k < cs.programs@[l].filters@.len()
            ==> filter_entry_ok(
            cs.programs@[l].filters@[k],
            reg.filters@,
            l,
            table_view(cs.atom_table@),
        )
    &&& forall|i: int|
        0 <= i < reg.filters@.len() ==> exists|k: int|
            0 <= k < cs.programs@[(#[trigger] reg.filters@[i]).level.ord()].filters@.len()
                && cs.programs@[reg.filters@[i].level.ord()].filters@[k].src == i
    &&& forall|l: int, k: int|
        #![trigger cs.programs@[l].callbacks@[k]]
        0 <= l < cs.programs@.len() && 0 <= k < cs.programs@[l].callbacks@.len() ==> cb_entry_ok(
            cs.programs@[l].callbacks@[k],
            reg.callbacks@,
            table_view(cs.atom_table@),
        ) && cb_scheduled_at(
            reg.callbacks@,
            reg.callback_fns@,
            cs.cb_level@,
            cs.programs@[l].callbacks@[k].cb as int,
            ord_level(l),
        )
    &&& forall|c: int, l: int|
        0 <= c < reg.callbacks@.len() && 0 <= l < cs.programs@.len() && cb_scheduled_at(
            reg.callbacks@,
            reg.callback_fns@,
            cs.cb_level@,
            c,
            ord_level(l),
        ) ==> exists|k: int|
            0 <= k < cs.programs@[l].callbacks@.len()
                && (#[trigger] cs.programs@[l].callbacks@[k]).cb == c
}

/// Entry soundness is stable under growing the table at its end.
proof fn lemma_entries_extend(
    fv: Seq<CompiledFilter>,
    cv: Seq<CompiledCallback>,
    regf: Seq<FilterDecl>,
    cbs: Seq<CallbackDecl>,
    lord: int,
    t1: Seq<AtomKeyView>,
    t2: Seq<AtomKeyView>,
)
    requires
        t1.len() <= t2.len(),
        forall|j: int| 0 <= j < t1.len() ==> t1[j] == t2[j],
        forall|k: int| 0 <= k < fv.len() ==> filter_entry_ok(#[trigger] fv[k], regf, lord, t1),
        forall|k: int| 0 <= k < cv.len() ==> cb_entry_ok(#[trigger] cv[k], cbs, t1),
    ensures
        forall|k: int| 0 <= k < fv.len() ==> filter_entry_ok(#[trigger] fv[k], regf, lord, t2),
        forall|k: int| 0 <= k < cv.len() ==> cb_entry_ok(#[trigger] cv[k], cbs, t2),
{
    assert forall|k: int| 0 <= k < fv.len() implies filter_entry_ok(
        #[trigger] fv[k],
        regf,
        lord,
        t2,
    ) by {
        lemma_lowers_to_extend(regf[fv[k].src as int].tree@, fv[k].node, t1, t2);
        lemma_node_wf_mono(fv[k].node, t1.len() as nat, t2.len() as nat);
    }
    assert forall|k: int| 0 <= k < cv.len() implies cb_entry_ok(#[trigger] cv[k], cbs, t2) by {
        lemma_lowers_to_extend(cbs[cv[k].cb as int].tree@, cv[k].node, t1, t2);
        lemma_node_wf_mono(cv[k].node, t1.len() as nat, t2.len() as nat);
    }
}

/// Soundness of whole built programs is stable under growing the table.
proof fn lemma_programs_extend(
    progs: Seq<LevelProgram>,
    regf: Seq<FilterDecl>,
    cbs: Seq<CallbackDecl>,
    t1: Seq<AtomKeyView>,
    t2: Seq<AtomKeyView>,
)
    requires
        t1.len() <= t2.len(),
        forall|j: int| 0 <= j < t1.len() ==> t1[j] == t2[j],
        forall|l: int, k: int|
            #![trigger progs[l].filters@[k]]
            0 <= l < progs.len() && 0 <= k < progs[l].filters@.len() ==> filter_entry_ok(
                progs[l].filters@[k],
                regf,
                l,
                t1,
            ),
        forall|l: int, k: int|
            #![trigger progs[l].callbacks@[k]]
            0 <= l < progs.len() && 0 <= k < progs[l].callbacks@.len() ==> cb_entry_ok(
                progs[l].callbacks@[k],
                cbs,
                t1,
            ),
    ensures
        forall|l: int, k: int|
            #![trigger progs[l].filters@[k]]
            0 <= l < progs.len() && 0 <= k < progs[l].filters@.len() ==> filter_entry_ok(
                progs[l].filters@[k],
                regf,
                l,
                t2,
            ),
        forall|l: int, k: int|
            #![trigger progs[l].callbacks@[k]]
            0 <= l < progs.len() && 0 <= k < progs[l].callbacks@.len() ==> cb_entry_ok(
                progs[l].callbacks@[k],
                cbs,
                t2,
            ),
{
    assert forall|l: int, k: int|
        #![trigger progs[l].filters@[k]]
        0 <= l < progs.len() && 0 <= k < progs[l].filters@.len() implies filter_entry_ok(
        progs[l].filters@[k],
        regf,
        l,
        t2,
    ) by {
        lemma_entries_extend(progs[l].filters@, Seq::empty(), regf, cbs, l, t1, t2);
    }
    assert forall|l: int, k: int|
        #![trigger progs[l].callbacks@[k]]
        0 <= l < progs.len() && 0 <= k < progs[l].callbacks@.len() implies cb_entry_ok(
        progs[l].callbacks@[k],
        cbs,
        t2,
    ) by {
        lemma_entries_extend(Seq::empty(), progs[l].callbacks@, regf, cbs, l, t1, t2);
    }
}


/// Consumed datatypes that are available at a level are declared.
proof fn lemma_dts_ok_declared(ds: Seq<DatatypeDecl>, names: Seq<Vec<u8>>, l: Level)
    requires
        cb_dts_ok(ds, names, l),
    ensures
        forall|j: int| 0 <= j < names.len() ==> dt_declared(ds, (#[trigger] names[j])@),
{
    assert forall|j: int| 0 <= j < names.len() implies dt_declared(
        ds,
        (#[trigger] names[j])@,
    ) by {
        assert(dt_dep_ok(ds, names[j]@, l));
        let lx = choose|lx: Level| first_dt_avail(ds, names[j]@, lx) && lx.ord() <= l.ord();
        assert(first_dt_avail(ds, names[j]@, lx));
        let ix = choose|ix: int|
            0 <= ix < ds.len() && (#[trigger] ds[ix]).name@ == names[j]@ && ds[ix].avail == lx
                && (forall|k: int| 0 <= k < ix ==> (#[trigger] ds[k]).name@ != names[j]@);
        assert(0 <= ix < ds.len() && ds[ix].name@ == names[j]@);
    }
}

/// Every level stands below the count of levels.
pub proof fn lemma_ord_range(l: Level)
    ensures
        0 <= l.ord() < 5,
{
}

/// Distinct levels stand at distinct positions.
pub proof fn lemma_ord_injective(a: Level, b: Level)
    requires
        a.ord() == b.ord(),
    ensures
        a == b,
{
}

/// Compile the registered subscription into one shared decision
/// program per level.  The first declaration, in registration order,
/// whose checks fail decides the error.
pub fn compile(reg: &Registry) -> (r: Result<CompiledSubscription, BuildError>)
    ensures
        r matches Ok(cs) ==> cs.wf() && compiled_from(*reg, cs),
        r is Ok <==> compile_ok(*reg),
{
    match reg.finalize() {
        Err(e) => {
            return Err(e);
        },
        Ok(()) => {},
    }
    let nf = reg.filters.len();
    let nc = reg.callbacks.len();

    // Check every filter's atoms and level.
    let mut i: usize = 0;
    while i < nf
        invariant
            i <= nf,
            nf == reg.filters@.len(),
            forall|k: int|
                0 <= k < i ==> pred_resolved(
                    (#[trigger] reg.filters@[k]).tree@,
                    reg.protocols@,
                    reg.datatypes@,
                    reg.filters@,
                ) && pred_avail_ok(
                    reg.filters@[k].tree@,
                    reg.protocols@,
                    reg.datatypes@,
                    reg.filters@,
                    reg.filters@[k].level,
                ),
        decreases nf - i,
    {
        match check_resolved(&reg.filters[i].tree, reg) {
            Err(e) => {
                return Err(e);
            },
            Ok(()) => {},
        }
        match check_avail(&reg.filters[i].tree, reg, reg.filters[i].level) {
            Err(e) => {
                return Err(e);
            },
            Ok(()) => {},
        }
        i = i + 1;
    }

    // Check every callback and settle its effective level.
    let mut cb_levels: Vec<Level> = Vec::new();
    let mut streaming: Vec<bool> = Vec::new();
    let mut c: usize = 0;
    while c < nc
        invariant
            c <= nc,
            nc == reg.callbacks@.len(),
            cb_levels@.len() == c,
            streaming@.len() == c,
            forall|k: int|
                0 <= k < c ==> (#[trigger] streaming@[k]) == reg.callbacks@[k].streaming,
            forall|k: int|
                0 <= k < c ==> cb_level_ok(
                    reg.protocols@,
                    reg.datatypes@,
                    reg.filters@,
                    reg.callbacks@,
                    k,
                    #[trigger] cb_levels@[k],
                ),
            forall|k: int|
                0 <= k < c ==> pred_resolved(
                    (#[trigger] reg.callbacks@[k]).tree@,
                    reg.protocols@,
                    reg.datatypes@,
                    reg.filters@,
                ),
            forall|k: int, j: int|
                0 <= k < c && 0 <= j < (#[trigger] reg.callbacks@[k]).datatypes@.len()
                    ==> dt_declared(
                    reg.datatypes@,
                    (#[trigger] reg.callbacks@[k].datatypes@[j])@,
                ),
            forall|k: int|
                0 <= k < c ==> match (#[trigger] reg.callbacks@[k]).level {
                    Some(l) => pred_avail_ok(
                        reg.callbacks@[k].tree@,
                        reg.protocols@,
                        reg.datatypes@,
                        reg.filters@,
                        l,
                    ) && cb_dts_ok(reg.datatypes@, reg.callbacks@[k].datatypes@, l),
                    None => true,
                },
        decreases nc - c,
    {
        match check_resolved(&reg.callbacks[c].tree, reg) {
            Err(e) => {
                return Err(e);
            },
            Ok(()) => {},
        }
        let lv: Level;
        match reg.callbacks[c].level {
            Some(l) => {
                match check_avail(&reg.callbacks[c].tree, reg, l) {
                    Err(e) => {
                        return Err(e);
                    },
                    Ok(()) => {},
                }
                match check_dts(reg, &reg.callbacks[c].datatypes, l) {
                    Err(e) => {
                        return Err(e);
                    },
                    Ok(()) => {},
                }
                proof {
                    lemma_dts_ok_declared(reg.datatypes@, reg.callbacks@[c as int].datatypes@, l);
                }
                lv = l;
            },
            None => {
                match infer_level(&reg.callbacks[c].tree, &reg.callbacks[c].datatypes, reg) {
                    Err(e) => {
                        return Err(e);
                    },
                    Ok(l) => {
                        lv = l;
                    },
                }
            },
        }
        cb_levels.push(lv);
        streaming.push(reg.callbacks[c].streaming);
        c = c + 1;
    }

    // Assemble one program per level, interning every atom into the
    // shared table.
    let mut table: Vec<AtomKey> = Vec::new();
    let mut programs: Vec<LevelProgram> = Vec::new();
    let mut lvl: usize = 0;
    while lvl < 5
        invariant
            lvl <= 5,
            programs@.len() == lvl,
            nf == reg.filters@.len(),
            nc == reg.callbacks@.len(),
            cb_levels@.len() == nc,
            streaming@.len() == nc,
            distinct_keys(table_view(table@)),
            forall|l2: int, k: int|
                #![trigger programs@[l2].filters@[k]]
                0 <= l2 < lvl && 0 <= k < programs@[l2].filters@.len() ==> filter_entry_ok(
                    programs@[l2].filters@[k],
                    reg.filters@,
                    l2,
                    table_view(table@),
                ),
            forall|l2: int, k: int|
                #![trigger programs@[l2].callbacks@[k]]
                0 <= l2 < lvl && 0 <= k < programs@[l2].callbacks@.len() ==> cb_entry_ok(
                    programs@[l2].callbacks@[k],
                    reg.callbacks@,
                    table_view(table@),
                ) && cb_scheduled_at(
                    reg.callbacks@,
                    reg.callback_fns@,
                    cb_levels@,
                    programs@[l2].callbacks@[k].cb as int,
                    ord_level(l2),
                ),
            forall|l2: int, k1: int, k2: int|
                #![trigger programs@[l2].callbacks@[k1], programs@[l2].callbacks@[k2]]
                0 <= l2 < lvl && 0 <= k1 < k2 < programs@[l2].callbacks@.len()
                    ==> programs@[l2].callbacks@[k1].cb < programs@[l2].callbacks@[k2].cb,
            forall|i2: int|
                0 <= i2 < nf && (#[trigger] reg.filters@[i2]).level.ord() < lvl
                    ==> exists|k: int|
                    0 <= k < programs@[reg.filters@[i2].level.ord()].filters@.len()
                        && programs@[reg.filters@[i2].level.ord()].filters@[k].src == i2,
            forall|c2: int, l2: int|
                0 <= c2 < nc && 0 <= l2 < lvl && cb_scheduled_at(
                    reg.callbacks@,
                    reg.callback_fns@,
                    cb_levels@,
                    c2,
                    ord_level(l2),
                ) ==> exists|k: int|
                    0 <= k < programs@[l2].callbacks@.len()
                        && (#[trigger] programs@[l2].callbacks@[k]).cb == c2,
        decreases 5 - lvl,
    {
        let lv = match Level::from_index(lvl as u8) {
            Some(l) => l,
            None => {
                proof {
                    assert(false);
                }
                Level::L4Terminated
            },
        };
        proof {
            lemma_ord_level_inverse(lv);
        }

        // the filter gates of this level
        let mut fvec: Vec<CompiledFilter> = Vec::new();
        let mut fi: usize = 0;
        while fi < nf
            invariant
                fi <= nf,
                nf == reg.filters@.len(),
                nc == reg.callbacks@.len(),
                lvl < 5,
                programs@.len() == lvl,
                lv.ord() == lvl,
                distinct_keys(table_view(table@)),
                forall|k: int|
                    0 <= k < fvec@.len() ==> filter_entry_ok(
                        #[trigger] fvec@[k],
                        reg.filters@,
                        lvl as int,
                        table_view(table@),
                    ),
                forall|k: int| 0 <= k < fvec@.len() ==> (#[trigger] fvec@[k]).src < fi,
                forall|k1: int, k2: int|
                    0 <= k1 < k2 < fvec@.len() ==> (#[trigger] fvec@[k1]).src < (
                    #[trigger] fvec@[k2]).src,
                forall|i2: int|
                    0 <= i2 < fi && (#[trigger] reg.filters@[i2]).level.ord() == lvl
                        ==> exists|k: int|
                        0 <= k < fvec@.len() && (#[trigger] fvec@[k]).src == i2,
                forall|l2: int, k: int|
                    #![trigger programs@[l2].filters@[k]]
                    0 <= l2 < lvl && 0 <= k < programs@[l2].filters@.len() ==> filter_entry_ok(
                        programs@[l2].filters@[k],
                        reg.filters@,
                        l2,
                        table_view(table@),
                    ),
                forall|l2: int, k: int|
                    #![trigger programs@[l2].callbacks@[k]]
                    0 <= l2 < lvl && 0 <= k < programs@[l2].callbacks@.len() ==> cb_entry_ok(
                        programs@[l2].callbacks@[k],
                        reg.callbacks@,
                        table_view(table@),
                    ),
            decreases nf - fi,
        {
            if reg.filters[fi].level == lv {
                let ghost t_before = table@;
                let node = lower(&reg.filters[fi].tree, &mut table);
                proof {
                    assert forall|j: int|
                        0 <= j < table_view(t_before).len() implies table_view(t_before)[j]
                        == table_view(table@)[j] by {
                        assert(table_view(t_before)[j] == t_before[j]@);
                        assert(table_view(table@)[j] == table@[j]@);
                    }
                    lemma_entries_extend(
                        fvec@,
                        Seq::empty(),
                        reg.filters@,
                        reg.callbacks@,
                        lvl as int,
                        table_view(t_before),
                        table_view(table@),
                    );
                    lemma_programs_extend(
                        programs@,
                        reg.filters@,
                        reg.callbacks@,
                        table_view(t_before),
                        table_view(table@),
                    );
                }
                let ghost prevf = fvec@;
                fvec.push(CompiledFilter { src: fi, node });
                proof {
                    assert(reg.filters@[fi as int].level.ord() == lvl);
                    assert(filter_entry_ok(
                        fvec@.last(),
                        reg.filters@,
                        lvl as int,
                        table_view(table@),
                    ));
                    assert forall|i2: int|
                        0 <= i2 < fi + 1 && (#[trigger] reg.filters@[i2]).level.ord() == lvl
                            implies exists|k: int|
                        0 <= k < fvec@.len() && (#[trigger] fvec@[k]).src == i2 by {
                        if i2 == fi {
                            assert(fvec@[fvec@.len() - 1].src == i2);
                        } else {
                            let k0 = choose|k0: int|
                                0 <= k0 < prevf.len() && (#[trigger] prevf[k0]).src == i2;
                            assert(fvec@[k0].src == i2);
                        }
                    }
                }
            } else {
                proof {
                    if reg.filters@[fi as int].level.ord() == lvl {
                        lemma_ord_injective(reg.filters@[fi as int].level, lv);
                        assert(false);
                    }
                }
            }
            fi = fi + 1;
        }

        // the callbacks of this level
        let mut cvec: Vec<CompiledCallback> = Vec::new();
        let mut cc: usize = 0;
        while cc < nc
            invariant
                cc <= nc,
                nf == reg.filters@.len(),
                nc == reg.callbacks@.len(),
                cb_levels@.len() == nc,
                lvl < 5,
                programs@.len() == lvl,
                lv.ord() == lvl,
                ord_level(lvl as int) == lv,
                distinct_keys(table_view(table@)),
                forall|k: int|
                    0 <= k < fvec@.len() ==> filter_entry_ok(
                        #[trigger] fvec@[k],
                        reg.filters@,
                        lvl as int,
                        table_view(table@),
                    ),
                forall|i2: int|
                    0 <= i2 < nf && (#[trigger] reg.filters@[i2]).level.ord() == lvl
                        ==> exists|k: int|
                        0 <= k < fvec@.len() && (#[trigger] fvec@[k]).src == i2,
                forall|k: int|
                    0 <= k < cvec@.len() ==> cb_entry_ok(
                        #[trigger] cvec@[k],
                        reg.callbacks@,
                        table_view(table@),
                    ) && cb_scheduled_at(
                        reg.callbacks@,
                        reg.callback_fns@,
                        cb_levels@,
                        cvec@[k].cb as int,
                        lv,
                    ),
                forall|k: int| 0 <= k < cvec@.len() ==> (#[trigger] cvec@[k]).cb < cc,
                forall|k1: int, k2: int|
                    0 <= k1 < k2 < cvec@.len() ==> (#[trigger] cvec@[k1]).cb < (
                    #[trigger] cvec@[k2]).cb,
                forall|c2: int|
                    0 <= c2 < cc && cb_scheduled_at(
                        reg.callbacks@,
                        reg.callback_fns@,
                        cb_levels@,
                        c2,
                        lv,
                    ) ==> exists|k: int|
                        0 <= k < cvec@.len() && (#[trigger] cvec@[k]).cb == c2,
                forall|l2: int, k: int|
                    #![trigger programs@[l2].filters@[k]]
                    0 <= l2 < lvl && 0 <= k < programs@[l2].filters@.len() ==> filter_entry_ok(
                        programs@[l2].filters@[k],
                        reg.filters@,
                        l2,
                        table_view(table@),
                    ),
                forall|l2: int, k: int|
                    #![trigger programs@[l2].callbacks@[k]]
                    0 <= l2 < lvl && 0 <= k < programs@[l2].callbacks@.len() ==> cb_entry_ok(
                        programs@[l2].callbacks@[k],
                        reg.callbacks@,
                        table_view(table@),
                    ),
            decreases nc - cc,
        {
            if is_scheduled(reg, &cb_levels, cc, lv) {
                let ghost t_before = table@;
                let node = lower(&reg.callbacks[cc].tree, &mut table);
                proof {
                    assert forall|j: int|
                        0 <= j < table_view(t_before).len() implies table_view(t_before)[j]
                        == table_view(table@)[j] by {
                        assert(table_view(t_before)[j] == t_before[j]@);
                        assert(table_view(table@)[j] == table@[j]@);
                    }
                    lemma_entries_extend(
                        fvec@,
                        cvec@,
                        reg.filters@,
                        reg.callbacks@,
                        lvl as int,
                        table_view(t_before),
                        table_view(table@),
                    );
                    lemma_programs_extend(
                        programs@,
                        reg.filters@,
                        reg.callbacks@,
                        table_view(t_before),
                        table_view(table@),
                    );
                }
                let ghost prevc = cvec@;
                cvec.push(CompiledCallback { cb: cc, node });
                proof {
                    assert(cb_entry_ok(cvec@.last(), reg.callbacks@, table_view(table@)));
                    assert forall|c2: int|
                        0 <= c2 < cc + 1 && cb_scheduled_at(
                            reg.callbacks@,
                            reg.callback_fns@,
                            cb_levels@,
                            c2,
                            lv,
                        ) implies exists|k: int|
                        0 <= k < cvec@.len() && (#[trigger] cvec@[k]).cb == c2 by {
                        if c2 == cc {
                            assert(cvec@[cvec@.len() - 1].cb == c2);
                        } else {
                            let k0 = choose|k0: int|
                                0 <= k0 < prevc.len() && (#[trigger] prevc[k0]).cb == c2;
                            assert(cvec@[k0].cb == c2);
                        }
                    }
                }
            }
            cc = cc + 1;
        }

        let ghost fvg = fvec@;
        let ghost cvg = cvec@;
        let ghost prevp = programs@;
        programs.push(LevelProgram { filters: fvec, callbacks: cvec });
        proof {
            assert(programs@[lvl as int].filters@ == fvg);
            assert(programs@[lvl as int].callbacks@ == cvg);
            assert forall|l2: int| 0 <= l2 < lvl implies programs@[l2] == prevp[l2] by {}
            assert forall|l2: int, k: int|
                #![trigger programs@[l2].filters@[k]]
                0 <= l2 < lvl + 1 && 0 <= k < programs@[l2].filters@.len()
                    implies filter_entry_ok(
                programs@[l2].filters@[k],
                reg.filters@,
                l2,
                table_view(table@),
            ) by {
                if l2 == lvl {
                    assert(programs@[l2].filters@[k] == fvg[k]);
                } else {
                    assert(programs@[l2] == prevp[l2]);
                    assert(filter_entry_ok(
                        prevp[l2].filters@[k],
                        reg.filters@,
                        l2,
                        table_view(table@),
                    ));
                }
            }
            assert forall|l2: int, k: int|
                #![trigger programs@[l2].callbacks@[k]]
                0 <= l2 < lvl + 1 && 0 <= k < programs@[l2].callbacks@.len()
                    implies cb_entry_ok(
                programs@[l2].callbacks@[k],
                reg.callbacks@,
                table_view(table@),
            ) && cb_scheduled_at(
                reg.callbacks@,
                reg.callback_fns@,
                cb_levels@,
                programs@[l2].callbacks@[k].cb as int,
                ord_level(l2),
            ) by {
                if l2 == lvl {
                    assert(programs@[l2].callbacks@[k] == cvg[k]);
                } else {
                    assert(programs@[l2] == prevp[l2]);
                    assert(cb_entry_ok(prevp[l2].callbacks@[k], reg.callbacks@, table_view(table@))
                        && cb_scheduled_at(
                        reg.callbacks@,
                        reg.callback_fns@,
                        cb_levels@,
                        prevp[l2].callbacks@[k].cb as int,
                        ord_level(l2),
                    ));
                }
            }
            assert forall|l2: int, k1: int, k2: int|
                #![trigger programs@[l2].callbacks@[k1], programs@[l2].callbacks@[k2]]
                0 <= l2 < lvl + 1 && 0 <= k1 < k2 < programs@[l2].callbacks@.len()
                    implies programs@[l2].callbacks@[k1].cb < programs@[l2].callbacks@[k2].cb by {
                if l2 == lvl {
                    assert(programs@[l2].callbacks@[k1] == cvg[k1]);
                    assert(programs@[l2].callbacks@[k2] == cvg[k2]);
                } else {
                    assert(programs@[l2] == prevp[l2]);
                    assert(prevp[l2].callbacks@[k1].cb < prevp[l2].callbacks@[k2].cb);
                }
            }
            assert forall|i2: int|
                0 <= i2 < nf && (#[trigger] reg.filters@[i2]).level.ord() < lvl + 1
                    implies exists|k: int|
                0 <= k < programs@[reg.filters@[i2].level.ord()].filters@.len()
                    && programs@[reg.filters@[i2].level.ord()].filters@[k].src == i2 by {
                let lo = reg.filters@[i2].level.ord();
                if lo == lvl {
                    let k0 = choose|k0: int|
                        0 <= k0 < fvg.len() && (#[trigger] fvg[k0]).src == i2;
                    assert(programs@[lo].filters@[k0].src == i2);
                } else {
                    let k0 = choose|k0: int|
                        0 <= k0 < prevp[lo].filters@.len() && prevp[lo].filters@[k0].src == i2;
                    assert(programs@[lo].filters@[k0].src == i2);
                }
            }
            assert forall|c2: int, l2: int|
                0 <= c2 < nc && 0 <= l2 < lvl + 1 && cb_scheduled_at(
                    reg.callbacks@,
                    reg.callback_fns@,
                    cb_levels@,
                    c2,
                    ord_level(l2),
                ) implies exists|k: int|
                0 <= k < programs@[l2].callbacks@.len()
                    && (#[trigger] programs@[l2].callbacks@[k]).cb == c2 by {
                if l2 == lvl {
                    let k0 = choose|k0: int|
                        0 <= k0 < cvg.len() && (#[trigger] cvg[k0]).cb == c2;
                    assert(programs@[l2].callbacks@[k0].cb == c2);
                } else {
                    let k0 = choose|k0: int|
                        0 <= k0 < prevp[l2].callbacks@.len()
                            && (#[trigger] prevp[l2].callbacks@[k0]).cb == c2;
                    assert(programs@[l2].callbacks@[k0].cb == c2);
                }
            }
        }
        lvl = lvl + 1;
    }

    let ghost progsg = programs@;
    let cs = CompiledSubscription {
        atom_table: table,
        programs,
        n_callbacks: nc,
        streaming,
        cb_level: cb_levels,
    };
    proof {
        assert forall|l: Level| 0 <= #[trigger] l.ord() < 5 by {
            lemma_ord_range(l);
        }
        assert forall|i2: int| 0 <= i2 < reg.filters@.len() implies exists|k: int|
            0 <= k < cs.programs@[(#[trigger] reg.filters@[i2]).level.ord()].filters@.len()
                && cs.programs@[reg.filters@[i2].level.ord()].filters@[k].src == i2 by {
            lemma_ord_range(reg.filters@[i2].level);
            let lo = reg.filters@[i2].level.ord();
            let k0 = choose|k0: int|
                0 <= k0 < progsg[lo].filters@.len() && progsg[lo].filters@[k0].src == i2;
            assert(cs.programs@[lo].filters@[k0].src == i2);
        }
    }
    Ok(cs)
}


// ---------------------------------------------------------------------
// Running one level's program
// ---------------------------------------------------------------------

/// Some filter gate of the pass drops the connection.
pub open spec fn some_filter_drops(fs: Seq<CompiledFilter>, tr: Seq<FilterResult>) -> bool {
    exists|k: int|
        0 <= k < fs.len() && spec_eval((#[trigger] fs[k]).node, tr) is Drop
}

/// What one level pass decided: whether a filter dropped the
/// connection, and which callback entries matched.
#[derive(Debug)]
pub struct LevelVerdict {
    /// A filter gate yielded `Drop`: terminate the connection at once,
    /// without evaluating the level's callbacks.
    pub dropped: bool,
    /// Per callback entry of the program, whether its predicate
    /// accepted.  All false when the connection was dropped.
    pub matched: Vec<bool>,
}

/// Evaluate one level's shared program: the filter gates in order,
/// stopping at the first `Drop`, then, if no gate dropped, every
/// callback predicate.  All trees share the environment's memo, so
/// within the pass each atom's evaluator is invoked at most once.
pub fn run_level(prog: &LevelProgram, env: &mut AtomEnv) -> (r: LevelVerdict)
    requires
        old(env).wf(),
        forall|k: int|
            0 <= k < prog.filters@.len() ==> node_wf(
                (#[trigger] prog.filters@[k]).node,
                old(env).truth@.len() as nat,
            ),
        forall|k: int|
            0 <= k < prog.callbacks@.len() ==> node_wf(
                (#[trigger] prog.callbacks@[k]).node,
                old(env).truth@.len() as nat,
            ),
    ensures
        final(env).wf(),
        final(env).truth@ == old(env).truth@,
        final(env).memo@.len() == old(env).memo@.len(),
        final(env).calls@.len() == old(env).calls@.len(),
        r.dropped == some_filter_drops(prog.filters@, old(env).truth@),
        r.matched@.len() == prog.callbacks@.len(),
        !r.dropped ==> forall|k: int|
            0 <= k < prog.callbacks@.len() ==> r.matched@[k] == (spec_eval(
                (#[trigger] prog.callbacks@[k]).node,
                old(env).truth@,
            ) is Accept),
        r.dropped ==> forall|k: int| 0 <= k < r.matched@.len() ==> !(#[trigger] r.matched@[k]),
{
    let ghost tr = env.truth@;
    let nf = prog.filters.len();
    let mut i: usize = 0;
    let mut dropped = false;
    while i < nf && !dropped
        invariant
            i <= nf,
            nf == prog.filters@.len(),
            env.wf(),
            env.truth@ == tr,
            tr == old(env).truth@,
            env.memo@.len() == old(env).memo@.len(),
            env.calls@.len() == old(env).calls@.len(),
            forall|k: int|
                0 <= k < prog.filters@.len() ==> node_wf(
                    (#[trigger] prog.filters@[k]).node,
                    tr.len() as nat,
                ),
            !dropped ==> forall|k: int|
                0 <= k < i ==> !(spec_eval((#[trigger] prog.filters@[k]).node, tr) is Drop),
            dropped ==> some_filter_drops(prog.filters@, tr),
        decreases nf - i,
    {
        let v = eval_node(&prog.filters[i].node, env);
        if matches!(v, FilterResult::Drop) {
            dropped = true;
        }
        i = i + 1;
    }
    proof {
        if !dropped {
            assert(i == nf);
            assert(!some_filter_drops(prog.filters@, tr)) by {
                if some_filter_drops(prog.filters@, tr) {
                    let k = choose|k: int|
                        0 <= k < prog.filters@.len() && spec_eval(
                            (#[trigger] prog.filters@[k]).node,
                            tr,
                        ) is Drop;
                    assert(!(spec_eval(prog.filters@[k].node, tr) is Drop));
                }
            }
        }
    }
    let ncb = prog.callbacks.len();
    let mut matched: Vec<bool> = Vec::new();
    if dropped {
        let mut k: usize = 0;
        while k < ncb
            invariant
                k <= ncb,
                matched@.len() == k,
                forall|j: int| 0 <= j < k ==> !(#[trigger] matched@[j]),
            decreases ncb - k,
        {
            matched.push(false);
            k = k + 1;
        }
    } else {
        let mut k: usize = 0;
        while k < ncb
            invariant
                k <= ncb,
                ncb == prog.callbacks@.len(),
                matched@.len() == k,
                env.wf(),
                env.truth@ == tr,
                tr == old(env).truth@,
                env.memo@.len() == old(env).memo@.len(),
                env.calls@.len() == old(env).calls@.len(),
                forall|j: int|
                    0 <= j < prog.callbacks@.len() ==> node_wf(
                        (#[trigger] prog.callbacks@[j]).node,
                        tr.len() as nat,
                    ),
                forall|j: int|
                    0 <= j < k ==> matched@[j] == (spec_eval(
                        (#[trigger] prog.callbacks@[j]).node,
                        tr,
                    ) is Accept),
            decreases ncb - k,
        {
            let v = eval_node(&prog.callbacks[k].node, env);
            matched.push(matches!(v, FilterResult::Accept));
            k = k + 1;
        }
    }
    LevelVerdict { dropped, matched }
}

/// The standalone admission test of the first level, run before any
/// per-connection state exists: whether the first packet of a new flow
/// is admitted for tracking.
pub fn packet_admit(cs: &CompiledSubscription, env: &mut AtomEnv) -> (r: bool)
    requires
        cs.wf(),
        old(env).wf(),
        old(env).truth@.len() == cs.atom_table@.len(),
    ensures
        final(env).wf(),
        final(env).truth@ == old(env).truth@,
        r == !some_filter_drops(cs.programs@[0].filters@, old(env).truth@),
{
    let verdict = run_level(&cs.programs[0], env);
    !verdict.dropped
}

} // verus!
