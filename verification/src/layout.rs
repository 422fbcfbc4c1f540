//! The tracked-state aggregator: computes, from the wired
//! subscription, the union of per-connection state to carry, as one
//! combined record layout.
//!
//! A field of the layout is a referenced datatype, a stateful filter
//! (one with per-level update hooks), or a streaming callback.  Each
//! field records the levels at which its update hooks run; the
//! connection state machine dispatches updates from that.

use vstd::prelude::*;

use crate::compile::{cb_has_hooks, ord_level, table_view, AtomKeyView, CompiledSubscription};
use crate::level::Level;
use crate::registry::{hooked_at, GroupFn, Registry};

verus! {

/// What kind of declaration a layout field carries state for.
#[derive(Clone, Copy, Debug, PartialEq, Eq, Structural)]
pub enum FieldKind {
    /// A declared datatype referenced by the subscription.
    Datatype,
    /// A declared filter with per-level update hooks.
    FilterState,
    /// A streaming callback's own state.
    CallbackState,
}

/// One field of the combined per-connection record.
#[derive(Debug)]
pub struct FieldLayout {
    /// What the field carries state for.
    pub kind: FieldKind,
    /// The index of the declaration in its registry list.
    pub src: usize,
    /// The declaration's name.
    pub name: Vec<u8>,
    /// The protocol parsers the field needs (datatypes only).
    pub parsers: Vec<Vec<u8>>,
    /// For each level position, whether an update hook of the field
    /// runs at that level.
    pub hooks: Vec<bool>,
}

/// The combined per-connection record layout.
#[derive(Debug)]
pub struct TrackedLayout {
    /// The fields, datatypes first, then stateful filters, then
    /// streaming callbacks, each in declaration order.
    pub fields: Vec<FieldLayout>,
}

/// The views of a list of names.
pub open spec fn names_view(s: Seq<Vec<u8>>) -> Seq<Seq<u8>> {
    s.map_values(|v: Vec<u8>| v@)
}

/// A datatype is referenced by the subscription: its name is an atom
/// of some wired predicate, or some callback consumes it.
pub open spec fn dt_referenced(
    tabv: Seq<AtomKeyView>,
    cbs: Seq<crate::registry::CallbackDecl>,
    name: Seq<u8>,
) -> bool {
    ||| exists|id: int|
        0 <= id < tabv.len() && tabv[id] == (AtomKeyView { file: false, text: name })
    ||| exists|c: int, j: int|
        0 <= c < cbs.len() && 0 <= j < (#[trigger] cbs[c]).datatypes@.len() && (
        #[trigger] cbs[c].datatypes@[j])@ == name
}

/// The hook flags of a field are exactly the owner's hooks among the
/// given group functions.
pub open spec fn hooks_exact(hooks: Seq<bool>, fns: Seq<GroupFn>, owner: Seq<u8>) -> bool {
    &&& hooks.len() == 5
    &&& forall|l: int| 0 <= l < 5 ==> hooks[l] == hooked_at(fns, owner, ord_level(l))
}

/// A layout field is sound for the registry it was computed from.
pub open spec fn field_ok(f: FieldLayout, reg: Registry, tabv: Seq<AtomKeyView>) -> bool {
    match f.kind {
        FieldKind::Datatype => {
            &&& f.src < reg.datatypes@.len()
            &&& f.name@ == reg.datatypes@[f.src as int].name@
            &&& names_view(f.parsers@) == names_view(reg.datatypes@[f.src as int].parsers@)
            &&& dt_referenced(tabv, reg.callbacks@, f.name@)
            &&& hooks_exact(f.hooks@, reg.datatype_fns@, f.name@)
        },
        FieldKind::FilterState => {
            &&& f.src < reg.filters@.len()
            &&& f.name@ == reg.filters@[f.src as int].name@
            &&& f.parsers@.len() == 0
            &&& cb_has_hooks(reg.filter_fns@, f.name@)
            &&& hooks_exact(f.hooks@, reg.filter_fns@, f.name@)
        },
        FieldKind::CallbackState => {
            &&& f.src < reg.callbacks@.len()
            &&& f.name@ == reg.callbacks@[f.src as int].name@
            &&& f.parsers@.len() == 0
            &&& reg.callbacks@[f.src as int].streaming
            &&& hooks_exact(f.hooks@, reg.callback_fns@, f.name@)
        },
    }
}

/// The rank of a field kind in the layout's grouping order.
pub open spec fn kind_rank(k: FieldKind) -> int {
    match k {
        FieldKind::Datatype => 0,
        FieldKind::FilterState => 1,
        FieldKind::CallbackState => 2,
    }
}

/// The layout holds exactly the state the wired subscription needs.
pub open spec fn layout_from(lay: TrackedLayout, reg: Registry, tabv: Seq<AtomKeyView>) -> bool {
    &&& forall|k: int|
        0 <= k < lay.fields@.len() ==> field_ok(#[trigger] lay.fields@[k], reg, tabv)
    &&& forall|k1: int, k2: int|
        #![trigger lay.fields@[k1], lay.fields@[k2]]
        0 <= k1 < k2 < lay.fields@.len() ==> kind_rank(lay.fields@[k1].kind) < kind_rank(
            lay.fields@[k2].kind,
        ) || (lay.fields@[k1].kind == lay.fields@[k2].kind && lay.fields@[k1].src
            < lay.fields@[k2].src)
    &&& forall|i: int|
        0 <= i < reg.datatypes@.len() && dt_referenced(
            tabv,
            reg.callbacks@,
            (#[trigger] reg.datatypes@[i]).name@,
        ) ==> exists|k: int|
            0 <= k < lay.fields@.len() && (#[trigger] lay.fields@[k]).kind
                == FieldKind::Datatype && lay.fields@[k].src == i
    &&& forall|i: int|
        0 <= i < reg.filters@.len() && cb_has_hooks(
            reg.filter_fns@,
            (#[trigger] reg.filters@[i]).name@,
        ) ==> exists|k: int|
            0 <= k < lay.fields@.len() && (#[trigger] lay.fields@[k]).kind
                == FieldKind::FilterState && lay.fields@[k].src == i
    &&& forall|i: int|
        0 <= i < reg.callbacks@.len() && (#[trigger] reg.callbacks@[i]).streaming
            ==> exists|k: int|
            0 <= k < lay.fields@.len() && (#[trigger] lay.fields@[k]).kind
                == FieldKind::CallbackState && lay.fields@[k].src == i
}

/// The hook flags of an owner among the given group functions.
fn hooks_of(fns: &Vec<GroupFn>, owner: &[u8]) -> (r: Vec<bool>)
    ensures
        hooks_exact(r@, fns@, owner@),
{
    let mut r: Vec<bool> = Vec::new();
    let mut l: u8 = 0;
    while l < 5
        invariant
            l <= 5,
            r@.len() == l as int,
            forall|j: int| 0 <= j < l as int ==> r@[j] == hooked_at(fns@, owner@, ord_level(j)),
        decreases 5 - l,
    {
        let lv = match Level::from_index(l) {
            Some(x) => x,
            None => {
                proof {
                    assert(false);
                }
                Level::L4Terminated
            },
        };
        proof {
            crate::compile::lemma_ord_level_inverse(lv);
        }
        r.push(Registry::group_hooked_at(fns, owner, lv));
        l = l + 1;
    }
    r
}

/// Whether the atom table holds the name as a named atom.
fn table_has_ident(cs: &CompiledSubscription, name: &[u8]) -> (r: bool)
    ensures
        r == exists|id: int|
            0 <= id < table_view(cs.atom_table@).len() && table_view(cs.atom_table@)[id] == (
            AtomKeyView { file: false, text: name@ }),
{
    let n = cs.atom_table.len();
    let mut i: usize = 0;
    while i < n
        invariant
            i <= n,
            n == cs.atom_table@.len(),
            forall|id: int|
                0 <= id < i ==> table_view(cs.atom_table@)[id] != (AtomKeyView {
                    file: false,
                    text: name@,
                }),
        decreases n - i,
    {
        proof {
            assert(table_view(cs.atom_table@)[i as int] == cs.atom_table@[i as int]@);
        }
        if !cs.atom_table[i].file && crate::parse::bytes_eq(
            cs.atom_table[i].text.as_slice(),
            name,
        ) {
            proof {
                assert(table_view(cs.atom_table@)[i as int] =~= (AtomKeyView {
                    file: false,
                    text: name@,
                }));
            }
            return true;
        }
        proof {
            assert(table_view(cs.atom_table@)[i as int] != (AtomKeyView {
                file: false,
                text: name@,
            }));
        }
        i = i + 1;
    }
    false
}

/// Whether some callback consumes the named datatype.
fn some_cb_consumes(reg: &Registry, name: &[u8]) -> (r: bool)
    ensures
        r == exists|c: int, j: int|
            0 <= c < reg.callbacks@.len() && 0 <= j < (
            #[trigger] reg.callbacks@[c]).datatypes@.len() && (
            #[trigger] reg.callbacks@[c].datatypes@[j])@ == name@,
{
    let nc = reg.callbacks.len();
    let mut c: usize = 0;
    while c < nc
        invariant
            c <= nc,
            nc == reg.callbacks@.len(),
            forall|c2: int, j: int|
                0 <= c2 < c && 0 <= j < (#[trigger] reg.callbacks@[c2]).datatypes@.len() ==> (
                #[trigger] reg.callbacks@[c2].datatypes@[j])@ != name@,
        decreases nc - c,
    {
        let nd = reg.callbacks[c].datatypes.len();
        let mut j: usize = 0;
        while j < nd
            invariant
                j <= nd,
                c < nc,
                nc == reg.callbacks@.len(),
                nd == reg.callbacks@[c as int].datatypes@.len(),
                forall|j2: int|
                    0 <= j2 < j ==> (#[trigger] reg.callbacks@[c as int].datatypes@[j2])@
                        != name@,
            decreases nd - j,
        {
            if crate::parse::bytes_eq(reg.callbacks[c].datatypes[j].as_slice(), name) {
                return true;
            }
            j = j + 1;
        }
        c = c + 1;
    }
    false
}

/// Compute the combined per-connection record layout of the wired
/// subscription.
pub fn build_layout(reg: &Registry, cs: &CompiledSubscription) -> (r: TrackedLayout)
    ensures
        layout_from(r, *reg, table_view(cs.atom_table@)),
{
    let mut fields: Vec<FieldLayout> = Vec::new();
    let nd = reg.datatypes.len();
    let mut i: usize = 0;
    while i < nd
        invariant
            i <= nd,
            nd == reg.datatypes@.len(),
            forall|k: int|
                0 <= k < fields@.len() ==> field_ok(
                    #[trigger] fields@[k],
                    *reg,
                    table_view(cs.atom_table@),
                ),
            forall|k: int|
                0 <= k < fields@.len() ==> (#[trigger] fields@[k]).kind == FieldKind::Datatype
                    && fields@[k].src < i,
            forall|k1: int, k2: int|
                #![trigger fields@[k1], fields@[k2]]
                0 <= k1 < k2 < fields@.len() ==> fields@[k1].src < fields@[k2].src,
            forall|i2: int|
                0 <= i2 < i && dt_referenced(
                    table_view(cs.atom_table@),
                    reg.callbacks@,
                    (#[trigger] reg.datatypes@[i2]).name@,
                ) ==> exists|k: int|
                    0 <= k < fields@.len() && (#[trigger] fields@[k]).kind
                        == FieldKind::Datatype && fields@[k].src == i2,
        decreases nd - i,
    {
        let name_ref = reg.datatypes[i].name.as_slice();
        if table_has_ident(cs, name_ref) || some_cb_consumes(reg, name_ref) {
            let hooks = hooks_of(&reg.datatype_fns, name_ref);
            let f = FieldLayout {
                kind: FieldKind::Datatype,
                src: i,
                name: crate::parse::clone_bytes(&reg.datatypes[i].name),
                parsers: clone_names(&reg.datatypes[i].parsers),
                hooks,
            };
            let ghost prev = fields@;
            fields.push(f);
            proof {
                assert forall|i2: int|
                    0 <= i2 < i + 1 && dt_referenced(
                        table_view(cs.atom_table@),
                        reg.callbacks@,
                        (#[trigger] reg.datatypes@[i2]).name@,
                    ) implies exists|k: int|
                    0 <= k < fields@.len() && (#[trigger] fields@[k]).kind
                        == FieldKind::Datatype && fields@[k].src == i2 by {
                    if i2 == i {
                        assert(fields@[fields@.len() - 1].src == i2);
                    } else {
                        let k0 = choose|k0: int|
                            0 <= k0 < prev.len() && (#[trigger] prev[k0]).kind
                                == FieldKind::Datatype && prev[k0].src == i2;
                        assert(fields@[k0].src == i2);
                    }
                }
            }
        }
        i = i + 1;
    }
    let ghost n_dt_fields = fields@.len();
    let nf = reg.filters.len();
    let mut i: usize = 0;
    while i < nf
        invariant
            i <= nf,
            nf == reg.filters@.len(),
            nd == reg.datatypes@.len(),
            n_dt_fields <= fields@.len(),
            forall|k: int|
                0 <= k < fields@.len() ==> field_ok(
                    #[trigger] fields@[k],
                    *reg,
                    table_view(cs.atom_table@),
                ),
            forall|k: int|
                0 <= k < n_dt_fields ==> (#[trigger] fields@[k]).kind == FieldKind::Datatype,
            forall|k: int|
                n_dt_fields <= k < fields@.len() ==> (#[trigger] fields@[k]).kind
                    == FieldKind::FilterState && fields@[k].src < i,
            forall|k1: int, k2: int|
                #![trigger fields@[k1], fields@[k2]]
                0 <= k1 < k2 < fields@.len() && fields@[k1].kind == fields@[k2].kind
                    ==> fields@[k1].src < fields@[k2].src,
            forall|i2: int|
                0 <= i2 < nd && dt_referenced(
                    table_view(cs.atom_table@),
                    reg.callbacks@,
                    (#[trigger] reg.datatypes@[i2]).name@,
                ) ==> exists|k: int|
                    0 <= k < fields@.len() && (#[trigger] fields@[k]).kind
                        == FieldKind::Datatype && fields@[k].src == i2,
            forall|i2: int|
                0 <= i2 < i && cb_has_hooks(
                    reg.filter_fns@,
                    (#[trigger] reg.filters@[i2]).name@,
                ) ==> exists|k: int|
                    0 <= k < fields@.len() && (#[trigger] fields@[k]).kind
                        == FieldKind::FilterState && fields@[k].src == i2,
        decreases nf - i,
    {
        let name_ref = reg.filters[i].name.as_slice();
        if crate::compile::group_has_owner(&reg.filter_fns, name_ref) {
            let hooks = hooks_of(&reg.filter_fns, name_ref);
            let f = FieldLayout {
                kind: FieldKind::FilterState,
                src: i,
                name: crate::parse::clone_bytes(&reg.filters[i].name),
                parsers: Vec::new(),
                hooks,
            };
            let ghost prev = fields@;
            fields.push(f);
            proof {
                assert forall|i2: int|
                    0 <= i2 < i + 1 && cb_has_hooks(
                        reg.filter_fns@,
                        (#[trigger] reg.filters@[i2]).name@,
                    ) implies exists|k: int|
                    0 <= k < fields@.len() && (#[trigger] fields@[k]).kind
                        == FieldKind::FilterState && fields@[k].src == i2 by {
                    if i2 == i {
                        assert(fields@[fields@.len() - 1].src == i2);
                    } else {
                        let k0 = choose|k0: int|
                            0 <= k0 < prev.len() && (#[trigger] prev[k0]).kind
                                == FieldKind::FilterState && prev[k0].src == i2;
                        assert(fields@[k0].src == i2);
                    }
                }
                assert forall|i2: int|
                    0 <= i2 < nd && dt_referenced(
                        table_view(cs.atom_table@),
                        reg.callbacks@,
                        (#[trigger] reg.datatypes@[i2]).name@,
                    ) implies exists|k: int|
                    0 <= k < fields@.len() && (#[trigger] fields@[k]).kind
                        == FieldKind::Datatype && fields@[k].src == i2 by {
                    let k0 = choose|k0: int|
                        0 <= k0 < prev.len() && (#[trigger] prev[k0]).kind
                            == FieldKind::Datatype && prev[k0].src == i2;
                    assert(fields@[k0].src == i2);
                }
            }
        }
        i = i + 1;
    }
    let ghost n_before_cb = fields@.len();
    let nc = reg.callbacks.len();
    let mut i: usize = 0;
    while i < nc
        invariant
            i <= nc,
            nc == reg.callbacks@.len(),
            nd == reg.datatypes@.len(),
            nf == reg.filters@.len(),
            n_before_cb <= fields@.len(),
            forall|k: int|
                0 <= k < fields@.len() ==> field_ok(
                    #[trigger] fields@[k],
                    *reg,
                    table_view(cs.atom_table@),
                ),
            forall|k: int|
                0 <= k < n_before_cb ==> (#[trigger] fields@[k]).kind != FieldKind::CallbackState,
            forall|k: int|
                n_before_cb <= k < fields@.len() ==> (#[trigger] fields@[k]).kind
                    == FieldKind::CallbackState && fields@[k].src < i,
            forall|k1: int, k2: int|
                #![trigger fields@[k1], fields@[k2]]
                0 <= k1 < k2 < fields@.len() ==> kind_rank(fields@[k1].kind) < kind_rank(
                    fields@[k2].kind,
                ) || (fields@[k1].kind == fields@[k2].kind && fields@[k1].src < fields@[k2].src),
            forall|i2: int|
                0 <= i2 < nd && dt_referenced(
                    table_view(cs.atom_table@),
                    reg.callbacks@,
                    (#[trigger] reg.datatypes@[i2]).name@,
                ) ==> exists|k: int|
                    0 <= k < fields@.len() && (#[trigger] fields@[k]).kind
                        == FieldKind::Datatype && fields@[k].src == i2,
            forall|i2: int|
                0 <= i2 < nf && cb_has_hooks(
                    reg.filter_fns@,
                    (#[trigger] reg.filters@[i2]).name@,
                ) ==> exists|k: int|
                    0 <= k < fields@.len() && (#[trigger] fields@[k]).kind
                        == FieldKind::FilterState && fields@[k].src == i2,
            forall|i2: int|
                0 <= i2 < i && (#[trigger] reg.callbacks@[i2]).streaming ==> exists|k: int|
                    0 <= k < fields@.len() && (#[trigger] fields@[k]).kind
                        == FieldKind::CallbackState && fields@[k].src == i2,
        decreases nc - i,
    {
        if reg.callbacks[i].streaming {
            let name_ref = reg.callbacks[i].name.as_slice();
            let hooks = hooks_of(&reg.callback_fns, name_ref);
            let f = FieldLayout {
                kind: FieldKind::CallbackState,
                src: i,
                name: crate::parse::clone_bytes(&reg.callbacks[i].name),
                parsers: Vec::new(),
                hooks,
            };
            let ghost prev = fields@;
            fields.push(f);
            proof {
                assert forall|i2: int|
                    0 <= i2 < i + 1 && (#[trigger] reg.callbacks@[i2]).streaming
                        implies exists|k: int|
                    0 <= k < fields@.len() && (#[trigger] fields@[k]).kind
                        == FieldKind::CallbackState && fields@[k].src == i2 by {
                    if i2 == i {
                        assert(fields@[fields@.len() - 1].src == i2);
                    } else {
                        let k0 = choose|k0: int|
                            0 <= k0 < prev.len() && (#[trigger] prev[k0]).kind
                                == FieldKind::CallbackState && prev[k0].src == i2;
                        assert(fields@[k0].src == i2);
                    }
                }
                assert forall|i2: int|
                    0 <= i2 < nd && dt_referenced(
                        table_view(cs.atom_table@),
                        reg.callbacks@,
                        (#[trigger] reg.datatypes@[i2]).name@,
                    ) implies exists|k: int|
                    0 <= k < fields@.len() && (#[trigger] fields@[k]).kind
                        == FieldKind::Datatype && fields@[k].src == i2 by {
                    let k0 = choose|k0: int|
                        0 <= k0 < prev.len() && (#[trigger] prev[k0]).kind
                            == FieldKind::Datatype && prev[k0].src == i2;
                    assert(fields@[k0].src == i2);
                }
                assert forall|i2: int|
                    0 <= i2 < nf && cb_has_hooks(
                        reg.filter_fns@,
                        (#[trigger] reg.filters@[i2]).name@,
                    ) implies exists|k: int|
                    0 <= k < fields@.len() && (#[trigger] fields@[k]).kind
                        == FieldKind::FilterState && fields@[k].src == i2 by {
                    let k0 = choose|k0: int|
                        0 <= k0 < prev.len() && (#[trigger] prev[k0]).kind
                            == FieldKind::FilterState && prev[k0].src == i2;
                    assert(fields@[k0].src == i2);
                }
            }
        }
        i = i + 1;
    }
    TrackedLayout { fields }
}


/// The field has an update hook at the level.
pub open spec fn hook_at(f: FieldLayout, l: Level) -> bool {
    l.ord() < f.hooks@.len() && f.hooks@[l.ord()]
}

/// The per-level update dispatch: the indices of the fields whose
/// update hooks run at the level, in field order.
pub fn fields_at_level(lay: &TrackedLayout, l: Level) -> (r: Vec<usize>)
    ensures
        forall|a: int, b: int| 0 <= a < b < r@.len() ==> r@[a] < r@[b],
        forall|j: int| 0 <= j < r@.len() ==> (#[trigger] r@[j]) < lay.fields@.len(),
        forall|k: int|
            0 <= k < lay.fields@.len() ==> ((exists|j: int|
                0 <= j < r@.len() && (#[trigger] r@[j]) as int == k) <==> hook_at(
                lay.fields@[k],
                l,
            )),
{
    let lidx = l.index() as usize;
    let n = lay.fields.len();
    let mut r: Vec<usize> = Vec::new();
    let mut k: usize = 0;
    while k < n
        invariant
            k <= n,
            n == lay.fields@.len(),
            lidx == l.ord(),
            forall|a: int, b: int| 0 <= a < b < r@.len() ==> r@[a] < r@[b],
            forall|j: int| 0 <= j < r@.len() ==> (#[trigger] r@[j]) < k,
            forall|k2: int|
                0 <= k2 < k ==> ((exists|j: int|
                    0 <= j < r@.len() && (#[trigger] r@[j]) as int == k2) <==> hook_at(
                    lay.fields@[k2],
                    l,
                )),
        decreases n - k,
    {
        let hooks = &lay.fields[k].hooks;
        let ghost prev = r@;
        if lidx < hooks.len() && hooks[lidx] {
            r.push(k);
        }
        proof {
            assert forall|k2: int| 0 <= k2 < k + 1 implies ((exists|j: int|
                0 <= j < r@.len() && (#[trigger] r@[j]) as int == k2) <==> hook_at(
                lay.fields@[k2],
                l,
            )) by {
                if k2 == k {
                    if hook_at(lay.fields@[k2], l) {
                        assert(r@[r@.len() - 1] as int == k2);
                    } else {
                        if exists|j: int|
                            0 <= j < r@.len() && (#[trigger] r@[j]) as int == k2 {
                            let j = choose|j: int|
                                0 <= j < r@.len() && (#[trigger] r@[j]) as int == k2;
                            assert(prev[j] as int == k2);
                        }
                    }
                } else {
                    if hook_at(lay.fields@[k2], l) {
                        let j = choose|j: int|
                            0 <= j < prev.len() && (#[trigger] prev[j]) as int == k2;
                        assert(r@[j] as int == k2);
                    } else {
                        if exists|j: int|
                            0 <= j < r@.len() && (#[trigger] r@[j]) as int == k2 {
                            let j = choose|j: int|
                                0 <= j < r@.len() && (#[trigger] r@[j]) as int == k2;
                            if j < prev.len() {
                                assert(prev[j] as int == k2);
                            }
                        }
                    }
                }
            }
        }
        k = k + 1;
    }
    r
}

/// Copy a list of names.
fn clone_names(v: &Vec<Vec<u8>>) -> (r: Vec<Vec<u8>>)
    ensures
        r@.len() == v@.len(),
        names_view(r@) == names_view(v@),
{
    let n = v.len();
    let mut r: Vec<Vec<u8>> = Vec::new();
    let mut i: usize = 0;
    while i < n
        invariant
            i <= n,
            n == v@.len(),
            r@.len() == i,
            forall|k: int| 0 <= k < i ==> (#[trigger] r@[k])@ == v@[k]@,
        decreases n - i,
    {
        r.push(crate::parse::clone_bytes(&v[i]));
        i = i + 1;
    }
    proof {
        assert forall|k: int| 0 <= k < n implies names_view(r@)[k] == names_view(v@)[k] by {
            assert(names_view(r@)[k] == r@[k]@);
            assert(names_view(v@)[k] == v@[k]@);
        }
        assert(names_view(r@) =~= names_view(v@));
    }
    r
}

} // verus!
