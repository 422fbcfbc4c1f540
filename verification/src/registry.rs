//! The specification registry: a write-once collection of every
//! declared protocol, datatype, filter and callback, populated by an
//! explicit builder during the build phase and consumed exactly once
//! when the subscription is compiled.

use vstd::prelude::*;

use crate::ast::{Pred, PredView};
use crate::errors::BuildError;
use crate::level::Level;
use crate::parse::{parse, ParseError};

verus! {

/// A protocol-presence atom the engine can test, and the level at
/// which its presence is known.
#[derive(Debug)]
pub struct ProtocolDecl {
    /// The protocol's name (`tls`, `http`, `ipv4`, ...).
    pub name: Vec<u8>,
    /// The level at which the presence test can first be answered.
    pub avail: Level,
}

/// A declared unit of per-connection tracked state.
#[derive(Debug)]
pub struct DatatypeDecl {
    /// The datatype's name.
    pub name: Vec<u8>,
    /// The level at which the datatype's value becomes available to
    /// predicates and callbacks.
    pub avail: Level,
    /// The protocol parsers the datatype needs (empty: none).
    pub parsers: Vec<Vec<u8>>,
}

/// A declared filter: a named predicate, tagged to a level, whose
/// evaluation accepts, drops or defers the connection.
#[derive(Debug)]
pub struct FilterDecl {
    /// The filter's name; other predicates may reference it as an atom.
    pub name: Vec<u8>,
    /// The filter's predicate tree.
    pub tree: Pred,
    /// The level at which the filter gates the connection, and at which
    /// its name becomes answerable as an atom.
    pub level: Level,
}

/// A declared callback: a named action tied to a predicate.
#[derive(Debug)]
pub struct CallbackDecl {
    /// The callback's name.
    pub name: Vec<u8>,
    /// The predicate that must hold for the callback to run.
    pub tree: Pred,
    /// The level at which the callback runs; `None` lets the compiler
    /// schedule it at the level where its dependencies are available.
    pub level: Option<Level>,
    /// A streaming callback may run at several levels and decides each
    /// time whether to stay subscribed; a one-shot callback runs once.
    pub streaming: bool,
    /// The datatypes the callback consumes.
    pub datatypes: Vec<Vec<u8>>,
}

/// A per-level update hook of a datatype, filter or callback, declared
/// separately and cross-linked to its owner by name.
#[derive(Debug)]
pub struct GroupFn {
    /// The name of the declaration the hook belongs to.
    pub owner: Vec<u8>,
    /// The level at which the hook runs.
    pub level: Level,
}

/// Whether a protocol of the given name is declared.
pub open spec fn proto_declared(ps: Seq<ProtocolDecl>, w: Seq<u8>) -> bool {
    exists|i: int| 0 <= i < ps.len() && (#[trigger] ps[i]).name@ == w
}

/// Whether a datatype of the given name is declared.
pub open spec fn dt_declared(ds: Seq<DatatypeDecl>, w: Seq<u8>) -> bool {
    exists|i: int| 0 <= i < ds.len() && (#[trigger] ds[i]).name@ == w
}

/// Whether a filter of the given name is declared.
pub open spec fn filter_declared(fs: Seq<FilterDecl>, w: Seq<u8>) -> bool {
    exists|i: int| 0 <= i < fs.len() && (#[trigger] fs[i]).name@ == w
}

/// Whether a callback of the given name is declared.
pub open spec fn cb_declared(cs: Seq<CallbackDecl>, w: Seq<u8>) -> bool {
    exists|i: int| 0 <= i < cs.len() && (#[trigger] cs[i]).name@ == w
}

/// Whether an owner has a hook at the given level.
pub open spec fn hooked_at(fns: Seq<GroupFn>, owner: Seq<u8>, l: Level) -> bool {
    exists|i: int|
        0 <= i < fns.len() && (#[trigger] fns[i]).owner@ == owner && fns[i].level == l
}

/// The predicate tree of a parsed filter string, with a trailing
/// `,file=<path>` modifier folded in as a conjunct.
pub open spec fn with_file_modifier(tree: PredView, file: Option<Seq<u8>>) -> PredView {
    match file {
        Some(p) => PredView::And(Box::new(tree), Box::new(PredView::FileAtom(p))),
        None => tree,
    }
}

/// The registry.  Append-only while declarations are gathered; the
/// compiler consumes it once, after [`Registry::finalize`] has checked
/// that every group function has an owner.
#[derive(Debug)]
pub struct Registry {
    /// Declared protocol-presence atoms.
    pub protocols: Vec<ProtocolDecl>,
    /// Declared datatypes.
    pub datatypes: Vec<DatatypeDecl>,
    /// Per-level update hooks of datatypes.
    pub datatype_fns: Vec<GroupFn>,
    /// Declared filters.
    pub filters: Vec<FilterDecl>,
    /// Per-level update hooks of stateful filters.
    pub filter_fns: Vec<GroupFn>,
    /// Declared callbacks.
    pub callbacks: Vec<CallbackDecl>,
    /// Per-level hooks of streaming callbacks.
    pub callback_fns: Vec<GroupFn>,
}

impl Registry {
    /// An empty registry.
    pub fn new() -> (r: Registry)
        ensures
            r.protocols@.len() == 0,
            r.datatypes@.len() == 0,
            r.datatype_fns@.len() == 0,
            r.filters@.len() == 0,
            r.filter_fns@.len() == 0,
            r.callbacks@.len() == 0,
            r.callback_fns@.len() == 0,
    {
        Registry {
            protocols: Vec::new(),
            datatypes: Vec::new(),
            datatype_fns: Vec::new(),
            filters: Vec::new(),
            filter_fns: Vec::new(),
            callbacks: Vec::new(),
            callback_fns: Vec::new(),
        }
    }

    /// Declare a protocol-presence atom.
    pub fn push_protocol(&mut self, name: Vec<u8>, avail: Level)
        ensures
            final(self).protocols@ == old(self).protocols@.push(
                ProtocolDecl { name, avail },
            ),
            final(self).datatypes@ == old(self).datatypes@,
            final(self).datatype_fns@ == old(self).datatype_fns@,
            final(self).filters@ == old(self).filters@,
            final(self).filter_fns@ == old(self).filter_fns@,
            final(self).callbacks@ == old(self).callbacks@,
            final(self).callback_fns@ == old(self).callback_fns@,
    {
        self.protocols.push(ProtocolDecl { name, avail });
    }

    /// Declare a datatype.
    pub fn push_datatype(&mut self, d: DatatypeDecl)
        ensures
            final(self).datatypes@ == old(self).datatypes@.push(d),
            final(self).protocols@ == old(self).protocols@,
            final(self).datatype_fns@ == old(self).datatype_fns@,
            final(self).filters@ == old(self).filters@,
            final(self).filter_fns@ == old(self).filter_fns@,
            final(self).callbacks@ == old(self).callbacks@,
            final(self).callback_fns@ == old(self).callback_fns@,
    {
        self.datatypes.push(d);
    }

    /// Declare a per-level update hook of a datatype.
    pub fn push_datatype_fn(&mut self, owner: Vec<u8>, level: Level)
        ensures
            final(self).datatype_fns@ == old(self).datatype_fns@.push(
                GroupFn { owner, level },
            ),
            final(self).protocols@ == old(self).protocols@,
            final(self).datatypes@ == old(self).datatypes@,
            final(self).filters@ == old(self).filters@,
            final(self).filter_fns@ == old(self).filter_fns@,
            final(self).callbacks@ == old(self).callbacks@,
            final(self).callback_fns@ == old(self).callback_fns@,
    {
        self.datatype_fns.push(GroupFn { owner, level });
    }

    /// Declare a filter from its parts.
    pub fn push_filter(&mut self, f: FilterDecl)
        ensures
            final(self).filters@ == old(self).filters@.push(f),
            final(self).protocols@ == old(self).protocols@,
            final(self).datatypes@ == old(self).datatypes@,
            final(self).datatype_fns@ == old(self).datatype_fns@,
            final(self).filter_fns@ == old(self).filter_fns@,
            final(self).callbacks@ == old(self).callbacks@,
            final(self).callback_fns@ == old(self).callback_fns@,
    {
        self.filters.push(f);
    }

    /// Declare a filter whose decision is its own evaluation function:
    /// its predicate is the atom of its own name.
    pub fn push_filter_fn(&mut self, name: Vec<u8>, level: Level)
        ensures
            final(self).filters@.len() == old(self).filters@.len() + 1,
            forall|i: int|
                0 <= i < old(self).filters@.len()
                    ==> final(self).filters@[i] == old(self).filters@[i],
            final(self).filters@.last().name@ == name@,
            final(self).filters@.last().tree@ == PredView::Atom(name@),
            final(self).filters@.last().level == level,
            final(self).protocols@ == old(self).protocols@,
            final(self).datatypes@ == old(self).datatypes@,
            final(self).datatype_fns@ == old(self).datatype_fns@,
            final(self).filter_fns@ == old(self).filter_fns@,
            final(self).callbacks@ == old(self).callbacks@,
            final(self).callback_fns@ == old(self).callback_fns@,
    {
        let name2 = crate::parse::clone_bytes(&name);
        self.filters.push(FilterDecl { name, tree: Pred::Atom(name2), level });
    }

    /// Declare a per-level update hook of a stateful filter.
    pub fn push_filter_fn_hook(&mut self, owner: Vec<u8>, level: Level)
        ensures
            final(self).filter_fns@ == old(self).filter_fns@.push(GroupFn { owner, level }),
            final(self).protocols@ == old(self).protocols@,
            final(self).datatypes@ == old(self).datatypes@,
            final(self).datatype_fns@ == old(self).datatype_fns@,
            final(self).filters@ == old(self).filters@,
            final(self).callbacks@ == old(self).callbacks@,
            final(self).callback_fns@ == old(self).callback_fns@,
    {
        self.filter_fns.push(GroupFn { owner, level });
    }

    /// Declare a filter from a filter expression string.  The string
    /// must carry a `,level=<Level>` modifier: a gate needs a level.
    /// A `,file=<path>` modifier becomes a conjunct of the tree.
    pub fn push_filter_expr(&mut self, name: Vec<u8>, expr: &[u8]) -> (r: Result<
        (),
        BuildError,
    >)
        ensures
            r matches Ok(()) ==> {
                &&& crate::parse::spec_parse(expr@) matches crate::parse::ParseOutcome::Parsed(
                    pf,
                ) && pf.level matches Some(l) && final(self).filters@.len() == old(self).filters@.len() + 1 && final(self).filters@.last().name@ == name@ && final(self).filters@.last().tree@ == with_file_modifier(pf.tree, pf.file) && final(self).filters@.last().level == l && forall|i: int|
                    0 <= i < old(self).filters@.len() ==> final(self).filters@[i] == old(self).filters@[i]
            },
            r is Err ==> final(self).filters@ == old(self).filters@,
            r matches Err(e) ==> match e {
                BuildError::GrammarError(pe) => pe is MissingLevel
                    && (crate::parse::spec_parse(expr@)
                    matches crate::parse::ParseOutcome::Parsed(pf) && pf.level is None)
                    || crate::parse::spec_parse(expr@) == crate::parse::ParseOutcome::Failed(
                    pe,
                ),
                _ => false,
            },
            final(self).protocols@ == old(self).protocols@,
            final(self).datatypes@ == old(self).datatypes@,
            final(self).datatype_fns@ == old(self).datatype_fns@,
            final(self).filter_fns@ == old(self).filter_fns@,
            final(self).callbacks@ == old(self).callbacks@,
            final(self).callback_fns@ == old(self).callback_fns@,
    {
        match parse(expr) {
            Err(e) => Err(BuildError::GrammarError(e)),
            Ok(pf) => {
                match pf.level {
                    None => Err(BuildError::GrammarError(ParseError::MissingLevel)),
                    Some(l) => {
                        let tree = attach_file_conjunct(pf.tree, pf.file);
                        self.filters.push(FilterDecl { name, tree, level: l });
                        Ok(())
                    },
                }
            },
        }
    }

    /// Declare a callback from a filter expression string.  A
    /// `,level=<Level>` modifier fixes the callback's level; without
    /// one the compiler schedules it where its dependencies become
    /// available.  A `,file=<path>` modifier becomes a conjunct.
    pub fn push_callback_expr(
        &mut self,
        name: Vec<u8>,
        expr: &[u8],
        streaming: bool,
        datatypes: Vec<Vec<u8>>,
    ) -> (r: Result<(), BuildError>)
        ensures
            r matches Ok(()) ==> {
                &&& crate::parse::spec_parse(expr@) matches crate::parse::ParseOutcome::Parsed(
                    pf,
                ) && final(self).callbacks@.len() == old(self).callbacks@.len() + 1 && final(self).callbacks@.last().name@ == name@ && final(self).callbacks@.last().tree@
                    == with_file_modifier(pf.tree, pf.file) && final(self).callbacks@.last().level == pf.level && final(self).callbacks@.last().streaming
                    == streaming && final(self).callbacks@.last().datatypes@ == datatypes@
                    && forall|i: int|
                    0 <= i < old(self).callbacks@.len() ==> final(self).callbacks@[i] == old(self).callbacks@[i]
            },
            r is Err ==> final(self).callbacks@ == old(self).callbacks@,
            r matches Err(e) ==> e matches BuildError::GrammarError(pe)
                && crate::parse::spec_parse(expr@) == crate::parse::ParseOutcome::Failed(pe),
            final(self).protocols@ == old(self).protocols@,
            final(self).datatypes@ == old(self).datatypes@,
            final(self).datatype_fns@ == old(self).datatype_fns@,
            final(self).filters@ == old(self).filters@,
            final(self).filter_fns@ == old(self).filter_fns@,
            final(self).callback_fns@ == old(self).callback_fns@,
    {
        match parse(expr) {
            Err(e) => Err(BuildError::GrammarError(e)),
            Ok(pf) => {
                let tree = attach_file_conjunct(pf.tree, pf.file);
                self.callbacks.push(
                    CallbackDecl { name, tree, level: pf.level, streaming, datatypes },
                );
                Ok(())
            },
        }
    }

    /// Declare a per-level hook of a streaming callback.
    pub fn push_callback_fn_hook(&mut self, owner: Vec<u8>, level: Level)
        ensures
            final(self).callback_fns@ == old(self).callback_fns@.push(
                GroupFn { owner, level },
            ),
            final(self).protocols@ == old(self).protocols@,
            final(self).datatypes@ == old(self).datatypes@,
            final(self).datatype_fns@ == old(self).datatype_fns@,
            final(self).filters@ == old(self).filters@,
            final(self).filter_fns@ == old(self).filter_fns@,
            final(self).callbacks@ == old(self).callbacks@,
    {
        self.callback_fns.push(GroupFn { owner, level });
    }

    /// Cross-link every group function to its owning declaration.  A
    /// hook whose owner was never declared is a build error.
    pub fn finalize(&self) -> (r: Result<(), BuildError>)
        ensures
            r matches Ok(()) <==> {
                &&& forall|i: int|
                    0 <= i < self.datatype_fns@.len() ==> dt_declared(
                        self.datatypes@,
                        (#[trigger] self.datatype_fns@[i]).owner@,
                    )
                &&& forall|i: int|
                    0 <= i < self.filter_fns@.len() ==> filter_declared(
                        self.filters@,
                        (#[trigger] self.filter_fns@[i]).owner@,
                    )
                &&& forall|i: int|
                    0 <= i < self.callback_fns@.len() ==> cb_declared(
                        self.callbacks@,
                        (#[trigger] self.callback_fns@[i]).owner@,
                    )
            },
            r matches Err(e) ==> match e {
                BuildError::UnresolvedAtom(w) => {
                    ||| (exists|i: int|
                        0 <= i < self.datatype_fns@.len()
                            && (#[trigger] self.datatype_fns@[i]).owner@ == w@) && !dt_declared(
                        self.datatypes@,
                        w@,
                    )
                    ||| (exists|i: int|
                        0 <= i < self.filter_fns@.len()
                            && (#[trigger] self.filter_fns@[i]).owner@ == w@)
                        && !filter_declared(self.filters@, w@)
                    ||| (exists|i: int|
                        0 <= i < self.callback_fns@.len()
                            && (#[trigger] self.callback_fns@[i]).owner@ == w@) && !cb_declared(
                        self.callbacks@,
                        w@,
                    )
                },
                _ => false,
            },
    {
        let mut i: usize = 0;
        let n = self.datatype_fns.len();
        while i < n
            invariant
                i <= n,
                n == self.datatype_fns@.len(),
                forall|k: int|
                    0 <= k < i ==> dt_declared(
                        self.datatypes@,
                        (#[trigger] self.datatype_fns@[k]).owner@,
                    ),
            decreases n - i,
        {
            if self.find_datatype(self.datatype_fns[i].owner.as_slice()).is_none() {
                let w = crate::parse::clone_bytes(&self.datatype_fns[i].owner);
                return Err(BuildError::UnresolvedAtom(w));
            }
            i = i + 1;
        }
        let mut i: usize = 0;
        let n = self.filter_fns.len();
        while i < n
            invariant
                i <= n,
                n == self.filter_fns@.len(),
                forall|k: int|
                    0 <= k < i ==> filter_declared(
                        self.filters@,
                        (#[trigger] self.filter_fns@[k]).owner@,
                    ),
                forall|k: int|
                    0 <= k < self.datatype_fns@.len() ==> dt_declared(
                        self.datatypes@,
                        (#[trigger] self.datatype_fns@[k]).owner@,
                    ),
            decreases n - i,
        {
            if self.find_filter(self.filter_fns[i].owner.as_slice()).is_none() {
                let w = crate::parse::clone_bytes(&self.filter_fns[i].owner);
                return Err(BuildError::UnresolvedAtom(w));
            }
            i = i + 1;
        }
        let mut i: usize = 0;
        let n = self.callback_fns.len();
        while i < n
            invariant
                i <= n,
                n == self.callback_fns@.len(),
                forall|k: int|
                    0 <= k < i ==> cb_declared(
                        self.callbacks@,
                        (#[trigger] self.callback_fns@[k]).owner@,
                    ),
                forall|k: int|
                    0 <= k < self.datatype_fns@.len() ==> dt_declared(
                        self.datatypes@,
                        (#[trigger] self.datatype_fns@[k]).owner@,
                    ),
                forall|k: int|
                    0 <= k < self.filter_fns@.len() ==> filter_declared(
                        self.filters@,
                        (#[trigger] self.filter_fns@[k]).owner@,
                    ),
            decreases n - i,
        {
            if self.find_callback(self.callback_fns[i].owner.as_slice()).is_none() {
                let w = crate::parse::clone_bytes(&self.callback_fns[i].owner);
                return Err(BuildError::UnresolvedAtom(w));
            }
            i = i + 1;
        }
        Ok(())
    }

    /// The first declared protocol of the given name.
    pub fn find_protocol(&self, w: &[u8]) -> (r: Option<usize>)
        ensures
            r matches Some(i) ==> i < self.protocols@.len() && self.protocols@[i as int].name@
                == w@ && (forall|k: int|
                0 <= k < i ==> (#[trigger] self.protocols@[k]).name@ != w@),
            r is None ==> !proto_declared(self.protocols@, w@),
    {
        let n = self.protocols.len();
        let mut i: usize = 0;
        while i < n
            invariant
                i <= n,
                n == self.protocols@.len(),
                forall|k: int| 0 <= k < i ==> (#[trigger] self.protocols@[k]).name@ != w@,
            decreases n - i,
        {
            if crate::parse::bytes_eq(self.protocols[i].name.as_slice(), w) {
                return Some(i);
            }
            i = i + 1;
        }
        None
    }

    /// The first declared datatype of the given name.
    pub fn find_datatype(&self, w: &[u8]) -> (r: Option<usize>)
        ensures
            r matches Some(i) ==> i < self.datatypes@.len() && self.datatypes@[i as int].name@
                == w@ && (forall|k: int|
                0 <= k < i ==> (#[trigger] self.datatypes@[k]).name@ != w@),
            r is None ==> !dt_declared(self.datatypes@, w@),
    {
        let n = self.datatypes.len();
        let mut i: usize = 0;
        while i < n
            invariant
                i <= n,
                n == self.datatypes@.len(),
                forall|k: int| 0 <= k < i ==> (#[trigger] self.datatypes@[k]).name@ != w@,
            decreases n - i,
        {
            if crate::parse::bytes_eq(self.datatypes[i].name.as_slice(), w) {
                return Some(i);
            }
            i = i + 1;
        }
        None
    }

    /// The first declared filter of the given name.
    pub fn find_filter(&self, w: &[u8]) -> (r: Option<usize>)
        ensures
            r matches Some(i) ==> i < self.filters@.len() && self.filters@[i as int].name@
                == w@ && (forall|k: int|
                0 <= k < i ==> (#[trigger] self.filters@[k]).name@ != w@),
            r is None ==> !filter_declared(self.filters@, w@),
    {
        let n = self.filters.len();
        let mut i: usize = 0;
        while i < n
            invariant
                i <= n,
                n == self.filters@.len(),
                forall|k: int| 0 <= k < i ==> (#[trigger] self.filters@[k]).name@ != w@,
            decreases n - i,
        {
            if crate::parse::bytes_eq(self.filters[i].name.as_slice(), w) {
                return Some(i);
            }
            i = i + 1;
        }
        None
    }

    /// The first declared callback of the given name.
    pub fn find_callback(&self, w: &[u8]) -> (r: Option<usize>)
        ensures
            r matches Some(i) ==> i < self.callbacks@.len() && self.callbacks@[i as int].name@
                == w@ && (forall|k: int|
                0 <= k < i ==> (#[trigger] self.callbacks@[k]).name@ != w@),
            r is None ==> !cb_declared(self.callbacks@, w@),
    {
        let n = self.callbacks.len();
        let mut i: usize = 0;
        while i < n
            invariant
                i <= n,
                n == self.callbacks@.len(),
                forall|k: int| 0 <= k < i ==> (#[trigger] self.callbacks@[k]).name@ != w@,
            decreases n - i,
        {
            if crate::parse::bytes_eq(self.callbacks[i].name.as_slice(), w) {
                return Some(i);
            }
            i = i + 1;
        }
        None
    }

    /// Whether the owner has a hook at the given level, among the
    /// given group functions.
    pub fn group_hooked_at(fns: &Vec<GroupFn>, owner: &[u8], l: Level) -> (r: bool)
        ensures
            r == hooked_at(fns@, owner@, l),
    {
        let n = fns.len();
        let mut i: usize = 0;
        while i < n
            invariant
                i <= n,
                n == fns@.len(),
                forall|k: int|
                    0 <= k < i ==> !((#[trigger] fns@[k]).owner@ == owner@ && fns@[k].level
                        == l),
            decreases n - i,
        {
            if crate::parse::bytes_eq(fns[i].owner.as_slice(), owner) && fns[i].level == l {
                return true;
            }
            i = i + 1;
        }
        false
    }
}

/// Fold an optional `file=<path>` modifier onto a tree as a conjunct.
fn attach_file_conjunct(tree: Pred, file: Option<Vec<u8>>) -> (r: Pred)
    ensures
        r@ == with_file_modifier(
            tree@,
            match file {
                Some(p) => Some(p@),
                None => None,
            },
        ),
{
    match file {
        Some(p) => {
            let ghost pv = p@;
            let ghost tv = tree@;
            let b1 = Box::new(tree);
            let b2 = Box::new(Pred::FileAtom(p));
            let r = Pred::And(b1, b2);
            proof {
                assert(r@ == PredView::And(Box::new((*b1)@), Box::new((*b2)@)));
                assert(r@ == PredView::And(Box::new(tv), Box::new(PredView::FileAtom(pv))));
            }
            r
        },
        None => tree,
    }
}

} // verus!
