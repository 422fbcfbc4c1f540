//! Shared, memoised, short-circuit evaluation of compiled predicate
//! trees.
//!
//! After compilation every atom has a small integer identity, and all
//! trees evaluated in one level pass share an [`AtomEnv`]: the first
//! time any tree asks for an atom, the atom's evaluator is invoked and
//! the outcome memoised; every later occurrence, in the same tree or in
//! another tree of the pass, reuses the memo.  The environment counts
//! invocations, so that short-circuiting and shared-subexpression
//! evaluation are stated contracts, not accidents of the code.

use vstd::prelude::*;

use crate::ast::FilterResult;

verus! {

/// A predicate tree whose atoms have been interned to indices into the
/// subscription's atom table.
#[derive(Debug, PartialEq, Eq)]
pub enum Node {
    /// The atom with the given index.
    Atom(usize),
    /// Logical negation.
    Not(Box<Node>),
    /// Conjunction; the right side is evaluated only when the left side
    /// accepts.
    And(Box<Node>, Box<Node>),
    /// Disjunction; the right side is evaluated only when the left side
    /// defers.
    Or(Box<Node>, Box<Node>),
}

/// Every atom index in the tree is below `k`.
pub open spec fn node_wf(n: Node, k: nat) -> bool
    decreases n,
{
    match n {
        Node::Atom(i) => i < k,
        Node::Not(a) => node_wf(*a, k),
        Node::And(a, b) => node_wf(*a, k) && node_wf(*b, k),
        Node::Or(a, b) => node_wf(*a, k) && node_wf(*b, k),
    }
}

/// The value of a tree under the given atom outcomes, with `Drop`
/// absorbing: a dropped atom drops the whole tree at once.
///
/// `And` yields its right side only when the left side accepts; `Or`
/// yields its right side only when the left side defers.  `Not` swaps
/// `Accept` and `Continue`.
pub open spec fn spec_eval(n: Node, tr: Seq<FilterResult>) -> FilterResult
    decreases n,
{
    match n {
        Node::Atom(i) => tr[i as int],
        Node::Not(a) => match spec_eval(*a, tr) {
            FilterResult::Drop => FilterResult::Drop,
            FilterResult::Accept => FilterResult::Continue,
            FilterResult::Continue => FilterResult::Accept,
        },
        Node::And(a, b) => match spec_eval(*a, tr) {
            FilterResult::Drop => FilterResult::Drop,
            FilterResult::Continue => FilterResult::Continue,
            FilterResult::Accept => spec_eval(*b, tr),
        },
        Node::Or(a, b) => match spec_eval(*a, tr) {
            FilterResult::Drop => FilterResult::Drop,
            FilterResult::Accept => FilterResult::Accept,
            FilterResult::Continue => spec_eval(*b, tr),
        },
    }
}

/// The atom indices that short-circuit evaluation of `n` asks for,
/// under the given outcomes.
pub open spec fn visited(n: Node, tr: Seq<FilterResult>) -> Set<int>
    decreases n,
{
    match n {
        Node::Atom(i) => set![i as int],
        Node::Not(a) => visited(*a, tr),
        Node::And(a, b) => visited(*a, tr) + if spec_eval(*a, tr) is Accept {
            visited(*b, tr)
        } else {
            Set::empty()
        },
        Node::Or(a, b) => visited(*a, tr) + if spec_eval(*a, tr) is Continue {
            visited(*b, tr)
        } else {
            Set::empty()
        },
    }
}

/// All atom indices occurring in the tree.
pub open spec fn atoms(n: Node) -> Set<int>
    decreases n,
{
    match n {
        Node::Atom(i) => set![i as int],
        Node::Not(a) => atoms(*a),
        Node::And(a, b) => atoms(*a) + atoms(*b),
        Node::Or(a, b) => atoms(*a) + atoms(*b),
    }
}

/// Only atoms of the tree are ever visited.
pub proof fn lemma_visited_subset_atoms(n: Node, tr: Seq<FilterResult>)
    ensures
        visited(n, tr).subset_of(atoms(n)),
    decreases n,
{
    match n {
        Node::Atom(i) => {},
        Node::Not(a) => lemma_visited_subset_atoms(*a, tr),
        Node::And(a, b) => {
            lemma_visited_subset_atoms(*a, tr);
            lemma_visited_subset_atoms(*b, tr);
        },
        Node::Or(a, b) => {
            lemma_visited_subset_atoms(*a, tr);
            lemma_visited_subset_atoms(*b, tr);
        },
    }
}

/// Short-circuit law for conjunction: when the left side of an `And`
/// does not accept, evaluation visits the left side's atoms only.  In
/// particular an atom occurring only in the right side observes zero
/// invocations.
pub proof fn lemma_and_short_circuit(n: Node, tr: Seq<FilterResult>)
    requires
        n matches Node::And(a, _) && spec_eval(*a, tr) !is Accept,
    ensures
        n matches Node::And(a, _) ==> visited(n, tr) =~= visited(*a, tr),
        forall|i: int|
            n matches Node::And(a, b) && atoms(*b).contains(i) && !atoms(*a).contains(i)
                ==> !visited(n, tr).contains(i),
{
    if let Node::And(a, b) = n {
        lemma_visited_subset_atoms(*a, tr);
    }
}

/// Short-circuit law for disjunction: when the left side of an `Or`
/// accepts, evaluation visits the left side's atoms only.
pub proof fn lemma_or_short_circuit(n: Node, tr: Seq<FilterResult>)
    requires
        n matches Node::Or(a, _) && spec_eval(*a, tr) is Accept,
    ensures
        n matches Node::Or(a, _) ==> visited(n, tr) =~= visited(*a, tr),
        forall|i: int|
            n matches Node::Or(a, b) && atoms(*b).contains(i) && !atoms(*a).contains(i)
                ==> !visited(n, tr).contains(i),
{
    if let Node::Or(a, b) = n {
        lemma_visited_subset_atoms(*a, tr);
    }
}

/// The shared evaluation environment of one level pass: the outcome each
/// atom's evaluator would report, the memo of outcomes already asked
/// for, and how often each evaluator has been invoked.
pub struct AtomEnv {
    /// The outcome of each atom's evaluator for this pass.
    pub truth: Vec<FilterResult>,
    /// Memoised outcomes; `None` until the atom is first visited.
    pub memo: Vec<Option<FilterResult>>,
    /// How often each atom's evaluator has been invoked.
    pub calls: Vec<u64>,
}

impl AtomEnv {
    /// The environment is consistent: the memo only ever holds the
    /// evaluator's outcome, and no evaluator has run more than once.
    pub open spec fn wf(self) -> bool {
        &&& self.memo@.len() == self.truth@.len()
        &&& self.calls@.len() == self.truth@.len()
        &&& forall|i: int|
            0 <= i < self.truth@.len()
                ==> (#[trigger] self.memo@[i] matches Some(v) ==> v == self.truth@[i])
        &&& forall|i: int| 0 <= i < self.truth@.len() ==> self.calls@[i] <= 1
        &&& forall|i: int|
            0 <= i < self.truth@.len() ==> (self.memo@[i] is None ==> self.calls@[i] == 0)
    }

    /// A fresh environment for one level pass: nothing memoised, no
    /// evaluator invoked yet.
    pub fn new(truth: Vec<FilterResult>) -> (r: AtomEnv)
        ensures
            r.wf(),
            r.truth@ == truth@,
            r.memo@.len() == truth@.len(),
            forall|i: int| 0 <= i < r.memo@.len() ==> r.memo@[i] is None,
            forall|i: int| 0 <= i < r.calls@.len() ==> r.calls@[i] == 0,
    {
        let n = truth.len();
        let mut memo: Vec<Option<FilterResult>> = Vec::new();
        let mut calls: Vec<u64> = Vec::new();
        let mut k: usize = 0;
        while k < n
            invariant
                memo@.len() == k,
                calls@.len() == k,
                k <= n,
                forall|i: int| 0 <= i < k ==> memo@[i] is None,
                forall|i: int| 0 <= i < k ==> calls@[i] == 0,
            decreases n - k,
        {
            memo.push(None);
            calls.push(0);
            k = k + 1;
        }
        AtomEnv { truth, memo, calls }
    }

    /// How often the atom's evaluator has been invoked in this pass.
    pub fn invocations(&self, i: usize) -> (r: u64)
        requires
            i < self.calls@.len(),
        ensures
            r == self.calls@[i as int],
    {
        self.calls[i]
    }
}

/// Shared-subexpression law: over any sequence of tree evaluations in
/// one environment, each atom's evaluator is invoked at most once.
pub proof fn lemma_atom_invoked_at_most_once(env: AtomEnv, i: int)
    requires
        env.wf(),
        0 <= i < env.truth@.len(),
    ensures
        env.calls@[i] <= 1,
{
}

/// Evaluate a tree in the shared environment, memoising and counting
/// atom evaluator invocations, with short-circuiting: exactly the
/// atoms in `visited(n, truth)` are asked for, and an atom's evaluator
/// is invoked only if the pass had not asked for that atom before.
pub fn eval_node(n: &Node, env: &mut AtomEnv) -> (r: FilterResult)
    requires
        old(env).wf(),
        node_wf(*n, old(env).truth@.len() as nat),
    ensures
        final(env).wf(),
        final(env).truth@ == old(env).truth@,
        final(env).memo@.len() == old(env).memo@.len(),
        final(env).calls@.len() == old(env).calls@.len(),
        r == spec_eval(*n, old(env).truth@),
        forall|i: int|
            0 <= i < final(env).memo@.len()
                ==> final(env).memo@[i] == (if visited(*n, old(env).truth@).contains(i) {
                    Some(old(env).truth@[i])
                } else {
                    old(env).memo@[i]
                }),
        forall|i: int|
            0 <= i < final(env).calls@.len()
                ==> final(env).calls@[i] as int == old(env).calls@[i] as int
                    + (if visited(*n, old(env).truth@).contains(i)
                        && old(env).memo@[i] is None {
                        1int
                    } else {
                        0int
                    }),
    decreases n,
{
    match n {
        Node::Atom(id) => {
            let id = *id;
            match env.memo[id] {
                Some(v) => v,
                None => {
                    let c = env.calls[id];
                    env.calls.set(id, c + 1);
                    let v = env.truth[id];
                    env.memo.set(id, Some(v));
                    v
                },
            }
        },
        Node::Not(a) => {
            match eval_node(a, env) {
                FilterResult::Drop => FilterResult::Drop,
                FilterResult::Accept => FilterResult::Continue,
                FilterResult::Continue => FilterResult::Accept,
            }
        },
        Node::And(a, b) => {
            match eval_node(a, env) {
                FilterResult::Drop => FilterResult::Drop,
                FilterResult::Continue => FilterResult::Continue,
                FilterResult::Accept => eval_node(b, env),
            }
        },
        Node::Or(a, b) => {
            match eval_node(a, env) {
                FilterResult::Drop => FilterResult::Drop,
                FilterResult::Accept => FilterResult::Accept,
                FilterResult::Continue => eval_node(b, env),
            }
        },
    }
}

} // verus!
