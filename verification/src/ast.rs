//! Predicate trees and filter outcomes.

use vstd::prelude::*;

verus! {

/// Outcome of evaluating a filter, or of asking an atom for its value.
///
/// `Accept` terminates further gating in the filter's favour, `Drop`
/// terminates the connection, and `Continue` defers the decision to a
/// later level.
#[derive(Clone, Copy, Debug, PartialEq, Eq, Structural)]
pub enum FilterResult {
    /// The predicate holds; the connection passes this gate.
    Accept,
    /// The connection is to be terminated at once.
    Drop,
    /// The predicate does not hold here; later levels decide.
    Continue,
}

/// A binary predicate tree over named atoms, as produced by the
/// expression parser.
///
/// An atom is a protocol-presence test or a reference to another
/// declared filter or datatype (`Atom`), or a side-file membership test
/// (`FileAtom`, holding the file path).
#[derive(Debug, PartialEq, Eq)]
pub enum Pred {
    /// A named atom: protocol presence, or a declared filter/datatype.
    Atom(Vec<u8>),
    /// Membership of the connection's key in a side file.
    FileAtom(Vec<u8>),
    /// Logical negation.
    Not(Box<Pred>),
    /// Conjunction; the right side is only evaluated when the left
    /// side accepts.
    And(Box<Pred>, Box<Pred>),
    /// Disjunction; the right side is only evaluated when the left
    /// side defers.
    Or(Box<Pred>, Box<Pred>),
}

/// The mathematical shape of a [`Pred`].
pub enum PredView {
    /// A named atom.
    Atom(Seq<u8>),
    /// A side-file membership test.
    FileAtom(Seq<u8>),
    /// Logical negation.
    Not(Box<PredView>),
    /// Conjunction.
    And(Box<PredView>, Box<PredView>),
    /// Disjunction.
    Or(Box<PredView>, Box<PredView>),
}

impl View for Pred {
    type V = PredView;

    open spec fn view(&self) -> PredView
        decreases self,
    {
        match self {
            Pred::Atom(w) => PredView::Atom(w@),
            Pred::FileAtom(w) => PredView::FileAtom(w@),
            Pred::Not(a) => PredView::Not(Box::new((**a).view())),
            Pred::And(a, b) => PredView::And(
                Box::new((**a).view()),
                Box::new((**b).view()),
            ),
            Pred::Or(a, b) => PredView::Or(
                Box::new((**a).view()),
                Box::new((**b).view()),
            ),
        }
    }
}

} // verus!
