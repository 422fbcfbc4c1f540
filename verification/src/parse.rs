//! Recursive-descent parser for the filter expression mini-language.
//!
//! Grammar, over the tokens of [`crate::token`]:
//!
//! ```text
//! filter    := expr [ "," ("level" | "file") "=" WORD ]
//! expr      := or_expr
//! or_expr   := and_expr ("or" and_expr)*      (left-associative)
//! and_expr  := unary ("and" unary)*           (left-associative)
//! unary     := "not" unary | primary
//! atom      := IDENT | "file" "=" WORD | "(" expr ")"
//! ```
//!
//! `and` binds tighter than `or`.  An `IDENT` is a word of the shape
//! `[A-Za-z_][A-Za-z0-9_]*` other than the keywords `and`, `or`, `not`.
//! The parser is written twice: once as specification functions over
//! token views, once as executable code proved to return exactly what
//! the specification says.

use vstd::prelude::*;

use crate::ast::{Pred, PredView};
use crate::level::Level;
use crate::token::{spec_tokens, tokenize, toks_view, Tok, TokView};

verus! {

// ---------------------------------------------------------------------
// Keywords and level names
// ---------------------------------------------------------------------

/// The bytes of the keyword `and`.
pub open spec fn kw_and() -> Seq<u8> {
    seq![97u8, 110u8, 100u8]
}

/// The bytes of the keyword `or`.
pub open spec fn kw_or() -> Seq<u8> {
    seq![111u8, 114u8]
}

/// The bytes of the keyword `not`.
pub open spec fn kw_not() -> Seq<u8> {
    seq![110u8, 111u8, 116u8]
}

/// The bytes of the keyword `file`.
pub open spec fn kw_file() -> Seq<u8> {
    seq![102u8, 105u8, 108u8, 101u8]
}

/// The bytes of the keyword `level`.
pub open spec fn kw_level() -> Seq<u8> {
    seq![108u8, 101u8, 118u8, 101u8, 108u8]
}

/// The name of a level as it stands in a filter string.
pub open spec fn level_name(l: Level) -> Seq<u8> {
    match l {
        Level::L4FirstPacket => seq![
            76u8, 52u8, 70u8, 105u8, 114u8, 115u8, 116u8, 80u8, 97u8, 99u8, 107u8, 101u8, 116u8,
        ],
        Level::L4InPayload => seq![
            76u8, 52u8, 73u8, 110u8, 80u8, 97u8, 121u8, 108u8, 111u8, 97u8, 100u8,
        ],
        Level::L7OnDisc => seq![76u8, 55u8, 79u8, 110u8, 68u8, 105u8, 115u8, 99u8],
        Level::L7EndHdrs => seq![76u8, 55u8, 69u8, 110u8, 100u8, 72u8, 100u8, 114u8, 115u8],
        Level::L4Terminated => seq![
            76u8, 52u8, 84u8, 101u8, 114u8, 109u8, 105u8, 110u8, 97u8, 116u8, 101u8, 100u8,
        ],
    }
}

/// The level a name denotes, if any.
pub open spec fn spec_level_of(w: Seq<u8>) -> Option<Level> {
    if w == level_name(Level::L4FirstPacket) {
        Some(Level::L4FirstPacket)
    } else if w == level_name(Level::L4InPayload) {
        Some(Level::L4InPayload)
    } else if w == level_name(Level::L7OnDisc) {
        Some(Level::L7OnDisc)
    } else if w == level_name(Level::L7EndHdrs) {
        Some(Level::L7EndHdrs)
    } else if w == level_name(Level::L4Terminated) {
        Some(Level::L4Terminated)
    } else {
        None
    }
}

/// Whether two byte strings hold the same bytes.
pub fn bytes_eq(a: &[u8], b: &[u8]) -> (r: bool)
    ensures
        r == (a@ == b@),
{
    if a.len() != b.len() {
        proof {
            assert(a@ != b@) by {
                if a@ == b@ {
                    assert(a@.len() == b@.len());
                }
            }
        }
        return false;
    }
    let n = a.len();
    let mut i: usize = 0;
    while i < n
        invariant
            i <= n,
            n == a@.len() == b@.len(),
            forall|k: int| 0 <= k < i ==> a@[k] == b@[k],
        decreases n - i,
    {
        if a[i] != b[i] {
            proof {
                assert(a@ != b@) by {
                    if a@ == b@ {
                        assert(a@[i as int] == b@[i as int]);
                    }
                }
            }
            return false;
        }
        i = i + 1;
    }
    proof {
        assert(a@ =~= b@);
    }
    true
}

/// The keyword `and`, as a byte vector.
pub fn kw_and_vec() -> (r: Vec<u8>)
    ensures
        r@ == kw_and(),
{
    let mut v: Vec<u8> = Vec::new();
    v.push(97);
    v.push(110);
    v.push(100);
    proof {
        assert(v@ =~= kw_and());
    }
    v
}

/// The keyword `or`, as a byte vector.
pub fn kw_or_vec() -> (r: Vec<u8>)
    ensures
        r@ == kw_or(),
{
    let mut v: Vec<u8> = Vec::new();
    v.push(111);
    v.push(114);
    proof {
        assert(v@ =~= kw_or());
    }
    v
}

/// The keyword `not`, as a byte vector.
pub fn kw_not_vec() -> (r: Vec<u8>)
    ensures
        r@ == kw_not(),
{
    let mut v: Vec<u8> = Vec::new();
    v.push(110);
    v.push(111);
    v.push(116);
    proof {
        assert(v@ =~= kw_not());
    }
    v
}

/// The keyword `file`, as a byte vector.
pub fn kw_file_vec() -> (r: Vec<u8>)
    ensures
        r@ == kw_file(),
{
    let mut v: Vec<u8> = Vec::new();
    v.push(102);
    v.push(105);
    v.push(108);
    v.push(101);
    proof {
        assert(v@ =~= kw_file());
    }
    v
}

/// The keyword `level`, as a byte vector.
pub fn kw_level_vec() -> (r: Vec<u8>)
    ensures
        r@ == kw_level(),
{
    let mut v: Vec<u8> = Vec::new();
    v.push(108);
    v.push(101);
    v.push(118);
    v.push(101);
    v.push(108);
    proof {
        assert(v@ =~= kw_level());
    }
    v
}

/// The name of a level, as a byte vector.
pub fn level_word(l: Level) -> (r: Vec<u8>)
    ensures
        r@ == level_name(l),
{
    let mut v: Vec<u8> = Vec::new();
    match l {
        Level::L4FirstPacket => {
            v.push(76);
            v.push(52);
            v.push(70);
            v.push(105);
            v.push(114);
            v.push(115);
            v.push(116);
            v.push(80);
            v.push(97);
            v.push(99);
            v.push(107);
            v.push(101);
            v.push(116);
        },
        Level::L4InPayload => {
            v.push(76);
            v.push(52);
            v.push(73);
            v.push(110);
            v.push(80);
            v.push(97);
            v.push(121);
            v.push(108);
            v.push(111);
            v.push(97);
            v.push(100);
        },
        Level::L7OnDisc => {
            v.push(76);
            v.push(55);
            v.push(79);
            v.push(110);
            v.push(68);
            v.push(105);
            v.push(115);
            v.push(99);
        },
        Level::L7EndHdrs => {
            v.push(76);
            v.push(55);
            v.push(69);
            v.push(110);
            v.push(100);
            v.push(72);
            v.push(100);
            v.push(114);
            v.push(115);
        },
        Level::L4Terminated => {
            v.push(76);
            v.push(52);
            v.push(84);
            v.push(101);
            v.push(114);
            v.push(109);
            v.push(105);
            v.push(110);
            v.push(97);
            v.push(116);
            v.push(101);
            v.push(100);
        },
    }
    proof {
        assert(v@ =~= level_name(l));
    }
    v
}

/// Resolve a word to a level name.
pub fn level_of_word(w: &[u8]) -> (r: Option<Level>)
    ensures
        r == spec_level_of(w@),
{
    let n0 = level_word(Level::L4FirstPacket);
    if bytes_eq(w, n0.as_slice()) {
        return Some(Level::L4FirstPacket);
    }
    let n1 = level_word(Level::L4InPayload);
    if bytes_eq(w, n1.as_slice()) {
        return Some(Level::L4InPayload);
    }
    let n2 = level_word(Level::L7OnDisc);
    if bytes_eq(w, n2.as_slice()) {
        return Some(Level::L7OnDisc);
    }
    let n3 = level_word(Level::L7EndHdrs);
    if bytes_eq(w, n3.as_slice()) {
        return Some(Level::L7EndHdrs);
    }
    let n4 = level_word(Level::L4Terminated);
    if bytes_eq(w, n4.as_slice()) {
        return Some(Level::L4Terminated);
    }
    None
}

// ---------------------------------------------------------------------
// Identifiers
// ---------------------------------------------------------------------

/// An ASCII letter.
pub open spec fn is_alpha(b: u8) -> bool {
    (65 <= b <= 90) || (97 <= b <= 122)
}

/// An ASCII digit.
pub open spec fn is_digit(b: u8) -> bool {
    48 <= b <= 57
}

/// A byte that may open an identifier: a letter or `_`.
pub open spec fn is_ident_start(b: u8) -> bool {
    is_alpha(b) || b == 95
}

/// A byte that may continue an identifier.
pub open spec fn is_ident_byte(b: u8) -> bool {
    is_alpha(b) || is_digit(b) || b == 95
}

/// A word of the shape `[A-Za-z_][A-Za-z0-9_]*`.
pub open spec fn spec_is_ident(w: Seq<u8>) -> bool {
    &&& w.len() > 0
    &&& is_ident_start(w[0])
    &&& forall|k: int| 1 <= k < w.len() ==> is_ident_byte(#[trigger] w[k])
}

/// Whether a word is an identifier.
pub fn is_ident(w: &[u8]) -> (r: bool)
    ensures
        r == spec_is_ident(w@),
{
    let n = w.len();
    if n == 0 {
        return false;
    }
    let b0 = w[0];
    if !((65 <= b0 && b0 <= 90) || (97 <= b0 && b0 <= 122) || b0 == 95) {
        return false;
    }
    let mut i: usize = 1;
    while i < n
        invariant
            1 <= i <= n,
            n == w@.len(),
            is_ident_start(w@[0]),
            forall|k: int| 1 <= k < i ==> is_ident_byte(#[trigger] w@[k]),
        decreases n - i,
    {
        let b = w[i];
        if !((65 <= b && b <= 90) || (97 <= b && b <= 122) || (48 <= b && b <= 57) || b == 95) {
            return false;
        }
        i = i + 1;
    }
    true
}


// ---------------------------------------------------------------------
// The parser, as specification functions over token views
// ---------------------------------------------------------------------
//
// Each function takes the token sequence and a position and yields the
// parsed tree together with the position after it, or `None`.  The
// checks `pos < p` on the position a sub-parse returns make the
// recursion well-founded; every sub-parse does advance, so executable
// code proved equal to these functions never fails them.

/// Parse one atom: an identifier, a `file=PATH` membership test, or a
/// parenthesised expression.
pub open spec fn sp_primary(toks: Seq<TokView>, pos: int) -> Option<(PredView, int)>
    decreases toks.len() - pos, 0int,
{
    if !(0 <= pos < toks.len()) {
        None
    } else {
        match toks[pos] {
            TokView::LParen => match sp_or(toks, pos + 1) {
                Some((t, p)) => if pos + 1 <= p < toks.len() && toks[p] is RParen {
                    Some((t, p + 1))
                } else {
                    None
                },
                None => None,
            },
            TokView::Word(w) => if w == kw_file() && pos + 2 < toks.len() && toks[pos + 1] is Eq {
                match toks[pos + 2] {
                    TokView::Word(path) => Some((PredView::FileAtom(path), pos + 3)),
                    _ => None,
                }
            } else if spec_is_ident(w) && w != kw_and() && w != kw_or() && w != kw_not() {
                Some((PredView::Atom(w), pos + 1))
            } else {
                None
            },
            _ => None,
        }
    }
}

/// Parse a unary expression: any number of `not` before an atom.
pub open spec fn sp_unary(toks: Seq<TokView>, pos: int) -> Option<(PredView, int)>
    decreases toks.len() - pos, 1int,
{
    if 0 <= pos < toks.len() && toks[pos] == TokView::Word(kw_not()) {
        match sp_unary(toks, pos + 1) {
            Some((t, p)) => Some((PredView::Not(Box::new(t)), p)),
            None => None,
        }
    } else {
        sp_primary(toks, pos)
    }
}

/// After a parsed left operand, fold further `and unary` onto it,
/// left-associatively.
pub open spec fn sp_and_rest(toks: Seq<TokView>, pos: int, acc: PredView) -> Option<
    (PredView, int),
>
    decreases toks.len() - pos, 2int,
{
    if 0 <= pos < toks.len() && toks[pos] == TokView::Word(kw_and()) {
        match sp_unary(toks, pos + 1) {
            Some((t, p)) => if pos < p <= toks.len() {
                sp_and_rest(toks, p, PredView::And(Box::new(acc), Box::new(t)))
            } else {
                None
            },
            None => None,
        }
    } else {
        Some((acc, pos))
    }
}

/// Parse a conjunction.
pub open spec fn sp_and(toks: Seq<TokView>, pos: int) -> Option<(PredView, int)>
    decreases toks.len() - pos, 3int,
{
    match sp_unary(toks, pos) {
        Some((t, p)) => if pos < p <= toks.len() {
            sp_and_rest(toks, p, t)
        } else {
            None
        },
        None => None,
    }
}

/// After a parsed left operand, fold further `or and_expr` onto it,
/// left-associatively.
pub open spec fn sp_or_rest(toks: Seq<TokView>, pos: int, acc: PredView) -> Option<
    (PredView, int),
>
    decreases toks.len() - pos, 4int,
{
    if 0 <= pos < toks.len() && toks[pos] == TokView::Word(kw_or()) {
        match sp_and(toks, pos + 1) {
            Some((t, p)) => if pos < p <= toks.len() {
                sp_or_rest(toks, p, PredView::Or(Box::new(acc), Box::new(t)))
            } else {
                None
            },
            None => None,
        }
    } else {
        Some((acc, pos))
    }
}

/// Parse a disjunction: a whole expression.
pub open spec fn sp_or(toks: Seq<TokView>, pos: int) -> Option<(PredView, int)>
    decreases toks.len() - pos, 5int,
{
    match sp_and(toks, pos) {
        Some((t, p)) => if pos < p <= toks.len() {
            sp_or_rest(toks, p, t)
        } else {
            None
        },
        None => None,
    }
}

// ---------------------------------------------------------------------
// The parsed filter and the top-level parse
// ---------------------------------------------------------------------

/// Why a filter string was rejected.
#[derive(Clone, Copy, Debug, PartialEq, Eq, Structural)]
pub enum ParseError {
    /// The token stream does not follow the grammar.
    UnexpectedToken,
    /// The `level=` modifier names no known level.
    UnknownLevel,
    /// A declaration that needs a `level=` modifier lacks one.
    MissingLevel,
}

/// A parsed filter string: the predicate tree and the optional
/// trailing modifier.
#[derive(Debug, PartialEq, Eq)]
pub struct ParsedFilter {
    /// The predicate tree of the expression.
    pub tree: Pred,
    /// The level of a trailing `,level=<Level>` modifier.
    pub level: Option<Level>,
    /// The path of a trailing `,file=<path>` modifier.
    pub file: Option<Vec<u8>>,
}

/// The mathematical shape of a [`ParsedFilter`].
#[verifier::ext_equal]
pub struct ParsedFilterView {
    /// The predicate tree of the expression.
    pub tree: PredView,
    /// The level of a trailing `,level=<Level>` modifier.
    pub level: Option<Level>,
    /// The path of a trailing `,file=<path>` modifier.
    pub file: Option<Seq<u8>>,
}

impl View for ParsedFilter {
    type V = ParsedFilterView;

    open spec fn view(&self) -> ParsedFilterView {
        ParsedFilterView {
            tree: self.tree@,
            level: self.level,
            file: match self.file {
                Some(v) => Some(v@),
                None => None,
            },
        }
    }
}

/// What parsing a filter string yields: a parsed filter, or the reason
/// it was rejected.
pub enum ParseOutcome {
    /// The string follows the grammar.
    Parsed(ParsedFilterView),
    /// The string does not.
    Failed(ParseError),
}

/// Parse a whole token sequence: an expression followed by nothing, or
/// by one trailing `,level=<Level>` or `,file=<path>` modifier.
pub open spec fn sp_filter(toks: Seq<TokView>) -> ParseOutcome {
    match sp_or(toks, 0) {
        None => ParseOutcome::Failed(ParseError::UnexpectedToken),
        Some((t, p)) => if p == toks.len() {
            ParseOutcome::Parsed(ParsedFilterView { tree: t, level: None, file: None })
        } else if p + 4 == toks.len() && toks[p] is Comma && toks[p + 2] is Eq {
            if toks[p + 1] == TokView::Word(kw_level()) {
                match toks[p + 3] {
                    TokView::Word(w) => match spec_level_of(w) {
                        Some(l) => ParseOutcome::Parsed(
                            ParsedFilterView { tree: t, level: Some(l), file: None },
                        ),
                        None => ParseOutcome::Failed(ParseError::UnknownLevel),
                    },
                    _ => ParseOutcome::Failed(ParseError::UnexpectedToken),
                }
            } else if toks[p + 1] == TokView::Word(kw_file()) {
                match toks[p + 3] {
                    TokView::Word(w) => ParseOutcome::Parsed(
                        ParsedFilterView { tree: t, level: None, file: Some(w) },
                    ),
                    _ => ParseOutcome::Failed(ParseError::UnexpectedToken),
                }
            } else {
                ParseOutcome::Failed(ParseError::UnexpectedToken)
            }
        } else {
            ParseOutcome::Failed(ParseError::UnexpectedToken)
        },
    }
}

/// What parsing a filter string yields.
pub open spec fn spec_parse(s: Seq<u8>) -> ParseOutcome {
    sp_filter(spec_tokens(s))
}

// ---------------------------------------------------------------------
// The parser, executable
// ---------------------------------------------------------------------

/// Parse one atom.
fn parse_primary(toks: &Vec<Tok>, pos: usize) -> (r: Option<(Pred, usize)>)
    ensures
        r is None ==> sp_primary(toks_view(toks@), pos as int) is None,
        r matches Some(tp) ==> sp_primary(toks_view(toks@), pos as int) == Some(
            (tp.0@, tp.1 as int),
        ),
    decreases toks@.len() - pos, 0int,
{
    proof {
        assert(toks_view(toks@).len() == toks@.len());
    }
    if pos >= toks.len() {
        return None;
    }
    proof {
        assert(toks_view(toks@)[pos as int] == toks@[pos as int]@);
    }
    match &toks[pos] {
        Tok::LParen => {
            match parse_or(toks, pos + 1) {
                Some((t, p)) => {
                    proof {
                        if p < toks@.len() {
                            assert(toks_view(toks@)[p as int] == toks@[p as int]@);
                        }
                    }
                    if pos + 1 <= p && p < toks.len() && matches!(&toks[p], Tok::RParen) {
                        Some((t, p + 1))
                    } else {
                        None
                    }
                },
                None => None,
            }
        },
        Tok::Word(w) => {
            let fkw = kw_file_vec();
            let is_file = bytes_eq(w.as_slice(), fkw.as_slice());
            if is_file && toks.len() - pos > 2 && matches!(&toks[pos + 1], Tok::Eq) {
                proof {
                    assert(toks_view(toks@)[pos as int + 1] == toks@[pos as int + 1]@);
                    assert(toks_view(toks@)[pos as int + 2] == toks@[pos as int + 2]@);
                }
                match &toks[pos + 2] {
                    Tok::Word(path) => {
                        let path2 = clone_bytes(path);
                        Some((Pred::FileAtom(path2), pos + 3))
                    },
                    _ => None,
                }
            } else {
                proof {
                    if pos as int + 1 < toks@.len() {
                        assert(toks_view(toks@)[pos as int + 1] == toks@[pos as int + 1]@);
                    }
                }
                let akw = kw_and_vec();
                let okw = kw_or_vec();
                let nkw = kw_not_vec();
                if is_ident(w.as_slice()) && !bytes_eq(w.as_slice(), akw.as_slice())
                    && !bytes_eq(w.as_slice(), okw.as_slice())
                    && !bytes_eq(w.as_slice(), nkw.as_slice()) {
                    let w2 = clone_bytes(w);
                    Some((Pred::Atom(w2), pos + 1))
                } else {
                    None
                }
            }
        },
        _ => None,
    }
}

/// Copy a byte string.
pub fn clone_bytes(v: &Vec<u8>) -> (r: Vec<u8>)
    ensures
        r@ == v@,
{
    let n = v.len();
    let mut r: Vec<u8> = Vec::new();
    let mut i: usize = 0;
    while i < n
        invariant
            i <= n,
            n == v@.len(),
            r@ == v@.subrange(0, i as int),
        decreases n - i,
    {
        r.push(v[i]);
        proof {
            assert(r@ =~= v@.subrange(0, i as int + 1));
        }
        i = i + 1;
    }
    proof {
        assert(r@ =~= v@);
    }
    r
}

/// Parse a unary expression.
fn parse_unary(toks: &Vec<Tok>, pos: usize) -> (r: Option<(Pred, usize)>)
    ensures
        r is None ==> sp_unary(toks_view(toks@), pos as int) is None,
        r matches Some(tp) ==> sp_unary(toks_view(toks@), pos as int) == Some(
            (tp.0@, tp.1 as int),
        ),
    decreases toks@.len() - pos, 1int,
{
    proof {
        assert(toks_view(toks@).len() == toks@.len());
        if (pos as int) < toks@.len() {
            assert(toks_view(toks@)[pos as int] == toks@[pos as int]@);
        }
    }
    let is_not = if pos < toks.len() {
        match &toks[pos] {
            Tok::Word(w) => {
                let nkw = kw_not_vec();
                bytes_eq(w.as_slice(), nkw.as_slice())
            },
            _ => false,
        }
    } else {
        false
    };
    if is_not {
        match parse_unary(toks, pos + 1) {
            Some((t, p)) => Some((Pred::Not(Box::new(t)), p)),
            None => None,
        }
    } else {
        parse_primary(toks, pos)
    }
}

/// Fold further `and unary` onto a parsed left operand.
fn parse_and_rest(toks: &Vec<Tok>, pos: usize, acc: Pred) -> (r: Option<(Pred, usize)>)
    ensures
        r is None ==> sp_and_rest(toks_view(toks@), pos as int, acc@) is None,
        r matches Some(tp) ==> sp_and_rest(toks_view(toks@), pos as int, acc@) == Some(
            (tp.0@, tp.1 as int),
        ),
    decreases toks@.len() - pos, 2int,
{
    proof {
        assert(toks_view(toks@).len() == toks@.len());
        if (pos as int) < toks@.len() {
            assert(toks_view(toks@)[pos as int] == toks@[pos as int]@);
        }
    }
    let is_and = if pos < toks.len() {
        match &toks[pos] {
            Tok::Word(w) => {
                let akw = kw_and_vec();
                bytes_eq(w.as_slice(), akw.as_slice())
            },
            _ => false,
        }
    } else {
        false
    };
    if is_and {
        match parse_unary(toks, pos + 1) {
            Some((t, p)) => {
                if pos < p && p <= toks.len() {
                    parse_and_rest(toks, p, Pred::And(Box::new(acc), Box::new(t)))
                } else {
                    None
                }
            },
            None => None,
        }
    } else {
        Some((acc, pos))
    }
}

/// Parse a conjunction.
fn parse_and(toks: &Vec<Tok>, pos: usize) -> (r: Option<(Pred, usize)>)
    ensures
        r is None ==> sp_and(toks_view(toks@), pos as int) is None,
        r matches Some(tp) ==> sp_and(toks_view(toks@), pos as int) == Some(
            (tp.0@, tp.1 as int),
        ),
    decreases toks@.len() - pos, 3int,
{
    match parse_unary(toks, pos) {
        Some((t, p)) => {
            if pos < p && p <= toks.len() {
                parse_and_rest(toks, p, t)
            } else {
                None
            }
        },
        None => None,
    }
}

/// Fold further `or and_expr` onto a parsed left operand.
fn parse_or_rest(toks: &Vec<Tok>, pos: usize, acc: Pred) -> (r: Option<(Pred, usize)>)
    ensures
        r is None ==> sp_or_rest(toks_view(toks@), pos as int, acc@) is None,
        r matches Some(tp) ==> sp_or_rest(toks_view(toks@), pos as int, acc@) == Some(
            (tp.0@, tp.1 as int),
        ),
    decreases toks@.len() - pos, 4int,
{
    proof {
        assert(toks_view(toks@).len() == toks@.len());
        if (pos as int) < toks@.len() {
            assert(toks_view(toks@)[pos as int] == toks@[pos as int]@);
        }
    }
    let is_or = if pos < toks.len() {
        match &toks[pos] {
            Tok::Word(w) => {
                let okw = kw_or_vec();
                bytes_eq(w.as_slice(), okw.as_slice())
            },
            _ => false,
        }
    } else {
        false
    };
    if is_or {
        match parse_and(toks, pos + 1) {
            Some((t, p)) => {
                if pos < p && p <= toks.len() {
                    parse_or_rest(toks, p, Pred::Or(Box::new(acc), Box::new(t)))
                } else {
                    None
                }
            },
            None => None,
        }
    } else {
        Some((acc, pos))
    }
}

/// Parse a disjunction: a whole expression.
fn parse_or(toks: &Vec<Tok>, pos: usize) -> (r: Option<(Pred, usize)>)
    ensures
        r is None ==> sp_or(toks_view(toks@), pos as int) is None,
        r matches Some(tp) ==> sp_or(toks_view(toks@), pos as int) == Some(
            (tp.0@, tp.1 as int),
        ),
    decreases toks@.len() - pos, 5int,
{
    match parse_and(toks, pos) {
        Some((t, p)) => {
            if pos < p && p <= toks.len() {
                parse_or_rest(toks, p, t)
            } else {
                None
            }
        },
        None => None,
    }
}

/// Parse a filter string: an expression with an optional trailing
/// `,level=<Level>` or `,file=<path>` modifier.
pub fn parse(input: &[u8]) -> (r: Result<ParsedFilter, ParseError>)
    ensures
        r matches Ok(pf) ==> spec_parse(input@) == ParseOutcome::Parsed(pf@),
        r matches Err(e) ==> spec_parse(input@) == ParseOutcome::Failed(e),
{
    let toks = tokenize(input);
    let ghost tv = toks_view(toks@);
    proof {
        assert(tv == spec_tokens(input@));
        assert(tv.len() == toks@.len());
    }
    match parse_or(&toks, 0) {
        None => Err(ParseError::UnexpectedToken),
        Some((tree, p)) => {
            if p == toks.len() {
                let pf = ParsedFilter { tree, level: None, file: None };
                proof {
                    assert(spec_parse(input@) == ParseOutcome::Parsed(pf@));
                }
                Ok(pf)
            } else if p <= toks.len() && toks.len() - p == 4 && matches!(&toks[p], Tok::Comma)
                && matches!(&toks[p + 2], Tok::Eq) {
                proof {
                    assert(tv[p as int] == toks@[p as int]@);
                    assert(tv[p as int + 1] == toks@[p as int + 1]@);
                    assert(tv[p as int + 2] == toks@[p as int + 2]@);
                    assert(tv[p as int + 3] == toks@[p as int + 3]@);
                }
                let lkw = kw_level_vec();
                let fkw = kw_file_vec();
                let is_level_kw = match &toks[p + 1] {
                    Tok::Word(w) => bytes_eq(w.as_slice(), lkw.as_slice()),
                    _ => false,
                };
                let is_file_kw = match &toks[p + 1] {
                    Tok::Word(w) => bytes_eq(w.as_slice(), fkw.as_slice()),
                    _ => false,
                };
                if is_level_kw {
                    match &toks[p + 3] {
                        Tok::Word(w) => match level_of_word(w.as_slice()) {
                            Some(l) => {
                                let pf = ParsedFilter { tree, level: Some(l), file: None };
                                proof {
                                    assert(spec_parse(input@) == ParseOutcome::Parsed(pf@));
                                }
                                Ok(pf)
                            },
                            None => Err(ParseError::UnknownLevel),
                        },
                        _ => Err(ParseError::UnexpectedToken),
                    }
                } else if is_file_kw {
                    match &toks[p + 3] {
                        Tok::Word(w) => {
                            let w2 = clone_bytes(w);
                            let pf = ParsedFilter { tree, level: None, file: Some(w2) };
                            proof {
                                assert(spec_parse(input@) == ParseOutcome::Parsed(pf@));
                            }
                            Ok(pf)
                        },
                        _ => Err(ParseError::UnexpectedToken),
                    }
                } else {
                    Err(ParseError::UnexpectedToken)
                }
            } else {
                Err(ParseError::UnexpectedToken)
            }
        },
    }
}

} // verus!
