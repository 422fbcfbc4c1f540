//! Tests of the filter expression parser.

use iris::ast::Pred;
use iris::level::Level;
use iris::parse::{parse, ParseError};

fn atom(name: &str) -> Pred {
    Pred::Atom(name.as_bytes().to_vec())
}

fn and(a: Pred, b: Pred) -> Pred {
    Pred::And(Box::new(a), Box::new(b))
}

fn or(a: Pred, b: Pred) -> Pred {
    Pred::Or(Box::new(a), Box::new(b))
}

#[test]
fn parses_single_atom() {
    let pf = parse(b"tls").unwrap();
    assert_eq!(pf.tree, atom("tls"));
    assert_eq!(pf.level, None);
    assert_eq!(pf.file, None);
}

#[test]
fn and_binds_tighter_than_or() {
    let pf = parse(b"a and b or c and d").unwrap();
    assert_eq!(pf.tree, or(and(atom("a"), atom("b")), and(atom("c"), atom("d"))));
}

#[test]
fn conjunction_is_left_associative() {
    let pf = parse(b"a and b and c").unwrap();
    assert_eq!(pf.tree, and(and(atom("a"), atom("b")), atom("c")));
}

#[test]
fn disjunction_is_left_associative() {
    let pf = parse(b"a or b or c").unwrap();
    assert_eq!(pf.tree, or(or(atom("a"), atom("b")), atom("c")));
}

#[test]
fn parentheses_group() {
    let pf = parse(b"(a or b) and c").unwrap();
    assert_eq!(pf.tree, and(or(atom("a"), atom("b")), atom("c")));
}

#[test]
fn negation_is_prefix() {
    let pf = parse(b"not tls").unwrap();
    assert_eq!(pf.tree, Pred::Not(Box::new(atom("tls"))));
    let pf = parse(b"not not tls").unwrap();
    assert_eq!(pf.tree, Pred::Not(Box::new(Pred::Not(Box::new(atom("tls"))))));
}

#[test]
fn level_modifier_attaches_to_whole_expression() {
    let pf = parse(b"tls and ShortConnLen,level=L4Terminated").unwrap();
    assert_eq!(pf.tree, and(atom("tls"), atom("ShortConnLen")));
    assert_eq!(pf.level, Some(Level::L4Terminated));
    assert_eq!(pf.file, None);
}

#[test]
fn every_level_name_parses() {
    for (name, l) in [
        ("L4FirstPacket", Level::L4FirstPacket),
        ("L4InPayload", Level::L4InPayload),
        ("L7OnDisc", Level::L7OnDisc),
        ("L7EndHdrs", Level::L7EndHdrs),
        ("L4Terminated", Level::L4Terminated),
    ] {
        let expr = format!("tls,level={}", name);
        let pf = parse(expr.as_bytes()).unwrap();
        assert_eq!(pf.level, Some(l));
    }
}

#[test]
fn file_modifier_holds_the_path() {
    let pf = parse(b"tls,file=/etc/subscribers.txt").unwrap();
    assert_eq!(pf.tree, atom("tls"));
    assert_eq!(pf.level, None);
    assert_eq!(pf.file, Some(b"/etc/subscribers.txt".to_vec()));
}

#[test]
fn file_atom_inside_expression() {
    let pf = parse(b"tls and file=$HOME/snis.txt").unwrap();
    assert_eq!(
        pf.tree,
        and(atom("tls"), Pred::FileAtom(b"$HOME/snis.txt".to_vec()))
    );
}

#[test]
fn whitespace_is_insignificant() {
    let a = parse(b"a and ( b or c )").unwrap();
    let b = parse(b"a  and (b or c)").unwrap();
    assert_eq!(a, b);
}

#[test]
fn rejects_trailing_operator() {
    assert_eq!(parse(b"tls and"), Err(ParseError::UnexpectedToken));
}

#[test]
fn rejects_leading_operator() {
    assert_eq!(parse(b"and tls"), Err(ParseError::UnexpectedToken));
}

#[test]
fn rejects_unbalanced_parens() {
    assert_eq!(parse(b"(tls and http"), Err(ParseError::UnexpectedToken));
}

#[test]
fn rejects_empty_input() {
    assert_eq!(parse(b""), Err(ParseError::UnexpectedToken));
}

#[test]
fn rejects_unknown_level_name() {
    assert_eq!(parse(b"tls,level=L9Wrong"), Err(ParseError::UnknownLevel));
}

#[test]
fn rejects_garbage_after_expression() {
    assert_eq!(parse(b"tls http"), Err(ParseError::UnexpectedToken));
}

#[test]
fn word_file_without_equals_is_an_atom() {
    let pf = parse(b"file and tls").unwrap();
    assert_eq!(pf.tree, and(atom("file"), atom("tls")));
}
