use typed_syntax::ast::nodes::{ContinueStmt, Name, Script};
use typed_syntax::ast::AstNode;
use typed_syntax::format::{
    concat_elements, empty_element, space_token, token, FormatElement, Formatter, ToFormatElement,
};
use typed_syntax::syntax::{
    ElementId, NodeData, SyntaxElement, SyntaxKind, SyntaxTree, TextRange, TokenData,
};

fn tok(kind: SyntaxKind, parent: usize, start: usize, end: usize) -> TokenData {
    TokenData { kind, parent, range: TextRange::new(start, end) }
}

fn node(
    kind: SyntaxKind,
    parent: Option<usize>,
    children: Vec<ElementId>,
    first_token: usize,
    end_token: usize,
) -> NodeData {
    NodeData { kind, parent, children, first_token, end_token }
}

fn text(s: &str) -> FormatElement {
    FormatElement::Token(String::from(s))
}

/// `continue;`
fn plain_continue() -> SyntaxTree {
    let nodes = vec![node(
        SyntaxKind::CONTINUE_STMT,
        None,
        vec![ElementId::Token(0), ElementId::Token(1)],
        0,
        2,
    )];
    let tokens = vec![tok(SyntaxKind::CONTINUE_KW, 0, 0, 8), tok(SyntaxKind::SEMICOLON, 0, 8, 9)];
    SyntaxTree::new(String::from("continue;"), nodes, tokens).expect("a sound tree")
}

/// `continue outer;`
fn labelled_continue() -> SyntaxTree {
    let nodes = vec![
        node(
            SyntaxKind::CONTINUE_STMT,
            None,
            vec![
                ElementId::Token(0),
                ElementId::Token(1),
                ElementId::Node(1),
                ElementId::Token(3),
            ],
            0,
            4,
        ),
        node(SyntaxKind::NAME, Some(0), vec![ElementId::Token(2)], 2, 3),
    ];
    let tokens = vec![
        tok(SyntaxKind::CONTINUE_KW, 0, 0, 8),
        tok(SyntaxKind::WHITESPACE, 0, 8, 9),
        tok(SyntaxKind::IDENT, 1, 9, 14),
        tok(SyntaxKind::SEMICOLON, 0, 14, 15),
    ];
    SyntaxTree::new(String::from("continue outer;"), nodes, tokens).expect("a sound tree")
}

#[test]
fn primitives() {
    assert_eq!(empty_element(), FormatElement::Empty);
    assert_eq!(space_token(), FormatElement::Space);
    assert_eq!(token(";"), FormatElement::Token(String::from(";")));
    assert_ne!(token("a"), token("b"));
}

#[test]
fn concat_keeps_order_and_empty_elements() {
    let joined = concat_elements(vec![text("a"), empty_element(), space_token(), text("b")]);
    assert_eq!(
        joined,
        FormatElement::List(vec![text("a"), FormatElement::Empty, FormatElement::Space, text("b")])
    );
}

#[test]
fn concat_takes_joins_apart() {
    let inner = concat_elements(vec![space_token(), text("x")]);
    let joined = concat_elements(vec![text("a"), inner, text("b")]);
    assert_eq!(
        joined,
        FormatElement::List(vec![text("a"), FormatElement::Space, text("x"), text("b")])
    );
}

#[test]
fn concat_of_nothing_is_an_empty_join() {
    assert_eq!(concat_elements(vec![]), FormatElement::List(vec![]));
    assert_eq!(concat_elements(vec![text("a")]), FormatElement::List(vec![text("a")]));
    let nested = concat_elements(vec![concat_elements(vec![]), concat_elements(vec![text("a")])]);
    assert_eq!(nested, FormatElement::List(vec![text("a")]));
}

#[test]
fn format_token_gives_the_token_text() {
    let tree = plain_continue();
    let stmt = ContinueStmt::cast(tree.root().unwrap()).unwrap();
    let formatter = Formatter::new();
    let keyword = stmt.continue_token().unwrap();
    assert_eq!(formatter.format_token(&keyword), Some(text("continue")));
}

#[test]
fn continue_without_label() {
    let tree = plain_continue();
    let stmt = ContinueStmt::cast(tree.root().unwrap()).unwrap();
    let formatter = Formatter::new();
    let expected =
        FormatElement::List(vec![text("continue"), FormatElement::Empty, text(";")]);
    assert_eq!(stmt.to_format_element(&formatter), Some(expected));
}

#[test]
fn continue_with_label() {
    let tree = labelled_continue();
    let stmt = ContinueStmt::cast(tree.root().unwrap()).unwrap();
    let formatter = Formatter::new();
    let label = formatter.format_node(stmt.ident_token().unwrap()).unwrap();
    assert_eq!(label, text("outer"));
    let expected =
        FormatElement::List(vec![text("continue"), FormatElement::Space, label, text(";")]);
    assert_eq!(stmt.to_format_element(&formatter), Some(expected));
    assert_eq!(formatter.format_node(stmt), stmt.to_format_element(&formatter));
}

#[test]
fn continue_without_keyword_is_absent() {
    let nodes = vec![node(SyntaxKind::CONTINUE_STMT, None, vec![ElementId::Token(0)], 0, 1)];
    let tokens = vec![tok(SyntaxKind::SEMICOLON, 0, 0, 1)];
    let tree = SyntaxTree::new(String::from(";"), nodes, tokens).unwrap();
    let stmt = ContinueStmt::cast(tree.root().unwrap()).unwrap();
    assert_eq!(stmt.to_format_element(&Formatter::new()), None);
}

#[test]
fn continue_without_keyword_but_with_label_is_absent() {
    let nodes = vec![
        node(SyntaxKind::CONTINUE_STMT, None, vec![ElementId::Node(1), ElementId::Token(1)], 0, 2),
        node(SyntaxKind::NAME, Some(0), vec![ElementId::Token(0)], 0, 1),
    ];
    let tokens = vec![tok(SyntaxKind::IDENT, 1, 0, 5), tok(SyntaxKind::SEMICOLON, 0, 5, 6)];
    let tree = SyntaxTree::new(String::from("outer;"), nodes, tokens).unwrap();
    let stmt = ContinueStmt::cast(tree.root().unwrap()).unwrap();
    assert_eq!(stmt.to_format_element(&Formatter::new()), None);
}

#[test]
fn continue_without_terminator_still_ends_in_one() {
    let nodes = vec![node(SyntaxKind::CONTINUE_STMT, None, vec![ElementId::Token(0)], 0, 1)];
    let tokens = vec![tok(SyntaxKind::CONTINUE_KW, 0, 0, 8)];
    let tree = SyntaxTree::new(String::from("continue"), nodes, tokens).unwrap();
    let stmt = ContinueStmt::cast(tree.root().unwrap()).unwrap();
    let expected =
        FormatElement::List(vec![text("continue"), FormatElement::Empty, text(";")]);
    assert_eq!(stmt.to_format_element(&Formatter::new()), Some(expected));
}

#[test]
fn continue_with_unprintable_label_is_absent() {
    let nodes = vec![
        node(SyntaxKind::CONTINUE_STMT, None, vec![ElementId::Token(0), ElementId::Node(1)], 0, 1),
        node(SyntaxKind::NAME, Some(0), vec![], 1, 1),
    ];
    let tokens = vec![tok(SyntaxKind::CONTINUE_KW, 0, 0, 8)];
    let tree = SyntaxTree::new(String::from("continue"), nodes, tokens).unwrap();
    let stmt = ContinueStmt::cast(tree.root().unwrap()).unwrap();
    assert!(stmt.ident_token().is_some());
    assert_eq!(stmt.to_format_element(&Formatter::new()), None);
}

#[test]
fn name_without_identifier_is_absent() {
    let nodes = vec![node(SyntaxKind::NAME, None, vec![], 0, 0)];
    let tree = SyntaxTree::new(String::new(), nodes, vec![]).unwrap();
    let name = Name::cast(tree.root().unwrap()).unwrap();
    assert_eq!(name.to_format_element(&Formatter::new()), None);
}

#[test]
fn converting_twice_gives_equal_elements() {
    let tree = labelled_continue();
    let stmt = ContinueStmt::cast(tree.root().unwrap()).unwrap();
    let formatter = Formatter::new();
    let once = stmt.to_format_element(&formatter);
    let twice = stmt.to_format_element(&formatter);
    assert!(once.is_some());
    assert_eq!(once, twice);
    let again = ContinueStmt::cast(tree.root().unwrap()).unwrap();
    assert_eq!(again.to_format_element(&Formatter::new()), once);
}

#[test]
fn equal_subtrees_in_two_places_give_equal_elements() {
    let nodes = vec![
        node(SyntaxKind::SCRIPT, None, vec![ElementId::Node(1)], 0, 4),
        node(SyntaxKind::LIST, Some(0), vec![ElementId::Node(2), ElementId::Node(3)], 0, 4),
        node(
            SyntaxKind::CONTINUE_STMT,
            Some(1),
            vec![ElementId::Token(0), ElementId::Token(1)],
            0,
            2,
        ),
        node(
            SyntaxKind::CONTINUE_STMT,
            Some(1),
            vec![ElementId::Token(2), ElementId::Token(3)],
            2,
            4,
        ),
    ];
    let tokens = vec![
        tok(SyntaxKind::CONTINUE_KW, 2, 0, 8),
        tok(SyntaxKind::SEMICOLON, 2, 8, 9),
        tok(SyntaxKind::CONTINUE_KW, 3, 9, 17),
        tok(SyntaxKind::SEMICOLON, 3, 17, 18),
    ];
    let tree = SyntaxTree::new(String::from("continue;continue;"), nodes, tokens).unwrap();
    let formatter = Formatter::new();
    let first = ContinueStmt::cast(tree.node(2).unwrap()).unwrap();
    let second = ContinueStmt::cast(tree.node(3).unwrap()).unwrap();
    assert_ne!(first.range(), second.range());
    let a = first.to_format_element(&formatter).unwrap();
    let b = second.to_format_element(&formatter).unwrap();
    assert_eq!(a, b);
    assert_eq!(a, FormatElement::List(vec![text("continue"), FormatElement::Empty, text(";")]));
}

#[test]
fn dispatch_goes_by_kind() {
    let tree = labelled_continue();
    let formatter = Formatter::new();
    let root = tree.root().unwrap();
    let stmt = ContinueStmt::cast(root).unwrap();
    assert_eq!(
        formatter.format_element(SyntaxElement::Node(root)),
        stmt.to_format_element(&formatter)
    );
    assert_eq!(
        formatter.format_element(SyntaxElement::Node(root)),
        Some(FormatElement::List(vec![
            text("continue"),
            FormatElement::Space,
            text("outer"),
            text(";"),
        ]))
    );
    assert_eq!(formatter.format_element(root.element(2)), Some(text("outer")));
    assert_eq!(formatter.format_element(root.element(0)), Some(text("continue")));
    assert_eq!(formatter.format_element(root.element(1)), Some(text(" ")));
}

#[test]
fn dispatch_on_kind_without_conversion_is_absent() {
    let nodes = vec![
        node(SyntaxKind::SCRIPT, None, vec![ElementId::Node(1)], 0, 0),
        node(SyntaxKind::LIST, Some(0), vec![ElementId::Node(2)], 0, 0),
        node(SyntaxKind::ERROR, Some(1), vec![], 0, 0),
    ];
    let tree = SyntaxTree::new(String::new(), nodes, vec![]).unwrap();
    let formatter = Formatter::new();
    for index in 1..tree.node_count() {
        let n = tree.node(index).unwrap();
        assert_eq!(formatter.format_element(SyntaxElement::Node(n)), None);
    }
    let root = tree.root().unwrap();
    assert_eq!(
        formatter.format_element(SyntaxElement::Node(root)),
        Some(FormatElement::List(vec![]))
    );
}

/// `continue a;continue;` where `with_keyword` holds, `continue a;;` where not.
fn two_statements(with_keyword: bool) -> SyntaxTree {
    let second_first = if with_keyword { SyntaxKind::CONTINUE_KW } else { SyntaxKind::SEMICOLON };
    let second_end = if with_keyword { 19 } else { 12 };
    let nodes = vec![
        node(SyntaxKind::SCRIPT, None, vec![ElementId::Node(1)], 0, 6),
        node(SyntaxKind::LIST, Some(0), vec![ElementId::Node(2), ElementId::Node(4)], 0, 6),
        node(
            SyntaxKind::CONTINUE_STMT,
            Some(1),
            vec![
                ElementId::Token(0),
                ElementId::Token(1),
                ElementId::Node(3),
                ElementId::Token(3),
            ],
            0,
            4,
        ),
        node(SyntaxKind::NAME, Some(2), vec![ElementId::Token(2)], 2, 3),
        node(
            SyntaxKind::CONTINUE_STMT,
            Some(1),
            vec![ElementId::Token(4), ElementId::Token(5)],
            4,
            6,
        ),
    ];
    let tokens = vec![
        tok(SyntaxKind::CONTINUE_KW, 2, 0, 8),
        tok(SyntaxKind::WHITESPACE, 2, 8, 9),
        tok(SyntaxKind::IDENT, 3, 9, 10),
        tok(SyntaxKind::SEMICOLON, 2, 10, 11),
        tok(second_first, 4, 11, second_end),
        tok(SyntaxKind::SEMICOLON, 4, second_end, second_end + 1),
    ];
    let source = if with_keyword { "continue a;continue;" } else { "continue a;;;" };
    SyntaxTree::new(String::from(source), nodes, tokens).expect("a sound tree")
}

#[test]
fn script_joins_its_statements_in_order() {
    let tree = two_statements(true);
    let script = Script::cast(tree.root().unwrap()).unwrap();
    let formatter = Formatter::new();
    let expected = FormatElement::List(vec![
        text("continue"),
        FormatElement::Space,
        text("a"),
        text(";"),
        text("continue"),
        FormatElement::Empty,
        text(";"),
    ]);
    assert_eq!(script.to_format_element(&formatter), Some(expected));
    assert_eq!(
        formatter.format_element(SyntaxElement::Node(tree.root().unwrap())),
        script.to_format_element(&formatter)
    );
}

#[test]
fn script_with_unprintable_statement_is_absent() {
    let tree = two_statements(false);
    let script = Script::cast(tree.root().unwrap()).unwrap();
    let formatter = Formatter::new();
    let first = ContinueStmt::cast(tree.node(2).unwrap()).unwrap();
    assert!(first.to_format_element(&formatter).is_some());
    let second = ContinueStmt::cast(tree.node(4).unwrap()).unwrap();
    assert!(second.to_format_element(&formatter).is_none());
    assert_eq!(script.to_format_element(&formatter), None);
}

#[test]
fn script_without_statements_is_an_empty_join() {
    let nodes = vec![
        node(SyntaxKind::SCRIPT, None, vec![ElementId::Node(1)], 0, 0),
        node(SyntaxKind::LIST, Some(0), vec![], 0, 0),
    ];
    let tree = SyntaxTree::new(String::new(), nodes, vec![]).unwrap();
    let script = Script::cast(tree.root().unwrap()).unwrap();
    assert_eq!(script.to_format_element(&Formatter::new()), Some(FormatElement::List(vec![])));
}
