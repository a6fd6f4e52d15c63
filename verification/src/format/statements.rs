//! The conversions of statements.

use crate::ast::nodes::{first_node, ContinueStmt, Name, Script};
use crate::ast::{castable, AstNode};
use crate::format::{
    concat_elements, empty_element, flatten, lemma_flatten_three, lemma_flatten_two, space_token, token,
    views, FormatElement, FormatIr, Formatter, ToFormatElement,
};
use crate::syntax::{first_of_kind, first_token_of, SyntaxKind, SyntaxNode, SyntaxToken};
use vstd::prelude::*;

verus! {

/// A name is printed as its identifier; it cannot be printed without one.
pub open spec fn name_format(node: SyntaxNode<'_>) -> Option<FormatIr> {
    match first_token_of(node.elements_spec(), SyntaxKind::IDENT) {
        Some(ident) => Some(FormatIr::Token(ident.text_spec())),
        None => None,
    }
}

impl<'a> ToFormatElement<'a> for Name<'a> {
    open spec fn format_of(node: SyntaxNode<'a>) -> Option<FormatIr> {
        name_format(node)
    }

    fn to_format_element(&self, formatter: &Formatter) -> (r: Option<FormatElement>) {
        match self.ident_token() {
            Some(ident) => formatter.format_token(&ident),
            None => None,
        }
    }
}

/// What stands between the keyword and the terminator: a space and the label
/// where the statement has one, else nothing. `None` where the label is there
/// and cannot be printed.
pub open spec fn label_format(label: Option<SyntaxNode<'_>>) -> Option<FormatIr> {
    match label {
        Some(name) => match name_format(name) {
            Some(printed) => Some(FormatIr::List(flatten(seq![FormatIr::Space, printed]))),
            None => None,
        },
        None => Some(FormatIr::Empty),
    }
}

/// A `continue` statement is printed as its keyword, the label part and a
/// terminator, joined; `None` where the keyword is missing or the label
/// cannot be printed. The terminator is printed whether or not the tree
/// holds one.
pub open spec fn continue_format<'a>(node: SyntaxNode<'a>) -> Option<FormatIr> {
    let label = label_format(first_node(castable::<Name<'a>>(node.child_nodes())));
    let keyword = first_token_of(node.elements_spec(), SyntaxKind::CONTINUE_KW);
    match (label, keyword) {
        (Some(label), Some(keyword)) => Some(
            FormatIr::List(flatten(seq![FormatIr::Token(keyword.text_spec()), label, FormatIr::Token(";"@)])),
        ),
        _ => None,
    }
}

/// A `continue` statement can be printed exactly where it has its keyword
/// and its label, where it has one, has its identifier: a missing label
/// never stands in the way, a missing keyword always does.
pub proof fn lemma_continue_printable(stmt: ContinueStmt<'_>)
    ensures
        continue_format(stmt.syntax_spec()).is_some() <==> stmt.continue_token_spec().is_some() && (
        stmt.ident_token_spec() matches Some(label) ==> name_format(label).is_some()),
{
}

/// Without a label, a `continue` statement that has its keyword is printed
/// as the keyword, the empty element and the terminator.
pub proof fn lemma_continue_without_label(stmt: ContinueStmt<'_>)
    requires
        stmt.ident_token_spec().is_none(),
        stmt.continue_token_spec().is_some(),
    ensures
        continue_format(stmt.syntax_spec()) == Some(
            FormatIr::List(
                seq![
                    FormatIr::Token(stmt.continue_token_spec().unwrap().text_spec()),
                    FormatIr::Empty,
                    FormatIr::Token(";"@),
                ],
            ),
        ),
{
    let keyword = FormatIr::Token(stmt.continue_token_spec().unwrap().text_spec());
    lemma_flatten_three(keyword, FormatIr::Empty, FormatIr::Token(";"@));
    assert(flatten(seq![keyword, FormatIr::Empty, FormatIr::Token(";"@)]) =~= seq![
        keyword,
        FormatIr::Empty,
        FormatIr::Token(";"@),
    ]);
}

/// With a label that has its identifier, a `continue` statement that has
/// its keyword is printed as the keyword, a space, the label and the
/// terminator.
pub proof fn lemma_continue_with_label(stmt: ContinueStmt<'_>)
    requires
        stmt.ident_token_spec().is_some(),
        name_format(stmt.ident_token_spec().unwrap()).is_some(),
        stmt.continue_token_spec().is_some(),
    ensures
        continue_format(stmt.syntax_spec()) == Some(
            FormatIr::List(
                seq![
                    FormatIr::Token(stmt.continue_token_spec().unwrap().text_spec()),
                    FormatIr::Space,
                    name_format(stmt.ident_token_spec().unwrap()).unwrap(),
                    FormatIr::Token(";"@),
                ],
            ),
        ),
{
    let keyword = FormatIr::Token(stmt.continue_token_spec().unwrap().text_spec());
    let printed = name_format(stmt.ident_token_spec().unwrap()).unwrap();
    lemma_flatten_two(FormatIr::Space, printed);
    let label = FormatIr::List(flatten(seq![FormatIr::Space, printed]));
    lemma_flatten_three(keyword, label, FormatIr::Token(";"@));
    assert(flatten(seq![keyword, label, FormatIr::Token(";"@)]) =~= seq![
        keyword,
        FormatIr::Space,
        printed,
        FormatIr::Token(";"@),
    ]);
}

/// What a token is printed as, where there is one.
pub open spec fn printed_text(token: Option<SyntaxToken<'_>>) -> Option<Seq<char>> {
    match token {
        Some(t) => Some(t.text_spec()),
        None => None,
    }
}

/// What a label is printed as, where there is one.
pub open spec fn printed_label(label: Option<SyntaxNode<'_>>) -> Option<Option<FormatIr>> {
    match label {
        Some(name) => Some(name_format(name)),
        None => None,
    }
}

/// Two `continue` statements with the same keyword text and the same label
/// are printed alike, wherever they stand and in whichever tree.
pub proof fn lemma_equal_parts_equal_format<'a, 'b>(a: ContinueStmt<'a>, b: ContinueStmt<'b>)
    requires
        printed_text(a.continue_token_spec()) == printed_text(b.continue_token_spec()),
        printed_label(a.ident_token_spec()) == printed_label(b.ident_token_spec()),
    ensures
        continue_format(a.syntax_spec()) == continue_format(b.syntax_spec()),
{
}

impl<'a> ToFormatElement<'a> for ContinueStmt<'a> {
    open spec fn format_of(node: SyntaxNode<'a>) -> Option<FormatIr> {
        continue_format(node)
    }

    fn to_format_element(&self, formatter: &Formatter) -> (r: Option<FormatElement>) {
        let ident = match self.ident_token() {
            Some(name) => match formatter.format_node(name) {
                Some(printed) => {
                    let parts = vec![space_token(), printed];
                    assert(views(parts@) =~= seq![FormatIr::Space, printed@]);
                    concat_elements(parts)
                },
                None => {
                    return None;
                },
            },
            None => empty_element(),
        };
        let keyword = match self.continue_token() {
            Some(keyword) => keyword,
            None => {
                return None;
            },
        };
        let continue_token = match formatter.format_token(&keyword) {
            Some(printed) => printed,
            None => {
                return None;
            },
        };
        let parts = vec![continue_token, ident, token(";")];
        assert(views(parts@) =~= seq![continue_token@, ident@, FormatIr::Token(";"@)]);
        Some(concat_elements(parts))
    }
}

/// What a sequence of statements is printed as: what each of them is
/// printed as, in their order; `None` where one of them cannot be printed.
pub open spec fn statements_format<'a>(nodes: Seq<SyntaxNode<'a>>) -> Option<Seq<FormatIr>>
    decreases nodes.len(),
{
    if nodes.len() == 0 {
        Some(Seq::empty())
    } else {
        match (statements_format(nodes.drop_last()), continue_format(nodes.last())) {
            (Some(before), Some(last)) => Some(before.push(last)),
            _ => None,
        }
    }
}

/// A script is printed as its statements, joined; `None` where one of them
/// cannot be printed.
pub open spec fn script_format<'a>(node: SyntaxNode<'a>) -> Option<FormatIr> {
    match first_of_kind(node.child_nodes(), SyntaxKind::LIST) {
        Some(list) => match statements_format(castable::<ContinueStmt<'a>>(list.child_nodes())) {
            Some(parts) => Some(FormatIr::List(flatten(parts))),
            None => None,
        },
        None => None,
    }
}

/// One statement that cannot be printed keeps the whole sequence from being
/// printed.
pub proof fn lemma_statement_absent<'a>(nodes: Seq<SyntaxNode<'a>>, k: int)
    requires
        0 <= k < nodes.len(),
        continue_format(nodes[k]).is_none(),
    ensures
        statements_format(nodes).is_none(),
    decreases nodes.len(),
{
    if k < nodes.len() - 1 {
        lemma_statement_absent(nodes.drop_last(), k);
    }
}

impl<'a> ToFormatElement<'a> for Script<'a> {
    open spec fn format_of(node: SyntaxNode<'a>) -> Option<FormatIr> {
        script_format(node)
    }

    fn to_format_element(&self, formatter: &Formatter) -> (r: Option<FormatElement>) {
        let items = self.items();
        let ghost all = items.items();
        let mut pass = items.iter();
        let mut parts: Vec<FormatElement> = Vec::new();
        assert(all.skip(0) =~= all);
        assert(all.take(0) =~= Seq::empty());
        loop
            invariant
                first_of_kind(self.syntax_spec().child_nodes(), SyntaxKind::LIST) == Some(items.syntax_spec()),
                all == items.items(),
                pass.wf(),
                pass.remaining().len() <= all.len(),
                pass.remaining() =~= all.skip(all.len() - pass.remaining().len()),
                statements_format(all.take(all.len() - pass.remaining().len())) == Some(views(parts@)),
            ensures
                pass.remaining().len() == 0,
                statements_format(all.take(all.len() as int)) == Some(views(parts@)),
            decreases pass.remaining().len(),
        {
            let ghost k = all.len() - pass.remaining().len();
            let ghost before = parts@;
            match pass.next() {
                None => {
                    break ;
                },
                Some(stmt) => {
                    proof {
                        assert(stmt.syntax_spec() == all[k]);
                        assert(all.take(k + 1).drop_last() =~= all.take(k));
                        assert(all.take(k + 1).last() == all[k]);
                    }
                    match formatter.format_node(stmt) {
                        Some(printed) => {
                            parts.push(printed);
                            assert(views(parts@) =~= views(before).push(printed@));
                        },
                        None => {
                            proof {
                                lemma_statement_absent(all, k);
                            }
                            return None;
                        },
                    }
                },
            }
        }
        assert(all.take(all.len() as int) =~= all);
        Some(concat_elements(parts))
    }
}

} // verus!
