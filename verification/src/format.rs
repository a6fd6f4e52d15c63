//! The formatting intermediate representation and the conversions that build
//! it from typed nodes.

pub mod statements;

use crate::ast::nodes::{ContinueStmt, Name, Script};
use crate::ast::AstNode;
use crate::format::statements::{continue_format, name_format, script_format};
use crate::syntax::{SyntaxElement, SyntaxKind, SyntaxNode, SyntaxToken};
use vstd::prelude::*;

verus! {

/// A tree of printing primitives. It owns its data and points nowhere into
/// the syntax tree.
#[derive(Debug, PartialEq, Eq)]
pub enum FormatElement {
    /// Prints nothing.
    Empty,
    /// A single forced space.
    Space,
    /// Literal text.
    Token(String),
    /// Elements printed one after the other.
    List(Vec<FormatElement>),
}

/// What a `FormatElement` stands for.
pub enum FormatIr {
    Empty,
    Space,
    Token(Seq<char>),
    List(Seq<FormatIr>),
}

impl View for FormatElement {
    type V = FormatIr;

    open spec fn view(&self) -> FormatIr
        decreases self,
    {
        match self {
            FormatElement::Empty => FormatIr::Empty,
            FormatElement::Space => FormatIr::Space,
            FormatElement::Token(text) => FormatIr::Token(text@),
            FormatElement::List(content) => FormatIr::List(
                Seq::new(content@.len(), |k: int| if 0 <= k < content@.len() { content@[k].view() } else { FormatIr::Empty }),
            ),
        }
    }
}

/// What each of `elements` stands for, in order.
pub open spec fn views(elements: Seq<FormatElement>) -> Seq<FormatIr> {
    Seq::new(elements.len(), |k: int| elements[k]@)
}

/// What an optional element stands for.
pub open spec fn option_view(element: Option<FormatElement>) -> Option<FormatIr> {
    match element {
        Some(e) => Some(e@),
        None => None,
    }
}

/// What `element` adds to a join: its content where it is itself a join,
/// else the element alone.
pub open spec fn piece(element: FormatIr) -> Seq<FormatIr> {
    match element {
        FormatIr::List(content) => content,
        other => seq![other],
    }
}

/// The pieces of `elements`, one after the other.
pub open spec fn flatten(elements: Seq<FormatIr>) -> Seq<FormatIr>
    decreases elements.len(),
{
    if elements.len() == 0 {
        Seq::empty()
    } else {
        flatten(elements.drop_last()) + piece(elements.last())
    }
}

/// A join of two elements holds the piece of the first, then that of the
/// second.
pub proof fn lemma_flatten_two(a: FormatIr, b: FormatIr)
    ensures
        flatten(seq![a, b]) =~= piece(a) + piece(b),
{
    let s = seq![a, b];
    assert(s.drop_last() =~= seq![a]);
    assert(seq![a].drop_last() =~= Seq::<FormatIr>::empty());
    reveal_with_fuel(flatten, 3);
}

/// A join of three elements holds the pieces of the three, in their order.
pub proof fn lemma_flatten_three(a: FormatIr, b: FormatIr, c: FormatIr)
    ensures
        flatten(seq![a, b, c]) =~= piece(a) + piece(b) + piece(c),
{
    let s = seq![a, b, c];
    assert(s.drop_last() =~= seq![a, b]);
    lemma_flatten_two(a, b);
}

/// The element that prints nothing.
pub fn empty_element() -> (r: FormatElement)
    ensures
        r@ == FormatIr::Empty,
{
    FormatElement::Empty
}

/// A forced space.
pub fn space_token() -> (r: FormatElement)
    ensures
        r@ == FormatIr::Space,
{
    FormatElement::Space
}

/// Literal text, printed as it stands.
pub fn token(text: &str) -> (r: FormatElement)
    ensures
        r@ == FormatIr::Token(text@),
{
    FormatElement::Token(text.to_owned())
}

/// Joins `elements` in their order into one element. A join among them is
/// taken apart, so that the result holds its content in place of it; every
/// other element, an empty one too, stays as it is.
pub fn concat_elements(elements: Vec<FormatElement>) -> (r: FormatElement)
    ensures
        r@ == FormatIr::List(flatten(views(elements@))),
{
    let ghost all = elements@;
    let mut rest = elements;
    let mut stack: Vec<FormatElement> = Vec::new();
    loop
        invariant
            rest@.len() + stack@.len() == all.len(),
            rest@ =~= all.take(rest@.len() as int),
            forall|j: int| 0 <= j < stack@.len() ==> stack@[j] == all[all.len() - 1 - j],
        ensures
            stack@.len() == all.len(),
        decreases rest@.len(),
    {
        match rest.pop() {
            None => {
                break ;
            },
            Some(element) => {
                stack.push(element);
            },
        }
    }
    let mut out: Vec<FormatElement> = Vec::new();
    loop
        invariant
            stack@.len() <= all.len(),
            forall|j: int| 0 <= j < stack@.len() ==> stack@[j] == all[all.len() - 1 - j],
            views(out@) =~= flatten(views(all.take(all.len() - stack@.len()))),
        ensures
            stack@.len() == 0,
        decreases stack@.len(),
    {
        let ghost done = all.take(all.len() - stack@.len());
        let ghost before = out@;
        match stack.pop() {
            None => {
                break ;
            },
            Some(element) => {
                let ghost next = all.take(all.len() - stack@.len());
                proof {
                    assert(views(next).drop_last() =~= views(done));
                    assert(views(next).last() == element@);
                }
                match element {
                    FormatElement::List(content) => {
                        let mut content = content;
                        let ghost inner = content@;
                        out.append(&mut content);
                        assert(views(out@) =~= views(before) + views(inner));
                        assert(views(inner) =~= piece(element@));
                    },
                    other => {
                        out.push(other);
                        assert(views(out@) =~= views(before) + seq![other@]);
                    },
                }
            },
        }
    }
    assert(all.take(all.len() as int) =~= all);
    let r = FormatElement::List(out);
    assert(r@ == FormatIr::List(views(out@))) by {
        assert(r@->List_0 =~= views(out@));
    }
    r
}

/// The context of one formatting run: it hands each node and token to the
/// conversion that its type registers.
#[derive(Clone, Copy, Debug)]
pub struct Formatter {}

/// A typed node that can be turned into a `FormatElement`.
pub trait ToFormatElement<'a>: AstNode<'a> {
    /// What a node of this type is turned into. It is a function of the
    /// wrapped node alone: neither the view nor the context has a say, so
    /// converting a node twice gives the same result twice.
    spec fn format_of(node: SyntaxNode<'a>) -> Option<FormatIr>;

    /// Turns the node into a `FormatElement`; `None` where a token that the
    /// production cannot do without is missing.
    fn to_format_element(&self, formatter: &Formatter) -> (r: Option<FormatElement>)
        ensures
            option_view(r) == Self::format_of(self.syntax_spec()),
    ;
}

/// Two views of one node are printed alike, whatever the type of the node.
pub proof fn lemma_same_node_same_format<'a, T: ToFormatElement<'a>>(a: T, b: T)
    requires
        a.syntax_spec() == b.syntax_spec(),
    ensures
        T::format_of(a.syntax_spec()) == T::format_of(b.syntax_spec()),
{
}

/// What an arbitrary node or token of the tree is turned into: a token is
/// printed as its text, a node as the conversion of its kind says; a kind
/// without a conversion cannot be printed.
pub open spec fn element_format(element: SyntaxElement<'_>) -> Option<FormatIr> {
    match element {
        SyntaxElement::Token(t) => Some(FormatIr::Token(t.text_spec())),
        SyntaxElement::Node(n) => if n.kind_spec() == SyntaxKind::CONTINUE_STMT {
            continue_format(n)
        } else if n.kind_spec() == SyntaxKind::NAME {
            name_format(n)
        } else if n.kind_spec() == SyntaxKind::SCRIPT {
            script_format(n)
        } else {
            None
        },
    }
}

impl Formatter {
    /// The context of a new run. It carries no state from one run to the
    /// next.
    pub fn new() -> (r: Formatter) {
        Formatter {  }
    }

    /// A token is printed as its text.
    pub fn format_token(&self, syntax_token: &SyntaxToken<'_>) -> (r: Option<FormatElement>)
        ensures
            option_view(r) == Some(FormatIr::Token(syntax_token.text_spec())),
    {
        Some(token(syntax_token.text()))
    }

    /// Hands a node or token of any kind to the conversion of its kind.
    pub fn format_element(&self, element: SyntaxElement<'_>) -> (r: Option<FormatElement>)
        ensures
            option_view(r) == element_format(element),
    {
        match element {
            SyntaxElement::Token(t) => self.format_token(&t),
            SyntaxElement::Node(n) => {
                if let Some(stmt) = ContinueStmt::cast(n) {
                    self.format_node(stmt)
                } else if let Some(name) = Name::cast(n) {
                    self.format_node(name)
                } else if let Some(script) = Script::cast(n) {
                    self.format_node(script)
                } else {
                    None
                }
            },
        }
    }

    /// A node is printed as its own conversion says.
    pub fn format_node<'a, T: ToFormatElement<'a>>(&self, node: T) -> (r: Option<FormatElement>)
        ensures
            option_view(r) == T::format_of(node.syntax_spec()),
    {
        node.to_format_element(self)
    }
}

} // verus!
