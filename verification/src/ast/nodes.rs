//! Typed views of inner nodes, one per grammar production.

use crate::ast::support;
use crate::ast::tokens::{ContinueKw, Ident};
use crate::ast::{castable, child_of, typed, AstNode, AstNodeList, AstToken};
use crate::syntax::{first_of_kind, first_token_of, SyntaxKind, SyntaxNode, SyntaxToken};
use vstd::prelude::*;

verus! {

/// A name: one identifier.
#[derive(Clone, Copy, Debug)]
pub struct Name<'a> {
    syntax: SyntaxNode<'a>,
}

impl<'a> AstNode<'a> for Name<'a> {
    open spec fn can_cast_spec(kind: SyntaxKind) -> bool {
        kind == SyntaxKind::NAME
    }

    closed spec fn syntax_spec(&self) -> SyntaxNode<'a> {
        self.syntax
    }

    fn can_cast(kind: SyntaxKind) -> (b: bool) {
        kind == SyntaxKind::NAME
    }

    fn cast(syntax: SyntaxNode<'a>) -> (r: Option<Self>) {
        if Self::can_cast(syntax.kind()) {
            Some(Name { syntax })
        } else {
            None
        }
    }

    fn syntax(&self) -> (r: &SyntaxNode<'a>) {
        &self.syntax
    }
}

impl<'a> Name<'a> {
    /// The view's invariant: the wrapped node is of the kind that the view
    /// claims.
    #[verifier::type_invariant]
    pub closed spec fn claimed(self) -> bool {
        self.syntax.kind_spec() == SyntaxKind::NAME
    }

    /// The identifier token: the first child token of kind `IDENT`.
    pub open spec fn ident_token_spec(&self) -> Option<SyntaxToken<'a>> {
        first_token_of(self.syntax_spec().elements_spec(), SyntaxKind::IDENT)
    }

    pub fn ident_token(&self) -> (r: Option<SyntaxToken<'a>>)
        ensures
            r == self.ident_token_spec(),
            r matches Some(t) ==> t.wf(),
    {
        support::token(&self.syntax, SyntaxKind::IDENT)
    }
}

/// A `continue` statement: the keyword, an optional label, a terminator.
#[derive(Clone, Copy, Debug)]
pub struct ContinueStmt<'a> {
    syntax: SyntaxNode<'a>,
}

impl<'a> AstNode<'a> for ContinueStmt<'a> {
    open spec fn can_cast_spec(kind: SyntaxKind) -> bool {
        kind == SyntaxKind::CONTINUE_STMT
    }

    closed spec fn syntax_spec(&self) -> SyntaxNode<'a> {
        self.syntax
    }

    fn can_cast(kind: SyntaxKind) -> (b: bool) {
        kind == SyntaxKind::CONTINUE_STMT
    }

    fn cast(syntax: SyntaxNode<'a>) -> (r: Option<Self>) {
        if Self::can_cast(syntax.kind()) {
            Some(ContinueStmt { syntax })
        } else {
            None
        }
    }

    fn syntax(&self) -> (r: &SyntaxNode<'a>) {
        &self.syntax
    }
}

/// The first of `nodes`, where there is one.
pub open spec fn first_node<'a>(nodes: Seq<SyntaxNode<'a>>) -> Option<SyntaxNode<'a>> {
    if nodes.len() > 0 {
        Some(nodes[0])
    } else {
        None
    }
}

impl<'a> ContinueStmt<'a> {
    /// The view's invariant: the wrapped node is of the kind that the view
    /// claims.
    #[verifier::type_invariant]
    pub closed spec fn claimed(self) -> bool {
        self.syntax.kind_spec() == SyntaxKind::CONTINUE_STMT
    }

    /// The keyword: the first child token of kind `CONTINUE_KW`.
    pub open spec fn continue_token_spec(&self) -> Option<SyntaxToken<'a>> {
        first_token_of(self.syntax_spec().elements_spec(), SyntaxKind::CONTINUE_KW)
    }

    /// The label: the first child node that `Name` claims.
    pub open spec fn ident_token_spec(&self) -> Option<SyntaxNode<'a>> {
        first_node(castable::<Name<'a>>(self.syntax_spec().child_nodes()))
    }

    /// The terminator: the first child token of kind `SEMICOLON`.
    pub open spec fn semicolon_token_spec(&self) -> Option<SyntaxToken<'a>> {
        first_token_of(self.syntax_spec().elements_spec(), SyntaxKind::SEMICOLON)
    }

    pub fn continue_token(&self) -> (r: Option<SyntaxToken<'a>>)
        ensures
            r == self.continue_token_spec(),
            r matches Some(t) ==> t.wf(),
    {
        support::token(&self.syntax, SyntaxKind::CONTINUE_KW)
    }

    pub fn ident_token(&self) -> (r: Option<Name<'a>>)
        ensures
            match r {
                Some(n) => self.ident_token_spec() == Some(n.syntax_spec()) && typed(&n) && child_of(
                    n.syntax_spec(),
                    self.syntax_spec(),
                ),
                None => self.ident_token_spec().is_none(),
            },
    {
        support::child(&self.syntax)
    }

    pub fn semicolon_token(&self) -> (r: Option<SyntaxToken<'a>>)
        ensures
            r == self.semicolon_token_spec(),
            r matches Some(t) ==> t.wf(),
    {
        support::token(&self.syntax, SyntaxKind::SEMICOLON)
    }
}

/// The views keep to the partition of the kinds: a view of a node claims
/// node kinds only, a view of a token claims token kinds only, and no kind is
/// claimed by two views.
pub proof fn lemma_views_keep_to_kinds(kind: SyntaxKind)
    ensures
        Name::can_cast_spec(kind) || ContinueStmt::can_cast_spec(kind) || Script::can_cast_spec(kind)
            ==> !kind.is_token_spec(),
        ContinueKw::can_cast_spec(kind) || Ident::can_cast_spec(kind) ==> kind.is_token_spec(),
        !(Name::can_cast_spec(kind) && ContinueStmt::can_cast_spec(kind)),
        !(Name::can_cast_spec(kind) && Script::can_cast_spec(kind)),
        !(ContinueStmt::can_cast_spec(kind) && Script::can_cast_spec(kind)),
        !(ContinueKw::can_cast_spec(kind) && Ident::can_cast_spec(kind)),
{
}

/// A script: a sequence of statements.
#[derive(Clone, Copy, Debug)]
pub struct Script<'a> {
    syntax: SyntaxNode<'a>,
}

impl<'a> AstNode<'a> for Script<'a> {
    open spec fn can_cast_spec(kind: SyntaxKind) -> bool {
        kind == SyntaxKind::SCRIPT
    }

    closed spec fn syntax_spec(&self) -> SyntaxNode<'a> {
        self.syntax
    }

    fn can_cast(kind: SyntaxKind) -> (b: bool) {
        kind == SyntaxKind::SCRIPT
    }

    fn cast(syntax: SyntaxNode<'a>) -> (r: Option<Self>) {
        if Self::can_cast(syntax.kind()) {
            Some(Script { syntax })
        } else {
            None
        }
    }

    fn syntax(&self) -> (r: &SyntaxNode<'a>) {
        &self.syntax
    }
}

impl<'a> Script<'a> {
    /// The view's invariant: the wrapped node is of the kind that the view
    /// claims.
    #[verifier::type_invariant]
    pub closed spec fn claimed(self) -> bool {
        self.syntax.kind_spec() == SyntaxKind::SCRIPT
    }

    /// The statements of the script. The list is always there, also where the
    /// script holds no statement.
    pub fn items(&self) -> (r: AstNodeList<'a, ContinueStmt<'a>>)
        ensures
            r.wf(),
            Some(r.syntax_spec()) == first_of_kind(self.syntax_spec().child_nodes(), SyntaxKind::LIST),
            r.syntax_spec().parent_spec() == Some(self.syntax_spec()),
    {
        proof {
            use_type_invariant(self);
            use_type_invariant(&self.syntax);
            self.syntax.lemma_list_present();
        }
        support::list(&self.syntax)
    }
}

} // verus!
