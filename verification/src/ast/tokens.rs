//! Typed views of tokens, one per token kind of the grammar.

use crate::ast::AstToken;
use crate::syntax::{SyntaxKind, SyntaxToken};
use vstd::prelude::*;

verus! {

/// The keyword that opens a `continue` statement.
#[derive(Clone, Copy, Debug)]
pub struct ContinueKw<'a> {
    syntax: SyntaxToken<'a>,
}

impl<'a> ContinueKw<'a> {
    /// The view's invariant: the wrapped token is of the kind that the view
    /// claims.
    #[verifier::type_invariant]
    pub closed spec fn claimed(self) -> bool {
        self.syntax.kind_spec() == SyntaxKind::CONTINUE_KW
    }
}

impl<'a> AstToken<'a> for ContinueKw<'a> {
    open spec fn can_cast_spec(kind: SyntaxKind) -> bool {
        kind == SyntaxKind::CONTINUE_KW
    }

    closed spec fn syntax_spec(&self) -> SyntaxToken<'a> {
        self.syntax
    }

    fn can_cast(kind: SyntaxKind) -> (b: bool) {
        kind == SyntaxKind::CONTINUE_KW
    }

    fn cast(syntax: SyntaxToken<'a>) -> (r: Option<Self>) {
        if Self::can_cast(syntax.kind()) {
            Some(ContinueKw { syntax })
        } else {
            None
        }
    }

    fn syntax(&self) -> (r: &SyntaxToken<'a>) {
        &self.syntax
    }
}

/// An identifier.
#[derive(Clone, Copy, Debug)]
pub struct Ident<'a> {
    syntax: SyntaxToken<'a>,
}

impl<'a> Ident<'a> {
    /// The view's invariant: the wrapped token is of the kind that the view
    /// claims.
    #[verifier::type_invariant]
    pub closed spec fn claimed(self) -> bool {
        self.syntax.kind_spec() == SyntaxKind::IDENT
    }
}

impl<'a> AstToken<'a> for Ident<'a> {
    open spec fn can_cast_spec(kind: SyntaxKind) -> bool {
        kind == SyntaxKind::IDENT
    }

    closed spec fn syntax_spec(&self) -> SyntaxToken<'a> {
        self.syntax
    }

    fn can_cast(kind: SyntaxKind) -> (b: bool) {
        kind == SyntaxKind::IDENT
    }

    fn cast(syntax: SyntaxToken<'a>) -> (r: Option<Self>) {
        if Self::can_cast(syntax.kind()) {
            Some(Ident { syntax })
        } else {
            None
        }
    }

    fn syntax(&self) -> (r: &SyntaxToken<'a>) {
        &self.syntax
    }
}

} // verus!
