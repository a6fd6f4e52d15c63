//! The four lookups that every accessor of every typed node reduces to.

use crate::ast::{castable, child_of, typed, AstChildren, AstNode, AstNodeList};
use crate::syntax::{first_of_kind, first_token_of, SyntaxElement, SyntaxKind, SyntaxNode, SyntaxToken};
use vstd::prelude::*;

verus! {

/// The first child node of `parent` that the view `N` claims, or `None` where
/// there is none.
pub fn child<'a, N: AstNode<'a>>(parent: &SyntaxNode<'a>) -> (r: Option<N>)
    ensures
        match r {
            Some(n) => castable::<N>(parent.child_nodes()).len() > 0 && n.syntax_spec() == castable::<N>(
                parent.child_nodes(),
            )[0] && typed(&n) && child_of(n.syntax_spec(), *parent),
            None => castable::<N>(parent.child_nodes()).len() == 0,
        },
{
    let mut pass = AstChildren::<N>::new(parent);
    pass.next()
}

/// A fresh pass over the child nodes of `parent` that the view `N` claims.
pub fn children<'a, N: AstNode<'a>>(parent: &SyntaxNode<'a>) -> (r: AstChildren<'a, N>)
    ensures
        r.wf(),
        r.inner().parent() == *parent,
        r.remaining() == castable::<N>(parent.child_nodes()),
{
    AstChildren::new(parent)
}

/// The many-child field of `parent`: its first child node of kind `LIST`.
/// The parser makes that node for every many-child field, also for an empty
/// one, so a parent without it is no input of this function.
pub fn list<'a, N: AstNode<'a>>(parent: &SyntaxNode<'a>) -> (r: AstNodeList<'a, N>)
    requires
        first_of_kind(parent.child_nodes(), SyntaxKind::LIST).is_some(),
    ensures
        r.wf(),
        Some(r.syntax_spec()) == first_of_kind(parent.child_nodes(), SyntaxKind::LIST),
        r.syntax_spec().parent_spec() == Some(*parent),
{
    let mut pass = parent.children();
    loop
        invariant
            pass.wf(),
            pass.parent() == *parent,
            first_of_kind(pass.remaining(), SyntaxKind::LIST) == first_of_kind(
                parent.child_nodes(),
                SyntaxKind::LIST,
            ),
            first_of_kind(parent.child_nodes(), SyntaxKind::LIST).is_some(),
        decreases pass.remaining().len(),
    {
        match pass.next() {
            Some(node) => {
                if node.kind() == SyntaxKind::LIST {
                    return AstNodeList::new(&node);
                }
            },
            None => {
                return vstd::pervasive::unreached();
            },
        }
    }
}

/// The first child token of `parent` of kind `kind`, or `None` where there is
/// none.
pub fn token<'a>(parent: &SyntaxNode<'a>, kind: SyntaxKind) -> (r: Option<SyntaxToken<'a>>)
    ensures
        r == first_token_of(parent.elements_spec(), kind),
        r matches Some(t) ==> t.wf() && t.kind_spec() == kind && t.tree() == parent.tree() && t.parent_spec()
            == *parent,
{
    proof {
        use_type_invariant(parent);
    }
    let count = parent.element_count();
    let mut k: usize = 0;
    assert(parent.elements_spec().skip(0) =~= parent.elements_spec());
    while k < count
        invariant
            parent.wf(),
            count == parent.elements_spec().len(),
            k <= count,
            first_token_of(parent.elements_spec().skip(k as int), kind) == first_token_of(
                parent.elements_spec(),
                kind,
            ),
        decreases count - k,
    {
        let ghost rest = parent.elements_spec().skip(k as int);
        let element = parent.element(k);
        proof {
            parent.lemma_elements(k as int);
            assert(rest[0] == element);
            assert(rest.drop_first() =~= parent.elements_spec().skip(k + 1));
        }
        if let SyntaxElement::Token(t) = element {
            if t.kind() == kind {
                return Some(t);
            }
        }
        k += 1;
    }
    None
}

} // verus!
