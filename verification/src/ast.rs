//! Typed views of syntax nodes and tokens.
//!
//! Every field of every typed node is optional, so that a tree recovered from
//! any source text, however broken, can be read through these views.

pub mod nodes;
pub mod support;
pub mod tokens;

use crate::syntax::{SyntaxKind, SyntaxList, SyntaxNode, SyntaxNodeChildren, SyntaxToken, TextRange};
use core::marker::PhantomData;
use vstd::prelude::*;

verus! {

/// A typed view of an inner node. Making one costs a kind test and a copy of
/// the handle: the view and the handle point at the same node of the same
/// tree.
pub trait AstNode<'a>: Sized {
    /// The kinds that this view claims.
    spec fn can_cast_spec(kind: SyntaxKind) -> bool;

    /// The node that the view wraps.
    spec fn syntax_spec(&self) -> SyntaxNode<'a>;

    fn can_cast(kind: SyntaxKind) -> (b: bool)
        ensures
            b == Self::can_cast_spec(kind),
    ;

    fn cast(syntax: SyntaxNode<'a>) -> (r: Option<Self>)
        ensures
            r.is_some() == Self::can_cast_spec(syntax.kind_spec()),
            r matches Some(n) ==> n.syntax_spec() == syntax,
    ;

    fn syntax(&self) -> (r: &SyntaxNode<'a>)
        ensures
            *r == self.syntax_spec(),
    ;

    /// The node's text without the trivia at its two ends.
    fn text(&self) -> (r: String)
        ensures
            r@ == self.syntax_spec().trimmed_text_spec(),
    {
        self.syntax().trimmed_text().to_owned()
    }

    /// The range of the node's text without the trivia at its two ends.
    fn range(&self) -> (r: TextRange)
        ensures
            r == self.syntax_spec().trimmed_range_spec(),
    {
        self.syntax().trimmed_range()
    }
}

/// Like `AstNode`, but wraps tokens rather than inner nodes.
pub trait AstToken<'a>: Sized {
    /// The kinds that this view claims.
    spec fn can_cast_spec(kind: SyntaxKind) -> bool;

    /// The token that the view wraps.
    spec fn syntax_spec(&self) -> SyntaxToken<'a>;

    fn can_cast(kind: SyntaxKind) -> (b: bool)
        ensures
            b == Self::can_cast_spec(kind),
    ;

    fn cast(syntax: SyntaxToken<'a>) -> (r: Option<Self>)
        ensures
            r.is_some() == Self::can_cast_spec(syntax.kind_spec()),
            r matches Some(t) ==> t.syntax_spec() == syntax,
    ;

    fn syntax(&self) -> (r: &SyntaxToken<'a>)
        ensures
            *r == self.syntax_spec(),
    ;

    /// The token's text.
    fn text(&self) -> (r: &'a str)
        ensures
            r@ == self.syntax_spec().text_spec(),
    {
        self.syntax().text()
    }
}

/// `node` is a sound node of the tree of `parent`, one of its direct children.
pub open spec fn child_of<'a>(node: SyntaxNode<'a>, parent: SyntaxNode<'a>) -> bool {
    node.wf() && node.tree() == parent.tree() && node.parent_spec() == Some(parent) && node.height()
        < parent.height()
}

/// The view wraps a sound node whose kind its type claims: what holds of
/// every view that a cast has made.
pub open spec fn typed<'a, N: AstNode<'a>>(view: &N) -> bool {
    view.syntax_spec().wf() && N::can_cast_spec(view.syntax_spec().kind_spec())
}

/// The nodes among `nodes` that the view `N` claims, in order.
pub open spec fn castable<'a, N: AstNode<'a>>(nodes: Seq<SyntaxNode<'a>>) -> Seq<SyntaxNode<'a>>
    decreases nodes.len(),
{
    if nodes.len() == 0 {
        Seq::empty()
    } else if N::can_cast_spec(nodes[0].kind_spec()) {
        seq![nodes[0]] + castable::<N>(nodes.drop_first())
    } else {
        castable::<N>(nodes.drop_first())
    }
}

/// The test that the view `N` makes of a node: does it claim the node's kind?
pub open spec fn claims<'a, N: AstNode<'a>>() -> spec_fn(SyntaxNode<'a>) -> bool {
    |node: SyntaxNode<'a>| N::can_cast_spec(node.kind_spec())
}

/// The nodes that a pass hands out are exactly those among the parent's child
/// nodes whose kind the view claims, each once and in the order in which they
/// stand.
pub proof fn lemma_castable_is_filter<'a, N: AstNode<'a>>(nodes: Seq<SyntaxNode<'a>>)
    ensures
        castable::<N>(nodes) == nodes.filter(claims::<N>()),
    decreases nodes.len(),
{
    if nodes.len() == 0 {
        reveal(Seq::filter);
        assert(nodes.filter(claims::<N>()) =~= Seq::empty());
    } else {
        lemma_castable_is_filter::<N>(nodes.drop_first());
        assert(nodes =~= seq![nodes[0]] + nodes.drop_first());
        nodes.drop_first().lemma_filter_prepend(nodes[0], claims::<N>());
    }
}

/// A view claims no more nodes than there are: in particular none of an
/// empty sequence.
pub proof fn lemma_castable_len<'a, N: AstNode<'a>>(nodes: Seq<SyntaxNode<'a>>)
    ensures
        castable::<N>(nodes).len() <= nodes.len(),
    decreases nodes.len(),
{
    if nodes.len() > 0 {
        lemma_castable_len::<N>(nodes.drop_first());
    }
}

/// A single forward pass over the child nodes of one node that the view `N`
/// claims.
#[derive(Debug)]
pub struct AstChildren<'a, N> {
    inner: SyntaxNodeChildren<'a>,
    ph: PhantomData<N>,
}

impl<'a, N: AstNode<'a>> Clone for AstChildren<'a, N> {
    /// A second pass that stands where this one stands.
    fn clone(&self) -> (r: Self)
        ensures
            r.inner() == self.inner(),
    {
        AstChildren { inner: self.inner.clone(), ph: PhantomData }
    }
}

impl<'a, N: AstNode<'a>> AstChildren<'a, N> {
    pub closed spec fn inner(&self) -> SyntaxNodeChildren<'a> {
        self.inner
    }

    pub open spec fn wf(&self) -> bool {
        self.inner().wf()
    }

    /// The nodes that the pass will still hand out, in order.
    pub open spec fn remaining(&self) -> Seq<SyntaxNode<'a>> {
        castable::<N>(self.inner().remaining())
    }

    pub fn new(parent: &SyntaxNode<'a>) -> (r: Self)
        ensures
            r.wf(),
            r.inner().parent() == *parent,
            r.remaining() == castable::<N>(parent.child_nodes()),
    {
        AstChildren { inner: parent.children(), ph: PhantomData }
    }

    pub fn new_from_children(children: SyntaxNodeChildren<'a>) -> (r: Self)
        ensures
            r.inner() == children,
    {
        AstChildren { inner: children, ph: PhantomData }
    }

    /// Hands out the next child that `N` claims; `None` once the parent's
    /// children are used up.
    pub fn next(&mut self) -> (r: Option<N>)
        ensures
            final(self).wf(),
            final(self).inner().parent() == old(self).inner().parent(),
            match r {
                Some(n) => old(self).remaining().len() > 0 && n.syntax_spec() == old(self).remaining()[0]
                    && final(self).remaining() == old(self).remaining().drop_first() && typed(&n)
                    && child_of(n.syntax_spec(), old(self).inner().parent()),
                None => old(self).remaining().len() == 0 && final(self).remaining().len() == 0,
            },
    {
        proof {
            use_type_invariant(&self.inner);
        }
        loop
            invariant
                self.wf(),
                self.inner().parent() == old(self).inner().parent(),
                self.remaining() == old(self).remaining(),
            decreases self.inner().remaining().len(),
        {
            match self.inner.next() {
                None => {
                    return None;
                },
                Some(node) => {
                    if let Some(n) = N::cast(node) {
                        assert(old(self).remaining() =~= seq![node] + self.remaining());
                        assert(self.remaining() =~= old(self).remaining().drop_first());
                        return Some(n);
                    }
                },
            }
        }
    }

    /// Runs the pass to its end and hands out the last child that `N` claims.
    pub fn last(self) -> (r: Option<N>)
        ensures
            match r {
                Some(n) => self.remaining().len() > 0 && n.syntax_spec() == self.remaining().last() && typed(&n)
                    && child_of(n.syntax_spec(), self.inner().parent()),
                None => self.remaining().len() == 0,
            },
    {
        proof {
            use_type_invariant(&self.inner);
        }
        let mut pass = self;
        let mut found: Option<N> = None;
        loop
            invariant
                pass.wf(),
                pass.inner().parent() == self.inner().parent(),
                pass.remaining().len() <= self.remaining().len(),
                match found {
                    Some(n) => self.remaining().len() > pass.remaining().len() && n.syntax_spec()
                        == self.remaining()[self.remaining().len() - pass.remaining().len() - 1] && typed(&n)
                        && child_of(n.syntax_spec(), self.inner().parent()),
                    None => pass.remaining() == self.remaining(),
                },
                forall|k: int|
                    0 <= k < pass.remaining().len() ==> pass.remaining()[k] == self.remaining()[self.remaining().len()
                        - pass.remaining().len() + k],
            decreases pass.remaining().len(),
        {
            match pass.next() {
                None => {
                    return found;
                },
                Some(n) => {
                    found = Some(n);
                },
            }
        }
    }
}

/// The typed children of a many-child field: a view of the node that groups
/// them.
#[derive(Debug)]
pub struct AstNodeList<'a, N> {
    inner: SyntaxList<'a>,
    ph: PhantomData<N>,
}

impl<'a, N: AstNode<'a>> Clone for AstNodeList<'a, N> {
    /// A second view of the same grouping node.
    fn clone(&self) -> (r: Self)
        ensures
            r.syntax_spec() == self.syntax_spec(),
    {
        AstNodeList { inner: self.inner, ph: PhantomData }
    }
}

impl<'a, N: AstNode<'a>> AstNodeList<'a, N> {
    /// The grouping node that the list wraps.
    pub closed spec fn syntax_spec(&self) -> SyntaxNode<'a> {
        self.inner.list
    }

    pub open spec fn wf(&self) -> bool {
        self.syntax_spec().wf()
    }

    /// The grouped nodes that the view `N` claims, in order.
    pub open spec fn items(&self) -> Seq<SyntaxNode<'a>> {
        castable::<N>(self.syntax_spec().child_nodes())
    }

    /// A list that groups no node has no item, so that its first and its
    /// last item are both `None`.
    pub proof fn lemma_empty_list(&self)
        requires
            self.syntax_spec().child_nodes().len() == 0,
        ensures
            self.items().len() == 0,
    {
        lemma_castable_len::<N>(self.syntax_spec().child_nodes());
    }

    pub fn new(parent: &SyntaxNode<'a>) -> (r: Self)
        ensures
            r.syntax_spec() == *parent,
    {
        AstNodeList { inner: SyntaxList::new(*parent), ph: PhantomData }
    }

    /// A fresh pass over the items.
    pub fn iter(&self) -> (r: AstChildren<'a, N>)
        ensures
            r.wf(),
            r.inner().parent() == self.syntax_spec(),
            r.remaining() == self.items(),
    {
        AstChildren::new_from_children(self.inner.iter())
    }

    /// The number of grouped nodes, whatever their kind.
    #[inline]
    pub fn len(&self) -> (n: usize)
        ensures
            n == self.syntax_spec().child_nodes().len(),
    {
        self.inner.len()
    }

    /// The first item, found by a pass from the start.
    #[inline]
    pub fn first(&self) -> (r: Option<N>)
        ensures
            match r {
                Some(n) => self.items().len() > 0 && n.syntax_spec() == self.items()[0] && typed(&n)
                    && child_of(n.syntax_spec(), self.syntax_spec()),
                None => self.items().len() == 0,
            },
    {
        let mut pass = self.iter();
        pass.next()
    }

    /// The last item, found by a pass from the start.
    pub fn last(&self) -> (r: Option<N>)
        ensures
            match r {
                Some(n) => self.items().len() > 0 && n.syntax_spec() == self.items().last() && typed(&n)
                    && child_of(n.syntax_spec(), self.syntax_spec()),
                None => self.items().len() == 0,
            },
    {
        self.iter().last()
    }

    #[inline]
    pub fn is_empty(&self) -> (b: bool)
        ensures
            b == (self.syntax_spec().child_nodes().len() == 0),
    {
        self.inner.is_empty()
    }

    /// The text that the grouping node covers.
    #[inline]
    pub fn text(&self) -> (r: &'a str)
        ensures
            r@ == self.syntax_spec().text_spec(),
    {
        self.inner.text()
    }

    pub fn text_range(&self) -> (r: TextRange)
        ensures
            r == self.syntax_spec().text_range_spec(),
    {
        self.inner.text_range()
    }

    /// The list as a pass over its items.
    pub fn into_iter(self) -> (r: AstChildren<'a, N>)
        ensures
            r.wf(),
            r.inner().parent() == self.syntax_spec(),
            r.remaining() == self.items(),
    {
        self.iter()
    }

    /// The node whose many-child field this list is.
    pub fn parent(&self) -> (r: Option<SyntaxNode<'a>>)
        ensures
            r == self.syntax_spec().parent_spec(),
            r matches Some(p) ==> p.wf() && p.tree() == self.syntax_spec().tree(),
    {
        self.inner.parent()
    }
}

} // verus!
