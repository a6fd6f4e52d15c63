//! The concrete syntax tree: an immutable, kind-tagged tree of nodes and
//! tokens held in one arena, and the cheap handles that point into it.

use vstd::prelude::*;

verus! {

/// The grammar production or token type of a tree element.
#[allow(non_camel_case_types)]
#[derive(Clone, Copy, Debug, PartialEq, Eq, Hash, Structural)]
pub enum SyntaxKind {
    WHITESPACE,
    COMMENT,
    IDENT,
    CONTINUE_KW,
    SEMICOLON,
    ERROR,
    LIST,
    NAME,
    CONTINUE_STMT,
    SCRIPT,
}

impl SyntaxKind {
    /// Kinds carried by leaves. Every other kind is carried by inner nodes.
    pub open spec fn is_token_spec(self) -> bool {
        self == SyntaxKind::WHITESPACE || self == SyntaxKind::COMMENT || self == SyntaxKind::IDENT
            || self == SyntaxKind::CONTINUE_KW || self == SyntaxKind::SEMICOLON
    }

    pub fn is_token(self) -> (b: bool)
        ensures
            b == self.is_token_spec(),
    {
        match self {
            SyntaxKind::WHITESPACE
            | SyntaxKind::COMMENT
            | SyntaxKind::IDENT
            | SyntaxKind::CONTINUE_KW
            | SyntaxKind::SEMICOLON => true,
            _ => false,
        }
    }

    /// Whitespace and comments: tokens that carry no meaning of the grammar.
    pub open spec fn is_trivia_spec(self) -> bool {
        self == SyntaxKind::WHITESPACE || self == SyntaxKind::COMMENT
    }

    pub fn is_trivia(self) -> (b: bool)
        ensures
            b == self.is_trivia_spec(),
    {
        match self {
            SyntaxKind::WHITESPACE | SyntaxKind::COMMENT => true,
            _ => false,
        }
    }

    /// Productions with a many-child field. The parser gives each node of
    /// such a kind a `LIST` child that groups the field's nodes, also where
    /// the field holds none.
    pub open spec fn has_list_spec(self) -> bool {
        self == SyntaxKind::SCRIPT
    }

    pub fn has_list(self) -> (b: bool)
        ensures
            b == self.has_list_spec(),
    {
        match self {
            SyntaxKind::SCRIPT => true,
            _ => false,
        }
    }
}

/// A half-open interval of character offsets into the source text.
#[derive(Clone, Copy, Debug, PartialEq, Eq, Hash, Structural)]
pub struct TextRange {
    pub start: usize,
    pub end: usize,
}

impl TextRange {
    pub fn new(start: usize, end: usize) -> (r: TextRange)
        ensures
            r.start == start,
            r.end == end,
    {
        TextRange { start, end }
    }

    pub open spec fn ordered(self) -> bool {
        self.start <= self.end
    }

    pub open spec fn within(self, outer: TextRange) -> bool {
        outer.start <= self.start && self.end <= outer.end
    }
}

/// A position in the arena: the index of a node or of a token.
#[derive(Clone, Copy, Debug, PartialEq, Eq, Hash, Structural)]
pub enum ElementId {
    Node(usize),
    Token(usize),
}

/// What the arena records of an inner node.
#[derive(Clone, Debug)]
pub struct NodeData {
    pub kind: SyntaxKind,
    pub parent: Option<usize>,
    pub children: Vec<ElementId>,
    /// The first token below the node.
    pub first_token: usize,
    /// The token after the last one below the node.
    pub end_token: usize,
}

/// What the arena records of a token.
#[derive(Clone, Copy, Debug)]
pub struct TokenData {
    pub kind: SyntaxKind,
    pub parent: usize,
    pub range: TextRange,
}

/// The offset at which token `t` starts, which is where the token before it
/// ends; for the number of tokens, the offset at which the last token ends.
pub open spec fn offset_at(tokens: Seq<TokenData>, t: int) -> usize {
    if 0 < t <= tokens.len() {
        tokens[t - 1].range.end
    } else {
        0
    }
}

/// The first token below the child entry `c`.
pub open spec fn entry_first(nodes: Seq<NodeData>, c: ElementId) -> int {
    match c {
        ElementId::Node(j) => nodes[j as int].first_token as int,
        ElementId::Token(t) => t as int,
    }
}

/// The token after the last one below the child entry `c`.
pub open spec fn entry_end(nodes: Seq<NodeData>, c: ElementId) -> int {
    match c {
        ElementId::Node(j) => nodes[j as int].end_token as int,
        ElementId::Token(t) => t + 1,
    }
}

/// The token at which child `k` of node `i` has to begin: the node's first
/// token for its first child, else the token at which the child before ends.
pub open spec fn cursor_at(nodes: Seq<NodeData>, i: int, k: int) -> int {
    if k <= 0 {
        nodes[i].first_token as int
    } else {
        entry_end(nodes, nodes[i].children@[k - 1])
    }
}

/// Child `k` of node `i` points into the arena, lies after its parent, names
/// `i` as its parent and begins where the child before it ends.
pub open spec fn child_ok(nodes: Seq<NodeData>, tokens: Seq<TokenData>, i: int, k: int) -> bool {
    let c = nodes[i].children@[k];
    &&& match c {
        ElementId::Node(j) => i < j < nodes.len() && nodes[j as int].parent == Some(i as usize),
        ElementId::Token(t) => t < tokens.len() && tokens[t as int].parent == i,
    }
    &&& entry_first(nodes, c) == cursor_at(nodes, i, k)
}

/// The child entry `c` is a node of kind `LIST`.
pub open spec fn list_entry(nodes: Seq<NodeData>, c: ElementId) -> bool {
    c matches ElementId::Node(j) && j < nodes.len() && nodes[j as int].kind == SyntaxKind::LIST
}

/// One of the first `upto` child entries is a node of kind `LIST`.
pub open spec fn list_among(nodes: Seq<NodeData>, children: Seq<ElementId>, upto: int) -> bool {
    exists|k: int| 0 <= k < upto && k < children.len() && list_entry(nodes, #[trigger] children[k])
}

/// Node `i` carries a node kind, its parent precedes it, its children are
/// sound and cover the node's tokens one after the other without a gap, and
/// it has a `LIST` child where its production has a many-child field.
pub open spec fn node_ok(nodes: Seq<NodeData>, tokens: Seq<TokenData>, i: int) -> bool {
    let n = nodes[i];
    &&& !n.kind.is_token_spec()
    &&& n.first_token <= n.end_token <= tokens.len()
    &&& (n.parent matches Some(p) ==> p < i)
    &&& forall|k: int| 0 <= k < n.children@.len() ==> #[trigger] child_ok(nodes, tokens, i, k)
    &&& cursor_at(nodes, i, n.children@.len() as int) == n.end_token
    &&& (n.kind.has_list_spec() ==> list_among(nodes, n.children@, n.children@.len() as int))
}

/// Token `t` carries a token kind, its parent is a node of the arena, and it
/// starts where the token before it ends.
pub open spec fn token_ok(node_count: nat, tokens: Seq<TokenData>, t: int) -> bool {
    let tok = tokens[t];
    &&& tok.kind.is_token_spec()
    &&& tok.range.start == offset_at(tokens, t)
    &&& tok.range.ordered()
    &&& tok.parent < node_count
}

/// Every token is sound.
pub open spec fn tokens_ok(node_count: nat, tokens: Seq<TokenData>) -> bool {
    forall|t: int| 0 <= t < tokens.len() ==> #[trigger] token_ok(node_count, tokens, t)
}

/// The first node, where there is one, is the root: it has no parent and
/// every token lies below it.
pub open spec fn root_ok(nodes: Seq<NodeData>, tokens: Seq<TokenData>) -> bool {
    nodes.len() > 0 ==> nodes[0].parent.is_none() && nodes[0].first_token == 0 && nodes[0].end_token
        == tokens.len()
}

/// The parts describe a tree that loses nothing of the source: every node
/// and every token is sound, the tokens cover the source from its first
/// character to its last, and the root covers the tokens.
pub open spec fn tree_ok(source: Seq<char>, nodes: Seq<NodeData>, tokens: Seq<TokenData>) -> bool {
    &&& forall|i: int| 0 <= i < nodes.len() ==> #[trigger] node_ok(nodes, tokens, i)
    &&& tokens_ok(nodes.len(), tokens)
    &&& offset_at(tokens, tokens.len() as int) == source.len()
    &&& root_ok(nodes, tokens)
}

/// Offsets grow with the tokens.
pub proof fn lemma_offsets_ordered(node_count: nat, tokens: Seq<TokenData>, a: int, b: int)
    requires
        tokens_ok(node_count, tokens),
        0 <= a <= b <= tokens.len(),
    ensures
        offset_at(tokens, a) <= offset_at(tokens, b),
    decreases b - a,
{
    if a < b {
        lemma_offsets_ordered(node_count, tokens, a, b - 1);
        assert(token_ok(node_count, tokens, b - 1));
    }
}

/// The first token from `lo` on, before `hi`, that is no trivia; `hi` where
/// there is none.
pub open spec fn skip_leading(tokens: Seq<TokenData>, lo: int, hi: int) -> int
    decreases hi - lo,
{
    if lo < hi && 0 <= lo < tokens.len() && tokens[lo].kind.is_trivia_spec() {
        skip_leading(tokens, lo + 1, hi)
    } else {
        lo
    }
}

/// The token after the last one before `hi`, from `lo` on, that is no trivia;
/// `lo` where there is none.
pub open spec fn skip_trailing(tokens: Seq<TokenData>, lo: int, hi: int) -> int
    decreases hi - lo,
{
    if lo < hi && 0 < hi <= tokens.len() && tokens[hi - 1].kind.is_trivia_spec() {
        skip_trailing(tokens, lo, hi - 1)
    } else {
        hi
    }
}

/// What `skip_leading` gives lies between `lo` and `hi`; every token from
/// `lo` up to it is trivia, and the token at it, where it is not `hi`, is
/// none.
pub proof fn lemma_skip_leading(tokens: Seq<TokenData>, lo: int, hi: int)
    requires
        0 <= lo <= hi <= tokens.len(),
    ensures
        lo <= skip_leading(tokens, lo, hi) <= hi,
        forall|t: int| lo <= t < skip_leading(tokens, lo, hi) ==> (#[trigger] tokens[t]).kind.is_trivia_spec(),
        skip_leading(tokens, lo, hi) < hi ==> !tokens[skip_leading(tokens, lo, hi)].kind.is_trivia_spec(),
    decreases hi - lo,
{
    if lo < hi && tokens[lo].kind.is_trivia_spec() {
        lemma_skip_leading(tokens, lo + 1, hi);
    }
}

/// What `skip_trailing` gives lies between `lo` and `hi`; every token from
/// it up to `hi` is trivia, and the token before it, where it is not `lo`,
/// is none.
pub proof fn lemma_skip_trailing(tokens: Seq<TokenData>, lo: int, hi: int)
    requires
        0 <= lo <= hi <= tokens.len(),
    ensures
        lo <= skip_trailing(tokens, lo, hi) <= hi,
        forall|t: int| skip_trailing(tokens, lo, hi) <= t < hi ==> (#[trigger] tokens[t]).kind.is_trivia_spec(),
        lo < skip_trailing(tokens, lo, hi) ==> !tokens[skip_trailing(tokens, lo, hi) - 1].kind.is_trivia_spec(),
    decreases hi - lo,
{
    if lo < hi && tokens[hi - 1].kind.is_trivia_spec() {
        lemma_skip_trailing(tokens, lo, hi - 1);
    }
}

/// An immutable syntax tree over one source text.
#[derive(Debug)]
pub struct SyntaxTree {
    source: String,
    nodes: Vec<NodeData>,
    tokens: Vec<TokenData>,
}

fn offset_of(tokens: &Vec<TokenData>, t: usize) -> (r: usize)
    requires
        t <= tokens@.len(),
    ensures
        r == offset_at(tokens@, t as int),
{
    if t == 0 {
        0
    } else {
        tokens[t - 1].range.end
    }
}

fn check_token(node_count: usize, tokens: &Vec<TokenData>, t: usize) -> (b: bool)
    requires
        t < tokens@.len(),
    ensures
        b == token_ok(node_count as nat, tokens@, t as int),
{
    let tok = &tokens[t];
    tok.kind.is_token() && tok.range.start == offset_of(tokens, t) && tok.range.start <= tok.range.end
        && tok.parent < node_count
}

fn check_child(nodes: &Vec<NodeData>, tokens: &Vec<TokenData>, i: usize, k: usize, cursor: usize) -> (b: bool)
    requires
        i < nodes@.len(),
        k < nodes@[i as int].children@.len(),
        cursor == cursor_at(nodes@, i as int, k as int),
    ensures
        b == child_ok(nodes@, tokens@, i as int, k as int),
{
    match nodes[i].children[k] {
        ElementId::Node(j) => {
            if i < j && j < nodes.len() {
                match nodes[j].parent {
                    Some(p) => p == i && nodes[j].first_token == cursor,
                    None => false,
                }
            } else {
                false
            }
        },
        ElementId::Token(t) => t < tokens.len() && tokens[t].parent == i && t == cursor,
    }
}

fn check_node(nodes: &Vec<NodeData>, tokens: &Vec<TokenData>, i: usize) -> (b: bool)
    requires
        i < nodes@.len(),
    ensures
        b == node_ok(nodes@, tokens@, i as int),
{
    let n = &nodes[i];
    let parent_before = match n.parent {
        Some(p) => p < i,
        None => true,
    };
    if n.kind.is_token() || n.first_token > n.end_token || n.end_token > tokens.len() || !parent_before {
        return false;
    }
    let token_count = tokens.len();
    let mut seen_list = false;
    let mut cursor = n.first_token;
    let mut k: usize = 0;
    while k < n.children.len()
        invariant
            token_count == tokens@.len(),
            i < nodes@.len(),
            n == &nodes@[i as int],
            k <= n.children@.len(),
            forall|m: int| 0 <= m < k ==> #[trigger] child_ok(nodes@, tokens@, i as int, m),
            cursor == cursor_at(nodes@, i as int, k as int),
            seen_list == list_among(nodes@, n.children@, k as int),
        decreases n.children@.len() - k,
    {
        if !check_child(nodes, tokens, i, k, cursor) {
            return false;
        }
        match n.children[k] {
            ElementId::Node(j) => {
                if nodes[j].kind == SyntaxKind::LIST {
                    seen_list = true;
                }
                cursor = nodes[j].end_token;
            },
            ElementId::Token(t) => {
                assert(t < token_count);
                cursor = t + 1;
            },
        }
        proof {
            if list_among(nodes@, n.children@, k + 1) && !seen_list {
                let w = choose|w: int|
                    0 <= w < k + 1 && w < n.children@.len() && list_entry(nodes@, #[trigger] n.children@[w]);
                assert(w < k);
            }
        }
        k += 1;
    }
    cursor == n.end_token && (seen_list || !n.kind.has_list())
}

impl SyntaxTree {
    pub closed spec fn source(&self) -> Seq<char> {
        self.source@
    }

    pub closed spec fn nodes(&self) -> Seq<NodeData> {
        self.nodes@
    }

    pub closed spec fn tokens(&self) -> Seq<TokenData> {
        self.tokens@
    }

    /// The tree's invariant: its parts describe a tree.
    #[verifier::type_invariant]
    pub open spec fn wf(&self) -> bool {
        tree_ok(self.source(), self.nodes(), self.tokens())
    }

    /// Builds a tree from its parts; refuses parts that do not describe a tree.
    pub fn new(source: String, nodes: Vec<NodeData>, tokens: Vec<TokenData>) -> (r: Option<SyntaxTree>)
        ensures
            r.is_some() == tree_ok(source@, nodes@, tokens@),
            r matches Some(tree) ==> tree.wf() && tree.source() == source@ && tree.nodes() == nodes@
                && tree.tokens() == tokens@,
    {
        if offset_of(&tokens, tokens.len()) != source.as_str().unicode_len() {
            return None;
        }
        if nodes.len() > 0 && (nodes[0].parent.is_some() || nodes[0].first_token != 0 || nodes[0].end_token
            != tokens.len()) {
            return None;
        }
        let mut t: usize = 0;
        while t < tokens.len()
            invariant
                t <= tokens@.len(),
                forall|m: int| 0 <= m < t ==> #[trigger] token_ok(nodes@.len(), tokens@, m),
            decreases tokens@.len() - t,
        {
            if !check_token(nodes.len(), &tokens, t) {
                return None;
            }
            t += 1;
        }
        let mut i: usize = 0;
        while i < nodes.len()
            invariant
                i <= nodes@.len(),
                forall|m: int| 0 <= m < i ==> #[trigger] node_ok(nodes@, tokens@, m),
            decreases nodes@.len() - i,
        {
            if !check_node(&nodes, &tokens, i) {
                return None;
            }
            i += 1;
        }
        Some(SyntaxTree { source, nodes, tokens })
    }

    pub fn node_count(&self) -> (n: usize)
        ensures
            n == self.nodes().len(),
    {
        self.nodes.len()
    }

    /// The handle of node `index`, where the arena has one.
    pub fn node(&self, index: usize) -> (r: Option<SyntaxNode<'_>>)
        ensures
            r.is_some() == (index < self.nodes().len()),
            r matches Some(n) ==> n.wf() && n.tree() == self && n.index() == index,
    {
        proof {
            use_type_invariant(self);
        }
        if index < self.nodes.len() {
            Some(SyntaxNode { tree: self, index })
        } else {
            None
        }
    }

    /// The first node of the arena: it has no parent and covers every token.
    pub fn root(&self) -> (r: Option<SyntaxNode<'_>>)
        ensures
            r.is_some() == (self.nodes().len() > 0),
            r matches Some(n) ==> n.wf() && n.tree() == self && n.index() == 0 && n.parent_spec().is_none(),
    {
        self.node(0)
    }
}

/// A handle to an inner node: the tree and the node's place in it.
#[derive(Clone, Copy, Debug)]
pub struct SyntaxNode<'a> {
    tree: &'a SyntaxTree,
    index: usize,
}

/// A handle to a token: the tree and the token's place in it.
#[derive(Clone, Copy, Debug)]
pub struct SyntaxToken<'a> {
    tree: &'a SyntaxTree,
    index: usize,
}

/// A child of a node: an inner node or a token.
#[derive(Clone, Copy, Debug)]
pub enum SyntaxElement<'a> {
    Node(SyntaxNode<'a>),
    Token(SyntaxToken<'a>),
}

impl<'a> SyntaxToken<'a> {
    pub closed spec fn tree(self) -> &'a SyntaxTree {
        self.tree
    }

    pub closed spec fn index(self) -> usize {
        self.index
    }

    /// The handle's invariant: it points at a token of a sound tree.
    #[verifier::type_invariant]
    pub open spec fn wf(self) -> bool {
        self.tree().wf() && self.index() < self.tree().tokens().len()
    }

    pub open spec fn data(self) -> TokenData {
        self.tree().tokens()[self.index() as int]
    }

    pub open spec fn kind_spec(self) -> SyntaxKind {
        self.data().kind
    }

    pub open spec fn text_range_spec(self) -> TextRange {
        self.data().range
    }

    /// The characters of the source that the token covers.
    pub open spec fn text_spec(self) -> Seq<char> {
        self.tree().source().subrange(self.data().range.start as int, self.data().range.end as int)
    }

    pub closed spec fn parent_spec(self) -> SyntaxNode<'a> {
        SyntaxNode { tree: self.tree, index: self.data().parent }
    }

    /// The token's place in the arena.
    pub fn position(&self) -> (r: usize)
        ensures
            r == self.index(),
    {
        self.index
    }

    pub fn kind(&self) -> (k: SyntaxKind)
        ensures
            k == self.kind_spec(),
            k.is_token_spec(),
    {
        proof {
            use_type_invariant(self);
        }
        assert(token_ok(self.tree.nodes().len(), self.tree.tokens(), self.index as int));
        self.tree.tokens[self.index].kind
    }

    pub fn text_range(&self) -> (r: TextRange)
        ensures
            r == self.text_range_spec(),
            r.ordered(),
            r.end <= self.tree().source().len(),
    {
        proof {
            use_type_invariant(self);
            assert(token_ok(self.tree.nodes().len(), self.tree.tokens(), self.index as int));
            lemma_offsets_ordered(
                self.tree.nodes().len(),
                self.tree.tokens(),
                self.index + 1,
                self.tree.tokens().len() as int,
            );
        }
        self.tree.tokens[self.index].range
    }

    pub fn text(&self) -> (r: &'a str)
        ensures
            r@ == self.text_spec(),
    {
        let range = self.text_range();
        self.tree.source.as_str().substring_char(range.start, range.end)
    }

    /// The node that holds this token.
    pub fn parent(&self) -> (r: SyntaxNode<'a>)
        ensures
            r == self.parent_spec(),
            r.wf(),
            r.tree() == self.tree(),
    {
        proof {
            use_type_invariant(self);
        }
        assert(token_ok(self.tree.nodes().len(), self.tree.tokens(), self.index as int));
        SyntaxNode { tree: self.tree, index: self.tree.tokens[self.index].parent }
    }
}

impl<'a> SyntaxElement<'a> {
    pub open spec fn wf(self) -> bool {
        match self {
            SyntaxElement::Node(n) => n.wf(),
            SyntaxElement::Token(t) => t.wf(),
        }
    }

    pub open spec fn kind_spec(self) -> SyntaxKind {
        match self {
            SyntaxElement::Node(n) => n.kind_spec(),
            SyntaxElement::Token(t) => t.kind_spec(),
        }
    }

    pub fn kind(&self) -> (k: SyntaxKind)
        ensures
            k == self.kind_spec(),
    {
        match self {
            SyntaxElement::Node(n) => n.kind(),
            SyntaxElement::Token(t) => t.kind(),
        }
    }

    pub fn into_node(self) -> (r: Option<SyntaxNode<'a>>)
        ensures
            r == (match self {
                SyntaxElement::Node(n) => Some(n),
                SyntaxElement::Token(_) => None,
            }),
    {
        match self {
            SyntaxElement::Node(n) => Some(n),
            SyntaxElement::Token(_) => None,
        }
    }

    pub fn into_token(self) -> (r: Option<SyntaxToken<'a>>)
        ensures
            r == (match self {
                SyntaxElement::Node(_) => None,
                SyntaxElement::Token(t) => Some(t),
            }),
    {
        match self {
            SyntaxElement::Node(_) => None,
            SyntaxElement::Token(t) => Some(t),
        }
    }
}

/// The inner nodes among `elements`, in order.
pub open spec fn nodes_of<'a>(elements: Seq<SyntaxElement<'a>>) -> Seq<SyntaxNode<'a>>
    decreases elements.len(),
{
    if elements.len() == 0 {
        Seq::empty()
    } else {
        match elements[0] {
            SyntaxElement::Node(n) => seq![n] + nodes_of(elements.drop_first()),
            SyntaxElement::Token(_) => nodes_of(elements.drop_first()),
        }
    }
}

/// The first token of kind `kind` among `elements`.
pub open spec fn first_token_of<'a>(elements: Seq<SyntaxElement<'a>>, kind: SyntaxKind) -> Option<SyntaxToken<'a>>
    decreases elements.len(),
{
    if elements.len() == 0 {
        None
    } else {
        match elements[0] {
            SyntaxElement::Token(t) if t.kind_spec() == kind => Some(t),
            _ => first_token_of(elements.drop_first(), kind),
        }
    }
}

impl<'a> SyntaxNode<'a> {
    pub closed spec fn tree(self) -> &'a SyntaxTree {
        self.tree
    }

    pub closed spec fn index(self) -> usize {
        self.index
    }

    /// The handle's invariant: it points at a node of a sound tree.
    #[verifier::type_invariant]
    pub open spec fn wf(self) -> bool {
        self.tree().wf() && self.index() < self.tree().nodes().len()
    }

    pub open spec fn data(self) -> NodeData {
        self.tree().nodes()[self.index() as int]
    }

    pub open spec fn kind_spec(self) -> SyntaxKind {
        self.data().kind
    }

    /// From the start of the node's first token to the end of its last one.
    pub open spec fn text_range_spec(self) -> TextRange {
        TextRange {
            start: offset_at(self.tree().tokens(), self.data().first_token as int),
            end: offset_at(self.tree().tokens(), self.data().end_token as int),
        }
    }

    /// The first of the node's tokens that is no trivia; the end of the node
    /// where it has none.
    pub open spec fn trimmed_first(self) -> int {
        skip_leading(self.tree().tokens(), self.data().first_token as int, self.data().end_token as int)
    }

    /// The token after the last of the node's tokens that is no trivia.
    pub open spec fn trimmed_end(self) -> int {
        skip_trailing(self.tree().tokens(), self.trimmed_first(), self.data().end_token as int)
    }

    /// The node's range without the trivia tokens at its two ends. Of a node
    /// that holds nothing but trivia it is the empty range at the node's end.
    pub open spec fn trimmed_range_spec(self) -> TextRange {
        TextRange {
            start: offset_at(self.tree().tokens(), self.trimmed_first()),
            end: offset_at(self.tree().tokens(), self.trimmed_end()),
        }
    }

    /// The characters of the source that the node covers, trivia included.
    pub open spec fn text_spec(self) -> Seq<char> {
        self.tree().source().subrange(self.text_range_spec().start as int, self.text_range_spec().end as int)
    }

    /// The characters that the node covers without the trivia at its two ends.
    pub open spec fn trimmed_text_spec(self) -> Seq<char> {
        self.tree().source().subrange(
            self.trimmed_range_spec().start as int,
            self.trimmed_range_spec().end as int,
        )
    }

    /// The node's direct children, nodes and tokens interleaved, in source order.
    pub closed spec fn elements_spec(self) -> Seq<SyntaxElement<'a>> {
        Seq::new(
            self.data().children@.len(),
            |k: int|
                match self.data().children@[k] {
                    ElementId::Node(j) => SyntaxElement::Node(SyntaxNode { tree: self.tree, index: j }),
                    ElementId::Token(t) => SyntaxElement::Token(SyntaxToken { tree: self.tree, index: t }),
                },
        )
    }

    /// The node's direct child nodes, in source order.
    pub open spec fn child_nodes(self) -> Seq<SyntaxNode<'a>> {
        nodes_of(self.elements_spec())
    }

    pub closed spec fn parent_spec(self) -> Option<SyntaxNode<'a>> {
        match self.data().parent {
            Some(p) => Some(SyntaxNode { tree: self.tree, index: p }),
            None => None,
        }
    }

    /// How far the node lies from the end of the arena. A child node lies
    /// strictly nearer to it than its parent.
    pub open spec fn height(self) -> nat {
        (self.tree().nodes().len() - self.index()) as nat
    }

    /// Every child of a sound node is sound, lies in the same tree, and has
    /// the node as its parent; a child node has a smaller height.
    pub proof fn lemma_elements(self, k: int)
        requires
            self.wf(),
            0 <= k < self.elements_spec().len(),
        ensures
            self.elements_spec()[k].wf(),
            self.elements_spec()[k] matches SyntaxElement::Node(n) ==> n.tree() == self.tree()
                && n.parent_spec() == Some(self) && n.height() < self.height(),
            self.elements_spec()[k] matches SyntaxElement::Token(t) ==> t.tree() == self.tree()
                && t.parent_spec() == self,
    {
        let tree = self.tree;
        assert(node_ok(tree.nodes(), tree.tokens(), self.index as int));
        assert(child_ok(tree.nodes(), tree.tokens(), self.index as int, k));
    }

    /// The trimmed range of a node lies inside its range. What it leaves out
    /// at either end is trivia, and where it is not empty it begins and ends
    /// with a token that is none.
    pub proof fn lemma_trimmed(self)
        requires
            self.wf(),
        ensures
            self.trimmed_range_spec().ordered(),
            self.trimmed_range_spec().within(self.text_range_spec()),
            self.data().first_token <= self.trimmed_first() <= self.trimmed_end() <= self.data().end_token,
            forall|t: int|
                self.data().first_token <= t < self.trimmed_first() ==> (#[trigger] self.tree().tokens()[t]).kind.is_trivia_spec(),
            forall|t: int|
                self.trimmed_end() <= t < self.data().end_token ==> (#[trigger] self.tree().tokens()[t]).kind.is_trivia_spec(),
            self.trimmed_first() < self.trimmed_end() ==> !self.tree().tokens()[self.trimmed_first()].kind.is_trivia_spec()
                && !self.tree().tokens()[self.trimmed_end() - 1].kind.is_trivia_spec(),
    {
        let tokens = self.tree().tokens();
        let count = self.tree().nodes().len();
        let first = self.data().first_token as int;
        let end = self.data().end_token as int;
        assert(node_ok(self.tree().nodes(), tokens, self.index() as int));
        lemma_skip_leading(tokens, first, end);
        let a = self.trimmed_first();
        lemma_skip_trailing(tokens, a, end);
        let b = self.trimmed_end();
        lemma_offsets_ordered(count, tokens, first, a);
        lemma_offsets_ordered(count, tokens, a, b);
        lemma_offsets_ordered(count, tokens, b, end);
    }

    /// A node whose production has a many-child field has a child node of
    /// kind `LIST`, also where the field holds no node.
    pub proof fn lemma_list_present(self)
        requires
            self.wf(),
            self.kind_spec().has_list_spec(),
        ensures
            first_of_kind(self.child_nodes(), SyntaxKind::LIST).is_some(),
    {
        let tree = self.tree;
        assert(node_ok(tree.nodes(), tree.tokens(), self.index as int));
        let children = self.data().children@;
        let k = choose|k: int|
            0 <= k < children.len() && k < children.len() && list_entry(tree.nodes(), #[trigger] children[k]);
        assert(self.elements_spec()[k] matches SyntaxElement::Node(n) && n.kind_spec() == SyntaxKind::LIST);
        lemma_first_of_kind_found(self.elements_spec(), k, SyntaxKind::LIST);
    }

    /// The node's place in the arena.
    pub fn position(&self) -> (r: usize)
        ensures
            r == self.index(),
    {
        self.index
    }

    pub fn kind(&self) -> (k: SyntaxKind)
        ensures
            k == self.kind_spec(),
            !k.is_token_spec(),
    {
        proof {
            use_type_invariant(self);
        }
        assert(node_ok(self.tree.nodes(), self.tree.tokens(), self.index as int));
        self.tree.nodes[self.index].kind
    }

    pub fn text_range(&self) -> (r: TextRange)
        ensures
            r == self.text_range_spec(),
            r.ordered(),
            r.end <= self.tree().source().len(),
    {
        proof {
            use_type_invariant(self);
        }
        let data = &self.tree.nodes[self.index];
        proof {
            let count = self.tree.nodes().len();
            let tokens = self.tree.tokens();
            assert(node_ok(self.tree.nodes(), tokens, self.index as int));
            lemma_offsets_ordered(count, tokens, data.first_token as int, data.end_token as int);
            lemma_offsets_ordered(count, tokens, data.end_token as int, tokens.len() as int);
        }
        TextRange::new(offset_of(&self.tree.tokens, data.first_token), offset_of(&self.tree.tokens, data.end_token))
    }

    pub fn trimmed_range(&self) -> (r: TextRange)
        ensures
            r == self.trimmed_range_spec(),
            r.ordered(),
            r.within(self.text_range_spec()),
            r.end <= self.tree().source().len(),
    {
        proof {
            use_type_invariant(self);
        }
        let data = &self.tree.nodes[self.index];
        let tokens = &self.tree.tokens;
        assert(node_ok(self.tree.nodes(), self.tree.tokens(), self.index as int));
        let end = data.end_token;
        let mut lo = data.first_token;
        while lo < end && tokens[lo].kind.is_trivia()
            invariant
                data.first_token <= lo <= end <= tokens@.len(),
                skip_leading(tokens@, lo as int, end as int) == skip_leading(
                    tokens@,
                    data.first_token as int,
                    end as int,
                ),
            decreases end - lo,
        {
            lo += 1;
        }
        let mut hi = end;
        while lo < hi && tokens[hi - 1].kind.is_trivia()
            invariant
                lo <= hi <= end <= tokens@.len(),
                skip_trailing(tokens@, lo as int, hi as int) == skip_trailing(tokens@, lo as int, end as int),
            decreases hi - lo,
        {
            hi -= 1;
        }
        proof {
            let count = self.tree.nodes().len();
            lemma_offsets_ordered(count, tokens@, data.first_token as int, lo as int);
            lemma_offsets_ordered(count, tokens@, lo as int, hi as int);
            lemma_offsets_ordered(count, tokens@, hi as int, end as int);
            lemma_offsets_ordered(count, tokens@, end as int, tokens@.len() as int);
        }
        TextRange::new(offset_of(tokens, lo), offset_of(tokens, hi))
    }

    pub fn text(&self) -> (r: &'a str)
        ensures
            r@ == self.text_spec(),
    {
        let range = self.text_range();
        self.tree.source.as_str().substring_char(range.start, range.end)
    }

    pub fn trimmed_text(&self) -> (r: &'a str)
        ensures
            r@ == self.trimmed_text_spec(),
    {
        let range = self.trimmed_range();
        self.tree.source.as_str().substring_char(range.start, range.end)
    }

    /// The node that holds this one; the root has none.
    pub fn parent(&self) -> (r: Option<SyntaxNode<'a>>)
        ensures
            r == self.parent_spec(),
            r matches Some(p) ==> p.wf() && p.tree() == self.tree(),
    {
        proof {
            use_type_invariant(self);
        }
        assert(node_ok(self.tree.nodes(), self.tree.tokens(), self.index as int));
        match self.tree.nodes[self.index].parent {
            Some(p) => Some(SyntaxNode { tree: self.tree, index: p }),
            None => None,
        }
    }

    /// The number of direct children, nodes and tokens together.
    pub fn element_count(&self) -> (n: usize)
        ensures
            n == self.elements_spec().len(),
    {
        proof {
            use_type_invariant(self);
        }
        self.tree.nodes[self.index].children.len()
    }

    /// The direct child at position `k`.
    pub fn element(&self, k: usize) -> (r: SyntaxElement<'a>)
        requires
            k < self.elements_spec().len(),
        ensures
            r == self.elements_spec()[k as int],
            r.wf(),
    {
        proof {
            use_type_invariant(self);
            self.lemma_elements(k as int);
        }
        match self.tree.nodes[self.index].children[k] {
            ElementId::Node(j) => SyntaxElement::Node(SyntaxNode { tree: self.tree, index: j }),
            ElementId::Token(t) => SyntaxElement::Token(SyntaxToken { tree: self.tree, index: t }),
        }
    }

    /// A fresh pass over the node's direct child nodes.
    pub fn children(&self) -> (r: SyntaxNodeChildren<'a>)
        ensures
            r.wf(),
            r.parent() == *self,
            r.remaining() == self.child_nodes(),
    {
        proof {
            use_type_invariant(self);
        }
        assert(self.elements_spec().skip(0) =~= self.elements_spec());
        SyntaxNodeChildren { parent: *self, pos: 0 }
    }
}

/// A single forward pass over the direct child nodes of a node.
#[derive(Debug)]
pub struct SyntaxNodeChildren<'a> {
    parent: SyntaxNode<'a>,
    pos: usize,
}

impl<'a> Clone for SyntaxNodeChildren<'a> {
    /// A second pass that stands where this one stands.
    fn clone(&self) -> (r: Self)
        ensures
            r == *self,
    {
        proof {
            use_type_invariant(self);
        }
        SyntaxNodeChildren { parent: self.parent, pos: self.pos }
    }
}

impl<'a> SyntaxNodeChildren<'a> {
    /// The node whose children the pass runs over.
    pub closed spec fn parent(&self) -> SyntaxNode<'a> {
        self.parent
    }

    /// The pass's invariant: it stands at one of the parent's children or
    /// behind the last.
    #[verifier::type_invariant]
    pub closed spec fn wf(&self) -> bool {
        self.parent.wf() && self.pos <= self.parent.elements_spec().len()
    }

    /// The child nodes that the pass has not handed out yet, in order.
    pub closed spec fn remaining(&self) -> Seq<SyntaxNode<'a>> {
        nodes_of(self.parent.elements_spec().skip(self.pos as int))
    }

    /// Hands out the next child node, skipping tokens; `None` once the
    /// parent's children are used up.
    pub fn next(&mut self) -> (r: Option<SyntaxNode<'a>>)
        ensures
            final(self).wf(),
            final(self).parent() == old(self).parent(),
            match r {
                Some(n) => old(self).remaining().len() > 0 && n == old(self).remaining()[0]
                    && final(self).remaining() == old(self).remaining().drop_first() && n.wf()
                    && n.tree() == old(self).parent().tree() && n.parent_spec() == Some(old(self).parent())
                    && n.height() < old(self).parent().height(),
                None => old(self).remaining().len() == 0 && final(self).remaining().len() == 0,
            },
    {
        proof {
            use_type_invariant(&*self);
        }
        let count = self.parent.element_count();
        while self.pos < count
            invariant
                self.wf(),
                self.parent == old(self).parent,
                count == self.parent.elements_spec().len(),
                self.remaining() == old(self).remaining(),
            decreases count - self.pos,
        {
            let ghost before = self.parent.elements_spec().skip(self.pos as int);
            let element = self.parent.element(self.pos);
            proof {
                self.parent.lemma_elements(self.pos as int);
                assert(before[0] == element);
                assert(before.drop_first() =~= self.parent.elements_spec().skip(self.pos + 1));
            }
            self.pos += 1;
            if let SyntaxElement::Node(n) = element {
                assert(old(self).remaining() =~= seq![n] + self.remaining());
                assert(self.remaining() =~= old(self).remaining().drop_first());
                return Some(n);
            }
        }
        assert(self.parent.elements_spec().skip(self.pos as int).len() == 0);
        None
    }
}

/// The first node of kind `kind` among `nodes`.
pub open spec fn first_of_kind<'a>(nodes: Seq<SyntaxNode<'a>>, kind: SyntaxKind) -> Option<SyntaxNode<'a>>
    decreases nodes.len(),
{
    if nodes.len() == 0 {
        None
    } else if nodes[0].kind_spec() == kind {
        Some(nodes[0])
    } else {
        first_of_kind(nodes.drop_first(), kind)
    }
}

/// Where one of `elements` is a node of kind `kind`, the nodes among them
/// have a first of that kind.
pub proof fn lemma_first_of_kind_found<'a>(elements: Seq<SyntaxElement<'a>>, k: int, kind: SyntaxKind)
    requires
        0 <= k < elements.len(),
        elements[k] matches SyntaxElement::Node(n) && n.kind_spec() == kind,
    ensures
        first_of_kind(nodes_of(elements), kind).is_some(),
    decreases elements.len(),
{
    let nodes = nodes_of(elements);
    if k > 0 {
        lemma_first_of_kind_found(elements.drop_first(), k - 1, kind);
        if let SyntaxElement::Node(m) = elements[0] {
            assert(nodes.drop_first() =~= nodes_of(elements.drop_first()));
        }
    }
}

/// The node that groups the repeated children of a many-child field.
#[derive(Clone, Copy, Debug)]
pub struct SyntaxList<'a> {
    pub list: SyntaxNode<'a>,
}

impl<'a> SyntaxList<'a> {
    pub open spec fn wf(&self) -> bool {
        self.list.wf()
    }

    pub fn new(node: SyntaxNode<'a>) -> (r: SyntaxList<'a>)
        ensures
            r.list == node,
    {
        SyntaxList { list: node }
    }

    /// A fresh pass over the grouped nodes.
    pub fn iter(&self) -> (r: SyntaxNodeChildren<'a>)
        ensures
            r.wf(),
            r.parent() == self.list,
            r.remaining() == self.list.child_nodes(),
    {
        self.list.children()
    }

    /// The number of grouped nodes.
    pub fn len(&self) -> (n: usize)
        ensures
            n == self.list.child_nodes().len(),
    {
        proof {
            use_type_invariant(&self.list);
        }
        let count = self.list.element_count();
        let mut found: usize = 0;
        let mut k: usize = 0;
        assert(self.list.elements_spec().skip(0) =~= self.list.elements_spec());
        while k < count
            invariant
                self.wf(),
                count == self.list.elements_spec().len(),
                k <= count,
                found <= k,
                found + nodes_of(self.list.elements_spec().skip(k as int)).len()
                    == self.list.child_nodes().len(),
            decreases count - k,
        {
            let ghost rest = self.list.elements_spec().skip(k as int);
            let element = self.list.element(k);
            proof {
                assert(rest[0] == element);
                assert(rest.drop_first() =~= self.list.elements_spec().skip(k + 1));
            }
            if let SyntaxElement::Node(_) = element {
                found += 1;
            }
            k += 1;
        }
        found
    }

    pub fn is_empty(&self) -> (b: bool)
        ensures
            b == (self.list.child_nodes().len() == 0),
    {
        self.len() == 0
    }

    pub fn text(&self) -> (r: &'a str)
        ensures
            r@ == self.list.text_spec(),
    {
        self.list.text()
    }

    pub fn text_range(&self) -> (r: TextRange)
        ensures
            r == self.list.text_range_spec(),
    {
        self.list.text_range()
    }

    /// The node whose many-child field this list is.
    pub fn parent(&self) -> (r: Option<SyntaxNode<'a>>)
        ensures
            r == self.list.parent_spec(),
            r matches Some(p) ==> p.wf() && p.tree() == self.list.tree(),
    {
        self.list.parent()
    }
}

} // verus!
