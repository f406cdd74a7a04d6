//! The syntax tree that the analysis reads: typed nodes with byte ranges,
//! field names and ordered children.
use vstd::prelude::*;
use crate::text::{same_text, span, span_text};

verus! {

/// One node of a syntax tree.
#[derive(Debug)]
pub struct SyntaxNode {
    /// The node's kind, a tag such as `method_declaration`.
    pub kind: String,
    /// The name of the field under which the parent holds this node, if any.
    pub field: Option<String>,
    /// Whether the node stands for a named rule of the grammar.
    pub named: bool,
    /// Byte offset of the node's first byte in the source text.
    pub start: usize,
    /// Byte offset just behind the node's last byte.
    pub end: usize,
    /// The row in which the node starts, counted from 0.
    pub row: usize,
    /// The children, in source order.
    pub children: Vec<SyntaxNode>,
}

/// What a `SyntaxNode` stands for: a tree of kinds, fields and ranges.
pub struct SyntaxTree {
    pub kind: Seq<char>,
    pub field: Option<Seq<char>>,
    pub named: bool,
    pub start: usize,
    pub end: usize,
    pub row: usize,
    pub children: Seq<SyntaxTree>,
}

/// What a sequence of nodes stands for.
pub open spec fn trees(nodes: Seq<SyntaxNode>) -> Seq<SyntaxTree>
    decreases nodes,
{
    Seq::new(nodes.len(), |i: int| if 0 <= i < nodes.len() { nodes[i]@ } else { arbitrary() })
}

impl View for SyntaxNode {
    type V = SyntaxTree;

    open spec fn view(&self) -> SyntaxTree
        decreases self,
    {
        SyntaxTree {
            kind: self.kind@,
            field: match self.field {
                Some(f) => Some(f@),
                None => None,
            },
            named: self.named,
            start: self.start,
            end: self.end,
            row: self.row,
            children: trees(self.children@),
        }
    }
}

/// Whether the children of the node's tree are the trees of the node's
/// children, one for one.
pub open spec fn children_match(node: SyntaxNode) -> bool {
    &&& node@.children.len() == node.children@.len()
    &&& forall|j: int|
        0 <= j < node.children@.len() ==> #[trigger] node@.children[j] == node.children@[j]@
}

/// The children of a node's tree are the trees of the node's children.
pub proof fn lemma_children_match(node: SyntaxNode)
    ensures
        children_match(node),
{
    assert(node@.children == trees(node.children@));
}

/// The place of the first tree from `from` on that its parent holds under
/// the field `name`.
pub open spec fn first_in_field(nodes: Seq<SyntaxTree>, name: Seq<char>, from: int) -> Option<int>
    decreases nodes.len() - from,
{
    if from < 0 || from >= nodes.len() {
        None
    } else if nodes[from].field == Some(name) {
        Some(from)
    } else {
        first_in_field(nodes, name, from + 1)
    }
}

/// The place of the first tree from `from` on that has the kind `kind`.
pub open spec fn first_of_kind(nodes: Seq<SyntaxTree>, kind: Seq<char>, from: int) -> Option<int>
    decreases nodes.len() - from,
{
    if from < 0 || from >= nodes.len() {
        None
    } else if nodes[from].kind == kind {
        Some(from)
    } else {
        first_of_kind(nodes, kind, from + 1)
    }
}

impl SyntaxTree {
    /// The line on which the tree starts, counted from 1: one more than
    /// its row. The greatest row keeps its number.
    pub open spec fn line(&self) -> usize {
        if self.row < usize::MAX {
            (self.row + 1) as usize
        } else {
            self.row
        }
    }

    /// The source text that the tree covers.
    pub open spec fn text(&self, src: Seq<char>) -> Seq<char> {
        span(src, self.start as int, self.end as int)
    }

    /// The place among the children of the first one held under the field
    /// `name`.
    pub open spec fn field_child(&self, name: Seq<char>) -> Option<int> {
        first_in_field(self.children, name, 0)
    }

    /// The place among the children of the first one of kind `kind`.
    pub open spec fn kind_child(&self, kind: Seq<char>) -> Option<int> {
        first_of_kind(self.children, kind, 0)
    }
}

/// A place that `first_in_field` gives lies among the trees.
pub proof fn lemma_first_in_field_bound(nodes: Seq<SyntaxTree>, name: Seq<char>, from: int)
    requires
        0 <= from,
    ensures
        first_in_field(nodes, name, from) matches Some(i) ==> from <= i < nodes.len(),
    decreases nodes.len() - from,
{
    if from < nodes.len() && nodes[from].field != Some(name) {
        lemma_first_in_field_bound(nodes, name, from + 1);
    }
}

/// A place that `first_of_kind` gives lies among the trees.
pub proof fn lemma_first_of_kind_bound(nodes: Seq<SyntaxTree>, kind: Seq<char>, from: int)
    requires
        0 <= from,
    ensures
        first_of_kind(nodes, kind, from) matches Some(i) ==> from <= i < nodes.len(),
    decreases nodes.len() - from,
{
    if from < nodes.len() && nodes[from].kind != kind {
        lemma_first_of_kind_bound(nodes, kind, from + 1);
    }
}

impl SyntaxNode {
    /// Whether the node has the kind `kind`.
    pub fn is_kind(&self, kind: &str) -> (b: bool)
        ensures
            b == (self@.kind == kind@),
    {
        same_text(self.kind.as_str(), kind)
    }

    /// Whether the parent holds the node under the field `name`.
    pub fn is_in_field(&self, name: &str) -> (b: bool)
        ensures
            b == (self@.field == Some(name@)),
    {
        match &self.field {
            Some(f) => same_text(f.as_str(), name),
            None => false,
        }
    }

    /// The line on which the node starts, counted from 1.
    pub fn line(&self) -> (l: usize)
        ensures
            l == self@.line(),
    {
        if self.row < usize::MAX {
            self.row + 1
        } else {
            self.row
        }
    }

    /// The source text that the node covers.
    pub fn text_in<'a>(&self, source: &'a str) -> (r: &'a str)
        ensures
            r@ == self@.text(source@),
    {
        span_text(source, self.start, self.end)
    }

    /// The first child held under the field `name`.
    pub fn child_by_field(&self, name: &str) -> (r: Option<usize>)
        ensures
            r matches Some(i) ==> i < self.children@.len(),
            match r {
                Some(i) => self@.field_child(name@) == Some(i as int),
                None => self@.field_child(name@) is None,
            },
    {
        proof {
            lemma_children_match(*self);
        }
        let mut i: usize = 0;
        while i < self.children.len()
            invariant
                i <= self.children.len(),
                children_match(*self),
                self@.field_child(name@) == first_in_field(self@.children, name@, i as int),
            decreases self.children.len() - i,
        {
            if self.children[i].is_in_field(name) {
                return Some(i);
            }
            i += 1;
        }
        None
    }

    /// The first child of kind `kind`.
    pub fn child_by_kind(&self, kind: &str) -> (r: Option<usize>)
        ensures
            r matches Some(i) ==> i < self.children@.len(),
            match r {
                Some(i) => self@.kind_child(kind@) == Some(i as int),
                None => self@.kind_child(kind@) is None,
            },
    {
        proof {
            lemma_children_match(*self);
        }
        let mut i: usize = 0;
        while i < self.children.len()
            invariant
                i <= self.children.len(),
                children_match(*self),
                self@.kind_child(kind@) == first_of_kind(self@.children, kind@, i as int),
            decreases self.children.len() - i,
        {
            if self.children[i].is_kind(kind) {
                return Some(i);
            }
            i += 1;
        }
        None
    }
}

/// The first tree at or below `node`, parents before children, that
/// covers exactly the bytes `start..end`. Only children that overlap the
/// range are searched.
pub open spec fn located(node: SyntaxTree, start: usize, end: usize) -> Option<SyntaxTree>
    decreases node,
{
    if node.start == start && node.end == end {
        Some(node)
    } else {
        located_from(node.children, 0, start, end)
    }
}

/// The first tree at or below `nodes[from..]` that covers exactly the
/// bytes `start..end`.
pub open spec fn located_from(nodes: Seq<SyntaxTree>, from: int, start: usize, end: usize) -> Option<SyntaxTree>
    decreases nodes, nodes.len() - from,
{
    if from < 0 || from >= nodes.len() {
        None
    } else {
        let found = if nodes[from].end > start && nodes[from].start < end {
            located(nodes[from], start, end)
        } else {
            None
        };
        match found {
            Some(n) => Some(n),
            None => located_from(nodes, from + 1, start, end),
        }
    }
}

/// A tree that `located` gives covers the range asked for.
pub proof fn lemma_located_range(node: SyntaxTree, start: usize, end: usize)
    ensures
        located(node, start, end) matches Some(n) ==> n.start == start && n.end == end,
    decreases node,
{
    if !(node.start == start && node.end == end) {
        lemma_located_from_range(node.children, 0, start, end);
    }
}

/// A tree that `located_from` gives covers the range asked for.
pub proof fn lemma_located_from_range(nodes: Seq<SyntaxTree>, from: int, start: usize, end: usize)
    ensures
        located_from(nodes, from, start, end) matches Some(n) ==> n.start == start && n.end == end,
    decreases nodes, nodes.len() - from,
{
    if 0 <= from < nodes.len() {
        lemma_located_range(nodes[from], start, end);
        lemma_located_from_range(nodes, from + 1, start, end);
    }
}

/// Finds again the node that covers exactly the bytes `start..end`, such
/// as the declaration of a method of which the range was recorded.
pub fn find_node_by_range<'a>(root: &'a SyntaxNode, start: usize, end: usize) -> (r: Option<
    &'a SyntaxNode,
>)
    ensures
        match r {
            Some(n) => located(root@, start, end) == Some(n@) && n.start == start && n.end == end,
            None => located(root@, start, end) is None,
        },
    decreases root,
{
    proof {
        lemma_located_range(root@, start, end);
    }
    if root.start == start && root.end == end {
        return Some(root);
    }
    proof {
        lemma_children_match(*root);
    }
    let mut i: usize = 0;
    while i < root.children.len()
        invariant
            i <= root.children.len(),
            children_match(*root),
            located(root@, start, end) == located_from(root@.children, i as int, start, end),
        decreases root.children.len() - i,
    {
        let child = &root.children[i];
        if child.end > start && child.start < end {
            match find_node_by_range(child, start, end) {
                Some(found) => {
                    return Some(found);
                },
                None => {},
            }
        }
        i += 1;
    }
    None
}

} // verus!
