//! Reading Java source text into a `SyntaxNode` tree with the tree-sitter
//! parser and its Java grammar.
//!
//! What the parser gives for a text is named, not defined: `java_syntax`,
//! the nodes of the parser's tree in source order. Making the tree of
//! those nodes, and judging whether it is taken, is decided here.
use vstd::prelude::*;
use crate::syntax::{trees, SyntaxNode, SyntaxTree};

verus! {

/// What the parser tells of one node: its kind, the field under which its
/// parent holds it, whether it is named, its first byte, the byte behind
/// its last, the row in which it starts, and the number of its children.
pub type NodeRecord = (&'static str, Option<&'static str>, bool, usize, usize, usize, usize);

/// What a `NodeRecord` stands for.
pub struct NodeFacts {
    pub kind: Seq<char>,
    pub field: Option<Seq<char>>,
    pub named: bool,
    pub start: usize,
    pub end: usize,
    pub row: usize,
    pub children: usize,
}

/// What a record stands for.
pub open spec fn facts(record: NodeRecord) -> NodeFacts {
    NodeFacts {
        kind: record.0@,
        field: match record.1 {
            Some(name) => Some(name@),
            None => None,
        },
        named: record.2,
        start: record.3,
        end: record.4,
        row: record.5,
        children: record.6,
    }
}

/// What a list of records stands for.
pub open spec fn all_facts(records: Seq<NodeRecord>) -> Seq<NodeFacts> {
    Seq::new(records.len(), |i: int| facts(records[i]))
}

/// What the tree-sitter parser gives for a source text under its Java
/// grammar: the nodes of the syntax tree, each before its children and
/// otherwise in source order; no nodes where the parser returns no tree;
/// the parser's message where it does not accept the grammar.
pub uninterp spec fn java_syntax(src: Seq<char>) -> Result<Option<Seq<NodeFacts>>, Seq<char>>;

/// What the result of reading a source stands for.
pub open spec fn reading_view(r: Result<Option<Vec<NodeRecord>>, String>) -> Result<
    Option<Seq<NodeFacts>>,
    Seq<char>,
> {
    match r {
        Ok(Some(records)) => Ok(Some(all_facts(records@))),
        Ok(None) => Ok(None),
        Err(message) => Err(message@),
    }
}

/// Parses `source` with a fresh `tree_sitter::Parser` to which
/// `tree_sitter_java::language` is assigned (`Parser::set_language`,
/// `Parser::parse`), and hands out the nodes of the tree as a
/// `TreeCursor` reaches them, each before its children. The parser has no
/// timeout and no cancellation flag, so the result depends on the text
/// alone: it is `java_syntax` of the text.
#[verifier::external_body]
fn read_java(source: &str) -> (r: Result<Option<Vec<NodeRecord>>, String>)
    ensures
        reading_view(r) == java_syntax(source@),
{
    let mut parser = tree_sitter::Parser::new();
    parser.set_language(tree_sitter_java::language()).map_err(|e| e.to_string())?;
    let Some(tree) = parser.parse(source, None) else { return Ok(None) };
    let (mut cursor, mut items) = (tree.walk(), Vec::new());
    loop {
        let n = cursor.node();
        items.push((n.kind(), cursor.field_name(), n.is_named(), n.start_byte(), n.end_byte(), n.start_position().row, n.child_count()));
        if cursor.goto_first_child() { continue; }
        while !cursor.goto_next_sibling() {
            if !cursor.goto_parent() { return Ok(Some(items)); }
        }
    }
}

/// The greatest number of levels of a tree that `parse_syntax` gives.
pub const MAX_DEPTH: usize = 4096;

/// The tree of at most `depth` levels whose root is `items[pos]` and whose
/// nodes follow it, and the place behind its last node; none where the
/// nodes from `pos` on do not make such a tree.
pub open spec fn tree_at(items: Seq<NodeFacts>, pos: int, depth: nat) -> Option<(SyntaxTree, int)>
    decreases depth, 0nat,
{
    if depth == 0 || pos < 0 || pos >= items.len() {
        None
    } else {
        match children_at(items, pos + 1, items[pos].children as nat, (depth - 1) as nat) {
            Some((children, next)) => Some(
                (
                    SyntaxTree {
                        kind: items[pos].kind,
                        field: items[pos].field,
                        named: items[pos].named,
                        start: items[pos].start,
                        end: items[pos].end,
                        row: items[pos].row,
                        children,
                    },
                    next,
                ),
            ),
            None => None,
        }
    }
}

/// The `count` trees of at most `depth` levels that stand one behind the
/// other from `items[pos]` on, and the place behind the last of them.
pub open spec fn children_at(items: Seq<NodeFacts>, pos: int, count: nat, depth: nat) -> Option<
    (Seq<SyntaxTree>, int),
>
    decreases depth, count + 1,
{
    if count == 0 {
        Some((Seq::empty(), pos))
    } else {
        match tree_at(items, pos, depth) {
            Some((first, next)) => following(
                seq![first],
                children_at(items, next, (count - 1) as nat, depth),
            ),
            None => None,
        }
    }
}

/// The trees `done` followed by the trees of `rest`.
pub open spec fn following(done: Seq<SyntaxTree>, rest: Option<(Seq<SyntaxTree>, int)>) -> Option<
    (Seq<SyntaxTree>, int),
> {
    match rest {
        Some((more, end)) => Some((done + more, end)),
        None => None,
    }
}

/// What the result of `build_tree` stands for.
pub open spec fn built_view(r: Option<(SyntaxNode, usize)>) -> Option<(SyntaxTree, int)> {
    match r {
        Some((tree, next)) => Some((tree@, next as int)),
        None => None,
    }
}

/// Makes the tree of at most `depth` levels whose root is `items[pos]`.
pub fn build_tree(items: &Vec<NodeRecord>, pos: usize, depth: usize) -> (r: Option<
    (SyntaxNode, usize),
>)
    ensures
        built_view(r) == tree_at(all_facts(items@), pos as int, depth as nat),
        r matches Some((_, next)) ==> pos < next <= items.len(),
    decreases depth,
{
    if depth == 0 || pos >= items.len() {
        return None;
    }
    let ghost all = all_facts(items@);
    let ghost below = (depth - 1) as nat;
    let record = items[pos];
    let count = record.6;
    let mut children: Vec<SyntaxNode> = Vec::new();
    let mut next: usize = pos + 1;
    let mut k: usize = 0;
    proof {
        assert(all[pos as int] == facts(record));
        assert(trees(children@) =~= Seq::<SyntaxTree>::empty());
        lemma_following_nothing(children_at(all, next as int, count as nat, below));
    }
    while k < count
        invariant
            k <= count,
            pos < next <= items.len(),
            all == all_facts(items@),
            all[pos as int] == facts(record),
            count == record.6,
            depth > 0,
            below == depth - 1,
            children_at(all, pos + 1, count as nat, below) == following(
                trees(children@),
                children_at(all, next as int, (count - k) as nat, below),
            ),
        decreases count - k,
    {
        let ghost done = trees(children@);
        let ghost rest = children_at(all, next as int, (count - k - 1) as nat, below);
        match build_tree(items, next, depth - 1) {
            Some((child, behind)) => {
                proof {
                    let after = children_at(all, behind as int, (count - k - 1) as nat, below);
                    assert(trees(children@.push(child)) =~= done + seq![child@]);
                    lemma_following_twice(done, seq![child@], after);
                }
                children.push(child);
                next = behind;
            },
            None => {
                proof {
                    assert(children_at(all, next as int, (count - k) as nat, below) is None);
                    assert(children_at(all, pos + 1, count as nat, below) is None);
                }
                return None;
            },
        }
        k += 1;
    }
    proof {
        assert(trees(children@) + Seq::<SyntaxTree>::empty() =~= trees(children@));
    }
    let field = match record.1 {
        Some(name) => Some(name.to_owned()),
        None => None,
    };
    let tree = SyntaxNode {
        kind: record.0.to_owned(),
        field,
        named: record.2,
        start: record.3,
        end: record.4,
        row: record.5,
        children,
    };
    Some((tree, next))
}

/// Nothing in front changes nothing.
proof fn lemma_following_nothing(rest: Option<(Seq<SyntaxTree>, int)>)
    ensures
        following(Seq::empty(), rest) == rest,
{
    if let Some((more, end)) = rest {
        assert(Seq::<SyntaxTree>::empty() + more =~= more);
    }
}

/// Putting `a` in front of what follows `b` is putting `a + b` in front.
proof fn lemma_following_twice(
    a: Seq<SyntaxTree>,
    b: Seq<SyntaxTree>,
    rest: Option<(Seq<SyntaxTree>, int)>,
)
    ensures
        following(a, following(b, rest)) == following(a + b, rest),
{
    if let Some((more, end)) = rest {
        assert(a + (b + more) =~= (a + b) + more);
    }
}

/// The levels of a tree: 1 for a node without children.
pub open spec fn levels(node: SyntaxTree) -> nat
    decreases node,
{
    1 + deepest(node.children, 0)
}

/// The greatest number of levels among `nodes[from..]`.
pub open spec fn deepest(nodes: Seq<SyntaxTree>, from: int) -> nat
    decreases nodes, nodes.len() - from,
{
    if from < 0 || from >= nodes.len() {
        0
    } else {
        let first = levels(nodes[from]);
        let rest = deepest(nodes, from + 1);
        if first > rest {
            first
        } else {
            rest
        }
    }
}

/// Trees of at most `bound` levels are together at most `bound` deep.
pub proof fn lemma_deepest_bound(nodes: Seq<SyntaxTree>, from: int, bound: nat)
    requires
        forall|i: int| 0 <= i < nodes.len() ==> levels(#[trigger] nodes[i]) <= bound,
    ensures
        deepest(nodes, from) <= bound,
    decreases nodes.len() - from,
{
    if 0 <= from < nodes.len() {
        lemma_deepest_bound(nodes, from + 1, bound);
    }
}

/// Trees are together at least as deep as each of them.
pub proof fn lemma_deepest_reaches(nodes: Seq<SyntaxTree>, from: int, i: int)
    requires
        0 <= from <= i < nodes.len(),
    ensures
        deepest(nodes, from) >= levels(nodes[i]),
    decreases i - from,
{
    if from < i {
        lemma_deepest_reaches(nodes, from + 1, i);
    }
}

/// A tree made with `depth` levels allowed has at most `depth` levels.
pub proof fn lemma_tree_levels(items: Seq<NodeFacts>, pos: int, depth: nat)
    ensures
        tree_at(items, pos, depth) matches Some((tree, _)) ==> levels(tree) <= depth,
    decreases depth, 0nat,
{
    if depth > 0 && 0 <= pos < items.len() {
        let count = items[pos].children as nat;
        let below = (depth - 1) as nat;
        lemma_children_levels(items, pos + 1, count, below);
        if let Some((children, next)) = children_at(items, pos + 1, count, below) {
            lemma_deepest_bound(children, 0, below);
        }
    }
}

/// Trees made with `depth` levels allowed have at most `depth` levels each.
pub proof fn lemma_children_levels(items: Seq<NodeFacts>, pos: int, count: nat, depth: nat)
    ensures
        children_at(items, pos, count, depth) matches Some((trees, _)) ==> forall|i: int|
            0 <= i < trees.len() ==> levels(#[trigger] trees[i]) <= depth,
    decreases depth, count + 1,
{
    if count > 0 {
        lemma_tree_levels(items, pos, depth);
        if let Some((first, next)) = tree_at(items, pos, depth) {
            lemma_children_levels(items, next, (count - 1) as nat, depth);
            if let Some((more, end)) = children_at(items, next, (count - 1) as nat, depth) {
                let all = seq![first] + more;
                assert forall|i: int| 0 <= i < all.len() implies levels(#[trigger] all[i])
                    <= depth by {
                    if i > 0 {
                        assert(all[i] == more[i - 1]);
                    }
                }
            }
        }
    }
}

/// A tree made with some levels allowed is made alike with more allowed.
pub proof fn lemma_tree_deeper(items: Seq<NodeFacts>, pos: int, small: nat, big: nat)
    requires
        small <= big,
        tree_at(items, pos, small) is Some,
    ensures
        tree_at(items, pos, big) == tree_at(items, pos, small),
    decreases small, 0nat,
{
    let count = items[pos].children as nat;
    lemma_children_deeper(items, pos + 1, count, (small - 1) as nat, (big - 1) as nat);
}

/// Trees made with some levels allowed are made alike with more allowed.
pub proof fn lemma_children_deeper(
    items: Seq<NodeFacts>,
    pos: int,
    count: nat,
    small: nat,
    big: nat,
)
    requires
        small <= big,
        children_at(items, pos, count, small) is Some,
    ensures
        children_at(items, pos, count, big) == children_at(items, pos, count, small),
    decreases small, count + 1,
{
    if count > 0 {
        lemma_tree_deeper(items, pos, small, big);
        let next = (tree_at(items, pos, small)->0).1;
        lemma_children_deeper(items, next, (count - 1) as nat, small, big);
    }
}

/// A tree made with some levels allowed is made alike with as few
/// allowed as it has.
pub proof fn lemma_tree_fits(items: Seq<NodeFacts>, pos: int, big: nat, small: nat)
    requires
        tree_at(items, pos, big) is Some,
        levels((tree_at(items, pos, big)->0).0) <= small,
    ensures
        tree_at(items, pos, small) == tree_at(items, pos, big),
    decreases big, 0nat,
{
    let count = items[pos].children as nat;
    let (children, next) = children_at(items, pos + 1, count, (big - 1) as nat)->0;
    assert forall|i: int| 0 <= i < children.len() implies levels(#[trigger] children[i]) <= small
        - 1 by {
        lemma_deepest_reaches(children, 0, i);
    }
    lemma_children_fit(items, pos + 1, count, (big - 1) as nat, (small - 1) as nat);
}

/// Trees made with some levels allowed are made alike with as few allowed
/// as the deepest of them has.
pub proof fn lemma_children_fit(items: Seq<NodeFacts>, pos: int, count: nat, big: nat, small: nat)
    requires
        children_at(items, pos, count, big) is Some,
        forall|i: int|
            0 <= i < (children_at(items, pos, count, big)->0).0.len() ==> levels(
                #[trigger] (children_at(items, pos, count, big)->0).0[i],
            ) <= small,
    ensures
        children_at(items, pos, count, small) == children_at(items, pos, count, big),
    decreases big, count + 1,
{
    if count > 0 {
        let all = (children_at(items, pos, count, big)->0).0;
        let (first, next) = tree_at(items, pos, big)->0;
        let (more, end) = children_at(items, next, (count - 1) as nat, big)->0;
        assert(all == seq![first] + more);
        assert(all[0] == first);
        lemma_tree_fits(items, pos, big, small);
        assert forall|i: int| 0 <= i < more.len() implies levels(#[trigger] more[i]) <= small by {
            assert(all[i + 1] == more[i]);
        }
        lemma_children_fit(items, next, (count - 1) as nat, big, small);
    }
}

/// Whether the nodes `items` make the tree `tree`, however deep it is.
pub open spec fn makes(items: Seq<NodeFacts>, tree: SyntaxTree) -> bool {
    exists|depth: nat| #[trigger] tree_at(items, 0, depth) is Some && (tree_at(items, 0, depth)->0).0
        == tree
}

/// Of nodes that make a tree, that tree is taken if it has at most
/// `MAX_DEPTH` levels, and `TooDeep` comes if it has more.
pub proof fn law_too_deep(items: Seq<NodeFacts>, tree: SyntaxTree)
    requires
        makes(items, tree),
    ensures
        levels(tree) <= MAX_DEPTH ==> judged(Ok(Some(items))) == Ok::<SyntaxTree, SyntaxFault>(
            tree,
        ),
        levels(tree) > MAX_DEPTH ==> judged(Ok(Some(items))) == Err::<SyntaxTree, SyntaxFault>(
            SyntaxFault::TooDeep,
        ),
{
    let depth = choose|depth: nat| #[trigger]
        tree_at(items, 0, depth) is Some && (tree_at(items, 0, depth)->0).0 == tree;
    let limit = MAX_DEPTH as nat;
    if levels(tree) <= limit {
        lemma_tree_fits(items, 0, depth, limit);
    } else if tree_at(items, 0, limit) is Some {
        lemma_tree_levels(items, 0, limit);
        lemma_tree_levels(items, 0, depth);
        if depth > limit {
            lemma_tree_deeper(items, 0, limit, depth);
        }
    }
}

/// Why a source text gave no syntax tree.
#[derive(Debug)]
pub enum SyntaxError {
    /// The parser did not accept the Java grammar; the text is the
    /// parser's message.
    Language(String),
    /// The parser returned no tree.
    NoTree,
    /// The nodes make no tree of at most `MAX_DEPTH` levels.
    TooDeep,
}

/// What a `SyntaxError` stands for.
pub enum SyntaxFault {
    Language(Seq<char>),
    NoTree,
    TooDeep,
}

impl View for SyntaxError {
    type V = SyntaxFault;

    open spec fn view(&self) -> SyntaxFault {
        match self {
            SyntaxError::Language(message) => SyntaxFault::Language(message@),
            SyntaxError::NoTree => SyntaxFault::NoTree,
            SyntaxError::TooDeep => SyntaxFault::TooDeep,
        }
    }
}

/// What the result of `parse_syntax` stands for.
pub open spec fn syntax_view(r: Result<SyntaxNode, SyntaxError>) -> Result<SyntaxTree, SyntaxFault> {
    match r {
        Ok(tree) => Ok(tree@),
        Err(error) => Err(error@),
    }
}

/// What is made of a reading: the tree of its nodes, if they make one of
/// at most `MAX_DEPTH` levels; otherwise the error that says why there is
/// none.
pub open spec fn judged(reading: Result<Option<Seq<NodeFacts>>, Seq<char>>) -> Result<
    SyntaxTree,
    SyntaxFault,
> {
    match reading {
        Err(message) => Err(SyntaxFault::Language(message)),
        Ok(None) => Err(SyntaxFault::NoTree),
        Ok(Some(items)) => match tree_at(items, 0, MAX_DEPTH as nat) {
            Some((tree, _)) => Ok(tree),
            None => Err(SyntaxFault::TooDeep),
        },
    }
}

/// The syntax tree of a source text, or why it has none.
pub open spec fn java_tree(src: Seq<char>) -> Result<SyntaxTree, SyntaxFault> {
    judged(java_syntax(src))
}

/// Judges what reading a source gave.
pub fn judge(reading: Result<Option<Vec<NodeRecord>>, String>) -> (r: Result<
    SyntaxNode,
    SyntaxError,
>)
    ensures
        syntax_view(r) == judged(reading_view(reading)),
{
    match reading {
        Err(message) => Err(SyntaxError::Language(message)),
        Ok(None) => Err(SyntaxError::NoTree),
        Ok(Some(records)) => match build_tree(&records, 0, MAX_DEPTH) {
            Some((tree, _)) => Ok(tree),
            None => Err(SyntaxError::TooDeep),
        },
    }
}

/// Parses Java source text into a syntax tree. Text that is not valid Java
/// still gives a tree, in which error nodes stand for what could not be
/// read.
pub fn parse_syntax(source: &str) -> (r: Result<SyntaxNode, SyntaxError>)
    ensures
        syntax_view(r) == java_tree(source@),
{
    judge(read_java(source))
}

} // verus!
