//! The declaration collector: finds the method declarations of a source
//! unit and describes each as a `MethodNode`.
use vstd::prelude::*;
use crate::model::{MethodNode, MethodView};
use crate::syntax::{
    children_match,
    lemma_children_match,
    lemma_first_in_field_bound,
    lemma_first_of_kind_bound,
    SyntaxNode,
    SyntaxTree,
};
use crate::table::Table;
use crate::text::{texts, trim, trim_text};

verus! {

/// The first child of `node` held under the field `name`.
pub open spec fn field_node(node: SyntaxTree, name: Seq<char>) -> Option<SyntaxTree> {
    match node.field_child(name) {
        Some(i) => if 0 <= i < node.children.len() {
            Some(node.children[i])
        } else {
            None
        },
        None => None,
    }
}

/// The trimmed text of the first child held under the field `name`; empty
/// where there is none.
pub open spec fn field_text(node: SyntaxTree, name: Seq<char>, src: Seq<char>) -> Seq<char> {
    match field_node(node, name) {
        Some(c) => trim(c.text(src)),
        None => Seq::empty(),
    }
}

/// Whether `node` declares a method that the analysis records: a
/// `method_declaration` with a name.
pub open spec fn is_declaration(node: SyntaxTree) -> bool {
    node.kind == "method_declaration"@ && field_node(node, "name"@) is Some
}

/// Whether the collector descends into `node` to reach member declarations.
pub open spec fn is_class_scope(node: SyntaxTree) -> bool {
    node.kind == "class_declaration"@ || node.kind == "class_body"@
}

/// The recorded method declarations below `node`, in source order. Only
/// class declarations and class bodies are searched.
pub open spec fn declarations(node: SyntaxTree) -> Seq<SyntaxTree>
    decreases node,
{
    declarations_from(node.children, 0)
}

/// The recorded method declarations at and below `nodes[from..]`.
pub open spec fn declarations_from(nodes: Seq<SyntaxTree>, from: int) -> Seq<SyntaxTree>
    decreases nodes, nodes.len() - from,
{
    if from < 0 || from >= nodes.len() {
        Seq::empty()
    } else {
        let c = nodes[from];
        let here = if c.kind == "method_declaration"@ {
            if is_declaration(c) {
                seq![c]
            } else {
                Seq::empty()
            }
        } else if is_class_scope(c) {
            declarations(c)
        } else {
            Seq::empty()
        };
        here + declarations_from(nodes, from + 1)
    }
}

/// The name under which a declaration is recorded: the trimmed text of its
/// `name` field.
pub open spec fn method_name(decl: SyntaxTree, src: Seq<char>) -> Seq<char> {
    field_text(decl, "name"@, src)
}

/// The node that holds a declaration's modifiers: the child under the field
/// `modifiers`, else the first child of kind `modifiers`.
pub open spec fn modifiers_node(decl: SyntaxTree) -> Option<SyntaxTree> {
    match field_node(decl, "modifiers"@) {
        Some(m) => Some(m),
        None => match decl.kind_child("modifiers"@) {
            Some(i) => if 0 <= i < decl.children.len() {
                Some(decl.children[i])
            } else {
                None
            },
            None => None,
        },
    }
}

/// The trimmed texts of `nodes`, in order.
pub open spec fn trimmed_texts(nodes: Seq<SyntaxTree>, src: Seq<char>) -> Seq<Seq<char>> {
    Seq::new(nodes.len(), |i: int| trim(nodes[i].text(src)))
}

/// A declaration's modifier tokens: the trimmed text of each child of its
/// modifiers node; the node's own trimmed text where it has no children;
/// none where there is no such node.
pub open spec fn modifiers_of(decl: SyntaxTree, src: Seq<char>) -> Seq<Seq<char>> {
    match modifiers_node(decl) {
        Some(m) => if m.children.len() > 0 {
            trimmed_texts(m.children, src)
        } else {
            seq![trim(m.text(src))]
        },
        None => Seq::empty(),
    }
}

/// What the collector records of a declaration.
pub open spec fn method_of(decl: SyntaxTree, src: Seq<char>) -> MethodView {
    MethodView {
        name: method_name(decl, src),
        range: (decl.start, decl.end),
        modifiers: modifiers_of(decl, src),
        return_type: field_text(decl, "type"@, src),
    }
}

/// The registry after recording `decls` in order on top of `init`: a later
/// declaration replaces an earlier one of the same name.
pub open spec fn registered(
    init: Map<Seq<char>, MethodView>,
    decls: Seq<SyntaxTree>,
    src: Seq<char>,
) -> Map<Seq<char>, MethodView>
    decreases decls.len(),
{
    if decls.len() == 0 {
        init
    } else {
        registered(init, decls.drop_last(), src).insert(
            method_name(decls.last(), src),
            method_of(decls.last(), src),
        )
    }
}

/// What a table of methods stands for.
pub open spec fn methods_view(methods: Table<MethodNode>) -> Map<Seq<char>, MethodView> {
    methods@.map_values(|m: MethodNode| m@)
}

/// Recording `a + b` is recording `a`, then `b`.
pub proof fn lemma_registered_concat(
    init: Map<Seq<char>, MethodView>,
    a: Seq<SyntaxTree>,
    b: Seq<SyntaxTree>,
    src: Seq<char>,
)
    ensures
        registered(init, a + b, src) == registered(registered(init, a, src), b, src),
    decreases b.len(),
{
    if b.len() == 0 {
        assert(a + b =~= a);
    } else {
        lemma_registered_concat(init, a, b.drop_last(), src);
        assert((a + b).drop_last() =~= a + b.drop_last());
        assert((a + b).last() == b.last());
    }
}

/// The first child held under the field `name`.
pub fn child_in_field<'a>(node: &'a SyntaxNode, name: &str) -> (r: Option<&'a SyntaxNode>)
    ensures
        match r {
            Some(c) => field_node(node@, name@) == Some(c@) && decreases_to!(node => c),
            None => field_node(node@, name@) is None,
        },
{
    proof {
        lemma_first_in_field_bound(node@.children, name@, 0);
        lemma_children_match(*node);
    }
    match node.child_by_field(name) {
        Some(i) => Some(&node.children[i]),
        None => None,
    }
}

/// The trimmed text of the first child held under the field `name`.
pub fn field_text_of(node: &SyntaxNode, name: &str, source: &str) -> (r: String)
    ensures
        r@ == field_text(node@, name@, source@),
{
    match child_in_field(node, name) {
        Some(c) => trim_text(c.text_in(source)),
        None => String::new(),
    }
}

/// The node that holds a declaration's modifiers.
fn find_modifiers<'a>(decl: &'a SyntaxNode) -> (r: Option<&'a SyntaxNode>)
    ensures
        match r {
            Some(m) => modifiers_node(decl@) == Some(m@),
            None => modifiers_node(decl@) is None,
        },
{
    proof {
        lemma_children_match(*decl);
    }
    match child_in_field(decl, "modifiers") {
        Some(m) => Some(m),
        None => {
            proof {
                lemma_first_of_kind_bound(decl@.children, "modifiers"@, 0);
            }
            match decl.child_by_kind("modifiers") {
                Some(i) => Some(&decl.children[i]),
                None => None,
            }
        },
    }
}

/// Computes `modifiers_of`.
fn read_modifiers(decl: &SyntaxNode, source: &str) -> (r: Vec<String>)
    ensures
        texts(r@) == modifiers_of(decl@, source@),
{
    let mut r: Vec<String> = Vec::new();
    match find_modifiers(decl) {
        Some(m) => {
            let mut i: usize = 0;
            proof {
                lemma_children_match(*m);
            }
            while i < m.children.len()
                invariant
                    children_match(*m),
                    i <= m.children.len(),
                    texts(r@) == trimmed_texts(m@.children, source@).take(i as int),
                decreases m.children.len() - i,
            {
                let ghost before = texts(r@);
                r.push(trim_text(m.children[i].text_in(source)));
                proof {
                    let all = trimmed_texts(m@.children, source@);
                    assert(texts(r@) =~= before.push(all[i as int]));
                    assert(all.take(i + 1) =~= all.take(i as int).push(all[i as int]));
                }
                i += 1;
            }
            proof {
                let all = trimmed_texts(m@.children, source@);
                assert(all.take(i as int) =~= all);
            }
            if r.len() == 0 {
                r.push(trim_text(m.text_in(source)));
                assert(texts(r@) =~= seq![trim(m@.text(source@))]);
            }
        },
        None => {
            assert(texts(r@) =~= Seq::<Seq<char>>::empty());
        },
    }
    r
}

/// Describes a recorded declaration.
pub fn read_method(decl: &SyntaxNode, source: &str) -> (m: MethodNode)
    ensures
        m@ == method_of(decl@, source@),
{
    MethodNode {
        name: field_text_of(decl, "name", source),
        range: (decl.start, decl.end),
        modifiers: read_modifiers(decl, source),
        return_type: field_text_of(decl, "type", source),
    }
}

/// Records every method declaration below `node` in `methods`, in source
/// order.
pub fn collect_method_declarations(
    node: &SyntaxNode,
    source: &str,
    methods: &mut Table<MethodNode>,
)
    ensures
        final(methods).wf(),
        methods_view(*final(methods)) == registered(
            methods_view(*old(methods)),
            declarations(node@),
            source@,
        ),
    decreases node,
{
    let ghost init = methods_view(*methods);
    let ghost src = source@;
    let ghost mut done: Seq<SyntaxTree> = Seq::empty();
    proof {
        use_type_invariant(&*methods);
        assert(Seq::<SyntaxTree>::empty() + declarations_from(node@.children, 0)
            =~= declarations_from(node@.children, 0));
    }
    let mut i: usize = 0;
    proof {
        lemma_children_match(*node);
    }
    while i < node.children.len()
        invariant
            children_match(*node),
            i <= node.children.len(),
            methods.wf(),
            src == source@,
            registered(init, done, src) == methods_view(*methods),
            declarations_from(node@.children, 0) == done + declarations_from(
                node@.children,
                i as int,
            ),
        decreases node.children.len() - i,
    {
        let child = &node.children[i];
        let ghost before = methods_view(*methods);
        let ghost here: Seq<SyntaxTree>;
        if child.is_kind("method_declaration") {
            match child_in_field(child, "name") {
                Some(_) => {
                    let m = read_method(child, source);
                    let name = m.name.clone();
                    let ghost added = m@;
                    methods.insert(name, m);
                    proof {
                        here = seq![child@];
                        assert(methods_view(*methods) =~= before.insert(added.name, added));
                        assert(here.drop_last() =~= Seq::<SyntaxTree>::empty());
                        assert(registered(before, Seq::<SyntaxTree>::empty(), src) == before);
                        assert(here.last() == child@);
                    }
                },
                None => {
                    proof {
                        here = Seq::empty();
                    }
                },
            }
        } else if child.is_kind("class_declaration") || child.is_kind("class_body") {
            collect_method_declarations(child, source, methods);
            proof {
                here = declarations(child@);
            }
        } else {
            proof {
                here = Seq::empty();
            }
        }
        proof {
            assert(registered(before, here, src) == methods_view(*methods));
            lemma_registered_concat(init, done, here, src);
            assert(declarations_from(node@.children, i as int) == here + declarations_from(
                node@.children,
                i + 1,
            ));
            assert(done + (here + declarations_from(node@.children, i + 1)) =~= (done + here)
                + declarations_from(node@.children, i + 1));
            done = done + here;
        }
        i += 1;
    }
    proof {
        assert(done + Seq::<SyntaxTree>::empty() =~= done);
    }
}

} // verus!
