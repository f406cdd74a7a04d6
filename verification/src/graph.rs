//! The call graph of one source unit, and its assembly from a syntax tree.
use vstd::prelude::*;
use crate::classify::{find_calls, method_calls};
use crate::collect::{
    child_in_field,
    collect_method_declarations,
    declarations,
    declarations_from,
    method_name,
    methods_view,
    registered,
};
use crate::extract::{extract_method_flow, method_flow};
use crate::model::{steps_view, FlowStep, MethodNode, MethodView, Step};
use crate::syntax::{children_match, lemma_children_match, SyntaxNode, SyntaxTree};
use crate::table::Table;
use crate::text::{texts, trim_text};

verus! {

/// The analysis of one source unit.
pub struct CallGraph {
    /// The declared methods, by name.
    pub nodes: Table<MethodNode>,
    /// For each method the names of the unit's methods that it calls, in
    /// the order of the calls.
    pub calls: Table<Vec<String>>,
    /// For each method the steps of its body.
    pub flows: Table<Vec<FlowStep>>,
}

/// What a `CallGraph` stands for.
pub struct GraphView {
    pub nodes: Map<Seq<char>, MethodView>,
    pub calls: Map<Seq<char>, Seq<Seq<char>>>,
    pub flows: Map<Seq<char>, Seq<Step>>,
}

/// What a table of callee lists stands for.
pub open spec fn calls_view(calls: Table<Vec<String>>) -> Map<Seq<char>, Seq<Seq<char>>> {
    calls@.map_values(|v: Vec<String>| texts(v@))
}

/// What a table of flows stands for.
pub open spec fn flows_view(flows: Table<Vec<FlowStep>>) -> Map<Seq<char>, Seq<Step>> {
    flows@.map_values(|v: Vec<FlowStep>| steps_view(v@))
}

impl View for CallGraph {
    type V = GraphView;

    open spec fn view(&self) -> GraphView {
        GraphView {
            nodes: methods_view(self.nodes),
            calls: calls_view(self.calls),
            flows: flows_view(self.flows),
        }
    }
}

/// The callee lists after recording `decls` in order on top of `init`.
pub open spec fn call_lists(
    init: Map<Seq<char>, Seq<Seq<char>>>,
    decls: Seq<SyntaxTree>,
    src: Seq<char>,
    names: Set<Seq<char>>,
) -> Map<Seq<char>, Seq<Seq<char>>>
    decreases decls.len(),
{
    if decls.len() == 0 {
        init
    } else {
        call_lists(init, decls.drop_last(), src, names).insert(
            method_name(decls.last(), src),
            method_calls(decls.last(), src, names),
        )
    }
}

/// The flows after recording `decls` in order on top of `init`.
pub open spec fn flow_lists(
    init: Map<Seq<char>, Seq<Step>>,
    decls: Seq<SyntaxTree>,
    src: Seq<char>,
    names: Set<Seq<char>>,
) -> Map<Seq<char>, Seq<Step>>
    decreases decls.len(),
{
    if decls.len() == 0 {
        init
    } else {
        flow_lists(init, decls.drop_last(), src, names).insert(
            method_name(decls.last(), src),
            method_flow(decls.last(), src, names),
        )
    }
}

/// The call graph of the source unit with syntax tree `root` and text
/// `src`: every recorded declaration with its callees and its flow, a later
/// declaration replacing an earlier one of the same name.
pub open spec fn analysis(root: SyntaxTree, src: Seq<char>) -> GraphView {
    let decls = declarations(root);
    let nodes = registered(Map::empty(), decls, src);
    GraphView {
        nodes,
        calls: call_lists(Map::empty(), decls, src, nodes.dom()),
        flows: flow_lists(Map::empty(), decls, src, nodes.dom()),
    }
}

/// Recording `a + b` is recording `a`, then `b`.
pub proof fn lemma_call_lists_concat(
    init: Map<Seq<char>, Seq<Seq<char>>>,
    a: Seq<SyntaxTree>,
    b: Seq<SyntaxTree>,
    src: Seq<char>,
    names: Set<Seq<char>>,
)
    ensures
        call_lists(init, a + b, src, names) == call_lists(
            call_lists(init, a, src, names),
            b,
            src,
            names,
        ),
    decreases b.len(),
{
    if b.len() == 0 {
        assert(a + b =~= a);
    } else {
        lemma_call_lists_concat(init, a, b.drop_last(), src, names);
        assert((a + b).drop_last() =~= a + b.drop_last());
        assert((a + b).last() == b.last());
    }
}

/// Recording `a + b` is recording `a`, then `b`.
pub proof fn lemma_flow_lists_concat(
    init: Map<Seq<char>, Seq<Step>>,
    a: Seq<SyntaxTree>,
    b: Seq<SyntaxTree>,
    src: Seq<char>,
    names: Set<Seq<char>>,
)
    ensures
        flow_lists(init, a + b, src, names) == flow_lists(
            flow_lists(init, a, src, names),
            b,
            src,
            names,
        ),
    decreases b.len(),
{
    if b.len() == 0 {
        assert(a + b =~= a);
    } else {
        lemma_flow_lists_concat(init, a, b.drop_last(), src, names);
        assert((a + b).drop_last() =~= a + b.drop_last());
        assert((a + b).last() == b.last());
    }
}

/// Records the callees and the flow of every method declaration below
/// `node`, in source order.
fn collect_method_bodies(
    node: &SyntaxNode,
    source: &str,
    methods: &Table<MethodNode>,
    calls: &mut Table<Vec<String>>,
    flows: &mut Table<Vec<FlowStep>>,
)
    ensures
        final(calls).wf(),
        final(flows).wf(),
        calls_view(*final(calls)) == call_lists(
            calls_view(*old(calls)),
            declarations(node@),
            source@,
            methods@.dom(),
        ),
        flows_view(*final(flows)) == flow_lists(
            flows_view(*old(flows)),
            declarations(node@),
            source@,
            methods@.dom(),
        ),
    decreases node,
{
    let ghost names = methods@.dom();
    let ghost src = source@;
    let ghost init_calls = calls_view(*calls);
    let ghost init_flows = flows_view(*flows);
    let ghost mut done: Seq<SyntaxTree> = Seq::empty();
    proof {
        use_type_invariant(&*calls);
        use_type_invariant(&*flows);
        assert(Seq::<SyntaxTree>::empty() + declarations_from(node@.children, 0)
            =~= declarations_from(node@.children, 0));
    }
    let mut i: usize = 0;
    proof {
        lemma_children_match(*node);
    }
    while i < node.children.len()
        invariant
            children_match(*node),
            i <= node.children.len(),
            calls.wf(),
            flows.wf(),
            src == source@,
            names == methods@.dom(),
            call_lists(init_calls, done, src, names) == calls_view(*calls),
            flow_lists(init_flows, done, src, names) == flows_view(*flows),
            declarations_from(node@.children, 0) == done + declarations_from(
                node@.children,
                i as int,
            ),
        decreases node.children.len() - i,
    {
        let child = &node.children[i];
        let ghost calls_before = calls_view(*calls);
        let ghost flows_before = flows_view(*flows);
        let ghost here: Seq<SyntaxTree>;
        if child.is_kind("method_declaration") {
            match child_in_field(child, "name") {
                Some(name_node) => {
                    let callees = find_calls(child, source, methods);
                    let steps = extract_method_flow(child, source, methods);
                    let ghost callees_view = texts(callees@);
                    let ghost steps_seen = steps_view(steps@);
                    let name = trim_text(name_node.text_in(source));
                    calls.insert(name.clone(), callees);
                    flows.insert(name, steps);
                    proof {
                        here = seq![child@];
                        assert(name@ == method_name(child@, src));
                        assert(calls_view(*calls) =~= calls_before.insert(name@, callees_view));
                        assert(flows_view(*flows) =~= flows_before.insert(name@, steps_seen));
                        assert(here.drop_last() =~= Seq::<SyntaxTree>::empty());
                        assert(call_lists(calls_before, Seq::<SyntaxTree>::empty(), src, names)
                            == calls_before);
                        assert(flow_lists(flows_before, Seq::<SyntaxTree>::empty(), src, names)
                            == flows_before);
                        assert(here.last() == child@);
                    }
                },
                None => {
                    proof {
                        here = Seq::empty();
                    }
                },
            }
        } else if child.is_kind("class_declaration") || child.is_kind("class_body") {
            collect_method_bodies(child, source, methods, calls, flows);
            proof {
                here = declarations(child@);
            }
        } else {
            proof {
                here = Seq::empty();
            }
        }
        proof {
            assert(call_lists(calls_before, here, src, names) == calls_view(*calls));
            assert(flow_lists(flows_before, here, src, names) == flows_view(*flows));
            lemma_call_lists_concat(init_calls, done, here, src, names);
            lemma_flow_lists_concat(init_flows, done, here, src, names);
            assert(declarations_from(node@.children, i as int) == here + declarations_from(
                node@.children,
                i + 1,
            ));
            assert(done + (here + declarations_from(node@.children, i + 1)) =~= (done + here)
                + declarations_from(node@.children, i + 1));
            done = done + here;
        }
        i += 1;
    }
    proof {
        assert(done + Seq::<SyntaxTree>::empty() =~= done);
    }
}

/// Assembles the call graph of a source unit from its syntax tree and its
/// text.
pub fn analyze(root: &SyntaxNode, source: &str) -> (graph: CallGraph)
    ensures
        graph@ == analysis(root@, source@),
        graph.nodes.wf(),
        graph.calls.wf(),
        graph.flows.wf(),
{
    let mut nodes: Table<MethodNode> = Table::new();
    let mut calls: Table<Vec<String>> = Table::new();
    let mut flows: Table<Vec<FlowStep>> = Table::new();
    proof {
        assert(methods_view(nodes) =~= Map::<Seq<char>, MethodView>::empty());
        assert(calls_view(calls) =~= Map::<Seq<char>, Seq<Seq<char>>>::empty());
        assert(flows_view(flows) =~= Map::<Seq<char>, Seq<Step>>::empty());
    }
    collect_method_declarations(root, source, &mut nodes);
    proof {
        assert(methods_view(nodes).dom() =~= nodes@.dom());
    }
    collect_method_bodies(root, source, &nodes, &mut calls, &mut flows);
    CallGraph { nodes, calls, flows }
}

} // verus!
