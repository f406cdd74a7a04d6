//! The call classifier: finds the invocations below a node and tells calls
//! of the unit's own methods from calls that leave it.
use vstd::prelude::*;
use crate::collect::{child_in_field, field_node};
use crate::model::{steps_view, FlowStep, MethodNode, Step};
use crate::syntax::{children_match, lemma_children_match, SyntaxNode, SyntaxTree};
use crate::table::Table;
use crate::text::{before_dot, before_dot_text, same_text, texts};

verus! {

/// Whether `node` is an invocation that the classifier reports: a
/// `method_invocation` with a name.
pub open spec fn is_invocation(node: SyntaxTree) -> bool {
    node.kind == "method_invocation"@ && field_node(node, "name"@) is Some
}

/// The invoked name: the text of the `name` field.
pub open spec fn call_name(node: SyntaxTree, src: Seq<char>) -> Seq<char> {
    match field_node(node, "name"@) {
        Some(n) => n.text(src),
        None => Seq::empty(),
    }
}

/// Whether the invocation's receiver is the literal `this`.
pub open spec fn on_this(node: SyntaxTree, src: Seq<char>) -> bool {
    match field_node(node, "object"@) {
        Some(o) => o.text(src) == "this"@,
        None => false,
    }
}

/// Whether an invocation is internal: it has no receiver and names a
/// declared method, or its receiver is `this`.
pub open spec fn is_internal(node: SyntaxTree, src: Seq<char>, names: Set<Seq<char>>) -> bool {
    if field_node(node, "object"@) is Some {
        on_this(node, src)
    } else {
        names.contains(call_name(node, src))
    }
}

/// The candidate name of the external service that an invocation
/// addresses: for an external call with a receiver, the receiver's text
/// before its first dot, or all of it where it holds none; no name for an
/// internal call and for a call without a receiver.
pub open spec fn service_of(node: SyntaxTree, src: Seq<char>, names: Set<Seq<char>>) -> Option<
    Seq<char>,
> {
    match field_node(node, "object"@) {
        Some(o) => if is_internal(node, src, names) {
            None
        } else {
            Some(before_dot(o.text(src)))
        },
        None => None,
    }
}

/// The call step of an invocation.
pub open spec fn call_of(node: SyntaxTree, src: Seq<char>, names: Set<Seq<char>>) -> Step {
    Step::Call {
        name: call_name(node, src),
        is_external: !is_internal(node, src, names),
        raw_text: node.text(src),
        service: service_of(node, src, names),
        offset: node.start,
        line: node.line(),
    }
}

/// Every invocation at and below `node` as a call step, an invocation
/// before those nested in it, otherwise in source order.
pub open spec fn call_sites(node: SyntaxTree, src: Seq<char>, names: Set<Seq<char>>) -> Seq<Step>
    decreases node,
{
    let own = if is_invocation(node) {
        seq![call_of(node, src, names)]
    } else {
        Seq::empty()
    };
    own + call_sites_from(node.children, 0, src, names)
}

/// The call steps of `nodes[from..]`, in order.
pub open spec fn call_sites_from(
    nodes: Seq<SyntaxTree>,
    from: int,
    src: Seq<char>,
    names: Set<Seq<char>>,
) -> Seq<Step>
    decreases nodes, nodes.len() - from,
{
    if from < 0 || from >= nodes.len() {
        Seq::empty()
    } else {
        call_sites(nodes[from], src, names) + call_sites_from(nodes, from + 1, src, names)
    }
}

/// Whether an invocation resolves to a method of the unit: it has no
/// receiver or the receiver `this`, and names a declared method.
pub open spec fn is_local_call(node: SyntaxTree, src: Seq<char>, names: Set<Seq<char>>) -> bool {
    &&& is_invocation(node)
    &&& field_node(node, "object"@) is None || on_this(node, src)
    &&& names.contains(call_name(node, src))
}

/// The names of the unit's methods that the invocations below `node` call,
/// in the order of the calls. Below an invocation only its arguments are
/// searched.
pub open spec fn local_calls(node: SyntaxTree, src: Seq<char>, names: Set<Seq<char>>) -> Seq<
    Seq<char>,
>
    decreases node,
{
    local_calls_from(node.children, 0, src, names)
}

/// The local calls at and below `nodes[from..]`.
pub open spec fn local_calls_from(
    nodes: Seq<SyntaxTree>,
    from: int,
    src: Seq<char>,
    names: Set<Seq<char>>,
) -> Seq<Seq<char>>
    decreases nodes, nodes.len() - from,
{
    if from < 0 || from >= nodes.len() {
        Seq::empty()
    } else {
        let c = nodes[from];
        let here = if c.kind == "method_invocation"@ {
            let own = if is_local_call(c, src, names) {
                seq![call_name(c, src)]
            } else {
                Seq::empty()
            };
            let nested = match field_node(c, "arguments"@) {
                Some(a) => local_calls(a, src, names),
                None => Seq::empty(),
            };
            own + nested
        } else {
            local_calls(c, src, names)
        };
        here + local_calls_from(nodes, from + 1, src, names)
    }
}

/// The view of a sequence with one more step.
pub proof fn lemma_steps_view_push(steps: Seq<FlowStep>, step: FlowStep)
    ensures
        steps_view(steps.push(step)) == steps_view(steps).push(step@),
{
    assert(steps_view(steps.push(step)) =~= steps_view(steps).push(step@));
}

/// Whether the receiver of an invocation is the literal `this`.
fn receiver_is_this(object: &SyntaxNode, source: &str) -> (b: bool)
    ensures
        b == (object@.text(source@) == "this"@),
{
    same_text(object.text_in(source), "this")
}

/// Appends to `out` the call step of every invocation at and below `node`.
pub fn collect_calls_recursive(
    node: &SyntaxNode,
    source: &str,
    methods: &Table<MethodNode>,
    out: &mut Vec<FlowStep>,
)
    ensures
        steps_view(final(out)@) == steps_view(old(out)@) + call_sites(
            node@,
            source@,
            methods@.dom(),
        ),
    decreases node,
{
    let ghost names = methods@.dom();
    let ghost start = steps_view(out@);
    if node.is_kind("method_invocation") {
        match child_in_field(node, "name") {
            Some(name_node) => {
                let name = name_node.text_in(source);
                let object = child_in_field(node, "object");
                let is_internal = match object {
                    Some(object) => receiver_is_this(object, source),
                    None => methods.contains_key(name),
                };
                let service = match object {
                    Some(object) => if is_internal {
                        None
                    } else {
                        Some(before_dot_text(object.text_in(source)))
                    },
                    None => None,
                };
                let step = FlowStep::Call {
                    name: name.to_owned(),
                    is_external: !is_internal,
                    raw_text: node.text_in(source).to_owned(),
                    service,
                    offset: node.start,
                    line: node.line(),
                };
                proof {
                    lemma_steps_view_push(out@, step);
                    assert(step@ == call_of(node@, source@, names));
                }
                out.push(step);
            },
            None => {},
        }
    }
    let ghost own = if is_invocation(node@) {
        seq![call_of(node@, source@, names)]
    } else {
        Seq::empty()
    };
    proof {
        assert(steps_view(out@) =~= start + own);
        assert(start + own + Seq::<Step>::empty() =~= start + own);
    }
    let ghost mut done: Seq<Step> = Seq::empty();
    let mut i: usize = 0;
    proof {
        lemma_children_match(*node);
    }
    while i < node.children.len()
        invariant
            children_match(*node),
            i <= node.children.len(),
            names == methods@.dom(),
            steps_view(out@) == start + own + done,
            call_sites_from(node@.children, 0, source@, names) == done + call_sites_from(
                node@.children,
                i as int,
                source@,
                names,
            ),
        decreases node.children.len() - i,
    {
        let ghost here = call_sites(node@.children[i as int], source@, names);
        collect_calls_recursive(&node.children[i], source, methods, out);
        proof {
            assert(start + own + done + here =~= start + own + (done + here));
            assert(done + (here + call_sites_from(node@.children, i + 1, source@, names)) =~= (done
                + here) + call_sites_from(node@.children, i + 1, source@, names));
            done = done + here;
        }
        i += 1;
    }
    proof {
        assert(done + Seq::<Step>::empty() =~= done);
        assert(start + own + done =~= start + (own + done));
    }
}

/// Every invocation at and below `node`, as call steps.
pub fn find_calls_in_node(node: &SyntaxNode, source: &str, methods: &Table<MethodNode>) -> (r: Vec<
    FlowStep,
>)
    ensures
        steps_view(r@) == call_sites(node@, source@, methods@.dom()),
{
    let mut r: Vec<FlowStep> = Vec::new();
    collect_calls_recursive(node, source, methods, &mut r);
    assert(steps_view(Seq::<FlowStep>::empty()) + call_sites(node@, source@, methods@.dom())
        =~= call_sites(node@, source@, methods@.dom()));
    r
}

/// Appends to `calls` the names of the unit's methods that the invocations
/// below `node` call.
pub fn visit_body(
    node: &SyntaxNode,
    source: &str,
    methods: &Table<MethodNode>,
    calls: &mut Vec<String>,
)
    ensures
        texts(final(calls)@) == texts(old(calls)@) + local_calls(node@, source@, methods@.dom()),
    decreases node,
{
    let ghost names = methods@.dom();
    let ghost start = texts(calls@);
    let ghost mut done: Seq<Seq<char>> = Seq::empty();
    proof {
        assert(start + done =~= start);
    }
    let mut i: usize = 0;
    proof {
        lemma_children_match(*node);
    }
    while i < node.children.len()
        invariant
            children_match(*node),
            i <= node.children.len(),
            names == methods@.dom(),
            texts(calls@) == start + done,
            local_calls_from(node@.children, 0, source@, names) == done + local_calls_from(
                node@.children,
                i as int,
                source@,
                names,
            ),
        decreases node.children.len() - i,
    {
        let child = &node.children[i];
        let ghost before = texts(calls@);
        let ghost here: Seq<Seq<char>>;
        if child.is_kind("method_invocation") {
            let ghost own: Seq<Seq<char>>;
            proof {
                own = Seq::empty();
            }
            match child_in_field(child, "name") {
                Some(name_node) => {
                    let name = name_node.text_in(source);
                    let local = match child_in_field(child, "object") {
                        Some(object) => receiver_is_this(object, source),
                        None => true,
                    };
                    if local && methods.contains_key(name) {
                        calls.push(name.to_owned());
                        proof {
                            own = seq![name@];
                            assert(texts(calls@) =~= before.push(name@));
                        }
                    }
                },
                None => {},
            }
            proof {
                assert(texts(calls@) =~= before + own);
            }
            let ghost nested: Seq<Seq<char>>;
            match child_in_field(child, "arguments") {
                Some(arguments) => {
                    visit_body(arguments, source, methods, calls);
                    proof {
                        nested = local_calls(arguments@, source@, names);
                    }
                },
                None => {
                    proof {
                        nested = Seq::empty();
                    }
                },
            }
            proof {
                here = own + nested;
                assert(before + own + nested =~= before + here);
            }
        } else {
            visit_body(child, source, methods, calls);
            proof {
                here = local_calls(child@, source@, names);
            }
        }
        proof {
            assert(texts(calls@) == before + here);
            assert(start + done + here =~= start + (done + here));
            assert(done + (here + local_calls_from(node@.children, i + 1, source@, names)) =~= (done
                + here) + local_calls_from(node@.children, i + 1, source@, names));
            done = done + here;
        }
        i += 1;
    }
    proof {
        assert(done + Seq::<Seq<char>>::empty() =~= done);
    }
}

/// The method's list of callees: the local calls of its body; none where
/// it has no body.
pub open spec fn method_calls(decl: SyntaxTree, src: Seq<char>, names: Set<Seq<char>>) -> Seq<
    Seq<char>,
> {
    match field_node(decl, "body"@) {
        Some(body) => local_calls(body, src, names),
        None => Seq::empty(),
    }
}

/// Computes `method_calls`.
pub fn find_calls(decl: &SyntaxNode, source: &str, methods: &Table<MethodNode>) -> (calls: Vec<
    String,
>)
    ensures
        texts(calls@) == method_calls(decl@, source@, methods@.dom()),
{
    let mut calls: Vec<String> = Vec::new();
    assert(texts(calls@) =~= Seq::<Seq<char>>::empty());
    match child_in_field(decl, "body") {
        Some(body) => {
            visit_body(body, source, methods, &mut calls);
            assert(Seq::<Seq<char>>::empty() + local_calls(body@, source@, methods@.dom())
                =~= local_calls(body@, source@, methods@.dom()));
        },
        None => {},
    }
    calls
}

} // verus!
