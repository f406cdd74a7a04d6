//! What holds of every analysis and of every rendering.
use vstd::prelude::*;
use crate::diagram::{
    call_close,
    call_text,
    click,
    edge,
    edges,
    entered,
    node_line,
    render_cases,
    render_from,
    render_method,
    render_step,
    repeat_edge,
    repeat_edges,
    shown,
    suppressed,
    Drawing,
    Rules,
};
use crate::chart::{
    blank,
    diagram,
    eligible_from,
    fits,
    flow_for,
    is_eligible,
    render_methods,
    render_overview,
    targets,
};
use crate::classify::{call_of, is_invocation, local_calls_from, on_this, call_name};
use crate::collect::field_node;
use crate::collect::{method_name, registered};
use crate::extract::{cases_from, flow_from};
use crate::graph::{analysis, call_lists, flow_lists, CallGraph};
use crate::model::{MethodNode, MethodView, Step};
use crate::syntax::SyntaxTree;
use crate::table::ascending;
use crate::parser::rendering;
use crate::render::ignored_names;
use crate::text::{before_dot, decimal, lex_lt, texts};

verus! {

/// Whether the text `needle` occurs in the text `hay`.
pub open spec fn occurs_in(needle: Seq<char>, hay: Seq<char>) -> bool {
    exists|i: int|
        0 <= i && i + needle.len() <= hay.len() && #[trigger] hay.subrange(i, i + needle.len())
            == needle
}

/// A text occurs in every text that is built around it.
pub proof fn lemma_occurs_between(before: Seq<char>, needle: Seq<char>, after: Seq<char>)
    ensures
        occurs_in(needle, before + needle + after),
{
    let hay = before + needle + after;
    let i = before.len() as int;
    assert(hay.subrange(i, i + needle.len()) =~= needle);
}

/// What occurs in a text occurs in every text that starts with it.
pub proof fn lemma_occurs_in_longer(needle: Seq<char>, hay: Seq<char>, longer: Seq<char>)
    requires
        occurs_in(needle, hay),
        hay.is_prefix_of(longer),
    ensures
        occurs_in(needle, longer),
{
    let i = choose|i: int|
        0 <= i && i + needle.len() <= hay.len() && #[trigger] hay.subrange(i, i + needle.len())
            == needle;
    assert(longer.subrange(i, i + needle.len()) =~= hay.subrange(i, i + needle.len()));
}

/// The text with which the node of a step is labelled before the source
/// line is added.
pub open spec fn step_text(step: Step) -> Seq<char> {
    match step {
        Step::Call { name, is_external, raw_text, .. } => call_text(name, raw_text, is_external),
        Step::Return { label, .. } => label,
        Step::Decision { label, .. } => label,
        Step::Loop { label, .. } => label,
        Step::Switch { label, .. } => label,
    }
}

/// The source line of a step.
pub open spec fn step_line(step: Step) -> usize {
    match step {
        Step::Call { line, .. } => line,
        Step::Return { line, .. } => line,
        Step::Decision { line, .. } => line,
        Step::Loop { line, .. } => line,
        Step::Switch { line, .. } => line,
    }
}

/// The source offset of a step.
pub open spec fn step_offset(step: Step) -> usize {
    match step {
        Step::Call { offset, .. } => offset,
        Step::Return { offset, .. } => offset,
        Step::Decision { offset, .. } => offset,
        Step::Loop { offset, .. } => offset,
        Step::Switch { offset, .. } => offset,
    }
}

/// The bracket that opens the label of a step's node.
pub open spec fn step_open(step: Step) -> Seq<char> {
    match step {
        Step::Call { .. } => "[\""@,
        Step::Return { .. } => "[\""@,
        Step::Decision { .. } => "{\""@,
        Step::Loop { .. } => "{{\""@,
        Step::Switch { .. } => "{\""@,
    }
}

/// The bracket and style class that close the label of a step's node.
pub open spec fn step_close(step: Step) -> Seq<char> {
    match step {
        Step::Call { is_external, .. } => call_close(is_external),
        Step::Return { .. } => "\"]"@,
        Step::Decision { .. } => "\"}:::decision"@,
        Step::Loop { .. } => "\"}}:::loop"@,
        Step::Switch { .. } => "\"}:::decision"@,
    }
}

/// Whether a step draws a node of its own: every step but a call that is
/// left out.
pub open spec fn draws(step: Step, rules: Rules) -> bool {
    match step {
        Step::Call { is_external, service, .. } => !suppressed(service, is_external, rules),
        _ => true,
    }
}

/// The drawing after the node of a step that draws one.
pub open spec fn step_head(step: Step, rules: Rules, d: Drawing, label: Option<Seq<char>>) -> Drawing {
    entered(
        d,
        step_open(step),
        shown(step_text(step), step_line(step), rules.show_lines),
        step_close(step),
        step_offset(step),
        label,
    )
}

/// A new node adds to the text and to the count.
pub proof fn lemma_entered_extends(
    d: Drawing,
    open: Seq<char>,
    text: Seq<char>,
    close: Seq<char>,
    offset: usize,
    label: Option<Seq<char>>,
)
    ensures
        d.text.is_prefix_of(entered(d, open, text, close, offset, label).text),
        (d.text + node_line(d.count + 1, open, text, close)).is_prefix_of(
            entered(d, open, text, close, offset, label).text,
        ),
        entered(d, open, text, close, offset, label).count == d.count + 1,
{
    let e = entered(d, open, text, close, offset, label);
    let line = d.text + node_line(d.count + 1, open, text, close);
    assert(e.text.subrange(0, d.text.len() as int) =~= d.text);
    assert(e.text.subrange(0, line.len() as int) =~= line);
}

/// Being the start of a text is transitive.
pub proof fn lemma_prefix_transitive(a: Seq<char>, b: Seq<char>, c: Seq<char>)
    requires
        a.is_prefix_of(b),
        b.is_prefix_of(c),
    ensures
        a.is_prefix_of(c),
{
    assert(c.subrange(0, a.len() as int) =~= b.subrange(0, a.len() as int));
}

/// A text is the start of each text made by adding to it.
pub proof fn lemma_prefix_of_sum(a: Seq<char>, b: Seq<char>)
    ensures
        a.is_prefix_of(a + b),
{
    assert((a + b).subrange(0, a.len() as int) =~= a);
}

/// A step only adds to the drawing: the text before stays as the start of
/// the text after, and no node is taken away. A step that draws a node
/// starts with that node.
pub proof fn lemma_render_step_extends(step: Step, rules: Rules, d: Drawing, label: Option<Seq<char>>)
    ensures
        d.text.is_prefix_of(render_step(step, rules, d, label).text),
        render_step(step, rules, d, label).count >= d.count,
        draws(step, rules) ==> step_head(step, rules, d, label).text.is_prefix_of(
            render_step(step, rules, d, label).text,
        ) && render_step(step, rules, d, label).count > d.count,
        !draws(step, rules) ==> render_step(step, rules, d, label) == d,
    decreases step,
{
    let head = step_head(step, rules, d, label);
    let out = render_step(step, rules, d, label);
    lemma_entered_extends(
        d,
        step_open(step),
        shown(step_text(step), step_line(step), rules.show_lines),
        step_close(step),
        step_offset(step),
        label,
    );
    match step {
        Step::Call { .. } => {},
        Step::Return { .. } => {},
        Step::Decision { yes_branch, no_branch, .. } => {
            lemma_render_from_extends(yes_branch, 0, rules, head, Some("Yes"@));
            let yes = render_from(yes_branch, 0, rules, head, Some("Yes"@));
            let again = Drawing { frontier: head.frontier, ..yes };
            lemma_render_from_extends(no_branch, 0, rules, again, Some("No"@));
            let no = render_from(no_branch, 0, rules, again, Some("No"@));
            lemma_prefix_transitive(head.text, yes.text, no.text);
            lemma_prefix_transitive(d.text, head.text, out.text);
        },
        Step::Loop { body, .. } => {
            lemma_render_from_extends(body, 0, rules, head, Some("loop body"@));
            let inner = render_from(body, 0, rules, head, Some("loop body"@));
            lemma_prefix_of_sum(inner.text, repeat_edges(inner.frontier, head.count));
            lemma_prefix_transitive(head.text, inner.text, out.text);
            lemma_prefix_transitive(d.text, head.text, out.text);
        },
        Step::Switch { cases, .. } => {
            let first = Drawing { frontier: Seq::empty(), ..head };
            lemma_render_cases_extends(cases, 0, rules, first, head.count);
            lemma_prefix_transitive(d.text, head.text, out.text);
        },
    }
}

/// A sequence of steps only adds to the drawing.
pub proof fn lemma_render_from_extends(
    steps: Seq<Step>,
    from: int,
    rules: Rules,
    d: Drawing,
    label: Option<Seq<char>>,
)
    ensures
        d.text.is_prefix_of(render_from(steps, from, rules, d, label).text),
        render_from(steps, from, rules, d, label).count >= d.count,
    decreases steps, steps.len() - from,
{
    if 0 <= from < steps.len() {
        lemma_render_step_extends(steps[from], rules, d, label);
        let next = render_step(steps[from], rules, d, label);
        let rest = if next.count > d.count {
            None
        } else {
            label
        };
        lemma_render_from_extends(steps, from + 1, rules, next, rest);
        lemma_prefix_transitive(
            d.text,
            next.text,
            render_from(steps, from + 1, rules, next, rest).text,
        );
    }
}

/// The case groups of a switch only add to the drawing.
pub proof fn lemma_render_cases_extends(
    cases: Seq<(Seq<char>, Seq<Step>)>,
    from: int,
    rules: Rules,
    d: Drawing,
    head: nat,
)
    ensures
        d.text.is_prefix_of(render_cases(cases, from, rules, d, head).text),
        render_cases(cases, from, rules, d, head).count >= d.count,
    decreases cases, cases.len() - from,
{
    if 0 <= from < cases.len() {
        let start = Drawing { frontier: seq![head], ..d };
        lemma_render_from_extends(cases[from].1, 0, rules, start, Some(cases[from].0));
        let group = render_from(cases[from].1, 0, rules, start, Some(cases[from].0));
        let next = Drawing { frontier: d.frontier + group.frontier, ..group };
        lemma_render_cases_extends(cases, from + 1, rules, next, head);
        lemma_prefix_transitive(
            d.text,
            next.text,
            render_cases(cases, from + 1, rules, next, head).text,
        );
    }
}

/// With source lines shown, the label of every node that a step draws is
/// the step's text followed by ` (L`, the step's line and `)`; without,
/// it is the step's text alone. The node's line stands in the diagram
/// right behind what was drawn before.
pub proof fn law_source_reference(step: Step, rules: Rules, d: Drawing, label: Option<Seq<char>>)
    requires
        draws(step, rules),
    ensures
        rules.show_lines ==> (d.text + node_line(
            d.count + 1,
            step_open(step),
            step_text(step) + " (L"@ + decimal(step_line(step) as nat) + ")"@,
            step_close(step),
        )).is_prefix_of(render_step(step, rules, d, label).text),
        !rules.show_lines ==> (d.text + node_line(
            d.count + 1,
            step_open(step),
            step_text(step),
            step_close(step),
        )).is_prefix_of(render_step(step, rules, d, label).text),
{
    lemma_render_step_extends(step, rules, d, label);
    let text = shown(step_text(step), step_line(step), rules.show_lines);
    lemma_entered_extends(d, step_open(step), text, step_close(step), step_offset(step), label);
    lemma_prefix_transitive(
        d.text + node_line(d.count + 1, step_open(step), text, step_close(step)),
        step_head(step, rules, d, label).text,
        render_step(step, rules, d, label).text,
    );
}

/// Each node of `exits` other than `to` has its dashed edge in
/// `repeat_edges(exits, to)`.
pub proof fn lemma_repeat_edges_hold(exits: Seq<nat>, to: nat, i: int)
    requires
        0 <= i < exits.len(),
        exits[i] != to,
    ensures
        occurs_in(repeat_edge(exits[i], to), repeat_edges(exits, to)),
    decreases exits.len(),
{
    let all = repeat_edges(exits, to);
    let init = repeat_edges(exits.drop_last(), to);
    if i == exits.len() - 1 {
        lemma_occurs_between(init, repeat_edge(exits[i], to), Seq::empty());
        assert(init + repeat_edge(exits[i], to) + Seq::<char>::empty() =~= all);
    } else {
        lemma_repeat_edges_hold(exits.drop_last(), to, i);
        if exits.last() != to {
            lemma_prefix_of_sum(init, repeat_edge(exits.last(), to));
            lemma_occurs_in_longer(repeat_edge(exits[i], to), init, all);
        }
    }
}

/// A loop of any kind is drawn as a node of the class `loop`, and from
/// every node at which its body ends, other than the loop's own node, a
/// dashed `repeat` edge leads back to that node. The loop's node alone is
/// the frontier behind the loop.
pub proof fn law_loop_back_edges(step: Step, rules: Rules, d: Drawing, label: Option<Seq<char>>)
    requires
        step is Loop,
    ensures
        ({
            let out = render_step(step, rules, d, label);
            let header = d.count + 1;
            let head = step_head(step, rules, d, label);
            let inner = render_from(step->body, 0, rules, head, Some("loop body"@));
            &&& out.frontier == seq![header]
            &&& occurs_in(
                node_line(
                    header,
                    "{{\""@,
                    shown(step_text(step), step_line(step), rules.show_lines),
                    "\"}}:::loop"@,
                ),
                out.text,
            )
            &&& forall|i: int|
                0 <= i < inner.frontier.len() && inner.frontier[i] != header ==> occurs_in(
                    repeat_edge(#[trigger] inner.frontier[i], header),
                    out.text,
                )
        }),
{
    let out = render_step(step, rules, d, label);
    let header = d.count + 1;
    let head = step_head(step, rules, d, label);
    let inner = render_from(step->body, 0, rules, head, Some("loop body"@));
    let line = node_line(
        header,
        "{{\""@,
        shown(step_text(step), step_line(step), rules.show_lines),
        "\"}}:::loop"@,
    );
    lemma_render_step_extends(step, rules, d, label);
    lemma_entered_extends(
        d,
        step_open(step),
        shown(step_text(step), step_line(step), rules.show_lines),
        step_close(step),
        step_offset(step),
        label,
    );
    lemma_occurs_between(d.text, line, Seq::empty());
    assert(d.text + line + Seq::<char>::empty() =~= d.text + line);
    lemma_occurs_in_longer(line, d.text + line, head.text);
    lemma_occurs_in_longer(line, head.text, out.text);
    assert forall|i: int|
        0 <= i < inner.frontier.len() && inner.frontier[i] != header implies occurs_in(
        repeat_edge(#[trigger] inner.frontier[i], header),
        out.text,
    ) by {
        lemma_repeat_edges_hold(inner.frontier, header, i);
        let tail = repeat_edges(inner.frontier, header);
        let needle = repeat_edge(inner.frontier[i], header);
        let k = choose|k: int|
            0 <= k && k + needle.len() <= tail.len() && #[trigger] tail.subrange(
                k,
                k + needle.len(),
            ) == needle;
        let at = inner.text.len() + k;
        assert(out.text.subrange(at, at + needle.len()) =~= tail.subrange(k, k + needle.len()));
    }
}

// ---------------------------------------------------------------------------
// The call graph
// ---------------------------------------------------------------------------

/// The names under which the declarations `decls` are recorded.
pub open spec fn declared_names(decls: Seq<SyntaxTree>, src: Seq<char>) -> Set<Seq<char>>
    decreases decls.len(),
{
    if decls.len() == 0 {
        Set::empty()
    } else {
        declared_names(decls.drop_last(), src).insert(method_name(decls.last(), src))
    }
}

/// The registry holds a method for each recorded name, and for no other.
pub proof fn lemma_registered_names(
    init: Map<Seq<char>, MethodView>,
    decls: Seq<SyntaxTree>,
    src: Seq<char>,
)
    ensures
        registered(init, decls, src).dom() == init.dom().union(declared_names(decls, src)),
    decreases decls.len(),
{
    if decls.len() > 0 {
        lemma_registered_names(init, decls.drop_last(), src);
    }
    assert(registered(init, decls, src).dom() =~= init.dom().union(declared_names(decls, src)));
}

/// The callee lists hold a list for each recorded name, and for no other.
pub proof fn lemma_call_lists_names(
    init: Map<Seq<char>, Seq<Seq<char>>>,
    decls: Seq<SyntaxTree>,
    src: Seq<char>,
    names: Set<Seq<char>>,
)
    ensures
        call_lists(init, decls, src, names).dom() == init.dom().union(
            declared_names(decls, src),
        ),
    decreases decls.len(),
{
    if decls.len() > 0 {
        lemma_call_lists_names(init, decls.drop_last(), src, names);
    }
    assert(call_lists(init, decls, src, names).dom() =~= init.dom().union(
        declared_names(decls, src),
    ));
}

/// The flows hold a flow for each recorded name, and for no other.
pub proof fn lemma_flow_lists_names(
    init: Map<Seq<char>, Seq<Step>>,
    decls: Seq<SyntaxTree>,
    src: Seq<char>,
    names: Set<Seq<char>>,
)
    ensures
        flow_lists(init, decls, src, names).dom() == init.dom().union(
            declared_names(decls, src),
        ),
    decreases decls.len(),
{
    if decls.len() > 0 {
        lemma_flow_lists_names(init, decls.drop_last(), src, names);
    }
    assert(flow_lists(init, decls, src, names).dom() =~= init.dom().union(
        declared_names(decls, src),
    ));
}

/// In the call graph of every source unit, each method that has a list of
/// callees, and each that has a flow, is a declared method; and each
/// declared method has both.
pub proof fn law_callers_are_declared(root: SyntaxTree, src: Seq<char>)
    ensures
        analysis(root, src).calls.dom() == analysis(root, src).nodes.dom(),
        analysis(root, src).flows.dom() == analysis(root, src).nodes.dom(),
{
    let decls = crate::collect::declarations(root);
    let nodes = registered(Map::empty(), decls, src);
    lemma_registered_names(Map::empty(), decls, src);
    lemma_call_lists_names(Map::empty(), decls, src, nodes.dom());
    lemma_flow_lists_names(Map::empty(), decls, src, nodes.dom());
}

// ---------------------------------------------------------------------------
// The methods that a diagram shows
// ---------------------------------------------------------------------------

/// The eligible names among `keys[from..]` are those of the eligible
/// methods, and they stand in the order of `keys`.
pub proof fn lemma_eligible_from(keys: Seq<Seq<char>>, values: Seq<MethodNode>, from: int)
    requires
        keys.len() == values.len(),
        ascending(keys),
        0 <= from,
    ensures
        forall|name: Seq<char>| #[trigger]
            eligible_from(keys, values, from).contains(name) <==> exists|i: int|
                from <= i < keys.len() && #[trigger] keys[i] == name && is_eligible(values[i]),
        ascending(eligible_from(keys, values, from)),
    decreases keys.len() - from,
{
    let all = eligible_from(keys, values, from);
    if from >= keys.len() {
        assert(all =~= Seq::<Seq<char>>::empty());
    } else {
        lemma_eligible_from(keys, values, from + 1);
        let rest = eligible_from(keys, values, from + 1);
        let here = if is_eligible(values[from]) {
            seq![keys[from]]
        } else {
            Seq::empty()
        };
        assert(all == here + rest);
        assert forall|name: Seq<char>| #[trigger] all.contains(name) implies exists|i: int|
            from <= i < keys.len() && #[trigger] keys[i] == name && is_eligible(values[i]) by {
            let j = choose|j: int| 0 <= j < all.len() && all[j] == name;
            if j < here.len() {
                assert(keys[from] == name);
            } else {
                assert(rest[j - here.len()] == name);
                assert(rest.contains(name));
            }
        }
        assert forall|name: Seq<char>|
            (exists|i: int|
                from <= i < keys.len() && #[trigger] keys[i] == name && is_eligible(
                    values[i],
                )) implies #[trigger] all.contains(name) by {
            let i = choose|i: int|
                from <= i < keys.len() && #[trigger] keys[i] == name && is_eligible(values[i]);
            if i == from {
                assert(all[0] == name);
            } else {
                assert(rest.contains(name));
                let j = choose|j: int| 0 <= j < rest.len() && rest[j] == name;
                assert(all[j + here.len()] == name);
            }
        }
        assert forall|a: int, b: int| 0 <= a < b < all.len() implies lex_lt(
            #[trigger] all[a],
            #[trigger] all[b],
        ) by {
            if a < here.len() {
                assert(all[b] == rest[b - here.len()]);
                assert(rest.contains(all[b]));
                let i = choose|i: int|
                    from + 1 <= i < keys.len() && #[trigger] keys[i] == all[b] && is_eligible(
                        values[i],
                    );
                assert(lex_lt(keys[from], keys[i]));
            } else {
                assert(all[a] == rest[a - here.len()]);
                assert(all[b] == rest[b - here.len()]);
            }
        }
    }
}

/// Without a method asked for, a diagram shows exactly the methods that
/// have the modifier `public` or `protected`, each once, in ascending
/// order of the names.
pub proof fn law_default_targets(graph: CallGraph)
    requires
        graph.nodes.wf(),
    ensures
        forall|name: Seq<char>| #[trigger]
            targets(graph, None).contains(name) <==> graph.nodes.has(name) && is_eligible(
                graph.nodes.at(name),
            ),
        ascending(targets(graph, None)),
{
    let keys = graph.nodes.keys();
    let values = graph.nodes.values();
    lemma_eligible_from(keys, values, 0);
    assert forall|name: Seq<char>| #[trigger]
        targets(graph, None).contains(name) <==> graph.nodes.has(name) && is_eligible(
            graph.nodes.at(name),
        ) by {
        if targets(graph, None).contains(name) {
            let i = choose|i: int|
                0 <= i < keys.len() && #[trigger] keys[i] == name && is_eligible(values[i]);
            graph.nodes.lemma_at(i);
        }
        if graph.nodes.has(name) && is_eligible(graph.nodes.at(name)) {
            let i = graph.nodes.place(name);
            graph.nodes.lemma_at(i);
            assert(keys[i] == name && is_eligible(values[i]));
        }
    }
}

/// With a declared method asked for, a diagram shows that method alone,
/// whatever its modifiers.
pub proof fn law_named_target(graph: CallGraph, name: Seq<char>)
    requires
        graph.nodes.has(name),
    ensures
        targets(graph, Some(name)) == seq![name],
{
}

// ---------------------------------------------------------------------------
// The overview
// ---------------------------------------------------------------------------

/// A greater number has no shorter numeral.
pub proof fn lemma_decimal_grows(a: nat, b: nat)
    requires
        a <= b,
    ensures
        1 <= decimal(a).len() <= decimal(b).len(),
    decreases b,
{
    if a >= 10 {
        lemma_decimal_grows(a / 10, b / 10);
    } else if b >= 10 {
        lemma_decimal_grows(b / 10, b / 10);
    }
}

/// The subgraph of a method is longer than the placeholder node of the
/// same method with a number that is not greater.
pub proof fn lemma_method_longer(
    name: Seq<char>,
    steps: Seq<Step>,
    rules: Rules,
    d: Drawing,
    n: nat,
)
    requires
        n <= d.count + 1,
    ensures
        render_method(name, steps, rules, d).text.len() >= d.text.len() + node_line(
            n,
            "([\""@,
            name,
            "\"]):::public"@,
        ).len() + 1,
        render_method(name, steps, rules, d).count >= d.count + 2,
{
    let start = d.count + 1;
    let opened = Drawing {
        text: d.text + "  subgraph "@ + name + "\n"@ + "    direction TB\n"@ + node_line(
            start,
            "([\""@,
            name,
            "\"]):::public"@,
        ),
        count: start,
        frontier: seq![start],
    };
    lemma_render_from_extends(steps, 0, rules, opened, None);
    lemma_decimal_grows(n, start);
    reveal_strlit("  end\n");
}

/// Drawing each method in full gives a longer text than drawing one
/// placeholder node for each, by at least one character for each method.
pub proof fn lemma_overview_shorter(
    graph: CallGraph,
    names: Seq<Seq<char>>,
    from: int,
    rules: Rules,
    small: Drawing,
    full: Drawing,
    slack: nat,
)
    requires
        0 <= from,
        small.count <= full.count,
        small.text.len() + slack <= full.text.len(),
    ensures
        render_overview(names, from, small).text.len() + slack + (if from < names.len() {
            1nat
        } else {
            0nat
        }) <= render_methods(graph, names, from, rules, full).text.len(),
    decreases names.len() - from,
{
    if from < names.len() {
        let n = small.count + 1;
        let next_small = Drawing {
            text: small.text + node_line(n, "([\""@, names[from], "\"]):::public"@),
            count: n,
            frontier: small.frontier,
        };
        let next_full = render_method(names[from], flow_for(graph, names[from]), rules, full);
        lemma_method_longer(names[from], flow_for(graph, names[from]), rules, full, n);
        lemma_overview_shorter(graph, names, from + 1, rules, next_small, next_full, slack + 1);
    }
}

/// Where at least one method is shown and the full diagram can be
/// numbered, the overview of all eligible methods is strictly shorter than
/// their full diagram, whatever the other settings.
pub proof fn law_overview_is_shorter(graph: CallGraph, rules: Rules)
    requires
        targets(graph, None).len() > 0,
        fits(graph, None, false),
    ensures
        rendering(graph, None, rules, true).mermaid.len() < rendering(
            graph,
            None,
            rules,
            false,
        ).mermaid.len(),
{
    lemma_overview_shorter(graph, targets(graph, None), 0, rules, blank(), blank(), 0);
}

// ---------------------------------------------------------------------------
// Ignored names
// ---------------------------------------------------------------------------

/// A call is left out exactly if it is external and its service, the
/// receiver's text before its first dot, is an ignored name. A call that is
/// left out changes nothing in the drawing; every other call adds one node.
pub proof fn law_ignored_calls(step: Step, rules: Rules, d: Drawing, label: Option<Seq<char>>)
    requires
        step is Call,
    ensures
        !draws(step, rules) <==> step->is_external && step->service is Some
            && rules.ignored.contains(step->service->0),
        !draws(step, rules) ==> render_step(step, rules, d, label) == d,
        draws(step, rules) ==> render_step(step, rules, d, label).count == d.count + 1,
{
}

/// Ignoring a name that is ignored already changes nothing.
pub proof fn law_ignoring_twice(variables: Seq<String>, services: Seq<String>, name: String)
    requires
        texts(services).contains(name@) || texts(variables).contains(name@),
    ensures
        ignored_names(variables, services.push(name)) == ignored_names(variables, services),
        ignored_names(variables.push(name), services) == ignored_names(variables, services),
{
    let more_services = texts(services.push(name));
    let more_variables = texts(variables.push(name));
    assert(more_services =~= texts(services).push(name@));
    assert(more_variables =~= texts(variables).push(name@));
    assert forall|k: Seq<char>| more_services.contains(k) <==> texts(services).contains(k) || k
        == name@ by {
        if more_services.contains(k) {
            let i = choose|i: int| 0 <= i < more_services.len() && more_services[i] == k;
            if i < services.len() {
                assert(texts(services)[i] == k);
            }
        }
        if texts(services).contains(k) {
            let i = choose|i: int| 0 <= i < texts(services).len() && texts(services)[i] == k;
            assert(more_services[i] == k);
        }
        if k == name@ {
            assert(more_services[services.len() as int] == k);
        }
    }
    assert forall|k: Seq<char>| more_variables.contains(k) <==> texts(variables).contains(k) || k
        == name@ by {
        if more_variables.contains(k) {
            let i = choose|i: int| 0 <= i < more_variables.len() && more_variables[i] == k;
            if i < variables.len() {
                assert(texts(variables)[i] == k);
            }
        }
        if texts(variables).contains(k) {
            let i = choose|i: int| 0 <= i < texts(variables).len() && texts(variables)[i] == k;
            assert(more_variables[i] == k);
        }
        if k == name@ {
            assert(more_variables[variables.len() as int] == k);
        }
    }
    assert(ignored_names(variables, services.push(name)) =~= ignored_names(variables, services));
    assert(ignored_names(variables.push(name), services) =~= ignored_names(variables, services));
}

/// The step `step` without the calls that `rules` leave out of the steps
/// nested in it.
pub open spec fn pruned(step: Step, rules: Rules) -> Step
    decreases step,
{
    match step {
        Step::Call { .. } => step,
        Step::Return { .. } => step,
        Step::Decision { label, offset, line, yes_branch, no_branch } => Step::Decision {
            label,
            offset,
            line,
            yes_branch: pruned_from(yes_branch, 0, rules),
            no_branch: pruned_from(no_branch, 0, rules),
        },
        Step::Loop { label, offset, line, body } => Step::Loop {
            label,
            offset,
            line,
            body: pruned_from(body, 0, rules),
        },
        Step::Switch { label, offset, line, cases } => Step::Switch {
            label,
            offset,
            line,
            cases: pruned_cases(cases, 0, rules),
        },
    }
}

/// The steps `steps[from..]` without the calls that `rules` leave out, at
/// every depth; all other steps stay, in their order.
pub open spec fn pruned_from(steps: Seq<Step>, from: int, rules: Rules) -> Seq<Step>
    decreases steps, steps.len() - from,
{
    if from < 0 || from >= steps.len() {
        Seq::empty()
    } else if draws(steps[from], rules) {
        seq![pruned(steps[from], rules)] + pruned_from(steps, from + 1, rules)
    } else {
        pruned_from(steps, from + 1, rules)
    }
}

/// The case groups `cases[from..]`, each without the calls that `rules`
/// leave out.
pub open spec fn pruned_cases(cases: Seq<(Seq<char>, Seq<Step>)>, from: int, rules: Rules) -> Seq<
    (Seq<char>, Seq<Step>),
>
    decreases cases, cases.len() - from,
{
    if from < 0 || from >= cases.len() {
        Seq::empty()
    } else {
        seq![(cases[from].0, pruned_from(cases[from].1, 0, rules))] + pruned_cases(
            cases,
            from + 1,
            rules,
        )
    }
}

/// The rules that leave no call out and show lines as `rules` do.
pub open spec fn unfiltered(rules: Rules) -> Rules {
    Rules { ignored: Set::empty(), show_lines: rules.show_lines }
}

/// Steps behind the first `a.len()` of `a + b` are drawn as in `b`.
pub proof fn lemma_render_from_shift(
    a: Seq<Step>,
    b: Seq<Step>,
    k: int,
    rules: Rules,
    d: Drawing,
    label: Option<Seq<char>>,
)
    requires
        0 <= k,
    ensures
        render_from(a + b, a.len() + k, rules, d, label) == render_from(b, k, rules, d, label),
    decreases b.len() - k,
{
    if k < b.len() {
        assert((a + b)[a.len() + k] == b[k]);
        let next = render_step(b[k], rules, d, label);
        let rest = if next.count > d.count {
            None
        } else {
            label
        };
        lemma_render_from_shift(a, b, k + 1, rules, next, rest);
    }
}

/// Case groups behind the first `a.len()` of `a + b` are drawn as in `b`.
pub proof fn lemma_render_cases_shift(
    a: Seq<(Seq<char>, Seq<Step>)>,
    b: Seq<(Seq<char>, Seq<Step>)>,
    k: int,
    rules: Rules,
    d: Drawing,
    head: nat,
)
    requires
        0 <= k,
    ensures
        render_cases(a + b, a.len() + k, rules, d, head) == render_cases(b, k, rules, d, head),
    decreases b.len() - k,
{
    if k < b.len() {
        assert((a + b)[a.len() + k] == b[k]);
        let group = render_from(
            b[k].1,
            0,
            rules,
            Drawing { frontier: seq![head], ..d },
            Some(b[k].0),
        );
        lemma_render_cases_shift(
            a,
            b,
            k + 1,
            rules,
            Drawing { frontier: d.frontier + group.frontier, ..group },
            head,
        );
    }
}

/// A step that draws a node is drawn as its pruned form is drawn without
/// any ignored names.
pub proof fn lemma_pruned_step(step: Step, rules: Rules, d: Drawing, label: Option<Seq<char>>)
    requires
        draws(step, rules),
    ensures
        render_step(step, rules, d, label) == render_step(
            pruned(step, rules),
            unfiltered(rules),
            d,
            label,
        ),
    decreases step,
{
    let plain = unfiltered(rules);
    let head = step_head(step, rules, d, label);
    match step {
        Step::Call { .. } => {},
        Step::Return { .. } => {},
        Step::Decision { yes_branch, no_branch, .. } => {
            lemma_pruned_from(yes_branch, 0, rules, head, Some("Yes"@));
            let yes = render_from(yes_branch, 0, rules, head, Some("Yes"@));
            lemma_pruned_from(
                no_branch,
                0,
                rules,
                Drawing { frontier: head.frontier, ..yes },
                Some("No"@),
            );
        },
        Step::Loop { body, .. } => {
            lemma_pruned_from(body, 0, rules, head, Some("loop body"@));
        },
        Step::Switch { cases, .. } => {
            lemma_pruned_cases(
                cases,
                0,
                rules,
                Drawing { frontier: Seq::empty(), ..head },
                head.count,
            );
        },
    }
}

/// Ignoring names removes all and only the calls that are left out: a
/// sequence of steps is drawn under `rules` as the same sequence without
/// those calls is drawn with no name ignored. Every other step, internal
/// or external, is drawn as before.
pub proof fn lemma_pruned_from(
    steps: Seq<Step>,
    from: int,
    rules: Rules,
    d: Drawing,
    label: Option<Seq<char>>,
)
    requires
        0 <= from,
    ensures
        render_from(steps, from, rules, d, label) == render_from(
            pruned_from(steps, from, rules),
            0,
            unfiltered(rules),
            d,
            label,
        ),
    decreases steps, steps.len() - from,
{
    let plain = unfiltered(rules);
    if from < steps.len() {
        let step = steps[from];
        let rest = pruned_from(steps, from + 1, rules);
        lemma_render_step_extends(step, rules, d, label);
        if draws(step, rules) {
            lemma_pruned_step(step, rules, d, label);
            let next = render_step(step, rules, d, label);
            let kept = seq![pruned(step, rules)];
            assert((kept + rest)[0] == pruned(step, rules));
            lemma_render_from_shift(kept, rest, 0, plain, next, None);
            lemma_pruned_from(steps, from + 1, rules, next, None);
        } else {
            lemma_pruned_from(steps, from + 1, rules, d, label);
        }
    }
}

/// The case groups of a switch are drawn under `rules` as the same groups
/// without the calls left out are drawn with no name ignored.
pub proof fn lemma_pruned_cases(
    cases: Seq<(Seq<char>, Seq<Step>)>,
    from: int,
    rules: Rules,
    d: Drawing,
    head: nat,
)
    requires
        0 <= from,
    ensures
        render_cases(cases, from, rules, d, head) == render_cases(
            pruned_cases(cases, from, rules),
            0,
            unfiltered(rules),
            d,
            head,
        ),
    decreases cases, cases.len() - from,
{
    let plain = unfiltered(rules);
    if from < cases.len() {
        let start = Drawing { frontier: seq![head], ..d };
        lemma_pruned_from(cases[from].1, 0, rules, start, Some(cases[from].0));
        let group = render_from(cases[from].1, 0, rules, start, Some(cases[from].0));
        let next = Drawing { frontier: d.frontier + group.frontier, ..group };
        let kept = seq![(cases[from].0, pruned_from(cases[from].1, 0, rules))];
        let rest = pruned_cases(cases, from + 1, rules);
        assert((kept + rest)[0] == kept[0]);
        lemma_render_cases_shift(kept, rest, 0, plain, next, head);
        lemma_pruned_cases(cases, from + 1, rules, next, head);
    }
}

/// Ignoring names removes from the diagram of a method all and only the
/// calls that are left out: the method is drawn as its steps without those
/// calls are drawn with no name ignored.
pub proof fn law_filter_removes_ignored_calls(
    name: Seq<char>,
    steps: Seq<Step>,
    rules: Rules,
    d: Drawing,
)
    ensures
        render_method(name, steps, rules, d) == render_method(
            name,
            pruned_from(steps, 0, rules),
            unfiltered(rules),
            d,
        ),
{
    let start = d.count + 1;
    let opened = Drawing {
        text: d.text + "  subgraph "@ + name + "\n"@ + "    direction TB\n"@ + node_line(
            start,
            "([\""@,
            name,
            "\"]):::public"@,
        ),
        count: start,
        frontier: seq![start],
    };
    lemma_pruned_from(steps, 0, rules, opened, None);
}

// ---------------------------------------------------------------------------
// Order
// ---------------------------------------------------------------------------

/// The steps of the nodes behind the first `a.len()` of `a + b` are those
/// of `b`.
pub proof fn lemma_flow_from_shift(
    a: Seq<SyntaxTree>,
    b: Seq<SyntaxTree>,
    k: int,
    src: Seq<char>,
    names: Set<Seq<char>>,
)
    requires
        0 <= k,
    ensures
        flow_from(a + b, a.len() + k, src, names) == flow_from(b, k, src, names),
    decreases b.len() - k,
{
    if k < b.len() {
        assert((a + b)[a.len() + k] == b[k]);
        lemma_flow_from_shift(a, b, k + 1, src, names);
    }
}

/// The steps of `a + b` from `k` on are the steps of `a` from `k` on, then
/// those of `b`.
pub proof fn lemma_flow_from_split(
    a: Seq<SyntaxTree>,
    b: Seq<SyntaxTree>,
    k: int,
    src: Seq<char>,
    names: Set<Seq<char>>,
)
    requires
        0 <= k <= a.len(),
    ensures
        flow_from(a + b, k, src, names) == flow_from(a, k, src, names) + flow_from(
            b,
            0,
            src,
            names,
        ),
    decreases a.len() - k,
{
    if k < a.len() {
        assert((a + b)[k] == a[k]);
        lemma_flow_from_split(a, b, k + 1, src, names);
        let here = if a[k].named {
            crate::extract::flow(a[k], src, names)
        } else {
            Seq::empty()
        };
        assert(here + (flow_from(a, k + 1, src, names) + flow_from(b, 0, src, names)) =~= (here
            + flow_from(a, k + 1, src, names)) + flow_from(b, 0, src, names));
    } else {
        lemma_flow_from_shift(a, b, 0, src, names);
        assert(Seq::<Step>::empty() + flow_from(b, 0, src, names) =~= flow_from(b, 0, src, names));
    }
}

/// Statements that stand one behind the other give their steps in that
/// order: the steps of `a + b` are the steps of `a`, then the steps of `b`.
pub proof fn law_steps_in_statement_order(
    a: Seq<SyntaxTree>,
    b: Seq<SyntaxTree>,
    src: Seq<char>,
    names: Set<Seq<char>>,
)
    ensures
        flow_from(a + b, 0, src, names) == flow_from(a, 0, src, names) + flow_from(
            b,
            0,
            src,
            names,
        ),
{
    lemma_flow_from_split(a, b, 0, src, names);
}

/// The callees of the nodes behind the first `a.len()` of `a + b` are
/// those of `b`.
pub proof fn lemma_local_calls_shift(
    a: Seq<SyntaxTree>,
    b: Seq<SyntaxTree>,
    k: int,
    src: Seq<char>,
    names: Set<Seq<char>>,
)
    requires
        0 <= k,
    ensures
        local_calls_from(a + b, a.len() + k, src, names) == local_calls_from(b, k, src, names),
    decreases b.len() - k,
{
    if k < b.len() {
        assert((a + b)[a.len() + k] == b[k]);
        lemma_local_calls_shift(a, b, k + 1, src, names);
    }
}

/// The callees of `a + b` from `k` on are the callees of `a` from `k` on,
/// then those of `b`.
pub proof fn lemma_local_calls_split(
    a: Seq<SyntaxTree>,
    b: Seq<SyntaxTree>,
    k: int,
    src: Seq<char>,
    names: Set<Seq<char>>,
)
    requires
        0 <= k <= a.len(),
    ensures
        local_calls_from(a + b, k, src, names) == local_calls_from(a, k, src, names)
            + local_calls_from(b, 0, src, names),
    decreases a.len() - k,
{
    if k < a.len() {
        assert((a + b)[k] == a[k]);
        lemma_local_calls_split(a, b, k + 1, src, names);
        let rest = local_calls_from(a, k + 1, src, names);
        let tail = local_calls_from(b, 0, src, names);
        let all = local_calls_from(a, k, src, names);
        assert(local_calls_from(a + b, k, src, names) =~= all + tail);
    } else {
        lemma_local_calls_shift(a, b, 0, src, names);
        assert(Seq::<Seq<char>>::empty() + local_calls_from(b, 0, src, names)
            =~= local_calls_from(b, 0, src, names));
    }
}

/// Statements that stand one behind the other give their callees in that
/// order: the callees of `a + b` are the callees of `a`, then those of `b`.
pub proof fn law_callees_in_statement_order(
    a: Seq<SyntaxTree>,
    b: Seq<SyntaxTree>,
    src: Seq<char>,
    names: Set<Seq<char>>,
)
    ensures
        local_calls_from(a + b, 0, src, names) == local_calls_from(a, 0, src, names)
            + local_calls_from(b, 0, src, names),
{
    lemma_local_calls_split(a, b, 0, src, names);
}

/// The case groups of the nodes behind the first `a.len()` of `a + b` are
/// those of `b`.
pub proof fn lemma_cases_from_shift(
    a: Seq<SyntaxTree>,
    b: Seq<SyntaxTree>,
    k: int,
    src: Seq<char>,
    names: Set<Seq<char>>,
)
    requires
        0 <= k,
    ensures
        cases_from(a + b, a.len() + k, src, names) == cases_from(b, k, src, names),
    decreases b.len() - k,
{
    if k < b.len() {
        assert((a + b)[a.len() + k] == b[k]);
        lemma_cases_from_shift(a, b, k + 1, src, names);
    }
}

/// The case groups of `a + b` from `k` on are those of `a` from `k` on,
/// then those of `b`.
pub proof fn lemma_cases_from_split(
    a: Seq<SyntaxTree>,
    b: Seq<SyntaxTree>,
    k: int,
    src: Seq<char>,
    names: Set<Seq<char>>,
)
    requires
        0 <= k <= a.len(),
    ensures
        cases_from(a + b, k, src, names) == cases_from(a, k, src, names) + cases_from(
            b,
            0,
            src,
            names,
        ),
    decreases a.len() - k,
{
    if k < a.len() {
        assert((a + b)[k] == a[k]);
        lemma_cases_from_split(a, b, k + 1, src, names);
        assert(cases_from(a + b, k, src, names) =~= cases_from(a, k, src, names) + cases_from(
            b,
            0,
            src,
            names,
        ));
    } else {
        lemma_cases_from_shift(a, b, 0, src, names);
        assert(Seq::<(Seq<char>, Seq<Step>)>::empty() + cases_from(b, 0, src, names)
            =~= cases_from(b, 0, src, names));
    }
}

/// The case groups of a switch keep their source order: the groups of
/// `a + b` are the groups of `a`, then the groups of `b`, each with its own
/// label and its own steps.
pub proof fn law_cases_in_source_order(
    a: Seq<SyntaxTree>,
    b: Seq<SyntaxTree>,
    src: Seq<char>,
    names: Set<Seq<char>>,
)
    ensures
        cases_from(a + b, 0, src, names) == cases_from(a, 0, src, names) + cases_from(
            b,
            0,
            src,
            names,
        ),
{
    lemma_cases_from_split(a, b, 0, src, names);
}

/// The case groups of `a + b` from `k` on are drawn as those of `a` from
/// `k` on, then those of `b`.
pub proof fn lemma_render_cases_split(
    a: Seq<(Seq<char>, Seq<Step>)>,
    b: Seq<(Seq<char>, Seq<Step>)>,
    k: int,
    rules: Rules,
    d: Drawing,
    head: nat,
)
    requires
        0 <= k <= a.len(),
    ensures
        render_cases(a + b, k, rules, d, head) == render_cases(
            b,
            0,
            rules,
            render_cases(a, k, rules, d, head),
            head,
        ),
    decreases a.len() - k,
{
    if k < a.len() {
        assert((a + b)[k] == a[k]);
        let group = render_from(
            a[k].1,
            0,
            rules,
            Drawing { frontier: seq![head], ..d },
            Some(a[k].0),
        );
        lemma_render_cases_split(
            a,
            b,
            k + 1,
            rules,
            Drawing { frontier: d.frontier + group.frontier, ..group },
            head,
        );
    } else {
        lemma_render_cases_shift(a, b, 0, rules, d, head);
    }
}

/// The case groups of a switch are drawn in their order, each behind the
/// switch node and under its own label: drawing the groups `a + b` is
/// drawing the groups `a`, then the groups `b`.
pub proof fn law_cases_drawn_in_order(
    a: Seq<(Seq<char>, Seq<Step>)>,
    b: Seq<(Seq<char>, Seq<Step>)>,
    rules: Rules,
    d: Drawing,
    head: nat,
)
    ensures
        render_cases(a + b, 0, rules, d, head) == render_cases(
            b,
            0,
            rules,
            render_cases(a, 0, rules, d, head),
            head,
        ),
{
    lemma_render_cases_split(a, b, 0, rules, d, head);
}

// ---------------------------------------------------------------------------
// Branches
// ---------------------------------------------------------------------------

/// Where the first of `steps` draws a node behind the single node `from`,
/// the edge from `from` to that node carries the label.
pub proof fn lemma_first_edge_labelled(
    steps: Seq<Step>,
    rules: Rules,
    d: Drawing,
    from: nat,
    label: Seq<char>,
)
    requires
        steps.len() > 0,
        draws(steps[0], rules),
        d.frontier == seq![from],
    ensures
        occurs_in(
            edge(from, Some(label), d.count + 1),
            render_from(steps, 0, rules, d, Some(label)).text,
        ),
{
    let step = steps[0];
    let head = step_head(step, rules, d, Some(label));
    let next = render_step(step, rules, d, Some(label));
    let line = edge(from, Some(label), d.count + 1);
    lemma_render_step_extends(step, rules, d, Some(label));
    lemma_render_from_extends(steps, 1, rules, next, None);
    assert(d.frontier.drop_last() =~= Seq::<nat>::empty());
    assert(edges(Seq::<nat>::empty(), Some(label), d.count + 1) =~= Seq::<char>::empty());
    assert(d.frontier.last() == from);
    assert(edges(d.frontier, Some(label), d.count + 1) =~= line);
    let before = d.text + node_line(
        d.count + 1,
        step_open(step),
        shown(step_text(step), step_line(step), rules.show_lines),
        step_close(step),
    ) + click(d.count + 1, step_offset(step));
    lemma_occurs_between(before, line, Seq::empty());
    assert(before + line + Seq::<char>::empty() =~= head.text);
    lemma_occurs_in_longer(line, head.text, next.text);
    lemma_occurs_in_longer(line, next.text, render_from(steps, 0, rules, d, Some(label)).text);
}

/// A decision is drawn with an edge labelled `Yes` into the first node of
/// its yes-branch and an edge labelled `No` into the first node of its
/// no-branch, and both branches meet behind it: the frontier is made of
/// the nodes at which the yes-branch ends, then those at which the
/// no-branch ends.
pub proof fn law_decision_branches(step: Step, rules: Rules, d: Drawing, label: Option<Seq<char>>)
    requires
        step is Decision,
    ensures
        ({
            let out = render_step(step, rules, d, label);
            let head = step_head(step, rules, d, label);
            let yes = render_from(step->yes_branch, 0, rules, head, Some("Yes"@));
            let no = render_from(
                step->no_branch,
                0,
                rules,
                Drawing { frontier: head.frontier, ..yes },
                Some("No"@),
            );
            &&& out.frontier == yes.frontier + no.frontier
            &&& step->yes_branch.len() > 0 && draws(step->yes_branch[0], rules) ==> occurs_in(
                edge(head.count, Some("Yes"@), head.count + 1),
                out.text,
            )
            &&& step->no_branch.len() > 0 && draws(step->no_branch[0], rules) ==> occurs_in(
                edge(head.count, Some("No"@), yes.count + 1),
                out.text,
            )
        }),
{
    let out = render_step(step, rules, d, label);
    let head = step_head(step, rules, d, label);
    let yes = render_from(step->yes_branch, 0, rules, head, Some("Yes"@));
    let again = Drawing { frontier: head.frontier, ..yes };
    let no = render_from(step->no_branch, 0, rules, again, Some("No"@));
    lemma_render_from_extends(step->no_branch, 0, rules, again, Some("No"@));
    if step->yes_branch.len() > 0 && draws(step->yes_branch[0], rules) {
        lemma_first_edge_labelled(step->yes_branch, rules, head, head.count, "Yes"@);
        lemma_occurs_in_longer(edge(head.count, Some("Yes"@), head.count + 1), yes.text, no.text);
    }
    if step->no_branch.len() > 0 && draws(step->no_branch[0], rules) {
        lemma_first_edge_labelled(step->no_branch, rules, again, head.count, "No"@);
    }
}

// ---------------------------------------------------------------------------
// Classification
// ---------------------------------------------------------------------------

/// An invocation is internal exactly if it has no receiver and names a
/// declared method, or its receiver is `this`; every other invocation is
/// external. An internal call is labelled with the invoked name, an
/// external one with `External: ` and the whole invocation. A service is
/// recorded for an external call with a receiver, and for no other call.
pub proof fn law_classification(node: SyntaxTree, src: Seq<char>, names: Set<Seq<char>>)
    requires
        is_invocation(node),
    ensures
        ({
            let step = call_of(node, src, names);
            let internal = (field_node(node, "object"@) is None && names.contains(
                call_name(node, src),
            )) || on_this(node, src);
            &&& step is Call
            &&& step->is_external == !internal
            &&& internal ==> step_text(step) == crate::text::unquoted(call_name(node, src))
                && step_close(step) == "\"]:::internal"@
            &&& !internal ==> step_text(step) == crate::text::unquoted(
                "External: "@ + node.text(src),
            ) && step_close(step) == "\"]:::external"@
            &&& step->service is Some <==> !internal && field_node(node, "object"@) is Some
        }),
{
}

/// Under the rules of the default settings no call is left out: their two
/// ignored names hold a dot, and the service of a call of a syntax tree
/// holds none.
pub proof fn law_default_rules_keep_calls(node: SyntaxTree, src: Seq<char>, names: Set<Seq<char>>)
    requires
        is_invocation(node),
    ensures
        draws(call_of(node, src, names), crate::parser::default_rules()),
{
    let step = call_of(node, src, names);
    if step->service is Some {
        let o = field_node(node, "object"@)->0;
        lemma_before_dot_has_no_dot(o.text(src));
        let p = before_dot(o.text(src));
        reveal_strlit("System.out");
        reveal_strlit("System.err");
        if p == "System.out"@ {
            assert(p[6] == '.');
        }
        if p == "System.err"@ {
            assert(p[6] == '.');
        }
    }
}

/// The text before the first dot holds no dot.
pub proof fn lemma_before_dot_has_no_dot(s: Seq<char>)
    ensures
        !before_dot(s).contains('.'),
    decreases s.len(),
{
    if s.len() > 0 && s[0] != '.' {
        lemma_before_dot_has_no_dot(s.drop_first());
        let rest = before_dot(s.drop_first());
        let all = before_dot(s);
        if all.contains('.') {
            let i = choose|i: int| 0 <= i < all.len() && all[i] == '.';
            assert(all == seq![s[0]] + rest);
            if i > 0 {
                assert(rest[i - 1] == '.');
                assert(rest.contains('.'));
            }
        }
    }
}

} // verus!
