//! The diagram of a call graph: which methods it shows, how much it may
//! draw, which external services it reports, and the whole markup.
use vstd::prelude::*;
use vstd::string::*;
use crate::diagram::{
    footer,
    header,
    node_line,
    render_method,
    weight,
    weight_from,
    weight_of_cases,
    Drawing,
    Rules,
};
use crate::graph::CallGraph;
use crate::model::{cases_view, steps_view, FlowStep, MethodNode, Step};
use crate::render::{ignored_names, nats, FlowGenerator};
use crate::text::{same_text, texts};

verus! {

// ---------------------------------------------------------------------------
// Target selection
// ---------------------------------------------------------------------------

/// Whether a method is shown when no method is asked for: one of its
/// modifiers is `public` or `protected`.
pub open spec fn is_eligible(m: MethodNode) -> bool {
    texts(m.modifiers@).contains("public"@) || texts(m.modifiers@).contains("protected"@)
}

/// The names among `keys[from..]` whose method is eligible, in order.
pub open spec fn eligible_from(keys: Seq<Seq<char>>, values: Seq<MethodNode>, from: int) -> Seq<
    Seq<char>,
>
    decreases keys.len() - from,
{
    if from < 0 || from >= keys.len() || from >= values.len() {
        Seq::empty()
    } else {
        let here = if is_eligible(values[from]) {
            seq![keys[from]]
        } else {
            Seq::empty()
        };
        here + eligible_from(keys, values, from + 1)
    }
}

/// The methods that a diagram shows: the one asked for, if the graph has
/// it; otherwise every eligible method, in ascending order of the names.
pub open spec fn targets(graph: CallGraph, method: Option<Seq<char>>) -> Seq<Seq<char>> {
    match method {
        Some(name) => if graph.nodes.has(name) {
            seq![name]
        } else {
            eligible_from(graph.nodes.keys(), graph.nodes.values(), 0)
        },
        None => eligible_from(graph.nodes.keys(), graph.nodes.values(), 0),
    }
}

/// Whether a list of texts holds `word`.
pub fn has_word(list: &Vec<String>, word: &str) -> (b: bool)
    ensures
        b == texts(list@).contains(word@),
{
    let mut i: usize = 0;
    while i < list.len()
        invariant
            i <= list.len(),
            forall|j: int| 0 <= j < i ==> #[trigger] texts(list@)[j] != word@,
        decreases list.len() - i,
    {
        if same_text(list[i].as_str(), word) {
            assert(texts(list@)[i as int] == word@);
            return true;
        }
        i += 1;
    }
    false
}

/// Computes `targets`.
pub fn select_targets(graph: &CallGraph, method_name: &Option<String>) -> (r: Vec<String>)
    ensures
        texts(r@) == targets(
            *graph,
            match method_name {
                Some(name) => Some(name@),
                None => None,
            },
        ),
{
    let mut r: Vec<String> = Vec::new();
    match method_name {
        Some(name) => {
            if graph.nodes.contains_key(name.as_str()) {
                r.push(name.clone());
                assert(texts(r@) =~= seq![name@]);
                return r;
            }
        },
        None => {},
    }
    let n = graph.nodes.len();
    let ghost keys = graph.nodes.keys();
    let ghost values = graph.nodes.values();
    let ghost mut done: Seq<Seq<char>> = Seq::empty();
    proof {
        assert(texts(r@) =~= done);
        assert(done + eligible_from(keys, values, 0) =~= eligible_from(keys, values, 0));
    }
    let mut i: usize = 0;
    while i < n
        invariant
            i <= n,
            n == keys.len(),
            n == values.len(),
            graph.nodes.wf(),
            keys == graph.nodes.keys(),
            values == graph.nodes.values(),
            texts(r@) == done,
            eligible_from(keys, values, 0) == done + eligible_from(keys, values, i as int),
        decreases n - i,
    {
        let node = graph.nodes.value_at(i);
        let ghost here: Seq<Seq<char>>;
        if has_word(&node.modifiers, "public") || has_word(&node.modifiers, "protected") {
            let key = graph.nodes.key_at(i).clone();
            proof {
                here = seq![key@];
                assert(texts(r@.push(key)) =~= done + here);
            }
            r.push(key);
        } else {
            proof {
                here = Seq::empty();
                assert(done + here =~= done);
            }
        }
        proof {
            assert(done + (here + eligible_from(keys, values, i + 1)) =~= (done + here)
                + eligible_from(keys, values, i + 1));
            done = done + here;
        }
        i += 1;
    }
    proof {
        assert(done + Seq::<Seq<char>>::empty() =~= done);
    }
    r
}

// ---------------------------------------------------------------------------
// Flows and their weight
// ---------------------------------------------------------------------------

/// The steps that the graph holds for the method `name`; none where it
/// holds no flow for it.
pub open spec fn flow_for(graph: CallGraph, name: Seq<char>) -> Seq<Step> {
    if graph.flows.has(name) {
        steps_view(graph.flows.at(name)@)
    } else {
        Seq::empty()
    }
}

/// A number of nodes, cut off at the greatest `usize`.
pub open spec fn capped(n: nat) -> usize {
    if n >= usize::MAX {
        usize::MAX
    } else {
        n as usize
    }
}

/// The sum of two numbers of nodes, cut off at the greatest `usize`.
fn add_capped(a: usize, b: usize) -> (r: usize)
    ensures
        r == capped((a + b) as nat),
{
    if a > usize::MAX - b {
        usize::MAX
    } else {
        a + b
    }
}

/// Computes `weight`, cut off at the greatest `usize`.
fn step_weight(step: &FlowStep) -> (w: usize)
    ensures
        w == capped(weight(step@)),
    decreases step,
{
    match step {
        FlowStep::Call { .. } => 1,
        FlowStep::Return { .. } => 1,
        FlowStep::Decision { yes_branch, no_branch, .. } => {
            let y = flow_weight(yes_branch);
            let n = flow_weight(no_branch);
            add_capped(1, add_capped(y, n))
        },
        FlowStep::Loop { body, .. } => add_capped(1, flow_weight(body)),
        FlowStep::Switch { cases, .. } => {
            let ghost view = cases_view(cases@);
            let mut total: usize = 0;
            let mut i: usize = cases.len();
            while i > 0
                invariant
                    i <= cases.len(),
                    step is Switch,
                    step->cases == cases,
                    view == cases_view(cases@),
                    total == capped(weight_of_cases(view, i as int)),
                decreases i,
            {
                i -= 1;
                assert(view[i as int].1 == steps_view(cases@[i as int].1@));
                total = add_capped(flow_weight(&cases[i].1), total);
            }
            add_capped(1, total)
        },
    }
}

/// Computes `weight_from`, cut off at the greatest `usize`.
pub fn flow_weight(steps: &Vec<FlowStep>) -> (w: usize)
    ensures
        w == capped(weight_from(steps_view(steps@), 0)),
    decreases steps,
{
    let ghost view = steps_view(steps@);
    let mut total: usize = 0;
    let mut i: usize = steps.len();
    while i > 0
        invariant
            i <= steps.len(),
            view == steps_view(steps@),
            total == capped(weight_from(view, i as int)),
        decreases i,
    {
        i -= 1;
        assert(view[i as int] == steps@[i as int]@);
        total = add_capped(step_weight(&steps[i]), total);
    }
    total
}

/// The greatest number of nodes that the methods `names[from..]` can draw,
/// each with its start and end node.
pub open spec fn total_weight(graph: CallGraph, names: Seq<Seq<char>>, from: int) -> nat
    decreases names.len() - from,
{
    if from < 0 || from >= names.len() {
        0
    } else {
        2 + weight_from(flow_for(graph, names[from]), 0) + total_weight(graph, names, from + 1)
    }
}

/// Computes `total_weight`, cut off at the greatest `usize`.
pub fn targets_weight(graph: &CallGraph, names: &Vec<String>) -> (w: usize)
    ensures
        w == capped(total_weight(*graph, texts(names@), 0)),
{
    let ghost all = texts(names@);
    let mut total: usize = 0;
    let mut i: usize = names.len();
    while i > 0
        invariant
            i <= names.len(),
            all == texts(names@),
            total == capped(total_weight(*graph, all, i as int)),
        decreases i,
    {
        i -= 1;
        let own = match graph.flows.get(names[i].as_str()) {
            Some(steps) => flow_weight(steps),
            None => 0,
        };
        assert(all[i as int] == names@[i as int]@);
        total = add_capped(add_capped(2, own), total);
    }
    total
}

// ---------------------------------------------------------------------------
// External services
// ---------------------------------------------------------------------------

/// `seen` with `name` behind it, unless it holds `name` already.
pub open spec fn with_unique(seen: Seq<Seq<char>>, name: Seq<char>) -> Seq<Seq<char>> {
    if seen.contains(name) {
        seen
    } else {
        seen.push(name)
    }
}

/// `seen`, grown by the service of each external call in `step`
/// that it does not hold yet.
pub open spec fn noted(step: Step, seen: Seq<Seq<char>>) -> Seq<Seq<char>>
    decreases step,
{
    match step {
        Step::Call { is_external, service, .. } => if is_external {
            match service {
                Some(p) => with_unique(seen, p),
                None => seen,
            }
        } else {
            seen
        },
        Step::Return { .. } => seen,
        Step::Decision { yes_branch, no_branch, .. } => noted_from(
            no_branch,
            0,
            noted_from(yes_branch, 0, seen),
        ),
        Step::Loop { body, .. } => noted_from(body, 0, seen),
        Step::Switch { cases, .. } => noted_in_cases(cases, 0, seen),
    }
}

/// `seen`, grown by the services in `steps[from..]`.
pub open spec fn noted_from(steps: Seq<Step>, from: int, seen: Seq<Seq<char>>) -> Seq<Seq<char>>
    decreases steps, steps.len() - from,
{
    if from < 0 || from >= steps.len() {
        seen
    } else {
        noted_from(steps, from + 1, noted(steps[from], seen))
    }
}

/// `seen`, grown by the services in the groups `cases[from..]`.
pub open spec fn noted_in_cases(
    cases: Seq<(Seq<char>, Seq<Step>)>,
    from: int,
    seen: Seq<Seq<char>>,
) -> Seq<Seq<char>>
    decreases cases, cases.len() - from,
{
    if from < 0 || from >= cases.len() {
        seen
    } else {
        noted_in_cases(cases, from + 1, noted_from(cases[from].1, 0, seen))
    }
}

/// The external services of the methods `names[from..]`: the service of
/// each of their external calls that has one, each once, in the order of
/// first occurrence, behind those of `seen`.
pub open spec fn services_from(
    graph: CallGraph,
    names: Seq<Seq<char>>,
    from: int,
    seen: Seq<Seq<char>>,
) -> Seq<Seq<char>>
    decreases names.len() - from,
{
    if from < 0 || from >= names.len() {
        seen
    } else {
        services_from(
            graph,
            names,
            from + 1,
            noted_from(flow_for(graph, names[from]), 0, seen),
        )
    }
}

/// Puts `name` behind `seen`, unless it holds `name` already.
fn note_unique(seen: &mut Vec<String>, name: String)
    ensures
        texts(final(seen)@) == with_unique(texts(old(seen)@), name@),
{
    if !has_word(seen, name.as_str()) {
        let ghost before = texts(seen@);
        seen.push(name);
        assert(texts(seen@) =~= before.push(name@));
    }
}

/// Computes `noted`.
fn note_step(step: &FlowStep, seen: &mut Vec<String>)
    ensures
        texts(final(seen)@) == noted(step@, texts(old(seen)@)),
    decreases step,
{
    match step {
        FlowStep::Call { is_external, service, .. } => {
            if *is_external {
                match service {
                    Some(name) => note_unique(seen, name.clone()),
                    None => {},
                }
            }
        },
        FlowStep::Return { .. } => {},
        FlowStep::Decision { yes_branch, no_branch, .. } => {
            note_steps(yes_branch, seen);
            note_steps(no_branch, seen);
        },
        FlowStep::Loop { body, .. } => {
            note_steps(body, seen);
        },
        FlowStep::Switch { cases, .. } => {
            let ghost view = cases_view(cases@);
            let ghost first = texts(seen@);
            let mut i: usize = 0;
            while i < cases.len()
                invariant
                    i <= cases.len(),
                    step is Switch,
                    step->cases == cases,
                    view == cases_view(cases@),
                    noted_in_cases(view, 0, first) == noted_in_cases(
                        view,
                        i as int,
                        texts(seen@),
                    ),
                decreases cases.len() - i,
            {
                assert(view[i as int].1 == steps_view(cases@[i as int].1@));
                note_steps(&cases[i].1, seen);
                i += 1;
            }
        },
    }
}

/// Computes `noted_from`.
fn note_steps(steps: &Vec<FlowStep>, seen: &mut Vec<String>)
    ensures
        texts(final(seen)@) == noted_from(steps_view(steps@), 0, texts(old(seen)@)),
    decreases steps,
{
    let ghost view = steps_view(steps@);
    let ghost first = texts(seen@);
    let mut i: usize = 0;
    while i < steps.len()
        invariant
            i <= steps.len(),
            view == steps_view(steps@),
            noted_from(view, 0, first) == noted_from(view, i as int, texts(seen@)),
        decreases steps.len() - i,
    {
        assert(view[i as int] == steps@[i as int]@);
        note_step(&steps[i], seen);
        i += 1;
    }
}

/// The external services of the methods `names`.
pub fn collect_services(graph: &CallGraph, names: &Vec<String>) -> (r: Vec<String>)
    ensures
        texts(r@) == services_from(*graph, texts(names@), 0, Seq::empty()),
{
    let ghost all = texts(names@);
    let mut seen: Vec<String> = Vec::new();
    assert(texts(seen@) =~= Seq::<Seq<char>>::empty());
    let mut i: usize = 0;
    while i < names.len()
        invariant
            i <= names.len(),
            all == texts(names@),
            services_from(*graph, all, 0, Seq::empty()) == services_from(
                *graph,
                all,
                i as int,
                texts(seen@),
            ),
        decreases names.len() - i,
    {
        assert(all[i as int] == names@[i as int]@);
        match graph.flows.get(names[i].as_str()) {
            Some(steps) => {
                note_steps(steps, &mut seen);
            },
            None => {},
        }
        i += 1;
    }
    seen
}

// ---------------------------------------------------------------------------
// The whole diagram
// ---------------------------------------------------------------------------

/// The drawing after the subgraphs of the methods `names[from..]`.
pub open spec fn render_methods(
    graph: CallGraph,
    names: Seq<Seq<char>>,
    from: int,
    rules: Rules,
    d: Drawing,
) -> Drawing
    decreases names.len() - from,
{
    if from < 0 || from >= names.len() {
        d
    } else {
        render_methods(
            graph,
            names,
            from + 1,
            rules,
            render_method(names[from], flow_for(graph, names[from]), rules, d),
        )
    }
}

/// The drawing after one placeholder node for each of the methods
/// `names[from..]`.
pub open spec fn render_overview(names: Seq<Seq<char>>, from: int, d: Drawing) -> Drawing
    decreases names.len() - from,
{
    if from < 0 || from >= names.len() {
        d
    } else {
        let n = d.count + 1;
        render_overview(
            names,
            from + 1,
            Drawing {
                text: d.text + node_line(n, "([\""@, names[from], "\"]):::public"@),
                count: n,
                frontier: d.frontier,
            },
        )
    }
}

/// The drawing with which every diagram starts.
pub open spec fn blank() -> Drawing {
    Drawing { text: header(), count: 0, frontier: Seq::empty() }
}

/// The markup of the diagram of `graph`. With `collapse` and no method
/// asked for it is an overview, one node for each method shown; otherwise
/// each method shown is drawn in full.
pub open spec fn diagram(
    graph: CallGraph,
    method: Option<Seq<char>>,
    rules: Rules,
    collapse: bool,
) -> Seq<char> {
    let names = targets(graph, method);
    if collapse && method is None {
        render_overview(names, 0, blank()).text + footer()
    } else {
        render_methods(graph, names, 0, rules, blank()).text + footer()
    }
}

/// Whether the diagram of `graph` can be numbered: in full, the methods
/// shown draw fewer nodes than the greatest `usize`.
pub open spec fn fits(graph: CallGraph, method: Option<Seq<char>>, collapse: bool) -> bool {
    (collapse && method is None) || total_weight(graph, targets(graph, method), 0) < usize::MAX
}

/// Writes one placeholder node for each method of `names`.
fn write_overview(generator: &mut FlowGenerator, names: &Vec<String>)
    requires
        old(generator).node_counter == 0,
    ensures
        final(generator).drawing(Seq::empty()) == render_overview(
            texts(names@),
            0,
            old(generator).drawing(Seq::empty()),
        ),
{
    let ghost all = texts(names@);
    let ghost first = generator.drawing(Seq::empty());
    let mut i: usize = 0;
    while i < names.len()
        invariant
            i <= names.len(),
            all == texts(names@),
            generator.node_counter == i,
            render_overview(all, 0, first) == render_overview(
                all,
                i as int,
                generator.drawing(Seq::empty()),
            ),
        decreases names.len() - i,
    {
        let ghost before = generator.output@;
        let id = generator.next_id();
        generator.output.append("    ");
        generator.output.append(id.as_str());
        generator.output.append("([\"");
        generator.output.append(names[i].as_str());
        generator.output.append("\"]):::public");
        generator.output.append("\n");
        proof {
            assert(all[i as int] == names@[i as int]@);
            assert(generator.output@ =~= before + node_line(
                (i + 1) as nat,
                "([\""@,
                all[i as int],
                "\"]):::public"@,
            ));
        }
        i += 1;
    }
}

/// Writes the subgraph of each method of `names`.
fn write_methods(generator: &mut FlowGenerator, graph: &CallGraph, names: &Vec<String>)
    requires
        old(generator).node_counter + total_weight(*graph, texts(names@), 0) <= usize::MAX,
    ensures
        final(generator).drawing(Seq::empty()) == render_methods(
            *graph,
            texts(names@),
            0,
            old(generator).rules(),
            old(generator).drawing(Seq::empty()),
        ),
{
    let ghost all = texts(names@);
    let ghost rules = generator.rules();
    let ghost first = generator.drawing(Seq::empty());
    let none: Vec<FlowStep> = Vec::new();
    assert(steps_view(none@) =~= Seq::<Step>::empty());
    let mut i: usize = 0;
    while i < names.len()
        invariant
            i <= names.len(),
            all == texts(names@),
            rules == generator.rules(),
            steps_view(none@) == Seq::<Step>::empty(),
            generator.node_counter + total_weight(*graph, all, i as int) <= usize::MAX,
            render_methods(*graph, all, 0, rules, first) == render_methods(
                *graph,
                all,
                i as int,
                rules,
                generator.drawing(Seq::empty()),
            ),
        decreases names.len() - i,
    {
        assert(all[i as int] == names@[i as int]@);
        let steps = match graph.flows.get(names[i].as_str()) {
            Some(steps) => steps,
            None => &none,
        };
        generator.generate_method_flow(names[i].as_str(), steps);
        i += 1;
    }
}

/// Writes the style classes that close a diagram.
fn write_footer(output: &mut String)
    ensures
        final(output)@ == old(output)@ + footer(),
{
    let ghost before = output@;
    output.append("  classDef public fill:#f9f,stroke:#333,stroke-width:2px;\n");
    output.append("  classDef internal fill:#e1f5fe,stroke:#01579b,stroke-width:1px;\n");
    output.append(
        "  classDef external fill:#ffe0b2,stroke:#e65100,stroke-width:1px,stroke-dasharray: 5 5;\n",
    );
    output.append(
        "  classDef decision fill:#fff9c4,stroke:#fbc02d,stroke-width:1px,shape:rhombus;\n",
    );
    output.append("  classDef loop fill:#e8f5e9,stroke:#2e7d32,stroke-width:1px;\n");
    output.append("  classDef endNode fill:#fce4ec,stroke:#c62828,stroke-width:2px;\n");
    assert(output@ =~= before + footer());
}

/// Writes the diagram of `graph` for the methods `names`.
pub fn draw(
    graph: &CallGraph,
    names: &Vec<String>,
    overview: bool,
    ignored_variables: &[String],
    ignored_services: &[String],
    show_source_reference: bool,
) -> (text: String)
    requires
        overview || total_weight(*graph, texts(names@), 0) < usize::MAX,
    ensures
        text@ == (if overview {
            render_overview(texts(names@), 0, blank())
        } else {
            render_methods(
                *graph,
                texts(names@),
                0,
                Rules {
                    ignored: ignored_names(ignored_variables@, ignored_services@),
                    show_lines: show_source_reference,
                },
                blank(),
            )
        }).text + footer(),
{
    let mut generator = FlowGenerator::new(
        ignored_variables,
        ignored_services,
        show_source_reference,
    );
    generator.output.append("flowchart TD\n");
    proof {
        assert(generator.output@ =~= header());
        assert(nats(Seq::<usize>::empty()) =~= Seq::<nat>::empty());
        assert(generator.drawing(Seq::empty()) == blank());
    }
    if overview {
        write_overview(&mut generator, names);
    } else {
        write_methods(&mut generator, graph, names);
    }
    let mut text = generator.output;
    write_footer(&mut text);
    text
}

} // verus!
