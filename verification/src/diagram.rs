//! The flowchart markup of a call graph, as a mathematical definition: what
//! text a rendering must produce, line by line.
use vstd::prelude::*;
use crate::model::Step;
use crate::text::{decimal, unquoted};

verus! {

/// What rendering depends on besides the graph: the receiver names whose
/// calls are left out, and whether labels carry their source line.
pub struct Rules {
    pub ignored: Set<Seq<char>>,
    pub show_lines: bool,
}

/// A diagram under construction.
pub struct Drawing {
    /// The markup written so far.
    pub text: Seq<char>,
    /// The number of nodes drawn so far; the last one has this number.
    pub count: nat,
    /// The nodes whose outgoing edge has not been drawn yet.
    pub frontier: Seq<nat>,
}

/// The identifier of the node with number `n`.
pub open spec fn node_id(n: nat) -> Seq<char> {
    "N"@ + decimal(n)
}

/// The arrow of an edge, with its label if it has one.
pub open spec fn arrow(label: Option<Seq<char>>) -> Seq<char> {
    match label {
        Some(l) => "-->|"@ + l + "|"@,
        None => "-->"@,
    }
}

/// The line of one edge.
pub open spec fn edge(from: nat, label: Option<Seq<char>>, to: nat) -> Seq<char> {
    "    "@ + node_id(from) + " "@ + arrow(label) + " "@ + node_id(to) + "\n"@
}

/// One edge from each node of `frontier` to `to`, all with the same label.
pub open spec fn edges(frontier: Seq<nat>, label: Option<Seq<char>>, to: nat) -> Seq<char>
    decreases frontier.len(),
{
    if frontier.len() == 0 {
        Seq::empty()
    } else {
        edges(frontier.drop_last(), label, to) + edge(frontier.last(), label, to)
    }
}

/// The line of one dashed edge back to a loop's header.
pub open spec fn repeat_edge(from: nat, to: nat) -> Seq<char> {
    "    "@ + node_id(from) + " -.->|repeat| "@ + node_id(to) + "\n"@
}

/// One dashed edge to `to` from each node of `exits` other than `to`.
pub open spec fn repeat_edges(exits: Seq<nat>, to: nat) -> Seq<char>
    decreases exits.len(),
{
    if exits.len() == 0 {
        Seq::empty()
    } else if exits.last() == to {
        repeat_edges(exits.drop_last(), to)
    } else {
        repeat_edges(exits.drop_last(), to) + repeat_edge(exits.last(), to)
    }
}

/// The line that lets a click on node `n` lead to the byte `offset` of the
/// source.
pub open spec fn click(n: nat, offset: usize) -> Seq<char> {
    "    click "@ + node_id(n) + " call onNodeClick(\"offset-"@ + decimal(offset as nat)
        + "\") \"Scroll to source\"\n"@
}

/// A label as it is shown: followed by ` (L<line>)` where lines are shown.
pub open spec fn shown(label: Seq<char>, line: usize, show_lines: bool) -> Seq<char> {
    if show_lines {
        label + " (L"@ + decimal(line as nat) + ")"@
    } else {
        label
    }
}

/// The line that declares node `n` with the text `text` between the
/// brackets `open` and `close`.
pub open spec fn node_line(n: nat, open: Seq<char>, text: Seq<char>, close: Seq<char>) -> Seq<
    char,
> {
    "    "@ + node_id(n) + open + text + close + "\n"@
}

/// The drawing after one more node: its declaration, its click line, and an
/// edge to it from each node of the frontier; the new node becomes the
/// frontier.
pub open spec fn entered(
    d: Drawing,
    open: Seq<char>,
    text: Seq<char>,
    close: Seq<char>,
    offset: usize,
    label: Option<Seq<char>>,
) -> Drawing {
    let n = d.count + 1;
    Drawing {
        text: d.text + node_line(n, open, text, close) + click(n, offset) + edges(
            d.frontier,
            label,
            n,
        ),
        count: n,
        frontier: seq![n],
    }
}

/// Whether a call step is left out of the diagram: an external call whose
/// service, the receiver's text before its first dot, is an ignored name.
/// A call without a receiver is never left out.
pub open spec fn suppressed(service: Option<Seq<char>>, is_external: bool, rules: Rules) -> bool {
    is_external && match service {
        Some(p) => rules.ignored.contains(p),
        None => false,
    }
}

/// The text of a call's node: the name of an internal call, `External: `
/// and the whole invocation for an external one.
pub open spec fn call_text(name: Seq<char>, raw_text: Seq<char>, is_external: bool) -> Seq<char> {
    if is_external {
        unquoted("External: "@ + raw_text)
    } else {
        unquoted(name)
    }
}

/// The closing bracket and style class of a call's node.
pub open spec fn call_close(is_external: bool) -> Seq<char> {
    if is_external {
        "\"]:::external"@
    } else {
        "\"]:::internal"@
    }
}

/// The drawing after the step `step`, drawn behind the frontier of `d`
/// with `label` on the edges into its first node.
pub open spec fn render_step(step: Step, rules: Rules, d: Drawing, label: Option<Seq<char>>) -> Drawing
    decreases step,
{
    match step {
        Step::Call { name, is_external, raw_text, service, offset, line } => {
            if suppressed(service, is_external, rules) {
                d
            } else {
                entered(
                    d,
                    "[\""@,
                    shown(call_text(name, raw_text, is_external), line, rules.show_lines),
                    call_close(is_external),
                    offset,
                    label,
                )
            }
        },
        Step::Return { label: text, offset, line } => entered(
            d,
            "[\""@,
            shown(text, line, rules.show_lines),
            "\"]"@,
            offset,
            label,
        ),
        Step::Decision { label: text, offset, line, yes_branch, no_branch } => {
            let head = entered(
                d,
                "{\""@,
                shown(text, line, rules.show_lines),
                "\"}:::decision"@,
                offset,
                label,
            );
            let yes = render_from(yes_branch, 0, rules, head, Some("Yes"@));
            let no = render_from(
                no_branch,
                0,
                rules,
                Drawing { frontier: head.frontier, ..yes },
                Some("No"@),
            );
            Drawing { frontier: yes.frontier + no.frontier, ..no }
        },
        Step::Loop { label: text, offset, line, body } => {
            let head = entered(
                d,
                "{{\""@,
                shown(text, line, rules.show_lines),
                "\"}}:::loop"@,
                offset,
                label,
            );
            let inner = render_from(body, 0, rules, head, Some("loop body"@));
            Drawing {
                text: inner.text + repeat_edges(inner.frontier, head.count),
                count: inner.count,
                frontier: head.frontier,
            }
        },
        Step::Switch { label: text, offset, line, cases } => {
            let head = entered(
                d,
                "{\""@,
                shown(text, line, rules.show_lines),
                "\"}:::decision"@,
                offset,
                label,
            );
            let done = render_cases(
                cases,
                0,
                rules,
                Drawing { frontier: Seq::empty(), ..head },
                head.count,
            );
            if done.count == head.count {
                Drawing { frontier: head.frontier, ..done }
            } else {
                done
            }
        },
    }
}

/// The drawing after the steps `steps[from..]`, drawn in order. The label
/// goes to the first step that draws a node.
pub open spec fn render_from(
    steps: Seq<Step>,
    from: int,
    rules: Rules,
    d: Drawing,
    label: Option<Seq<char>>,
) -> Drawing
    decreases steps, steps.len() - from,
{
    if from < 0 || from >= steps.len() {
        d
    } else {
        let next = render_step(steps[from], rules, d, label);
        let rest = if next.count > d.count {
            None
        } else {
            label
        };
        render_from(steps, from + 1, rules, next, rest)
    }
}

/// The drawing after the case groups `cases[from..]` of the switch with
/// number `head`: each group is drawn behind the switch node under its own
/// label, and the frontier of `d` grows by the exits of each.
pub open spec fn render_cases(
    cases: Seq<(Seq<char>, Seq<Step>)>,
    from: int,
    rules: Rules,
    d: Drawing,
    head: nat,
) -> Drawing
    decreases cases, cases.len() - from,
{
    if from < 0 || from >= cases.len() {
        d
    } else {
        let group = render_from(
            cases[from].1,
            0,
            rules,
            Drawing { frontier: seq![head], ..d },
            Some(cases[from].0),
        );
        render_cases(
            cases,
            from + 1,
            rules,
            Drawing { frontier: d.frontier + group.frontier, ..group },
            head,
        )
    }
}

/// The markup of one method with the steps `steps`: a subgraph that opens
/// with the start node, holds the steps, and closes with the end node, to
/// which every node of the last frontier leads.
pub open spec fn render_method(name: Seq<char>, steps: Seq<Step>, rules: Rules, d: Drawing) -> Drawing {
    let start = d.count + 1;
    let opened = Drawing {
        text: d.text + "  subgraph "@ + name + "\n"@ + "    direction TB\n"@ + node_line(
            start,
            "([\""@,
            name,
            "\"]):::public"@,
        ),
        count: start,
        frontier: seq![start],
    };
    let body = render_from(steps, 0, rules, opened, None);
    let end = body.count + 1;
    Drawing {
        text: body.text + edges(body.frontier, None, end) + node_line(
            end,
            "([\"End of "@,
            name,
            "\"]):::endNode"@,
        ) + "  end\n"@,
        count: end,
        frontier: Seq::empty(),
    }
}

/// The first line of every diagram.
pub open spec fn header() -> Seq<char> {
    "flowchart TD\n"@
}

/// The style classes that close every diagram.
pub open spec fn footer() -> Seq<char> {
    "  classDef public fill:#f9f,stroke:#333,stroke-width:2px;\n"@
        + "  classDef internal fill:#e1f5fe,stroke:#01579b,stroke-width:1px;\n"@
        + "  classDef external fill:#ffe0b2,stroke:#e65100,stroke-width:1px,stroke-dasharray: 5 5;\n"@
        + "  classDef decision fill:#fff9c4,stroke:#fbc02d,stroke-width:1px,shape:rhombus;\n"@
        + "  classDef loop fill:#e8f5e9,stroke:#2e7d32,stroke-width:1px;\n"@
        + "  classDef endNode fill:#fce4ec,stroke:#c62828,stroke-width:2px;\n"@
}

/// The greatest number of nodes that the step `step` can draw.
pub open spec fn weight(step: Step) -> nat
    decreases step,
{
    match step {
        Step::Call { .. } => 1,
        Step::Return { .. } => 1,
        Step::Decision { yes_branch, no_branch, .. } => 1 + weight_from(yes_branch, 0)
            + weight_from(no_branch, 0),
        Step::Loop { body, .. } => 1 + weight_from(body, 0),
        Step::Switch { cases, .. } => 1 + weight_of_cases(cases, 0),
    }
}

/// The greatest number of nodes that `steps[from..]` can draw.
pub open spec fn weight_from(steps: Seq<Step>, from: int) -> nat
    decreases steps, steps.len() - from,
{
    if from < 0 || from >= steps.len() {
        0
    } else {
        weight(steps[from]) + weight_from(steps, from + 1)
    }
}

/// The greatest number of nodes that the groups `cases[from..]` can draw.
pub open spec fn weight_of_cases(cases: Seq<(Seq<char>, Seq<Step>)>, from: int) -> nat
    decreases cases, cases.len() - from,
{
    if from < 0 || from >= cases.len() {
        0
    } else {
        weight_from(cases[from].1, 0) + weight_of_cases(cases, from + 1)
    }
}

} // verus!
