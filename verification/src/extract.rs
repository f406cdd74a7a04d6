//! The flow extractor: turns the statements of a method body into the
//! nested steps of its control flow.
use vstd::prelude::*;
use vstd::string::*;
use crate::classify::{call_sites, collect_calls_recursive, lemma_steps_view_push};
use crate::collect::{child_in_field, field_node};
use crate::model::{cases_view, steps_view, FlowStep, MethodNode, Step};
use crate::syntax::{children_match, lemma_children_match, SyntaxNode, SyntaxTree};
use crate::table::Table;
use crate::text::{
    clip_text,
    clipped,
    join_texts,
    joined,
    one_line,
    one_line_text,
    texts,
    trim,
    trim_text,
    unquote_text,
    unquoted,
};

verus! {

/// The longest label of a loop step, in characters.
pub const LOOP_LABEL_MAX: usize = 60;

/// The longest label of a case group, in characters.
pub const CASE_LABEL_MAX: usize = 30;

/// Whether statements of this kind are searched for calls only.
pub open spec fn is_plain_kind(kind: Seq<char>) -> bool {
    kind == "expression_statement"@ || kind == "local_variable_declaration"@
}

/// Whether statements of this kind are loops.
pub open spec fn is_loop_kind(kind: Seq<char>) -> bool {
    kind == "for_statement"@ || kind == "while_statement"@ || kind == "do_statement"@ || kind
        == "enhanced_for_statement"@
}

/// Whether nodes of this kind are switches.
pub open spec fn is_switch_kind(kind: Seq<char>) -> bool {
    kind == "switch_expression"@ || kind == "switch_statement"@
}

/// The text of the first child held under the field `name`; `missing`
/// where there is none.
pub open spec fn field_source(
    node: SyntaxTree,
    name: Seq<char>,
    src: Seq<char>,
    missing: Seq<char>,
) -> Seq<char> {
    match field_node(node, name) {
        Some(c) => c.text(src),
        None => missing,
    }
}

/// The header of a loop before it is made fit for a label: a placeholder
/// for a classic `for`, `for (item : list)` for a for-each, and the
/// keyword with the condition for `while` and `do`.
pub open spec fn loop_header(node: SyntaxTree, src: Seq<char>) -> Seq<char> {
    let kind = node.kind;
    if kind == "for_statement"@ {
        "for (...)"@
    } else if kind == "while_statement"@ {
        "while "@ + field_source(node, "condition"@, src, "(...)"@)
    } else if kind == "do_statement"@ {
        "do...while "@ + field_source(node, "condition"@, src, "(...)"@)
    } else {
        "for ("@ + field_source(node, "name"@, src, Seq::empty()) + " : "@ + field_source(
            node,
            "value"@,
            src,
            Seq::empty(),
        ) + ")"@
    }
}

/// The label of a loop step: its header on one line, clipped.
pub open spec fn loop_label(node: SyntaxTree, src: Seq<char>) -> Seq<char> {
    clipped(one_line(loop_header(node, src)), LOOP_LABEL_MAX as int)
}

/// The label of a switch step: `switch ` and the subject on one line.
pub open spec fn switch_label(node: SyntaxTree, src: Seq<char>) -> Seq<char> {
    "switch "@ + one_line(field_source(node, "condition"@, src, "..."@))
}

/// The trimmed texts of the `switch_label` nodes among `nodes[from..]`.
pub open spec fn case_tokens(nodes: Seq<SyntaxTree>, from: int, src: Seq<char>) -> Seq<Seq<char>>
    decreases nodes.len() - from,
{
    if from < 0 || from >= nodes.len() {
        Seq::empty()
    } else {
        let here = if nodes[from].kind == "switch_label"@ {
            seq![trim(nodes[from].text(src))]
        } else {
            Seq::empty()
        };
        here + case_tokens(nodes, from + 1, src)
    }
}

/// The label of a case group: its tokens joined by `, `, or `case` where
/// it has none; on one line and clipped.
pub open spec fn case_label(group: SyntaxTree, src: Seq<char>) -> Seq<char> {
    let tokens = case_tokens(group.children, 0, src);
    let text = if tokens.len() == 0 {
        "case"@
    } else {
        joined(tokens, ", "@)
    };
    clipped(one_line(text), CASE_LABEL_MAX as int)
}

/// The steps of the statement `node`.
pub open spec fn flow(node: SyntaxTree, src: Seq<char>, names: Set<Seq<char>>) -> Seq<Step>
    decreases node,
{
    let kind = node.kind;
    if is_plain_kind(kind) {
        call_sites(node, src, names)
    } else if kind == "return_statement"@ {
        seq![Step::Return { label: unquoted(node.text(src)), offset: node.start, line: node.line() }]
    } else if kind == "if_statement"@ {
        let yes_branch = match field_node(node, "consequence"@) {
            Some(c) => flow(c, src, names),
            None => Seq::empty(),
        };
        let no_branch = match field_node(node, "alternative"@) {
            Some(a) => flow(a, src, names),
            None => Seq::empty(),
        };
        match field_node(node, "condition"@) {
            Some(c) => call_sites(c, src, names).push(
                Step::Decision {
                    label: one_line(c.text(src)),
                    offset: c.start,
                    line: c.line(),
                    yes_branch,
                    no_branch,
                },
            ),
            None => seq![
                Step::Decision {
                    label: Seq::empty(),
                    offset: node.start,
                    line: node.line(),
                    yes_branch,
                    no_branch,
                },
            ],
        }
    } else if is_loop_kind(kind) {
        let body = match field_node(node, "body"@) {
            Some(b) => flow(b, src, names),
            None => Seq::empty(),
        };
        seq![
            Step::Loop { label: loop_label(node, src), offset: node.start, line: node.line(), body },
        ]
    } else if is_switch_kind(kind) {
        let cases = match field_node(node, "body"@) {
            Some(b) => cases_from(b.children, 0, src, names),
            None => Seq::empty(),
        };
        seq![
            Step::Switch {
                label: switch_label(node, src),
                offset: node.start,
                line: node.line(),
                cases,
            },
        ]
    } else {
        flow_from(node.children, 0, src, names)
    }
}

/// The steps of the named nodes among `nodes[from..]`, in order.
pub open spec fn flow_from(
    nodes: Seq<SyntaxTree>,
    from: int,
    src: Seq<char>,
    names: Set<Seq<char>>,
) -> Seq<Step>
    decreases nodes, nodes.len() - from,
{
    if from < 0 || from >= nodes.len() {
        Seq::empty()
    } else {
        let here = if nodes[from].named {
            flow(nodes[from], src, names)
        } else {
            Seq::empty()
        };
        here + flow_from(nodes, from + 1, src, names)
    }
}

/// The case groups that the named nodes among `nodes[from..]` make, in
/// order, each with its label and steps.
pub open spec fn cases_from(
    nodes: Seq<SyntaxTree>,
    from: int,
    src: Seq<char>,
    names: Set<Seq<char>>,
) -> Seq<(Seq<char>, Seq<Step>)>
    decreases nodes, nodes.len() - from,
{
    if from < 0 || from >= nodes.len() {
        Seq::empty()
    } else {
        let here = if nodes[from].named {
            seq![(case_label(nodes[from], src), flow(nodes[from], src, names))]
        } else {
            Seq::empty()
        };
        here + cases_from(nodes, from + 1, src, names)
    }
}

/// The steps of a method: those of its body; none where it has no body.
pub open spec fn method_flow(decl: SyntaxTree, src: Seq<char>, names: Set<Seq<char>>) -> Seq<
    Step,
> {
    match field_node(decl, "body"@) {
        Some(body) => flow(body, src, names),
        None => Seq::empty(),
    }
}

/// Computes `field_source`.
fn field_source_of(node: &SyntaxNode, name: &str, source: &str, missing: &str) -> (r: String)
    ensures
        r@ == field_source(node@, name@, source@, missing@),
{
    match child_in_field(node, name) {
        Some(c) => c.text_in(source).to_owned(),
        None => missing.to_owned(),
    }
}

/// Computes `loop_label`.
fn make_loop_label(node: &SyntaxNode, source: &str) -> (r: String)
    ensures
        r@ == loop_label(node@, source@),
{
    let header = if node.is_kind("for_statement") {
        "for (...)".to_owned()
    } else if node.is_kind("while_statement") {
        let mut h = "while ".to_owned();
        h.append(field_source_of(node, "condition", source, "(...)").as_str());
        h
    } else if node.is_kind("do_statement") {
        let mut h = "do...while ".to_owned();
        h.append(field_source_of(node, "condition", source, "(...)").as_str());
        h
    } else {
        let mut h = "for (".to_owned();
        let e = "";
        proof {
            reveal_strlit("");
            assert(e@ =~= Seq::<char>::empty());
        }
        h.append(field_source_of(node, "name", source, e).as_str());
        h.append(" : ");
        h.append(field_source_of(node, "value", source, e).as_str());
        h.append(")");
        h
    };
    clip_text(one_line_text(header.as_str()), LOOP_LABEL_MAX)
}

/// Computes `switch_label`.
fn make_switch_label(node: &SyntaxNode, source: &str) -> (r: String)
    ensures
        r@ == switch_label(node@, source@),
{
    let mut label = "switch ".to_owned();
    let subject = field_source_of(node, "condition", source, "...");
    label.append(one_line_text(subject.as_str()).as_str());
    label
}

/// Computes `case_label`.
fn make_case_label(group: &SyntaxNode, source: &str) -> (r: String)
    ensures
        r@ == case_label(group@, source@),
{
    let mut tokens: Vec<String> = Vec::new();
    let ghost mut done: Seq<Seq<char>> = Seq::empty();
    proof {
        assert(texts(tokens@) =~= done);
        assert(done + case_tokens(group@.children, 0, source@) =~= case_tokens(
            group@.children,
            0,
            source@,
        ));
    }
    let mut i: usize = 0;
    proof {
        lemma_children_match(*group);
    }
    while i < group.children.len()
        invariant
            children_match(*group),
            i <= group.children.len(),
            texts(tokens@) == done,
            case_tokens(group@.children, 0, source@) == done + case_tokens(
                group@.children,
                i as int,
                source@,
            ),
        decreases group.children.len() - i,
    {
        let ghost here: Seq<Seq<char>>;
        if group.children[i].is_kind("switch_label") {
            let token = trim_text(group.children[i].text_in(source));
            proof {
                here = seq![token@];
                assert(texts(tokens@.push(token)) =~= done + here);
            }
            tokens.push(token);
        } else {
            proof {
                here = Seq::empty();
                assert(done + here =~= done);
            }
        }
        proof {
            assert(done + (here + case_tokens(group@.children, i + 1, source@)) =~= (done + here)
                + case_tokens(group@.children, i + 1, source@));
            done = done + here;
        }
        i += 1;
    }
    proof {
        assert(done + Seq::<Seq<char>>::empty() =~= done);
    }
    let text = if tokens.len() == 0 {
        "case".to_owned()
    } else {
        join_texts(&tokens, ", ")
    };
    clip_text(one_line_text(text.as_str()), CASE_LABEL_MAX)
}

/// Appends to `out` the steps of the statement `node`.
pub fn extract_flow(
    node: &SyntaxNode,
    source: &str,
    methods: &Table<MethodNode>,
    out: &mut Vec<FlowStep>,
)
    ensures
        steps_view(final(out)@) == steps_view(old(out)@) + flow(node@, source@, methods@.dom()),
    decreases node, 1nat,
{
    let ghost names = methods@.dom();
    let ghost start = steps_view(out@);
    if node.is_kind("expression_statement") || node.is_kind("local_variable_declaration") {
        collect_calls_recursive(node, source, methods, out);
    } else if node.is_kind("return_statement") {
        let step = FlowStep::Return {
            label: unquote_text(node.text_in(source)),
            offset: node.start,
            line: node.line(),
        };
        proof {
            lemma_steps_view_push(out@, step);
            assert(start.push(step@) =~= start + seq![step@]);
        }
        out.push(step);
    } else if node.is_kind("if_statement") {
        let yes_branch = extract_branch(node, "consequence", source, methods);
        let no_branch = extract_branch(node, "alternative", source, methods);
        match child_in_field(node, "condition") {
            Some(condition) => {
                collect_calls_recursive(condition, source, methods, out);
                let step = FlowStep::Decision {
                    label: one_line_text(condition.text_in(source)),
                    offset: condition.start,
                    line: condition.line(),
                    yes_branch,
                    no_branch,
                };
                proof {
                    lemma_steps_view_push(out@, step);
                    let calls = call_sites(condition@, source@, names);
                    assert((start + calls).push(step@) =~= start + calls.push(step@));
                }
                out.push(step);
            },
            None => {
                let step = FlowStep::Decision {
                    label: String::new(),
                    offset: node.start,
                    line: node.line(),
                    yes_branch,
                    no_branch,
                };
                proof {
                    lemma_steps_view_push(out@, step);
                    assert(start.push(step@) =~= start + seq![step@]);
                }
                out.push(step);
            },
        }
    } else if node.is_kind("for_statement") || node.is_kind("while_statement") || node.is_kind(
        "do_statement",
    ) || node.is_kind("enhanced_for_statement") {
        let body = extract_branch(node, "body", source, methods);
        let step = FlowStep::Loop {
            label: make_loop_label(node, source),
            offset: node.start,
            line: node.line(),
            body,
        };
        proof {
            lemma_steps_view_push(out@, step);
            assert(start.push(step@) =~= start + seq![step@]);
        }
        out.push(step);
    } else if node.is_kind("switch_expression") || node.is_kind("switch_statement") {
        let cases = match child_in_field(node, "body") {
            Some(body) => extract_cases(body, source, methods),
            None => {
                let none: Vec<(String, Vec<FlowStep>)> = Vec::new();
                assert(cases_view(none@) =~= Seq::<(Seq<char>, Seq<Step>)>::empty());
                none
            },
        };
        let step = FlowStep::Switch {
            label: make_switch_label(node, source),
            offset: node.start,
            line: node.line(),
            cases,
        };
        proof {
            lemma_steps_view_push(out@, step);
            assert(start.push(step@) =~= start + seq![step@]);
        }
        out.push(step);
    } else {
        extract_children(node, source, methods, out);
    }
}

/// Appends to `out` the steps of the named children of `node`, in order.
fn extract_children(
    node: &SyntaxNode,
    source: &str,
    methods: &Table<MethodNode>,
    out: &mut Vec<FlowStep>,
)
    ensures
        steps_view(final(out)@) == steps_view(old(out)@) + flow_from(
            node@.children,
            0,
            source@,
            methods@.dom(),
        ),
    decreases node, 0nat,
{
    let ghost names = methods@.dom();
    let ghost start = steps_view(out@);
    let ghost mut done: Seq<Step> = Seq::empty();
    proof {
        assert(start + done =~= start);
        assert(done + flow_from(node@.children, 0, source@, names) =~= flow_from(
            node@.children,
            0,
            source@,
            names,
        ));
    }
    let mut i: usize = 0;
    proof {
        lemma_children_match(*node);
    }
    while i < node.children.len()
        invariant
            children_match(*node),
            i <= node.children.len(),
            names == methods@.dom(),
            steps_view(out@) == start + done,
            flow_from(node@.children, 0, source@, names) == done + flow_from(
                node@.children,
                i as int,
                source@,
                names,
            ),
        decreases node.children.len() - i,
    {
        let ghost here: Seq<Step>;
        if node.children[i].named {
            extract_flow(&node.children[i], source, methods, out);
            proof {
                here = flow(node@.children[i as int], source@, names);
            }
        } else {
            proof {
                here = Seq::empty();
                assert(start + done + here =~= start + done);
            }
        }
        proof {
            assert(start + done + here =~= start + (done + here));
            assert(done + (here + flow_from(node@.children, i + 1, source@, names)) =~= (done
                + here) + flow_from(node@.children, i + 1, source@, names));
            done = done + here;
        }
        i += 1;
    }
    proof {
        assert(done + Seq::<Step>::empty() =~= done);
    }
}

/// The steps of the child of `node` held under the field `name`; none
/// where there is no such child.
fn extract_branch(node: &SyntaxNode, name: &str, source: &str, methods: &Table<MethodNode>) -> (r:
    Vec<FlowStep>)
    ensures
        steps_view(r@) == match field_node(node@, name@) {
            Some(c) => flow(c, source@, methods@.dom()),
            None => Seq::empty(),
        },
    decreases node, 0nat,
{
    let mut r: Vec<FlowStep> = Vec::new();
    assert(steps_view(r@) =~= Seq::<Step>::empty());
    match child_in_field(node, name) {
        Some(c) => {
            extract_flow(c, source, methods, &mut r);
            assert(Seq::<Step>::empty() + flow(c@, source@, methods@.dom()) =~= flow(
                c@,
                source@,
                methods@.dom(),
            ));
        },
        None => {},
    }
    r
}

/// The case groups of a switch body.
fn extract_cases(body: &SyntaxNode, source: &str, methods: &Table<MethodNode>) -> (r: Vec<
    (String, Vec<FlowStep>),
>)
    ensures
        cases_view(r@) == cases_from(body@.children, 0, source@, methods@.dom()),
    decreases body, 0nat,
{
    let ghost names = methods@.dom();
    let mut r: Vec<(String, Vec<FlowStep>)> = Vec::new();
    let ghost mut done: Seq<(Seq<char>, Seq<Step>)> = Seq::empty();
    proof {
        assert(cases_view(r@) =~= done);
        assert(done + cases_from(body@.children, 0, source@, names) =~= cases_from(
            body@.children,
            0,
            source@,
            names,
        ));
    }
    let mut i: usize = 0;
    proof {
        lemma_children_match(*body);
    }
    while i < body.children.len()
        invariant
            children_match(*body),
            i <= body.children.len(),
            names == methods@.dom(),
            cases_view(r@) == done,
            cases_from(body@.children, 0, source@, names) == done + cases_from(
                body@.children,
                i as int,
                source@,
                names,
            ),
        decreases body.children.len() - i,
    {
        let ghost here: Seq<(Seq<char>, Seq<Step>)>;
        if body.children[i].named {
            let group = &body.children[i];
            let label = make_case_label(group, source);
            let mut steps: Vec<FlowStep> = Vec::new();
            assert(steps_view(steps@) =~= Seq::<Step>::empty());
            extract_flow(group, source, methods, &mut steps);
            proof {
                assert(Seq::<Step>::empty() + flow(group@, source@, names) =~= flow(
                    group@,
                    source@,
                    names,
                ));
                here = seq![(label@, steps_view(steps@))];
                assert(cases_view(r@.push((label, steps))) =~= done + here);
            }
            r.push((label, steps));
        } else {
            proof {
                here = Seq::empty();
                assert(done + here =~= done);
            }
        }
        proof {
            assert(done + (here + cases_from(body@.children, i + 1, source@, names)) =~= (done
                + here) + cases_from(body@.children, i + 1, source@, names));
            done = done + here;
        }
        i += 1;
    }
    proof {
        assert(done + Seq::<(Seq<char>, Seq<Step>)>::empty() =~= done);
    }
    r
}

/// The steps of a method's body.
pub fn extract_method_flow(decl: &SyntaxNode, source: &str, methods: &Table<MethodNode>) -> (r:
    Vec<FlowStep>)
    ensures
        steps_view(r@) == method_flow(decl@, source@, methods@.dom()),
{
    extract_branch(decl, "body", source, methods)
}

} // verus!
