//! The diagram renderer: writes the flowchart markup of a method's steps.
use vstd::prelude::*;
use vstd::string::*;
use crate::diagram::{
    click,
    edge,
    edges,
    entered,
    node_id,
    node_line,
    render_cases,
    render_from,
    render_method,
    render_step,
    repeat_edge,
    repeat_edges,
    shown,
    suppressed,
    weight,
    weight_from,
    weight_of_cases,
    Drawing,
    Rules,
};
use crate::model::{cases_view, steps_view, FlowStep, Step};
use crate::text::{decimal_text, same_text, texts, unquote_text};

verus! {

/// The numbers of a vector of node numbers.
pub open spec fn nats(v: Seq<usize>) -> Seq<nat> {
    Seq::new(v.len(), |i: int| v[i] as nat)
}

/// The frontier made of one node.
fn single(id: usize) -> (v: Vec<usize>)
    ensures
        v@ == seq![id],
        nats(v@) == seq![id as nat],
{
    let mut v: Vec<usize> = Vec::new();
    v.push(id);
    assert(v@ =~= seq![id]);
    assert(nats(v@) =~= seq![id as nat]);
    v
}

/// What an optional service name stands for.
pub open spec fn service_view(service: Option<String>) -> Option<Seq<char>> {
    match service {
        Some(s) => Some(s@),
        None => None,
    }
}

/// What an optional label stands for.
pub open spec fn label_view(label: Option<&str>) -> Option<Seq<char>> {
    match label {
        Some(l) => Some(l@),
        None => None,
    }
}

/// The names that two lists of ignored names hold together.
pub open spec fn ignored_names(variables: Seq<String>, services: Seq<String>) -> Set<Seq<char>> {
    Set::new(|k: Seq<char>| texts(variables).contains(k) || texts(services).contains(k))
}

/// The state of one rendering: the markup written so far, the number of
/// nodes drawn, and the settings.
pub struct FlowGenerator<'a> {
    pub output: String,
    pub node_counter: usize,
    pub ignored_variables: &'a [String],
    pub ignored_services: &'a [String],
    pub show_source_reference: bool,
}

impl<'a> FlowGenerator<'a> {
    /// The rules that the settings stand for.
    pub open spec fn rules(&self) -> Rules {
        Rules {
            ignored: ignored_names(self.ignored_variables@, self.ignored_services@),
            show_lines: self.show_source_reference,
        }
    }

    /// The drawing that the state stands for, with the given frontier.
    pub open spec fn drawing(&self, frontier: Seq<usize>) -> Drawing {
        Drawing {
            text: self.output@,
            count: self.node_counter as nat,
            frontier: nats(frontier),
        }
    }

    /// Whether `other` has the settings of `self`.
    pub open spec fn same_settings(&self, other: &Self) -> bool {
        &&& self.ignored_variables@ == other.ignored_variables@
        &&& self.ignored_services@ == other.ignored_services@
        &&& self.show_source_reference == other.show_source_reference
    }

    /// A generator that has written nothing yet.
    pub fn new(
        ignored_variables: &'a [String],
        ignored_services: &'a [String],
        show_source_reference: bool,
    ) -> (g: Self)
        ensures
            g.output@ == Seq::<char>::empty(),
            g.node_counter == 0,
            g.ignored_variables@ == ignored_variables@,
            g.ignored_services@ == ignored_services@,
            g.show_source_reference == show_source_reference,
    {
        FlowGenerator {
            output: String::new(),
            node_counter: 0,
            ignored_variables,
            ignored_services,
            show_source_reference,
        }
    }

    /// Counts one more node and gives its identifier.
    pub fn next_id(&mut self) -> (id: String)
        requires
            old(self).node_counter < usize::MAX,
        ensures
            final(self).node_counter == old(self).node_counter + 1,
            id@ == node_id(final(self).node_counter as nat),
            final(self).output@ == old(self).output@,
            old(self).same_settings(final(self)),
    {
        self.node_counter += 1;
        let mut id = "N".to_owned();
        id.append(decimal_text(self.node_counter).as_str());
        id
    }

    /// Writes the identifier of node `n`.
    fn push_id(&mut self, n: usize)
        ensures
            final(self).output@ == old(self).output@ + node_id(n as nat),
            final(self).node_counter == old(self).node_counter,
            old(self).same_settings(final(self)),
    {
        self.output.append("N");
        self.output.append(decimal_text(n).as_str());
        assert(self.output@ =~= old(self).output@ + node_id(n as nat));
    }

    /// Writes one edge.
    fn push_edge(&mut self, from: usize, label: Option<&str>, to: usize)
        ensures
            final(self).output@ == old(self).output@ + edge(
                from as nat,
                label_view(label),
                to as nat,
            ),
            final(self).node_counter == old(self).node_counter,
            old(self).same_settings(final(self)),
    {
        self.output.append("    ");
        self.push_id(from);
        self.output.append(" ");
        match label {
            Some(l) => {
                self.output.append("-->|");
                self.output.append(l);
                self.output.append("|");
            },
            None => {
                self.output.append("-->");
            },
        }
        self.output.append(" ");
        self.push_id(to);
        self.output.append("\n");
        assert(self.output@ =~= old(self).output@ + edge(from as nat, label_view(label), to as nat));
    }

    /// Writes one edge to `to` from each node of `prev_ids`.
    fn push_edges(&mut self, prev_ids: &Vec<usize>, label: Option<&str>, to: usize)
        ensures
            final(self).output@ == old(self).output@ + edges(
                nats(prev_ids@),
                label_view(label),
                to as nat,
            ),
            final(self).node_counter == old(self).node_counter,
            old(self).same_settings(final(self)),
    {
        let ghost all = nats(prev_ids@);
        let ghost start = self.output@;
        let mut i: usize = 0;
        assert(start + edges(all.take(0), label_view(label), to as nat) =~= start);
        while i < prev_ids.len()
            invariant
                i <= prev_ids.len(),
                all == nats(prev_ids@),
                self.output@ == start + edges(all.take(i as int), label_view(label), to as nat),
                self.node_counter == old(self).node_counter,
                old(self).same_settings(self),
            decreases prev_ids.len() - i,
        {
            self.push_edge(prev_ids[i], label, to);
            proof {
                let now = all.take(i + 1);
                assert(now.drop_last() =~= all.take(i as int));
                assert(now.last() == prev_ids@[i as int] as nat);
                assert(start + edges(all.take(i as int), label_view(label), to as nat) + edge(
                    prev_ids@[i as int] as nat,
                    label_view(label),
                    to as nat,
                ) =~= start + edges(now, label_view(label), to as nat));
            }
            i += 1;
        }
        assert(all.take(i as int) =~= all);
    }

    /// Writes one dashed edge to `to` from each node of `exits` other than
    /// `to`.
    fn push_repeat_edges(&mut self, exits: &Vec<usize>, to: usize)
        ensures
            final(self).output@ == old(self).output@ + repeat_edges(nats(exits@), to as nat),
            final(self).node_counter == old(self).node_counter,
            old(self).same_settings(final(self)),
    {
        let ghost all = nats(exits@);
        let ghost start = self.output@;
        let mut i: usize = 0;
        assert(start + repeat_edges(all.take(0), to as nat) =~= start);
        while i < exits.len()
            invariant
                i <= exits.len(),
                all == nats(exits@),
                self.output@ == start + repeat_edges(all.take(i as int), to as nat),
                self.node_counter == old(self).node_counter,
                old(self).same_settings(self),
            decreases exits.len() - i,
        {
            let ghost before = self.output@;
            if exits[i] != to {
                self.output.append("    ");
                self.push_id(exits[i]);
                self.output.append(" -.->|repeat| ");
                self.push_id(to);
                self.output.append("\n");
                assert(self.output@ =~= before + repeat_edge(exits@[i as int] as nat, to as nat));
            }
            proof {
                let now = all.take(i + 1);
                assert(now.drop_last() =~= all.take(i as int));
                assert(now.last() == exits@[i as int] as nat);
                assert(self.output@ =~= start + repeat_edges(now, to as nat));
            }
            i += 1;
        }
        assert(all.take(i as int) =~= all);
    }

    /// Writes the click line of node `n`.
    fn push_click(&mut self, n: usize, offset: usize)
        ensures
            final(self).output@ == old(self).output@ + click(n as nat, offset),
            final(self).node_counter == old(self).node_counter,
            old(self).same_settings(final(self)),
    {
        self.output.append("    click ");
        self.push_id(n);
        self.output.append(" call onNodeClick(\"offset-");
        self.output.append(decimal_text(offset).as_str());
        self.output.append("\") \"Scroll to source\"\n");
        assert(self.output@ =~= old(self).output@ + click(n as nat, offset));
    }

    /// Writes the line that declares node `n`.
    fn push_node_line(&mut self, n: usize, open: &str, text: &str, close: &str)
        ensures
            final(self).output@ == old(self).output@ + node_line(n as nat, open@, text@, close@),
            final(self).node_counter == old(self).node_counter,
            old(self).same_settings(final(self)),
    {
        self.output.append("    ");
        self.push_id(n);
        self.output.append(open);
        self.output.append(text);
        self.output.append(close);
        self.output.append("\n");
        assert(self.output@ =~= old(self).output@ + node_line(n as nat, open@, text@, close@));
    }

    /// Draws one more node behind the nodes of `prev_ids` and gives its
    /// number.
    fn enter(
        &mut self,
        prev_ids: &Vec<usize>,
        open: &str,
        text: &str,
        close: &str,
        offset: usize,
        label: Option<&str>,
    ) -> (id: usize)
        requires
            old(self).node_counter < usize::MAX,
        ensures
            id == final(self).node_counter,
            final(self).drawing(seq![id]) == entered(
                old(self).drawing(prev_ids@),
                open@,
                text@,
                close@,
                offset,
                label_view(label),
            ),
            old(self).same_settings(final(self)),
    {
        self.node_counter += 1;
        let id = self.node_counter;
        self.push_node_line(id, open, text, close);
        self.push_click(id, offset);
        self.push_edges(prev_ids, label, id);
        proof {
            assert(nats(seq![id]) =~= seq![id as nat]);
        }
        id
    }

    /// A label as it is shown.
    fn shown_text(&self, label: &str, line: usize) -> (r: String)
        ensures
            r@ == shown(label@, line, self.show_source_reference),
    {
        let mut r = label.to_owned();
        if self.show_source_reference {
            r.append(" (L");
            r.append(decimal_text(line).as_str());
            r.append(")");
        }
        r
    }

    /// Whether `name` is one of the ignored names.
    fn is_ignored(&self, name: &str) -> (b: bool)
        ensures
            b == self.rules().ignored.contains(name@),
    {
        let mut i: usize = 0;
        while i < self.ignored_variables.len()
            invariant
                i <= self.ignored_variables.len(),
                forall|j: int| 0 <= j < i ==> #[trigger] texts(self.ignored_variables@)[j] != name@,
            decreases self.ignored_variables.len() - i,
        {
            if same_text(self.ignored_variables[i].as_str(), name) {
                assert(texts(self.ignored_variables@)[i as int] == name@);
                return true;
            }
            i += 1;
        }
        let mut k: usize = 0;
        while k < self.ignored_services.len()
            invariant
                k <= self.ignored_services.len(),
                !texts(self.ignored_variables@).contains(name@),
                forall|j: int| 0 <= j < k ==> #[trigger] texts(self.ignored_services@)[j] != name@,
            decreases self.ignored_services.len() - k,
        {
            if same_text(self.ignored_services[k].as_str(), name) {
                assert(texts(self.ignored_services@)[k as int] == name@);
                return true;
            }
            k += 1;
        }
        false
    }

    /// Whether a call is left out of the diagram.
    fn is_suppressed(&self, service: &Option<String>, is_external: bool) -> (b: bool)
        ensures
            b == suppressed(service_view(*service), is_external, self.rules()),
    {
        if !is_external {
            return false;
        }
        match service {
            Some(name) => self.is_ignored(name.as_str()),
            None => false,
        }
    }
    /// Draws the step `step` behind the nodes of `prev_ids`, with `label`
    /// on the edges into its first node, and gives the new frontier.
    pub fn dispatch_step(&mut self, step: &FlowStep, prev_ids: Vec<usize>, label: Option<&str>) -> (next_ids:
        Vec<usize>)
        requires
            old(self).node_counter + weight(step@) <= usize::MAX,
        ensures
            final(self).drawing(next_ids@) == render_step(
                step@,
                old(self).rules(),
                old(self).drawing(prev_ids@),
                label_view(label),
            ),
            old(self).node_counter <= final(self).node_counter <= old(self).node_counter + weight(
                step@,
            ),
            old(self).same_settings(final(self)),
        decreases step, 1nat,
    {
        match step {
            FlowStep::Call { name, is_external, raw_text, service, offset, line } => {
                self.process_call_with_label(
                    name.as_str(),
                    *is_external,
                    raw_text.as_str(),
                    service,
                    *offset,
                    *line,
                    prev_ids,
                    label,
                )
            },
            FlowStep::Return { label: text, offset, line } => {
                let shown = self.shown_text(text.as_str(), *line);
                let id = self.enter(&prev_ids, "[\"", shown.as_str(), "\"]", *offset, label);
                single(id)
            },
            FlowStep::Decision { .. } => self.process_if_with_label(step, prev_ids, label),
            FlowStep::Loop { .. } => self.process_loop_with_label(step, prev_ids, label),
            FlowStep::Switch { .. } => self.process_switch_with_label(step, prev_ids, label),
        }
    }

    /// Draws a call, unless it is left out.
    pub fn process_call_with_label(
        &mut self,
        name: &str,
        is_external: bool,
        raw_text: &str,
        service: &Option<String>,
        offset: usize,
        line: usize,
        prev_ids: Vec<usize>,
        label: Option<&str>,
    ) -> (next_ids: Vec<usize>)
        requires
            old(self).node_counter < usize::MAX,
        ensures
            final(self).drawing(next_ids@) == render_step(
                Step::Call {
                    name: name@,
                    is_external,
                    raw_text: raw_text@,
                    service: service_view(*service),
                    offset,
                    line,
                },
                old(self).rules(),
                old(self).drawing(prev_ids@),
                label_view(label),
            ),
            old(self).node_counter <= final(self).node_counter <= old(self).node_counter + 1,
            old(self).same_settings(final(self)),
    {
        if self.is_suppressed(service, is_external) {
            return prev_ids;
        }
        let text = if is_external {
            let mut t = "External: ".to_owned();
            t.append(raw_text);
            unquote_text(t.as_str())
        } else {
            unquote_text(name)
        };
        let shown = self.shown_text(text.as_str(), line);
        let close = if is_external {
            "\"]:::external"
        } else {
            "\"]:::internal"
        };
        let id = self.enter(&prev_ids, "[\"", shown.as_str(), close, offset, label);
        single(id)
    }

    /// Draws a decision with its two branches.
    pub fn process_if_with_label(&mut self, step: &FlowStep, prev_ids: Vec<usize>, label: Option<&str>) -> (next_ids:
        Vec<usize>)
        requires
            step is Decision,
            old(self).node_counter + weight(step@) <= usize::MAX,
        ensures
            final(self).drawing(next_ids@) == render_step(
                step@,
                old(self).rules(),
                old(self).drawing(prev_ids@),
                label_view(label),
            ),
            old(self).node_counter <= final(self).node_counter <= old(self).node_counter + weight(
                step@,
            ),
            old(self).same_settings(final(self)),
        decreases step, 0nat,
    {
        match step {
            FlowStep::Decision { label: text, offset, line, yes_branch, no_branch } => {
                let shown = self.shown_text(text.as_str(), *line);
                let id = self.enter(
                    &prev_ids,
                    "{\"",
                    shown.as_str(),
                    "\"}:::decision",
                    *offset,
                    label,
                );
                let mut ended_then = self.traverse_steps_with_label(
                    yes_branch,
                    single(id),
                    Some("Yes"),
                );
                let mut ended_else = self.traverse_steps_with_label(
                    no_branch,
                    single(id),
                    Some("No"),
                );
                proof {
                    assert(nats(ended_then@ + ended_else@) =~= nats(ended_then@) + nats(
                        ended_else@,
                    ));
                }
                ended_then.append(&mut ended_else);
                ended_then
            },
            _ => prev_ids,
        }
    }

    /// Draws a loop with its body and the edges back to its header.
    pub fn process_loop_with_label(
        &mut self,
        step: &FlowStep,
        prev_ids: Vec<usize>,
        label: Option<&str>,
    ) -> (next_ids: Vec<usize>)
        requires
            step is Loop,
            old(self).node_counter + weight(step@) <= usize::MAX,
        ensures
            final(self).drawing(next_ids@) == render_step(
                step@,
                old(self).rules(),
                old(self).drawing(prev_ids@),
                label_view(label),
            ),
            old(self).node_counter <= final(self).node_counter <= old(self).node_counter + weight(
                step@,
            ),
            old(self).same_settings(final(self)),
        decreases step, 0nat,
    {
        match step {
            FlowStep::Loop { label: text, offset, line, body } => {
                let shown = self.shown_text(text.as_str(), *line);
                let id = self.enter(
                    &prev_ids,
                    "{{\"",
                    shown.as_str(),
                    "\"}}:::loop",
                    *offset,
                    label,
                );
                let body_end_ids = self.traverse_steps_with_label(
                    body,
                    single(id),
                    Some("loop body"),
                );
                self.push_repeat_edges(&body_end_ids, id);
                single(id)
            },
            _ => prev_ids,
        }
    }

    /// Draws a switch with its case groups.
    pub fn process_switch_with_label(
        &mut self,
        step: &FlowStep,
        prev_ids: Vec<usize>,
        label: Option<&str>,
    ) -> (next_ids: Vec<usize>)
        requires
            step is Switch,
            old(self).node_counter + weight(step@) <= usize::MAX,
        ensures
            final(self).drawing(next_ids@) == render_step(
                step@,
                old(self).rules(),
                old(self).drawing(prev_ids@),
                label_view(label),
            ),
            old(self).node_counter <= final(self).node_counter <= old(self).node_counter + weight(
                step@,
            ),
            old(self).same_settings(final(self)),
        decreases step, 0nat,
    {
        match step {
            FlowStep::Switch { label: text, offset, line, cases } => {
                let shown = self.shown_text(text.as_str(), *line);
                let id = self.enter(
                    &prev_ids,
                    "{\"",
                    shown.as_str(),
                    "\"}:::decision",
                    *offset,
                    label,
                );
                let ghost view = cases_view(cases@);
                let ghost rules = self.rules();
                let ghost head = self.drawing(seq![id]);
                let ghost first = Drawing { frontier: Seq::empty(), ..head };
                let mut all_exit_ids: Vec<usize> = Vec::new();
                proof {
                    assert(nats(all_exit_ids@) =~= Seq::<nat>::empty());
                    assert(nats(seq![id]) =~= seq![id as nat]);
                }
                let mut i: usize = 0;
                while i < cases.len()
                    invariant
                        i <= cases.len(),
                        step is Switch,
                        step->cases == cases,
                        view == cases_view(cases@),
                        rules == self.rules(),
                        old(self).same_settings(self),
                        id as nat == head.count,
                        id <= self.node_counter,
                        self.node_counter + weight_of_cases(view, i as int) <= id
                            + weight_of_cases(view, 0),
                        id + weight_of_cases(view, 0) <= usize::MAX,
                        render_cases(view, 0, rules, first, head.count) == render_cases(
                            view,
                            i as int,
                            rules,
                            self.drawing(all_exit_ids@),
                            head.count,
                        ),
                    decreases cases.len() - i,
                {
                    let ghost before = self.drawing(all_exit_ids@);
                    assert(view[i as int] == (cases@[i as int].0@, steps_view(cases@[i as int].1@)));
                    let case_label = cases[i].0.as_str();
                    let mut case_exits = self.traverse_steps_with_label(
                        &cases[i].1,
                        single(id),
                        Some(case_label),
                    );
                    proof {
                        let group = self.drawing(case_exits@);
                        assert(nats(seq![id]) =~= seq![head.count]);
                        assert(Drawing { frontier: seq![head.count], ..before } == Drawing {
                            frontier: nats(seq![id]),
                            ..before
                        });
                        assert(nats(all_exit_ids@ + case_exits@) =~= before.frontier
                            + group.frontier);
                    }
                    all_exit_ids.append(&mut case_exits);
                    i += 1;
                }
                if self.node_counter == id {
                    single(id)
                } else {
                    all_exit_ids
                }
            },
            _ => prev_ids,
        }
    }

    /// Draws the steps of `steps` in order behind the nodes of `prev_ids`.
    /// The label goes to the first step that draws a node.
    pub fn traverse_steps_with_label(
        &mut self,
        steps: &Vec<FlowStep>,
        prev_ids: Vec<usize>,
        label: Option<&str>,
    ) -> (next_ids: Vec<usize>)
        requires
            old(self).node_counter + weight_from(steps_view(steps@), 0) <= usize::MAX,
        ensures
            final(self).drawing(next_ids@) == render_from(
                steps_view(steps@),
                0,
                old(self).rules(),
                old(self).drawing(prev_ids@),
                label_view(label),
            ),
            final(self).node_counter <= old(self).node_counter + weight_from(
                steps_view(steps@),
                0,
            ),
            old(self).node_counter <= final(self).node_counter,
            old(self).same_settings(final(self)),
        decreases steps,
    {
        let ghost view = steps_view(steps@);
        let ghost rules = self.rules();
        let ghost first = self.drawing(prev_ids@);
        let ghost start = self.node_counter;
        let mut current_ids = prev_ids;
        let mut current_label = label;
        let mut i: usize = 0;
        while i < steps.len()
            invariant
                i <= steps.len(),
                view == steps_view(steps@),
                rules == self.rules(),
                old(self).same_settings(self),
                start <= self.node_counter,
                self.node_counter + weight_from(view, i as int) <= start + weight_from(view, 0),
                start + weight_from(view, 0) <= usize::MAX,
                render_from(view, 0, rules, first, label_view(label)) == render_from(
                    view,
                    i as int,
                    rules,
                    self.drawing(current_ids@),
                    label_view(current_label),
                ),
            decreases steps.len() - i,
        {
            let before = self.node_counter;
            assert(view[i as int] == steps@[i as int]@);
            current_ids = self.dispatch_step(&steps[i], current_ids, current_label);
            if self.node_counter > before {
                current_label = None;
            }
            i += 1;
        }
        current_ids
    }

    /// Draws the subgraph of one method.
    pub fn generate_method_flow(&mut self, method_name: &str, steps: &Vec<FlowStep>)
        requires
            old(self).node_counter + 2 + weight_from(steps_view(steps@), 0) <= usize::MAX,
        ensures
            final(self).drawing(Seq::empty()) == render_method(
                method_name@,
                steps_view(steps@),
                old(self).rules(),
                old(self).drawing(Seq::empty()),
            ),
            final(self).node_counter <= old(self).node_counter + 2 + weight_from(
                steps_view(steps@),
                0,
            ),
            old(self).same_settings(final(self)),
    {
        self.output.append("  subgraph ");
        self.output.append(method_name);
        self.output.append("\n");
        self.output.append("    direction TB\n");
        self.node_counter += 1;
        let start_id = self.node_counter;
        self.push_node_line(start_id, "([\"", method_name, "\"]):::public");
        proof {
            assert(nats(seq![start_id]) =~= seq![start_id as nat]);
            assert(self.output@ =~= old(self).output@ + "  subgraph "@ + method_name@ + "\n"@
                + "    direction TB\n"@ + node_line(
                start_id as nat,
                "([\""@,
                method_name@,
                "\"]):::public"@,
            ));
        }
        let end_nodes = self.traverse_steps_with_label(steps, single(start_id), None);
        self.node_counter += 1;
        let end_id = self.node_counter;
        self.push_edges(&end_nodes, None, end_id);
        self.push_node_line(end_id, "([\"End of ", method_name, "\"]):::endNode");
        self.output.append("  end\n");
        proof {
            assert(nats(Seq::<usize>::empty()) =~= Seq::<nat>::empty());
        }
    }
}

} // verus!
