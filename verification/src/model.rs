//! The data that the analysis produces: declared methods, the steps of a
//! method's control flow, and the call graph of one source unit.
use vstd::prelude::*;
use crate::text::texts;

verus! {

/// One declared method.
#[derive(Debug)]
pub struct MethodNode {
    /// The method's simple name.
    pub name: String,
    /// Start and end byte offsets of the declaration in the source text.
    pub range: (usize, usize),
    /// The modifier tokens, in source order.
    pub modifiers: Vec<String>,
    /// The declared return type; empty where there is none.
    pub return_type: String,
}

/// What a `MethodNode` stands for.
pub struct MethodView {
    pub name: Seq<char>,
    pub range: (usize, usize),
    pub modifiers: Seq<Seq<char>>,
    pub return_type: Seq<char>,
}

impl View for MethodNode {
    type V = MethodView;

    open spec fn view(&self) -> MethodView {
        MethodView {
            name: self.name@,
            range: self.range,
            modifiers: texts(self.modifiers@),
            return_type: self.return_type@,
        }
    }
}

/// A copy of a vector of texts.
pub fn clone_texts(v: &Vec<String>) -> (r: Vec<String>)
    ensures
        texts(r@) == texts(v@),
{
    let mut r: Vec<String> = Vec::new();
    let mut i: usize = 0;
    while i < v.len()
        invariant
            i <= v.len(),
            texts(r@) == texts(v@).take(i as int),
        decreases v.len() - i,
    {
        let ghost before = texts(r@);
        r.push(v[i].clone());
        i += 1;
        assert(texts(r@) =~= before.push(v@[i - 1]@));
        assert(texts(v@).take(i as int) =~= texts(v@).take(i - 1).push(v@[i - 1]@));
    }
    assert(texts(r@) =~= texts(v@));
    r
}

impl Clone for MethodNode {
    fn clone(&self) -> (r: Self)
        ensures
            r@ == self@,
    {
        MethodNode {
            name: self.name.clone(),
            range: (self.range.0, self.range.1),
            modifiers: clone_texts(&self.modifiers),
            return_type: self.return_type.clone(),
        }
    }
}

/// One unit of a method's control flow.
#[derive(Debug)]
pub enum FlowStep {
    /// A single invocation. `service` is the candidate name of the external
    /// service that an external call with a receiver addresses: the
    /// receiver's text before its first dot.
    Call {
        name: String,
        is_external: bool,
        raw_text: String,
        service: Option<String>,
        offset: usize,
        line: usize,
    },
    /// An `if` statement with its two branches.
    Decision {
        label: String,
        offset: usize,
        line: usize,
        yes_branch: Vec<FlowStep>,
        no_branch: Vec<FlowStep>,
    },
    /// A loop of any kind.
    Loop { label: String, offset: usize, line: usize, body: Vec<FlowStep> },
    /// A `switch` with its case groups in source order.
    Switch { label: String, offset: usize, line: usize, cases: Vec<(String, Vec<FlowStep>)> },
    /// A `return` statement.
    Return { label: String, offset: usize, line: usize },
}

/// What a `FlowStep` stands for.
pub enum Step {
    Call {
        name: Seq<char>,
        is_external: bool,
        raw_text: Seq<char>,
        service: Option<Seq<char>>,
        offset: usize,
        line: usize,
    },
    Decision {
        label: Seq<char>,
        offset: usize,
        line: usize,
        yes_branch: Seq<Step>,
        no_branch: Seq<Step>,
    },
    Loop { label: Seq<char>, offset: usize, line: usize, body: Seq<Step> },
    Switch { label: Seq<char>, offset: usize, line: usize, cases: Seq<(Seq<char>, Seq<Step>)> },
    Return { label: Seq<char>, offset: usize, line: usize },
}

/// What a sequence of steps stands for.
pub open spec fn steps_view(steps: Seq<FlowStep>) -> Seq<Step>
    decreases steps,
{
    Seq::new(steps.len(), |i: int| if 0 <= i < steps.len() { steps[i]@ } else { arbitrary() })
}

/// What the case groups of a switch stand for.
pub open spec fn cases_view(cases: Seq<(String, Vec<FlowStep>)>) -> Seq<(Seq<char>, Seq<Step>)>
    decreases cases,
{
    Seq::new(
        cases.len(),
        |i: int|
            if 0 <= i < cases.len() {
                (cases[i].0@, steps_view(cases[i].1@))
            } else {
                arbitrary()
            },
    )
}

impl View for FlowStep {
    type V = Step;

    open spec fn view(&self) -> Step
        decreases self,
    {
        match self {
            FlowStep::Call { name, is_external, raw_text, service, offset, line } => Step::Call {
                name: name@,
                is_external: *is_external,
                raw_text: raw_text@,
                service: match service {
                    Some(s) => Some(s@),
                    None => None,
                },
                offset: *offset,
                line: *line,
            },
            FlowStep::Decision { label, offset, line, yes_branch, no_branch } => Step::Decision {
                label: label@,
                offset: *offset,
                line: *line,
                yes_branch: steps_view(yes_branch@),
                no_branch: steps_view(no_branch@),
            },
            FlowStep::Loop { label, offset, line, body } => Step::Loop {
                label: label@,
                offset: *offset,
                line: *line,
                body: steps_view(body@),
            },
            FlowStep::Switch { label, offset, line, cases } => Step::Switch {
                label: label@,
                offset: *offset,
                line: *line,
                cases: cases_view(cases@),
            },
            FlowStep::Return { label, offset, line } => Step::Return {
                label: label@,
                offset: *offset,
                line: *line,
            },
        }
    }
}

} // verus!
