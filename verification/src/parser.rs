//! The two entry points: parsing a Java source unit into its call graph,
//! and rendering a call graph as flowchart markup.
use vstd::prelude::*;
use vstd::string::*;
use crate::chart::{
    collect_services,
    diagram,
    draw,
    fits,
    select_targets,
    services_from,
    targets,
    targets_weight,
};
use crate::diagram::Rules;
use crate::graph::{analysis, analyze, CallGraph, GraphView};
use crate::java_tree::{java_tree, parse_syntax, syntax_view, SyntaxError, SyntaxFault};
use crate::laws::law_callers_are_declared;
use crate::render::ignored_names;
use crate::syntax::{SyntaxNode, SyntaxTree};
use crate::text::texts;

verus! {

/// The settings of a rendering.
#[derive(Debug, Clone)]
pub struct FlowSettings {
    /// Names of variables whose calls are left out of the diagram.
    pub ignored_variables: Vec<String>,
    /// Names of services whose calls are left out of the diagram.
    pub ignored_services: Vec<String>,
    /// Whether a diagram of all methods shows one node for each.
    pub collapse_details: bool,
    /// Whether each label carries the source line of its step.
    pub show_source_reference: bool,
}

impl Default for FlowSettings {
    /// No ignored variables, the names `System.out` and `System.err` as
    /// ignored services, nothing collapsed, no source lines. A service
    /// name never holds a dot, so these two names leave no call out.
    fn default() -> (s: Self)
        ensures
            texts(s.ignored_variables@) == Seq::<Seq<char>>::empty(),
            texts(s.ignored_services@) == seq!["System.out"@, "System.err"@],
            !s.collapse_details,
            !s.show_source_reference,
    {
        let ignored_variables: Vec<String> = Vec::new();
        let mut ignored_services: Vec<String> = Vec::new();
        ignored_services.push("System.out".to_owned());
        ignored_services.push("System.err".to_owned());
        assert(texts(ignored_variables@) =~= Seq::<Seq<char>>::empty());
        assert(texts(ignored_services@) =~= seq!["System.out"@, "System.err"@]);
        FlowSettings {
            ignored_variables,
            ignored_services,
            collapse_details: false,
            show_source_reference: false,
        }
    }
}

/// What a caller may set for one rendering on top of the stored settings.
#[derive(Debug, Clone)]
pub struct MermaidOptions {
    /// Names of services to ignore for this rendering.
    pub session_ignore_services: Vec<String>,
    /// Whether a diagram of all methods shows one node for each.
    pub collapse_details: bool,
}

impl Default for MermaidOptions {
    /// No ignored services, nothing collapsed.
    fn default() -> (o: Self)
        ensures
            o.session_ignore_services@ == Seq::<String>::empty(),
            !o.collapse_details,
    {
        MermaidOptions { session_ignore_services: Vec::new(), collapse_details: false }
    }
}

/// A rendered diagram.
#[derive(Debug, Clone)]
pub struct MermaidResult {
    /// The flowchart markup, or a text that starts with `error:`.
    pub mermaid: String,
    /// The distinct receiver names of the external calls of the methods
    /// shown, whether the diagram leaves them out or not.
    pub external_services: Vec<String>,
}

/// What a `MermaidResult` stands for.
pub struct ResultView {
    pub mermaid: Seq<char>,
    pub external_services: Seq<Seq<char>>,
}

impl View for MermaidResult {
    type V = ResultView;

    open spec fn view(&self) -> ResultView {
        ResultView { mermaid: self.mermaid@, external_services: texts(self.external_services@) }
    }
}

/// The result that carries a message in place of a diagram.
pub open spec fn failed(message: Seq<char>) -> ResultView {
    ResultView { mermaid: message, external_services: Seq::empty() }
}

/// The rendering of `graph`: its diagram and the external services of the
/// methods shown; a message where the diagram has too many nodes to number.
pub open spec fn rendering(
    graph: CallGraph,
    method: Option<Seq<char>>,
    rules: Rules,
    collapse: bool,
) -> ResultView {
    if fits(graph, method, collapse) {
        ResultView {
            mermaid: diagram(graph, method, rules, collapse),
            external_services: services_from(graph, targets(graph, method), 0, Seq::empty()),
        }
    } else {
        failed("error: diagram too large"@)
    }
}

/// What rendering returns once the source has been read again: a message
/// where that failed, the rendering of the graph otherwise.
pub open spec fn outcome(
    parsed: Result<SyntaxTree, SyntaxFault>,
    graph: CallGraph,
    method: Option<Seq<char>>,
    rules: Rules,
    collapse: bool,
) -> ResultView {
    match parsed {
        Ok(_) => rendering(graph, method, rules, collapse),
        Err(SyntaxFault::Language(_)) => failed("error: failed to set language"@),
        Err(_) => failed("error: parse failed"@),
    }
}

/// What parsing returns for each result of reading the source: the call
/// graph of the tree, or the message of the failure.
pub open spec fn parse_outcome(parsed: Result<SyntaxTree, SyntaxFault>, src: Seq<char>) -> Result<
    GraphView,
    Seq<char>,
> {
    match parsed {
        Ok(tree) => Ok(analysis(tree, src)),
        Err(SyntaxFault::Language(message)) => Err(message),
        Err(SyntaxFault::NoTree) => Err("Failed to parse source"@),
        Err(SyntaxFault::TooDeep) => Err("Source is nested too deeply"@),
    }
}

/// The rules of the default settings: the ignored names are `System.out`
/// and `System.err`, no source lines. A service name never holds a dot, so
/// under these rules no call is left out.
pub open spec fn default_rules() -> Rules {
    Rules {
        ignored: Set::new(|k: Seq<char>| k == "System.out"@ || k == "System.err"@),
        show_lines: false,
    }
}

/// What an optional name stands for.
pub open spec fn name_view(name: Option<String>) -> Option<Seq<char>> {
    match name {
        Some(n) => Some(n@),
        None => None,
    }
}

/// What the result of a parse stands for.
pub open spec fn parsed_view(r: Result<CallGraph, String>) -> Result<GraphView, Seq<char>> {
    match r {
        Ok(g) => Ok(g@),
        Err(e) => Err(e@),
    }
}

/// The result that carries `message` in place of a diagram.
fn failure(message: &str) -> (r: MermaidResult)
    ensures
        r@ == failed(message@),
{
    let external_services: Vec<String> = Vec::new();
    assert(texts(external_services@) =~= Seq::<Seq<char>>::empty());
    MermaidResult { mermaid: message.to_owned(), external_services }
}

/// The analyser of Java source units.
pub struct JavaParser;

impl JavaParser {
    /// Parses a Java source unit into its call graph: the analysis of the
    /// unit's syntax tree, or the message that says why it has none.
    pub fn parse(source: &str) -> (r: Result<CallGraph, String>)
        ensures
            parsed_view(r) == parse_outcome(java_tree(source@), source@),
            r matches Ok(graph) ==> graph@.calls.dom() == graph@.nodes.dom() && graph@.flows.dom()
                == graph@.nodes.dom(),
    {
        let parsed = parse_syntax(source);
        proof {
            if let Ok(tree) = java_tree(source@) {
                law_callers_are_declared(tree, source@);
            }
        }
        Self::parse_tree(parsed, source)
    }

    /// The call graph of a source unit of which `parsed` is the result of
    /// reading it.
    pub fn parse_tree(parsed: Result<SyntaxNode, SyntaxError>, source: &str) -> (r: Result<
        CallGraph,
        String,
    >)
        ensures
            parsed_view(r) == parse_outcome(syntax_view(parsed), source@),
    {
        match parsed {
            Ok(tree) => Ok(analyze(&tree, source)),
            Err(SyntaxError::Language(message)) => Err(message),
            Err(SyntaxError::NoTree) => Err("Failed to parse source".to_owned()),
            Err(SyntaxError::TooDeep) => Err("Source is nested too deeply".to_owned()),
        }
    }

    /// Renders `graph` without reading any source: the diagram of the
    /// method asked for, or of every public and protected method.
    pub fn render_graph(
        graph: &CallGraph,
        method_name: &Option<String>,
        ignored_variables: &[String],
        ignored_services: &[String],
        collapse_details: bool,
        show_source_reference: bool,
    ) -> (r: MermaidResult)
        ensures
            r@ == rendering(
                *graph,
                name_view(*method_name),
                Rules {
                    ignored: ignored_names(ignored_variables@, ignored_services@),
                    show_lines: show_source_reference,
                },
                collapse_details,
            ),
    {
        let names = select_targets(graph, method_name);
        let overview = collapse_details && method_name.is_none();
        if !overview && targets_weight(graph, &names) == usize::MAX {
            return failure("error: diagram too large");
        }
        let mermaid = draw(
            graph,
            &names,
            overview,
            ignored_variables,
            ignored_services,
            show_source_reference,
        );
        let external_services = collect_services(graph, &names);
        MermaidResult { mermaid, external_services }
    }

    /// Renders `graph` for a source of which `parsed` is the result of
    /// reading it again.
    pub fn render_parsed(
        parsed: &Result<SyntaxNode, SyntaxError>,
        graph: &CallGraph,
        method_name: &Option<String>,
        ignored_variables: &[String],
        ignored_services: &[String],
        collapse_details: bool,
        show_source_reference: bool,
    ) -> (r: MermaidResult)
        ensures
            r@ == outcome(
                syntax_view(*parsed),
                *graph,
                name_view(*method_name),
                Rules {
                    ignored: ignored_names(ignored_variables@, ignored_services@),
                    show_lines: show_source_reference,
                },
                collapse_details,
            ),
    {
        match parsed {
            Ok(_) => Self::render_graph(
                graph,
                method_name,
                ignored_variables,
                ignored_services,
                collapse_details,
                show_source_reference,
            ),
            Err(SyntaxError::Language(_)) => failure("error: failed to set language"),
            Err(_) => failure("error: parse failed"),
        }
    }

    /// Renders `graph`, the call graph of `source`, under `settings`. Where
    /// the source cannot be read again the diagram text is a message.
    pub fn render(
        graph: &CallGraph,
        source: &str,
        method_name: Option<String>,
        settings: &FlowSettings,
    ) -> (r: MermaidResult)
        ensures
            r@ == outcome(
                java_tree(source@),
                *graph,
                name_view(method_name),
                Rules {
                    ignored: ignored_names(
                        settings.ignored_variables@,
                        settings.ignored_services@,
                    ),
                    show_lines: settings.show_source_reference,
                },
                settings.collapse_details,
            ),
    {
        let parsed = parse_syntax(source);
        Self::render_parsed(
            &parsed,
            graph,
            &method_name,
            settings.ignored_variables.as_slice(),
            settings.ignored_services.as_slice(),
            settings.collapse_details,
            settings.show_source_reference,
        )
    }

    /// Renders `graph`, the call graph of `source`, with the given ignore
    /// lists and without source lines.
    pub fn generate_mermaid_filtered(
        graph: &CallGraph,
        source: &str,
        method_name: Option<String>,
        ignored_variables: &[String],
        ignored_services: &[String],
        collapse_details: bool,
    ) -> (r: MermaidResult)
        ensures
            r@ == outcome(
                java_tree(source@),
                *graph,
                name_view(method_name),
                Rules {
                    ignored: ignored_names(ignored_variables@, ignored_services@),
                    show_lines: false,
                },
                collapse_details,
            ),
    {
        let parsed = parse_syntax(source);
        Self::render_parsed(
            &parsed,
            graph,
            &method_name,
            ignored_variables,
            ignored_services,
            collapse_details,
            false,
        )
    }

    /// The diagram text of `graph`, the call graph of `source`, under the
    /// default settings.
    pub fn generate_mermaid(graph: &CallGraph, source: &str, method_name: Option<String>) -> (text:
        String)
        ensures
            text@ == outcome(
                java_tree(source@),
                *graph,
                name_view(method_name),
                default_rules(),
                false,
            ).mermaid,
    {
        let settings = FlowSettings::default();
        proof {
            let v = texts(settings.ignored_variables@);
            let s = texts(settings.ignored_services@);
            assert forall|k: Seq<char>| s.contains(k) <==> k == "System.out"@ || k
                == "System.err"@ by {
                assert(s[0] == "System.out"@);
                assert(s[1] == "System.err"@);
            }
            assert(ignored_names(settings.ignored_variables@, settings.ignored_services@)
                =~= default_rules().ignored);
        }
        let r = Self::render(graph, source, method_name, &settings);
        r.mermaid
    }
}

} // verus!
