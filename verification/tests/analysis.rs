use sql_helper::collect::{child_in_field, field_text_of, read_method};
use sql_helper::classify::{find_calls, find_calls_in_node};
use sql_helper::extract::extract_method_flow;
use sql_helper::graph::analyze;
use sql_helper::java_tree::{build_tree, judge, parse_syntax, NodeRecord, SyntaxError, MAX_DEPTH};
use sql_helper::model::{FlowStep, MethodNode};
use sql_helper::parser::JavaParser;
use sql_helper::syntax::SyntaxNode;
use sql_helper::table::Table;

fn texts(steps: &[FlowStep]) -> Vec<String> {
    steps
        .iter()
        .map(|s| match s {
            FlowStep::Call { name, is_external, raw_text, .. } => {
                if *is_external {
                    format!("ext:{}", raw_text)
                } else {
                    format!("int:{}", name)
                }
            }
            FlowStep::Decision { label, yes_branch, no_branch, .. } => {
                format!("if:{}[{}][{}]", label, texts(yes_branch).join(","), texts(no_branch).join(","))
            }
            FlowStep::Loop { label, body, .. } => {
                format!("loop:{}[{}]", label, texts(body).join(","))
            }
            FlowStep::Switch { label, cases, .. } => {
                let groups: Vec<String> =
                    cases.iter().map(|(l, s)| format!("{}=>[{}]", l, texts(s).join(","))).collect();
                format!("{}{{{}}}", label, groups.join(";"))
            }
            FlowStep::Return { label, .. } => format!("ret:{}", label),
        })
        .collect()
}

fn flow_of(source: &str, method: &str) -> Vec<String> {
    let graph = JavaParser::parse(source).expect("Parse failed");
    texts(graph.flows.get(method).expect("no flow"))
}

#[test]
fn sequential_statements_keep_their_order_in_flow_and_calls() {
    let source = "class A { void m() { a(); b(); c(); } void a() {} void b() {} void c() {} }";
    let graph = JavaParser::parse(source).expect("Parse failed");
    assert_eq!(texts(graph.flows.get("m").unwrap()), vec!["int:a", "int:b", "int:c"]);
    assert_eq!(graph.calls.get("m").unwrap(), &vec!["a", "b", "c"]);
}

#[test]
fn calls_are_classified_as_internal_or_external() {
    let source = "class A { void study() { teacher.ask(); this.lesson1(); lesson1(); this.other(); unknown(); } void lesson1() {} }";
    let graph = JavaParser::parse(source).expect("Parse failed");
    assert_eq!(
        texts(graph.flows.get("study").unwrap()),
        vec!["ext:teacher.ask()", "int:lesson1", "int:lesson1", "int:other", "ext:unknown()"]
    );
    assert_eq!(graph.calls.get("study").unwrap(), &vec!["lesson1", "lesson1"]);
    let text = JavaParser::generate_mermaid(&graph, source, Some("study".to_string()));
    assert!(text.contains("[\"External: teacher.ask()\"]:::external"));
    assert!(text.contains("[\"lesson1\"]:::internal"));
}

#[test]
fn call_steps_carry_offset_line_and_raw_text() {
    let source = "class A {\n  void m() {\n    svc.run(1);\n  }\n}";
    let graph = JavaParser::parse(source).expect("Parse failed");
    let flow = graph.flows.get("m").unwrap();
    assert_eq!(flow.len(), 1);
    match &flow[0] {
        FlowStep::Call { name, is_external, raw_text, service, offset, line } => {
            assert_eq!(service.as_deref(), Some("svc"));
            assert_eq!(name, "run");
            assert!(*is_external);
            assert_eq!(raw_text, "svc.run(1)");
            assert_eq!(*offset, source.find("svc.run").unwrap());
            assert_eq!(*line, 3);
        }
        other => panic!("unexpected step {:?}", other),
    }
}

#[test]
fn nested_calls_surface_outer_before_inner() {
    let source = "class A { void m() { a(b(c()), d()); } void a() {} void b() {} void c() {} void d() {} }";
    let graph = JavaParser::parse(source).expect("Parse failed");
    assert_eq!(texts(graph.flows.get("m").unwrap()), vec!["int:a", "int:b", "int:c", "int:d"]);
    assert_eq!(graph.calls.get("m").unwrap(), &vec!["a", "b", "c", "d"]);
}

#[test]
fn calls_below_a_receiver_are_steps_but_not_callees() {
    let source = "class A { void m() { make().run(z()); } void make() {} void z() {} void run() {} }";
    let graph = JavaParser::parse(source).expect("Parse failed");
    assert_eq!(
        texts(graph.flows.get("m").unwrap()),
        vec!["ext:make().run(z())", "int:make", "int:z"]
    );
    assert_eq!(graph.calls.get("m").unwrap(), &vec!["z"]);
}

#[test]
fn local_variable_declarations_are_searched_for_calls() {
    let source = "class A { void m() { int x = compute(1); } int compute(int v) { return v; } }";
    assert_eq!(flow_of(source, "m"), vec!["int:compute"]);
}

#[test]
fn return_is_one_step_with_normalized_quotes() {
    let source = "class A { String m() { return name(\"a\"); } String name(String s) { return s; } }";
    let graph = JavaParser::parse(source).expect("Parse failed");
    assert_eq!(texts(graph.flows.get("m").unwrap()), vec!["ret:return name('a');"]);
    assert_eq!(graph.calls.get("m").unwrap(), &vec!["name"]);
    match &graph.flows.get("m").unwrap()[0] {
        FlowStep::Return { offset, line, .. } => {
            assert_eq!(*offset, source.find("return name").unwrap());
            assert_eq!(*line, 1);
        }
        other => panic!("unexpected step {:?}", other),
    }
}

#[test]
fn if_emits_condition_calls_then_decision() {
    let source = "class A { void m() { if (repo.isValid(\"k\")) { send(); } else if (other()) { stop(); } else { skip(); } } }";
    assert_eq!(
        flow_of(source, "m"),
        vec![
            "ext:repo.isValid(\"k\")",
            "if:(repo.isValid('k'))[ext:send()][ext:other(),if:(other())[ext:stop()][ext:skip()]]"
        ]
    );
}

#[test]
fn if_without_else_has_empty_no_branch() {
    let source = "class A { void m() { if (x > 0) positive(); done(); } }";
    assert_eq!(flow_of(source, "m"), vec!["if:(x > 0)[ext:positive()][]", "ext:done()"]);
}

#[test]
fn decision_label_is_on_one_line_and_points_to_the_condition() {
    let source = "class A {\n void m() {\n  if (a\n && b) { }\n }\n}";
    let graph = JavaParser::parse(source).expect("Parse failed");
    match &graph.flows.get("m").unwrap()[0] {
        FlowStep::Decision { label, offset, line, .. } => {
            assert_eq!(label, "(a  && b)");
            assert_eq!(*offset, source.find("(a").unwrap());
            assert_eq!(*line, 3);
        }
        other => panic!("unexpected step {:?}", other),
    }
}

#[test]
fn loops_of_all_kinds_have_one_shape() {
    let source = "class A { void m() { for (int i = 0; i < n; i++) { a(); } while (go()) { b(); } do { c(); } while (more()); for (String s : items) d(s); } }";
    assert_eq!(
        flow_of(source, "m"),
        vec![
            "loop:for (...)[ext:a()]",
            "loop:while (go())[ext:b()]",
            "loop:do...while (more())[ext:c()]",
            "loop:for (s : items)[ext:d(s)]"
        ]
    );
}

#[test]
fn long_loop_labels_are_clipped() {
    let source = "class A { void m() { while (alpha > 0 && beta > 0 && gamma > 0 && delta > 0 && epsilon > 0 && zeta > 0) { } } }";
    let labels = flow_of(source, "m");
    let expected = format!("loop:{}...[]", &"while (alpha > 0 && beta > 0 && gamma > 0 && delta > 0 && epsilon > 0 && zeta > 0)"[..57]);
    assert_eq!(labels, vec![expected]);
}

#[test]
fn loop_label_replaces_quotes_and_line_feeds() {
    let source = "class A { void m() { while (s.equals(\"a\")\n || t) { } } }";
    assert_eq!(flow_of(source, "m"), vec!["loop:while (s.equals('a')  || t)[]"]);
}

#[test]
fn switch_cases_keep_source_order() {
    let source = "class A { void m(int code) { switch (code) { case 1: one(); break; case 2: two(); break; default: other(); } } }";
    assert_eq!(
        flow_of(source, "m"),
        vec!["switch (code){case 1=>[ext:one()];case 2=>[ext:two()];default=>[ext:other()]}"]
    );
}

#[test]
fn switch_step_points_to_the_statement() {
    let source = "class A {\n void m(int c) {\n  switch (c) { }\n }\n}";
    let graph = JavaParser::parse(source).expect("Parse failed");
    match &graph.flows.get("m").unwrap()[0] {
        FlowStep::Switch { label, offset, line, cases } => {
            assert_eq!(label, "switch (c)");
            assert_eq!(*offset, source.find("switch").unwrap());
            assert_eq!(*line, 3);
            assert!(cases.is_empty());
        }
        other => panic!("unexpected step {:?}", other),
    }
}

#[test]
fn unhandled_statements_are_searched_through_their_children() {
    let source = "class A { void m() { try { a(); } catch (Exception e) { b(); } finally { c(); } synchronized (this) { d(); } } }";
    assert_eq!(flow_of(source, "m"), vec!["ext:a()", "ext:b()", "ext:c()", "ext:d()"]);
}

#[test]
fn method_declarations_are_described() {
    let source = "class A {\n  public static final int count(String s) { return 1; }\n  A() {}\n  void plain() {}\n}";
    let graph = JavaParser::parse(source).expect("Parse failed");
    let count = graph.nodes.get("count").unwrap();
    assert_eq!(count.name, "count");
    assert_eq!(count.modifiers, vec!["public", "static", "final"]);
    assert_eq!(count.return_type, "int");
    let start = source.find("public static").unwrap();
    let end = source.find("return 1; }").unwrap() + "return 1; }".len();
    assert_eq!(count.range, (start, end));
    let plain = graph.nodes.get("plain").unwrap();
    assert!(plain.modifiers.is_empty());
    assert_eq!(plain.return_type, "void");
    assert!(!graph.nodes.contains_key("A"));
    assert_eq!(graph.nodes.len(), 2);
}

#[test]
fn later_declaration_of_a_name_replaces_the_earlier() {
    let source = "class A { public void m() { a(); } private int m(int x) { b(); return x; } void a() {} void b() {} }";
    let graph = JavaParser::parse(source).expect("Parse failed");
    let m = graph.nodes.get("m").unwrap();
    assert_eq!(m.modifiers, vec!["private"]);
    assert_eq!(m.return_type, "int");
    assert_eq!(graph.calls.get("m").unwrap(), &vec!["b"]);
    assert_eq!(texts(graph.flows.get("m").unwrap()), vec!["int:b", "ret:return x;"]);
    assert_eq!(graph.nodes.len(), 3);
}

#[test]
fn nested_classes_are_searched_and_interfaces_are_not() {
    let source = "class A { class B { void inner() {} } void outer() { inner(); } } interface I { void contract(); }";
    let graph = JavaParser::parse(source).expect("Parse failed");
    assert!(graph.nodes.contains_key("inner"));
    assert!(graph.nodes.contains_key("outer"));
    assert!(!graph.nodes.contains_key("contract"));
    assert_eq!(graph.calls.get("outer").unwrap(), &vec!["inner"]);
}

#[test]
fn source_without_methods_gives_an_empty_graph() {
    let graph = JavaParser::parse("class Empty { int x; }").expect("Parse failed");
    assert_eq!(graph.nodes.len(), 0);
    assert_eq!(graph.calls.len(), 0);
    assert_eq!(graph.flows.len(), 0);
    let graph = JavaParser::parse("").expect("Parse failed");
    assert_eq!(graph.nodes.len(), 0);
}

#[test]
fn broken_source_still_gives_a_graph() {
    assert!(JavaParser::parse("class A { void ok() { a(); } void broken( { ").is_ok());
    assert!(JavaParser::parse("}}} not java at all {{{").is_ok());
}

#[test]
fn every_method_with_calls_or_flow_is_declared() {
    let source = "class A { public void a() { b(); } void b() { c.d(); } class N { void e() {} } }";
    let graph = JavaParser::parse(source).expect("Parse failed");
    let mut i = 0;
    while i < graph.calls.len() {
        assert!(graph.nodes.contains_key(graph.calls.key_at(i)));
        i += 1;
    }
    let mut i = 0;
    while i < graph.flows.len() {
        assert!(graph.nodes.contains_key(graph.flows.key_at(i)));
        i += 1;
    }
    assert_eq!(graph.calls.len(), 3);
    assert_eq!(graph.flows.len(), 3);
}

#[test]
fn abstract_method_has_no_calls_and_no_flow() {
    let source = "abstract class A { public abstract void m(); }";
    let graph = JavaParser::parse(source).expect("Parse failed");
    assert!(graph.calls.get("m").unwrap().is_empty());
    assert!(graph.flows.get("m").unwrap().is_empty());
    assert_eq!(graph.nodes.get("m").unwrap().modifiers, vec!["public", "abstract"]);
}

#[test]
fn non_ascii_source_is_sliced_on_character_boundaries() {
    let source = "class A { void m() { log.info(\"độ dài\"); ghi(); } void ghi() {} }";
    let graph = JavaParser::parse(source).expect("Parse failed");
    assert_eq!(texts(graph.flows.get("m").unwrap()), vec!["ext:log.info(\"độ dài\")", "int:ghi"]);
    let text = JavaParser::generate_mermaid(&graph, source, Some("m".to_string()));
    assert!(text.contains("External: log.info('độ dài')"));
}

#[test]
fn parse_equals_analysis_of_the_syntax_tree() {
    let source = "class A { public void m() { if (x) { a(); } } void a() {} }";
    let tree = parse_syntax(source).ok().unwrap();
    assert_eq!(tree.kind, "program");
    assert!(tree.field.is_none());
    assert_eq!((tree.start, tree.end, tree.row, tree.line()), (0, source.len(), 0, 1));
    let direct = analyze(&tree, source);
    let parsed = JavaParser::parse(source).expect("Parse failed");
    assert_eq!(format!("{:?}", direct.flows.get("m")), format!("{:?}", parsed.flows.get("m")));
    assert_eq!(format!("{:?}", direct.nodes.get("m")), format!("{:?}", parsed.nodes.get("m")));
    assert_eq!(direct.calls.get("m"), parsed.calls.get("m"));
}

fn leaf(kind: &str, field: Option<&str>, start: usize, end: usize) -> SyntaxNode {
    SyntaxNode {
        kind: kind.to_string(),
        field: field.map(|f| f.to_string()),
        named: true,
        start,
        end,
        row: 0,
        children: vec![],
    }
}

fn node(kind: &str, field: Option<&str>, start: usize, end: usize, children: Vec<SyntaxNode>) -> SyntaxNode {
    SyntaxNode { children, ..leaf(kind, field, start, end) }
}

#[test]
fn hand_built_tree_is_analysed_like_a_parsed_one() {
    //            0         1         2
    //            0123456789012345678901234567
    let source = "void run ( ) { go ( ) ; }";
    let invocation = node(
        "method_invocation",
        None,
        15,
        21,
        vec![leaf("identifier", Some("name"), 15, 17), leaf("argument_list", Some("arguments"), 18, 21)],
    );
    let statement = node("expression_statement", None, 15, 23, vec![invocation]);
    let body = node("block", Some("body"), 13, 25, vec![statement]);
    let run = node(
        "method_declaration",
        None,
        0,
        25,
        vec![
            leaf("void_type", Some("type"), 0, 4),
            leaf("identifier", Some("name"), 4, 9),
            body,
        ],
    );
    let go = node(
        "method_declaration",
        None,
        0,
        0,
        vec![node("modifiers", None, 0, 4, vec![]), leaf("identifier", Some("name"), 15, 17)],
    );
    let root = node("program", None, 0, 25, vec![node("class_body", None, 0, 25, vec![run, go])]);
    let graph = analyze(&root, source);
    assert_eq!(graph.nodes.get("run").unwrap().return_type, "void");
    assert!(graph.nodes.get("run").unwrap().modifiers.is_empty());
    assert_eq!(graph.nodes.get("go").unwrap().modifiers, vec!["void"]);
    assert_eq!(graph.nodes.get("go").unwrap().return_type, "");
    assert_eq!(graph.calls.get("run").unwrap(), &vec!["go"]);
    assert_eq!(texts(graph.flows.get("run").unwrap()), vec!["int:go"]);
}

#[test]
fn declaration_without_a_name_is_not_recorded() {
    let source = "xxxxxxxx";
    let nameless = node("method_declaration", None, 0, 8, vec![leaf("block", Some("body"), 0, 8)]);
    let elsewhere = node(
        "interface_body",
        None,
        0,
        8,
        vec![node("method_declaration", None, 0, 8, vec![leaf("identifier", Some("name"), 0, 3)])],
    );
    let root = node("program", None, 0, 8, vec![nameless, elsewhere]);
    let graph = analyze(&root, source);
    assert_eq!(graph.nodes.len(), 0);
}

#[test]
fn ranges_outside_the_source_read_as_empty_text() {
    let source = "abc";
    let decl = node(
        "method_declaration",
        None,
        0,
        99,
        vec![leaf("identifier", Some("name"), 2, 40), leaf("type", Some("type"), 2, 1)],
    );
    let method = read_method(&decl, source);
    assert_eq!(method.name, "");
    assert_eq!(method.return_type, "");
    assert_eq!(method.range, (0, 99));
    assert_eq!(field_text_of(&decl, "name", source), "");
    assert!(child_in_field(&decl, "body").is_none());
    assert_eq!(child_in_field(&decl, "type").unwrap().start, 2);
}

#[test]
fn classifier_and_extractor_work_on_single_nodes() {
    let source = "class A { void m() { a(b()); if (c()) { } } void a() {} }";
    let tree = parse_syntax(source).ok().unwrap();
    let graph = analyze(&tree, source);
    let class_body = &tree.children[0].children[2];
    assert_eq!(class_body.kind, "class_body");
    let m = &class_body.children[1];
    assert_eq!(m.kind, "method_declaration");
    assert_eq!(texts(&find_calls_in_node(m, source, &graph.nodes)), vec!["int:a", "ext:b()", "ext:c()"]);
    assert_eq!(find_calls(m, source, &graph.nodes), vec!["a"]);
    assert_eq!(
        texts(&extract_method_flow(m, source, &graph.nodes)),
        vec!["int:a", "ext:b()", "ext:c()", "if:(c())[][]"]
    );
    let empty: Table<MethodNode> = Table::new();
    assert_eq!(texts(&find_calls_in_node(m, source, &empty)), vec!["ext:a(b())", "ext:b()", "ext:c()"]);
    assert!(find_calls(m, source, &empty).is_empty());
}

fn nested(depth: usize) -> String {
    format!("class A {{ void m() {{ x = {}f(){}; }} }}", "(".repeat(depth), ")".repeat(depth))
}

#[test]
fn deep_nesting_within_the_limit_is_analysed() {
    let source = nested(4000);
    let graph = JavaParser::parse(&source).expect("Parse failed");
    assert_eq!(texts(graph.flows.get("m").unwrap()), vec!["ext:f()"]);
}

#[test]
fn nesting_beyond_the_limit_is_refused() {
    let source = nested(sql_helper::java_tree::MAX_DEPTH);
    assert!(matches!(parse_syntax(&source), Err(sql_helper::java_tree::SyntaxError::TooDeep)));
    assert_eq!(JavaParser::parse(&source).err().unwrap(), "Source is nested too deeply");
    let graph = JavaParser::parse("class A { public void m() {} }").expect("Parse failed");
    let text = JavaParser::generate_mermaid(&graph, &source, None);
    assert_eq!(text, "error: parse failed");
}

#[test]
fn switch_rules_with_arrows_are_case_groups() {
    let source = "class A { void m(int x) { switch (x) { case 1 -> a(); case 2, 3 -> { b(); } default -> c(); } } }";
    assert_eq!(
        flow_of(source, "m"),
        vec!["switch (x){case 1=>[ext:a()];case 2, 3=>[ext:b()];default=>[ext:c()]}"]
    );
}

#[test]
fn long_case_labels_are_clipped() {
    let source = "class A { void m(String x) { switch (x) { case \"a very long label that goes on and on\": a(); } } }";
    assert_eq!(
        flow_of(source, "m"),
        vec!["switch (x){case 'a very long label tha...=>[ext:a()]}"]
    );
}

#[test]
fn realistic_source_is_analysed_and_rendered() {
    let source = r#"
package demo;

import java.util.List;

public class OrderService extends Base implements Runnable {
    private final Repo repo;

    @Override
    public void run() {
        List<Order> orders = repo.findAll();
        for (Order o : orders) {
            if (o.isOpen() && !o.isEmpty()) {
                process(o, o2 -> audit(o2));
            } else {
                continue;
            }
        }
        String text = """
            block "quoted"
            """;
        int n = orders.isEmpty() ? 0 : count(orders);
        do {
            n--;
        } while (n > 0);
        new Thread(() -> this.run()).start();
    }

    @Deprecated
    protected <T> T process(Order o, java.util.function.Consumer<Order> c) throws Exception {
        try (Resource r = open()) {
            c.accept(o);
        } catch (RuntimeException | Error e) {
            throw e;
        }
        return null;
    }

    private int count(List<Order> orders) { return orders.size(); }

    static void audit(Order o) {}
}

enum Mode { A, B; void inEnum() {} }
"#;
    let graph = JavaParser::parse(source).expect("Parse failed");
    assert_eq!(graph.nodes.len(), 4);
    assert_eq!(graph.nodes.get("run").unwrap().modifiers, vec!["@Override", "public"]);
    assert_eq!(graph.nodes.get("process").unwrap().modifiers, vec!["@Deprecated", "protected"]);
    assert_eq!(graph.nodes.get("process").unwrap().return_type, "T");
    assert_eq!(graph.nodes.get("audit").unwrap().modifiers, vec!["static"]);
    assert_eq!(graph.calls.get("run").unwrap(), &vec!["process", "audit", "count"]);
    let result = JavaParser::generate_mermaid_filtered(&graph, source, None, &[], &[], false);
    assert!(result.mermaid.starts_with("flowchart TD\n  subgraph process\n"));
    assert!(result.mermaid.contains("  subgraph run\n"));
    assert!(!result.mermaid.contains("subgraph count"));
    assert!(result.mermaid.contains("{{\"for (o : orders)\"}}:::loop"));
    assert!(result.mermaid.contains("{{\"do...while (n > 0)\"}}:::loop"));
    assert_eq!(result.external_services, vec!["c", "repo", "o", "orders", "new Thread(() -> this"]);
    let lines: Vec<&str> = result.mermaid.lines().collect();
    assert_eq!(lines.iter().filter(|l| l.ends_with(":::endNode")).count(), 2);
    assert!(!result.mermaid.contains("\"quoted\""));
}

fn services(source: &str, method: &str) -> Vec<Option<String>> {
    let graph = JavaParser::parse(source).expect("Parse failed");
    graph
        .flows
        .get(method)
        .unwrap()
        .iter()
        .map(|s| match s {
            FlowStep::Call { service, .. } => service.clone(),
            _ => None,
        })
        .collect()
}

#[test]
fn service_is_the_receiver_before_its_first_dot() {
    let source = "class A { void m() { repo.save(); this.repo.find(); System.out.println(1); make().run(); print(a.b); this.own(x.y); own(); } void own() {} }";
    assert_eq!(
        services(source, "m"),
        vec![
            Some("repo".to_string()),
            Some("this".to_string()),
            Some("System".to_string()),
            Some("make()".to_string()),
            None,
            None,
            None,
            None
        ]
    );
    let graph = JavaParser::parse(source).expect("Parse failed");
    let r = JavaParser::generate_mermaid_filtered(&graph, source, None, &[], &[], false);
    assert!(r.external_services.is_empty());
    let r = JavaParser::generate_mermaid_filtered(&graph, source, Some("m".to_string()), &[], &[], false);
    assert_eq!(r.external_services, vec!["repo", "this", "System", "make()"]);
}

#[test]
fn default_settings_leave_standard_stream_calls_in() {
    let source = "class A { public void m() { System.out.println(1); System.err.print(2); } }";
    let graph = JavaParser::parse(source).expect("Parse failed");
    let text = JavaParser::generate_mermaid(&graph, source, None);
    assert!(text.contains("External: System.out.println(1)"));
    assert!(text.contains("External: System.err.print(2)"));
    let r = JavaParser::generate_mermaid_filtered(&graph, source, None, &[], &["System".to_string()], false);
    assert!(!r.mermaid.contains("System.out"));
    assert!(!r.mermaid.contains("System.err"));
}

fn record(kind: &'static str, field: Option<&'static str>, children: usize) -> NodeRecord {
    (kind, field, true, 0, 9, 0, children)
}

#[test]
fn build_tree_makes_the_tree_of_a_node_list() {
    let items = vec![
        ("program", None, true, 0, 20, 0, 2),
        ("class_declaration", None, true, 0, 12, 0, 2),
        ("identifier", Some("name"), true, 6, 7, 0, 0),
        ("{", None, false, 8, 9, 1, 0),
        ("line_comment", None, true, 14, 20, 3, 0),
        ("stray", None, true, 0, 0, 0, 0),
    ];
    let (tree, next) = build_tree(&items, 0, 3).unwrap();
    assert_eq!(next, 5);
    assert_eq!(tree.kind, "program");
    assert_eq!((tree.start, tree.end, tree.row), (0, 20, 0));
    assert_eq!(tree.children.len(), 2);
    let class = &tree.children[0];
    assert_eq!(class.kind, "class_declaration");
    assert_eq!(class.children.len(), 2);
    assert_eq!(class.children[0].field.as_deref(), Some("name"));
    assert_eq!((class.children[0].start, class.children[0].end), (6, 7));
    assert!(!class.children[1].named);
    assert_eq!(class.children[1].row, 1);
    assert!(class.children[1].children.is_empty());
    assert_eq!(tree.children[1].kind, "line_comment");
    assert_eq!(tree.children[1].row, 3);
    let (inner, behind) = build_tree(&items, 1, 2).unwrap();
    assert_eq!((inner.kind.as_str(), behind), ("class_declaration", 4));
    assert!(build_tree(&items, 0, 2).is_none());
    assert!(build_tree(&items, 0, 0).is_none());
    assert!(build_tree(&items, 6, 5).is_none());
    let short = vec![record("a", None, 2), record("b", None, 0)];
    assert!(build_tree(&short, 0, 5).is_none());
}

#[test]
fn judge_says_why_there_is_no_tree() {
    let tree = judge(Ok(Some(vec![record("program", None, 1), record("x", None, 0)]))).ok().unwrap();
    assert_eq!(tree.kind, "program");
    assert_eq!(tree.children.len(), 1);
    assert!(matches!(judge(Ok(None)), Err(SyntaxError::NoTree)));
    assert!(matches!(judge(Ok(Some(vec![]))), Err(SyntaxError::TooDeep)));
    match judge(Err("no grammar".to_string())) {
        Err(SyntaxError::Language(message)) => assert_eq!(message, "no grammar"),
        other => panic!("unexpected result {:?}", other),
    }
    let mut deep: Vec<NodeRecord> = (0..MAX_DEPTH).map(|_| record("x", None, 1)).collect();
    deep.push(record("x", None, 0));
    assert!(matches!(judge(Ok(Some(deep.clone()))), Err(SyntaxError::TooDeep)));
    deep.remove(0);
    assert!(judge(Ok(Some(deep))).is_ok());
}

#[test]
fn lines_of_steps_are_rows_plus_one() {
    let mut call = node(
        "method_invocation",
        None,
        0,
        3,
        vec![leaf("identifier", Some("name"), 0, 1)],
    );
    call.row = 41;
    let statement = SyntaxNode { row: usize::MAX, ..node("return_statement", None, 0, 3, vec![]) };
    let empty: Table<MethodNode> = Table::new();
    match &find_calls_in_node(&call, "a()", &empty)[0] {
        FlowStep::Call { line, service, is_external, .. } => {
            assert_eq!(*line, 42);
            assert!(service.is_none());
            assert!(*is_external);
        }
        other => panic!("unexpected step {:?}", other),
    }
    assert_eq!(call.line(), 42);
    assert_eq!(statement.line(), usize::MAX);
    assert_eq!(leaf("x", None, 0, 0).line(), 1);
}
