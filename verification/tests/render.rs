use sql_helper::chart::{collect_services, flow_weight, select_targets, targets_weight};
use sql_helper::graph::CallGraph;
use sql_helper::java_tree::SyntaxError;
use sql_helper::model::{FlowStep, MethodNode};
use sql_helper::parser::{FlowSettings, JavaParser, MermaidOptions};
use sql_helper::render::FlowGenerator;
use sql_helper::syntax::SyntaxNode;
use sql_helper::table::Table;

const FOOTER: &str = "  classDef public fill:#f9f,stroke:#333,stroke-width:2px;\n  classDef internal fill:#e1f5fe,stroke:#01579b,stroke-width:1px;\n  classDef external fill:#ffe0b2,stroke:#e65100,stroke-width:1px,stroke-dasharray: 5 5;\n  classDef decision fill:#fff9c4,stroke:#fbc02d,stroke-width:1px,shape:rhombus;\n  classDef loop fill:#e8f5e9,stroke:#2e7d32,stroke-width:1px;\n  classDef endNode fill:#fce4ec,stroke:#c62828,stroke-width:2px;\n";

fn call(name: &str, offset: usize, line: usize) -> FlowStep {
    FlowStep::Call {
        name: name.to_string(),
        is_external: false,
        raw_text: format!("{}()", name),
        service: None,
        offset,
        line,
    }
}

fn external(raw: &str, name: &str, offset: usize, line: usize) -> FlowStep {
    FlowStep::Call {
        name: name.to_string(),
        is_external: true,
        raw_text: raw.to_string(),
        service: raw.split_once('.').map(|(receiver, _)| receiver.to_string()),
        offset,
        line,
    }
}

fn graph_of(methods: Vec<(&str, Vec<&str>, Vec<FlowStep>)>) -> CallGraph {
    let mut nodes: Table<MethodNode> = Table::new();
    let mut calls: Table<Vec<String>> = Table::new();
    let mut flows: Table<Vec<FlowStep>> = Table::new();
    for (name, modifiers, steps) in methods {
        nodes.insert(
            name.to_string(),
            MethodNode {
                name: name.to_string(),
                range: (0, 0),
                modifiers: modifiers.iter().map(|m| m.to_string()).collect(),
                return_type: "void".to_string(),
            },
        );
        calls.insert(name.to_string(), vec![]);
        flows.insert(name.to_string(), steps);
    }
    CallGraph { nodes, calls, flows }
}

fn render(graph: &CallGraph, method: Option<&str>, settings: &FlowSettings) -> String {
    JavaParser::render_graph(
        graph,
        &method.map(|m| m.to_string()),
        &settings.ignored_variables,
        &settings.ignored_services,
        settings.collapse_details,
        settings.show_source_reference,
    )
    .mermaid
}

fn plain() -> FlowSettings {
    FlowSettings {
        ignored_variables: vec![],
        ignored_services: vec![],
        collapse_details: false,
        show_source_reference: false,
    }
}

fn lines(parts: &[&str]) -> String {
    let mut text = String::new();
    for part in parts {
        text.push_str(part);
    }
    text
}

fn body(parts: &[&str]) -> String {
    format!("flowchart TD\n{}{}", lines(parts), FOOTER)
}

#[test]
fn empty_graph_renders_header_and_styles() {
    let graph = graph_of(vec![]);
    assert_eq!(render(&graph, None, &plain()), body(&[]));
}

#[test]
fn sequential_calls_render_exactly() {
    let graph = graph_of(vec![(
        "run",
        vec!["public"],
        vec![call("a", 10, 2), external("svc.go()", "go", 20, 3)],
    )]);
    let expected = body(&[
        "  subgraph run\n",
        "    direction TB\n",
        "    N1([\"run\"]):::public\n",
        "    N2[\"a\"]:::internal\n",
        "    click N2 call onNodeClick(\"offset-10\") \"Scroll to source\"\n",
        "    N1 --> N2\n",
        "    N3[\"External: svc.go()\"]:::external\n",
        "    click N3 call onNodeClick(\"offset-20\") \"Scroll to source\"\n",
        "    N2 --> N3\n",
        "    N3 --> N4\n",
        "    N4([\"End of run\"]):::endNode\n",
        "  end\n",
    ]);
    assert_eq!(render(&graph, None, &plain()), expected);
}

#[test]
fn empty_method_connects_start_to_end() {
    let graph = graph_of(vec![("idle", vec!["protected"], vec![])]);
    let expected = body(&[
        "  subgraph idle\n",
        "    direction TB\n",
        "    N1([\"idle\"]):::public\n",
        "    N1 --> N2\n",
        "    N2([\"End of idle\"]):::endNode\n",
        "  end\n",
    ]);
    assert_eq!(render(&graph, None, &plain()), expected);
}

#[test]
fn decision_labels_both_branches_and_converges() {
    let graph = graph_of(vec![(
        "check",
        vec!["public"],
        vec![
            FlowStep::Decision {
                label: "(x > 0)".to_string(),
                offset: 5,
                line: 3,
                yes_branch: vec![call("positive", 6, 4)],
                no_branch: vec![call("negative", 7, 6)],
            },
            call("done", 8, 8),
        ],
    )]);
    let expected = body(&[
        "  subgraph check\n",
        "    direction TB\n",
        "    N1([\"check\"]):::public\n",
        "    N2{\"(x > 0)\"}:::decision\n",
        "    click N2 call onNodeClick(\"offset-5\") \"Scroll to source\"\n",
        "    N1 --> N2\n",
        "    N3[\"positive\"]:::internal\n",
        "    click N3 call onNodeClick(\"offset-6\") \"Scroll to source\"\n",
        "    N2 -->|Yes| N3\n",
        "    N4[\"negative\"]:::internal\n",
        "    click N4 call onNodeClick(\"offset-7\") \"Scroll to source\"\n",
        "    N2 -->|No| N4\n",
        "    N5[\"done\"]:::internal\n",
        "    click N5 call onNodeClick(\"offset-8\") \"Scroll to source\"\n",
        "    N3 --> N5\n",
        "    N4 --> N5\n",
        "    N5 --> N6\n",
        "    N6([\"End of check\"]):::endNode\n",
        "  end\n",
    ]);
    assert_eq!(render(&graph, None, &plain()), expected);
}

#[test]
fn decision_without_else_keeps_the_decision_in_the_frontier() {
    let graph = graph_of(vec![(
        "m",
        vec!["public"],
        vec![
            FlowStep::Decision {
                label: "(ok)".to_string(),
                offset: 1,
                line: 1,
                yes_branch: vec![call("a", 2, 2)],
                no_branch: vec![],
            },
            call("b", 3, 3),
        ],
    )]);
    let text = render(&graph, None, &plain());
    assert!(text.contains("    N2 -->|Yes| N3\n"));
    assert!(!text.contains("-->|No|"));
    assert!(text.contains("    N3 --> N4\n    N2 --> N4\n"));
}

#[test]
fn loop_draws_repeat_edges_and_continues_from_header() {
    let graph = graph_of(vec![(
        "poll",
        vec!["public"],
        vec![
            FlowStep::Loop {
                label: "while (running)".to_string(),
                offset: 11,
                line: 2,
                body: vec![call("fetch", 12, 3), call("store", 13, 4)],
            },
            call("done", 14, 6),
        ],
    )]);
    let expected = body(&[
        "  subgraph poll\n",
        "    direction TB\n",
        "    N1([\"poll\"]):::public\n",
        "    N2{{\"while (running)\"}}:::loop\n",
        "    click N2 call onNodeClick(\"offset-11\") \"Scroll to source\"\n",
        "    N1 --> N2\n",
        "    N3[\"fetch\"]:::internal\n",
        "    click N3 call onNodeClick(\"offset-12\") \"Scroll to source\"\n",
        "    N2 -->|loop body| N3\n",
        "    N4[\"store\"]:::internal\n",
        "    click N4 call onNodeClick(\"offset-13\") \"Scroll to source\"\n",
        "    N3 --> N4\n",
        "    N4 -.->|repeat| N2\n",
        "    N5[\"done\"]:::internal\n",
        "    click N5 call onNodeClick(\"offset-14\") \"Scroll to source\"\n",
        "    N2 --> N5\n",
        "    N5 --> N6\n",
        "    N6([\"End of poll\"]):::endNode\n",
        "  end\n",
    ]);
    assert_eq!(render(&graph, None, &plain()), expected);
}

#[test]
fn loop_with_empty_body_has_no_repeat_edge() {
    let graph = graph_of(vec![(
        "spin",
        vec!["public"],
        vec![FlowStep::Loop { label: "for (...)".to_string(), offset: 1, line: 1, body: vec![] }],
    )]);
    let text = render(&graph, None, &plain());
    assert!(text.contains("    N2{{\"for (...)\"}}:::loop\n"));
    assert!(!text.contains("repeat"));
    assert!(text.contains("    N2 --> N3\n"));
}

#[test]
fn switch_cases_render_in_source_order() {
    let graph = graph_of(vec![(
        "route",
        vec!["public"],
        vec![
            FlowStep::Switch {
                label: "switch (code)".to_string(),
                offset: 21,
                line: 2,
                cases: vec![
                    ("case 1".to_string(), vec![call("one", 22, 3)]),
                    ("case 2".to_string(), vec![call("two", 23, 5)]),
                    ("default".to_string(), vec![call("other", 24, 7)]),
                ],
            },
            call("after", 25, 9),
        ],
    )]);
    let expected = body(&[
        "  subgraph route\n",
        "    direction TB\n",
        "    N1([\"route\"]):::public\n",
        "    N2{\"switch (code)\"}:::decision\n",
        "    click N2 call onNodeClick(\"offset-21\") \"Scroll to source\"\n",
        "    N1 --> N2\n",
        "    N3[\"one\"]:::internal\n",
        "    click N3 call onNodeClick(\"offset-22\") \"Scroll to source\"\n",
        "    N2 -->|case 1| N3\n",
        "    N4[\"two\"]:::internal\n",
        "    click N4 call onNodeClick(\"offset-23\") \"Scroll to source\"\n",
        "    N2 -->|case 2| N4\n",
        "    N5[\"other\"]:::internal\n",
        "    click N5 call onNodeClick(\"offset-24\") \"Scroll to source\"\n",
        "    N2 -->|default| N5\n",
        "    N6[\"after\"]:::internal\n",
        "    click N6 call onNodeClick(\"offset-25\") \"Scroll to source\"\n",
        "    N3 --> N6\n",
        "    N4 --> N6\n",
        "    N5 --> N6\n",
        "    N6 --> N7\n",
        "    N7([\"End of route\"]):::endNode\n",
        "  end\n",
    ]);
    let text = render(&graph, None, &plain());
    assert_eq!(text, expected);
    let one = text.find("|case 1|").unwrap();
    let two = text.find("|case 2|").unwrap();
    let rest = text.find("|default|").unwrap();
    assert!(one < two && two < rest);
}

#[test]
fn switch_whose_cases_draw_nothing_continues_from_the_switch_alone() {
    let graph = graph_of(vec![(
        "m",
        vec!["public"],
        vec![
            FlowStep::Switch {
                label: "switch (x)".to_string(),
                offset: 1,
                line: 1,
                cases: vec![("case 1".to_string(), vec![]), ("case 2".to_string(), vec![])],
            },
            call("after", 2, 2),
        ],
    )]);
    let text = render(&graph, None, &plain());
    assert_eq!(text.matches("    N2 --> N3\n").count(), 1);
}

#[test]
fn switch_without_cases_continues_from_the_switch() {
    let graph = graph_of(vec![(
        "m",
        vec!["public"],
        vec![FlowStep::Switch {
            label: "switch (x)".to_string(),
            offset: 1,
            line: 1,
            cases: vec![],
        }],
    )]);
    let text = render(&graph, None, &plain());
    assert!(text.contains("    N2 --> N3\n    N3([\"End of m\"]):::endNode\n"));
}

#[test]
fn return_renders_without_a_style_class() {
    let graph = graph_of(vec![(
        "m",
        vec!["public"],
        vec![FlowStep::Return { label: "return 'x';".to_string(), offset: 9, line: 4 }],
    )]);
    let text = render(&graph, None, &plain());
    assert!(text.contains("    N2[\"return 'x';\"]\n    click N2 call onNodeClick(\"offset-9\") \"Scroll to source\"\n    N1 --> N2\n"));
}

#[test]
fn quotes_in_call_text_become_apostrophes() {
    let graph = graph_of(vec![(
        "m",
        vec!["public"],
        vec![external("log.info(\"start\")", "info", 1, 1)],
    )]);
    let text = render(&graph, None, &plain());
    assert!(text.contains("N2[\"External: log.info('start')\"]:::external"));
}

#[test]
fn source_reference_adds_line_suffix_to_every_label() {
    let steps = vec![
        call("a", 1, 12),
        FlowStep::Decision {
            label: "(c)".to_string(),
            offset: 2,
            line: 13,
            yes_branch: vec![],
            no_branch: vec![],
        },
        FlowStep::Loop { label: "while (c)".to_string(), offset: 3, line: 14, body: vec![] },
        FlowStep::Switch { label: "switch (c)".to_string(), offset: 4, line: 15, cases: vec![] },
        FlowStep::Return { label: "return;".to_string(), offset: 5, line: 160 },
    ];
    let graph = graph_of(vec![("m", vec!["public"], steps)]);
    let mut settings = plain();
    settings.show_source_reference = true;
    let with = render(&graph, None, &settings);
    assert!(with.contains("[\"a (L12)\"]:::internal"));
    assert!(with.contains("{\"(c) (L13)\"}:::decision"));
    assert!(with.contains("{{\"while (c) (L14)\"}}:::loop"));
    assert!(with.contains("{\"switch (c) (L15)\"}:::decision"));
    assert!(with.contains("[\"return; (L160)\"]\n"));
    let without = render(&graph, None, &plain());
    assert!(!without.contains("(L"));
    assert!(without.contains("[\"a\"]:::internal"));
}

#[test]
fn default_view_shows_public_and_protected_in_name_order() {
    let graph = graph_of(vec![
        ("zeta", vec!["public", "static"], vec![]),
        ("beta", vec!["private"], vec![]),
        ("alpha", vec!["protected"], vec![]),
        ("gamma", vec![], vec![]),
    ]);
    let names = select_targets(&graph, &None);
    assert_eq!(names, vec!["alpha".to_string(), "zeta".to_string()]);
    let text = render(&graph, None, &plain());
    assert!(text.find("subgraph alpha").unwrap() < text.find("subgraph zeta").unwrap());
    assert!(!text.contains("beta"));
    assert!(!text.contains("gamma"));
}

#[test]
fn named_target_renders_alone_whatever_its_modifiers() {
    let graph = graph_of(vec![
        ("open", vec!["public"], vec![]),
        ("hidden", vec!["private"], vec![call("x", 1, 1)]),
    ]);
    assert_eq!(select_targets(&graph, &Some("hidden".to_string())), vec!["hidden".to_string()]);
    let text = render(&graph, Some("hidden"), &plain());
    assert!(text.contains("([\"hidden\"]):::public"));
    assert!(!text.contains("([\"open\"])"));
}

#[test]
fn unknown_target_falls_back_to_the_eligible_methods() {
    let graph = graph_of(vec![
        ("open", vec!["public"], vec![]),
        ("hidden", vec!["private"], vec![]),
    ]);
    assert_eq!(select_targets(&graph, &Some("missing".to_string())), vec!["open".to_string()]);
}

#[test]
fn ignored_service_removes_only_matching_external_calls() {
    let steps = || {
        vec![
            external("repo.save()", "save", 1, 1),
            external("emailService.send()", "send", 2, 2),
            call("emailService", 3, 3),
            external("emailServiceX.send()", "send", 4, 4),
            external("emailService.audit.log()", "log", 5, 5),
        ]
    };
    let graph = graph_of(vec![("run", vec!["public"], steps())]);
    let mut settings = plain();
    settings.ignored_services = vec!["emailService".to_string()];
    let text = render(&graph, None, &settings);
    assert!(text.contains("External: repo.save()"));
    assert!(!text.contains("External: emailService.send()"));
    assert!(!text.contains("External: emailService.audit.log()"));
    assert!(text.contains("[\"emailService\"]:::internal"));
    assert!(text.contains("External: emailServiceX.send()"));
    let pruned = graph_of(vec![(
        "run",
        vec!["public"],
        vec![
            external("repo.save()", "save", 1, 1),
            call("emailService", 3, 3),
            external("emailServiceX.send()", "send", 4, 4),
        ],
    )]);
    assert_eq!(text, render(&pruned, None, &plain()));
    settings.ignored_services.push("emailService".to_string());
    assert_eq!(text, render(&graph, None, &settings));
}

#[test]
fn ignored_variable_removes_matching_external_calls() {
    let graph = graph_of(vec![(
        "run",
        vec!["public"],
        vec![external("logger.info()", "info", 1, 1), external("bare()", "bare", 2, 2)],
    )]);
    let mut settings = plain();
    settings.ignored_variables = vec!["logger".to_string(), "bare()".to_string()];
    let text = render(&graph, None, &settings);
    assert!(!text.contains("logger.info"));
    assert!(text.contains("External: bare()"));
}

#[test]
fn label_passes_over_suppressed_calls_to_the_first_node_drawn() {
    let graph = graph_of(vec![(
        "m",
        vec!["public"],
        vec![FlowStep::Decision {
            label: "(c)".to_string(),
            offset: 1,
            line: 1,
            yes_branch: vec![external("log.info()", "info", 2, 2), call("work", 3, 3), call("more", 4, 4)],
            no_branch: vec![],
        }],
    )]);
    let mut settings = plain();
    settings.ignored_variables = vec!["log".to_string()];
    let text = render(&graph, None, &settings);
    assert!(text.contains("    N2 -->|Yes| N3\n"));
    assert!(text.contains("    N3 --> N4\n"));
    assert_eq!(text.matches("|Yes|").count(), 1);
}

#[test]
fn external_services_are_distinct_and_ignore_filters() {
    let graph = graph_of(vec![(
        "run",
        vec!["public"],
        vec![
            external("repo.find()", "find", 1, 1),
            FlowStep::Loop {
                label: "while (x)".to_string(),
                offset: 2,
                line: 2,
                body: vec![external("cache.get()", "get", 3, 3), external("repo.save()", "save", 4, 4)],
            },
            FlowStep::Switch {
                label: "switch (x)".to_string(),
                offset: 5,
                line: 5,
                cases: vec![("case 1".to_string(), vec![external("System.out.println()", "println", 6, 6)])],
            },
            FlowStep::Decision {
                label: "(x)".to_string(),
                offset: 7,
                line: 7,
                yes_branch: vec![external("mail.send()", "send", 8, 8)],
                no_branch: vec![external("undeclared()", "undeclared", 9, 9), call("own", 10, 10)],
            },
        ],
    )]);
    let all = JavaParser::render_graph(&graph, &None, &[], &[], false, false);
    assert_eq!(all.external_services, vec!["repo", "cache", "System", "mail"]);
    let filtered =
        JavaParser::render_graph(&graph, &None, &["repo".to_string()], &["cache".to_string()], false, false);
    assert_eq!(filtered.external_services, vec!["repo", "cache", "System", "mail"]);
    assert!(!filtered.mermaid.contains("repo."));
    let names = vec!["run".to_string()];
    assert_eq!(collect_services(&graph, &names), vec!["repo", "cache", "System", "mail"]);
}

#[test]
fn collapse_renders_one_node_per_method_and_is_shorter() {
    let graph = graph_of(vec![
        ("main", vec!["public"], vec![call("helper", 1, 1)]),
        ("helper", vec!["public"], vec![external("svc.go()", "go", 2, 2)]),
        ("hidden", vec!["private"], vec![]),
    ]);
    let mut settings = plain();
    settings.collapse_details = true;
    let collapsed = JavaParser::render_graph(&graph, &None, &[], &[], true, false);
    let expected = body(&[
        "    N1([\"helper\"]):::public\n",
        "    N2([\"main\"]):::public\n",
    ]);
    assert_eq!(collapsed.mermaid, expected);
    assert_eq!(collapsed.external_services, vec!["svc"]);
    let expanded = render(&graph, None, &plain());
    assert!(collapsed.mermaid.len() < expanded.len());
}

#[test]
fn collapse_has_no_effect_with_a_target() {
    let graph = graph_of(vec![("main", vec!["public"], vec![call("helper", 1, 1)])]);
    let mut settings = plain();
    settings.collapse_details = true;
    assert_eq!(render(&graph, Some("main"), &settings), render(&graph, Some("main"), &plain()));
    assert!(render(&graph, Some("main"), &settings).contains("subgraph main"));
}

#[test]
fn collapse_of_no_methods_equals_the_expanded_diagram() {
    let graph = graph_of(vec![("hidden", vec!["private"], vec![])]);
    let mut settings = plain();
    settings.collapse_details = true;
    assert_eq!(render(&graph, None, &settings), render(&graph, None, &plain()));
}

#[test]
fn node_numbers_run_on_across_methods() {
    let graph = graph_of(vec![
        ("a", vec!["public"], vec![call("x", 1, 1)]),
        ("b", vec!["public"], vec![]),
    ]);
    let text = render(&graph, None, &plain());
    assert!(text.contains("    N3([\"End of a\"]):::endNode\n"));
    assert!(text.contains("    N4([\"b\"]):::public\n    N4 --> N5\n    N5([\"End of b\"]):::endNode\n"));
}

#[test]
fn render_parsed_degrades_to_messages() {
    let graph = graph_of(vec![("a", vec!["public"], vec![])]);
    let none = JavaParser::render_parsed(&Err(SyntaxError::NoTree), &graph, &None, &[], &[], false, false);
    assert_eq!(none.mermaid, "error: parse failed");
    assert!(none.external_services.is_empty());
    let deep = JavaParser::render_parsed(&Err(SyntaxError::TooDeep), &graph, &None, &[], &[], false, false);
    assert_eq!(deep.mermaid, "error: parse failed");
    let lang = JavaParser::render_parsed(
        &Err(SyntaxError::Language("bad".to_string())),
        &graph,
        &None,
        &[],
        &[],
        false,
        false,
    );
    assert_eq!(lang.mermaid, "error: failed to set language");
    let tree = SyntaxNode {
        kind: "program".to_string(),
        field: None,
        named: true,
        start: 0,
        end: 0,
        row: 0,
        children: vec![],
    };
    let ok = JavaParser::render_parsed(&Ok(tree), &graph, &None, &[], &[], false, false);
    assert_eq!(ok.mermaid, render(&graph, None, &plain()));
}

#[test]
fn parse_tree_reports_each_failure() {
    let e = JavaParser::parse_tree(Err(SyntaxError::NoTree), "x").err().unwrap();
    assert_eq!(e, "Failed to parse source");
    let e = JavaParser::parse_tree(Err(SyntaxError::TooDeep), "x").err().unwrap();
    assert_eq!(e, "Source is nested too deeply");
    let e = JavaParser::parse_tree(Err(SyntaxError::Language("version 3".to_string())), "x")
        .err()
        .unwrap();
    assert_eq!(e, "version 3");
}

#[test]
fn weights_count_every_step() {
    let steps = vec![
        call("a", 1, 1),
        FlowStep::Decision {
            label: "(c)".to_string(),
            offset: 2,
            line: 2,
            yes_branch: vec![call("b", 3, 3)],
            no_branch: vec![FlowStep::Return { label: "return;".to_string(), offset: 4, line: 4 }],
        },
        FlowStep::Switch {
            label: "switch (c)".to_string(),
            offset: 5,
            line: 5,
            cases: vec![
                ("case 1".to_string(), vec![call("c", 6, 6)]),
                ("default".to_string(), vec![FlowStep::Loop {
                    label: "for (...)".to_string(),
                    offset: 7,
                    line: 7,
                    body: vec![call("d", 8, 8)],
                }]),
            ],
        },
    ];
    assert_eq!(flow_weight(&steps), 8);
    let graph = graph_of(vec![("m", vec!["public"], steps), ("n", vec!["public"], vec![])]);
    let names = vec!["m".to_string(), "n".to_string(), "absent".to_string()];
    assert_eq!(targets_weight(&graph, &names), 14);
}

#[test]
fn next_id_counts_from_one() {
    let none: Vec<String> = vec![];
    let mut generator = FlowGenerator::new(&none, &none, false);
    assert_eq!(generator.next_id(), "N1");
    assert_eq!(generator.next_id(), "N2");
    generator.node_counter = 99;
    assert_eq!(generator.next_id(), "N100");
    assert_eq!(generator.node_counter, 100);
    assert_eq!(generator.output, "");
}

#[test]
fn generator_draws_a_method_from_any_counter() {
    let none: Vec<String> = vec![];
    let mut generator = FlowGenerator::new(&none, &none, true);
    generator.node_counter = 8;
    generator.generate_method_flow("m", &vec![call("a", 3, 7)]);
    assert_eq!(
        generator.output,
        lines(&[
            "  subgraph m\n",
            "    direction TB\n",
            "    N9([\"m\"]):::public\n",
            "    N10[\"a (L7)\"]:::internal\n",
            "    click N10 call onNodeClick(\"offset-3\") \"Scroll to source\"\n",
            "    N9 --> N10\n",
            "    N10 --> N11\n",
            "    N11([\"End of m\"]):::endNode\n",
            "  end\n",
        ])
    );
    assert_eq!(generator.node_counter, 11);
}

#[test]
fn dispatch_step_labels_only_edges_into_the_first_node() {
    let none: Vec<String> = vec![];
    let mut generator = FlowGenerator::new(&none, &none, false);
    generator.node_counter = 2;
    let exits = generator.dispatch_step(&call("a", 1, 1), vec![1, 2], Some("go"));
    assert_eq!(exits, vec![3]);
    assert!(generator.output.ends_with("    N1 -->|go| N3\n    N2 -->|go| N3\n"));
    let exits = generator.traverse_steps_with_label(
        &vec![call("b", 2, 2), call("c", 3, 3)],
        exits,
        Some("next"),
    );
    assert_eq!(exits, vec![5]);
    assert!(generator.output.contains("    N3 -->|next| N4\n"));
    assert!(generator.output.ends_with("    N4 --> N5\n"));
}

#[test]
fn default_settings_ignore_the_standard_streams() {
    let settings = FlowSettings::default();
    assert!(settings.ignored_variables.is_empty());
    assert_eq!(settings.ignored_services, vec!["System.out", "System.err"]);
    assert!(!settings.collapse_details);
    assert!(!settings.show_source_reference);
    let options = MermaidOptions::default();
    assert!(options.session_ignore_services.is_empty());
    assert!(!options.collapse_details);
}

#[test]
fn call_without_a_service_is_never_left_out_nor_reported() {
    let step = FlowStep::Call {
        name: "print".to_string(),
        is_external: true,
        raw_text: "print(a.b)".to_string(),
        service: None,
        offset: 1,
        line: 1,
    };
    let graph = graph_of(vec![("m", vec!["public"], vec![step])]);
    let r = JavaParser::render_graph(&graph, &None, &["print(a".to_string()], &["print".to_string()], false, false);
    assert!(r.mermaid.contains("External: print(a.b)"));
    assert!(r.external_services.is_empty());
}

#[test]
fn service_of_an_internal_call_is_not_reported() {
    let step = FlowStep::Call {
        name: "run".to_string(),
        is_external: false,
        raw_text: "this.run()".to_string(),
        service: Some("this".to_string()),
        offset: 1,
        line: 1,
    };
    let graph = graph_of(vec![("m", vec!["public"], vec![step])]);
    let r = JavaParser::render_graph(&graph, &None, &["this".to_string()], &[], false, false);
    assert!(r.mermaid.contains("[\"run\"]:::internal"));
    assert!(r.external_services.is_empty());
}
