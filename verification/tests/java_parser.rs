use sql_helper::parser::JavaParser;


#[test]
fn test_parser() {
    let source = r#"
    class Student {
        public void study() {
            lesson1();
            homework1();
            homework2();
        }
        private void lesson1() {
            // ...
        }
        private void homework1() {
            // ...
        }
        private void homework2() {
            // ...
        }
    }
    "#;
    let graph = JavaParser::parse(source).expect("Parse failed");
    
    assert!(graph.nodes.contains_key("study"));
    assert!(graph.nodes.contains_key("lesson1"));
    
    let study_node = graph.nodes.get("study").unwrap();
    assert!(study_node.modifiers.contains(&"public".to_string()));
    
    let calls = graph.calls.get("study").unwrap();
    assert_eq!(calls.len(), 3);
    assert_eq!(calls[0], "lesson1");
    assert_eq!(calls[1], "homework1");
    assert_eq!(calls[2], "homework2");
    
    let mermaid = JavaParser::generate_mermaid(&graph, source, None);
    assert!(mermaid.contains("([\"study\"]):::public"));
    assert!(mermaid.contains("lesson1"));
    
    // println!("{}", mermaid);
}

#[test]
fn test_parser_with_external() {
    let source = r#"
    class Student {
        public void study() {
            lesson1();
            teacher.ask();
        }
        private void lesson1() {
        }
    }
    "#;
    let graph = JavaParser::parse(source).expect("Parse failed");
    let mermaid = JavaParser::generate_mermaid(&graph, source, None);
    println!("{}", mermaid);
    
    assert!(mermaid.contains("([\"study\"]):::public"));
    assert!(mermaid.contains("lesson1"));
    assert!(mermaid.contains("External: teacher.ask"));
}

#[test]
fn test_sequential_flow() {
    let source = r#"
    class Simple {
        public void process() {
            step1();
            service.notify();
        }
    }
    "#;
    let graph = JavaParser::parse(source).expect("Parse failed");
    let mermaid = JavaParser::generate_mermaid(&graph, source, None);
    println!("Sequential Flow:\n{}", mermaid);

    assert!(mermaid.contains("process"));
    assert!(mermaid.contains("step1"));
    assert!(mermaid.contains("External: service.notify"));
    // Check edges
    // process --> step1? The START node is process.
    // N1([process]) --> step1
}

#[test]
fn test_if_else_flow() {
    let source = r#"
    class Decision {
        public void check(int x) {
            if (x > 0) {
                positive();
            } else {
                negative();
            }
            done();
        }
    }
    "#;
    let graph = JavaParser::parse(source).expect("Parse failed");
    let mermaid = JavaParser::generate_mermaid(&graph, source, None);
    println!("Decision Flow:\n{}", mermaid);

    assert!(mermaid.contains("x > 0"));
    assert!(mermaid.contains("-->|Yes|"));
    assert!(mermaid.contains("-->|No|"));
    assert!(mermaid.contains("positive"));
    assert!(mermaid.contains("negative"));
    assert!(mermaid.contains("done"));
}

#[test]
fn test_external_calls_in_condition() {
    let source = r#"
    class ServiceCall {
        public void run() {
            if (repo.isValid()) {
                emailService.send();
            }
        }
    }
    "#;
    let graph = JavaParser::parse(source).expect("Parse failed");
    let mermaid = JavaParser::generate_mermaid(&graph, source, None);
    println!("Condition Calls Flow:\n{}", mermaid);

    assert!(mermaid.contains("External: repo.isValid"));
    assert!(mermaid.contains("External: emailService.send"));
    assert!(mermaid.contains("repo.isValid")); // The decision text itself
    
    // Ensure flow: run -> repo.isValid -> decision
}

#[test]
fn test_recursion_and_return() {
     let source = r#"
    class Logic {
        public void loop() {
            if (check()) return;
            loop();
        }
    }
    "#;
    let graph = JavaParser::parse(source).expect("Parse failed");
    let mermaid = JavaParser::generate_mermaid(&graph, source, None);
    println!("Recursion Flow:\n{}", mermaid);
    
    assert!(mermaid.contains("return"));
    assert!(mermaid.contains("loop"));
}

#[test]
fn test_method_filtering() {
    let source = r#"
    class Filtering {
        public void publicMethod() {
            privateMethod();
        }
        protected void protectedMethod() {
            // ...
        }
        private void privateMethod() {
            // ...
        }
        void packagePrivateMethod() {
            // ...
        }
    }
    "#;
    let graph = JavaParser::parse(source).expect("Parse failed");
    
    // 1. Default (None) -> Should contain public and protected ONLY
    let mermaid_default = JavaParser::generate_mermaid(&graph, source, None);
    assert!(mermaid_default.contains("([\"publicMethod\"])"));
    assert!(mermaid_default.contains("([\"protectedMethod\"])"));
    assert!(!mermaid_default.contains("([\"privateMethod\"])")); 
    assert!(!mermaid_default.contains("([\"packagePrivateMethod\"])"));
    
    // 2. Specific Private Method -> Should generate graph for it
    let mermaid_private = JavaParser::generate_mermaid(&graph, source, Some("privateMethod".to_string()));
    assert!(mermaid_private.contains("([\"privateMethod\"])"));
    assert!(!mermaid_private.contains("([\"publicMethod\"])"));
}

#[test]
fn test_for_loop_flow() {
    let source = r#"
    class LoopTest {
        public void process() {
            for (int i = 0; i < 10; i++) {
                doWork();
            }
            done();
        }
        private void doWork() {}
        private void done() {}
    }
    "#;
    let graph = JavaParser::parse(source).expect("Parse failed");
    let mermaid = JavaParser::generate_mermaid(&graph, source, Some("process".to_string()));
    println!("For Loop Flow:\n{}", mermaid);

    assert!(mermaid.contains("for ("));
    assert!(mermaid.contains(":::loop"));
    assert!(mermaid.contains("repeat"));
    assert!(mermaid.contains("doWork"));
    assert!(mermaid.contains("done"));
}

#[test]
fn test_while_loop_flow() {
    let source = r#"
    class WhileTest {
        public void poll() {
            while (isRunning()) {
                fetch();
            }
        }
        private void fetch() {}
    }
    "#;
    let graph = JavaParser::parse(source).expect("Parse failed");
    let mermaid = JavaParser::generate_mermaid(&graph, source, Some("poll".to_string()));
    println!("While Loop Flow:\n{}", mermaid);

    assert!(mermaid.contains("while"));
    assert!(mermaid.contains(":::loop"));
    assert!(mermaid.contains("repeat"));
}

#[test]
fn test_enhanced_for_flow() {
    let source = r#"
    class ForEachTest {
        public void processAll() {
            for (String item : items) {
                handle(item);
            }
        }
    }
    "#;
    let graph = JavaParser::parse(source).expect("Parse failed");
    let mermaid = JavaParser::generate_mermaid(&graph, source, Some("processAll".to_string()));
    println!("Enhanced For Flow:\n{}", mermaid);

    assert!(mermaid.contains("for ("));
    assert!(mermaid.contains(":::loop"));
}

#[test]
fn test_switch_flow() {
    let source = r#"
    class SwitchTest {
        public void route(int code) {
            switch (code) {
                case 1:
                    handleOne();
                    break;
                case 2:
                    handleTwo();
                    break;
                default:
                    handleDefault();
            }
        }
        private void handleOne() {}
        private void handleTwo() {}
        private void handleDefault() {}
    }
    "#;
    let graph = JavaParser::parse(source).expect("Parse failed");
    let mermaid = JavaParser::generate_mermaid(&graph, source, Some("route".to_string()));
    println!("Switch Flow:\n{}", mermaid);

    assert!(mermaid.contains("switch"));
    assert!(mermaid.contains(":::decision"));
}

#[test]
fn test_nested_loop_in_if() {
    let source = r#"
    class NestedTest {
        public void run() {
            if (isReady()) {
                for (int i = 0; i < count; i++) {
                    process();
                }
            }
            finish();
        }
        private void process() {}
        private void finish() {}
    }
    "#;
    let graph = JavaParser::parse(source).expect("Parse failed");
    let mermaid = JavaParser::generate_mermaid(&graph, source, Some("run".to_string()));
    println!("Nested Flow:\n{}", mermaid);

    assert!(mermaid.contains(":::decision")); // if condition
    assert!(mermaid.contains(":::loop"));     // for loop inside
    assert!(mermaid.contains("finish"));      // after if
}

// --- Tests for filtering features (generate_mermaid_filtered) ---

#[test]
fn test_variable_ignore_filter() {
    let source = r#"
    class Service {
        public void process() {
            logger.info("start");
            validate();
            logger.debug("done");
        }
    }
    "#;
    let graph = JavaParser::parse(source).expect("Parse failed");
    let result = JavaParser::generate_mermaid_filtered(
        &graph, source, Some("process".to_string()),
        &["logger".to_string()],
        &[],
        false,
    );
    println!("Variable Ignore Flow:\n{}", result.mermaid);

    assert!(!result.mermaid.contains("logger.info"));
    assert!(!result.mermaid.contains("logger.debug"));
    assert!(result.mermaid.contains("validate"));
}

#[test]
fn test_service_ignore_filter() {
    let source = r#"
    class Service {
        public void run() {
            repo.save();
            emailService.send();
            notificationService.push();
        }
    }
    "#;
    let graph = JavaParser::parse(source).expect("Parse failed");
    let result = JavaParser::generate_mermaid_filtered(
        &graph, source, Some("run".to_string()),
        &[],
        &["emailService".to_string()],
        false,
    );
    println!("Service Ignore Flow:\n{}", result.mermaid);

    assert!(!result.mermaid.contains("emailService.send"));
    assert!(result.mermaid.contains("repo.save"));
    assert!(result.mermaid.contains("notificationService.push"));
}

#[test]
fn test_detected_external_services() {
    let source = r#"
    class Handler {
        public void handle() {
            repo.find();
            cache.get();
            emailService.send();
        }
    }
    "#;
    let graph = JavaParser::parse(source).expect("Parse failed");
    let result = JavaParser::generate_mermaid_filtered(
        &graph, source, Some("handle".to_string()),
        &[], &[], false,
    );
    println!("Detected Services: {:?}", result.external_services);

    assert!(result.external_services.contains(&"repo".to_string()));
    assert!(result.external_services.contains(&"cache".to_string()));
    assert!(result.external_services.contains(&"emailService".to_string()));
}

#[test]
fn test_end_node_label() {
    let source = r#"
    class Simple {
        public void doWork() {
            step1();
        }
    }
    "#;
    let graph = JavaParser::parse(source).expect("Parse failed");
    let result = JavaParser::generate_mermaid_filtered(
        &graph, source, Some("doWork".to_string()),
        &[], &[], false,
    );
    println!("End Node Flow:\n{}", result.mermaid);

    assert!(result.mermaid.contains("End of doWork"));
    assert!(result.mermaid.contains(":::endNode"));
}

#[test]
fn test_collapse_details() {
    let source = r#"
    class Complex {
        public void main() {
            helper();
        }
        public void helper() {
            subStep();
        }
        private void subStep() {}
    }
    "#;
    let graph = JavaParser::parse(source).expect("Parse failed");

    // Without collapse: both main and helper get subgraphs
    let result_expanded = JavaParser::generate_mermaid_filtered(
        &graph, source, None,
        &[], &[], false,
    );
    // With collapse: simplified overview
    let result_collapsed = JavaParser::generate_mermaid_filtered(
        &graph, source, None,
        &[], &[], true,
    );
    println!("Expanded:\n{}", result_expanded.mermaid);
    println!("Collapsed:\n{}", result_collapsed.mermaid);

    // Collapsed version should be shorter (no subgraph bodies)
    assert!(result_collapsed.mermaid.len() < result_expanded.mermaid.len());
}
