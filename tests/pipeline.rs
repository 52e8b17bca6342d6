use dev_agent::advisory::{
    build_prompt, calculate_complexity_score, calculate_maintainability_score,
    calculate_security_score, generate_refactoring_suggestions, get_static_suggestions,
    calculate_code_metrics, parse_ai_suggestions, security_score_folded, LlmAnalyzer,
};
use dev_agent::compat::WasmAnalyzer;
use dev_agent::language::Language;
use dev_agent::review::{
    advance, generate_patches, summarize, DevAgent, FileInput, FileStage, StageEvent,
};
use dev_agent::walk::WalkDir;

fn input(path: &str, content: Option<&str>, reply: Option<&str>) -> FileInput {
    FileInput {
        path: path.to_string(),
        content: content.map(|c| c.to_string()),
        advisory_reply: reply.map(|r| r.to_string()),
    }
}

#[test]
fn offline_backend_still_fills_advisory_section() {
    let mut agent = DevAgent::new("memory.json", false);
    let inputs = vec![
        input("src/a.rs", Some("fn a() { x.unwrap(); }\n"), Some("- ignored")),
        input("src/gone.rs", None, None),
        input("b.py", Some("def f():\n    pass\n"), None),
    ];
    let records = agent.review_batch(&inputs, 7);
    assert_eq!(records.len(), 2);
    assert_eq!(records[0].identity, "src/a.rs");
    assert_eq!(records[1].identity, "b.py");
    for r in &records {
        assert!(!r.llm_analysis.from_backend);
        assert!(!r.llm_analysis.ai_suggestions.is_empty());
        assert_eq!(r.timestamp, 7);
    }
    assert_eq!(
        records[0].llm_analysis.ai_suggestions,
        vec!["Replace unwrap() with proper error handling using Result types"]
    );
    assert_eq!(
        records[1].llm_analysis.ai_suggestions,
        vec!["Add type hints to function signatures for better code clarity"]
    );
    assert!(records[0].wasm_analysis.is_some());
    assert!(records[1].wasm_analysis.is_none());
    assert_eq!(agent.memory_system.entries.len(), 2);
    assert!(agent.memory_system.get_file("src/a.rs").unwrap().analysis_results.is_some());
}

#[test]
fn backend_reply_is_used_when_available() {
    let agent = DevAgent::new("memory.json", true);
    let r = agent.analyze_file("a.rs", "fn a() {}\n", Some("Ideas:\n- Add docs\n  * Split module \n-\ntext"), 1);
    assert!(r.llm_analysis.from_backend);
    assert_eq!(r.llm_analysis.ai_suggestions, vec!["Add docs", "Split module"]);
    assert_eq!(r.language, Language::Rust);
    let r = agent.analyze_file("a.rs", "fn a() {}\n", None, 1);
    assert!(!r.llm_analysis.from_backend);
}

#[test]
fn summary_reduces_records() {
    let mut agent = DevAgent::new("memory.json", false);
    let inputs = vec![
        input("a.rs", Some("let x = a.unwrap();\n"), None),
        input("b.txt", Some("plain // ok\n"), None),
        input("c.rs", None, None),
    ];
    let records = agent.review_batch(&inputs, 1);
    let s = summarize(inputs.len(), &records);
    assert_eq!(s.files_attempted, 3);
    assert_eq!(s.files_reviewed, 2);
    let issues: usize = records.iter().map(|r| r.issues.len()).sum();
    let suggestions: usize = records.iter().map(|r| r.suggestions.len()).sum();
    assert_eq!(s.total_issues, issues as u128);
    assert_eq!(s.total_suggestions, suggestions as u128);
    // 0.9 and 1.0
    assert_eq!(s.mean_score_millionths, Some(950_000));
    assert_eq!(summarize(0, &vec![]).mean_score_millionths, None);
}

#[test]
fn patches_for_suggestions_with_code() {
    let agent = DevAgent::new("memory.json", false);
    let r = agent.analyze_file("src/x.rs", "fn x() {}\n", None, 1);
    let patches = generate_patches(&vec![r]);
    assert_eq!(patches.len(), 1);
    assert_eq!(patches[0].name, "src_x.rs_Add_documentation.patch");
    assert_eq!(
        patches[0].content,
        "--- src/x.rs\n+++ src/x.rs\n@@ -1,1 +1,1 @@\n// Add meaningful comments here\n"
    );
}

#[test]
fn compatibility_analysis_of_rust() {
    let w = WasmAnalyzer::new();
    let content = "use std::fs::File;\nfn main() { let f = File::open(\"a\").unwrap(); std::thread::spawn(|| {}); }\n#[no_mangle] pub extern \"C\" fn add(a: i32) -> i32 { a }\n";
    let a = w.analyze_rust_file(content);
    assert_eq!(a.binary_size, 300);
    assert_eq!(a.memory_usage, 150);
    assert_eq!(a.performance_score, 0);
    assert!(!a.wasm_compatibility);
    assert_eq!(a.optimization_suggestions.len(), 4);
    assert_eq!(a.export_functions, vec!["add"]);
    let opts = w.get_optimization_suggestions(&a);
    let names: Vec<&str> = opts.iter().map(|o| o.name.as_str()).collect();
    assert_eq!(names, vec!["Enable LTO", "Use panic_abort"]);
    let clean = w.analyze_rust_file("#![no_std]\nfn f() {}\n");
    assert_eq!(clean.performance_score, 100);
    assert!(clean.wasm_compatibility);
    assert!(w.get_optimization_suggestions(&clean).is_empty());
}

#[test]
fn advisory_scores() {
    let m = calculate_code_metrics("// c\nfn a() {\n    if x && y { }\n}\n");
    assert_eq!(m.lines_of_code, 4);
    assert_eq!(m.comment_lines, 1);
    assert_eq!(m.function_count, 1);
    assert_eq!(m.cyclomatic_complexity, 3);
    assert_eq!(calculate_complexity_score(&m), 100);
    assert_eq!(calculate_maintainability_score(&m), 100);
    assert_eq!(security_score_folded("password token"), 50);
    assert_eq!(calculate_security_score("PASSWORD"), 70);
    assert_eq!(calculate_security_score("eval( exec( sql"), 0);
    let r = generate_refactoring_suggestions("x.unwrap()", &m);
    assert_eq!(r.len(), 1);
    assert_eq!(r[0].title, "Improve Error Handling");
}

#[test]
fn fallback_suggestions_by_extension() {
    let s = get_static_suggestions("var a = 1;\nfunction f() {}\n// TODO\n", "w.ts");
    assert_eq!(
        s,
        vec![
            "Use const or let instead of var for better scoping",
            "Consider using arrow functions for consistency",
            "Address TODO comments to improve code completeness",
        ]
    );
    assert!(get_static_suggestions("x", "README").is_empty());
}

#[test]
fn reply_parsing_and_prompt() {
    assert_eq!(parse_ai_suggestions("- one\n--* two\nthree\n   *   \n"), vec!["one", "two"]);
    assert!(parse_ai_suggestions("").is_empty());
    let p = build_prompt("x", "a.py");
    assert!(p.starts_with("Analyze this py code and provide specific improvement suggestions:\n\nx\n\n"));
    assert!(build_prompt("x", "Makefile").starts_with("Analyze this unknown code"));
    assert!(!LlmAnalyzer::new(false).model_available);
}

#[test]
fn walk_visits_last_discovered_first() {
    let mut it = WalkDir::new("root").into_iter();
    assert_eq!(it.next_path().as_deref(), Some("root"));
    it.push_children(vec!["root/a".to_string(), "root/b".to_string()]);
    assert_eq!(it.next_path().as_deref(), Some("root/b"));
    assert_eq!(it.next_path().as_deref(), Some("root/a"));
    assert!(it.is_done());
    assert_eq!(it.next_path(), None);
}


#[test]
fn optimization_catalog_is_held() {
    let w = WasmAnalyzer::new();
    let names: Vec<&str> = w.optimizations.iter().map(|o| o.name.as_str()).collect();
    assert_eq!(names, vec!["Use no_std", "Use panic_abort", "Enable LTO"]);
    let big = w.analyze_rust_file(&"fn f() {}\n".repeat(6000));
    assert_eq!(big.binary_size, 600_000);
    let opts = w.get_optimization_suggestions(&big);
    assert_eq!(opts.len(), 1);
    assert_eq!(opts[0].code_example, "#![no_std]\nuse core::prelude::*;");
}

#[test]
fn file_stages() {
    let s = advance(FileStage::Discovered, StageEvent::Start);
    assert_eq!(s, FileStage::Reading);
    assert_eq!(advance(s, StageEvent::ReadFailed), FileStage::Failed);
    let s = advance(s, StageEvent::ReadOk);
    assert_eq!(s, FileStage::Analyzing);
    assert_eq!(advance(s, StageEvent::AnalysisFailed), FileStage::Failed);
    let s = advance(advance(s, StageEvent::Analyzed), StageEvent::Stored);
    assert_eq!(s, FileStage::Persisted);
    assert_eq!(advance(s, StageEvent::ReadFailed), FileStage::Persisted);
    assert_eq!(advance(FileStage::Failed, StageEvent::Start), FileStage::Failed);
}

#[test]
fn batch_stores_each_file_and_later_duplicate_stands() {
    let mut agent = DevAgent::new("memory.json", false);
    let inputs = vec![
        input("a.rs", Some("fn a() {}\n"), None),
        input("b.rs", Some("fn b() {}\n"), None),
        input("a.rs", Some("fn a2() {}\n"), None),
    ];
    let records = agent.review_batch(&inputs, 3);
    assert_eq!(records.len(), 3);
    let ids: Vec<&str> = agent.memory_system.entries.iter().map(|e| e.id.as_str()).collect();
    assert_eq!(ids, vec!["a.rs", "b.rs"]);
    let a = agent.memory_system.get_file("a.rs").unwrap();
    assert_eq!(a.content, "fn a2() {}\n");
    assert!(a.analysis_results.is_some());
    assert!(agent.memory_system.get_file("b.rs").unwrap().analysis_results.is_some());
}
