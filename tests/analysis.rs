use dev_agent::analyzer::CodeAnalyzer;
use dev_agent::language::{is_code_file, Language};
use dev_agent::rules::{Impact, IssueCategory, Severity, SuggestionCategory};

fn lines(n: usize, f: impl Fn(usize) -> String) -> String {
    let mut s = String::new();
    for i in 0..n {
        s.push_str(&f(i));
        s.push('\n');
    }
    s
}

#[test]
fn large_file_with_todo_and_long_line() {
    let a = CodeAnalyzer::new();
    let long = "x".repeat(130);
    let content = lines(150, |i| {
        if i == 10 {
            "note TODO later".to_string()
        } else if i == 20 {
            long.clone()
        } else {
            format!("value {}", i)
        }
    });
    let issues = a.analyze_code(&content, "notes.txt");
    assert_eq!(issues.len(), 2);
    assert_eq!(issues[0].category, IssueCategory::Documentation);
    assert_eq!(issues[0].severity, Severity::Medium);
    assert_eq!(issues[0].line, Some(11));
    assert_eq!(issues[1].category, IssueCategory::Style);
    assert_eq!(issues[1].severity, Severity::Low);
    assert_eq!(issues[1].line, Some(21));
    let suggestions = a.generate_suggestions(&content, "notes.txt");
    assert!(suggestions.iter().any(|s| s.title == "Break down large file"));
}

#[test]
fn three_unwraps_weigh_sixty_hundredths() {
    let a = CodeAnalyzer::new();
    let content = "fn main() {\n    let a = x.unwrap(); let b = y.unwrap();\n    z.unwrap();\n}\n";
    assert_eq!(a.detect_language("main.rs", content), Language::Rust);
    assert_eq!(a.calculate_issue_weight(content), 60);
}

#[test]
fn empty_content_scores_one() {
    let a = CodeAnalyzer::new();
    let s = a.calculate_score("");
    assert_eq!(s.numerator, 1);
    assert_eq!(s.denominator, 1);
    assert_eq!(s.millionths(), 1_000_000);
}

#[test]
fn score_exact_values() {
    let a = CodeAnalyzer::new();
    // one line, one unwrap: 1 - (0.2 / 1) * 0.5 = 0.9
    let s = a.calculate_score("let x = a.unwrap();\n");
    assert_eq!((s.numerator, s.denominator), (180, 200));
    // with a comment the bonus 0.05 is added: 0.95
    let s = a.calculate_score("let x = a.unwrap(); // why\n");
    assert_eq!((s.numerator, s.denominator), (190, 200));
    // a secret, a TODO and a print on one of two lines: 1 - (0.5 / 2) * 0.5
    let s = a.calculate_score("password TODO println!\nok\n");
    assert_eq!((s.numerator, s.denominator), (350, 400));
    assert_eq!(s.millionths(), 875_000);
}

#[test]
fn score_stays_in_unit_interval() {
    let a = CodeAnalyzer::new();
    let bad = lines(5, |_| format!("password TODO println! {}", "x.unwrap()".repeat(10)));
    let s = a.calculate_score(&bad);
    assert_eq!(s.numerator, 0);
    assert!(s.denominator > 0);
    let good = "use tracing::info;\n// doc\nfn f() -> Result<(), ()> { Ok(()) }\n";
    let s = a.calculate_score(good);
    assert_eq!(s.numerator, s.denominator);
}

#[test]
fn bonus_never_lowers_score() {
    let a = CodeAnalyzer::new();
    let plain = "let x = a.unwrap();\nlet y = 2;\n";
    let with_result = "let x = a.unwrap();\nlet y: Result<u8, ()> = 2;\n";
    let s1 = a.calculate_score(plain);
    let s2 = a.calculate_score(with_result);
    assert_eq!(s1.denominator, s2.denominator);
    assert!(s2.numerator >= s1.numerator);
}

#[test]
fn analysis_is_deterministic() {
    let a = CodeAnalyzer::new();
    let content = "use std::fs;\nfn main() { let k = v.clone(); println!(\"{}\", k); }\n// TODO eval(x)\n";
    let i1 = a.analyze_code(content, "src/main.rs");
    let i2 = a.analyze_code(content, "src/main.rs");
    assert_eq!(format!("{:?}", i1), format!("{:?}", i2));
    let s1 = a.generate_suggestions(content, "src/main.rs");
    let s2 = a.generate_suggestions(content, "src/main.rs");
    assert_eq!(format!("{:?}", s1), format!("{:?}", s2));
}

#[test]
fn issues_point_at_their_lines() {
    let a = CodeAnalyzer::new();
    let content = "fn a() {}\r\nlet p = \"password\";\n\nx.unwrap(); eval(y)\n";
    let text: Vec<&str> = content.lines().collect();
    let issues = a.analyze_code(content, "lib.rs");
    assert!(!issues.is_empty());
    for i in &issues {
        let n = i.line.unwrap();
        assert!(n >= 1 && n <= text.len());
        assert_eq!(i.code.as_deref(), Some(text[n - 1]));
    }
}

#[test]
fn generic_issues_precede_rule_issues_on_a_line() {
    let a = CodeAnalyzer::new();
    let issues = a.analyze_code("// TODO x.unwrap()\n", "a.rs");
    assert_eq!(issues.len(), 2);
    assert_eq!(issues[0].message, "TODO or FIXME comment found");
    assert_eq!(issues[1].message, "Unsafe unwrap() usage");
    assert_eq!(issues[1].category, IssueCategory::ErrorHandling);
}

#[test]
fn check_general_issues_on_one_line() {
    let a = CodeAnalyzer::new();
    let issues = a.check_general_issues("api_key = exec(cmd)", 7);
    assert_eq!(issues.len(), 2);
    assert_eq!(issues[0].severity, Severity::High);
    assert_eq!(issues[1].severity, Severity::Critical);
    assert_eq!(issues[1].line, Some(7));
    assert_eq!(issues[1].code.as_deref(), Some("api_key = exec(cmd)"));
}

#[test]
fn python_rules_apply_by_extension() {
    let a = CodeAnalyzer::new();
    let content = "from os import *\ntry:\n    pass\nexcept:\n    pass\n";
    let issues = a.analyze_code(content, "tool.py");
    let msgs: Vec<&str> = issues.iter().map(|i| i.message.as_str()).collect();
    assert_eq!(msgs, vec!["Wildcard imports should be avoided", "Bare except clause"]);
}

#[test]
fn best_practice_and_general_suggestions() {
    let a = CodeAnalyzer::new();
    let content = "const x = 1;\nfunction f() { let y = 2; }\n";
    let s = a.generate_suggestions(content, "app.js");
    assert_eq!(s.len(), 2);
    assert_eq!(s[0].title, "Add documentation");
    assert_eq!(s[0].code.as_deref(), Some("// Add meaningful comments here"));
    assert_eq!(s[0].impact, Impact::Low);
    assert_eq!(s[1].title, "Good practice detected");
    assert_eq!(s[1].description, "Good use of const for immutable values");
    assert_eq!(s[1].category, SuggestionCategory::Refactoring);
}

#[test]
fn empty_file_has_no_findings() {
    let a = CodeAnalyzer::new();
    assert!(a.analyze_code("", "a.rs").is_empty());
    assert!(a.generate_suggestions("", "a.txt").is_empty());
}

#[test]
fn classification_by_extension_then_content() {
    let a = CodeAnalyzer::new();
    assert_eq!(a.detect_language("a/b/c.py", ""), Language::Python);
    assert_eq!(a.detect_language("x.ts", ""), Language::JavaScript);
    assert_eq!(a.detect_language("x.cc", ""), Language::Cpp);
    assert_eq!(a.detect_language("x.go", ""), Language::Go);
    assert_eq!(a.detect_language("Main.java", ""), Language::Java);
    assert_eq!(a.detect_language("script", "use x;\nfn main() {}"), Language::Rust);
    assert_eq!(a.detect_language("script.txt", "import os\ndef f(): pass"), Language::Python);
    assert_eq!(a.detect_language(".bashrc", "function f() { let a = 1 }"), Language::JavaScript);
    assert_eq!(a.detect_language("x", "#include <a>\nint main() {}"), Language::Unknown);
    assert_eq!(a.detect_language("x", "package m\nfunc f() {}"), Language::Unknown);
    assert_eq!(a.detect_language("x", "public class A {}"), Language::Unknown);
    assert_eq!(a.detect_language("src/lib.rs/", ""), Language::Rust);
    assert_eq!(a.detect_language("README", "hello"), Language::Unknown);
    assert_eq!(Language::JavaScript.name(), "javascript");
}

#[test]
fn code_file_extensions() {
    assert!(is_code_file("src/main.rs"));
    assert!(is_code_file("lib.c"));
    assert!(is_code_file("mod.wasm"));
    assert!(!is_code_file("notes.txt"));
    assert!(!is_code_file("Makefile"));
    assert!(!is_code_file("dir.rs/file"));
    assert!(!is_code_file(".rs"));
    assert!(is_code_file("a.rs/"));
    assert!(is_code_file("a.rs/."));
    assert!(is_code_file("dir//b.go//"));
    assert!(!is_code_file(".."));
    assert!(!is_code_file("x.rs/.."));
    assert!(!is_code_file("/"));
}

#[test]
fn rule_level_entry_points() {
    let a = CodeAnalyzer::new();
    let rust = &a.language_rules[0];
    assert_eq!(rust.language, Language::Rust);
    let issues = a.check_language_specific_issues("let b = a.clone(); println!(\"{}\", b.unwrap());", 3, rust);
    let msgs: Vec<&str> = issues.iter().map(|i| i.message.as_str()).collect();
    assert_eq!(
        msgs,
        vec!["Unsafe unwrap() usage", "Use structured logging instead of println!", "Excessive cloning detected"]
    );
    assert!(issues.iter().all(|i| i.line == Some(3)));
    let s = a.generate_language_specific_suggestions("use tracing::info;\nfn f() -> Result<(), ()>", rust);
    let d: Vec<&str> = s.iter().map(|x| x.description.as_str()).collect();
    assert_eq!(d, vec!["Good use of Result types", "Using structured logging"]);
    assert_eq!(s[0].impact, Impact::High);
    let g = a.generate_general_suggestions("// TODO\n");
    let t: Vec<&str> = g.iter().map(|x| x.title.as_str()).collect();
    assert_eq!(t, vec!["Address TODO comments"]);
}

#[test]
fn test_analyze_code() {
    let code = r#"
fn main() {
    println!("Hello, world!");
    let result = Some(42).unwrap();
}
"#;
    let a = CodeAnalyzer::new();
    let score = a.calculate_score(code);
    assert!(score.numerator < score.denominator); // Should have issues
    assert!(!a.analyze_code(code, "main.rs").is_empty());
}

#[test]
fn appending_a_clean_line_never_lowers_the_score() {
    let a = CodeAnalyzer::new();
    let c1 = "let x = a.unwrap();";
    let c2 = format!("{}\n{}", c1, "// Result<T> keeps it typed");
    let s1 = a.calculate_score(c1);
    let s2 = a.calculate_score(&c2);
    assert!(s1.numerator * s2.denominator <= s2.numerator * s1.denominator);
    assert_eq!((s2.numerator, s2.denominator), (400, 400));
}
