use dev_agent::language::Language;
use dev_agent::memory::{extract_tags, AnalysisResults, MemorySystem};

#[test]
fn storing_same_identity_twice_keeps_one_entry() {
    let mut m = MemorySystem::new("memory.json");
    m.store_file_at("src/a.rs", "fn a() {}", 100);
    m.store_file_at("src/a.rs", "fn a() { b() }", 250);
    assert_eq!(m.entries.len(), 1);
    let e = m.get_file("src/a.rs").unwrap();
    assert_eq!(e.content, "fn a() { b() }");
    assert_eq!(e.updated_at, 250);
    assert_eq!(e.created_at, 100);
    assert_eq!(m.get_statistics(0).total_files, 1);
}

#[test]
fn distinct_identities_are_counted() {
    let mut m = MemorySystem::new("memory.json");
    for i in 0..5 {
        m.store_file_at(&format!("f{}.py", i), "def f():\n    pass\n", i as i64);
    }
    let st = m.get_statistics(42);
    assert_eq!(st.total_files, 5);
    assert_eq!(st.total_lines, 10);
    assert_eq!(st.memory_size_bytes, 42);
    assert_eq!(st.files_with_issues, 0);
    assert_eq!(st.languages.len(), 7);
    assert_eq!(st.languages[0].language, Language::Rust);
    assert_eq!(st.languages[0].count, 0);
}

#[test]
fn store_file_uses_the_clock() {
    let mut m = MemorySystem::new("memory.json");
    m.store_file("x.rs", "fn x() {}");
    let e = m.get_file("x.rs").unwrap();
    assert!(e.updated_at > 0);
    assert_eq!(e.created_at, e.updated_at);
    let created = e.created_at;
    m.store_file("x.rs", "fn y() {}");
    let e = m.get_file("x.rs").unwrap();
    assert_eq!(m.entries.len(), 1);
    assert_eq!(e.created_at, created);
    assert_eq!(e.content, "fn y() {}");
    assert_eq!(e.metadata.tags, vec!["fn:y"]);
}

#[test]
fn metadata_tags_and_language() {
    let tags = extract_tags("// TODO fix\n// BUG and FIXME\nuse a;\npub fn run(x: u8) {}\nfn  helper () {}\n");
    assert_eq!(tags, vec!["todo", "fixme", "bug", "fn:run", "fn:helper"]);
    let mut m = MemorySystem::new("memory.json");
    m.store_file_at("k", "use a;\nfn k() {}\n", 1);
    let e = m.get_file("k").unwrap();
    assert_eq!(e.metadata.language, Language::Rust);
    assert_eq!(e.metadata.file_size, 17);
    assert_eq!(e.metadata.tags, vec!["fn:k"]);
    assert!(m.get_file("missing").is_none());
    m.store_file_at("j", "public class A {}", 1);
    assert_eq!(m.get_file("j").unwrap().metadata.language, Language::Java);
}

#[test]
fn search_is_case_insensitive() {
    let mut m = MemorySystem::new("memory.json");
    m.store_file_at("Alpha.rs", "fn Hello() {}", 1);
    m.store_file_at("beta.py", "print('x')", 2);
    m.store_file_at("gamma.js", "// nothing", 3);
    let hits: Vec<&str> = m.search_files("HELLO").iter().map(|e| e.id.as_str()).collect();
    assert_eq!(hits, vec!["Alpha.rs"]);
    let hits: Vec<&str> = m.search_files("BETA").iter().map(|e| e.id.as_str()).collect();
    assert_eq!(hits, vec!["beta.py"]);
    let hits: Vec<&str> = m.search_files("fn:hello").iter().map(|e| e.id.as_str()).collect();
    assert_eq!(hits, vec!["Alpha.rs"]);
    assert!(m.search_files("zzz").is_empty());
}

#[test]
fn issues_filter_and_update() {
    let mut m = MemorySystem::new("memory.json");
    m.store_file_at("a", "x", 1);
    m.store_file_at("b", "y", 1);
    let found = m.update_analysis_at(
        "b",
        AnalysisResults { issues: vec!["bad".to_string()], suggestions: vec![], score_millionths: 5 },
        9,
    );
    assert!(found);
    assert!(!m.update_analysis_at(
        "c",
        AnalysisResults { issues: vec![], suggestions: vec![], score_millionths: 0 },
        9
    ));
    let with: Vec<&str> = m.get_files_with_issues().iter().map(|e| e.id.as_str()).collect();
    assert_eq!(with, vec!["b"]);
    assert_eq!(m.get_statistics(0).files_with_issues, 1);
    assert_eq!(m.get_file("b").unwrap().updated_at, 9);
}

#[test]
fn recent_files_latest_first() {
    let mut m = MemorySystem::new("memory.json");
    m.store_file_at("a", "1", 5);
    m.store_file_at("b", "2", 9);
    m.store_file_at("c", "3", 5);
    m.store_file_at("d", "4", 7);
    let ids: Vec<&str> = m.get_recent_files(3).iter().map(|e| e.id.as_str()).collect();
    assert_eq!(ids, vec!["b", "d", "a"]);
    assert_eq!(m.get_recent_files(10).len(), 4);
    assert!(m.get_recent_files(0).is_empty());
}

#[test]
fn by_language_clear_and_import() {
    let mut m = MemorySystem::new("memory.json");
    m.store_file_at("a", "use x;\nfn a() {}", 1);
    m.store_file_at("b", "hello", 1);
    let rust: Vec<&str> = m.get_files_by_language(Language::Rust).iter().map(|e| e.id.as_str()).collect();
    assert_eq!(rust, vec!["a"]);
    let mut other = MemorySystem::new("other.json");
    other.store_file_at("b", "replaced", 2);
    other.store_file_at("c", "new", 2);
    let moved = std::mem::take(&mut other.entries);
    m.import_memory(moved);
    assert_eq!(m.entries.len(), 3);
    assert_eq!(m.get_file("b").unwrap().content, "replaced");
    m.clear_memory();
    assert_eq!(m.get_statistics(0).total_files, 0);
}

#[test]
fn update_analysis_uses_the_clock() {
    let mut m = MemorySystem::new("memory.json");
    m.store_file_at("a", "x", 1);
    let found = m.update_analysis(
        "a",
        AnalysisResults { issues: vec![], suggestions: vec!["s".to_string()], score_millionths: 1 },
    );
    assert!(found);
    let e = m.get_file("a").unwrap();
    assert!(e.updated_at > 1);
    assert_eq!(e.created_at, 1);
    assert_eq!(e.analysis_results.as_ref().unwrap().suggestions, vec!["s"]);
    assert!(m.get_files_with_issues().is_empty());
}
