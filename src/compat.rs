//! The compatibility analyzer: how well a Rust file suits a WebAssembly
//! target, with an estimated size and portability suggestions.

use vstd::prelude::*;
use crate::analyzer::present_if;
use crate::score::flag;
use crate::text::{
    chars_of, contains, function_name, function_name_chars, contains_lit, lines_of, split_lines,
    string_of, views,
};

verus! {

/// A known optimization of WebAssembly builds.
pub struct WasmOptimization {
    pub name: String,
    pub description: String,
    pub impact: String,
    pub code_example: String,
}

pub struct WasmOptimizationView {
    pub name: Seq<char>,
    pub description: Seq<char>,
    pub impact: Seq<char>,
    pub code_example: Seq<char>,
}

impl View for WasmOptimization {
    type V = WasmOptimizationView;

    open spec fn view(&self) -> WasmOptimizationView {
        WasmOptimizationView {
            name: self.name@,
            description: self.description@,
            impact: self.impact@,
            code_example: self.code_example@,
        }
    }
}

/// The result of the compatibility analysis. Scores are in hundredths.
pub struct WasmAnalysis {
    pub binary_size: u128,
    pub optimization_suggestions: Vec<String>,
    pub performance_score: u64,
    pub wasm_compatibility: bool,
    pub memory_usage: u128,
    pub export_functions: Vec<String>,
}

pub struct WasmAnalysisView {
    pub binary_size: int,
    pub optimization_suggestions: Seq<Seq<char>>,
    pub performance_score: int,
    pub wasm_compatibility: bool,
    pub memory_usage: int,
    pub export_functions: Seq<Seq<char>>,
}

pub open spec fn string_views(v: Seq<String>) -> Seq<Seq<char>> {
    v.map_values(|s: String| s@)
}

impl View for WasmAnalysis {
    type V = WasmAnalysisView;

    open spec fn view(&self) -> WasmAnalysisView {
        WasmAnalysisView {
            binary_size: self.binary_size as int,
            optimization_suggestions: string_views(self.optimization_suggestions@),
            performance_score: self.performance_score as int,
            wasm_compatibility: self.wasm_compatibility,
            memory_usage: self.memory_usage as int,
            export_functions: string_views(self.export_functions@),
        }
    }
}

pub open spec fn uses_std(c: Seq<char>) -> bool {
    contains(c, "use std::"@) && !contains(c, "#![no_std]"@)
}

pub open spec fn uses_fs(c: Seq<char>) -> bool {
    contains(c, "std::fs::"@) || contains(c, "File::"@)
}

pub open spec fn uses_threads(c: Seq<char>) -> bool {
    contains(c, "std::thread::"@) || contains(c, "spawn"@)
}

pub open spec fn uses_network(c: Seq<char>) -> bool {
    contains(c, "TcpStream"@) || contains(c, "UdpSocket"@)
}

pub open spec fn uses_heap(c: Seq<char>) -> bool {
    contains(c, "Box::new"@) || contains(c, "Vec::new"@)
}

pub open spec fn may_panic(c: Seq<char>) -> bool {
    contains(c, "unwrap()"@) || contains(c, "expect("@)
}

/// The portability suggestions for content `c`, in a fixed order.
pub open spec fn compat_suggestions(c: Seq<char>) -> Seq<Seq<char>> {
    present_if(uses_std(c), "Consider using no_std for smaller WASM size"@) + present_if(
        uses_fs(c),
        "File system operations are not available in WASM"@,
    ) + present_if(uses_threads(c), "Threading is not available in WASM"@) + present_if(
        uses_network(c),
        "Network operations require WASI or web APIs"@,
    ) + present_if(uses_heap(c), "Consider using static allocations where possible"@) + present_if(
        may_panic(c),
        "Consider using Result types instead of panicking"@,
    )
}

/// The compatibility penalty of content `c`, in hundredths.
pub open spec fn compat_penalty(c: Seq<char>) -> int {
    flag(uses_std(c), 20) + flag(uses_fs(c), 30) + flag(uses_threads(c), 40) + flag(
        uses_network(c),
        20,
    ) + flag(may_panic(c), 10)
}

/// The compatibility score, in hundredths, never below zero.
pub open spec fn compat_score(c: Seq<char>) -> int {
    if compat_penalty(c) >= 100 {
        0
    } else {
        100 - compat_penalty(c)
    }
}

/// A line that exports a function.
pub open spec fn is_export_line(l: Seq<char>) -> bool {
    contains(l, "#[no_mangle]"@) || contains(l, "pub extern"@)
}

/// The names of the functions that exporting lines declare, in line order.
pub open spec fn exported_names(ls: Seq<Seq<char>>) -> Seq<Seq<char>>
    decreases ls.len(),
{
    if ls.len() == 0 {
        seq![]
    } else {
        exported_names(ls.drop_last()) + if is_export_line(ls.last()) {
            match function_name(ls.last()) {
                Some(n) => seq![n],
                None => seq![],
            }
        } else {
            seq![]
        }
    }
}

/// The full compatibility analysis of content `c`.
pub open spec fn compat_analysis(c: Seq<char>) -> WasmAnalysisView {
    let size = 100 * lines_of(c).len() as int;
    WasmAnalysisView {
        binary_size: size,
        optimization_suggestions: compat_suggestions(c),
        performance_score: compat_score(c),
        wasm_compatibility: compat_score(c) > 50,
        memory_usage: size / 2,
        export_functions: exported_names(lines_of(c)),
    }
}

fn push_when(v: &mut Vec<String>, b: bool, m: &str)
    ensures
        string_views(final(v)@) == string_views(old(v)@) + present_if(b, m@),
{
    let ghost before = string_views(v@);
    if b {
        v.push(m.to_string());
        assert(string_views(v@) =~= before + present_if(b, m@));
    } else {
        assert(string_views(v@) =~= before + present_if(b, m@));
    }
}

fn exported_names_chars(lines: &Vec<Vec<char>>) -> (r: Vec<String>)
    ensures
        string_views(r@) == exported_names(views(lines@)),
{
    let ghost ls = views(lines@);
    let mut v: Vec<String> = Vec::new();
    let mut i: usize = 0;
    assert(ls.take(0) =~= Seq::<Seq<char>>::empty());
    while i < lines.len()
        invariant
            ls == views(lines@),
            i <= ls.len(),
            string_views(v@) == exported_names(ls.take(i as int)),
        decreases ls.len() - i,
    {
        let l = &lines[i];
        let ghost before = string_views(v@);
        proof {
            assert(ls.take(i + 1).drop_last() =~= ls.take(i as int));
            assert(ls.take(i + 1).last() == l@);
        }
        if contains_lit(l, "#[no_mangle]") || contains_lit(l, "pub extern") {
            match function_name_chars(l) {
                Some(n) => {
                    let s = string_of(&n);
                    v.push(s);
                    assert(string_views(v@) =~= before + seq![n@]);
                },
                None => {
                    assert(before + Seq::<Seq<char>>::empty() =~= before);
                },
            }
        } else {
            assert(before + Seq::<Seq<char>>::empty() =~= before);
        }
        i = i + 1;
    }
    assert(ls.take(i as int) =~= ls);
    v
}

fn optimization(name: &str, description: &str, impact: &str, example: &str) -> (r: WasmOptimization)
    ensures
        r@ == (WasmOptimizationView {
            name: name@,
            description: description@,
            impact: impact@,
            code_example: example@,
        }),
{
    WasmOptimization {
        name: name.to_string(),
        description: description.to_string(),
        impact: impact.to_string(),
        code_example: example.to_string(),
    }
}

pub open spec fn no_std_optimization() -> WasmOptimizationView {
    WasmOptimizationView {
        name: "Use no_std"@,
        description: "Remove standard library dependencies for smaller WASM size"@,
        impact: "High"@,
        code_example: "#![no_std]\nuse core::prelude::*;"@,
    }
}

pub open spec fn panic_abort_optimization() -> WasmOptimizationView {
    WasmOptimizationView {
        name: "Use panic_abort"@,
        description: "Abort on panic instead of unwinding for smaller size"@,
        impact: "Medium"@,
        code_example: "[profile.release]\npanic = \"abort\""@,
    }
}

pub open spec fn lto_optimization() -> WasmOptimizationView {
    WasmOptimizationView {
        name: "Enable LTO"@,
        description: "Link Time Optimization for better performance"@,
        impact: "High"@,
        code_example: "[profile.release]\nlto = true"@,
    }
}

/// The optimizations that an analysis calls for: dropping the standard
/// library for a large binary, link-time optimization below a score of 0.8,
/// aborting on panic below 0.7.
pub open spec fn optimizations_for(a: WasmAnalysisView) -> Seq<WasmOptimizationView> {
    present_if(a.binary_size > 500000, no_std_optimization()) + present_if(
        a.performance_score < 80,
        lto_optimization(),
    ) + present_if(a.performance_score < 70, panic_abort_optimization())
}

/// The known optimizations, in catalog order.
pub open spec fn optimization_catalog() -> Seq<WasmOptimizationView> {
    seq![no_std_optimization(), panic_abort_optimization(), lto_optimization()]
}

impl WasmOptimization {
    /// A copy of the optimization.
    pub fn copy(&self) -> (r: WasmOptimization)
        ensures
            r@ == self@,
    {
        WasmOptimization {
            name: self.name.clone(),
            description: self.description.clone(),
            impact: self.impact.clone(),
            code_example: self.code_example.clone(),
        }
    }
}

/// The compatibility analyzer, holding the catalog of optimizations.
pub struct WasmAnalyzer {
    pub optimizations: Vec<WasmOptimization>,
}

impl WasmAnalyzer {
    /// The analyzer holds the standard catalog.
    pub open spec fn wf(&self) -> bool {
        self.optimizations@.map_values(|o: WasmOptimization| o@) == optimization_catalog()
    }

    pub fn new() -> (r: WasmAnalyzer)
        ensures
            r.wf(),
    {
        let mut optimizations: Vec<WasmOptimization> = Vec::new();
        optimizations.push(optimization(
            "Use no_std",
            "Remove standard library dependencies for smaller WASM size",
            "High",
            "#![no_std]\nuse core::prelude::*;",
        ));
        optimizations.push(optimization(
            "Use panic_abort",
            "Abort on panic instead of unwinding for smaller size",
            "Medium",
            "[profile.release]\npanic = \"abort\"",
        ));
        optimizations.push(optimization(
            "Enable LTO",
            "Link Time Optimization for better performance",
            "High",
            "[profile.release]\nlto = true",
        ));
        let r = WasmAnalyzer { optimizations };
        assert(r.optimizations@.map_values(|o: WasmOptimization| o@) =~= optimization_catalog());
        r
    }

    /// Analyzes a Rust file for a WebAssembly target.
    pub fn analyze_rust_file(&self, content: &str) -> (r: WasmAnalysis)
        ensures
            r@ == compat_analysis(content@),
    {
        let c = chars_of(content);
        let mut s: Vec<String> = Vec::new();
        let mut penalty: u64 = 0;
        let a = contains_lit(&c, "use std::") && !contains_lit(&c, "#![no_std]");
        push_when(&mut s, a, "Consider using no_std for smaller WASM size");
        if a {
            penalty = penalty + 20;
        }
        let b = contains_lit(&c, "std::fs::") || contains_lit(&c, "File::");
        push_when(&mut s, b, "File system operations are not available in WASM");
        if b {
            penalty = penalty + 30;
        }
        let t = contains_lit(&c, "std::thread::") || contains_lit(&c, "spawn");
        push_when(&mut s, t, "Threading is not available in WASM");
        if t {
            penalty = penalty + 40;
        }
        let n = contains_lit(&c, "TcpStream") || contains_lit(&c, "UdpSocket");
        push_when(&mut s, n, "Network operations require WASI or web APIs");
        if n {
            penalty = penalty + 20;
        }
        let h = contains_lit(&c, "Box::new") || contains_lit(&c, "Vec::new");
        push_when(&mut s, h, "Consider using static allocations where possible");
        let p = contains_lit(&c, "unwrap()") || contains_lit(&c, "expect(");
        push_when(&mut s, p, "Consider using Result types instead of panicking");
        if p {
            penalty = penalty + 10;
        }
        let score: u64 = if penalty >= 100 {
            0
        } else {
            100 - penalty
        };
        let lines = split_lines(&c);
        let size: u128 = 100 * (lines.len() as u128);
        let exports = exported_names_chars(&lines);
        assert(string_views(s@) =~= compat_suggestions(content@));
        WasmAnalysis {
            binary_size: size,
            optimization_suggestions: s,
            performance_score: score,
            wasm_compatibility: score > 50,
            memory_usage: size / 2,
            export_functions: exports,
        }
    }

    /// The optimizations that an analysis calls for.
    pub fn get_optimization_suggestions(&self, analysis: &WasmAnalysis) -> (r: Vec<WasmOptimization>)
        requires
            self.wf(),
        ensures
            r@.map_values(|o: WasmOptimization| o@) == optimizations_for(analysis@),
    {
        proof {
            let m = self.optimizations@.map_values(|o: WasmOptimization| o@);
            assert(m.len() == 3);
            assert(m[0] == self.optimizations@[0]@);
            assert(m[1] == self.optimizations@[1]@);
            assert(m[2] == self.optimizations@[2]@);
        }
        let mut v: Vec<WasmOptimization> = Vec::new();
        if analysis.binary_size > 500000 {
            v.push(self.optimizations[0].copy());
        }
        if analysis.performance_score < 80 {
            v.push(self.optimizations[2].copy());
        }
        if analysis.performance_score < 70 {
            v.push(self.optimizations[1].copy());
        }
        assert(v@.map_values(|o: WasmOptimization| o@) =~= optimizations_for(analysis@));
        v
    }
}

} // verus!
