//! The scoring engine: a bounded quality score from issue density and
//! positive signals. Weights are counted in hundredths, and the score is an
//! exact fraction.

use vstd::prelude::*;
use crate::analyzer::{has_comment_marker, has_secret, has_todo, CodeAnalyzer};
use crate::text::{
    lemma_contains_extend, lemma_count_drop_last, lemma_split_append,
    lemma_split_newlines_nonempty, occurs_at, split_newlines, strip_cr, chars_of, contains, count_chars, count_matches, contains_lit, lemma_count_matches_bound,
    lemma_total_prefix, lines_of, split_lines, total_len, views,
};

verus! {

pub open spec fn flag(b: bool, w: int) -> int {
    if b {
        w
    } else {
        0
    }
}

/// The issue weight of one line, in hundredths: a TODO or FIXME marker 10,
/// each forced unwrap 20, printing to the console 10, more than 120
/// characters 5, a secret-like marker 30.
pub open spec fn line_weight(l: Seq<char>) -> int {
    flag(has_todo(l), 10) + 20 * count_matches(l, "unwrap()"@) + flag(contains(l, "println!"@), 10)
        + flag(l.len() > 120, 5) + flag(has_secret(l), 30)
}

/// The issue weight of a sequence of lines.
pub open spec fn issue_weight(ls: Seq<Seq<char>>) -> int
    decreases ls.len(),
{
    if ls.len() == 0 {
        0
    } else {
        issue_weight(ls.drop_last()) + line_weight(ls.last())
    }
}

/// The bonus of a file, in hundredths: structured logging 10, explicit
/// result types 10, any comment marker 5.
pub open spec fn bonus(c: Seq<char>) -> int {
    flag(contains(c, "use tracing::"@), 10) + flag(contains(c, "Result<"@), 10) + flag(
        has_comment_marker(c),
        5,
    )
}

pub open spec fn clamp(x: int, hi: int) -> int {
    if x < 0 {
        0
    } else if x > hi {
        hi
    } else {
        x
    }
}

/// The score of `n` lines of issue weight `w` and bonus `b`, as a fraction:
/// `1 + b/100 - (w/100 / n) * 0.5`, clamped to `[0, 1]`, over the denominator
/// `200 n`. No lines score exactly one.
pub open spec fn score_parts(n: int, w: int, b: int) -> (int, int) {
    if n == 0 {
        (1, 1)
    } else {
        let d = 200 * n;
        (clamp(d + 2 * n * b - w, d), d)
    }
}

/// The score of a file's content.
pub open spec fn score_of(c: Seq<char>) -> (int, int) {
    score_parts(lines_of(c).len() as int, issue_weight(lines_of(c)), bonus(c))
}

/// A score in `[0, 1]`, held exactly as `numerator / denominator`.
#[derive(Clone, Copy, Debug, PartialEq, Eq, Structural)]
pub struct QualityScore {
    pub numerator: u128,
    pub denominator: u128,
}

impl View for QualityScore {
    type V = (int, int);

    open spec fn view(&self) -> (int, int) {
        (self.numerator as int, self.denominator as int)
    }
}

impl QualityScore {
    /// The score in millionths, rounded down.
    pub fn millionths(&self) -> (r: u128)
        requires
            0 <= self@.0 <= self@.1,
            self@.1 > 0,
            self@.1 * 1_000_000 <= u128::MAX,
        ensures
            r == self@.0 * 1_000_000 / self@.1,
            r <= 1_000_000,
    {
        let n = self.numerator;
        let d = self.denominator;
        let ghost ni = n as int;
        let ghost di = d as int;
        assert(ni * 1_000_000 <= di * 1_000_000) by (nonlinear_arith)
            requires
                ni <= di,
        ;
        let r = (n * 1_000_000) / d;
        assert((ni * 1_000_000) / di <= (di * 1_000_000) / di) by (nonlinear_arith)
            requires
                ni <= di,
                di > 0,
        ;
        assert((di * 1_000_000) / di == 1_000_000) by (nonlinear_arith)
            requires
                di > 0,
        ;
        r
    }
}

/// Every score lies in `[0, 1]`.
pub proof fn lemma_score_bounded(c: Seq<char>)
    ensures
        0 <= score_of(c).0 <= score_of(c).1,
        score_of(c).1 > 0,
{
}

/// Empty content scores exactly one.
pub proof fn lemma_empty_scores_one()
    ensures
        score_of(Seq::empty()) == (1int, 1int),
{
    assert(lines_of(Seq::empty()) =~= Seq::<Seq<char>>::empty());
}

/// A positive signal never lowers the score: of two contents with the same
/// lines count and issue weight, the one that has every signal the other has
/// scores at least as high.
pub proof fn lemma_bonus_monotone(c1: Seq<char>, c2: Seq<char>)
    requires
        lines_of(c1).len() == lines_of(c2).len(),
        issue_weight(lines_of(c1)) == issue_weight(lines_of(c2)),
        contains(c1, "use tracing::"@) ==> contains(c2, "use tracing::"@),
        contains(c1, "Result<"@) ==> contains(c2, "Result<"@),
        has_comment_marker(c1) ==> has_comment_marker(c2),
    ensures
        score_of(c1).1 == score_of(c2).1,
        score_of(c1).0 <= score_of(c2).0,
        (score_of(c2).0 - score_of(c1).0) * 100 <= (bonus(c2) - bonus(c1)) * score_of(c1).1,
{
    let n = lines_of(c1).len() as int;
    let b1 = bonus(c1);
    let b2 = bonus(c2);
    assert(b1 <= b2);
    if n > 0 {
        let w = issue_weight(lines_of(c1));
        let d = 200 * n;
        let raw1 = d + 2 * n * b1 - w;
        let raw2 = d + 2 * n * b2 - w;
        assert(2 * n * b1 <= 2 * n * b2) by (nonlinear_arith)
            requires
                n > 0,
                b1 <= b2,
        ;
        assert(score_of(c1) == (clamp(raw1, d), d));
        assert(score_of(c2) == (clamp(raw2, d), d));
        assert(clamp(raw2, d) - clamp(raw1, d) <= raw2 - raw1);
        assert((raw2 - raw1) * 100 == (b2 - b1) * d) by (nonlinear_arith)
            requires
                raw2 - raw1 == 2 * n * b2 - 2 * n * b1,
                d == 200 * n,
        ;
    }
}

fn line_weight_chars(l: &Vec<char>) -> (r: u128)
    ensures
        r == line_weight(l@),
        r <= 55 + 20 * l@.len(),
{
    let mut w: u128 = 0;
    if contains_lit(l, "TODO") || contains_lit(l, "FIXME") {
        w = w + 10;
    }
    let unwrap = chars_of("unwrap()");
    proof {
        reveal_strlit("unwrap()");
        lemma_count_matches_bound(l@, unwrap@);
    }
    let k = count_chars(l, &unwrap);
    w = w + 20 * (k as u128);
    if contains_lit(l, "println!") {
        w = w + 10;
    }
    if l.len() > 120 {
        w = w + 5;
    }
    if contains_lit(l, "password") || contains_lit(l, "secret") || contains_lit(l, "api_key") {
        w = w + 30;
    }
    w
}

fn weight_of_lines(lines: &Vec<Vec<char>>) -> (r: u128)
    requires
        total_len(views(lines@)) <= usize::MAX,
    ensures
        r == issue_weight(views(lines@)),
        r <= 20 * total_len(views(lines@)) + 55 * lines@.len(),
{
    let ghost ls = views(lines@);
    let mut w: u128 = 0;
    let mut i: usize = 0;
    assert(ls.take(0) =~= Seq::<Seq<char>>::empty());
    while i < lines.len()
        invariant
            ls == views(lines@),
            i <= ls.len(),
            total_len(ls) <= usize::MAX,
            w == issue_weight(ls.take(i as int)),
            w <= 20 * total_len(ls.take(i as int)) + 55 * i,
        decreases ls.len() - i,
    {
        let lw = line_weight_chars(&lines[i]);
        proof {
            assert(ls.take(i + 1).drop_last() =~= ls.take(i as int));
            assert(ls.take(i + 1).last() == lines@[i as int]@);
            lemma_total_prefix(ls, i + 1);
        }
        w = w + lw;
        i = i + 1;
    }
    assert(ls.take(i as int) =~= ls);
    w
}

impl CodeAnalyzer {
    /// The issue weight of a file, in hundredths, before it is scaled by the
    /// number of lines.
    pub fn calculate_issue_weight(&self, content: &str) -> (r: u128)
        ensures
            r == issue_weight(lines_of(content@)),
    {
        let c = chars_of(content);
        let lines = split_lines(&c);
        weight_of_lines(&lines)
    }

    /// The quality score of a file.
    pub fn calculate_score(&self, content: &str) -> (r: QualityScore)
        ensures
            r@ == score_of(content@),
            0 <= r@.0 <= r@.1,
            r@.1 > 0,
            r@.1 <= 200 * usize::MAX,
            content@.len() == 0 ==> r@ == (1int, 1int),
    {
        proof {
            lemma_empty_scores_one();
            if content@.len() == 0 {
                assert(content@ =~= Seq::<char>::empty());
            }
        }
        let c = chars_of(content);
        let lines = split_lines(&c);
        let n = lines.len() as u128;
        if n == 0 {
            return QualityScore { numerator: 1, denominator: 1 };
        }
        let w = weight_of_lines(&lines);
        let mut b: u128 = 0;
        if contains_lit(&c, "use tracing::") {
            b = b + 10;
        }
        if contains_lit(&c, "Result<") {
            b = b + 10;
        }
        if contains_lit(&c, "//") || contains_lit(&c, "/*") {
            b = b + 5;
        }
        let d = 200 * n;
        assert(2 * n * b <= 50 * n) by (nonlinear_arith)
            requires
                b <= 25,
        ;
        let up = d + 2 * n * b;
        let num = if w > up {
            0
        } else if up - w > d {
            d
        } else {
            up - w
        };
        QualityScore { numerator: num, denominator: d }
    }
}

proof fn lemma_issue_weight_nonneg(ls: Seq<Seq<char>>)
    ensures
        issue_weight(ls) >= 0,
    decreases ls.len(),
{
    if ls.len() > 0 {
        lemma_issue_weight_nonneg(ls.drop_last());
    }
}

proof fn lemma_empty_line_weight()
    ensures
        line_weight(Seq::empty()) == 0,
{
    reveal_strlit("TODO");
    reveal_strlit("FIXME");
    reveal_strlit("unwrap()");
    reveal_strlit("println!");
    reveal_strlit("password");
    reveal_strlit("secret");
    reveal_strlit("api_key");
}

proof fn lemma_contains_shorter(l: Seq<char>, p: Seq<char>)
    requires
        l.len() > 0,
    ensures
        contains(l.drop_last(), p) ==> contains(l, p),
{
    if contains(l.drop_last(), p) {
        lemma_contains_extend(l, p);
    }
}

/// Dropping a carriage return never adds issue weight to a line.
proof fn lemma_strip_weight(l: Seq<char>)
    ensures
        line_weight(strip_cr(l)) <= line_weight(l),
{
    if l.len() > 0 && l.last() == '\r' {
        lemma_contains_shorter(l, "TODO"@);
        lemma_contains_shorter(l, "FIXME"@);
        lemma_contains_shorter(l, "println!"@);
        lemma_contains_shorter(l, "password"@);
        lemma_contains_shorter(l, "secret"@);
        lemma_contains_shorter(l, "api_key"@);
        lemma_count_drop_last(l, "unwrap()"@);
    }
}

proof fn lemma_strip_weights(ps: Seq<Seq<char>>)
    ensures
        issue_weight(ps.map_values(|l: Seq<char>| strip_cr(l))) <= issue_weight(ps),
    decreases ps.len(),
{
    if ps.len() > 0 {
        lemma_strip_weights(ps.drop_last());
        lemma_strip_weight(ps.last());
        assert(ps.map_values(|l: Seq<char>| strip_cr(l)).drop_last() =~= ps.drop_last().map_values(
            |l: Seq<char>| strip_cr(l),
        ));
    }
}

proof fn lemma_contains_prefix(a: Seq<char>, b: Seq<char>, p: Seq<char>)
    ensures
        contains(a, p) ==> contains(a + b, p),
{
    if contains(a, p) {
        let i = choose|i: int| occurs_at(a, p, i);
        assert((a + b).subrange(i, i + p.len()) =~= a.subrange(i, i + p.len()));
        assert(occurs_at(a + b, p, i));
    }
}

/// Fewer issues per line and more bonus never lower the score.
proof fn lemma_score_order(n1: int, w1: int, b1: int, n2: int, w2: int, b2: int)
    requires
        0 <= n1 <= n2,
        0 < n2,
        0 <= w2 <= w1,
        n1 == 0 ==> w1 == 0,
        0 <= b1 <= b2,
    ensures
        score_parts(n1, w1, b1).0 * score_parts(n2, w2, b2).1 <= score_parts(n2, w2, b2).0
            * score_parts(n1, w1, b1).1,
{
    let d2 = 200 * n2;
    let raw2 = d2 + 2 * n2 * b2 - w2;
    if n1 == 0 {
        assert(2 * n2 * b2 >= 0) by (nonlinear_arith)
            requires
                n2 > 0,
                b2 >= 0,
        ;
        assert(w2 == 0);
        assert(raw2 >= d2);
        assert(score_parts(n2, w2, b2) == (d2, d2));
        assert(score_parts(n1, w1, b1) == (1int, 1int));
        assert(1 * d2 <= d2 * 1);
    } else {
        let d1 = 200 * n1;
        let raw1 = d1 + 2 * n1 * b1 - w1;
        let num1 = clamp(raw1, d1);
        let num2 = clamp(raw2, d2);
        assert(score_parts(n1, w1, b1) == (num1, d1));
        assert(score_parts(n2, w2, b2) == (num2, d2));
        assert(raw1 * d2 <= raw2 * d1) by (nonlinear_arith)
            requires
                0 < n1 <= n2,
                0 <= w2 <= w1,
                0 <= b1 <= b2,
                d1 == 200 * n1,
                d2 == 200 * n2,
                raw1 == d1 + 2 * n1 * b1 - w1,
                raw2 == d2 + 2 * n2 * b2 - w2,
        ;
        if raw2 >= d2 {
            assert(num1 * d2 <= d1 * d2) by (nonlinear_arith)
                requires
                    num1 <= d1,
                    d2 > 0,
            ;
            assert(num2 == d2);
            assert(d1 * d2 == num2 * d1) by (nonlinear_arith)
                requires
                    num2 == d2,
            ;
            assert(num1 * d2 <= num2 * d1);
        } else if raw1 <= 0 {
            assert(num1 == 0);
            assert(0 <= num2 * d1) by (nonlinear_arith)
                requires
                    num2 >= 0,
                    d1 > 0,
            ;
            assert(num1 * d2 == 0) by (nonlinear_arith)
                requires
                    num1 == 0,
            ;
            assert(num1 * d2 <= num2 * d1);
        } else {
            assert(num1 * d2 <= raw1 * d2) by (nonlinear_arith)
                requires
                    num1 <= raw1,
                    d2 > 0,
            ;
            assert(raw2 * d1 <= num2 * d1) by (nonlinear_arith)
                requires
                    raw2 <= num2,
                    d1 > 0,
            ;
            assert(num1 * d2 <= num2 * d1);
        }
    }
}

/// Appending a line that triggers no penalty never lowers the score: with
/// `c2 = c1 + "\n" + f`, `score(c1) <= score(c2)` as fractions.
pub proof fn lemma_append_line(c1: Seq<char>, f: Seq<char>)
    requires
        forall|i: int| 0 <= i < f.len() ==> f[i] != '\n',
        line_weight(f) == 0,
    ensures
        score_of(c1).0 * score_of(c1 + seq!['\n'] + f).1 <= score_of(c1 + seq!['\n'] + f).0
            * score_of(c1).1,
{
    let c2 = c1 + seq!['\n'] + f;
    let p = split_newlines(c1);
    lemma_split_newlines_nonempty(c1);
    lemma_split_append(c1, f);
    let n = p.len();
    let strip = |l: Seq<char>| strip_cr(l);
    let a = p.take(n - 1).map_values(strip);
    let l1 = lines_of(c1);
    let l2 = lines_of(c2);
    let p2 = p.push(f);
    assert(p2.take(p2.len() - 1) =~= p);
    let all = p.map_values(strip);
    assert(all =~= a.push(strip_cr(p.last())));
    assert(all.drop_last() =~= a);
    lemma_issue_weight_nonneg(a);
    lemma_empty_line_weight();
    lemma_strip_weight(p.last());
    // the weight of the first text
    if p.last().len() == 0 {
        assert(l1 == a);
    } else {
        assert(l1 == a.push(p.last()));
        assert(a.push(p.last()).drop_last() =~= a);
    }
    assert(issue_weight(all) == issue_weight(a) + line_weight(strip_cr(p.last())));
    if p.last().len() == 0 {
        assert(strip_cr(p.last()) == p.last());
        assert(p.last() =~= Seq::<char>::empty());
    }
    // the weight of the second text
    if f.len() == 0 {
        assert(l2 == all);
    } else {
        assert(l2 == all.push(f));
        assert(all.push(f).drop_last() =~= all);
    }
    assert(issue_weight(l2) <= issue_weight(l1));
    lemma_issue_weight_nonneg(l2);
    assert(l2.len() >= l1.len());
    assert(l2.len() > 0);
    // every bonus signal of the first text stays
    assert(c2 =~= c1 + (seq!['\n'] + f));
    lemma_contains_prefix(c1, seq!['\n'] + f, "use tracing::"@);
    lemma_contains_prefix(c1, seq!['\n'] + f, "Result<"@);
    lemma_contains_prefix(c1, seq!['\n'] + f, "//"@);
    lemma_contains_prefix(c1, seq!['\n'] + f, "/*"@);
    assert(bonus(c1) <= bonus(c2));
    if l1.len() == 0 {
        assert(issue_weight(l1) == 0);
    }
    lemma_score_order(
        l1.len() as int,
        issue_weight(l1),
        bonus(c1),
        l2.len() as int,
        issue_weight(l2),
        bonus(c2),
    );
}

} // verus!
