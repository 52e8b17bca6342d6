//! Character-level text utilities that the analyses are stated over.

use vstd::prelude::*;
use vstd::std_specs::iter::IteratorSpec;

verus! {

/// `p` occurs in `s` starting at position `i`.
pub open spec fn occurs_at(s: Seq<char>, p: Seq<char>, i: int) -> bool {
    0 <= i && i + p.len() <= s.len() && s.subrange(i, i + p.len()) == p
}

/// `p` is a substring of `s`.
pub open spec fn contains(s: Seq<char>, p: Seq<char>) -> bool {
    exists|i: int| occurs_at(s, p, i)
}

/// The characters of a string slice, in order.
pub fn chars_of(s: &str) -> (r: Vec<char>)
    ensures
        r@ == s@,
{
    let mut it = s.chars();
    let mut v: Vec<char> = Vec::new();
    loop
        invariant
            v@ + it.remaining() == s@,
            it.decrease() is Some,
        ensures
            v@ == s@,
        decreases it.decrease()->0,
    {
        match it.next() {
            Some(c) => {
                v.push(c);
            },
            None => {
                break;
            },
        }
    }
    v
}

/// Whether `p` occurs in `s` at position `i`.
pub fn occurs_at_exec(s: &Vec<char>, p: &Vec<char>, i: usize) -> (r: bool)
    ensures
        r == occurs_at(s@, p@, i as int),
{
    if i > s.len() || p.len() > s.len() - i {
        return false;
    }
    let mut j: usize = 0;
    while j < p.len()
        invariant
            i + p@.len() <= s@.len(),
            s@.len() <= usize::MAX,
            j <= p@.len(),
            forall|k: int| 0 <= k < j ==> s@[i + k] == p@[k],
        decreases p@.len() - j,
    {
        if s[i + j] != p[j] {
            assert(s@.subrange(i as int, i + p@.len())[j as int] != p@[j as int]);
            return false;
        }
        j = j + 1;
    }
    assert(s@.subrange(i as int, i + p@.len()) =~= p@);
    true
}

/// Substring search.
pub fn contains_chars(s: &Vec<char>, p: &Vec<char>) -> (r: bool)
    ensures
        r == contains(s@, p@),
{
    if p.len() == 0 {
        assert(s@.subrange(0, 0) =~= p@);
        assert(occurs_at(s@, p@, 0));
        return true;
    }
    if p.len() > s.len() {
        assert(!contains(s@, p@));
        return false;
    }
    let last = s.len() - p.len();
    let mut i: usize = 0;
    while i <= last
        invariant
            last == s@.len() - p@.len(),
            p@.len() > 0,
            s@.len() <= usize::MAX,
            i <= last + 1,
            forall|k: int| 0 <= k < i ==> !occurs_at(s@, p@, k),
        decreases last + 1 - i,
    {
        if occurs_at_exec(s, p, i) {
            return true;
        }
        i = i + 1;
    }
    assert forall|k: int| !occurs_at(s@, p@, k) by {
        if 0 <= k < i {
        }
    }
    false
}

/// The pieces of `s` between newline characters; there is always at least one.
pub open spec fn split_newlines(s: Seq<char>) -> Seq<Seq<char>>
    decreases s.len(),
{
    if s.len() == 0 {
        seq![Seq::empty()]
    } else {
        let r = split_newlines(s.drop_last());
        if s.last() == '\n' {
            r.push(Seq::empty())
        } else {
            r.update(r.len() - 1, r.last().push(s.last()))
        }
    }
}

/// A line that a newline ended loses one carriage return before it.
pub open spec fn strip_cr(l: Seq<char>) -> Seq<char> {
    if l.len() > 0 && l.last() == '\r' {
        l.drop_last()
    } else {
        l
    }
}

/// The physical lines of a text: separated by `\n` or `\r\n`, with the last
/// line ending optional. An empty text has no lines.
pub open spec fn lines_of(s: Seq<char>) -> Seq<Seq<char>> {
    let pieces = split_newlines(s);
    let ended = pieces.take(pieces.len() - 1).map_values(|l: Seq<char>| strip_cr(l));
    if pieces.last().len() == 0 {
        ended
    } else {
        ended.push(pieces.last())
    }
}

/// The views of a sequence of character vectors.
pub open spec fn views(v: Seq<Vec<char>>) -> Seq<Seq<char>> {
    v.map_values(|l: Vec<char>| l@)
}

pub proof fn lemma_split_newlines_nonempty(s: Seq<char>)
    ensures
        split_newlines(s).len() >= 1,
    decreases s.len(),
{
    if s.len() > 0 {
        lemma_split_newlines_nonempty(s.drop_last());
    }
}

/// Splits a text into its physical lines.
pub fn split_lines(s: &Vec<char>) -> (r: Vec<Vec<char>>)
    ensures
        views(r@) == lines_of(s@),
        total_len(views(r@)) <= s@.len() <= usize::MAX,
{
    let mut lines: Vec<Vec<char>> = Vec::new();
    let mut cur: Vec<char> = Vec::new();
    let mut i: usize = 0;
    proof {
        assert(s@.take(0) =~= Seq::<char>::empty());
    }
    while i < s.len()
        invariant
            i <= s@.len(),
            ({
                let pieces = split_newlines(s@.take(i as int));
                &&& pieces.len() == lines@.len() + 1
                &&& views(lines@) == pieces.take(pieces.len() - 1).map_values(
                    |l: Seq<char>| strip_cr(l),
                )
                &&& cur@ == pieces.last()
            }),
        decreases s@.len() - i,
    {
        let c = s[i];
        let ghost pieces = split_newlines(s@.take(i as int));
        proof {
            lemma_split_newlines_nonempty(s@.take(i as int));
            assert(s@.take(i + 1).drop_last() =~= s@.take(i as int));
            assert(s@.take(i + 1).last() == c);
        }
        if c == '\n' {
            let ghost oc = cur@;
            let ghost old_lines = views(lines@);
            let mut done = cur;
            if done.len() > 0 && done[done.len() - 1] == '\r' {
                done.pop();
            }
            assert(done@ =~= strip_cr(oc));
            lines.push(done);
            cur = Vec::new();
            proof {
                let np = split_newlines(s@.take(i + 1));
                assert(np == pieces.push(Seq::empty()));
                assert(np.take(np.len() - 1) =~= pieces);
                assert(views(lines@) =~= old_lines.push(strip_cr(oc)));
                assert(views(lines@) =~= np.take(np.len() - 1).map_values(
                    |l: Seq<char>| strip_cr(l),
                ));
            }
        } else {
            cur.push(c);
            proof {
                let np = split_newlines(s@.take(i + 1));
                assert(np == pieces.update(pieces.len() - 1, pieces.last().push(c)));
                assert(np.take(np.len() - 1) =~= pieces.take(pieces.len() - 1));
            }
        }
        i = i + 1;
    }
    proof {
        assert(s@.take(i as int) =~= s@);
        lemma_lines_total(s@);
    }
    if cur.len() > 0 {
        lines.push(cur);
        proof {
            let pieces = split_newlines(s@);
            assert(views(lines@) =~= pieces.take(pieces.len() - 1).map_values(
                |l: Seq<char>| strip_cr(l),
            ).push(pieces.last()));
        }
    }
    lines
}

/// The number of non-overlapping occurrences of `p` in `s`, found from the
/// left.
pub open spec fn count_matches(s: Seq<char>, p: Seq<char>) -> nat
    decreases s.len(),
{
    if p.len() == 0 || s.len() < p.len() {
        0
    } else if s.take(p.len() as int) == p {
        1 + count_matches(s.skip(p.len() as int), p)
    } else {
        count_matches(s.skip(1), p)
    }
}

pub proof fn lemma_count_matches_bound(s: Seq<char>, p: Seq<char>)
    ensures
        count_matches(s, p) <= s.len(),
    decreases s.len(),
{
    if p.len() == 0 || s.len() < p.len() {
    } else if s.take(p.len() as int) == p {
        lemma_count_matches_bound(s.skip(p.len() as int), p);
    } else {
        lemma_count_matches_bound(s.skip(1), p);
    }
}

/// Counts the non-overlapping occurrences of a non-empty pattern.
pub fn count_chars(s: &Vec<char>, p: &Vec<char>) -> (r: usize)
    requires
        p@.len() > 0,
    ensures
        r == count_matches(s@, p@),
{
    let mut n: usize = 0;
    let mut i: usize = 0;
    proof {
        assert(s@.skip(0) =~= s@);
    }
    while i <= s.len() && p.len() <= s.len() - i
        invariant
            i <= s@.len() + p@.len(),
            p@.len() > 0,
            n <= i,
            i <= s@.len() ==> n + count_matches(s@.skip(i as int), p@) == count_matches(s@, p@),
            i > s@.len() ==> n == count_matches(s@, p@),
        decreases s@.len() + p@.len() - i,
    {
        let ghost rest = s@.skip(i as int);
        let hit = occurs_at_exec(s, p, i);
        proof {
            assert(rest.take(p@.len() as int) =~= s@.subrange(i as int, i + p@.len()));
        }
        if hit {
            proof {
                assert(rest.skip(p@.len() as int) =~= s@.skip(i + p@.len()));
            }
            n = n + 1;
            i = i + p.len();
        } else {
            proof {
                assert(rest.skip(1) =~= s@.skip(i + 1));
            }
            i = i + 1;
        }
    }
    n
}

/// Whether two character sequences are equal.
pub fn same_chars(a: &Vec<char>, b: &Vec<char>) -> (r: bool)
    ensures
        r == (a@ == b@),
{
    if a.len() != b.len() {
        return false;
    }
    let mut i: usize = 0;
    while i < a.len()
        invariant
            a@.len() == b@.len(),
            i <= a@.len(),
            forall|k: int| 0 <= k < i ==> a@[k] == b@[k],
        decreases a@.len() - i,
    {
        if a[i] != b[i] {
            return false;
        }
        i = i + 1;
    }
    assert(a@ =~= b@);
    true
}

/// Whether a text contains a literal pattern.
pub fn contains_lit(s: &Vec<char>, p: &str) -> (r: bool)
    ensures
        r == contains(s@, p@),
{
    let pc = chars_of(p);
    contains_chars(s, &pc)
}

/// Whether a text equals a literal.
pub fn is_literal(s: &Vec<char>, p: &str) -> (r: bool)
    ensures
        r == (s@ == p@),
{
    let pc = chars_of(p);
    same_chars(s, &pc)
}

/// Relies on `String::push`: appends one character.
#[verifier::external_body]
fn push_char(s: &mut String, c: char)
    ensures
        final(s)@ == old(s)@.push(c),
{
    s.push(c);
}

/// A `String` holding the given characters.
pub fn string_of(v: &Vec<char>) -> (r: String)
    ensures
        r@ == v@,
{
    let mut r = String::new();
    let mut i: usize = 0;
    while i < v.len()
        invariant
            i <= v@.len(),
            r@ == v@.take(i as int),
        decreases v@.len() - i,
    {
        push_char(&mut r, v[i]);
        proof {
            assert(v@.take(i + 1) =~= v@.take(i as int).push(v@[i as int]));
        }
        i = i + 1;
    }
    assert(v@.take(i as int) =~= v@);
    r
}

/// The number of characters in a sequence of lines.
pub open spec fn total_len(ls: Seq<Seq<char>>) -> int
    decreases ls.len(),
{
    if ls.len() == 0 {
        0
    } else {
        total_len(ls.drop_last()) + ls.last().len()
    }
}

proof fn lemma_split_total(s: Seq<char>)
    ensures
        total_len(split_newlines(s)) + split_newlines(s).len() - 1 == s.len(),
    decreases s.len(),
{
    if s.len() == 0 {
        let one = seq![Seq::<char>::empty()];
        assert(one.drop_last() =~= Seq::<Seq<char>>::empty());
        assert(total_len(one) == total_len(one.drop_last()) + one.last().len());
    } else {
        let r = split_newlines(s.drop_last());
        lemma_split_total(s.drop_last());
        lemma_split_newlines_nonempty(s.drop_last());
        if s.last() == '\n' {
            let u = r.push(Seq::empty());
            assert(split_newlines(s) == u);
            assert(u.drop_last() =~= r);
            assert(total_len(u) == total_len(r) + u.last().len());
        } else {
            let u = r.update(r.len() - 1, r.last().push(s.last()));
            assert(split_newlines(s) == u);
            assert(u.drop_last() =~= r.drop_last());
            assert(u.last() == r.last().push(s.last()));
            assert(total_len(u) == total_len(u.drop_last()) + u.last().len());
            assert(total_len(r) == total_len(r.drop_last()) + r.last().len());
        }
    }
}

pub proof fn lemma_total_nonneg(ls: Seq<Seq<char>>)
    ensures
        total_len(ls) >= 0,
    decreases ls.len(),
{
    if ls.len() > 0 {
        lemma_total_nonneg(ls.drop_last());
    }
}

proof fn lemma_strip_total(ps: Seq<Seq<char>>)
    ensures
        total_len(ps.map_values(|l: Seq<char>| strip_cr(l))) <= total_len(ps),
    decreases ps.len(),
{
    if ps.len() > 0 {
        lemma_strip_total(ps.drop_last());
        assert(ps.map_values(|l: Seq<char>| strip_cr(l)).drop_last() =~= ps.drop_last().map_values(
            |l: Seq<char>| strip_cr(l),
        ));
    }
}

pub proof fn lemma_total_prefix(ls: Seq<Seq<char>>, i: int)
    requires
        0 <= i <= ls.len(),
    ensures
        total_len(ls.take(i)) <= total_len(ls),
    decreases ls.len() - i,
{
    if i < ls.len() {
        lemma_total_prefix(ls, i + 1);
        assert(ls.take(i + 1).drop_last() =~= ls.take(i));
    } else {
        assert(ls.take(i) =~= ls);
    }
}

/// The lines of a text hold no more characters than the text.
pub proof fn lemma_lines_total(s: Seq<char>)
    ensures
        total_len(lines_of(s)) <= s.len(),
        lines_of(s).len() <= s.len(),
{
    let pieces = split_newlines(s);
    lemma_split_total(s);
    lemma_split_newlines_nonempty(s);
    let front = pieces.take(pieces.len() - 1);
    assert(front =~= pieces.drop_last());
    lemma_strip_total(front);
    let ended = front.map_values(|l: Seq<char>| strip_cr(l));
    lemma_total_nonneg(front);
    assert(total_len(pieces) == total_len(front) + pieces.last().len());
    if pieces.last().len() != 0 {
        assert(ended.push(pieces.last()).drop_last() =~= ended);
    }
}

/// `i` is the first occurrence of `p` in `s` at or after `from`.
pub open spec fn first_at(s: Seq<char>, p: Seq<char>, from: int, i: int) -> bool {
    &&& from <= i
    &&& occurs_at(s, p, i)
    &&& forall|j: int| from <= j < i ==> !occurs_at(s, p, j)
}

/// The first occurrence of `p` in `s` at or after `from`.
pub open spec fn find_from(s: Seq<char>, p: Seq<char>, from: int) -> Option<int> {
    if exists|i: int| first_at(s, p, from, i) {
        Some(choose|i: int| first_at(s, p, from, i))
    } else {
        None
    }
}

pub proof fn lemma_find_some(s: Seq<char>, p: Seq<char>, from: int, i: int)
    requires
        find_from(s, p, from) == Some(i),
    ensures
        first_at(s, p, from, i),
{
}

/// Finds the first occurrence of `p` in `s` at or after `from`.
pub fn find_chars(s: &Vec<char>, p: &Vec<char>, from: usize) -> (r: Option<usize>)
    requires
        from <= s@.len(),
    ensures
        match r {
            Some(i) => find_from(s@, p@, from as int) == Some(i as int),
            None => find_from(s@, p@, from as int) is None,
        },
{
    let n = s.len();
    let mut i: usize = from;
    while i <= n
        invariant
            n == s@.len(),
            from <= i,
            s@.len() <= usize::MAX,
            forall|j: int| from <= j < i ==> !occurs_at(s@, p@, j),
        decreases s@.len() + 1 - i,
    {
        if occurs_at_exec(s, p, i) {
            assert(first_at(s@, p@, from as int, i as int));
            proof {
                let c = choose|j: int| first_at(s@, p@, from as int, j);
                if c < i {
                }
                if c > i {
                }
            }
            return Some(i);
        }
        if i == n {
            assert forall|j: int| !first_at(s@, p@, from as int, j) by {
                if from <= j <= i {
                }
            }
            return None;
        }
        i = i + 1;
    }
    assert forall|j: int| !first_at(s@, p@, from as int, j) by {
        if from <= j < i {
        }
    }
    None
}

/// White space as `char::is_whitespace` defines it (Unicode `White_Space`).
pub open spec fn is_ws(c: char) -> bool {
    let u = c as u32;
    (9 <= u && u <= 13) || u == 32 || u == 0x85 || u == 0xA0 || u == 0x1680 || (0x2000 <= u
        && u <= 0x200A) || u == 0x2028 || u == 0x2029 || u == 0x202F || u == 0x205F || u == 0x3000
}

pub fn is_ws_exec(c: char) -> (r: bool)
    ensures
        r == is_ws(c),
{
    let u = c as u32;
    (9 <= u && u <= 13) || u == 32 || u == 0x85 || u == 0xA0 || u == 0x1680 || (0x2000 <= u
        && u <= 0x200A) || u == 0x2028 || u == 0x2029 || u == 0x202F || u == 0x205F || u == 0x3000
}

/// `s` without its leading white space.
pub open spec fn trim_start(s: Seq<char>) -> Seq<char>
    decreases s.len(),
{
    if s.len() > 0 && is_ws(s[0]) {
        trim_start(s.skip(1))
    } else {
        s
    }
}

/// `s` without its trailing white space.
pub open spec fn trim_end(s: Seq<char>) -> Seq<char>
    decreases s.len(),
{
    if s.len() > 0 && is_ws(s.last()) {
        trim_end(s.drop_last())
    } else {
        s
    }
}

/// `s` without leading and trailing white space.
pub open spec fn trim(s: Seq<char>) -> Seq<char> {
    trim_end(trim_start(s))
}

/// The characters of `s` from `a` to `b`.
pub fn slice_chars(s: &Vec<char>, a: usize, b: usize) -> (r: Vec<char>)
    requires
        a <= b <= s@.len(),
    ensures
        r@ == s@.subrange(a as int, b as int),
{
    let mut v: Vec<char> = Vec::new();
    let mut i: usize = a;
    while i < b
        invariant
            a <= i <= b,
            b <= s@.len(),
            v@ == s@.subrange(a as int, i as int),
        decreases b - i,
    {
        v.push(s[i]);
        proof {
            assert(s@.subrange(a as int, i + 1) =~= s@.subrange(a as int, i as int).push(s@[i as int]));
        }
        i = i + 1;
    }
    v
}

/// Removes leading and trailing white space.
pub fn trim_chars(s: &Vec<char>) -> (r: Vec<char>)
    ensures
        r@ == trim(s@),
{
    let mut a: usize = 0;
    assert(s@.skip(0) =~= s@);
    while a < s.len() && is_ws_exec(s[a])
        invariant
            a <= s@.len(),
            trim_start(s@) == trim_start(s@.skip(a as int)),
        decreases s@.len() - a,
    {
        assert(s@.skip(a as int).skip(1) =~= s@.skip(a + 1));
        a = a + 1;
    }
    let mut b: usize = s.len();
    assert(s@.skip(a as int).subrange(0, b - a) =~= s@.skip(a as int));
    while b > a && is_ws_exec(s[b - 1])
        invariant
            a <= b <= s@.len(),
            trim(s@) == trim_end(s@.subrange(a as int, b as int)),
        decreases b - a,
    {
        assert(s@.subrange(a as int, b as int).drop_last() =~= s@.subrange(a as int, b - 1));
        b = b - 1;
    }
    proof {
        assert(trim_start(s@) == s@.skip(a as int));
        assert(s@.skip(a as int) =~= s@.subrange(a as int, s@.len() as int));
    }
    slice_chars(s, a, b)
}

/// The name that a line declares after its first `fn ` keyword: the text up
/// to the next `fn ` and then up to the first `(`, trimmed.
pub open spec fn function_name(l: Seq<char>) -> Option<Seq<char>> {
    match find_from(l, "fn "@, 0) {
        Some(i) => {
            let rest = l.skip(i + 3);
            let seg = match find_from(rest, "fn "@, 0) {
                Some(j) => rest.take(j),
                None => rest,
            };
            let name = match find_from(seg, "("@, 0) {
                Some(k) => seg.take(k),
                None => seg,
            };
            Some(trim(name))
        },
        None => None,
    }
}

/// The name that a line declares after its first `fn ` keyword.
pub fn function_name_chars(l: &Vec<char>) -> (r: Option<Vec<char>>)
    ensures
        match r {
            Some(n) => function_name(l@) == Some(n@),
            None => function_name(l@) is None,
        },
{
    let kw = chars_of("fn ");
    let paren = chars_of("(");
    proof {
        reveal_strlit("fn ");
    }
    match find_chars(l, &kw, 0) {
        Some(i) => {
            proof {
                lemma_find_some(l@, kw@, 0, i as int);
            }
            let ln = l.len();
            assert(kw@.len() == 3);
            let rest = slice_chars(l, i + 3, ln);
            assert(rest@ =~= l@.skip(i + 3));
            let seg = match find_chars(&rest, &kw, 0) {
                Some(j) => {
                    let t = slice_chars(&rest, 0, j);
                    assert(t@ =~= rest@.take(j as int));
                    t
                },
                None => rest,
            };
            let name = match find_chars(&seg, &paren, 0) {
                Some(k) => {
                    let t = slice_chars(&seg, 0, k);
                    assert(t@ =~= seg@.take(k as int));
                    t
                },
                None => seg,
            };
            Some(trim_chars(&name))
        },
        None => None,
    }
}

/// What `str::to_lowercase` makes of a text.
pub uninterp spec fn lower_of(s: Seq<char>) -> Seq<char>;

/// Relies on `str::to_lowercase`: the lowercase mapping of every character,
/// a function of the text alone.
#[verifier::external_body]
pub(crate) fn lowercase(s: &str) -> (r: String)
    ensures
        r@ == lower_of(s@),
{
    s.to_lowercase()
}

/// `p` starts `s`.
pub open spec fn starts_with(s: Seq<char>, p: Seq<char>) -> bool {
    occurs_at(s, p, 0)
}

/// `s` without the leading run of `c`.
pub open spec fn strip_leading(s: Seq<char>, c: char) -> Seq<char>
    decreases s.len(),
{
    if s.len() > 0 && s[0] == c {
        strip_leading(s.skip(1), c)
    } else {
        s
    }
}

/// Removes the leading run of `c`.
pub fn strip_leading_chars(s: &Vec<char>, c: char) -> (r: Vec<char>)
    ensures
        r@ == strip_leading(s@, c),
{
    let mut a: usize = 0;
    assert(s@.skip(0) =~= s@);
    while a < s.len() && s[a] == c
        invariant
            a <= s@.len(),
            strip_leading(s@, c) == strip_leading(s@.skip(a as int), c),
        decreases s@.len() - a,
    {
        assert(s@.skip(a as int).skip(1) =~= s@.skip(a + 1));
        a = a + 1;
    }
    let ln = s.len();
    let r = slice_chars(s, a, ln);
    assert(r@ =~= s@.skip(a as int));
    r
}

/// Removes the leading white space.
pub fn trim_start_chars(s: &Vec<char>) -> (r: Vec<char>)
    ensures
        r@ == trim_start(s@),
{
    let mut a: usize = 0;
    assert(s@.skip(0) =~= s@);
    while a < s.len() && is_ws_exec(s[a])
        invariant
            a <= s@.len(),
            trim_start(s@) == trim_start(s@.skip(a as int)),
        decreases s@.len() - a,
    {
        assert(s@.skip(a as int).skip(1) =~= s@.skip(a + 1));
        a = a + 1;
    }
    let ln = s.len();
    let r = slice_chars(s, a, ln);
    assert(r@ =~= s@.skip(a as int));
    r
}

/// Whether a text starts with a literal.
pub fn starts_with_lit(s: &Vec<char>, p: &str) -> (r: bool)
    ensures
        r == starts_with(s@, p@),
{
    let pc = chars_of(p);
    occurs_at_exec(s, &pc, 0)
}

/// The characters of `a` followed by those of `b`.
pub fn concat_chars(a: &Vec<char>, b: &Vec<char>) -> (r: Vec<char>)
    ensures
        r@ == a@ + b@,
{
    let mut r: Vec<char> = Vec::new();
    let mut i: usize = 0;
    while i < a.len()
        invariant
            i <= a@.len(),
            r@ == a@.take(i as int),
        decreases a@.len() - i,
    {
        r.push(a[i]);
        assert(a@.take(i + 1) =~= a@.take(i as int).push(a@[i as int]));
        i = i + 1;
    }
    let mut j: usize = 0;
    while j < b.len()
        invariant
            i == a@.len(),
            j <= b@.len(),
            r@ == a@ + b@.take(j as int),
        decreases b@.len() - j,
    {
        r.push(b[j]);
        assert(a@ + b@.take(j + 1) =~= (a@ + b@.take(j as int)).push(b@[j as int]));
        j = j + 1;
    }
    assert(a@.take(i as int) =~= a@);
    assert(b@.take(j as int) =~= b@);
    r
}

/// A text that a newline and then a newline-free `f` extend has the pieces
/// of the text and then `f`.
pub proof fn lemma_split_append(s: Seq<char>, f: Seq<char>)
    requires
        forall|i: int| 0 <= i < f.len() ==> f[i] != '\n',
    ensures
        split_newlines(s + seq!['\n'] + f) == split_newlines(s).push(f),
    decreases f.len(),
{
    let t = s + seq!['\n'] + f;
    if f.len() == 0 {
        assert(t =~= s.push('\n'));
        assert(t.drop_last() =~= s);
        assert(f =~= Seq::<char>::empty());
        assert(split_newlines(t) == split_newlines(s).push(Seq::empty()));
    } else {
        lemma_split_append(s, f.drop_last());
        assert(t.drop_last() =~= s + seq!['\n'] + f.drop_last());
        assert(t.last() == f.last());
        assert(f.drop_last().push(f.last()) =~= f);
        assert(f[f.len() - 1] != '\n');
        let r = split_newlines(s).push(f.drop_last());
        assert(split_newlines(t) == r.update(r.len() - 1, r.last().push(f.last())));
        assert(r.update(r.len() - 1, r.last().push(f.last())) =~= split_newlines(s).push(f));
    }
}

/// What a text holds, the text with one more character holds.
pub proof fn lemma_contains_extend(s: Seq<char>, p: Seq<char>)
    requires
        s.len() > 0,
        contains(s.drop_last(), p),
    ensures
        contains(s, p),
{
    let i = choose|i: int| occurs_at(s.drop_last(), p, i);
    assert(s.subrange(i, i + p.len()) =~= s.drop_last().subrange(i, i + p.len()));
    assert(occurs_at(s, p, i));
}

/// Dropping a last character never adds an occurrence.
pub proof fn lemma_count_drop_last(s: Seq<char>, p: Seq<char>)
    requires
        s.len() > 0,
    ensures
        count_matches(s.drop_last(), p) <= count_matches(s, p),
    decreases s.len(),
{
    let d = s.drop_last();
    if p.len() == 0 || s.len() < p.len() {
    } else if d.len() < p.len() {
    } else {
        assert(d.take(p.len() as int) =~= s.take(p.len() as int));
        if s.take(p.len() as int) == p {
            if s.len() > p.len() {
                assert(d.skip(p.len() as int) =~= s.skip(p.len() as int).drop_last());
                lemma_count_drop_last(s.skip(p.len() as int), p);
            }
        } else {
            assert(d.skip(1) =~= s.skip(1).drop_last());
            lemma_count_drop_last(s.skip(1), p);
        }
    }
}

} // verus!
