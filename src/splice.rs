//! Rewriting the text between a start-marker line and an end-marker line,
//! leaving every other byte of the file as it was.

use vstd::prelude::*;
use crate::text::{chars_of, is_white_space_char, push_range, range_equals, string_of, trim_end};

verus! {

/// Marker lines that delimit the definition region of a header.
pub const DEFINITION_START: &'static str = "// DESERIALIZATION DEFINITION START";
pub const DEFINITION_END: &'static str = "// DESERIALIZATION DEFINITION END";
/// Marker lines that delimit the implementation region of a source file.
pub const IMPLEMENTATION_START: &'static str = "// DESERIALIZATION IMPLEMENTATION START";
pub const IMPLEMENTATION_END: &'static str = "// DESERIALIZATION IMPLEMENTATION END";

/// Why a region could not be rewritten.
#[derive(Clone, Copy, Debug, PartialEq, Eq, Structural)]
pub enum SpliceError {
    /// No line matches the start marker.
    MissingStartMarker,
    /// A start marker is present but no later line matches the end marker.
    UnterminatedRegion,
}

/// Index of the first `'\n'` at or after `i`, or the length of `t` if none.
pub open spec fn line_end(t: Seq<char>, i: int) -> int
    decreases t.len() - i,
{
    if i < 0 || i >= t.len() {
        t.len() as int
    } else if t[i] == '\n' {
        i
    } else {
        line_end(t, i + 1)
    }
}

/// The line starting at `i`, with trailing whitespace trimmed, is `m`.
pub open spec fn marker_at(t: Seq<char>, i: int, m: Seq<char>) -> bool {
    trim_end(t.subrange(i, line_end(t, i))) == m
}

/// Start of the first line, at or after the line start `from`, that matches `m`.
pub open spec fn find_marker(t: Seq<char>, from: int, m: Seq<char>) -> Option<int>
    decreases t.len() - from,
    via find_marker_decreases
{
    if from < 0 || from >= t.len() {
        None
    } else if marker_at(t, from, m) {
        Some(from)
    } else if line_end(t, from) >= t.len() {
        None
    } else {
        find_marker(t, line_end(t, from) + 1, m)
    }
}

#[via_fn]
proof fn find_marker_decreases(t: Seq<char>, from: int, m: Seq<char>) {
    if 0 <= from < t.len() {
        lemma_line_end(t, from);
    }
}

/// The text after the splice: everything up to and including the first
/// start-marker line, then `r` and a newline, then the first end-marker line
/// after it and everything that follows.
pub open spec fn splice(t: Seq<char>, start: Seq<char>, end: Seq<char>, r: Seq<char>) -> Result<
    Seq<char>,
    SpliceError,
> {
    match find_marker(t, 0, start) {
        None => Err(SpliceError::MissingStartMarker),
        Some(s) => {
            let body = line_end(t, s) + 1;
            match find_marker(t, body, end) {
                None => Err(SpliceError::UnterminatedRegion),
                Some(e) => Ok(t.subrange(0, body) + r + seq!['\n'] + t.subrange(e, t.len() as int)),
            }
        },
    }
}

pub proof fn lemma_line_end(t: Seq<char>, i: int)
    requires
        0 <= i <= t.len(),
    ensures
        i <= line_end(t, i) <= t.len(),
        line_end(t, i) < t.len() ==> t[line_end(t, i)] == '\n',
        forall|k: int| i <= k < line_end(t, i) ==> t[k] != '\n',
    decreases t.len() - i,
{
    if i < t.len() && t[i] != '\n' {
        lemma_line_end(t, i + 1);
    }
}

pub(crate) fn line_end_exec(t: &Vec<char>, i: usize) -> (r: usize)
    requires
        i <= t.len(),
    ensures
        r == line_end(t@, i as int),
{
    let mut j: usize = i;
    while j < t.len() && t[j] != '\n'
        invariant
            i <= j <= t.len(),
            line_end(t@, i as int) == line_end(t@, j as int),
        decreases t.len() - j,
    {
        j += 1;
    }
    j
}

fn marker_at_exec(t: &Vec<char>, i: usize, e: usize, m: &Vec<char>) -> (r: bool)
    requires
        i <= e <= t.len(),
        e == line_end(t@, i as int),
    ensures
        r == marker_at(t@, i as int, m@),
{
    let mut k: usize = e;
    while k > i && is_white_space_char(t[k - 1])
        invariant
            i <= k <= e <= t.len(),
            trim_end(t@.subrange(i as int, e as int)) == trim_end(t@.subrange(i as int, k as int)),
        decreases k,
    {
        assert(t@.subrange(i as int, k as int).drop_last() =~= t@.subrange(i as int, k - 1));
        k -= 1;
    }
    range_equals(t, i, k, m)
}

fn find_marker_exec(t: &Vec<char>, from: usize, m: &Vec<char>) -> (r: Option<usize>)
    requires
        from <= t.len(),
    ensures
        match r {
            Some(x) => find_marker(t@, from as int, m@) == Some(x as int),
            None => find_marker(t@, from as int, m@) is None,
        },
        r matches Some(x) ==> from <= x < t.len(),
{
    let mut pos: usize = from;
    while pos < t.len()
        invariant
            from <= pos <= t.len(),
            find_marker(t@, from as int, m@) == find_marker(t@, pos as int, m@),
        decreases t.len() - pos,
    {
        let e = line_end_exec(t, pos);
        proof {
            lemma_line_end(t@, pos as int);
        }
        if marker_at_exec(t, pos, e, m) {
            return Some(pos);
        }
        if e == t.len() {
            return None;
        }
        pos = e + 1;
    }
    None
}

/// Replaces the lines strictly between the first line equal to `start` and
/// the next line equal to `end` (trailing whitespace ignored) with
/// `replacement` and a newline. Fails, handing nothing back, when a marker is
/// missing.
pub fn replace_region(text: &str, start: &str, end: &str, replacement: &str) -> (r: Result<
    String,
    SpliceError,
>)
    ensures
        match r {
            Ok(s) => splice(text@, start@, end@, replacement@) == Ok::<Seq<char>, SpliceError>(s@),
            Err(e) => splice(text@, start@, end@, replacement@) == Err::<Seq<char>, SpliceError>(e),
        },
{
    let t = chars_of(text);
    let ms = chars_of(start);
    let me = chars_of(end);
    let s = match find_marker_exec(&t, 0, &ms) {
        Some(s) => s,
        None => return Err(SpliceError::MissingStartMarker),
    };
    let se = line_end_exec(&t, s);
    proof {
        lemma_line_end(t@, s as int);
    }
    if se == t.len() {
        return Err(SpliceError::UnterminatedRegion);
    }
    let body = se + 1;
    let e = match find_marker_exec(&t, body, &me) {
        Some(e) => e,
        None => return Err(SpliceError::UnterminatedRegion),
    };
    let rep = chars_of(replacement);
    let mut out: Vec<char> = Vec::new();
    push_range(&mut out, &t, 0, body);
    push_range(&mut out, &rep, 0, rep.len());
    out.push('\n');
    push_range(&mut out, &t, e, t.len());
    assert(rep@.subrange(0, rep@.len() as int) =~= rep@);
    assert(out@ =~= t@.subrange(0, body as int) + replacement@ + seq!['\n'] + t@.subrange(
        e as int,
        t@.len() as int,
    ));
    Ok(string_of(&out))
}

pub proof fn lemma_find_marker_bounds(t: Seq<char>, from: int, m: Seq<char>)
    ensures
        find_marker(t, from, m) matches Some(x) ==> from <= x < t.len() && marker_at(t, x, m)
            && find_marker(t, x, m) == Some(x),
    decreases t.len() - from,
{
    if 0 <= from < t.len() && !marker_at(t, from, m) && line_end(t, from) < t.len() {
        lemma_line_end(t, from);
        lemma_find_marker_bounds(t, line_end(t, from) + 1, m);
    }
}

proof fn lemma_line_end_agree(t: Seq<char>, t2: Seq<char>, i: int, n: int)
    requires
        0 <= i,
        n <= t.len(),
        n <= t2.len(),
        forall|k: int| 0 <= k < n ==> t[k] == t2[k],
        line_end(t, i) < n,
    ensures
        line_end(t2, i) == line_end(t, i),
    decreases t.len() - i,
{
    if i <= t.len() {
        lemma_line_end(t, i);
    }
    if i < n {
        assert(t[i] == t2[i]);
    }
    if i < t.len() && t[i] != '\n' {
        lemma_line_end_agree(t, t2, i + 1, n);
    }
}

proof fn lemma_find_agree(t: Seq<char>, t2: Seq<char>, from: int, m: Seq<char>, x: int, n: int)
    requires
        0 <= from,
        find_marker(t, from, m) == Some(x),
        line_end(t, x) < n,
        n <= t.len(),
        n <= t2.len(),
        forall|k: int| 0 <= k < n ==> t[k] == t2[k],
    ensures
        find_marker(t2, from, m) == Some(x),
    decreases t.len() - from,
{
    lemma_find_marker_bounds(t, from, m);
    lemma_line_end(t, from);
    lemma_line_end(t, x);
    if !marker_at(t, from, m) {
        lemma_find_marker_bounds(t, line_end(t, from) + 1, m);
    }
    assert(line_end(t, from) < n);
    lemma_line_end_agree(t, t2, from, n);
    assert(t.subrange(from, line_end(t, from)) =~= t2.subrange(from, line_end(t2, from)));
    if !marker_at(t, from, m) {
        lemma_find_agree(t, t2, line_end(t, from) + 1, m, x, n);
    }
}

proof fn lemma_shift_line_end(p: Seq<char>, q: Seq<char>, j: int)
    requires
        0 <= j,
    ensures
        line_end(p + q, p.len() + j) == p.len() + line_end(q, j),
    decreases q.len() - j,
{
    if j < q.len() && q[j] != '\n' {
        lemma_shift_line_end(p, q, j + 1);
    }
}

proof fn lemma_shift_find(p: Seq<char>, q: Seq<char>, j: int, m: Seq<char>)
    requires
        0 <= j,
    ensures
        find_marker(p + q, p.len() + j, m) == match find_marker(q, j, m) {
            Some(x) => Some(x + p.len()),
            None => None::<int>,
        },
    decreases q.len() - j,
{
    let t = p + q;
    lemma_shift_line_end(p, q, j);
    if j < q.len() {
        lemma_line_end(q, j);
        assert(t.subrange(p.len() + j, line_end(t, p.len() + j)) =~= q.subrange(j, line_end(q, j)));
        if !marker_at(q, j, m) && line_end(q, j) < q.len() {
            lemma_shift_find(p, q, line_end(q, j) + 1, m);
        }
    }
}

proof fn lemma_skip_find(p: Seq<char>, q: Seq<char>, j: int, m: Seq<char>)
    requires
        0 <= j < p.len(),
        p.last() == '\n',
        find_marker(p, j, m) is None,
    ensures
        find_marker(p + q, j, m) == find_marker(p + q, p.len() as int, m),
    decreases p.len() - j,
{
    let t = p + q;
    lemma_line_end(p, j);
    if line_end(p, j) == p.len() {
        assert(p[p.len() - 1] == '\n');
    }
    lemma_line_end_agree(p, t, j, p.len() as int);
    assert(t.subrange(j, line_end(t, j)) =~= p.subrange(j, line_end(p, j)));
    if line_end(p, j) + 1 < p.len() {
        lemma_skip_find(p, q, line_end(p, j) + 1, m);
    }
}

/// Splicing `x` and then `y` gives what splicing `y` alone gives: the old
/// region is dropped whole and nothing outside it moves. This holds whenever
/// the first splice succeeds and `x` holds no line that reads as the end
/// marker. With `y == x` it says that a splice is idempotent.
pub proof fn lemma_splice_twice(
    t: Seq<char>,
    start: Seq<char>,
    end: Seq<char>,
    x: Seq<char>,
    y: Seq<char>,
)
    requires
        splice(t, start, end, x) is Ok,
        find_marker(x + seq!['\n'], 0, end) is None,
    ensures
        splice(splice(t, start, end, x)->Ok_0, start, end, y) == splice(t, start, end, y),
        splice(t, start, end, y) is Ok,
{
    let s = find_marker(t, 0, start)->Some_0;
    lemma_find_marker_bounds(t, 0, start);
    lemma_line_end(t, s);
    let body = line_end(t, s) + 1;
    let e = find_marker(t, body, end)->Some_0;
    lemma_find_marker_bounds(t, body, end);
    let a = t.subrange(0, body);
    let b = t.subrange(e, t.len() as int);
    let xn = x + seq!['\n'];
    let q = xn + b;
    let u = a + q;
    assert(u =~= t.subrange(0, body) + x + seq!['\n'] + t.subrange(e, t.len() as int));
    lemma_find_agree(t, u, 0, start, s, body);
    lemma_line_end_agree(t, u, s, body);
    lemma_shift_find(a, q, 0, end);
    lemma_skip_find(xn, b, 0, end);
    lemma_shift_find(xn, b, 0, end);
    assert(t =~= t.subrange(0, e) + b);
    lemma_shift_find(t.subrange(0, e), b, 0, end);
    let e2 = body + xn.len();
    assert(find_marker(u, body, end) == Some(e2));
    assert(u.subrange(0, body) =~= a);
    assert(u.subrange(e2, u.len() as int) =~= b);
}

/// A splice keeps everything outside the region byte for byte: the text up
/// to and including the start-marker line, and the text from the end-marker
/// line on; between them stand exactly `r` and a newline. Splicing `x` and
/// then `y` thus leaves the original text before and after the region, with
/// `y` alone inside, provided `x` holds no line that reads as the end marker.
pub proof fn lemma_splice_keeps_outside(
    t: Seq<char>,
    start: Seq<char>,
    end: Seq<char>,
    x: Seq<char>,
    y: Seq<char>,
)
    requires
        splice(t, start, end, x) is Ok,
        find_marker(x + seq!['\n'], 0, end) is None,
    ensures
        ({
            let s = find_marker(t, 0, start)->Some_0;
            let body = line_end(t, s) + 1;
            let e = find_marker(t, body, end)->Some_0;
            let u = splice(splice(t, start, end, x)->Ok_0, start, end, y)->Ok_0;
            &&& 0 <= body <= e <= t.len()
            &&& u.len() == body + y.len() + 1 + (t.len() - e)
            &&& u.subrange(0, body) == t.subrange(0, body)
            &&& u.subrange(body, body + y.len() + 1) == y + seq!['\n']
            &&& u.subrange(u.len() - (t.len() - e), u.len() as int) == t.subrange(e, t.len() as int)
        }),
{
    lemma_splice_twice(t, start, end, x, y);
    let s = find_marker(t, 0, start)->Some_0;
    lemma_find_marker_bounds(t, 0, start);
    lemma_line_end(t, s);
    let body = line_end(t, s) + 1;
    lemma_find_marker_bounds(t, body, end);
    let e = find_marker(t, body, end)->Some_0;
    let u = t.subrange(0, body) + y + seq!['\n'] + t.subrange(e, t.len() as int);
    assert(u.subrange(0, body) =~= t.subrange(0, body));
    assert(u.subrange(body, body + y.len() + 1) =~= y + seq!['\n']);
    assert(u.subrange(u.len() - (t.len() - e), u.len() as int) =~= t.subrange(e, t.len() as int));
}

/// Rewrites the definition region of a header's text.
pub fn definition(text: &str, replacement: &str) -> (r: Result<String, SpliceError>)
    ensures
        match r {
            Ok(s) => splice(text@, DEFINITION_START@, DEFINITION_END@, replacement@) == Ok::<
                Seq<char>,
                SpliceError,
            >(s@),
            Err(e) => splice(text@, DEFINITION_START@, DEFINITION_END@, replacement@) == Err::<
                Seq<char>,
                SpliceError,
            >(e),
        },
{
    replace_region(text, DEFINITION_START, DEFINITION_END, replacement)
}

/// Rewrites the implementation region of a source file's text.
pub fn implementation(text: &str, replacement: &str) -> (r: Result<String, SpliceError>)
    ensures
        match r {
            Ok(s) => splice(text@, IMPLEMENTATION_START@, IMPLEMENTATION_END@, replacement@)
                == Ok::<Seq<char>, SpliceError>(s@),
            Err(e) => splice(text@, IMPLEMENTATION_START@, IMPLEMENTATION_END@, replacement@)
                == Err::<Seq<char>, SpliceError>(e),
        },
{
    replace_region(text, IMPLEMENTATION_START, IMPLEMENTATION_END, replacement)
}

} // verus!
