//! Reading the include directories out of the build system's report.

use vstd::prelude::*;
use crate::splice::{lemma_line_end, line_end, line_end_exec};
use crate::text::{chars_of, is_white_space_char, push_range, range_equals, starts_with, string_of, trim, trim_end, trim_start};

verus! {

/// The token that opens the report line.
pub const INCLUDE_DIRS_MARKER: &'static str = "@@INCLUDE_DIRS=";

/// Start of the first line, at or after the line start `from`, that begins with `p`.
pub open spec fn find_prefixed_line(t: Seq<char>, from: int, p: Seq<char>) -> Option<int>
    decreases t.len() - from,
    via find_prefixed_line_decreases
{
    if from < 0 || from >= t.len() {
        None
    } else if starts_with(t.subrange(from, line_end(t, from)), p) {
        Some(from)
    } else if line_end(t, from) >= t.len() {
        None
    } else {
        find_prefixed_line(t, line_end(t, from) + 1, p)
    }
}

#[via_fn]
proof fn find_prefixed_line_decreases(t: Seq<char>, from: int, p: Seq<char>) {
    if 0 <= from < t.len() {
        lemma_line_end(t, from);
    }
}

/// `s` without its leading runs of the non-empty `p`.
pub open spec fn strip_prefix_runs(s: Seq<char>, p: Seq<char>) -> Seq<char>
    decreases s.len(),
{
    if p.len() > 0 && starts_with(s, p) {
        strip_prefix_runs(s.skip(p.len() as int), p)
    } else {
        s
    }
}

/// `k` is the position of the first `;` in `s`.
pub open spec fn is_first_semicolon(s: Seq<char>, k: int) -> bool {
    0 <= k < s.len() && s[k] == ';' && forall|j: int| 0 <= j < k ==> s[j] != ';'
}

/// The pieces of `s` between `;` separators, in order and each trimmed of
/// surrounding whitespace; at least one.
pub open spec fn trimmed_pieces(s: Seq<char>) -> Seq<Seq<char>>
    decreases s.len(),
{
    if exists|k: int| is_first_semicolon(s, k) {
        let k = choose|k: int| is_first_semicolon(s, k);
        seq![trim(s.take(k))] + trimmed_pieces(s.skip(k + 1))
    } else {
        seq![trim(s)]
    }
}

/// The directories of the first report line: after the marker, split at
/// `;`, each trimmed. `None` without such a line.
pub open spec fn include_dirs(out: Seq<char>) -> Option<Seq<Seq<char>>> {
    match find_prefixed_line(out, 0, INCLUDE_DIRS_MARKER@) {
        None => None,
        Some(i) => Some(
            trimmed_pieces(
                strip_prefix_runs(out.subrange(i, line_end(out, i)), INCLUDE_DIRS_MARKER@),
            ),
        ),
    }
}

pub open spec fn strings_view(v: Seq<String>) -> Seq<Seq<char>> {
    v.map_values(|s: String| s@)
}

fn trimmed_range(c: &Vec<char>, lo0: usize, hi0: usize) -> (r: String)
    requires
        lo0 <= hi0 <= c.len(),
    ensures
        r@ == trim(c@.subrange(lo0 as int, hi0 as int)),
{
    let mut lo = lo0;
    let ghost s1 = c@.subrange(lo0 as int, hi0 as int);
    while lo < hi0 && is_white_space_char(c[lo])
        invariant
            lo0 <= lo <= hi0 <= c.len(),
            trim_start(s1) == trim_start(c@.subrange(lo as int, hi0 as int)),
        decreases hi0 - lo,
    {
        assert(c@.subrange(lo as int, hi0 as int).drop_first() =~= c@.subrange(lo + 1, hi0 as int));
        lo += 1;
    }
    let ghost s2 = c@.subrange(lo as int, hi0 as int);
    let mut hi = hi0;
    while hi > lo && is_white_space_char(c[hi - 1])
        invariant
            lo <= hi <= hi0 <= c.len(),
            trim_end(s2) == trim_end(c@.subrange(lo as int, hi as int)),
        decreases hi,
    {
        assert(c@.subrange(lo as int, hi as int).drop_last() =~= c@.subrange(lo as int, hi - 1));
        hi -= 1;
    }
    let mut v: Vec<char> = Vec::new();
    push_range(&mut v, c, lo, hi);
    assert(v@ =~= c@.subrange(lo as int, hi as int));
    string_of(&v)
}

proof fn lemma_split_step(s: Seq<char>, k: int)
    requires
        is_first_semicolon(s, k),
    ensures
        trimmed_pieces(s) == seq![trim(s.take(k))] + trimmed_pieces(s.skip(k + 1)),
{
    let ch = choose|x: int| is_first_semicolon(s, x);
    assert(ch == k) by {
        if ch < k {
            assert(s[ch] != ';');
        }
        if k < ch {
            assert(s[k] != ';');
        }
    }
}

fn find_prefixed_line_exec(t: &Vec<char>, p: &Vec<char>) -> (r: Option<usize>)
    ensures
        match r {
            Some(x) => find_prefixed_line(t@, 0, p@) == Some(x as int),
            None => find_prefixed_line(t@, 0, p@) is None,
        },
        r matches Some(x) ==> x < t.len(),
{
    let mut pos: usize = 0;
    while pos < t.len()
        invariant
            pos <= t.len(),
            find_prefixed_line(t@, 0, p@) == find_prefixed_line(t@, pos as int, p@),
        decreases t.len() - pos,
    {
        let e = line_end_exec(t, pos);
        proof {
            lemma_line_end(t@, pos as int);
        }
        if e - pos >= p.len() {
            assert(t@.subrange(pos as int, e as int).take(p@.len() as int) =~= t@.subrange(
                pos as int,
                pos + p@.len(),
            ));
            if range_equals(t, pos, pos + p.len(), p) {
                return Some(pos);
            }
        }
        if e == t.len() {
            return None;
        }
        pos = e + 1;
    }
    None
}

/// The include directories that the build system reports on the first line
/// that begins with `@@INCLUDE_DIRS=`; `None` when no line does.
pub fn parse_include_dirs(output: &str) -> (r: Option<Vec<String>>)
    ensures
        match r {
            Some(v) => include_dirs(output@) == Some(strings_view(v@)),
            None => include_dirs(output@) is None,
        },
{
    let t = chars_of(output);
    let p = chars_of(INCLUDE_DIRS_MARKER);
    proof {
        reveal_strlit("@@INCLUDE_DIRS=");
    }
    let start = match find_prefixed_line_exec(&t, &p) {
        Some(x) => x,
        None => return None,
    };
    let e = line_end_exec(&t, start);
    proof {
        lemma_line_end(t@, start as int);
    }
    let ghost line = t@.subrange(start as int, e as int);
    let mut lo: usize = start;
    while e - lo >= p.len() && range_equals(&t, lo, lo + p.len(), &p)
        invariant
            start <= lo <= e <= t.len(),
            p@ == INCLUDE_DIRS_MARKER@,
            p@.len() > 0,
            strip_prefix_runs(line, p@) == strip_prefix_runs(t@.subrange(lo as int, e as int), p@),
        decreases e - lo,
    {
        assert(t@.subrange(lo as int, e as int).take(p@.len() as int) =~= t@.subrange(
            lo as int,
            lo + p@.len(),
        ));
        assert(t@.subrange(lo as int, e as int).skip(p@.len() as int) =~= t@.subrange(
            lo + p@.len(),
            e as int,
        ));
        lo += p.len();
    }
    if e - lo >= p.len() {
        assert(t@.subrange(lo as int, e as int).take(p@.len() as int) =~= t@.subrange(
            lo as int,
            lo + p@.len(),
        ));
    }
    let ghost body = t@.subrange(lo as int, e as int);
    assert(strip_prefix_runs(line, p@) == body);
    let mut out: Vec<String> = Vec::new();
    let mut piece: usize = lo;
    let mut k: usize = lo;
    assert(strings_view(out@) + trimmed_pieces(body) =~= trimmed_pieces(body));
    while k < e
        invariant
            lo <= piece <= k <= e <= t.len(),
            body == t@.subrange(lo as int, e as int),
            forall|j: int| piece <= j < k ==> t@[j] != ';',
            strings_view(out@) + trimmed_pieces(t@.subrange(piece as int, e as int))
                == trimmed_pieces(body),
        decreases e - k,
    {
        if t[k] == ';' {
            let ghost rest = t@.subrange(piece as int, e as int);
            proof {
                lemma_split_step(rest, k - piece);
                assert(rest.take(k - piece) =~= t@.subrange(piece as int, k as int));
                assert(rest.skip(k - piece + 1) =~= t@.subrange(k + 1, e as int));
            }
            let ghost before = out@;
            let ghost x = trim(t@.subrange(piece as int, k as int));
            let ghost tail = trimmed_pieces(t@.subrange(k + 1, e as int));
            out.push(trimmed_range(&t, piece, k));
            assert(strings_view(out@) =~= strings_view(before).push(x));
            assert(strings_view(before).push(x) + tail =~= strings_view(before) + (seq![x] + tail));
            piece = k + 1;
        }
        k += 1;
    }
    let ghost last = t@.subrange(piece as int, e as int);
    assert(!exists|x: int| is_first_semicolon(last, x)) by {
        assert forall|x: int| 0 <= x < last.len() implies last[x] != ';' by {
            assert(last[x] == t@[piece + x]);
        }
    }
    let ghost before = out@;
    out.push(trimmed_range(&t, piece, e));
    assert(strings_view(out@) =~= strings_view(before) + trimmed_pieces(last));
    Some(out)
}

} // verus!
