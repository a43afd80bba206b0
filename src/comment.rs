//! Reading directives out of documentation-comment text.

use vstd::prelude::*;
use crate::model::{directives_view, Directive};
use crate::splice::{lemma_line_end, line_end, line_end_exec};
use crate::text::{chars_of, is_white_space_char, push_range, string_of, trim, trim_end, trim_start};

verus! {

/// `l` without its leading runs of `///`.
pub open spec fn strip_slashes(l: Seq<char>) -> Seq<char>
    decreases l.len(),
{
    if l.len() >= 3 && l[0] == '/' && l[1] == '/' && l[2] == '/' {
        strip_slashes(l.skip(3))
    } else {
        l
    }
}

/// `k` is the position of the first `=` in `s`.
pub open spec fn is_first_eq(s: Seq<char>, k: int) -> bool {
    0 <= k < s.len() && s[k] == '=' && forall|j: int| 0 <= j < k ==> s[j] != '='
}

/// `s` split at its first `=`, if it has one.
pub open spec fn split_at_eq(s: Seq<char>) -> Option<(Seq<char>, Seq<char>)> {
    if exists|k: int| is_first_eq(s, k) {
        let k = choose|k: int| is_first_eq(s, k);
        Some((s.take(k), s.skip(k + 1)))
    } else {
        None
    }
}

/// The directive that one comment line carries: after the indentation, the
/// `///` prefix and the surrounding whitespace are stripped, the text before
/// and after its first `=`.
pub open spec fn line_directive(l: Seq<char>) -> Option<(Seq<char>, Seq<char>)> {
    split_at_eq(trim(strip_slashes(trim_start(l))))
}

/// The directives of the lines of `c` from the line start `i` on, in order.
pub open spec fn comment_directives(c: Seq<char>, i: int) -> Seq<(Seq<char>, Seq<char>)>
    decreases c.len() - i,
    via comment_directives_decreases
{
    if i < 0 || i >= c.len() {
        Seq::empty()
    } else {
        let le = line_end(c, i);
        let rest = if le >= c.len() {
            Seq::empty()
        } else {
            comment_directives(c, le + 1)
        };
        match line_directive(c.subrange(i, le)) {
            Some(d) => seq![d] + rest,
            None => rest,
        }
    }
}

#[via_fn]
proof fn comment_directives_decreases(c: Seq<char>, i: int) {
    if 0 <= i < c.len() {
        lemma_line_end(c, i);
    }
}

fn copy_range(c: &Vec<char>, lo: usize, hi: usize) -> (r: String)
    requires
        lo <= hi <= c.len(),
    ensures
        r@ == c@.subrange(lo as int, hi as int),
{
    let mut v: Vec<char> = Vec::new();
    push_range(&mut v, c, lo, hi);
    assert(v@ =~= c@.subrange(lo as int, hi as int));
    string_of(&v)
}

fn line_directive_exec(c: &Vec<char>, start: usize, le: usize) -> (r: Option<Directive>)
    requires
        start <= le <= c.len(),
    ensures
        match r {
            Some(d) => line_directive(c@.subrange(start as int, le as int)) == Some(d@),
            None => line_directive(c@.subrange(start as int, le as int)) is None,
        },
{
    let ghost s00 = c@.subrange(start as int, le as int);
    let mut lo: usize = start;
    while lo < le && is_white_space_char(c[lo])
        invariant
            start <= lo <= le <= c.len(),
            trim_start(s00) == trim_start(c@.subrange(lo as int, le as int)),
        decreases le - lo,
    {
        assert(c@.subrange(lo as int, le as int).drop_first() =~= c@.subrange(lo + 1, le as int));
        lo += 1;
    }
    let ghost s0 = c@.subrange(lo as int, le as int);
    let ghost lo0 = lo;
    assert(trim_start(s00) == s0);
    while le - lo >= 3 && c[lo] == '/' && c[lo + 1] == '/' && c[lo + 2] == '/'
        invariant
            start <= lo0 <= lo <= le <= c.len(),
            s0 == c@.subrange(lo0 as int, le as int),
            strip_slashes(s0) == strip_slashes(c@.subrange(lo as int, le as int)),
        decreases le - lo,
    {
        assert(c@.subrange(lo as int, le as int).skip(3) =~= c@.subrange(lo + 3, le as int));
        lo += 3;
    }
    let ghost s1 = c@.subrange(lo as int, le as int);
    assert(strip_slashes(s0) == s1);
    while lo < le && is_white_space_char(c[lo])
        invariant
            start <= lo <= le <= c.len(),
            trim_start(s1) == trim_start(c@.subrange(lo as int, le as int)),
        decreases le - lo,
    {
        assert(c@.subrange(lo as int, le as int).drop_first() =~= c@.subrange(lo + 1, le as int));
        lo += 1;
    }
    let ghost s2 = c@.subrange(lo as int, le as int);
    assert(trim_start(s1) == s2);
    let mut hi: usize = le;
    while hi > lo && is_white_space_char(c[hi - 1])
        invariant
            start <= lo <= hi <= le <= c.len(),
            trim_end(s2) == trim_end(c@.subrange(lo as int, hi as int)),
        decreases hi,
    {
        assert(c@.subrange(lo as int, hi as int).drop_last() =~= c@.subrange(lo as int, hi - 1));
        hi -= 1;
    }
    let ghost s = c@.subrange(lo as int, hi as int);
    assert(trim(strip_slashes(trim_start(s00))) == s);
    let mut k: usize = lo;
    while k < hi && c[k] != '='
        invariant
            lo <= k <= hi <= c.len(),
            forall|j: int| lo <= j < k ==> c@[j] != '=',
        decreases hi - k,
    {
        k += 1;
    }
    if k == hi {
        assert forall|x: int| !is_first_eq(s, x) by {
            if 0 <= x < s.len() {
                assert(s[x] == c@[lo + x]);
            }
        }
        return None;
    }
    let ghost kk = (k - lo) as int;
    assert(is_first_eq(s, kk));
    let ghost ch = choose|x: int| is_first_eq(s, x);
    assert(ch == kk) by {
        if ch < kk {
            assert(s[ch] == c@[lo + ch]);
        }
        if kk < ch {
            assert(s[kk] == '=');
        }
    }
    let key = copy_range(c, lo, k);
    let value = copy_range(c, k + 1, hi);
    assert(key@ =~= s.take(kk));
    assert(value@ =~= s.skip(kk + 1));
    Some(Directive { key, value })
}

/// The `key=value` directives of a documentation comment, one per line at
/// most, in order of appearance. Each line is read after its indentation,
/// its leading `///` runs and its surrounding whitespace are removed, and is
/// split at its first `=`; a line without `=` carries no directive.
pub fn parse_comment_args(comment: &str) -> (r: Vec<Directive>)
    ensures
        directives_view(r@) == comment_directives(comment@, 0),
{
    let c = chars_of(comment);
    let mut out: Vec<Directive> = Vec::new();
    let mut pos: usize = 0;
    while pos < c.len()
        invariant
            pos <= c.len(),
            c@ == comment@,
            directives_view(out@) + comment_directives(c@, pos as int) == comment_directives(
                c@,
                0,
            ),
        decreases c.len() - pos,
    {
        let le = line_end_exec(&c, pos);
        proof {
            lemma_line_end(c@, pos as int);
        }
        let ghost before = out@;
        match line_directive_exec(&c, pos, le) {
            Some(d) => {
                out.push(d);
            },
            None => {},
        }
        if le == c.len() {
            assert(directives_view(out@) =~= directives_view(before) + comment_directives(
                c@,
                pos as int,
            ));
            assert(comment_directives(c@, c.len() as int) =~= Seq::empty());
            pos = le;
        } else {
            assert(directives_view(out@) + comment_directives(c@, le + 1) =~= directives_view(
                before,
            ) + comment_directives(c@, pos as int));
            pos = le + 1;
        }
    }
    assert(comment_directives(c@, pos as int) =~= Seq::empty());
    assert(directives_view(out@) =~= directives_view(out@) + Seq::empty());
    out
}

} // verus!
