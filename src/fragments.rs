//! Putting the text generated for each struct of a file together.

use vstd::prelude::*;
use crate::includes::strings_view;
use crate::text::{chars_of, push_range, string_of};

verus! {

/// The fragments in order, a blank line between the text gathered so far
/// and the next fragment wherever that text is not empty.
pub open spec fn join_blank(fs: Seq<Seq<char>>) -> Seq<char>
    decreases fs.len(),
{
    if fs.len() == 0 {
        Seq::empty()
    } else {
        let a = join_blank(fs.drop_last());
        if a.len() == 0 {
            fs.last()
        } else {
            a + seq!['\n', '\n'] + fs.last()
        }
    }
}

/// Joins the text generated for the structs of one file, in struct order,
/// with a blank line between consecutive pieces.
pub fn join_fragments(fragments: &Vec<String>) -> (r: String)
    ensures
        r@ == join_blank(strings_view(fragments@)),
{
    let ghost fs = strings_view(fragments@);
    let mut out: Vec<char> = Vec::new();
    let mut i: usize = 0;
    while i < fragments.len()
        invariant
            i <= fragments.len(),
            fs == strings_view(fragments@),
            out@ == join_blank(fs.take(i as int)),
        decreases fragments.len() - i,
    {
        assert(fs.take(i + 1).drop_last() =~= fs.take(i as int));
        let f = chars_of(fragments[i].as_str());
        if out.len() > 0 {
            out.push('\n');
            out.push('\n');
        }
        let ghost before = out@;
        push_range(&mut out, &f, 0, f.len());
        assert(f@.subrange(0, f@.len() as int) =~= f@);
        assert(out@ =~= join_blank(fs.take(i + 1)));
        i += 1;
    }
    assert(fs.take(i as int) =~= fs);
    string_of(&out)
}

} // verus!
