//! Re-indenting text that replaces an indented node.
use crate::text::{chars_of, string_of};
use vstd::prelude::*;

verus! {

/// What one character of the replacement becomes: a line break is followed
/// by the indentation, any other character stays as it is.
pub open spec fn reindent_char(c: char, indent: Seq<char>) -> Seq<char> {
    if c == '\n' {
        seq!['\n'] + indent
    } else {
        seq![c]
    }
}

/// `text` with `indent` put after each of its line breaks.
pub open spec fn reindent_spec(text: Seq<char>, indent: Seq<char>) -> Seq<char>
    decreases text.len(),
{
    if text.len() == 0 {
        text
    } else {
        reindent_spec(text.drop_last(), indent) + reindent_char(text.last(), indent)
    }
}

/// Put `indent` after each line break of `text`, so that every line after the
/// first starts with it.
pub fn reindent(text: &str, indent: &str) -> (r: String)
    ensures
        r@ == reindent_spec(text@, indent@),
{
    let cs = chars_of(text);
    let ind = chars_of(indent);
    let mut out: Vec<char> = Vec::new();
    let mut i: usize = 0;
    while i < cs.len()
        invariant
            cs@ == text@,
            ind@ == indent@,
            0 <= i <= cs@.len(),
            out@ == reindent_spec(cs@.subrange(0, i as int), ind@),
        decreases cs@.len() - i,
    {
        let c = cs[i];
        let ghost before = out@;
        out.push(c);
        if c == '\n' {
            let mut k: usize = 0;
            while k < ind.len()
                invariant
                    0 <= k <= ind@.len(),
                    out@ == before + seq![c] + ind@.subrange(0, k as int),
                decreases ind@.len() - k,
            {
                out.push(ind[k]);
                k = k + 1;
                assert(out@ =~= before + seq![c] + ind@.subrange(0, k as int));
            }
            assert(ind@.subrange(0, ind@.len() as int) =~= ind@);
        }
        proof {
            assert(cs@.subrange(0, i + 1).drop_last() =~= cs@.subrange(0, i as int));
        }
        i = i + 1;
        assert(out@ =~= reindent_spec(cs@.subrange(0, i as int), ind@));
    }
    assert(cs@.subrange(0, cs@.len() as int) =~= cs@);
    string_of(out.as_slice())
}

/// Re-indenting a concatenation re-indents each part.
pub proof fn lemma_reindent_concat(a: Seq<char>, b: Seq<char>, indent: Seq<char>)
    ensures
        reindent_spec(a + b, indent) == reindent_spec(a, indent) + reindent_spec(b, indent),
    decreases b.len(),
{
    if b.len() == 0 {
        assert(a + b =~= a);
        assert(reindent_spec(a, indent) + reindent_spec(b, indent) =~= reindent_spec(a, indent));
    } else {
        lemma_reindent_concat(a, b.drop_last(), indent);
        assert((a + b).drop_last() =~= a + b.drop_last());
        assert((a + b).last() == b.last());
        assert(reindent_spec(a + b, indent) =~= reindent_spec(a, indent) + reindent_spec(b, indent));
    }
}

/// A text with no line break is left as it is.
pub proof fn lemma_reindent_single_line(text: Seq<char>, indent: Seq<char>)
    requires
        forall|i: int| 0 <= i < text.len() ==> text[i] != '\n',
    ensures
        reindent_spec(text, indent) == text,
    decreases text.len(),
{
    if text.len() > 0 {
        lemma_reindent_single_line(text.drop_last(), indent);
        assert(reindent_spec(text, indent) =~= text);
    }
}

/// Re-indenting keeps each line break and puts exactly `indent` after it,
/// ahead of the rest of the text re-indented in the same way: every line
/// after the first starts with `indent` followed by the line as it was,
/// relative indentation included.
pub proof fn lemma_reindent_line_break(before: Seq<char>, after: Seq<char>, indent: Seq<char>)
    ensures
        reindent_spec(before + seq!['\n'] + after, indent) == reindent_spec(before, indent) + seq!['\n']
            + indent + reindent_spec(after, indent),
{
    lemma_reindent_concat(before + seq!['\n'], after, indent);
    lemma_reindent_concat(before, seq!['\n'], indent);
    let nl = seq!['\n'];
    assert(nl.drop_last() =~= Seq::<char>::empty());
    assert(nl.last() == '\n');
    assert(reindent_spec(nl.drop_last(), indent) =~= Seq::<char>::empty());
    assert(reindent_spec(seq!['\n'], indent) =~= seq!['\n'] + indent);
    assert(reindent_spec(before, indent) + (seq!['\n'] + indent) + reindent_spec(after, indent)
        =~= reindent_spec(before, indent) + seq!['\n'] + indent + reindent_spec(after, indent));
}

} // verus!
