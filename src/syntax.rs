//! A parsed file as the context sees it: the text, its tokens in order, and
//! the syntax nodes with their kinds and ranges.
use crate::text::{chars_of, string_of, TextRange, TextUnit};
use vstd::prelude::*;
use vstd::slice::slice_subrange;

verus! {

/// The kind of a token or node, as the parser numbers it.
pub type SyntaxKind = u16;

/// The kind of a whitespace token.
pub const WHITESPACE: SyntaxKind = 1;

#[derive(Clone, Copy, Debug, PartialEq, Eq, Structural)]
pub struct SyntaxToken {
    pub kind: SyntaxKind,
    pub range: TextRange,
}

#[derive(Clone, Copy, Debug, PartialEq, Eq, Structural)]
pub struct SyntaxNode {
    pub kind: SyntaxKind,
    pub range: TextRange,
}

#[derive(Clone, Copy, Debug, PartialEq, Eq, Structural)]
pub enum SyntaxElement {
    Node(SyntaxNode),
    Token(SyntaxToken),
}

/// The tokens at an offset: none, one, or the two that meet there.
#[derive(Clone, Copy, Debug, PartialEq, Eq, Structural)]
pub enum TokenAtOffset {
    Nothing,
    Single(SyntaxToken),
    Between(SyntaxToken, SyntaxToken),
}

/// Tokens are non-empty, follow one another without gap or overlap, and
/// cover a text of length `len` from its start to its end.
pub open spec fn tokens_wf(tokens: Seq<SyntaxToken>, len: int) -> bool {
    &&& forall|i: int| 0 <= i < tokens.len() ==> (#[trigger] tokens[i]).range.start < tokens[i].range.end
    &&& forall|i: int, j: int|
        0 <= i < j < tokens.len() ==> (#[trigger] tokens[i]).range.end <= (#[trigger] tokens[j]).range.start
    &&& forall|i: int|
        0 <= i < tokens.len() - 1 ==> (#[trigger] tokens[i]).range.end == tokens[i + 1].range.start
    &&& tokens.len() == 0 ==> len == 0
    &&& tokens.len() > 0 ==> tokens[0].range.start == 0 && tokens.last().range.end == len
}

/// The first node is the root and spans the whole text; every node lies within it.
pub open spec fn nodes_wf(nodes: Seq<SyntaxNode>, len: int) -> bool {
    &&& nodes.len() > 0
    &&& nodes[0].range.start == 0
    &&& nodes[0].range.end == len
    &&& forall|i: int|
        0 <= i < nodes.len() ==> (#[trigger] nodes[i]).range.wf() && nodes[i].range.end <= len
}

/// Node `n` has kind `kind` (any kind where `kind` is `None`) and spans `range`.
pub open spec fn node_covers(n: SyntaxNode, kind: Option<SyntaxKind>, range: TextRange) -> bool {
    &&& (kind matches Some(k) ==> n.kind == k)
    &&& n.range.contains_range_spec(range)
}

/// Node `i` is the shortest of the nodes that cover `range` with kind `kind`,
/// and the last listed among those equally short. Where nodes are listed
/// parents first, that is the innermost one.
pub open spec fn innermost_at(
    nodes: Seq<SyntaxNode>,
    i: int,
    kind: Option<SyntaxKind>,
    range: TextRange,
) -> bool {
    &&& 0 <= i < nodes.len()
    &&& node_covers(nodes[i], kind, range)
    &&& forall|j: int|
        0 <= j < nodes.len() && #[trigger] node_covers(nodes[j], kind, range) ==> nodes[i].range.len_spec()
            <= nodes[j].range.len_spec() && (j > i ==> nodes[i].range.len_spec() < nodes[j].range.len_spec())
}

/// The tokens whose range holds `offset`, ends included, as `TokenAtOffset` gives them.
pub open spec fn tokens_at(tokens: Seq<SyntaxToken>, offset: int, r: TokenAtOffset) -> bool {
    match r {
        TokenAtOffset::Nothing => forall|j: int|
            0 <= j < tokens.len() ==> !(#[trigger] tokens[j]).range.contains_inclusive_spec(offset),
        TokenAtOffset::Single(t) => exists|i: int|
            0 <= i < tokens.len() && tokens[i] == t && t.range.contains_inclusive_spec(offset) && forall|j: int|
                0 <= j < tokens.len() && j != i ==> !(#[trigger] tokens[j]).range.contains_inclusive_spec(offset),
        TokenAtOffset::Between(a, b) => exists|i: int|
            0 <= i && i + 1 < tokens.len() && #[trigger] tokens[i] == a && tokens[i + 1] == b
                && a.range.contains_inclusive_spec(offset) && b.range.contains_inclusive_spec(offset)
                && forall|j: int|
                0 <= j < tokens.len() && j != i && j != i + 1 ==> !(#[trigger] tokens[j]).range.contains_inclusive_spec(offset),
    }
}

/// The first of the tokens in `at` with kind `kind`.
pub open spec fn first_of_kind(at: TokenAtOffset, kind: SyntaxKind) -> Option<SyntaxToken> {
    match at {
        TokenAtOffset::Nothing => None,
        TokenAtOffset::Single(t) => if t.kind == kind { Some(t) } else { None },
        TokenAtOffset::Between(a, b) => if a.kind == kind {
            Some(a)
        } else if b.kind == kind {
            Some(b)
        } else {
            None
        },
    }
}

/// The index of the last line break before `end` in `text`, or -1.
pub open spec fn last_newline_before(text: Seq<char>, end: int) -> int
    decreases end,
{
    if end <= 0 {
        -1
    } else if text[end - 1] == '\n' {
        end - 1
    } else {
        last_newline_before(text, end - 1)
    }
}

/// The indentation in front of `node`: the text after the last line break
/// before the node, up to the end of the token that holds that line break,
/// where that token is whitespace. There is none where the node is empty, no
/// token starts where it starts, no line break comes before it, or the token
/// holding the last one is not whitespace.
pub open spec fn leading_indent_spec(
    text: Seq<char>,
    tokens: Seq<SyntaxToken>,
    node: TextRange,
) -> Option<Seq<char>> {
    let p = last_newline_before(text, node.start as int);
    if node.start < node.end && p >= 0 && exists|k: int|
        0 <= k < tokens.len() && (#[trigger] tokens[k]).range.start == node.start {
        let j = choose|j: int|
            0 <= j < tokens.len() && (#[trigger] tokens[j]).range.start <= p < tokens[j].range.end;
        if tokens[j].kind == WHITESPACE {
            Some(text.subrange(p + 1, tokens[j].range.end as int))
        } else {
            None
        }
    } else {
        None
    }
}

/// `r` is the smallest element of `file` that spans `range`: the first token
/// that does, or else the innermost node that does.
pub open spec fn covers_smallest(file: SourceFile, range: TextRange, r: SyntaxElement) -> bool {
    match r {
        SyntaxElement::Token(t) => exists|i: int|
            0 <= i < file.tokens_spec().len() && file.tokens_spec()[i] == t
                && t.range.contains_range_spec(range) && forall|j: int|
                0 <= j < i ==> !(#[trigger] file.tokens_spec()[j]).range.contains_range_spec(range),
        SyntaxElement::Node(n) => (forall|j: int|
            0 <= j < file.tokens_spec().len() ==> !(
            #[trigger] file.tokens_spec()[j]).range.contains_range_spec(range)) && exists|i: int|
            innermost_at(file.nodes_spec(), i, None, range) && file.nodes_spec()[i] == n,
    }
}

/// Non-empty tokens that each end where the next starts are in order.
proof fn lemma_adjacent_tokens_ordered(tokens: Seq<SyntaxToken>, a: int, b: int)
    requires
        0 <= a < b < tokens.len(),
        forall|i: int| 0 <= i < tokens.len() ==> (#[trigger] tokens[i]).range.start < tokens[i].range.end,
        forall|i: int| 0 <= i < tokens.len() - 1 ==> (#[trigger] tokens[i]).range.end == tokens[i + 1].range.start,
    ensures
        tokens[a].range.end <= tokens[b].range.start,
    decreases b - a,
{
    if b > a + 1 {
        lemma_adjacent_tokens_ordered(tokens, a, b - 1);
        assert(tokens[b - 1].range.start < tokens[b - 1].range.end);
    }
}

/// A parsed file.
#[derive(Debug)]
pub struct SourceFile {
    text: Vec<char>,
    tokens: Vec<SyntaxToken>,
    nodes: Vec<SyntaxNode>,
}

impl Clone for SourceFile {
    fn clone(&self) -> (r: SourceFile)
        ensures
            r.text_spec() == self.text_spec(),
            r.tokens_spec() == self.tokens_spec(),
            r.nodes_spec() == self.nodes_spec(),
    {
        let r = SourceFile { text: self.text.clone(), tokens: self.tokens.clone(), nodes: self.nodes.clone() };
        assert(r.text@ =~= self.text@);
        assert(r.tokens@ =~= self.tokens@);
        assert(r.nodes@ =~= self.nodes@);
        r
    }
}

impl SourceFile {
    pub closed spec fn text_spec(&self) -> Seq<char> {
        self.text@
    }

    pub closed spec fn tokens_spec(&self) -> Seq<SyntaxToken> {
        self.tokens@
    }

    pub closed spec fn nodes_spec(&self) -> Seq<SyntaxNode> {
        self.nodes@
    }

    pub open spec fn wf(&self) -> bool {
        &&& tokens_wf(self.tokens_spec(), self.text_spec().len() as int)
        &&& nodes_wf(self.nodes_spec(), self.text_spec().len() as int)
    }

    /// A file from its text, its tokens in order, and its nodes, the root
    /// first; `None` where they do not fit together as `wf` says.
    pub fn new(text: &str, tokens: Vec<SyntaxToken>, nodes: Vec<SyntaxNode>) -> (r: Option<SourceFile>)
        ensures
            r is Some <==> tokens_wf(tokens@, text@.len() as int) && nodes_wf(nodes@, text@.len() as int),
            r matches Some(f) ==> f.text_spec() == text@ && f.tokens_spec() == tokens@ && f.nodes_spec()
                == nodes@,
    {
        let chars = chars_of(text);
        let len = chars.len();
        let mut i: usize = 0;
        while i < tokens.len()
            invariant
                0 <= i <= tokens.len(),
                forall|k: int| 0 <= k < i ==> (#[trigger] tokens@[k]).range.start < tokens@[k].range.end,
                forall|k: int| 0 <= k < i - 1 ==> (#[trigger] tokens@[k]).range.end == tokens@[k + 1].range.start,
                i > 0 ==> tokens@[0].range.start == 0,
            decreases tokens.len() - i,
        {
            let t = tokens[i];
            if t.range.start >= t.range.end {
                return None;
            }
            if i == 0 && t.range.start != 0 {
                return None;
            }
            if i > 0 && tokens[i - 1].range.end != t.range.start {
                return None;
            }
            i = i + 1;
        }
        proof {
            assert forall|a: int, b: int| 0 <= a < b < tokens@.len() implies (#[trigger] tokens@[a]).range.end
                <= (#[trigger] tokens@[b]).range.start by {
                lemma_adjacent_tokens_ordered(tokens@, a, b);
            }
        }
        if tokens.len() == 0 && len != 0 {
            return None;
        }
        if tokens.len() > 0 && tokens[tokens.len() - 1].range.end != len {
            return None;
        }
        if nodes.len() == 0 || nodes[0].range.start != 0 || nodes[0].range.end != len {
            return None;
        }
        let mut j: usize = 0;
        while j < nodes.len()
            invariant
                0 <= j <= nodes.len(),
                len == text@.len(),
                forall|k: int|
                    0 <= k < j ==> (#[trigger] nodes@[k]).range.wf() && nodes@[k].range.end <= len,
            decreases nodes.len() - j,
        {
            if nodes[j].range.start > nodes[j].range.end || nodes[j].range.end > len {
                assert(!(nodes@[j as int].range.wf() && nodes@[j as int].range.end <= len));
                assert(!nodes_wf(nodes@, text@.len() as int));
                return None;
            }
            j = j + 1;
        }
        Some(SourceFile { text: chars, tokens, nodes })
    }

    /// The text of the file.
    pub fn text(&self) -> (r: String)
        ensures
            r@ == self.text_spec(),
    {
        string_of(self.text.as_slice())
    }

    /// The root node, which spans the whole file.
    pub fn root(&self) -> (r: SyntaxNode)
        requires
            self.wf(),
        ensures
            r == self.nodes_spec()[0],
    {
        self.nodes[0]
    }

    /// The tokens whose range holds `offset`, ends included.
    pub fn token_at_offset(&self, offset: TextUnit) -> (r: TokenAtOffset)
        requires
            self.wf(),
        ensures
            tokens_at(self.tokens_spec(), offset as int, r),
    {
        let ghost toks = self.tokens@;
        let mut i: usize = 0;
        while i < self.tokens.len() && self.tokens[i].range.end < offset
            invariant
                toks == self.tokens@,
                tokens_wf(toks, self.text@.len() as int),
                0 <= i <= toks.len(),
                forall|k: int| 0 <= k < i ==> (#[trigger] toks[k]).range.end < offset,
            decreases toks.len() - i,
        {
            i = i + 1;
        }
        if i == self.tokens.len() {
            return TokenAtOffset::Nothing;
        }
        let t = self.tokens[i];
        proof {
            if i > 0 {
                assert(toks[i - 1].range.end == t.range.start);
            } else {
                assert(t.range.start == 0);
            }
            assert forall|j: int| 0 <= j < i implies !(#[trigger] toks[j]).range.contains_inclusive_spec(
                offset as int,
            ) by {}
        }
        if offset == t.range.end && i + 1 < self.tokens.len() {
            let u = self.tokens[i + 1];
            proof {
                assert(toks[i as int].range.end == u.range.start);
                assert forall|j: int|
                    0 <= j < toks.len() && j != i && j != i + 1 implies !(
                    #[trigger] toks[j]).range.contains_inclusive_spec(offset as int) by {
                    if j > i + 1 {
                        assert(toks[i + 1].range.end <= toks[j].range.start);
                    }
                }
            }
            TokenAtOffset::Between(t, u)
        } else {
            proof {
                assert forall|j: int| 0 <= j < toks.len() && j != i implies !(
                #[trigger] toks[j]).range.contains_inclusive_spec(offset as int) by {
                    if j > i + 1 {
                        assert(toks[i + 1].range.end <= toks[j].range.start);
                        assert(toks[i as int].range.end <= toks[i + 1].range.start);
                    } else if j == i + 1 {
                        assert(toks[i as int].range.end == toks[i + 1].range.start);
                    }
                }
            }
            if offset < t.range.start {
                proof {
                    assert(i == 0);
                }
                return TokenAtOffset::Nothing;
            }
            TokenAtOffset::Single(t)
        }
    }

    /// The first token at `offset` of kind `kind`.
    pub fn find_token_at_offset(&self, offset: TextUnit, kind: SyntaxKind) -> (r: Option<SyntaxToken>)
        requires
            self.wf(),
        ensures
            exists|at: TokenAtOffset| tokens_at(self.tokens_spec(), offset as int, at) && r == first_of_kind(at, kind),
    {
        let at = self.token_at_offset(offset);
        let r = match at {
            TokenAtOffset::Nothing => None,
            TokenAtOffset::Single(t) => if t.kind == kind {
                Some(t)
            } else {
                None
            },
            TokenAtOffset::Between(a, b) => if a.kind == kind {
                Some(a)
            } else if b.kind == kind {
                Some(b)
            } else {
                None
            },
        };
        assert(r == first_of_kind(at, kind));
        r
    }

    /// The indentation of the line that `node` starts on, where whitespace
    /// alone comes between the line break and the node.
    pub fn leading_indent(&self, node: &SyntaxNode) -> (r: Option<String>)
        requires
            self.wf(),
        ensures
            r matches Some(s) ==> leading_indent_spec(self.text_spec(), self.tokens_spec(), node.range) == Some(s@),
            r is None ==> leading_indent_spec(self.text_spec(), self.tokens_spec(), node.range) is None,
    {
        let ghost text = self.text@;
        let ghost toks = self.tokens@;
        let start = node.range.start;
        if start >= node.range.end {
            return None;
        }
        let mut k: usize = 0;
        while k < self.tokens.len() && self.tokens[k].range.start != start
            invariant
                0 <= k <= toks.len(),
                toks == self.tokens@,
                forall|j: int| 0 <= j < k ==> (#[trigger] toks[j]).range.start != start,
            decreases toks.len() - k,
        {
            k = k + 1;
        }
        if k == self.tokens.len() {
            return None;
        }
        let mut p: usize = start;
        while p > 0 && self.text[p - 1] != '\n'
            invariant
                text == self.text@,
                toks == self.tokens@,
                self.wf(),
                0 <= p <= start,
                k < toks.len(),
                toks[k as int].range.start == start,
                last_newline_before(text, start as int) == last_newline_before(text, p as int),
            decreases p,
        {
            p = p - 1;
        }
        if p == 0 {
            return None;
        }
        let nl = p - 1;
        assert(last_newline_before(text, start as int) == nl);
        let mut j: usize = k;
        while j > 0 && self.tokens[j].range.start > nl
            invariant
                toks == self.tokens@,
                self.wf(),
                0 <= j <= k < toks.len(),
                toks[k as int].range.start == start,
                nl < start,
                nl < toks[j as int].range.end,
            decreases j,
        {
            assert(toks[j - 1].range.end == toks[j as int].range.start);
            j = j - 1;
        }
        let t = self.tokens[j];
        proof {
            assert(t.range.start <= nl);
            assert forall|i: int|
                0 <= i < toks.len() && (#[trigger] toks[i]).range.start <= nl < toks[i].range.end implies i
                == j by {
                if i < j {
                    assert(toks[i].range.end <= toks[j as int].range.start);
                } else if i > j {
                    assert(toks[j as int].range.end <= toks[i].range.start);
                }
            }
            assert(toks[j as int].range.start <= nl < toks[j as int].range.end);
        }
        if t.kind == WHITESPACE {
            proof {
                if j + 1 < toks.len() {
                    assert(toks[j as int].range.end <= toks[toks.len() - 1].range.start);
                }
            }
            Some(string_of(slice_subrange(self.text.as_slice(), p, t.range.end)))
        } else {
            None
        }
    }

    /// The index of the innermost node of kind `kind` (of any kind where it is
    /// `None`) that spans `range`.
    fn innermost_node(&self, kind: Option<SyntaxKind>, range: TextRange) -> (r: Option<usize>)
        requires
            self.wf(),
        ensures
            r matches Some(i) ==> innermost_at(self.nodes_spec(), i as int, kind, range),
            r is None ==> forall|j: int|
                0 <= j < self.nodes_spec().len() ==> !#[trigger] node_covers(self.nodes_spec()[j], kind, range),
    {
        let ghost nodes = self.nodes@;
        let mut best: Option<usize> = None;
        let mut i: usize = 0;
        while i < self.nodes.len()
            invariant
                nodes == self.nodes@,
                self.wf(),
                0 <= i <= nodes.len(),
                best matches Some(b) ==> b < i && node_covers(nodes[b as int], kind, range) && forall|j: int|
                    0 <= j < i && #[trigger] node_covers(nodes[j], kind, range) ==> nodes[b as int].range.len_spec()
                        <= nodes[j].range.len_spec() && (j > b ==> nodes[b as int].range.len_spec()
                        < nodes[j].range.len_spec()),
                best is None ==> forall|j: int| 0 <= j < i ==> !#[trigger] node_covers(nodes[j], kind, range),
            decreases nodes.len() - i,
        {
            let n = self.nodes[i];
            let kind_ok = match kind {
                Some(k) => n.kind == k,
                None => true,
            };
            if kind_ok && n.range.contains_range(&range) {
                let shorter = match best {
                    Some(b) => n.range.len() <= self.nodes[b].range.len(),
                    None => true,
                };
                if shorter {
                    best = Some(i);
                }
            }
            i = i + 1;
        }
        best
    }

    /// The innermost node of kind `kind` whose range holds `offset`, ends included.
    pub fn find_node_at_offset(&self, offset: TextUnit, kind: SyntaxKind) -> (r: Option<SyntaxNode>)
        requires
            self.wf(),
        ensures
            r matches Some(n) ==> exists|i: int|
                innermost_at(self.nodes_spec(), i, Some(kind), TextRange { start: offset, end: offset })
                    && self.nodes_spec()[i] == n,
            r is None ==> forall|j: int|
                0 <= j < self.nodes_spec().len() ==> !#[trigger] node_covers(
                    self.nodes_spec()[j],
                    Some(kind),
                    TextRange { start: offset, end: offset },
                ),
    {
        match self.innermost_node(Some(kind), TextRange::empty_at(offset)) {
            Some(i) => Some(self.nodes[i]),
            None => None,
        }
    }

    /// The smallest element that spans `range`: the first token that does, or
    /// else the innermost node that does.
    pub fn covering_element(&self, range: TextRange) -> (r: SyntaxElement)
        requires
            self.wf(),
            range.wf(),
            range.end <= self.text_spec().len(),
        ensures
            covers_smallest(*self, range, r),
    {
        let mut i: usize = 0;
        while i < self.tokens.len()
            invariant
                0 <= i <= self.tokens@.len(),
                forall|j: int| 0 <= j < i ==> !(#[trigger] self.tokens@[j]).range.contains_range_spec(range),
            decreases self.tokens@.len() - i,
        {
            if self.tokens[i].range.contains_range(&range) {
                assert(self.tokens_spec()[i as int] == self.tokens@[i as int]);
                return SyntaxElement::Token(self.tokens[i]);
            }
            i = i + 1;
        }
        match self.innermost_node(None, range) {
            Some(k) => SyntaxElement::Node(self.nodes[k]),
            None => {
                proof {
                    assert(node_covers(self.nodes@[0], None, range));
                }
                SyntaxElement::Node(self.nodes[0])
            },
        }
    }
}

} // verus!
