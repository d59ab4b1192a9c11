//! The context a transformation runs in, the edits it builds, and the result
//! it registers: a label alone when only applicability was asked for, a label
//! with its edits when they were to be computed.
use crate::edit::{atoms_disjoint, fits_among, place_all, placed_in_order, AtomTextEdit, TextEdit, TextEditBuilder};
use crate::indent::{reindent, reindent_spec};
use crate::syntax::{
    covers_smallest, first_of_kind, innermost_at, leading_indent_spec, node_covers, tokens_at, SourceFile, SyntaxElement,
    SyntaxKind, SyntaxNode, SyntaxToken, TokenAtOffset,
};
use crate::text::{TextRange, TextUnit};
use vstd::prelude::*;

verus! {

/// Whether `c` is an uppercase letter, as Unicode's `Uppercase` property says.
pub uninterp spec fn is_uppercase(c: char) -> bool;

/// Relies on `char::is_uppercase`: whether the character has the Unicode
/// `Uppercase` property, which depends on the character alone.
#[verifier::external_body]
fn char_is_uppercase(c: char) -> (r: bool)
    ensures
        r == is_uppercase(c),
{
    c.is_uppercase()
}

/// A label may be shown to the user: it is not empty and starts with an uppercase letter.
pub open spec fn valid_label(label: Seq<char>) -> bool {
    label.len() > 0 && is_uppercase(label[0])
}

/// The file a range belongs to.
#[derive(Clone, Copy, Debug, PartialEq, Eq, Structural)]
pub struct FileId(pub u32);

/// A range in a given file: the cursor or the selection.
#[derive(Clone, Copy, Debug, PartialEq, Eq, Structural)]
pub struct FileRange {
    pub file_id: FileId,
    pub range: TextRange,
}

/// The stable name of a transformation.
#[derive(Clone, Copy, Debug)]
pub struct AssistId(pub &'static str);

/// A transformation's name together with the label shown to the user.
#[derive(Clone, Debug)]
pub struct AssistLabel {
    pub label: String,
    pub id: AssistId,
}

impl AssistLabel {
    pub open spec fn wf(&self) -> bool {
        valid_label(self.label@)
    }

    /// The label for `id`, where `label` is one that may be shown: `None` where
    /// it is empty or does not start with an uppercase letter.
    pub fn new(id: AssistId, label: String) -> (r: Option<AssistLabel>)
        ensures
            r is Some <==> valid_label(label@),
            r matches Some(l) ==> l.label == label && l.id == id && l.wf(),
    {
        if label.as_str().unicode_len() == 0 {
            return None;
        }
        let c = label.as_str().get_char(0);
        if char_is_uppercase(c) {
            Some(AssistLabel { label, id })
        } else {
            None
        }
    }
}

/// A computed edit: the text edit, where the cursor goes after it, the range
/// the action is most relevant to, and a label of its own where it needs one.
#[derive(Clone, Debug)]
pub struct AssistAction {
    pub edit: TextEdit,
    pub cursor_position: Option<TextUnit>,
    pub target: Option<TextRange>,
    pub label: Option<String>,
}

impl AssistAction {
    pub open spec fn wf(&self) -> bool {
        self.edit.wf()
    }
}

/// One action, or a group of alternatives offered under one label.
#[derive(Clone, Debug)]
pub enum ActionData {
    Single(AssistAction),
    Group(Vec<AssistAction>),
}

impl ActionData {
    /// A group is never empty, and no action's edits overlap.
    pub open spec fn wf(&self) -> bool {
        match self {
            ActionData::Single(a) => a.wf(),
            ActionData::Group(v) => v@.len() > 0 && forall|i: int| 0 <= i < v@.len() ==> (#[trigger] v@[i]).wf(),
        }
    }
}

#[derive(Clone, Debug)]
pub struct ResolvedAssist {
    pub label: AssistLabel,
    pub action_data: ActionData,
}

/// What a transformation registers where it applies.
#[derive(Clone, Debug)]
pub enum Assist {
    Unresolved { label: AssistLabel },
    Resolved { assist: ResolvedAssist },
}

impl Assist {
    pub open spec fn label_spec(&self) -> AssistLabel {
        match self {
            Assist::Unresolved { label } => *label,
            Assist::Resolved { assist } => assist.label,
        }
    }

    pub open spec fn wf(&self) -> bool {
        &&& self.label_spec().wf()
        &&& (self matches Assist::Resolved { assist } ==> assist.action_data.wf())
    }

    /// The label under which the transformation was registered.
    pub fn label(&self) -> (r: &AssistLabel)
        ensures
            *r == self.label_spec(),
    {
        match self {
            Assist::Unresolved { label } => label,
            Assist::Resolved { assist } => &assist.label,
        }
    }

    /// Whether the edits were computed.
    pub fn is_resolved(&self) -> (r: bool)
        ensures
            r == self is Resolved,
    {
        match self {
            Assist::Unresolved { .. } => false,
            Assist::Resolved { .. } => true,
        }
    }
}

/// What registering under `label` gives: the label alone where edits are
/// not computed, the label with computed edits where they are.
pub open spec fn registered(r: Option<Assist>, compute: bool, label: AssistLabel) -> bool {
    &&& r matches Some(a)
    &&& a.label_spec() == label
    &&& a is Resolved == compute
}

/// What the caller learns from a registration: whether the transformation
/// applies, and under which label.
pub open spec fn verdict(r: Option<Assist>) -> Option<AssistLabel> {
    match r {
        Some(a) => Some(a.label_spec()),
        None => None,
    }
}

/// `action` holds what `builder` collected.
pub open spec fn built_from(action: AssistAction, builder: ActionBuilder) -> bool {
    &&& action.edit@ == builder.atoms()
    &&& action.cursor_position == builder.cursor()
    &&& action.target == builder.target_range()
    &&& action.label == builder.label_text()
}

/// Collects the edits of one action, and where the cursor goes after them.
pub struct ActionBuilder {
    edit: TextEditBuilder,
    cursor_position: Option<TextUnit>,
    target: Option<TextRange>,
    label: Option<String>,
}

impl Default for ActionBuilder {
    fn default() -> (r: ActionBuilder)
        ensures
            r.atoms() == Seq::<AtomTextEdit>::empty(),
            r.cursor() is None,
            r.target_range() is None,
            r.label_text() is None,
            r.wf(),
    {
        ActionBuilder::new()
    }
}

impl ActionBuilder {
    pub closed spec fn atoms(&self) -> Seq<AtomTextEdit> {
        self.edit@
    }

    pub closed spec fn cursor(&self) -> Option<TextUnit> {
        self.cursor_position
    }

    pub closed spec fn target_range(&self) -> Option<TextRange> {
        self.target
    }

    pub closed spec fn label_text(&self) -> Option<String> {
        self.label
    }

    pub open spec fn wf(&self) -> bool {
        atoms_disjoint(self.atoms())
    }

    /// An empty builder.
    pub fn new() -> (r: ActionBuilder)
        ensures
            r.atoms() == Seq::<AtomTextEdit>::empty(),
            r.cursor() is None,
            r.target_range() is None,
            r.label_text() is None,
            r.wf(),
    {
        ActionBuilder { edit: TextEditBuilder::new(), cursor_position: None, target: None, label: None }
    }

    /// Give the action a label of its own, where it needs one other than the
    /// label it is registered under.
    pub fn label(&mut self, label: String)
        ensures
            final(self).label_text() == Some(label),
            final(self).atoms() == old(self).atoms(),
            final(self).cursor() == old(self).cursor(),
            final(self).target_range() == old(self).target_range(),
    {
        self.label = Some(label)
    }

    /// Replace the text in `range` with `replace_with`.
    pub fn replace(&mut self, range: TextRange, replace_with: String)
        requires
            old(self).wf(),
            fits_among(old(self).atoms(), range),
        ensures
            final(self).wf(),
            placed_in_order(
                old(self).atoms(),
                (AtomTextEdit { delete: range, insert: replace_with }),
                final(self).atoms(),
            ),
            final(self).cursor() == old(self).cursor(),
            final(self).target_range() == old(self).target_range(),
            final(self).label_text() == old(self).label_text(),
    {
        self.edit.replace(range, replace_with)
    }

    /// Replace `node` of `file` with `replace_with`, re-indented to the
    /// indentation of the line the node starts on.
    pub fn replace_node_and_indent(&mut self, file: &SourceFile, node: &SyntaxNode, replace_with: String)
        requires
            old(self).wf(),
            file.wf(),
            fits_among(old(self).atoms(), node.range),
        ensures
            final(self).wf(),
            exists|s: String|
                placed_in_order(
                    old(self).atoms(),
                    (AtomTextEdit { delete: node.range, insert: s }),
                    final(self).atoms(),
                ) && s@ == match leading_indent_spec(file.text_spec(), file.tokens_spec(), node.range) {
                    Some(indent) => reindent_spec(replace_with@, indent),
                    None => replace_with@,
                },
            final(self).cursor() == old(self).cursor(),
            final(self).target_range() == old(self).target_range(),
            final(self).label_text() == old(self).label_text(),
    {
        let ghost original = replace_with@;
        let ghost expected = match leading_indent_spec(file.text_spec(), file.tokens_spec(), node.range) {
            Some(indent) => reindent_spec(original, indent),
            None => original,
        };
        let text = match file.leading_indent(node) {
            Some(indent) => reindent(replace_with.as_str(), indent.as_str()),
            None => replace_with,
        };
        assert(text@ == expected);
        let ghost atom = AtomTextEdit { delete: node.range, insert: text };
        self.replace(node.range, text);
        assert(placed_in_order(old(self).atoms(), atom, self.atoms()));
    }

    /// Remove the text in `range`.
    pub fn delete(&mut self, range: TextRange)
        requires
            old(self).wf(),
            fits_among(old(self).atoms(), range),
        ensures
            final(self).wf(),
            exists|s: String|
                s@.len() == 0 && placed_in_order(
                    old(self).atoms(),
                    (AtomTextEdit { delete: range, insert: s }),
                    final(self).atoms(),
                ),
            final(self).cursor() == old(self).cursor(),
            final(self).target_range() == old(self).target_range(),
            final(self).label_text() == old(self).label_text(),
    {
        self.edit.delete(range)
    }

    /// Put `text` at `offset`.
    pub fn insert(&mut self, offset: TextUnit, text: String)
        requires
            old(self).wf(),
            fits_among(old(self).atoms(), TextRange { start: offset, end: offset }),
        ensures
            final(self).wf(),
            placed_in_order(
                old(self).atoms(),
                (AtomTextEdit { delete: TextRange { start: offset, end: offset }, insert: text }),
                final(self).atoms(),
            ),
            final(self).cursor() == old(self).cursor(),
            final(self).target_range() == old(self).target_range(),
            final(self).label_text() == old(self).label_text(),
    {
        self.edit.insert(offset, text)
    }

    /// Where the cursor goes once the action is applied; a later call wins.
    pub fn set_cursor(&mut self, offset: TextUnit)
        ensures
            final(self).cursor() == Some(offset),
            final(self).atoms() == old(self).atoms(),
            final(self).target_range() == old(self).target_range(),
            final(self).label_text() == old(self).label_text(),
    {
        self.cursor_position = Some(offset)
    }

    /// The range the action is most relevant to. Actions are ranked by it:
    /// the smaller the range, the more specific the action, and the earlier it comes.
    pub fn target(&mut self, target: TextRange)
        ensures
            final(self).target_range() == Some(target),
            final(self).atoms() == old(self).atoms(),
            final(self).cursor() == old(self).cursor(),
            final(self).label_text() == old(self).label_text(),
    {
        self.target = Some(target)
    }

    /// The text edits collected so far, to add to directly.
    pub fn text_edit_builder(&mut self) -> (r: &mut TextEditBuilder)
        ensures
            r@ == old(self).atoms(),
            final(self).atoms() == final(r)@,
            final(self).cursor() == old(self).cursor(),
            final(self).target_range() == old(self).target_range(),
            final(self).label_text() == old(self).label_text(),
    {
        &mut self.edit
    }

    /// Replace `old_node` with `new_node`, where both are tree values of the
    /// same shape: `diff` lowers the structural difference between them to
    /// text edits, and each of them is added in its place.
    pub fn replace_ast<N, D>(&mut self, diff: D, old_node: N, new_node: N) where D: FnOnce(N, N) -> TextEdit
        requires
            old(self).wf(),
            diff.requires((old_node, new_node)),
            forall|e: TextEdit| #[trigger]
                diff.ensures((old_node, new_node), e) ==> e.wf() && forall|i: int, m: int|
                    0 <= i < old(self).atoms().len() && 0 <= m < e@.len() ==> (#[trigger] old(
                        self,
                    ).atoms()[i]).delete.is_disjoint_spec((#[trigger] e@[m]).delete),
        ensures
            final(self).wf(),
            exists|e: TextEdit|
                #[trigger] diff.ensures((old_node, new_node), e) && final(self).atoms() == place_all(
                    old(self).atoms(),
                    e@,
                ),
            final(self).cursor() == old(self).cursor(),
            final(self).target_range() == old(self).target_range(),
            final(self).label_text() == old(self).label_text(),
    {
        let e = diff(old_node, new_node);
        let ghost seen = e;
        self.edit.extend(e);
        assert(diff.ensures((old_node, new_node), seen));
    }

    /// The action made of what was collected.
    pub fn build(self) -> (r: AssistAction)
        requires
            self.wf(),
        ensures
            built_from(r, self),
            r.wf(),
    {
        AssistAction {
            edit: self.edit.finish(),
            cursor_position: self.cursor_position,
            target: self.target,
            label: self.label,
        }
    }
}

/// What a transformation sees: the file, the cursor or selection in it,
/// and whether edits are to be computed or applicability alone decided.
///
/// Transformations are run twice. Asked which transformations apply, each
/// runs with `should_compute_edit` false and registers its label alone; once
/// one is picked, it runs again with `should_compute_edit` true, decides
/// afresh whether it applies (the file may have changed meanwhile), and
/// registers its edits too. The same code decides in both runs.
pub struct AssistCtx {
    pub frange: FileRange,
    pub source_file: SourceFile,
    pub should_compute_edit: bool,
}

impl Clone for AssistCtx {
    fn clone(&self) -> (r: AssistCtx)
        ensures
            r.frange == self.frange,
            r.should_compute_edit == self.should_compute_edit,
            r.source_file.text_spec() == self.source_file.text_spec(),
            r.source_file.tokens_spec() == self.source_file.tokens_spec(),
            r.source_file.nodes_spec() == self.source_file.nodes_spec(),
    {
        AssistCtx {
            frange: self.frange,
            source_file: self.source_file.clone(),
            should_compute_edit: self.should_compute_edit,
        }
    }
}

impl AssistCtx {
    pub open spec fn wf(&self) -> bool {
        self.source_file.wf()
    }

    /// Run `f` in the context of `frange`, on the file that `parse` gives for it.
    pub fn with_ctx<P, F, T>(parse: P, frange: FileRange, should_compute_edit: bool, f: F) -> (r: T) where
        P: FnOnce(FileId) -> SourceFile,
        F: FnOnce(AssistCtx) -> T,

        requires
            parse.requires((frange.file_id,)),
            forall|file: SourceFile| #[trigger]
                parse.ensures((frange.file_id,), file) ==> f.requires(
                    (AssistCtx { frange, source_file: file, should_compute_edit },),
                ),
        ensures
            exists|file: SourceFile|
                parse.ensures((frange.file_id,), file) && f.ensures(
                    (AssistCtx { frange, source_file: file, should_compute_edit },),
                    r,
                ),
    {
        let source_file = parse(frange.file_id);
        let ctx = AssistCtx { frange, source_file, should_compute_edit };
        f(ctx)
    }

    /// Register the transformation under `label`. Where edits are to be
    /// computed, `f` collects them; else `f` is not called.
    pub fn add_assist<F>(self, label: AssistLabel, f: F) -> (r: Option<Assist>) where F: FnOnce() -> ActionBuilder
        requires
            label.wf(),
            self.should_compute_edit ==> f.requires(()),
            self.should_compute_edit ==> forall|b: ActionBuilder| #[trigger] f.ensures((), b) ==> b.wf(),
        ensures
            registered(r, self.should_compute_edit, label),
            r matches Some(a) && a.wf(),
            r matches Some(Assist::Resolved { assist }) ==> exists|b: ActionBuilder|
                #[trigger] f.ensures((), b) && (assist.action_data matches ActionData::Single(action) && built_from(
                    action,
                    b,
                )),
    {
        let assist = if self.should_compute_edit {
            let builder = f();
            let action = builder.build();
            Assist::Resolved { assist: ResolvedAssist { label, action_data: ActionData::Single(action) } }
        } else {
            Assist::Unresolved { label }
        };
        Some(assist)
    }

    /// Register the transformation under `label` with a group of
    /// alternative actions. Where edits are to be computed, `f` collects
    /// them, one builder for each, at least one; else `f` is not called.
    pub fn add_assist_group<F>(self, label: AssistLabel, f: F) -> (r: Option<Assist>) where
        F: FnOnce() -> Vec<ActionBuilder>,

        requires
            label.wf(),
            self.should_compute_edit ==> f.requires(()),
            self.should_compute_edit ==> forall|v: Vec<ActionBuilder>| #[trigger]
                f.ensures((), v) ==> v@.len() > 0 && forall|i: int| 0 <= i < v@.len() ==> (#[trigger] v@[i]).wf(),
        ensures
            registered(r, self.should_compute_edit, label),
            r matches Some(a) && a.wf(),
            r matches Some(Assist::Resolved { assist }) ==> exists|v: Vec<ActionBuilder>|
                #[trigger] f.ensures((), v) && (assist.action_data matches ActionData::Group(actions)
                    && actions@.len() == v@.len() && forall|i: int|
                    0 <= i < v@.len() ==> built_from(#[trigger] actions@[i], v@[i])),
    {
        if !self.should_compute_edit {
            return Some(Assist::Unresolved { label });
        }
        let mut builders = f();
        let ghost v = builders@;
        let n = builders.len();
        let mut reversed: Vec<AssistAction> = Vec::new();
        while builders.len() > 0
            invariant
                builders@ == v.subrange(0, builders@.len() as int),
                n == v.len(),
                forall|i: int| 0 <= i < v.len() ==> (#[trigger] v[i]).wf(),
                reversed@.len() == n - builders@.len(),
                forall|k: int|
                    0 <= k < reversed@.len() ==> built_from(#[trigger] reversed@[k], v[n - 1 - k])
                        && reversed@[k].wf(),
            decreases builders@.len(),
        {
            let b = builders.pop().unwrap();
            reversed.push(b.build());
            assert(builders@ =~= v.subrange(0, builders@.len() as int));
        }
        let mut actions: Vec<AssistAction> = Vec::new();
        while reversed.len() > 0
            invariant
                n == v.len(),
                0 <= reversed@.len() <= n,
                actions@.len() == n - reversed@.len(),
                forall|k: int|
                    0 <= k < reversed@.len() ==> built_from(#[trigger] reversed@[k], v[n - 1 - k])
                        && reversed@[k].wf(),
                forall|k: int| 0 <= k < actions@.len() ==> built_from(#[trigger] actions@[k], v[k]) && actions@[k].wf(),
            decreases reversed@.len(),
        {
            let a = reversed.pop().unwrap();
            actions.push(a);
        }
        Some(Assist::Resolved { assist: ResolvedAssist { label, action_data: ActionData::Group(actions) } })
    }

    /// The tokens at the start of the cursor or selection.
    pub fn token_at_offset(&self) -> (r: TokenAtOffset)
        requires
            self.wf(),
        ensures
            tokens_at(self.source_file.tokens_spec(), self.frange.range.start as int, r),
    {
        self.source_file.token_at_offset(self.frange.range.start)
    }

    /// The first token of kind `kind` at the start of the cursor or selection.
    pub fn find_token_at_offset(&self, kind: SyntaxKind) -> (r: Option<SyntaxToken>)
        requires
            self.wf(),
        ensures
            exists|at: TokenAtOffset|
                tokens_at(self.source_file.tokens_spec(), self.frange.range.start as int, at) && r
                    == first_of_kind(at, kind),
    {
        self.source_file.find_token_at_offset(self.frange.range.start, kind)
    }

    /// The innermost node of kind `kind` at the start of the cursor or
    /// selection. `None` tells a transformation, at no cost, that it does not apply.
    pub fn find_node_at_offset(&self, kind: SyntaxKind) -> (r: Option<SyntaxNode>)
        requires
            self.wf(),
        ensures
            r matches Some(n) ==> exists|i: int|
                innermost_at(
                    self.source_file.nodes_spec(),
                    i,
                    Some(kind),
                    TextRange { start: self.frange.range.start, end: self.frange.range.start },
                ) && self.source_file.nodes_spec()[i] == n,
            r is None ==> forall|j: int|
                0 <= j < self.source_file.nodes_spec().len() ==> !#[trigger] node_covers(
                    self.source_file.nodes_spec()[j],
                    Some(kind),
                    TextRange { start: self.frange.range.start, end: self.frange.range.start },
                ),
    {
        self.source_file.find_node_at_offset(self.frange.range.start, kind)
    }

    /// The smallest element that spans the whole selection.
    pub fn covering_element(&self) -> (r: SyntaxElement)
        requires
            self.wf(),
            self.frange.range.wf(),
            self.frange.range.end <= self.source_file.text_spec().len(),
        ensures
            covers_smallest(self.source_file, self.frange.range, r),
    {
        self.source_file.covering_element(self.frange.range)
    }

    /// The smallest element that spans `range`.
    pub fn covering_node_for_range(&self, range: TextRange) -> (r: SyntaxElement)
        requires
            self.wf(),
            range.wf(),
            range.end <= self.source_file.text_spec().len(),
        ensures
            covers_smallest(self.source_file, range, r),
    {
        self.source_file.covering_element(range)
    }

    /// The semantic view of `node` that `analyze` gives, in the file of this
    /// context. It may be costly: transformations ask for it only once the
    /// cheap checks on the tree have passed.
    pub fn source_analyzer<A, S>(&self, analyze: A, node: &SyntaxNode, offset: Option<TextUnit>) -> (r: S) where
        A: FnOnce(FileId, SyntaxNode, Option<TextUnit>) -> S,

        requires
            analyze.requires((self.frange.file_id, *node, offset)),
        ensures
            analyze.ensures((self.frange.file_id, *node, offset), r),
    {
        analyze(self.frange.file_id, *node, offset)
    }
}

/// Applicability does not depend on the mode: registering under `label`
/// once to decide applicability and once to compute edits gives the caller
/// the same verdict, the transformation applies under `label`.
pub proof fn lemma_check_and_apply_agree(check: Option<Assist>, apply: Option<Assist>, label: AssistLabel)
    requires
        registered(check, false, label),
        registered(apply, true, label),
    ensures
        verdict(check) == verdict(apply),
        verdict(check) == Some(label),
{
}

} // verus!
