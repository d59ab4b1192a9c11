//! Text edits: ordered, non-overlapping replacements of ranges of a text.
use crate::text::{TextRange, TextUnit};
use vstd::prelude::*;

verus! {

/// Replace the text in `delete` with `insert`. An empty `delete` inserts,
/// an empty `insert` deletes.
#[derive(Clone, Debug)]
pub struct AtomTextEdit {
    pub delete: TextRange,
    pub insert: String,
}

/// Every range is well formed, and each ends no later than the next one starts.
/// Ranges that follow one another in this way never overlap.
pub open spec fn atoms_disjoint(atoms: Seq<AtomTextEdit>) -> bool {
    &&& forall|i: int| 0 <= i < atoms.len() ==> (#[trigger] atoms[i]).delete.wf()
    &&& forall|i: int, j: int|
        0 <= i < j < atoms.len() ==> (#[trigger] atoms[i]).delete.end <= (#[trigger] atoms[j]).delete.start
}

/// `range` can join `atoms` without overlapping any of them.
pub open spec fn fits_among(atoms: Seq<AtomTextEdit>, range: TextRange) -> bool {
    &&& range.wf()
    &&& forall|i: int| 0 <= i < atoms.len() ==> (#[trigger] atoms[i]).delete.is_disjoint_spec(range)
}

/// `atoms` after `atom` was put in its place in their order: after every
/// atom that ends at or before `atom` starts, before all others.
pub open spec fn placed_in_order(
    before: Seq<AtomTextEdit>,
    atom: AtomTextEdit,
    after: Seq<AtomTextEdit>,
) -> bool {
    exists|i: int|
        0 <= i <= before.len() && after == before.insert(i, atom) && (forall|k: int|
            0 <= k < i ==> (#[trigger] before[k]).delete.end <= atom.delete.start) && (forall|k: int|
            i <= k < before.len() ==> (#[trigger] before[k]).delete.end > atom.delete.start)
}

/// `atoms` with `atom` put in its place in their order, as `placed_in_order` says.
pub open spec fn place(atoms: Seq<AtomTextEdit>, atom: AtomTextEdit) -> Seq<AtomTextEdit> {
    choose|after: Seq<AtomTextEdit>| placed_in_order(atoms, atom, after)
}

/// `atoms` with each of `added` put in its place in turn, first to last.
pub open spec fn place_all(atoms: Seq<AtomTextEdit>, added: Seq<AtomTextEdit>) -> Seq<AtomTextEdit>
    decreases added.len(),
{
    if added.len() == 0 {
        atoms
    } else {
        place(place_all(atoms, added.drop_last()), added.last())
    }
}

/// There is one place for an atom among others.
pub proof fn lemma_place_unique(before: Seq<AtomTextEdit>, atom: AtomTextEdit, after: Seq<AtomTextEdit>)
    requires
        placed_in_order(before, atom, after),
    ensures
        place(before, atom) == after,
{
    let other = place(before, atom);
    let i = choose|i: int|
        0 <= i <= before.len() && after == before.insert(i, atom) && (forall|k: int|
            0 <= k < i ==> (#[trigger] before[k]).delete.end <= atom.delete.start) && (forall|k: int|
            i <= k < before.len() ==> (#[trigger] before[k]).delete.end > atom.delete.start);
    let j = choose|j: int|
        0 <= j <= before.len() && other == before.insert(j, atom) && (forall|k: int|
            0 <= k < j ==> (#[trigger] before[k]).delete.end <= atom.delete.start) && (forall|k: int|
            j <= k < before.len() ==> (#[trigger] before[k]).delete.end > atom.delete.start);
    if i < j {
        assert(before[i].delete.end <= atom.delete.start);
    } else if j < i {
        assert(before[j].delete.end <= atom.delete.start);
    }
}

/// Every range of `atoms` ends within a text of length `len`.
pub open spec fn atoms_within(atoms: Seq<AtomTextEdit>, len: int) -> bool {
    forall|i: int| 0 <= i < atoms.len() ==> (#[trigger] atoms[i]).delete.end <= len
}

/// The text that results from applying `atoms` to `text`: the last atom's
/// insertion stands in for its range, and the atoms before it apply to what
/// precedes that range.
pub open spec fn apply_atoms(atoms: Seq<AtomTextEdit>, text: Seq<char>) -> Seq<char>
    decreases atoms.len(),
{
    if atoms.len() == 0 {
        text
    } else {
        let a = atoms.last();
        apply_atoms(atoms.drop_last(), text.subrange(0, a.delete.start as int)) + a.insert@
            + text.subrange(a.delete.end as int, text.len() as int)
    }
}

/// A finished edit: atoms in order of their ranges, none overlapping another.
#[derive(Clone, Debug)]
pub struct TextEdit {
    atoms: Vec<AtomTextEdit>,
}

impl View for TextEdit {
    type V = Seq<AtomTextEdit>;

    closed spec fn view(&self) -> Seq<AtomTextEdit> {
        self.atoms@
    }
}

impl TextEdit {
    pub open spec fn wf(&self) -> bool {
        atoms_disjoint(self@)
    }

    /// The atoms, in order.
    pub fn atoms(&self) -> (r: &Vec<AtomTextEdit>)
        ensures
            r@ == self@,
    {
        &self.atoms
    }

    pub fn is_empty(&self) -> (r: bool)
        ensures
            r == (self@.len() == 0),
    {
        self.atoms.len() == 0
    }

    /// Apply the edit to `text`.
    pub fn apply(&self, text: &str) -> (r: String)
        requires
            self.wf(),
            atoms_within(self@, text@.len() as int),
        ensures
            r@ == apply_atoms(self@, text@),
    {
        let ghost atoms = self@;
        let mut out = String::new();
        let mut pos: usize = 0;
        let mut i: usize = 0;
        while i < self.atoms.len()
            invariant
                atoms == self@,
                atoms_disjoint(atoms),
                atoms_within(atoms, text@.len() as int),
                0 <= i <= atoms.len(),
                pos <= text@.len(),
                i == 0 ==> pos == 0,
                i > 0 ==> pos == atoms[i - 1].delete.end,
                out@ == apply_atoms(atoms.subrange(0, i as int), text@.subrange(0, pos as int)),
            decreases atoms.len() - i,
        {
            let a = &self.atoms[i];
            assert(atoms[i as int].delete.wf());
            proof {
                if i > 0 {
                    assert(atoms[i - 1].delete.end <= atoms[i as int].delete.start);
                }
                lemma_apply_extend(
                    atoms.subrange(0, i as int),
                    text@,
                    pos as int,
                    a.delete.start as int,
                );
            }
            out.append(text.substring_char(pos, a.delete.start));
            out.append(a.insert.as_str());
            pos = a.delete.end;
            i = i + 1;
            proof {
                let s = atoms.subrange(0, i as int);
                let t = text@.subrange(0, pos as int);
                assert(s.drop_last() =~= atoms.subrange(0, i - 1));
                assert(t.subrange(0, a.delete.start as int) =~= text@.subrange(0, a.delete.start as int));
                assert(t.subrange(pos as int, t.len() as int) =~= Seq::<char>::empty());
            }
            assert(out@ =~= apply_atoms(atoms.subrange(0, i as int), text@.subrange(0, pos as int)));
        }
        proof {
            lemma_apply_extend(atoms, text@, pos as int, text@.len() as int);
            assert(atoms.subrange(0, i as int) =~= atoms);
            assert(text@.subrange(0, text@.len() as int) =~= text@);
        }
        out.append(text.substring_char(pos, text.unicode_len()));
        out
    }
}

/// Text after the last range of `atoms` passes through unchanged.
proof fn lemma_apply_extend(atoms: Seq<AtomTextEdit>, text: Seq<char>, p: int, q: int)
    requires
        0 <= p <= q <= text.len(),
        atoms_disjoint(atoms),
        atoms.len() > 0 ==> atoms.last().delete.end <= p,
    ensures
        apply_atoms(atoms, text.subrange(0, p)) + text.subrange(p, q) =~= apply_atoms(
            atoms,
            text.subrange(0, q),
        ),
{
    if atoms.len() > 0 {
        let a = atoms.last();
        assert(a.delete.wf());
        let tp = text.subrange(0, p);
        let tq = text.subrange(0, q);
        assert(tp.subrange(0, a.delete.start as int) =~= tq.subrange(0, a.delete.start as int));
        assert(tp.subrange(a.delete.end as int, tp.len() as int) + text.subrange(p, q) =~= tq.subrange(
            a.delete.end as int,
            tq.len() as int,
        ));
    } else {
        assert(text.subrange(0, p) + text.subrange(p, q) =~= text.subrange(0, q));
    }
}

/// Collects atoms one by one, keeping them in the order of their ranges.
#[derive(Clone, Debug)]
pub struct TextEditBuilder {
    atoms: Vec<AtomTextEdit>,
}

impl View for TextEditBuilder {
    type V = Seq<AtomTextEdit>;

    closed spec fn view(&self) -> Seq<AtomTextEdit> {
        self.atoms@
    }
}

impl TextEditBuilder {
    pub open spec fn wf(&self) -> bool {
        atoms_disjoint(self@)
    }

    pub fn new() -> (r: TextEditBuilder)
        ensures
            r@ == Seq::<AtomTextEdit>::empty(),
            r.wf(),
    {
        TextEditBuilder { atoms: Vec::new() }
    }

    fn add(&mut self, atom: AtomTextEdit)
        requires
            old(self).wf(),
            fits_among(old(self)@, atom.delete),
        ensures
            final(self).wf(),
            placed_in_order(old(self)@, atom, final(self)@),
    {
        let ghost before = self@;
        let mut i: usize = 0;
        while i < self.atoms.len() && self.atoms[i].delete.end <= atom.delete.start
            invariant
                self@ == before,
                0 <= i <= before.len(),
                forall|k: int| 0 <= k < i ==> (#[trigger] before[k]).delete.end <= atom.delete.start,
            decreases before.len() - i,
        {
            i = i + 1;
        }
        proof {
            assert forall|k: int| i <= k < before.len() implies (#[trigger] before[k]).delete.end
                > atom.delete.start by {
                if k > i {
                    assert(before[i as int].delete.end <= before[k].delete.start);
                    assert(before[k].delete.wf());
                }
            }
        }
        self.atoms.insert(i, atom);
        proof {
            let after = self@;
            assert(after == before.insert(i as int, atom));
            assert forall|x: int, y: int| 0 <= x < y < after.len() implies (#[trigger] after[x]).delete.end
                <= (#[trigger] after[y]).delete.start by {
                if y == i {
                    assert(before[x].delete.end <= atom.delete.start);
                } else if x == i {
                    assert(before[y - 1].delete.is_disjoint_spec(atom.delete));
                    assert(before[y - 1].delete.wf());
                } else if x < i && y > i {
                    assert(before[x].delete.end <= before[y - 1].delete.start);
                } else if x > i {
                    assert(before[x - 1].delete.end <= before[y - 1].delete.start);
                } else {
                    assert(before[x].delete.end <= before[y].delete.start);
                }
            }
            assert forall|x: int| 0 <= x < after.len() implies (#[trigger] after[x]).delete.wf() by {
                if x < i {
                    assert(before[x].delete.wf());
                } else if x > i {
                    assert(before[x - 1].delete.wf());
                }
            }
            assert(placed_in_order(before, atom, after));
        }
    }

    /// Replace the text in `range` with `replace_with`.
    pub fn replace(&mut self, range: TextRange, replace_with: String)
        requires
            old(self).wf(),
            fits_among(old(self)@, range),
        ensures
            final(self).wf(),
            placed_in_order(old(self)@, AtomTextEdit { delete: range, insert: replace_with }, final(self)@),
    {
        self.add(AtomTextEdit { delete: range, insert: replace_with })
    }

    /// Remove the text in `range`.
    pub fn delete(&mut self, range: TextRange)
        requires
            old(self).wf(),
            fits_among(old(self)@, range),
        ensures
            final(self).wf(),
            exists|s: String|
                s@.len() == 0 && placed_in_order(old(self)@, (AtomTextEdit { delete: range, insert: s }), final(self)@),
    {
        let s = String::new();
        let ghost atom = AtomTextEdit { delete: range, insert: s };
        self.add(AtomTextEdit { delete: range, insert: s });
        assert(atom.insert@.len() == 0 && placed_in_order(old(self)@, atom, self@));
    }

    /// Put `text` at `offset`.
    pub fn insert(&mut self, offset: TextUnit, text: String)
        requires
            old(self).wf(),
            fits_among(old(self)@, TextRange { start: offset, end: offset }),
        ensures
            final(self).wf(),
            placed_in_order(
                old(self)@,
                (AtomTextEdit { delete: TextRange { start: offset, end: offset }, insert: text }),
                final(self)@,
            ),
    {
        self.add(AtomTextEdit { delete: TextRange::empty_at(offset), insert: text })
    }

    /// Add every atom of `edit`, each in its place.
    pub fn extend(&mut self, edit: TextEdit)
        requires
            old(self).wf(),
            edit.wf(),
            forall|i: int, m: int|
                0 <= i < old(self)@.len() && 0 <= m < edit@.len() ==> (#[trigger] old(self)@[i]).delete.is_disjoint_spec(
                    (#[trigger] edit@[m]).delete,
                ),
        ensures
            final(self).wf(),
            final(self)@ == place_all(old(self)@, edit@),
    {
        let ghost start = self@;
        let ghost added = edit@;
        let mut rest = edit.atoms;
        let n = rest.len();
        let mut k: usize = 0;
        while rest.len() > 0
            invariant
                n == added.len(),
                self.wf(),
                rest@ == added.subrange(k as int, added.len() as int),
                atoms_disjoint(added),
                0 <= k <= added.len(),
                self@ == place_all(start, added.subrange(0, k as int)),
                forall|i: int, m: int|
                    0 <= i < self@.len() && k <= m < added.len() ==> (#[trigger] self@[i]).delete.is_disjoint_spec(
                        (#[trigger] added[m]).delete,
                    ),
            decreases rest@.len(),
        {
            let atom = rest.remove(0);
            assert(atom == added[k as int]);
            let ghost before = self@;
            proof {
                assert(added[k as int].delete.wf());
                assert forall|i: int| 0 <= i < before.len() implies (#[trigger] before[i]).delete.is_disjoint_spec(
                    atom.delete,
                ) by {
                    assert(before[i].delete.is_disjoint_spec(added[k as int].delete));
                }
            }
            self.add(atom);
            proof {
                lemma_place_unique(before, atom, self@);
                let sub = added.subrange(0, k + 1);
                assert(sub.drop_last() =~= added.subrange(0, k as int));
                assert(sub.last() == atom);
                let after = self@;
                let p = choose|p: int|
                    0 <= p <= before.len() && after == before.insert(p, atom) && (forall|q: int|
                        0 <= q < p ==> (#[trigger] before[q]).delete.end <= atom.delete.start) && (forall|q: int|
                        p <= q < before.len() ==> (#[trigger] before[q]).delete.end > atom.delete.start);
                assert forall|i: int, m: int|
                    0 <= i < after.len() && k + 1 <= m < added.len() implies (#[trigger] after[i]).delete.is_disjoint_spec(
                    (#[trigger] added[m]).delete,
                ) by {
                    if i < p {
                        assert(after[i] == before[i]);
                    } else if i == p {
                        assert(added[k as int].delete.end <= added[m].delete.start);
                    } else {
                        assert(after[i] == before[i - 1]);
                    }
                }
            }
            k = k + 1;
            assert(rest@ =~= added.subrange(k as int, added.len() as int));
        }
        assert(added.subrange(0, k as int) =~= added);
    }

    /// The edit made of the atoms collected so far.
    pub fn finish(self) -> (r: TextEdit)
        requires
            self.wf(),
        ensures
            r@ == self@,
            r.wf(),
    {
        TextEdit { atoms: self.atoms }
    }
}

/// Applying one replacement gives the text before its range, the new text,
/// and the text after its range.
pub proof fn lemma_apply_single(text: Seq<char>, atom: AtomTextEdit)
    requires
        atom.delete.wf(),
        atom.delete.end <= text.len(),
    ensures
        apply_atoms(seq![atom], text) == text.subrange(0, atom.delete.start as int) + atom.insert@
            + text.subrange(atom.delete.end as int, text.len() as int),
{
    let s = seq![atom];
    assert(s.drop_last() =~= Seq::<AtomTextEdit>::empty());
    assert(s.last() == atom);
    let prefix = text.subrange(0, atom.delete.start as int);
    assert(apply_atoms(s.drop_last(), prefix) == prefix);
    assert(apply_atoms(s, text) == apply_atoms(s.drop_last(), prefix) + atom.insert@ + text.subrange(
        atom.delete.end as int,
        text.len() as int,
    ));
}

} // verus!
