use vstd::prelude::*;
use crate::grid::Grid;
use crate::replay::{
    apply_all, fits_all, lemma_apply_all_wf, lemma_apply_push, lemma_apply_split, lemma_fits_prefix,
    Edit,
};

verus! {

/// How many edits are folded into the checkpoint at a time.
pub const COMMAND_EXCUTE_GAP: usize = 16;

/// The number of full batches in a log of `len` edits.
pub open spec fn batches(len: nat) -> int {
    (len as int) / (COMMAND_EXCUTE_GAP as int)
}

/// The state of an edit history as a mathematical value: the edits in
/// force, the edits that were undone, and a checkpoint, which stands for the
/// base canvas with the first `checkpoint_boundary` batches of edits
/// applied.
pub struct Timeline {
    pub edit_log: Seq<Edit>,
    pub redo_stack: Seq<Edit>,
    pub checkpoint: Option<Grid>,
    pub checkpoint_boundary: int,
}

impl Timeline {
    /// The number of edits that the checkpoint covers.
    pub open spec fn covered(self) -> int {
        self.checkpoint_boundary * COMMAND_EXCUTE_GAP as int
    }

    /// The checkpoint covers a prefix of the log, and covers nothing when
    /// there is none.
    pub open spec fn wf(self) -> bool {
        &&& 0 <= self.checkpoint_boundary
        &&& self.covered() <= self.edit_log.len()
        &&& self.checkpoint is None ==> self.checkpoint_boundary == 0
        &&& self.checkpoint is Some ==> self.checkpoint->0.wf()
    }

    /// The checkpoint, where there is one, is `base` with the covered edits
    /// applied.
    pub open spec fn consistent(self, base: Grid) -> bool {
        self.checkpoint is Some ==> self.checkpoint->0 == apply_all(
            base,
            self.edit_log.subrange(0, self.covered()),
        )
    }

    /// The history with nothing in it.
    pub open spec fn empty() -> Timeline {
        Timeline {
            edit_log: Seq::empty(),
            redo_stack: Seq::empty(),
            checkpoint: None,
            checkpoint_boundary: 0,
        }
    }

    /// The history after `e` was pushed: `e` is appended and the undone
    /// edits are forgotten, unless `e` repeats the last edit.
    pub open spec fn push(self, e: Edit) -> Timeline {
        if self.edit_log.len() == 0 || self.edit_log.last() != e {
            Timeline { edit_log: self.edit_log.push(e), redo_stack: Seq::empty(), ..self }
        } else {
            self
        }
    }

    /// The history after an undo: the last edit moves to the undone ones,
    /// and a checkpoint that covered it is dropped.
    pub open spec fn undo(self) -> Timeline {
        if self.edit_log.len() > 0 {
            let edit_log = self.edit_log.drop_last();
            let redo_stack = self.redo_stack.push(self.edit_log.last());
            if batches(edit_log.len()) < self.checkpoint_boundary {
                Timeline { edit_log, redo_stack, checkpoint: None, checkpoint_boundary: 0 }
            } else {
                Timeline { edit_log, redo_stack, ..self }
            }
        } else {
            self
        }
    }

    /// The history after a redo: the edit undone last is in force again.
    pub open spec fn redo(self) -> Timeline {
        if self.redo_stack.len() > 0 {
            Timeline {
                edit_log: self.edit_log.push(self.redo_stack.last()),
                redo_stack: self.redo_stack.drop_last(),
                ..self
            }
        } else {
            self
        }
    }

    /// The history with the undone edits forgotten.
    pub open spec fn clear_undo(self) -> Timeline {
        Timeline { redo_stack: Seq::empty(), ..self }
    }

    /// Every edit that is in force or can be brought back, in the order in
    /// which they were made.
    pub open spec fn whole(self) -> Seq<Edit> {
        self.edit_log + self.redo_stack.reverse()
    }

    /// What rendering over `base` shows: `base` with every edit in force
    /// applied.
    pub open spec fn render(self, base: Grid) -> Grid {
        apply_all(base, self.edit_log)
    }

    /// The history after rendering over `base`: the checkpoint covers every
    /// full batch of the log.
    pub open spec fn rendered(self, base: Grid) -> Timeline {
        let boundary = batches(self.edit_log.len());
        Timeline {
            checkpoint: Some(
                apply_all(base, self.edit_log.subrange(0, boundary * COMMAND_EXCUTE_GAP as int)),
            ),
            checkpoint_boundary: boundary,
            ..self
        }
    }
}

/// In a history with edits in force, an undo followed straight away by a
/// redo restores both the edits in force and the undone ones.
pub proof fn lemma_undo_redo(t: Timeline)
    requires
        t.edit_log.len() > 0,
    ensures
        t.undo().redo().edit_log == t.edit_log,
        t.undo().redo().redo_stack == t.redo_stack,
{
    let u = t.undo();
    assert(u.redo_stack.last() == t.edit_log.last());
    assert(u.edit_log.push(u.redo_stack.last()) =~= t.edit_log);
    assert(u.redo_stack.drop_last() =~= t.redo_stack);
}

/// Pushing an edit and undoing it straight away leaves what rendering shows
/// unchanged. An edit that repeats the last one is not appended, so the undo
/// then takes that last edit away: in that case the law holds only where
/// that edit changed nothing.
pub proof fn lemma_push_undo_render(t: Timeline, e: Edit, base: Grid)
    requires
        t.edit_log.len() == 0 || t.edit_log.last() != e || apply_all(base, t.edit_log.drop_last())
            == apply_all(base, t.edit_log),
    ensures
        t.push(e).undo().render(base) == t.render(base),
{
    if t.edit_log.len() == 0 || t.edit_log.last() != e {
        assert(t.edit_log.push(e).drop_last() =~= t.edit_log);
    }
}

/// A history that can be rendered over a base can be rendered over it again
/// after a push that is undone straight away: it stays well formed, its
/// checkpoint stays consistent with the base, and its edits still fit the
/// base in turn. The edit that was pushed need not fit anything: it is gone
/// before the next rendering.
pub proof fn lemma_push_undo_keeps(t: Timeline, e: Edit, base: Grid)
    requires
        t.wf(),
        t.consistent(base),
        fits_all(base, t.edit_log),
    ensures
        t.push(e).undo().wf(),
        t.push(e).undo().consistent(base),
        fits_all(base, t.push(e).undo().edit_log),
        t.edit_log.len() == 0 || t.edit_log.last() != e ==> t.push(e).undo().edit_log == t.edit_log,
{
    lemma_push_keeps(t, e, base);
    lemma_undo_keeps(t.push(e), base);
    if t.edit_log.len() == 0 || t.edit_log.last() != e {
        assert(t.edit_log.push(e).drop_last() =~= t.edit_log);
    } else {
        lemma_fits_prefix(base, t.edit_log, t.edit_log.len() - 1);
    }
}

/// Pushing an edit that repeats the last one changes nothing: after a push,
/// a second push of the same edit leaves the log as long as it was.
pub proof fn lemma_push_twice(t: Timeline, e: Edit)
    ensures
        t.push(e).push(e) == t.push(e),
        t.push(e).push(e).edit_log.len() == t.push(e).edit_log.len(),
{
}

/// Pushing keeps a history well formed and its checkpoint consistent with
/// the base.
pub proof fn lemma_push_keeps(t: Timeline, e: Edit, base: Grid)
    requires
        t.wf(),
    ensures
        t.push(e).wf(),
        t.consistent(base) ==> t.push(e).consistent(base),
{
    assert(t.edit_log.push(e).subrange(0, t.covered()) =~= t.edit_log.subrange(0, t.covered()));
}

/// Undoing keeps a history well formed and its checkpoint consistent with
/// the base.
pub proof fn lemma_undo_keeps(t: Timeline, base: Grid)
    requires
        t.wf(),
    ensures
        t.undo().wf(),
        t.consistent(base) ==> t.undo().consistent(base),
{
    if t.edit_log.len() > 0 {
        let shorter = t.edit_log.drop_last();
        if !(batches(shorter.len()) < t.checkpoint_boundary) {
            assert(t.covered() <= shorter.len());
            assert(shorter.subrange(0, t.covered()) =~= t.edit_log.subrange(0, t.covered()));
        }
    }
}

/// Redoing keeps a history well formed and its checkpoint consistent with
/// the base.
pub proof fn lemma_redo_keeps(t: Timeline, base: Grid)
    requires
        t.wf(),
    ensures
        t.redo().wf(),
        t.consistent(base) ==> t.redo().consistent(base),
{
    if t.redo_stack.len() > 0 {
        let longer = t.edit_log.push(t.redo_stack.last());
        assert(longer.subrange(0, t.covered()) =~= t.edit_log.subrange(0, t.covered()));
    }
}

/// Undo and redo move edits between the log and the undone ones and lose
/// none: the edits of both together stay what they were. So where they all
/// fit a base in turn, the log can be rendered over it after any number of
/// undos and redos.
pub proof fn lemma_undo_redo_keep_whole(t: Timeline, base: Grid)
    ensures
        t.undo().whole() == t.whole(),
        t.redo().whole() == t.whole(),
        fits_all(base, t.whole()) ==> fits_all(base, t.edit_log),
{
    if t.edit_log.len() > 0 {
        let u = t.undo();
        assert(u.redo_stack.reverse() =~= seq![t.edit_log.last()] + t.redo_stack.reverse());
        assert(u.whole() =~= t.whole());
    }
    if t.redo_stack.len() > 0 {
        let r = t.redo();
        assert(t.redo_stack.reverse() =~= seq![t.redo_stack.last()] + r.redo_stack.reverse());
        assert(r.whole() =~= t.whole());
    }
    if fits_all(base, t.whole()) {
        lemma_fits_prefix(base, t.whole(), t.edit_log.len() as int);
        assert(t.whole().subrange(0, t.edit_log.len() as int) =~= t.edit_log);
    }
}

/// After a push that appends an edit, the log is all there is; the edits
/// fit a base in turn where the log before did and the new edit fits what
/// the log showed.
pub proof fn lemma_push_whole(t: Timeline, e: Edit, base: Grid)
    requires
        t.edit_log.len() == 0 || t.edit_log.last() != e,
    ensures
        t.push(e).whole() == t.edit_log.push(e),
        fits_all(base, t.push(e).whole()) == (fits_all(base, t.edit_log) && e.fits(t.render(base))),
{
    let p = t.push(e);
    assert(p.redo_stack.reverse() =~= Seq::empty());
    assert(p.whole() =~= t.edit_log.push(e));
    lemma_apply_push(base, t.edit_log, e);
}

/// Rendering leaves a well-formed history whose checkpoint is consistent
/// with the base it was rendered over.
pub proof fn lemma_rendered_keeps(t: Timeline, base: Grid)
    requires
        t.wf(),
        base.wf(),
        fits_all(base, t.edit_log),
    ensures
        t.rendered(base).wf(),
        t.rendered(base).consistent(base),
{
    let boundary = batches(t.edit_log.len());
    let covered = boundary * COMMAND_EXCUTE_GAP as int;
    lemma_fits_prefix(base, t.edit_log, covered);
    lemma_apply_all_wf(base, t.edit_log.subrange(0, covered));
}

/// The checkpoint of a consistent history, brought forward over the edits
/// between its boundary and a later one, is the base with all edits up to
/// the later boundary applied; and the edits after a boundary, applied to
/// such a checkpoint, give what rendering shows.
pub proof fn lemma_checkpoint_advance(base: Grid, log: Seq<Edit>, from: int, to: int)
    requires
        0 <= from <= to <= log.len(),
        fits_all(base, log),
    ensures
        fits_all(apply_all(base, log.subrange(0, from)), log.subrange(from, to)),
        apply_all(apply_all(base, log.subrange(0, from)), log.subrange(from, to)) == apply_all(
            base,
            log.subrange(0, to),
        ),
{
    let upto = log.subrange(0, to);
    lemma_fits_prefix(base, log, to);
    lemma_apply_split(base, upto, from);
    assert(upto.subrange(0, from) =~= log.subrange(0, from));
    assert(upto.subrange(from, upto.len() as int) =~= log.subrange(from, to));
}

} // verus!
