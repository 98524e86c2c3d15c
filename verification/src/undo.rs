use vstd::prelude::*;

use crate::coords::{DocByte, StateId};

verus! {

/// One replacement in the document: at `global_byte_offset`, `deleted_text` was
/// replaced by `inserted_text`, moving the document from `state_before` to `state_after`.
#[derive(Debug)]
pub struct TextDelta {
    pub global_byte_offset: DocByte,
    pub deleted_text: String,
    pub inserted_text: String,
    pub state_before: StateId,
    pub state_after: StateId,
}

impl TextDelta {
    /// A field-by-field copy.
    pub fn duplicate(&self) -> (r: TextDelta)
        ensures
            r == *self,
    {
        TextDelta {
            global_byte_offset: self.global_byte_offset,
            deleted_text: self.deleted_text.clone(),
            inserted_text: self.inserted_text.clone(),
            state_before: self.state_before,
            state_after: self.state_after,
        }
    }
}

impl Clone for TextDelta {
    fn clone(&self) -> (r: TextDelta)
        ensures
            r == *self,
    {
        self.duplicate()
    }
}

/// The delta that undoes `d`: the same offset with deleted and inserted text swapped.
pub open spec fn inverse_delta(d: TextDelta) -> TextDelta {
    TextDelta {
        global_byte_offset: d.global_byte_offset,
        deleted_text: d.inserted_text,
        inserted_text: d.deleted_text,
        state_before: StateId(0),
        state_after: StateId(0),
    }
}

/// The deltas that undo a group: each delta inverted, in reverse order.
pub open spec fn inverse_group(g: Seq<TextDelta>) -> Seq<TextDelta> {
    Seq::new(g.len(), |i: int| inverse_delta(g[g.len() - 1 - i]))
}

/// A group with every delta stamped with the given state transition.
pub open spec fn stamp_group(g: Seq<TextDelta>, before: StateId, after: StateId) -> Seq<TextDelta> {
    g.map_values(
        |d: TextDelta|
            TextDelta {
                global_byte_offset: d.global_byte_offset,
                deleted_text: d.deleted_text,
                inserted_text: d.inserted_text,
                state_before: before,
                state_after: after,
            },
    )
}

/// The UTF-8 bytes of a string.
pub open spec fn text_bytes(s: String) -> Seq<u8> {
    vstd::utf8::encode_utf8(s@)
}

/// `a + b` on byte offsets, saturating at the largest offset.
pub open spec fn sat_add_u64(a: u64, b: int) -> u64 {
    if a + b > u64::MAX {
        u64::MAX
    } else {
        (a + b) as u64
    }
}

/// Undo history: groups of deltas that can be undone and redone as one transaction.
pub struct UndoLedger {
    undo_stack: Vec<Vec<TextDelta>>,
    redo_stack: Vec<Vec<TextDelta>>,
    current_state_id: StateId,
    saved_state_id: StateId,
    next_state_id: StateId,
}

impl UndoLedger {
    /// Groups that undo would revert, oldest first.
    pub closed spec fn undo_groups(&self) -> Seq<Seq<TextDelta>> {
        self.undo_stack@.map_values(|g: Vec<TextDelta>| g@)
    }

    /// Groups that redo would reapply, oldest first.
    pub closed spec fn redo_groups(&self) -> Seq<Seq<TextDelta>> {
        self.redo_stack@.map_values(|g: Vec<TextDelta>| g@)
    }

    /// The state the document is in.
    pub closed spec fn current_state(&self) -> StateId {
        self.current_state_id
    }

    /// The state that was last written to disk.
    pub closed spec fn saved_state(&self) -> StateId {
        self.saved_state_id
    }

    /// The state ID that the next forward transaction receives.
    pub closed spec fn next_state(&self) -> StateId {
        self.next_state_id
    }

    /// Every state id the history has handed out, and every id recorded in its groups,
    /// is below the id the next change receives.
    pub open spec fn wf(&self) -> bool {
        ledger_inv(self.model())
    }

    pub fn new() -> (r: Self)
        ensures
            r.wf(),
            r.undo_groups() == Seq::<Seq<TextDelta>>::empty(),
            r.redo_groups() == Seq::<Seq<TextDelta>>::empty(),
            r.current_state() == StateId(0),
            r.saved_state() == StateId(0),
            r.next_state() == StateId(1),
    {
        let r = UndoLedger {
            undo_stack: Vec::new(),
            redo_stack: Vec::new(),
            current_state_id: StateId(0),
            saved_state_id: StateId(0),
            next_state_id: StateId(1),
        };
        assert(r.undo_groups() =~= Seq::<Seq<TextDelta>>::empty());
        assert(r.redo_groups() =~= Seq::<Seq<TextDelta>>::empty());
        r
    }

    /// Allocate a single new state ID for a forward transaction group.
    /// Sets `state_before`/`state_after` on every delta in the group and advances
    /// `current_state_id` once for the whole transaction; clears the redo history.
    /// An empty group changes nothing.
    pub fn push_group(&mut self, deltas: Vec<TextDelta>)
        requires
            deltas@.len() > 0 ==> old(self).next_state().0 < u64::MAX,
        ensures
            old(self).wf() ==> final(self).wf(),
            final(self).model() == push_group_model(old(self).model(), deltas@),
            deltas@.len() == 0 ==> *final(self) == *old(self),
            deltas@.len() > 0 ==> {
                &&& final(self).undo_groups() == old(self).undo_groups().push(
                    stamp_group(deltas@, old(self).current_state(), old(self).next_state()),
                )
                &&& final(self).redo_groups() == Seq::<Seq<TextDelta>>::empty()
                &&& final(self).current_state() == old(self).next_state()
                &&& final(self).next_state().0 == old(self).next_state().0 + 1
                &&& final(self).saved_state() == old(self).saved_state()
            },
    {
        proof {
            if old(self).wf() {
                ledger_inv_kept(old(self).model(), deltas@);
            }
        }
        if deltas.len() == 0 {
            return;
        }
        let state_before = self.current_state_id;
        let state_after = self.next_state_id;
        let mut stamped: Vec<TextDelta> = Vec::new();
        let mut i: usize = 0;
        while i < deltas.len()
            invariant
                i <= deltas@.len(),
                stamped@ =~= stamp_group(deltas@.take(i as int), state_before, state_after),
            decreases deltas@.len() - i,
        {
            let d = &deltas[i];
            stamped.push(
                TextDelta {
                    global_byte_offset: d.global_byte_offset,
                    deleted_text: d.deleted_text.clone(),
                    inserted_text: d.inserted_text.clone(),
                    state_before,
                    state_after,
                },
            );
            assert(deltas@.take(i + 1) =~= deltas@.take(i as int).push(deltas@[i as int]));
            i = i + 1;
        }
        assert(deltas@.take(i as int) =~= deltas@);
        self.current_state_id = state_after;
        self.next_state_id = StateId(self.next_state_id.0 + 1);
        let ghost old_undo = self.undo_stack@;
        self.undo_stack.push(stamped);
        self.redo_stack.clear();
        assert(self.undo_groups() =~= old(self).undo_groups().push(
            stamp_group(deltas@, old(self).current_state(), old(self).next_state()),
        ));
        assert(self.redo_groups() =~= Seq::<Seq<TextDelta>>::empty());
    }

    /// Forget the whole history and return to the initial state.
    pub fn clear(&mut self)
        ensures
            final(self).wf(),
            final(self).undo_groups() == Seq::<Seq<TextDelta>>::empty(),
            final(self).redo_groups() == Seq::<Seq<TextDelta>>::empty(),
            final(self).current_state() == StateId(0),
            final(self).saved_state() == StateId(0),
            final(self).next_state() == StateId(1),
    {
        self.undo_stack.clear();
        self.redo_stack.clear();
        self.current_state_id = StateId(0);
        self.saved_state_id = StateId(0);
        self.next_state_id = StateId(1);
        assert(self.undo_groups() =~= Seq::<Seq<TextDelta>>::empty());
        assert(self.redo_groups() =~= Seq::<Seq<TextDelta>>::empty());
    }

    /// Mark the current state as the saved-to-disk state.
    pub fn mark_saved(&mut self)
        ensures
            old(self).wf() ==> final(self).wf(),
            final(self).saved_state() == old(self).current_state(),
            final(self).current_state() == old(self).current_state(),
            final(self).undo_groups() == old(self).undo_groups(),
            final(self).redo_groups() == old(self).redo_groups(),
            final(self).next_state() == old(self).next_state(),
    {
        proof {
            if old(self).wf() {
                ledger_inv_kept(old(self).model(), Seq::empty());
                assert(LedgerView { saved: old(self).model().current, ..old(self).model() }.saved
                    == old(self).current_state());
            }
        }
        self.saved_state_id = self.current_state_id;
    }

    /// The state the document is in.
    pub fn current_state_id(&self) -> (r: StateId)
        ensures
            r == self.current_state(),
    {
        self.current_state_id
    }

    /// The state that was last written to disk.
    pub fn saved_state_id(&self) -> (r: StateId)
        ensures
            r == self.saved_state(),
    {
        self.saved_state_id
    }

    /// True if the document has been modified since the last save.
    pub fn is_dirty(&self) -> (r: bool)
        ensures
            r == (self.current_state() != self.saved_state()),
    {
        self.current_state_id.0 != self.saved_state_id.0
    }

    /// Pop the most recent transaction group and return its inverse deltas in the
    /// correct sparse replay order, along with the cursor target byte.
    /// The group moves to the redo history; an empty group is dropped and yields `None`.
    pub fn undo(&mut self) -> (r: Option<(Vec<TextDelta>, DocByte)>)
        ensures
            old(self).wf() ==> final(self).wf(),
            final(self).model() == undo_model(old(self).model()).0,
            match r {
                Some((inv, cursor)) => undo_model(old(self).model()).1 == Some((inv@, cursor.0)),
                None => undo_model(old(self).model()).1 is None,
            },
            old(self).undo_groups().len() == 0 ==> r is None && *final(self) == *old(self),
            old(self).undo_groups().len() > 0 ==> {
                let g = old(self).undo_groups().last();
                &&& final(self).undo_groups() == old(self).undo_groups().drop_last()
                &&& final(self).saved_state() == old(self).saved_state()
                &&& final(self).next_state() == old(self).next_state()
                &&& (g.len() == 0 ==> r is None && final(self).redo_groups() == old(
                    self,
                ).redo_groups() && final(self).current_state() == old(self).current_state())
                &&& (g.len() > 0 ==> {
                    &&& r matches Some((inv, cursor)) && inv@ == inverse_group(g)
                        && cursor.0 == sat_add_u64(
                        g.last().global_byte_offset.0,
                        text_bytes(g.last().deleted_text).len() as int,
                    )
                    &&& final(self).redo_groups() == old(self).redo_groups().push(g)
                    &&& final(self).current_state() == g.last().state_before
                })
            },
    {
        let ghost old_undo = self.undo_stack@;
        proof {
            if old(self).wf() {
                ledger_inv_kept(old(self).model(), Seq::empty());
            }
        }
        if self.undo_stack.len() == 0 {
            return None;
        }
        let deltas = match self.undo_stack.pop() {
            Some(d) => d,
            None => {
                return None;
            },
        };
        proof {
            assert(self.undo_groups() =~= old(self).undo_groups().drop_last());
        }
        if deltas.len() == 0 {
            return None;
        }
        let last_delta = &deltas[deltas.len() - 1];
        let deleted_len = last_delta.deleted_text.as_str().as_bytes().len();
        let cursor_byte = last_delta.global_byte_offset.saturating_add(deleted_len as u64);
        self.current_state_id = last_delta.state_before;
        let mut inverse: Vec<TextDelta> = Vec::new();
        let mut i: usize = deltas.len();
        while i > 0
            invariant
                i <= deltas@.len(),
                inverse@.len() == deltas@.len() - i,
                forall|k: int|
                    0 <= k < inverse@.len() ==> #[trigger] inverse@[k] == inverse_delta(
                        deltas@[deltas@.len() - 1 - k],
                    ),
            decreases i,
        {
            i = i - 1;
            let d = &deltas[i];
            inverse.push(
                TextDelta {
                    global_byte_offset: d.global_byte_offset,
                    deleted_text: d.inserted_text.clone(),
                    inserted_text: d.deleted_text.clone(),
                    state_before: StateId(0),
                    state_after: StateId(0),
                },
            );
        }
        assert(inverse@ =~= inverse_group(deltas@));
        let ghost old_redo = self.redo_stack@;
        self.redo_stack.push(deltas);
        proof {
            assert(self.redo_groups() =~= old(self).redo_groups().push(
                old(self).undo_groups().last(),
            ));
        }
        Some((inverse, cursor_byte))
    }

    /// Pop the most recent undone transaction group and return its forward deltas
    /// for sparse replay, along with the cursor target byte.
    /// The group moves back to the undo history; an empty group is dropped and yields `None`.
    pub fn redo(&mut self) -> (r: Option<(Vec<TextDelta>, DocByte)>)
        ensures
            old(self).wf() ==> final(self).wf(),
            final(self).model() == redo_model(old(self).model()).0,
            match r {
                Some((fwd, cursor)) => redo_model(old(self).model()).1 == Some((fwd@, cursor.0)),
                None => redo_model(old(self).model()).1 is None,
            },
            old(self).redo_groups().len() == 0 ==> r is None && *final(self) == *old(self),
            old(self).redo_groups().len() > 0 ==> {
                let g = old(self).redo_groups().last();
                &&& final(self).redo_groups() == old(self).redo_groups().drop_last()
                &&& final(self).saved_state() == old(self).saved_state()
                &&& final(self).next_state() == old(self).next_state()
                &&& (g.len() == 0 ==> r is None && final(self).undo_groups() == old(
                    self,
                ).undo_groups() && final(self).current_state() == old(self).current_state())
                &&& (g.len() > 0 ==> {
                    &&& r matches Some((fwd, cursor)) && fwd@ == g && cursor.0 == sat_add_u64(
                        g.last().global_byte_offset.0,
                        text_bytes(g.last().inserted_text).len() as int,
                    )
                    &&& final(self).undo_groups() == old(self).undo_groups().push(g)
                    &&& final(self).current_state() == g.last().state_after
                })
            },
    {
        proof {
            if old(self).wf() {
                ledger_inv_kept(old(self).model(), Seq::empty());
            }
        }
        if self.redo_stack.len() == 0 {
            return None;
        }
        let deltas = match self.redo_stack.pop() {
            Some(d) => d,
            None => {
                return None;
            },
        };
        proof {
            assert(self.redo_groups() =~= old(self).redo_groups().drop_last());
        }
        if deltas.len() == 0 {
            return None;
        }
        let last_delta = &deltas[deltas.len() - 1];
        let inserted_len = last_delta.inserted_text.as_str().as_bytes().len();
        let cursor_byte = last_delta.global_byte_offset.saturating_add(inserted_len as u64);
        self.current_state_id = last_delta.state_after;
        let mut copy: Vec<TextDelta> = Vec::new();
        let mut i: usize = 0;
        while i < deltas.len()
            invariant
                i <= deltas@.len(),
                copy@ =~= deltas@.take(i as int),
            decreases deltas@.len() - i,
        {
            copy.push(deltas[i].duplicate());
            assert(deltas@.take(i + 1) =~= deltas@.take(i as int).push(deltas@[i as int]));
            i = i + 1;
        }
        assert(deltas@.take(i as int) =~= deltas@);
        self.undo_stack.push(copy);
        proof {
            assert(self.undo_groups() =~= old(self).undo_groups().push(
                old(self).redo_groups().last(),
            ));
        }
        Some((deltas, cursor_byte))
    }
}

/// The history as plain values: the groups undo and redo would take, most recent
/// last, and the three state ids.
pub struct LedgerView {
    pub undo: Seq<Seq<TextDelta>>,
    pub redo: Seq<Seq<TextDelta>>,
    pub current: StateId,
    pub saved: StateId,
    pub next: StateId,
}

impl UndoLedger {
    /// The history as plain values.
    pub open spec fn model(&self) -> LedgerView {
        LedgerView {
            undo: self.undo_groups(),
            redo: self.redo_groups(),
            current: self.current_state(),
            saved: self.saved_state(),
            next: self.next_state(),
        }
    }
}

/// The history after recording group `g`; an empty group changes nothing.
pub open spec fn push_group_model(m: LedgerView, g: Seq<TextDelta>) -> LedgerView {
    if g.len() == 0 {
        m
    } else {
        LedgerView {
            undo: m.undo.push(stamp_group(g, m.current, m.next)),
            redo: Seq::empty(),
            current: m.next,
            saved: m.saved,
            next: StateId((m.next.0 + 1) as u64),
        }
    }
}

/// The history after an undo, and what the undo hands back: the inverse deltas and
/// the cursor byte, or nothing.
pub open spec fn undo_model(m: LedgerView) -> (LedgerView, Option<(Seq<TextDelta>, u64)>) {
    if m.undo.len() == 0 {
        (m, None)
    } else {
        let g = m.undo.last();
        if g.len() == 0 {
            (LedgerView { undo: m.undo.drop_last(), ..m }, None)
        } else {
            (
                LedgerView {
                    undo: m.undo.drop_last(),
                    redo: m.redo.push(g),
                    current: g.last().state_before,
                    ..m
                },
                Some(
                    (
                        inverse_group(g),
                        sat_add_u64(
                            g.last().global_byte_offset.0,
                            text_bytes(g.last().deleted_text).len() as int,
                        ),
                    ),
                ),
            )
        }
    }
}

/// The history after a redo, and what the redo hands back: the deltas to replay and
/// the cursor byte, or nothing.
pub open spec fn redo_model(m: LedgerView) -> (LedgerView, Option<(Seq<TextDelta>, u64)>) {
    if m.redo.len() == 0 {
        (m, None)
    } else {
        let g = m.redo.last();
        if g.len() == 0 {
            (LedgerView { redo: m.redo.drop_last(), ..m }, None)
        } else {
            (
                LedgerView {
                    redo: m.redo.drop_last(),
                    undo: m.undo.push(g),
                    current: g.last().state_after,
                    ..m
                },
                Some(
                    (
                        g,
                        sat_add_u64(
                            g.last().global_byte_offset.0,
                            text_bytes(g.last().inserted_text).len() as int,
                        ),
                    ),
                ),
            )
        }
    }
}

/// Whether a history's document differs from what was saved.
pub open spec fn dirty_model(m: LedgerView) -> bool {
    m.current != m.saved
}

/// Undoing a group just recorded brings back the state before it, hands back the
/// inverse of the group (each delta inverted, in reverse order), and leaves the rest of
/// the history as it was, with the group ready to be redone.
pub proof fn undo_reverts_push(m: LedgerView, g: Seq<TextDelta>)
    requires
        g.len() > 0,
    ensures
        ({
            let pushed = push_group_model(m, g);
            let (undone, out) = undo_model(pushed);
            &&& undone.current == m.current
            &&& undone.undo == m.undo
            &&& undone.redo == seq![stamp_group(g, m.current, m.next)]
            &&& out matches Some((inverse, _)) && inverse == inverse_group(
                stamp_group(g, m.current, m.next),
            )
            &&& undone.saved == m.saved
            &&& dirty_model(undone) == dirty_model(m)
        }),
{
    let pushed = push_group_model(m, g);
    let stamped = stamp_group(g, m.current, m.next);
    assert(pushed.undo.drop_last() =~= m.undo);
    assert(stamped.last().state_before == m.current);
    assert(Seq::<Seq<TextDelta>>::empty().push(stamped) =~= seq![stamped]);
}

/// Redoing what was just undone gives back the history as it was, when the document
/// was in the state the undone group led to.
pub proof fn redo_reverts_undo(m: LedgerView)
    requires
        m.undo.len() > 0,
        m.undo.last().len() > 0,
        m.current == m.undo.last().last().state_after,
    ensures
        redo_model(undo_model(m).0).0 == m,
        redo_model(undo_model(m).0).1 matches Some((forward, _)) && forward == m.undo.last(),
{
    let (u, _) = undo_model(m);
    assert(u.redo.drop_last() =~= m.redo);
    assert(u.undo.push(m.undo.last()) =~= m.undo);
}

/// Recording a group, undoing it and redoing it gives back the history right after the
/// recording: the redo hands back the recorded group, deltas in their order, with the
/// cursor past the text its last delta inserted, and undoing once more hands back the
/// same inverse deltas as the first undo.
pub proof fn push_undo_redo_round_trip(m: LedgerView, g: Seq<TextDelta>)
    requires
        g.len() > 0,
    ensures
        ({
            let st = stamp_group(g, m.current, m.next);
            let p = push_group_model(m, g);
            let (u, first) = undo_model(p);
            let (r, replay) = redo_model(u);
            &&& r == p
            &&& r.current == p.current
            &&& replay == Some(
                (
                    st,
                    sat_add_u64(
                        st.last().global_byte_offset.0,
                        text_bytes(st.last().inserted_text).len() as int,
                    ),
                ),
            )
            &&& undo_model(r) == (u, first)
        }),
{
    let st = stamp_group(g, m.current, m.next);
    let p = push_group_model(m, g);
    assert(p.undo.last() == st);
    assert(st.last().state_after == m.next);
    redo_reverts_undo(p);
}

/// Right after a save the document is clean.
pub proof fn saved_is_clean(m: LedgerView)
    ensures
        !dirty_model(LedgerView { saved: m.current, ..m }),
{
}

/// The inverse of the inverse of a group is the group itself, up to the state ids
/// that inversion clears.
pub proof fn inverse_group_involutive(g: Seq<TextDelta>)
    ensures
        inverse_group(inverse_group(g)).len() == g.len(),
        forall|i: int|
            0 <= i < g.len() ==> {
                let d = #[trigger] inverse_group(inverse_group(g))[i];
                &&& d.global_byte_offset == g[i].global_byte_offset
                &&& d.deleted_text == g[i].deleted_text
                &&& d.inserted_text == g[i].inserted_text
            },
{
}

/// Every id recorded in group `g` is below `next`.
pub open spec fn group_ids_below(g: Seq<TextDelta>, next: u64) -> bool {
    forall|j: int|
        0 <= j < g.len() ==> (#[trigger] g[j]).state_before.0 < next && g[j].state_after.0 < next
}

/// The current and saved states, and every id recorded in the history, are below the id
/// the next change receives.
pub open spec fn ledger_inv(m: LedgerView) -> bool {
    &&& m.current.0 < m.next.0
    &&& m.saved.0 < m.next.0
    &&& forall|i: int| 0 <= i < m.undo.len() ==> group_ids_below(#[trigger] m.undo[i], m.next.0)
    &&& forall|i: int| 0 <= i < m.redo.len() ==> group_ids_below(#[trigger] m.redo[i], m.next.0)
}

/// Recording, undoing, redoing and saving keep the ids of the history below the next id.
pub proof fn ledger_inv_kept(m: LedgerView, g: Seq<TextDelta>)
    requires
        ledger_inv(m),
    ensures
        g.len() > 0 && m.next.0 < u64::MAX ==> ledger_inv(push_group_model(m, g)),
        ledger_inv(undo_model(m).0),
        ledger_inv(redo_model(m).0),
        ledger_inv(LedgerView { saved: m.current, ..m }),
{
    if g.len() > 0 && m.next.0 < u64::MAX {
        let p = push_group_model(m, g);
        let st = stamp_group(g, m.current, m.next);
        assert(group_ids_below(st, p.next.0));
        assert forall|i: int| 0 <= i < p.undo.len() implies group_ids_below(
            #[trigger] p.undo[i],
            p.next.0,
        ) by {
            if i < m.undo.len() {
                assert(group_ids_below(m.undo[i], m.next.0));
            }
        }
    }
    if m.undo.len() > 0 {
        let u = undo_model(m).0;
        let gl = m.undo.last();
        assert(group_ids_below(gl, m.next.0));
        if gl.len() > 0 {
            assert(gl[gl.len() - 1].state_before.0 < m.next.0);
        }
        assert forall|i: int| 0 <= i < u.redo.len() implies group_ids_below(
            #[trigger] u.redo[i],
            u.next.0,
        ) by {
            if i < m.redo.len() {
                assert(group_ids_below(m.redo[i], m.next.0));
            }
        }
        assert forall|i: int| 0 <= i < u.undo.len() implies group_ids_below(
            #[trigger] u.undo[i],
            u.next.0,
        ) by {
            assert(group_ids_below(m.undo[i], m.next.0));
        }
    }
    if m.redo.len() > 0 {
        let r = redo_model(m).0;
        let gl = m.redo.last();
        assert(group_ids_below(gl, m.next.0));
        if gl.len() > 0 {
            assert(gl[gl.len() - 1].state_after.0 < m.next.0);
        }
        assert forall|i: int| 0 <= i < r.undo.len() implies group_ids_below(
            #[trigger] r.undo[i],
            r.next.0,
        ) by {
            if i < m.undo.len() {
                assert(group_ids_below(m.undo[i], m.next.0));
            }
        }
        assert forall|i: int| 0 <= i < r.redo.len() implies group_ids_below(
            #[trigger] r.redo[i],
            r.next.0,
        ) by {
            assert(group_ids_below(m.redo[i], m.next.0));
        }
    }
}

/// After a save, recording a change makes the document dirty, undoing it makes it clean
/// again, and redoing it makes it dirty once more.
pub proof fn save_edit_undo_redo_dirty(m: LedgerView, g: Seq<TextDelta>)
    requires
        ledger_inv(m),
        g.len() > 0,
        m.next.0 < u64::MAX,
    ensures
        ({
            let saved = LedgerView { saved: m.current, ..m };
            let p = push_group_model(saved, g);
            let u = undo_model(p).0;
            let r = redo_model(u).0;
            &&& dirty_model(p)
            &&& !dirty_model(u)
            &&& dirty_model(r)
        }),
{
    let saved = LedgerView { saved: m.current, ..m };
    let p = push_group_model(saved, g);
    let st = stamp_group(g, saved.current, saved.next);
    assert(p.undo.last() == st);
    assert(st.last().state_before == m.current);
    assert(st.last().state_after == m.next);
    let u = undo_model(p).0;
    assert(u.redo.last() == st);
}

} // verus!
