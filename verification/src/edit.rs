//! The event-sourced edit document: every change is an operation appended
//! after `head`, and the shot list is always what replaying the operations
//! up to `head` from an empty timeline produces.
use vstd::prelude::*;

use crate::models::{
    DocView, EditDocument, EditOp, EditOpKind, EditSnapshot, NoteView, OpKindView, OpView, Shot,
    ShotNote, ShotRange, ShotView,
};
use crate::text::{dec, dec_pad, push_dec, push_dec_pad, push_str, str_eq};

verus! {

broadcast use vstd::string::group_string_axioms;

// ---------------------------------------------------------------------------
// Errors
// ---------------------------------------------------------------------------

#[derive(Debug, Clone, PartialEq)]
pub enum EditError {
    ShotNotFound(String),
    PositionOutOfBounds { position: usize, max: usize },
    InvalidRange(String),
    NothingToUndo,
    NothingToRedo,
}

/// The message of an edit error.
pub open spec fn edit_error_message(e: EditError) -> Seq<char> {
    match e {
        EditError::ShotNotFound(id) => "shot not found: "@ + id@,
        EditError::PositionOutOfBounds { position, max } => "position out of bounds: "@ + dec(
            position as nat,
        ) + " (max: "@ + dec(max as nat) + ")"@,
        EditError::InvalidRange(m) => "invalid range: "@ + m@,
        EditError::NothingToUndo => "nothing to undo"@,
        EditError::NothingToRedo => "nothing to redo"@,
    }
}

impl EditError {
    /// The human-readable message of this error.
    pub fn to_string(&self) -> (r: String)
        ensures
            r@ == edit_error_message(*self),
    {
        let mut s = String::new();
        match self {
            EditError::ShotNotFound(id) => {
                push_str(&mut s, "shot not found: ");
                push_str(&mut s, id.as_str());
            },
            EditError::PositionOutOfBounds { position, max } => {
                push_str(&mut s, "position out of bounds: ");
                push_dec(&mut s, *position as u64);
                push_str(&mut s, " (max: ");
                push_dec(&mut s, *max as u64);
                push_str(&mut s, ")");
            },
            EditError::InvalidRange(m) => {
                push_str(&mut s, "invalid range: ");
                push_str(&mut s, m.as_str());
            },
            EditError::NothingToUndo => {
                push_str(&mut s, "nothing to undo");
            },
            EditError::NothingToRedo => {
                push_str(&mut s, "nothing to redo");
            },
        }
        s
    }
}

// ---------------------------------------------------------------------------
// Ranges
// ---------------------------------------------------------------------------

/// The two ends of a range, whatever its kind.
pub open spec fn range_ends(r: ShotRange) -> (int, int) {
    match r {
        ShotRange::Words { from, to } => (from as int, to as int),
        ShotRange::Scenes { from, to } => (from as int, to as int),
        ShotRange::Time { from_ms, to_ms } => (from_ms as int, to_ms as int),
    }
}

/// A range is proper when it starts strictly before it ends.
pub open spec fn range_proper(r: ShotRange) -> bool {
    range_ends(r).0 < range_ends(r).1
}

/// Why a range that is not proper is refused.
pub open spec fn range_problem(r: ShotRange) -> Seq<char> {
    let (from, to) = range_ends(r);
    if from > to {
        match r {
            ShotRange::Time { .. } => "from ("@ + dec(from as nat) + "ms) must be <= to ("@ + dec(
                to as nat,
            ) + "ms)"@,
            _ => "from ("@ + dec(from as nat) + ") must be <= to ("@ + dec(to as nat) + ")"@,
        }
    } else {
        "range has zero duration"@
    }
}

/// Validate that a range has correct ordering (from <= to) and non-zero duration.
pub fn validate_range(range: &ShotRange) -> (r: Result<(), EditError>)
    ensures
        r is Ok <==> range_proper(*range),
        r matches Err(e) ==> e matches EditError::InvalidRange(m) && m@ == range_problem(*range),
{
    let (from, to, unit): (u64, u64, bool) = match range {
        ShotRange::Words { from, to } => (*from as u64, *to as u64, false),
        ShotRange::Scenes { from, to } => (*from as u64, *to as u64, false),
        ShotRange::Time { from_ms, to_ms } => (*from_ms, *to_ms, true),
    };
    if from > to {
        let mut m = String::new();
        push_str(&mut m, "from (");
        push_dec(&mut m, from);
        if unit {
            push_str(&mut m, "ms) must be <= to (");
        } else {
            push_str(&mut m, ") must be <= to (");
        }
        push_dec(&mut m, to);
        if unit {
            push_str(&mut m, "ms)");
        } else {
            push_str(&mut m, ")");
        }
        return Err(EditError::InvalidRange(m));
    }
    if from == to {
        let mut m = String::new();
        push_str(&mut m, "range has zero duration");
        return Err(EditError::InvalidRange(m));
    }
    Ok(())
}

// ---------------------------------------------------------------------------
// The replay model
// ---------------------------------------------------------------------------

/// Position of the first shot with identifier `id`, or -1.
pub open spec fn index_of_id(shots: Seq<ShotView>, id: Seq<char>) -> int
    decreases shots.len(),
{
    if shots.len() == 0 {
        -1
    } else {
        let k = index_of_id(shots.drop_last(), id);
        if k >= 0 {
            k
        } else if shots.last().id == id {
            shots.len() - 1
        } else {
            -1
        }
    }
}

/// `index_of_id` finds the first shot with the identifier, or reports that none has it.
pub proof fn lemma_index_of_id(shots: Seq<ShotView>, id: Seq<char>)
    ensures
        -1 <= index_of_id(shots, id) < shots.len(),
        index_of_id(shots, id) >= 0 ==> shots[index_of_id(shots, id)].id == id,
        forall|j: int|
            0 <= j < shots.len() && (index_of_id(shots, id) < 0 || j < index_of_id(shots, id))
                ==> #[trigger] shots[j].id != id,
    decreases shots.len(),
{
    if shots.len() > 0 {
        lemma_index_of_id(shots.drop_last(), id);
        let p = shots.drop_last();
        assert forall|j: int|
            0 <= j < shots.len() && (index_of_id(shots, id) < 0 || j < index_of_id(shots, id))
                implies #[trigger] shots[j].id != id by {
            if j < shots.len() - 1 {
                assert(shots[j] == p[j]);
            }
        }
    }
}

/// The shot list after applying one operation.
pub open spec fn apply_op(shots: Seq<ShotView>, op: OpKindView) -> Seq<ShotView> {
    match op {
        OpKindView::AddShot { shot } => shots.push(shot),
        OpKindView::RemoveShot { shot_id, .. } => {
            let k = index_of_id(shots, shot_id);
            if k >= 0 {
                shots.remove(k)
            } else {
                shots
            }
        },
        OpKindView::MoveShot { shot_id, to_position, .. } => {
            let k = index_of_id(shots, shot_id);
            if k >= 0 {
                shots.remove(k).insert(to_position as int, shots[k])
            } else {
                shots
            }
        },
        OpKindView::TrimShot { shot_id, new_range, .. } => {
            let k = index_of_id(shots, shot_id);
            if k >= 0 {
                shots.update(k, ShotView { range: new_range, ..shots[k] })
            } else {
                shots
            }
        },
        OpKindView::ReplaceRangeType { shot_id, new_range, .. } => {
            let k = index_of_id(shots, shot_id);
            if k >= 0 {
                shots.update(k, ShotView { range: new_range, ..shots[k] })
            } else {
                shots
            }
        },
        OpKindView::AddNote { shot_id, note } => {
            let k = index_of_id(shots, shot_id);
            if k >= 0 {
                shots.update(k, ShotView { notes: shots[k].notes.push(note), ..shots[k] })
            } else {
                shots
            }
        },
    }
}

/// Whether an operation can be applied: a move must land inside the list.
pub open spec fn op_applicable(shots: Seq<ShotView>, op: OpKindView) -> bool {
    match op {
        OpKindView::MoveShot { shot_id, to_position, .. } => index_of_id(shots, shot_id) >= 0
            ==> (to_position as int) < shots.len(),
        _ => true,
    }
}

/// The shot list after replaying the first `n` operations from an empty timeline.
pub open spec fn replay(ops: Seq<OpView>, n: nat) -> Seq<ShotView>
    decreases n,
{
    if n == 0 {
        Seq::empty()
    } else {
        apply_op(replay(ops, (n - 1) as nat), ops[n - 1].op)
    }
}

/// Whether each of the first `n` operations can be applied in turn.
pub open spec fn replayable(ops: Seq<OpView>, n: nat) -> bool
    decreases n,
{
    if n == 0 {
        true
    } else {
        replayable(ops, (n - 1) as nat) && op_applicable(replay(ops, (n - 1) as nat), ops[n
            - 1].op)
    }
}

/// The shot list that `head` selects: the replay of `ops[0..=head]`.
pub open spec fn snapshot_at(ops: Seq<OpView>, head: int) -> Seq<ShotView> {
    if head < 0 {
        Seq::empty()
    } else {
        replay(ops, (head + 1) as nat)
    }
}

/// Each operation adds at most one shot.
pub proof fn lemma_replay_len(ops: Seq<OpView>, n: nat)
    requires
        n <= ops.len(),
        replayable(ops, n),
    ensures
        replay(ops, n).len() <= n,
    decreases n,
{
    if n > 0 {
        lemma_replay_len(ops, (n - 1) as nat);
        let prev = replay(ops, (n - 1) as nat);
        match ops[n - 1].op {
            OpKindView::AddShot { .. } => {},
            OpKindView::RemoveShot { shot_id, .. } => {
                lemma_index_of_id(prev, shot_id);
            },
            OpKindView::MoveShot { shot_id, .. } => {
                lemma_index_of_id(prev, shot_id);
            },
            OpKindView::TrimShot { shot_id, .. } => {
                lemma_index_of_id(prev, shot_id);
            },
            OpKindView::ReplaceRangeType { shot_id, .. } => {
                lemma_index_of_id(prev, shot_id);
            },
            OpKindView::AddNote { shot_id, .. } => {
                lemma_index_of_id(prev, shot_id);
            },
        }
    }
}

/// Replayability of a prefix follows from that of a longer one.
pub proof fn lemma_replayable_prefix(ops: Seq<OpView>, n: nat, m: nat)
    requires
        replayable(ops, n),
        m <= n,
    ensures
        replayable(ops, m),
    decreases n,
{
    if m < n {
        lemma_replayable_prefix(ops, (n - 1) as nat, m);
    }
}

/// Replaying a prefix only reads the prefix.
pub proof fn lemma_replay_prefix(ops: Seq<OpView>, more: Seq<OpView>, n: nat)
    requires
        n <= ops.len(),
    ensures
        replay(ops + more, n) == replay(ops, n),
        replayable(ops + more, n) == replayable(ops, n),
    decreases n,
{
    if n > 0 {
        lemma_replay_prefix(ops, more, (n - 1) as nat);
        assert((ops + more)[n - 1] == ops[n - 1]);
    }
}

/// Replaying `n` operations only reads the first `n`.
pub proof fn lemma_replay_take(ops: Seq<OpView>, n: nat, k: nat)
    requires
        n <= k <= ops.len(),
    ensures
        replay(ops.take(k as int), n) == replay(ops, n),
        replayable(ops.take(k as int), n) == replayable(ops, n),
    decreases n,
{
    if n > 0 {
        lemma_replay_take(ops, (n - 1) as nat, k);
        assert(ops.take(k as int)[n - 1] == ops[n - 1]);
    }
}

/// The invariant of an edit document: `head` selects an existing operation
/// (or none), operation ids are their positions, every operation can be
/// replayed, and the shot list is the replay up to `head`.
pub open spec fn doc_wf(d: DocView) -> bool {
    &&& -1 <= d.head < d.ops.len()
    &&& d.ops.len() <= i32::MAX
    &&& forall|i: int| 0 <= i < d.ops.len() ==> #[trigger] d.ops[i].id == i
    &&& replayable(d.ops, d.ops.len())
    &&& d.shots == snapshot_at(d.ops, d.head as int)
}

/// The operations that survive a new operation: those up to `head`.
pub open spec fn kept_ops(d: DocView) -> Seq<OpView> {
    d.ops.take(d.head + 1)
}

/// The document after recording `op` as the next operation, at time `ts`.
pub open spec fn with_op(d: DocView, op: OpKindView, ts: Seq<char>) -> Seq<OpView> {
    kept_ops(d).push(OpView { id: kept_ops(d).len() as u32, ts, op })
}

// ---------------------------------------------------------------------------
// Copies
// ---------------------------------------------------------------------------

/// A copy of a note.
pub fn copy_note(n: &ShotNote) -> (r: ShotNote)
    ensures
        r@ == n@,
{
    ShotNote { text: n.text.clone(), author: n.author.clone(), created: n.created.clone() }
}

/// A copy of a list of notes.
pub fn copy_notes(v: &Vec<ShotNote>) -> (r: Vec<ShotNote>)
    ensures
        r@.map_values(|n: ShotNote| n@) == v@.map_values(|n: ShotNote| n@),
{
    let mut r: Vec<ShotNote> = Vec::new();
    let mut i: usize = 0;
    while i < v.len()
        invariant
            i <= v.len(),
            r@.len() == i,
            forall|j: int| 0 <= j < i ==> #[trigger] r@[j]@ == v@[j]@,
        decreases v.len() - i,
    {
        r.push(copy_note(&v[i]));
        i += 1;
    }
    assert(r@.map_values(|n: ShotNote| n@) =~= v@.map_values(|n: ShotNote| n@));
    r
}

/// A copy of a shot.
pub fn copy_shot(s: &Shot) -> (r: Shot)
    ensures
        r@ == s@,
{
    Shot {
        id: s.id.clone(),
        source: s.source.clone(),
        range: s.range,
        notes: copy_notes(&s.notes),
        author: s.author.clone(),
    }
}

/// A copy of an operation kind.
pub fn copy_op_kind(k: &EditOpKind) -> (r: EditOpKind)
    ensures
        r@ == k@,
{
    match k {
        EditOpKind::AddShot { shot } => EditOpKind::AddShot { shot: copy_shot(shot) },
        EditOpKind::RemoveShot { shot_id, shot } => EditOpKind::RemoveShot {
            shot_id: shot_id.clone(),
            shot: copy_shot(shot),
        },
        EditOpKind::MoveShot { shot_id, from_position, to_position } => EditOpKind::MoveShot {
            shot_id: shot_id.clone(),
            from_position: *from_position,
            to_position: *to_position,
        },
        EditOpKind::TrimShot { shot_id, old_range, new_range } => EditOpKind::TrimShot {
            shot_id: shot_id.clone(),
            old_range: *old_range,
            new_range: *new_range,
        },
        EditOpKind::ReplaceRangeType { shot_id, old_range, new_range } =>
            EditOpKind::ReplaceRangeType {
            shot_id: shot_id.clone(),
            old_range: *old_range,
            new_range: *new_range,
        },
        EditOpKind::AddNote { shot_id, note } => EditOpKind::AddNote {
            shot_id: shot_id.clone(),
            note: copy_note(note),
        },
    }
}

/// A copy of an operation.
pub fn copy_op(o: &EditOp) -> (r: EditOp)
    ensures
        r@ == o@,
{
    EditOp { id: o.id, ts: o.ts.clone(), op: copy_op_kind(&o.op) }
}

} // verus!

verus! {

// ---------------------------------------------------------------------------
// Executable replay
// ---------------------------------------------------------------------------

/// The view of a list of shots.
pub open spec fn shots_view(v: Seq<Shot>) -> Seq<ShotView> {
    v.map_values(|s: Shot| s@)
}

/// The view of a list of operations.
pub open spec fn ops_view(v: Seq<EditOp>) -> Seq<OpView> {
    v.map_values(|o: EditOp| o@)
}

/// Position of the first shot with identifier `id`.
pub fn find_shot_index(shots: &Vec<Shot>, id: &str) -> (r: Option<usize>)
    ensures
        match r {
            Some(k) => k < shots@.len() && k as int == index_of_id(shots_view(shots@), id@)
                && shots@[k as int].id@ == id@,
            None => index_of_id(shots_view(shots@), id@) == -1,
        },
{
    let ghost sv = shots_view(shots@);
    proof {
        lemma_index_of_id(sv, id@);
    }
    let mut i: usize = 0;
    while i < shots.len()
        invariant
            i <= shots.len(),
            sv == shots_view(shots@),
            forall|j: int| 0 <= j < i ==> #[trigger] sv[j].id != id@,
            -1 <= index_of_id(sv, id@) < sv.len(),
            index_of_id(sv, id@) >= 0 ==> sv[index_of_id(sv, id@)].id == id@,
            forall|j: int|
                0 <= j < sv.len() && (index_of_id(sv, id@) < 0 || j < index_of_id(sv, id@))
                    ==> #[trigger] sv[j].id != id@,
        decreases shots.len() - i,
    {
        if str_eq(shots[i].id.as_str(), id) {
            assert(sv[i as int].id == id@);
            return Some(i);
        }
        i += 1;
    }
    None
}

/// Applies one operation to a list of shots.
pub fn apply_op_to(shots: &mut Vec<Shot>, op: &EditOpKind)
    requires
        op_applicable(shots_view(old(shots)@), op@),
    ensures
        shots_view(final(shots)@) == apply_op(shots_view(old(shots)@), op@),
{
    let ghost before = shots_view(shots@);
    match op {
        EditOpKind::AddShot { shot } => {
            shots.push(copy_shot(shot));
            assert(shots_view(shots@) =~= before.push(shot@));
        },
        EditOpKind::RemoveShot { shot_id, .. } => {
            if let Some(k) = find_shot_index(shots, shot_id.as_str()) {
                shots.remove(k);
                assert(shots_view(shots@) =~= before.remove(k as int));
            }
        },
        EditOpKind::MoveShot { shot_id, to_position, .. } => {
            if let Some(k) = find_shot_index(shots, shot_id.as_str()) {
                let s = shots.remove(k);
                assert(shots_view(shots@) =~= before.remove(k as int));
                shots.insert(*to_position as usize, s);
                assert(shots_view(shots@) =~= before.remove(k as int).insert(
                    *to_position as int,
                    before[k as int],
                ));
            }
        },
        EditOpKind::TrimShot { shot_id, new_range, .. } => {
            if let Some(k) = find_shot_index(shots, shot_id.as_str()) {
                let mut s = copy_shot(&shots[k]);
                s.range = *new_range;
                shots.set(k, s);
                assert(shots_view(shots@) =~= before.update(
                    k as int,
                    ShotView { range: *new_range, ..before[k as int] },
                ));
            }
        },
        EditOpKind::ReplaceRangeType { shot_id, new_range, .. } => {
            if let Some(k) = find_shot_index(shots, shot_id.as_str()) {
                let mut s = copy_shot(&shots[k]);
                s.range = *new_range;
                shots.set(k, s);
                assert(shots_view(shots@) =~= before.update(
                    k as int,
                    ShotView { range: *new_range, ..before[k as int] },
                ));
            }
        },
        EditOpKind::AddNote { shot_id, note } => {
            if let Some(k) = find_shot_index(shots, shot_id.as_str()) {
                let mut s = copy_shot(&shots[k]);
                let ghost old_notes = s.notes@;
                s.notes.push(copy_note(note));
                assert(s@.notes =~= before[k as int].notes.push(note@));
                shots.set(k, s);
                assert(shots_view(shots@) =~= before.update(
                    k as int,
                    ShotView { notes: before[k as int].notes.push(note@), ..before[k as int] },
                ));
            }
        },
    }
}

impl EditDocument {
    /// Replay `ops[0..=head]` from an empty state to produce an `EditSnapshot`.
    ///
    /// This is a pure function: given the same ops and head, it always produces
    /// the same snapshot. If head is negative, returns an empty snapshot.
    pub fn recompute_snapshot(ops: &[EditOp], head: i32) -> (r: EditSnapshot)
        requires
            head < ops@.len(),
            head >= 0 ==> replayable(ops_view(ops@), (head + 1) as nat),
        ensures
            r@ == snapshot_at(ops_view(ops@), head as int),
    {
        let mut snapshot = EditSnapshot { shots: Vec::new() };
        if head < 0 {
            assert(snapshot@ =~= Seq::<ShotView>::empty());
            return snapshot;
        }
        let ghost ov = ops_view(ops@);
        let end: usize = (head as usize) + 1;
        let mut i: usize = 0;
        assert(snapshot@ =~= replay(ov, 0));
        while i < end
            invariant
                i <= end,
                end <= ops@.len(),
                end == head + 1,
                ov == ops_view(ops@),
                replayable(ov, end as nat),
                snapshot@ == replay(ov, i as nat),
            decreases end - i,
        {
            proof {
                lemma_replayable_prefix(ov, end as nat, (i + 1) as nat);
                assert(ov[i as int] == ops@[i as int]@);
            }
            apply_op_to(&mut snapshot.shots, &ops[i].op);
            i += 1;
        }
        snapshot
    }

    /// Whether the document keeps the invariant of an edit (`doc_wf`): a
    /// head within the operations, operation ids that are their positions,
    /// operations that replay in turn, and a snapshot that is the replay up
    /// to the head.
    pub fn is_consistent(&self) -> (r: bool)
        ensures
            r == doc_wf(self@),
    {
        let n = self.ops.len();
        if n > 0x7fff_ffff {
            return false;
        }
        if self.head < -1 || self.head as i64 >= n as i64 {
            return false;
        }
        let ghost ov = ops_view(self.ops@);
        let mut i: usize = 0;
        while i < n
            invariant
                i <= n,
                n == self.ops@.len(),
                ov == ops_view(self.ops@),
                forall|j: int| 0 <= j < i ==> #[trigger] ov[j].id == j,
            decreases n - i,
        {
            assert(ov[i as int] == self.ops@[i as int]@);
            if self.ops[i].id as usize != i {
                assert(self@.ops[i as int].id != i);
                return false;
            }
            i += 1;
        }
        let mut shots: Vec<Shot> = Vec::new();
        let mut k: usize = 0;
        assert(shots_view(shots@) =~= replay(ov, 0));
        while k < n
            invariant
                k <= n,
                n == self.ops@.len(),
                ov == ops_view(self.ops@),
                shots_view(shots@) == replay(ov, k as nat),
                replayable(ov, k as nat),
            decreases n - k,
        {
            assert(ov[k as int] == self.ops@[k as int]@);
            if !op_fits(&shots, &self.ops[k].op) {
                proof {
                    if replayable(ov, n as nat) {
                        lemma_replayable_prefix(ov, n as nat, (k + 1) as nat);
                    }
                }
                return false;
            }
            apply_op_to(&mut shots, &self.ops[k].op);
            k += 1;
        }
        proof {
            if self.head >= 0 {
                lemma_replayable_prefix(ov, n as nat, (self.head + 1) as nat);
            }
        }
        let snap = Self::recompute_snapshot(self.ops.as_slice(), self.head);
        shots_eq(&snap.shots, &self.snapshot.shots)
    }
}

/// Whether an operation can be applied to the shots (see `op_applicable`).
fn op_fits(shots: &Vec<Shot>, op: &EditOpKind) -> (r: bool)
    ensures
        r == op_applicable(shots_view(shots@), op@),
{
    match op {
        EditOpKind::MoveShot { shot_id, to_position, .. } => match find_shot_index(shots, shot_id.as_str()) {
            Some(_) => (*to_position as usize) < shots.len(),
            None => true,
        },
        _ => true,
    }
}

/// Whether two notes are the same.
fn note_eq(a: &ShotNote, b: &ShotNote) -> (r: bool)
    ensures
        r == (a@ == b@),
{
    str_eq(a.text.as_str(), b.text.as_str()) && str_eq(a.author.as_str(), b.author.as_str())
        && str_eq(a.created.as_str(), b.created.as_str())
}

/// Whether two lists of shots are the same.
fn shots_eq(a: &Vec<Shot>, b: &Vec<Shot>) -> (r: bool)
    ensures
        r == (shots_view(a@) == shots_view(b@)),
{
    if a.len() != b.len() {
        assert(shots_view(a@).len() != shots_view(b@).len());
        return false;
    }
    let mut i: usize = 0;
    while i < a.len()
        invariant
            i <= a.len(),
            a.len() == b.len(),
            forall|j: int| 0 <= j < i ==> #[trigger] a@[j]@ == b@[j]@,
        decreases a.len() - i,
    {
        if !shot_eq(&a[i], &b[i]) {
            assert(shots_view(a@)[i as int] != shots_view(b@)[i as int]);
            return false;
        }
        i += 1;
    }
    assert(shots_view(a@) =~= shots_view(b@));
    true
}

/// Whether two shots are the same.
fn shot_eq(a: &Shot, b: &Shot) -> (r: bool)
    ensures
        r == (a@ == b@),
{
    if !(str_eq(a.id.as_str(), b.id.as_str()) && str_eq(a.source.as_str(), b.source.as_str())
        && a.range == b.range && str_eq(a.author.as_str(), b.author.as_str())) {
        return false;
    }
    if a.notes.len() != b.notes.len() {
        assert(a@.notes.len() != b@.notes.len());
        return false;
    }
    let mut i: usize = 0;
    while i < a.notes.len()
        invariant
            i <= a.notes.len(),
            a.notes.len() == b.notes.len(),
            forall|j: int| 0 <= j < i ==> #[trigger] a.notes@[j]@ == b.notes@[j]@,
        decreases a.notes.len() - i,
    {
        if !note_eq(&a.notes[i], &b.notes[i]) {
            assert(a@.notes[i as int] != b@.notes[i as int]);
            return false;
        }
        i += 1;
    }
    assert(a@.notes =~= b@.notes);
    true
}

} // verus!

verus! {

// ---------------------------------------------------------------------------
// Recording operations
// ---------------------------------------------------------------------------

/// Room for one more operation without overflowing the `i32` head.
pub open spec fn can_record(d: DocView) -> bool {
    d.head < i32::MAX - 1
}

/// The identifier given to the `n`-th generated shot: `shot-NNN`.
pub open spec fn generated_shot_id(n: u32) -> Seq<char> {
    "shot-"@ + dec_pad(n as nat, 3)
}

/// Recording an applicable operation keeps the document invariant, with the
/// new shot list being the old one with the operation applied.
pub proof fn lemma_record(d: DocView, op: OpKindView, ts: Seq<char>)
    requires
        doc_wf(d),
        can_record(d),
        op_applicable(d.shots, op),
    ensures
        doc_wf(
            DocView {
                ops: with_op(d, op, ts),
                head: (d.head + 1) as i32,
                shots: apply_op(d.shots, op),
                ..d
            },
        ),
{
    let kept = kept_ops(d);
    let n = (d.head + 1) as nat;
    let newop = OpView { id: kept.len() as u32, ts, op };
    let ops2 = with_op(d, op, ts);
    assert(kept.len() == n);
    lemma_replayable_prefix(d.ops, d.ops.len(), n);
    lemma_replay_take(d.ops, n, n);
    assert(ops2 =~= kept + seq![newop]);
    lemma_replay_prefix(kept, seq![newop], n);
    assert(ops2[n as int] == newop);
    assert(replay(ops2, n + 1) == apply_op(replay(ops2, n), op));
    assert(replayable(ops2, n + 1));
    assert(snapshot_at(d.ops, d.head as int) == replay(d.ops, n));
    assert forall|i: int| 0 <= i < ops2.len() implies #[trigger] ops2[i].id == i by {
        if i < n {
            assert(ops2[i] == d.ops[i]);
        }
    }
}

impl EditDocument {
    /// Create a new empty edit document with no ops and head at -1.
    pub fn create(name: &str) -> (r: Self)
        ensures
            r@.name == name@,
            r@.next_shot_id == 1,
            r@.head == -1,
            r@.ops == Seq::<OpView>::empty(),
            r@.shots == Seq::<ShotView>::empty(),
            doc_wf(r@),
    {
        let created = crate::clock::current_timestamp();
        Self::create_at(name, created)
    }

    /// Create a new empty edit document with the given creation time.
    pub fn create_at(name: &str, created: String) -> (r: Self)
        ensures
            r@.name == name@,
            r@.created == created@,
            r@.next_shot_id == 1,
            r@.head == -1,
            r@.ops == Seq::<OpView>::empty(),
            r@.shots == Seq::<ShotView>::empty(),
            doc_wf(r@),
    {
        let r = EditDocument {
            name: crate::text::owned(name),
            created,
            next_shot_id: 1,
            head: -1,
            ops: Vec::new(),
            snapshot: EditSnapshot { shots: Vec::new() },
        };
        assert(r@.ops =~= Seq::<OpView>::empty());
        assert(r@.shots =~= Seq::<ShotView>::empty());
        r
    }

    /// Truncate any undone ops beyond head, append a new op, apply it to
    /// the shot list, and advance head.
    pub fn push_op(&mut self, kind: EditOpKind)
        requires
            doc_wf(old(self)@),
            can_record(old(self)@),
            op_applicable(old(self)@.shots, kind@),
        ensures
            final(self)@.ops == with_op(old(self)@, kind@, final(self)@.ops.last().ts),
            final(self)@.head == old(self)@.head + 1,
            final(self)@.shots == apply_op(old(self)@.shots, kind@),
            final(self)@.name == old(self)@.name,
            final(self)@.created == old(self)@.created,
            final(self)@.next_shot_id == old(self)@.next_shot_id,
            doc_wf(final(self)@),
    {
        let ghost d = self@;
        let keep: usize = if self.head < 0 {
            0
        } else {
            (self.head as usize) + 1
        };
        self.ops.truncate(keep);
        assert(ops_view(self.ops@) =~= kept_ops(d));
        let ts = crate::clock::current_timestamp();
        let id = self.ops.len() as u32;
        let op = EditOp { id, ts, op: copy_op_kind(&kind) };
        self.ops.push(op);
        apply_op_to(&mut self.snapshot.shots, &kind);
        self.head = (self.ops.len() - 1) as i32;
        proof {
            let ts = self.ops@.last().ts@;
            assert(ops_view(self.ops@) =~= with_op(d, kind@, ts));
            lemma_record(d, kind@, ts);
        }
    }

    /// Position of the first shot in the timeline with identifier `shot_id`.
    fn find_shot_position(&self, shot_id: &str) -> (r: Result<usize, EditError>)
        ensures
            match r {
                Ok(k) => k < self.snapshot.shots@.len() && k as int == index_of_id(
                    self@.shots,
                    shot_id@,
                ),
                Err(e) => index_of_id(self@.shots, shot_id@) == -1 && (e matches EditError::ShotNotFound(
                    id,
                ) && id@ == shot_id@),
            },
    {
        match find_shot_index(&self.snapshot.shots, shot_id) {
            Some(k) => Ok(k),
            None => Err(EditError::ShotNotFound(crate::text::owned(shot_id))),
        }
    }
}

} // verus!

verus! {

/// The document after `undo`: head moves back one operation and the shot
/// list becomes the replay up to the new head.
pub open spec fn undone(d: DocView) -> DocView {
    DocView { head: (d.head - 1) as i32, shots: snapshot_at(d.ops, d.head - 1), ..d }
}

/// The document after `redo`: head moves forward one operation and the shot
/// list becomes the replay up to the new head.
pub open spec fn redone(d: DocView) -> DocView {
    DocView { head: (d.head + 1) as i32, shots: snapshot_at(d.ops, d.head + 1), ..d }
}

/// A new shot with no notes and no author.
pub open spec fn fresh_shot(id: Seq<char>, source: Seq<char>, range: ShotRange) -> ShotView {
    ShotView { id, source, range, notes: Seq::empty(), author: Seq::empty() }
}

impl EditDocument {
    /// Append a new shot to the end of the timeline.
    ///
    /// Generates a new shot ID from `next_shot_id`, appends an `AddShot` op,
    /// and adds the shot to the snapshot. Returns an error if the range is
    /// inverted or has zero duration.
    pub fn add_shot(&mut self, source: &str, range: ShotRange) -> (r: Result<Shot, EditError>)
        requires
            doc_wf(old(self)@),
            range_proper(range) ==> can_record(old(self)@),
            range_proper(range) ==> old(self)@.next_shot_id < u32::MAX,
        ensures
            r is Ok <==> range_proper(range),
            match r {
                Ok(shot) => {
                    let s = fresh_shot(generated_shot_id(old(self)@.next_shot_id), source@, range);
                    &&& shot@ == s
                    &&& final(self)@.ops == with_op(
                        old(self)@,
                        OpKindView::AddShot { shot: s },
                        final(self)@.ops.last().ts,
                    )
                    &&& final(self)@.head == old(self)@.head + 1
                    &&& final(self)@.shots == old(self)@.shots.push(s)
                    &&& final(self)@.next_shot_id == old(self)@.next_shot_id + 1
                    &&& final(self)@.name == old(self)@.name
                    &&& final(self)@.created == old(self)@.created
                },
                Err(e) => final(self)@ == old(self)@ && (e matches EditError::InvalidRange(m)
                    && m@ == range_problem(range)),
            },
            doc_wf(final(self)@),
    {
        validate_range(&range)?;
        let mut id = String::new();
        push_str(&mut id, "shot-");
        push_dec_pad(&mut id, self.next_shot_id as u64, 3);
        self.next_shot_id = self.next_shot_id + 1;
        let ghost d = self@;
        let shot = Shot {
            id,
            source: crate::text::owned(source),
            range,
            notes: Vec::new(),
            author: String::new(),
        };
        assert(shot@.notes =~= Seq::<NoteView>::empty());
        let result = copy_shot(&shot);
        self.push_op(EditOpKind::AddShot { shot });
        Ok(result)
    }

    /// Add a shot using a caller-supplied `id` rather than one derived from
    /// `next_shot_id`. Used when a live collaboration daemon has already minted
    /// the canonical actor-scoped id: the CLI must persist and report that id
    /// so later move/trim/note/remove target the live shot.
    pub fn add_shot_with_id(&mut self, id: &str, source: &str, range: ShotRange) -> (r: Result<
        Shot,
        EditError,
    >)
        requires
            doc_wf(old(self)@),
            range_proper(range) ==> can_record(old(self)@),
        ensures
            r is Ok <==> range_proper(range),
            match r {
                Ok(shot) => {
                    let s = fresh_shot(id@, source@, range);
                    &&& shot@ == s
                    &&& final(self)@ == DocView {
                        ops: with_op(
                            old(self)@,
                            OpKindView::AddShot { shot: s },
                            final(self)@.ops.last().ts,
                        ),
                        head: (old(self)@.head + 1) as i32,
                        shots: old(self)@.shots.push(s),
                        ..old(self)@
                    }
                },
                Err(e) => final(self)@ == old(self)@ && (e matches EditError::InvalidRange(m)
                    && m@ == range_problem(range)),
            },
            doc_wf(final(self)@),
    {
        validate_range(&range)?;
        let shot = Shot {
            id: crate::text::owned(id),
            source: crate::text::owned(source),
            range,
            notes: Vec::new(),
            author: String::new(),
        };
        assert(shot@.notes =~= Seq::<NoteView>::empty());
        let result = copy_shot(&shot);
        self.push_op(EditOpKind::AddShot { shot });
        Ok(result)
    }

    /// Move a shot from its current position to `to_position` in the timeline.
    ///
    /// `to_position` is the desired index in the resulting shot list.
    pub fn move_shot(&mut self, shot_id: &str, to_position: usize) -> (r: Result<(), EditError>)
        requires
            doc_wf(old(self)@),
            index_of_id(old(self)@.shots, shot_id@) >= 0 && to_position < old(self)@.shots.len() ==> can_record(old(self)@),
        ensures
            ({
                let k = index_of_id(old(self)@.shots, shot_id@);
                let max = old(self)@.shots.len() - 1;
                match r {
                    Ok(()) => {
                        let op = OpKindView::MoveShot {
                            shot_id: shot_id@,
                            from_position: k as u32,
                            to_position: to_position as u32,
                        };
                        &&& k >= 0 && to_position <= max
                        &&& final(self)@ == DocView {
                            ops: with_op(old(self)@, op, final(self)@.ops.last().ts),
                            head: (old(self)@.head + 1) as i32,
                            shots: old(self)@.shots.remove(k).insert(
                                to_position as int,
                                old(self)@.shots[k],
                            ),
                            ..old(self)@
                        }
                    },
                    Err(e) => final(self)@ == old(self)@ && if k < 0 {
                        e matches EditError::ShotNotFound(id) && id@ == shot_id@
                    } else {
                        to_position > max && e == (EditError::PositionOutOfBounds {
                            position: to_position,
                            max: max as usize,
                        })
                    },
                }
            }),
            doc_wf(final(self)@),
    {
        let from = self.find_shot_position(shot_id)?;
        let max = self.snapshot.shots.len() - 1;
        if to_position > max {
            return Err(EditError::PositionOutOfBounds { position: to_position, max });
        }
        let kind = EditOpKind::MoveShot {
            shot_id: crate::text::owned(shot_id),
            from_position: from as u32,
            to_position: to_position as u32,
        };
        proof {
            assert(self@.shots.len() == self.snapshot.shots@.len());
            lemma_replayable_prefix(self@.ops, self@.ops.len(), (self.head + 1) as nat);
            lemma_replay_len(self@.ops, (self.head + 1) as nat);
        }
        self.push_op(kind);
        Ok(())
    }

    /// Remove a shot by ID. The full shot data is preserved in the op for undo.
    pub fn remove_shot(&mut self, shot_id: &str) -> (r: Result<Shot, EditError>)
        requires
            doc_wf(old(self)@),
            index_of_id(old(self)@.shots, shot_id@) >= 0 ==> can_record(old(self)@),
        ensures
            ({
                let k = index_of_id(old(self)@.shots, shot_id@);
                match r {
                    Ok(shot) => {
                        let op = OpKindView::RemoveShot {
                            shot_id: shot_id@,
                            shot: old(self)@.shots[k],
                        };
                        &&& k >= 0
                        &&& shot@ == old(self)@.shots[k]
                        &&& final(self)@ == DocView {
                            ops: with_op(old(self)@, op, final(self)@.ops.last().ts),
                            head: (old(self)@.head + 1) as i32,
                            shots: old(self)@.shots.remove(k),
                            ..old(self)@
                        }
                    },
                    Err(e) => final(self)@ == old(self)@ && k < 0 && (e matches EditError::ShotNotFound(
                        id,
                    ) && id@ == shot_id@),
                }
            }),
            doc_wf(final(self)@),
    {
        let idx = self.find_shot_position(shot_id)?;
        let shot = copy_shot(&self.snapshot.shots[idx]);
        let kind = EditOpKind::RemoveShot {
            shot_id: crate::text::owned(shot_id),
            shot: copy_shot(&shot),
        };
        self.push_op(kind);
        Ok(shot)
    }

    /// Trim a shot's range, storing both old and new range in the op.
    ///
    /// Returns an error if the new range is inverted or has zero duration.
    pub fn trim_shot(&mut self, shot_id: &str, new_range: ShotRange) -> (r: Result<(), EditError>)
        requires
            doc_wf(old(self)@),
            range_proper(new_range) && index_of_id(old(self)@.shots, shot_id@) >= 0 ==> can_record(old(self)@),
        ensures
            ({
                let k = index_of_id(old(self)@.shots, shot_id@);
                match r {
                    Ok(()) => {
                        let op = OpKindView::TrimShot {
                            shot_id: shot_id@,
                            old_range: old(self)@.shots[k].range,
                            new_range,
                        };
                        &&& range_proper(new_range) && k >= 0
                        &&& final(self)@ == DocView {
                            ops: with_op(old(self)@, op, final(self)@.ops.last().ts),
                            head: (old(self)@.head + 1) as i32,
                            shots: old(self)@.shots.update(
                                k,
                                ShotView { range: new_range, ..old(self)@.shots[k] },
                            ),
                            ..old(self)@
                        }
                    },
                    Err(e) => final(self)@ == old(self)@ && if !range_proper(new_range) {
                        e matches EditError::InvalidRange(m) && m@ == range_problem(new_range)
                    } else {
                        k < 0 && (e matches EditError::ShotNotFound(id) && id@ == shot_id@)
                    },
                }
            }),
            doc_wf(final(self)@),
    {
        validate_range(&new_range)?;
        let idx = self.find_shot_position(shot_id)?;
        let old_range = self.snapshot.shots[idx].range;
        let kind = EditOpKind::TrimShot {
            shot_id: crate::text::owned(shot_id),
            old_range,
            new_range,
        };
        self.push_op(kind);
        Ok(())
    }

    /// Append a note to a shot's notes array, stamped with the current time.
    ///
    /// Notes are append-only and never deleted.
    pub fn add_note(&mut self, shot_id: &str, text: &str) -> (r: Result<ShotNote, EditError>)
        requires
            doc_wf(old(self)@),
            index_of_id(old(self)@.shots, shot_id@) >= 0 ==> can_record(old(self)@),
        ensures
            ({
                let k = index_of_id(old(self)@.shots, shot_id@);
                match r {
                    Ok(note) => {
                        let op = OpKindView::AddNote { shot_id: shot_id@, note: note@ };
                        &&& k >= 0
                        &&& note@.text == text@
                        &&& note@.author == Seq::<char>::empty()
                        &&& final(self)@ == DocView {
                            ops: with_op(old(self)@, op, final(self)@.ops.last().ts),
                            head: (old(self)@.head + 1) as i32,
                            shots: old(self)@.shots.update(
                                k,
                                ShotView {
                                    notes: old(self)@.shots[k].notes.push(note@),
                                    ..old(self)@.shots[k]
                                },
                            ),
                            ..old(self)@
                        }
                    },
                    Err(e) => final(self)@ == old(self)@ && k < 0 && (e matches EditError::ShotNotFound(
                        id,
                    ) && id@ == shot_id@),
                }
            }),
            doc_wf(final(self)@),
    {
        let _idx = self.find_shot_position(shot_id)?;
        let note = ShotNote {
            text: crate::text::owned(text),
            author: String::new(),
            created: crate::clock::current_timestamp(),
        };
        assert(note@.author =~= Seq::<char>::empty());
        let result = copy_note(&note);
        let kind = EditOpKind::AddNote { shot_id: crate::text::owned(shot_id), note };
        self.push_op(kind);
        Ok(result)
    }

    // -- undo / redo ----------------------------------------------------------

    /// Undo the last operation: decrement head and recompute the snapshot.
    ///
    /// Returns the undone op for reporting. Errors if head is already at -1.
    pub fn undo(&mut self) -> (r: Result<EditOp, EditError>)
        requires
            doc_wf(old(self)@),
        ensures
            r is Ok <==> old(self)@.head >= 0,
            match r {
                Ok(op) => op@ == old(self)@.ops[old(self)@.head as int] && final(self)@ == undone(
                    old(self)@,
                ),
                Err(e) => e == EditError::NothingToUndo && final(self)@ == old(self)@,
            },
            doc_wf(final(self)@),
    {
        if self.head < 0 {
            return Err(EditError::NothingToUndo);
        }
        self.head = self.head - 1;
        proof {
            lemma_replayable_prefix(self@.ops, self@.ops.len(), (self.head + 1) as nat);
        }
        self.snapshot = Self::recompute_snapshot(&self.ops, self.head);
        Ok(copy_op(&self.ops[(self.head + 1) as usize]))
    }

    /// Redo the next operation: increment head and recompute the snapshot.
    ///
    /// Returns the redone op for reporting. Errors if head is already at the end.
    pub fn redo(&mut self) -> (r: Result<EditOp, EditError>)
        requires
            doc_wf(old(self)@),
        ensures
            r is Ok <==> old(self)@.head < old(self)@.ops.len() - 1,
            match r {
                Ok(op) => op@ == old(self)@.ops[old(self)@.head + 1] && final(self)@ == redone(
                    old(self)@,
                ),
                Err(e) => e == EditError::NothingToRedo && final(self)@ == old(self)@,
            },
            doc_wf(final(self)@),
    {
        let max = self.ops.len() as i32 - 1;
        if self.head >= max {
            return Err(EditError::NothingToRedo);
        }
        self.head = self.head + 1;
        proof {
            lemma_replayable_prefix(self@.ops, self@.ops.len(), (self.head + 1) as nat);
        }
        self.snapshot = Self::recompute_snapshot(&self.ops, self.head);
        Ok(copy_op(&self.ops[self.head as usize]))
    }
}

// ---------------------------------------------------------------------------
// Laws
// ---------------------------------------------------------------------------

/// Undo followed by redo gives back the document as it was.
pub proof fn law_undo_then_redo(d: DocView)
    requires
        doc_wf(d),
        d.head >= 0,
    ensures
        doc_wf(undone(d)),
        undone(d).head < undone(d).ops.len() - 1,
        redone(undone(d)) == d,
{
    lemma_replayable_prefix(d.ops, d.ops.len(), d.head as nat);
}

/// Redo followed by undo gives back the document as it was.
pub proof fn law_redo_then_undo(d: DocView)
    requires
        doc_wf(d),
        d.head < d.ops.len() - 1,
    ensures
        doc_wf(redone(d)),
        redone(d).head >= 0,
        undone(redone(d)) == d,
{
}

/// Undo and redo never change the recorded operations, only which of them
/// the shot list reflects: the shot list is always the replay up to head.
pub proof fn law_history_is_kept(d: DocView)
    requires
        doc_wf(d),
    ensures
        d.head >= 0 ==> undone(d).ops == d.ops && undone(d).shots == snapshot_at(
            d.ops,
            undone(d).head as int,
        ),
        d.head < d.ops.len() - 1 ==> redone(d).ops == d.ops && redone(d).shots == snapshot_at(
            d.ops,
            redone(d).head as int,
        ),
{
}

/// Recording a new operation after undoing discards exactly the undone
/// operations: what is kept is the history up to head, then the new one.
pub proof fn law_new_op_truncates_redo(d: DocView, op: OpKindView, ts: Seq<char>)
    requires
        doc_wf(d),
    ensures
        with_op(d, op, ts).len() == d.head + 2,
        with_op(d, op, ts).take(d.head + 1) == d.ops.take(d.head + 1),
        with_op(d, op, ts).last().op == op,
{
    assert(with_op(d, op, ts).take(d.head + 1) =~= d.ops.take(d.head + 1));
}

/// A snapshot reads only the operations up to `head`: replaying the whole
/// list or only `ops[0..=head]` gives the same shots, and a negative head
/// gives no shots.
pub proof fn law_snapshot_reads_up_to_head(ops: Seq<OpView>, head: int)
    requires
        head < ops.len(),
    ensures
        snapshot_at(ops, head) == snapshot_at(ops.take(if head + 1 > 0 { head + 1 } else { 0 }), head),
        head < 0 ==> snapshot_at(ops, head) == Seq::<ShotView>::empty(),
{
    if head >= 0 {
        lemma_replay_take(ops, (head + 1) as nat, (head + 1) as nat);
    }
}

/// Every document that the operations build keeps its shot list equal to
/// the replay of its operations up to `head`, with `head` in range and
/// operation ids equal to their positions.
pub proof fn law_document_replays(d: DocView)
    requires
        doc_wf(d),
    ensures
        d.shots == snapshot_at(d.ops, d.head as int),
        -1 <= d.head < d.ops.len(),
        forall|i: int| 0 <= i < d.ops.len() ==> #[trigger] d.ops[i].id == i,
{
}

/// Recording an operation and then undoing it gives back the shot list and
/// head as they were, and the undone operation is the one recorded.
pub proof fn law_record_then_undo(d: DocView, op: OpKindView, ts: Seq<char>)
    requires
        doc_wf(d),
        can_record(d),
        op_applicable(d.shots, op),
    ensures
        ({
            let e = DocView { ops: with_op(d, op, ts), head: (d.head + 1) as i32, shots: apply_op(d.shots, op), ..d };
            &&& doc_wf(e)
            &&& e.ops[e.head as int].op == op
            &&& undone(e).shots == d.shots
            &&& undone(e).head == d.head
        }),
{
    lemma_record(d, op, ts);
    let kept = kept_ops(d);
    let n = (d.head + 1) as nat;
    let newop = OpView { id: kept.len() as u32, ts, op };
    assert(with_op(d, op, ts) =~= kept + seq![newop]);
    lemma_replay_prefix(kept, seq![newop], n);
    lemma_replayable_prefix(d.ops, d.ops.len(), n);
    lemma_replay_take(d.ops, n, n);
}

/// Whether `y` is shot `x` kept with its notes: the same identifier, and the
/// notes of `x` still first among those of `y`.
pub open spec fn keeps_notes(x: ShotView, y: ShotView) -> bool {
    &&& y.id == x.id
    &&& x.notes.len() <= y.notes.len()
    &&& y.notes.take(x.notes.len() as int) == x.notes
}

/// Notes are append-only: applying any operation but a removal keeps every
/// shot, with the notes it had still first among its notes.
pub proof fn law_notes_are_kept(shots: Seq<ShotView>, op: OpKindView, i: int)
    requires
        op_applicable(shots, op),
        !(op is RemoveShot),
        0 <= i < shots.len(),
    ensures
        exists|j: int| 0 <= j < apply_op(shots, op).len() && keeps_notes(shots[i], #[trigger] apply_op(shots, op)[j]),
{
    let x = shots[i];
    let r = apply_op(shots, op);
    assert(x.notes.take(x.notes.len() as int) =~= x.notes);
    match op {
        OpKindView::AddShot { shot } => {
            assert(keeps_notes(x, r[i]));
        },
        OpKindView::MoveShot { shot_id, to_position, .. } => {
            lemma_index_of_id(shots, shot_id);
            let k = index_of_id(shots, shot_id);
            if k >= 0 {
                let to = to_position as int;
                let rest = shots.remove(k);
                if i == k {
                    assert(r[to] == x);
                    assert(keeps_notes(x, r[to]));
                } else {
                    let i1 = if i < k { i } else { i - 1 };
                    assert(rest[i1] == x);
                    let j = if i1 < to { i1 } else { i1 + 1 };
                    assert(r[j] == x);
                    assert(keeps_notes(x, r[j]));
                }
            } else {
                assert(keeps_notes(x, r[i]));
            }
        },
        OpKindView::TrimShot { shot_id, .. } => {
            lemma_index_of_id(shots, shot_id);
            assert(keeps_notes(x, r[i]));
        },
        OpKindView::ReplaceRangeType { shot_id, .. } => {
            lemma_index_of_id(shots, shot_id);
            assert(keeps_notes(x, r[i]));
        },
        OpKindView::AddNote { shot_id, note } => {
            lemma_index_of_id(shots, shot_id);
            let k = index_of_id(shots, shot_id);
            if k == i {
                assert(r[i].notes.take(x.notes.len() as int) =~= x.notes);
            }
            assert(keeps_notes(x, r[i]));
        },
        OpKindView::RemoveShot { .. } => {},
    }
}

} // verus!
