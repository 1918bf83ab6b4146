//! The operation queue's bookkeeping: operations waiting, operations
//! running with the paths they hold, and each operation's pause state. The
//! engine's workers ask it what to run next and tell it what finished.
use vstd::prelude::*;
use crate::ops::{next_runnable, touch_paths, touch_spec, running_overlap_spec, worker_cap, OpOrigin, Operation, MAX_WORKERS};

verus! {

/// Whether an operation may go on.
#[derive(Clone, Copy, Debug, PartialEq, Eq, Structural)]
pub enum PauseState {
    Active,
    Paused,
    Cancelled,
}

/// An operation waiting to run.
pub struct QueuedOp {
    pub id: u64,
    pub op: Operation,
    pub origin: OpOrigin,
}

/// The queue: waiting operations in submission order, the running ones
/// (ids and the paths they hold, side by side), each live operation's
/// pause state, the next id to hand out and the number of workers allowed.
pub struct QueueState {
    pub pending: Vec<QueuedOp>,
    pub running_ids: Vec<u64>,
    pub running_paths: Vec<Vec<String>>,
    pub states: Vec<(u64, PauseState)>,
    pub next_id: u64,
    pub max_jobs: usize,
}

/// `n` clamped to `1..=MAX_WORKERS`.
pub open spec fn clamp_jobs(n: usize) -> usize {
    if n < 1 { 1 } else if n > MAX_WORKERS { MAX_WORKERS } else { n }
}

/// A pause request: an active operation becomes paused.
pub open spec fn pause_step(e: (u64, PauseState), id: Option<u64>) -> (u64, PauseState) {
    if (id is None || id == Some(e.0)) && e.1 == PauseState::Active { (e.0, PauseState::Paused) } else { e }
}

/// A resume request: a paused operation becomes active.
pub open spec fn resume_step(e: (u64, PauseState), id: Option<u64>) -> (u64, PauseState) {
    if (id is None || id == Some(e.0)) && e.1 == PauseState::Paused { (e.0, PauseState::Active) } else { e }
}

/// A cancel request: the operation is cancelled whatever its state.
pub open spec fn cancel_step(e: (u64, PauseState), id: Option<u64>) -> (u64, PauseState) {
    if id is None || id == Some(e.0) { (e.0, PauseState::Cancelled) } else { e }
}

/// Which of the three requests.
#[derive(Clone, Copy, Debug, PartialEq, Eq, Structural)]
pub enum Request {
    Pause,
    Resume,
    Cancel,
}

pub open spec fn request_step(req: Request, e: (u64, PauseState), id: Option<u64>) -> (u64, PauseState) {
    match req {
        Request::Pause => pause_step(e, id),
        Request::Resume => resume_step(e, id),
        Request::Cancel => cancel_step(e, id),
    }
}

/// Whether operation `id` is cancelled.
pub open spec fn is_cancelled(states: Seq<(u64, PauseState)>, id: u64) -> bool {
    exists|i: int| 0 <= i < states.len() && states[i] == (id, PauseState::Cancelled)
}

/// The waiting operations that are not cancelled, in order.
pub open spec fn live(p: Seq<QueuedOp>, states: Seq<(u64, PauseState)>) -> Seq<QueuedOp>
    decreases p.len(),
{
    if p.len() == 0 {
        p
    } else if is_cancelled(states, p.last().id) {
        live(p.drop_last(), states)
    } else {
        live(p.drop_last(), states).push(p.last())
    }
}

/// The waiting operations that are cancelled, as (id, origin), in order.
pub open spec fn dropped(p: Seq<QueuedOp>, states: Seq<(u64, PauseState)>) -> Seq<(u64, OpOrigin)>
    decreases p.len(),
{
    if p.len() == 0 {
        Seq::empty()
    } else if is_cancelled(states, p.last().id) {
        dropped(p.drop_last(), states).push((p.last().id, p.last().origin))
    } else {
        dropped(p.drop_last(), states)
    }
}

/// The states of operations other than those in `gone`.
pub open spec fn without_ids(states: Seq<(u64, PauseState)>, gone: Seq<(u64, OpOrigin)>) -> Seq<(u64, PauseState)>
    decreases states.len(),
{
    if states.len() == 0 {
        states
    } else if exists|k: int| 0 <= k < gone.len() && gone[k].0 == states.last().0 {
        without_ids(states.drop_last(), gone)
    } else {
        without_ids(states.drop_last(), gone).push(states.last())
    }
}

/// The states of operations other than `id`, in order.
pub open spec fn drop_id(states: Seq<(u64, PauseState)>, id: u64) -> Seq<(u64, PauseState)>
    decreases states.len(),
{
    if states.len() == 0 {
        states
    } else if states.last().0 == id {
        drop_id(states.drop_last(), id)
    } else {
        drop_id(states.drop_last(), id).push(states.last())
    }
}

impl QueueState {
    /// An empty queue: ids start at 1, two workers allowed.
    pub fn new() -> (r: QueueState)
        ensures
            r.pending@.len() == 0 && r.running_ids@.len() == 0 && r.running_paths@.len() == 0,
            r.states@.len() == 0,
            r.next_id == 1,
            r.max_jobs == 2,
    {
        QueueState {
            pending: Vec::new(),
            running_ids: Vec::new(),
            running_paths: Vec::new(),
            states: Vec::new(),
            next_id: 1,
            max_jobs: 2,
        }
    }

    /// Sets how many operations may run at once, clamped to `1..=4`.
    pub fn set_max_jobs(&mut self, n: usize)
        ensures
            final(self).max_jobs == clamp_jobs(n),
            final(self).pending == old(self).pending,
            final(self).states == old(self).states,
            final(self).next_id == old(self).next_id,
            final(self).running_ids == old(self).running_ids,
            final(self).running_paths == old(self).running_paths,
    {
        self.max_jobs = if n < 1 { 1 } else if n > MAX_WORKERS { MAX_WORKERS } else { n };
    }

    /// Queues an operation and returns its id; it starts active.
    pub fn submit(&mut self, op: Operation, origin: OpOrigin) -> (id: u64)
        ensures
            id == old(self).next_id,
            final(self).next_id == (if old(self).next_id == u64::MAX { 0 } else { (old(self).next_id + 1) as u64 }),
            final(self).states@ == old(self).states@.push((id, PauseState::Active)),
            final(self).pending@.len() == old(self).pending@.len() + 1,
            final(self).pending@.drop_last() == old(self).pending@,
            final(self).pending@.last().id == id,
            final(self).pending@.last().origin == origin,
            final(self).pending@.last().op == op,
            final(self).running_ids == old(self).running_ids,
            final(self).running_paths == old(self).running_paths,
            final(self).max_jobs == old(self).max_jobs,
    {
        let id = self.next_id;
        self.next_id = self.next_id.wrapping_add(1);
        self.states.push((id, PauseState::Active));
        self.pending.push(QueuedOp { id, op, origin });
        assert(self.pending@.drop_last() =~= old(self).pending@);
        id
    }

    /// Applies a pause, resume or cancel request to operation `id`, or to
    /// every operation when `id` is `None`.
    pub fn request(&mut self, req: Request, id: Option<u64>)
        ensures
            final(self).states@ == Seq::new(old(self).states@.len(), |i: int| request_step(req, old(self).states@[i], id)),
            final(self).pending == old(self).pending,
            final(self).next_id == old(self).next_id,
            final(self).running_ids == old(self).running_ids,
            final(self).running_paths == old(self).running_paths,
            final(self).max_jobs == old(self).max_jobs,
    {
        let mut i: usize = 0;
        while i < self.states.len()
            invariant
                i <= self.states.len(),
                self.states@.len() == old(self).states@.len(),
                forall|k: int| 0 <= k < i ==> self.states@[k] == request_step(req, old(self).states@[k], id),
                forall|k: int| i <= k < self.states@.len() ==> self.states@[k] == old(self).states@[k],
                self.pending == old(self).pending,
                self.next_id == old(self).next_id,
                self.running_ids == old(self).running_ids,
                self.running_paths == old(self).running_paths,
                self.max_jobs == old(self).max_jobs,
            decreases self.states.len() - i,
        {
            let (sid, st) = self.states[i];
            let hit = match id {
                None => true,
                Some(x) => x == sid,
            };
            let next = if hit {
                match req {
                    Request::Pause => if st == PauseState::Active { PauseState::Paused } else { st },
                    Request::Resume => if st == PauseState::Paused { PauseState::Active } else { st },
                    Request::Cancel => PauseState::Cancelled,
                }
            } else {
                st
            };
            self.states.set(i, (sid, next));
            i += 1;
        }
        assert(self.states@ =~= Seq::new(old(self).states@.len(), |i: int| request_step(req, old(self).states@[i], id)));
    }

    /// Whether operation `id` is paused.
    pub fn is_paused(&self, id: u64) -> (r: bool)
        ensures
            r == exists|i: int| 0 <= i < self.states@.len() && self.states@[i] == (id, PauseState::Paused),
    {
        let mut i: usize = 0;
        while i < self.states.len()
            invariant
                i <= self.states.len(),
                forall|k: int| 0 <= k < i ==> self.states@[k] != (id, PauseState::Paused),
            decreases self.states.len() - i,
        {
            if self.states[i].0 == id && self.states[i].1 == PauseState::Paused {
                assert(self.states@[i as int] == (id, PauseState::Paused));
                return true;
            }
            i += 1;
        }
        false
    }

    /// Whether any operation is paused.
    pub fn any_paused(&self) -> (r: bool)
        ensures
            r == exists|i: int| 0 <= i < self.states@.len() && self.states@[i].1 == PauseState::Paused,
    {
        let mut i: usize = 0;
        while i < self.states.len()
            invariant
                i <= self.states.len(),
                forall|k: int| 0 <= k < i ==> self.states@[k].1 != PauseState::Paused,
            decreases self.states.len() - i,
        {
            if self.states[i].1 == PauseState::Paused {
                return true;
            }
            i += 1;
        }
        false
    }

    fn cancelled(&self, id: u64) -> (r: bool)
        ensures
            r == is_cancelled(self.states@, id),
    {
        let mut i: usize = 0;
        while i < self.states.len()
            invariant
                i <= self.states.len(),
                forall|k: int| 0 <= k < i ==> self.states@[k] != (id, PauseState::Cancelled),
            decreases self.states.len() - i,
        {
            if self.states[i].0 == id && self.states[i].1 == PauseState::Cancelled {
                assert(self.states@[i as int] == (id, PauseState::Cancelled));
                return true;
            }
            i += 1;
        }
        false
    }

    /// Drops the cancelled operations that never started, with their
    /// states, and returns them as (id, origin) for their `Cancelled` events.
    pub fn take_cancelled(&mut self) -> (r: Vec<(u64, OpOrigin)>)
        ensures
            r@ == dropped(old(self).pending@, old(self).states@),
            final(self).pending@ == live(old(self).pending@, old(self).states@),
            final(self).states@ == without_ids(old(self).states@, r@),
            final(self).next_id == old(self).next_id,
            final(self).running_ids == old(self).running_ids,
            final(self).running_paths == old(self).running_paths,
            final(self).max_jobs == old(self).max_jobs,
    {
        let mut waiting: Vec<QueuedOp> = Vec::new();
        std::mem::swap(&mut waiting, &mut self.pending);
        let n0 = waiting.len();
        let ghost p0 = waiting@;
        assert(p0.len() == n0);
        let ghost s0 = self.states@;
        let mut kept: Vec<QueuedOp> = Vec::new();
        let mut gone: Vec<(u64, OpOrigin)> = Vec::new();
        let mut i: usize = 0;
        assert(p0.take(0) =~= Seq::<QueuedOp>::empty());
        while waiting.len() > 0
            invariant
                i + waiting@.len() == p0.len(),
                p0.len() <= usize::MAX,
                waiting@ == p0.skip(i as int),
                self.states@ == s0,
                kept@ == live(p0.take(i as int), s0),
                gone@ == dropped(p0.take(i as int), s0),
            decreases waiting@.len(),
        {
            let q = waiting.remove(0);
            assert(p0.take(i + 1).drop_last() =~= p0.take(i as int));
            assert(p0.take(i + 1).last() == q);
            if self.cancelled(q.id) {
                gone.push((q.id, q.origin));
            } else {
                kept.push(q);
            }
            assert(waiting@ =~= p0.skip(i + 1));
            i += 1;
        }
        assert(p0.take(i as int) =~= p0);
        self.pending = kept;
        let mut st: Vec<(u64, PauseState)> = Vec::new();
        let mut j: usize = 0;
        assert(s0.take(0) =~= Seq::<(u64, PauseState)>::empty());
        while j < self.states.len()
            invariant
                j <= self.states.len(),
                self.states@ == s0,
                st@ == without_ids(s0.take(j as int), gone@),
            decreases self.states.len() - j,
        {
            assert(s0.take(j + 1).drop_last() =~= s0.take(j as int));
            assert(s0.take(j + 1).last() == s0[j as int]);
            let e = self.states[j];
            let mut k: usize = 0;
            let mut found = false;
            while k < gone.len()
                invariant
                    k <= gone.len(),
                    found == exists|x: int| 0 <= x < k && gone@[x].0 == e.0,
                decreases gone.len() - k,
            {
                if gone[k].0 == e.0 {
                    found = true;
                }
                k += 1;
            }
            if !found {
                st.push(e);
            }
            j += 1;
        }
        assert(s0.take(self.states.len() as int) =~= s0);
        self.states = st;
        gone
    }

    /// The operation a free worker takes next, if any (see `next_runnable`):
    /// it leaves the waiting list and holds its paths while it runs.
    pub fn pick_next(&mut self) -> (r: Option<QueuedOp>)
        requires
            old(self).running_ids@.len() == old(self).running_paths@.len(),
        ensures
            final(self).running_ids@.len() == final(self).running_paths@.len(),
            r is None ==> final(self).pending == old(self).pending && final(self).running_ids == old(self).running_ids
                && final(self).running_paths == old(self).running_paths,
            r is None ==> old(self).running_paths@.len() >= worker_cap(old(self).max_jobs as nat) || forall|j: int|
                0 <= j < old(self).pending@.len() ==> running_overlap_spec(
                    old(self).running_paths.deep_view(),
                    touch_spec((#[trigger] old(self).pending@[j]).op@),
                ),
            r matches Some(q) ==> exists|i: int| {
                &&& 0 <= i < old(self).pending@.len()
                &&& old(self).pending@[i] == q
                &&& final(self).pending@ == old(self).pending@.remove(i)
                &&& !running_overlap_spec(old(self).running_paths.deep_view(), touch_spec(q.op@))
                &&& forall|j: int| 0 <= j < i ==> running_overlap_spec(
                    old(self).running_paths.deep_view(),
                    touch_spec((#[trigger] old(self).pending@[j]).op@),
                )
            },
            r matches Some(q) ==> final(self).running_ids@ == old(self).running_ids@.push(q.id)
                && final(self).running_paths.deep_view() == old(self).running_paths.deep_view().push(touch_spec(q.op@)),
            final(self).states == old(self).states,
            final(self).next_id == old(self).next_id,
            final(self).max_jobs == old(self).max_jobs,
    {
        let mut ops: Vec<Operation> = Vec::new();
        let mut k: usize = 0;
        while k < self.pending.len()
            invariant
                k <= self.pending.len(),
                ops@.len() == k,
                forall|x: int| 0 <= x < k ==> (#[trigger] ops@[x])@ == self.pending@[x].op@,
            decreases self.pending.len() - k,
        {
            ops.push(self.pending[k].op.dup());
            k += 1;
        }
        match next_runnable(&ops, &self.running_paths, self.max_jobs) {
            None => {
                proof {
                    assert forall|j: int| 0 <= j < old(self).pending@.len() implies running_overlap_spec(
                        old(self).running_paths.deep_view(),
                        touch_spec((#[trigger] old(self).pending@[j]).op@),
                    ) || old(self).running_paths@.len() >= worker_cap(old(self).max_jobs as nat) by {
                        assert(ops@[j]@ == old(self).pending@[j].op@);
                    }
                }
                None
            },
            Some(i) => {
                let q = self.pending.remove(i);
                let t = touch_paths(&q.op);
                let ghost before = self.running_paths.deep_view();
                self.running_ids.push(q.id);
                self.running_paths.push(t);
                assert(self.running_paths.deep_view() =~= before.push(touch_spec(q.op@)));
                proof {
                    assert(ops@[i as int]@ == q.op@);
                    assert forall|j: int| 0 <= j < i implies running_overlap_spec(
                        old(self).running_paths.deep_view(),
                        touch_spec((#[trigger] old(self).pending@[j]).op@),
                    ) by {
                        assert(ops@[j]@ == old(self).pending@[j].op@);
                    }
                }
                Some(q)
            },
        }
    }

    /// Records that operation `id` finished: it stops holding its paths and
    /// its state is forgotten.
    pub fn finish(&mut self, id: u64)
        requires
            old(self).running_ids@.len() == old(self).running_paths@.len(),
        ensures
            final(self).running_ids@.len() == final(self).running_paths@.len(),
            !old(self).running_ids@.contains(id) ==> final(self).running_ids == old(self).running_ids
                && final(self).running_paths == old(self).running_paths,
            old(self).running_ids@.contains(id) ==> exists|i: int| 0 <= i < old(self).running_ids@.len()
                && old(self).running_ids@[i] == id
                && final(self).running_ids@ == old(self).running_ids@.remove(i)
                && final(self).running_paths@ == old(self).running_paths@.remove(i),
            final(self).states@ == drop_id(old(self).states@, id),
            final(self).pending == old(self).pending,
            final(self).next_id == old(self).next_id,
            final(self).max_jobs == old(self).max_jobs,
    {
        let mut i: usize = 0;
        while i < self.running_ids.len() && self.running_ids[i] != id
            invariant
                i <= self.running_ids.len(),
                self.running_ids == old(self).running_ids,
                self.running_paths == old(self).running_paths,
                forall|k: int| 0 <= k < i ==> self.running_ids@[k] != id,
            decreases self.running_ids.len() - i,
        {
            i += 1;
        }
        if i < self.running_ids.len() && self.running_ids[i] == id {
            let _ = self.running_ids.remove(i);
            let _ = self.running_paths.remove(i);
        } else {
            proof {
                assert(!old(self).running_ids@.contains(id)) by {
                    if old(self).running_ids@.contains(id) {
                        let k = choose|k: int| 0 <= k < old(self).running_ids@.len() && old(self).running_ids@[k] == id;
                        assert(k >= i);
                    }
                }
            }
        }
        let ghost s0 = self.states@;
        let mut st: Vec<(u64, PauseState)> = Vec::new();
        let mut j: usize = 0;
        assert(s0.take(0) =~= Seq::<(u64, PauseState)>::empty());
        while j < self.states.len()
            invariant
                j <= self.states.len(),
                self.states@ == s0,
                st@ == drop_id(s0.take(j as int), id),
            decreases self.states.len() - j,
        {
            let e = self.states[j];
            assert(s0.take(j + 1).drop_last() =~= s0.take(j as int));
            assert(s0.take(j + 1).last() == e);
            if e.0 != id {
                st.push(e);
            }
            j += 1;
        }
        assert(s0.take(self.states.len() as int) =~= s0);
        self.states = st;
    }
}


/// No two running operations hold overlapping paths.
pub open spec fn disjoint_runs(rs: Seq<Seq<Seq<char>>>) -> bool {
    forall|i: int, j: int| 0 <= i < rs.len() && 0 <= j < rs.len() && i != j ==> !crate::ops::lists_overlap(#[trigger] rs[i], #[trigger] rs[j])
}

/// Starting an operation that overlaps no running one keeps the running
/// operations apart: overlapping work never runs at the same time.
pub proof fn law_started_work_stays_apart(rs: Seq<Seq<Seq<char>>>, t: Seq<Seq<char>>)
    requires
        disjoint_runs(rs),
        !running_overlap_spec(rs, t),
    ensures
        disjoint_runs(rs.push(t)),
{
    let r2 = rs.push(t);
    assert forall|i: int, j: int| 0 <= i < r2.len() && 0 <= j < r2.len() && i != j implies !crate::ops::lists_overlap(#[trigger] r2[i], #[trigger] r2[j]) by {
        if i == rs.len() as int {
            assert(!crate::ops::lists_overlap(rs[j], t));
            if crate::ops::lists_overlap(t, rs[j]) {
                let (a, b) = choose|a: int, b: int| 0 <= a < t.len() && 0 <= b < rs[j].len() && crate::ops::overlap_spec(t[a], rs[j][b]);
                assert(crate::ops::overlap_spec(rs[j][b], t[a]));
            }
        } else if j == rs.len() as int {
            assert(!crate::ops::lists_overlap(rs[i], t));
        } else {
            assert(r2[i] == rs[i] && r2[j] == rs[j]);
        }
    }
}

/// A finished operation's paths leave the running set and the rest stay apart.
pub proof fn law_finishing_keeps_work_apart(rs: Seq<Seq<Seq<char>>>, k: int)
    requires
        disjoint_runs(rs),
        0 <= k < rs.len(),
    ensures
        disjoint_runs(rs.remove(k)),
{
    let r2 = rs.remove(k);
    assert forall|i: int, j: int| 0 <= i < r2.len() && 0 <= j < r2.len() && i != j implies !crate::ops::lists_overlap(#[trigger] r2[i], #[trigger] r2[j]) by {
        let oi = if i < k { i } else { i + 1 };
        let oj = if j < k { j } else { j + 1 };
        assert(r2[i] == rs[oi] && r2[j] == rs[oj]);
    }
}

/// Resuming undoes a pause of an operation that was active; a cancelled
/// operation stays cancelled whatever is asked of it later.
pub proof fn law_pause_resume_cancel(e: (u64, PauseState), id: Option<u64>, req: Request)
    ensures
        e.1 == PauseState::Active ==> resume_step(pause_step(e, id), id) == e,
        e.1 == PauseState::Cancelled ==> request_step(req, e, id).1 == PauseState::Cancelled,
        cancel_step(e, id).1 == PauseState::Cancelled || (id matches Some(x) && x != e.0),
{
}

} // verus!
