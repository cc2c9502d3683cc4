//! The ready queue of the stride scheduler.
//!
//! Each entry is a ready task's pid with its pass value; the queue is kept
//! ordered by pass, and a task joins behind every task whose pass is not
//! greater than its own, so the front always has the smallest pass and equal
//! passes run in arrival order.
use vstd::prelude::*;
use std::collections::VecDeque;

verus! {

/// Entries are ordered by pass.
pub open spec fn sorted_by_pass(q: Seq<(usize, u32)>) -> bool {
    forall|i: int, j: int| 0 <= i <= j < q.len() ==> #[trigger] q[i].1 <= #[trigger] q[j].1
}

/// Where a task with `pass` joins `q`: before the first entry whose pass is
/// greater, or at the back when there is none.
pub open spec fn is_insert_pos(q: Seq<(usize, u32)>, pass: u32, pos: int) -> bool {
    &&& 0 <= pos <= q.len()
    &&& forall|i: int| 0 <= i < pos ==> #[trigger] q[i].1 <= pass
    &&& pos < q.len() ==> q[pos].1 > pass
}

/// The ready queue.
pub struct TaskManager {
    pub ready_queue: VecDeque<(usize, u32)>,
}

impl TaskManager {
    /// The queued (pid, pass) entries, front first.
    pub open spec fn view(&self) -> Seq<(usize, u32)> {
        self.ready_queue@
    }

    /// An empty ready queue.
    pub fn new() -> (m: Self)
        ensures
            m@ == Seq::<(usize, u32)>::empty(),
    {
        TaskManager { ready_queue: VecDeque::new() }
    }

    /// Queues task `pid`, whose pass is `pass`, before the first queued task
    /// with a greater pass, or at the back.
    pub fn add(&mut self, pid: usize, pass: u32)
        ensures
            exists|pos: int|
                is_insert_pos(old(self)@, pass, pos) && final(self)@ == old(self)@.insert(pos, (pid, pass)),
    {
        let mut i: usize = 0;
        while i < self.ready_queue.len()
            invariant
                i <= self.ready_queue@.len(),
                self.ready_queue@ == old(self)@,
                forall|q: int| 0 <= q < i ==> #[trigger] self.ready_queue@[q].1 <= pass,
            decreases self.ready_queue@.len() - i,
        {
            if self.ready_queue[i].1 > pass {
                self.ready_queue.insert(i, (pid, pass));
                assert(is_insert_pos(old(self)@, pass, i as int));
                return;
            }
            i = i + 1;
        }
        self.ready_queue.push_back((pid, pass));
        proof {
            let n = old(self)@.len() as int;
            assert(is_insert_pos(old(self)@, pass, n));
            assert(old(self)@.insert(n, (pid, pass)) =~= old(self)@.push((pid, pass)));
        }
    }

    /// Takes the task at the front of the queue.
    pub fn fetch(&mut self) -> (t: Option<(usize, u32)>)
        ensures
            old(self)@.len() == 0 ==> t is None && final(self)@ == old(self)@,
            old(self)@.len() > 0 ==> t == Some(old(self)@[0]) && final(self)@ == old(self)@.drop_first(),
    {
        let r = self.ready_queue.pop_front();
        proof {
            if old(self)@.len() > 0 {
                assert(old(self)@.subrange(1, old(self)@.len() as int) =~= old(self)@.drop_first());
            }
        }
        r
    }
}

/// Adding a task keeps the queue ordered by pass, and the new task follows
/// every queued task whose pass is not greater than its own.
pub proof fn law_add_keeps_order(q: Seq<(usize, u32)>, pid: usize, pass: u32, pos: int)
    requires
        sorted_by_pass(q),
        is_insert_pos(q, pass, pos),
    ensures
        sorted_by_pass(q.insert(pos, (pid, pass))),
        forall|i: int| 0 <= i < q.len() && q[i].1 <= pass ==> i < pos,
{
    let r = q.insert(pos, (pid, pass));
    assert forall|i: int, j: int| 0 <= i <= j < r.len() implies #[trigger] r[i].1 <= #[trigger] r[j].1 by {
        if i < pos && j < pos {
            assert(r[i] == q[i] && r[j] == q[j]);
        } else if i < pos && j == pos {
            assert(r[i] == q[i]);
        } else if i < pos {
            assert(r[i] == q[i] && r[j] == q[j - 1]);
        } else if i == pos && j > pos {
            assert(r[j] == q[j - 1]);
            assert(q[pos].1 <= q[j - 1].1);
        } else if i > pos {
            assert(r[i] == q[i - 1] && r[j] == q[j - 1]);
        }
    }
    assert forall|i: int| 0 <= i < q.len() && q[i].1 <= pass implies i < pos by {
        if i >= pos {
            assert(q[pos].1 <= q[i].1);
        }
    }
}

/// The front of an ordered queue has the smallest pass.
pub proof fn law_front_has_min_pass(q: Seq<(usize, u32)>)
    requires
        sorted_by_pass(q),
        q.len() > 0,
    ensures
        forall|i: int| 0 <= i < q.len() ==> q[0].1 <= #[trigger] q[i].1,
{
}

} // verus!
