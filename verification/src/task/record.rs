//! How many times a task has made each system call.
use vstd::prelude::*;

verus! {

/// The count recorded for `id`, or 0 when `id` was never recorded.
pub open spec fn times(v: Seq<(usize, usize)>, id: usize) -> usize
    decreases v.len(),
{
    if v.len() == 0 {
        0
    } else if v.last().0 == id {
        v.last().1
    } else {
        times(v.drop_last(), id)
    }
}

/// Each id occurs at most once.
pub open spec fn ids_unique(v: Seq<(usize, usize)>) -> bool {
    forall|i: int, k: int| 0 <= i < v.len() && 0 <= k < v.len() && i != k ==> #[trigger] v[i].0 != #[trigger] v[k].0
}

proof fn lemma_times_at(v: Seq<(usize, usize)>, i: int)
    requires
        ids_unique(v),
        0 <= i < v.len(),
    ensures
        times(v, v[i].0) == v[i].1,
    decreases v.len(),
{
    if i < v.len() - 1 {
        assert(v.last().0 != v[i].0);
        assert(v.drop_last()[i] == v[i]);
        lemma_times_at(v.drop_last(), i);
    }
}

proof fn lemma_times_absent(v: Seq<(usize, usize)>, id: usize)
    requires
        forall|i: int| 0 <= i < v.len() ==> #[trigger] v[i].0 != id,
    ensures
        times(v, id) == 0,
    decreases v.len(),
{
    if v.len() > 0 {
        assert(v[v.len() - 1].0 != id);
        assert forall|i: int| 0 <= i < v.drop_last().len() implies #[trigger] v.drop_last()[i].0 != id by {
            assert(v.drop_last()[i] == v[i]);
        }
        lemma_times_absent(v.drop_last(), id);
    }
}

/// Counts of the system calls a task made, by system call id.
pub struct TaskRecord {
    syscall: Vec<(usize, usize)>,
}

impl TaskRecord {
    /// Each system call id has one entry.
    pub closed spec fn wf(&self) -> bool {
        ids_unique(self.syscall@)
    }

    /// How many times system call `id` was recorded.
    pub closed spec fn count(&self, id: usize) -> usize {
        times(self.syscall@, id)
    }

    /// A record of no calls.
    pub fn new() -> (r: Self)
        ensures
            r.wf(),
            forall|id: usize| r.count(id) == 0,
    {
        TaskRecord { syscall: Vec::new() }
    }

    /// Records one more call of `target_id`.
    pub fn record_syscall(&mut self, target_id: usize)
        requires
            old(self).wf(),
            old(self).count(target_id) < usize::MAX,
        ensures
            final(self).wf(),
            final(self).count(target_id) == old(self).count(target_id) + 1,
            forall|id: usize| id != target_id ==> final(self).count(id) == old(self).count(id),
    {
        let mut i: usize = 0;
        while i < self.syscall.len()
            invariant
                i <= self.syscall.len(),
                self.syscall@ == old(self).syscall@,
                ids_unique(old(self).syscall@),
                times(old(self).syscall@, target_id) < usize::MAX,
                forall|q: int| 0 <= q < i ==> #[trigger] self.syscall@[q].0 != target_id,
            decreases self.syscall.len() - i,
        {
            if self.syscall[i].0 == target_id {
                let ghost v = self.syscall@;
                proof {
                    lemma_times_at(v, i as int);
                }
                let n = self.syscall[i].1;
                self.syscall.set(i, (target_id, n + 1));
                proof {
                    let nv = self.syscall@;
                    assert(ids_unique(nv));
                    lemma_times_at(nv, i as int);
                    assert forall|id: usize| id != target_id implies times(nv, id) == times(v, id) by {
                        if exists|p: int| 0 <= p < v.len() && #[trigger] v[p].0 == id {
                            let p = choose|p: int| 0 <= p < v.len() && #[trigger] v[p].0 == id;
                            assert(nv[p] == v[p]);
                            lemma_times_at(v, p);
                            lemma_times_at(nv, p);
                        } else {
                            lemma_times_absent(v, id);
                            assert forall|p: int| 0 <= p < nv.len() implies #[trigger] nv[p].0 != id by {
                                if p != i {
                                    assert(nv[p] == v[p]);
                                }
                            }
                            lemma_times_absent(nv, id);
                        }
                    }
                }
                return;
            }
            i = i + 1;
        }
        let ghost v = self.syscall@;
        proof {
            lemma_times_absent(v, target_id);
        }
        self.syscall.push((target_id, 1));
        proof {
            let nv = self.syscall@;
            assert(nv.drop_last() =~= v);
            assert forall|p: int, q: int| 0 <= p < nv.len() && 0 <= q < nv.len() && p != q implies #[trigger] nv[p].0
                != #[trigger] nv[q].0 by {
                if p < v.len() {
                    assert(nv[p] == v[p]);
                }
                if q < v.len() {
                    assert(nv[q] == v[q]);
                }
            }
        }
    }

    /// How many times `target_id` was recorded.
    pub fn count_syscall(&self, target_id: usize) -> (n: usize)
        requires
            self.wf(),
        ensures
            n == self.count(target_id),
    {
        let mut i: usize = 0;
        while i < self.syscall.len()
            invariant
                i <= self.syscall.len(),
                ids_unique(self.syscall@),
                forall|q: int| 0 <= q < i ==> #[trigger] self.syscall@[q].0 != target_id,
            decreases self.syscall.len() - i,
        {
            if self.syscall[i].0 == target_id {
                proof {
                    lemma_times_at(self.syscall@, i as int);
                }
                return self.syscall[i].1;
            }
            i = i + 1;
        }
        proof {
            lemma_times_absent(self.syscall@, target_id);
        }
        0
    }
}

} // verus!
