use vstd::prelude::*;
use crate::runtime::Entry;

verus! {

/// Entries whose times never decrease from front to back.
pub open spec fn sorted_by_time<M>(s: Seq<Entry<M>>) -> bool {
    forall|i: int, j: int| 0 <= i <= j < s.len() ==> #[trigger] s[i].at <= #[trigger] s[j].at
}

/// The number of leading entries due at or before `t`.
pub open spec fn due_prefix<M>(s: Seq<Entry<M>>, t: u64) -> nat
    decreases s.len(),
{
    if s.len() == 0 || s[0].at > t {
        0
    } else {
        1 + due_prefix(s.drop_first(), t)
    }
}

/// In entries ordered by time, the first `due_prefix(s, t)` entries are due at
/// or before `t` and all others after it.
pub proof fn lemma_due_prefix<M>(s: Seq<Entry<M>>, t: u64)
    requires
        sorted_by_time(s),
    ensures
        due_prefix(s, t) <= s.len(),
        forall|i: int| 0 <= i < due_prefix(s, t) ==> #[trigger] s[i].at <= t,
        forall|i: int| due_prefix(s, t) <= i < s.len() ==> #[trigger] s[i].at > t,
    decreases s.len(),
{
    if s.len() == 0 || s[0].at > t {
        assert forall|i: int| due_prefix(s, t) <= i < s.len() implies #[trigger] s[i].at > t by {
            assert(s[0].at <= s[i].at);
        }
    } else {
        let r = s.drop_first();
        assert(sorted_by_time(r)) by {
            assert forall|i: int, j: int| 0 <= i <= j < r.len() implies #[trigger] r[i].at
                <= #[trigger] r[j].at by {
                assert(s[i + 1].at <= s[j + 1].at);
            }
        }
        lemma_due_prefix(r, t);
        assert forall|i: int| 0 <= i < due_prefix(s, t) implies #[trigger] s[i].at <= t by {
            if i > 0 {
                assert(s[i] == r[i - 1]);
            }
        }
        assert forall|i: int| due_prefix(s, t) <= i < s.len() implies #[trigger] s[i].at > t by {
            assert(s[i] == r[i - 1]);
        }
    }
}

/// Delayed envelopes, kept in the order in which they fall due; among
/// entries due at the same time, the one added first comes first.
pub struct TaskQueue<M> {
    entries: Vec<Entry<M>>,
}

impl<M> View for TaskQueue<M> {
    type V = Seq<Entry<M>>;

    closed spec fn view(&self) -> Seq<Entry<M>> {
        self.entries@
    }
}

impl<M> TaskQueue<M> {
    /// The entries are ordered by time.
    pub open spec fn wf(&self) -> bool {
        sorted_by_time(self@)
    }

    /// No entry waits.
    pub fn new() -> (q: Self)
        ensures
            q@ == Seq::<Entry<M>>::empty(),
            q.wf(),
    {
        TaskQueue { entries: Vec::new() }
    }

    /// The number of waiting entries.
    pub fn len(&self) -> (n: usize)
        ensures
            n == self@.len(),
    {
        self.entries.len()
    }

    /// The time of the entry that falls due first, if any entry waits.
    pub fn first_at(&self) -> (r: Option<u64>)
        ensures
            r == (if self@.len() > 0 { Some(self@[0].at) } else { None::<u64> }),
    {
        if self.entries.len() > 0 {
            Some(self.entries[0].at)
        } else {
            None
        }
    }

    /// Adds an entry after every entry due at or before its time, and before
    /// every entry due later.
    pub fn push(&mut self, e: Entry<M>)
        requires
            old(self).wf(),
        ensures
            final(self).wf(),
            final(self)@ == old(self)@.insert(due_prefix(old(self)@, e.at) as int, e),
    {
        proof {
            lemma_due_prefix(self@, e.at);
        }
        let mut k: usize = 0;
        while k < self.entries.len() && self.entries[k].at <= e.at
            invariant
                self.wf(),
                k <= self.entries@.len(),
                forall|i: int| 0 <= i < k ==> #[trigger] self.entries@[i].at <= e.at,
            decreases self.entries@.len() - k,
        {
            k = k + 1;
        }
        let ghost old_entries = self.entries@;
        proof {
            assert forall|i: int| k <= i < old_entries.len() implies #[trigger] old_entries[i].at
                > e.at by {
                assert(old_entries[k as int].at > e.at);
                assert(old_entries[k as int].at <= old_entries[i].at);
            }
        }
        let ghost at = e.at;
        self.entries.insert(k, e);
        proof {
            let ne = self.entries@;
            assert forall|i: int, j: int| 0 <= i <= j < ne.len() implies #[trigger] ne[i].at
                <= #[trigger] ne[j].at by {
                if i < k {
                    if j < k {
                        assert(old_entries[i].at <= old_entries[j].at);
                    } else if j > k {
                        assert(old_entries[i].at <= old_entries[j - 1].at);
                    }
                } else if i == k {
                    if j > k {
                        assert(old_entries[j - 1].at > at);
                    }
                } else {
                    assert(old_entries[i - 1].at <= old_entries[j - 1].at);
                }
            }
            assert(k == due_prefix(old_entries, at)) by {
                lemma_due_prefix(old_entries, at);
                if k < due_prefix(old_entries, at) {
                    assert(old_entries[k as int].at <= at);
                } else if k > due_prefix(old_entries, at) {
                    let d = due_prefix(old_entries, at) as int;
                    assert(old_entries[d].at > at);
                }
            }
        }
    }

    /// Takes out every entry due at or before `threshold`, in order.
    pub fn pop_due(&mut self, threshold: u64) -> (due: Vec<Entry<M>>)
        requires
            old(self).wf(),
        ensures
            final(self).wf(),
            due@ == old(self)@.take(due_prefix(old(self)@, threshold) as int),
            final(self)@ == old(self)@.skip(due_prefix(old(self)@, threshold) as int),
    {
        proof {
            lemma_due_prefix(self@, threshold);
        }
        let mut k: usize = 0;
        while k < self.entries.len() && self.entries[k].at <= threshold
            invariant
                self.wf(),
                k <= self.entries@.len(),
                forall|i: int| 0 <= i < k ==> #[trigger] self.entries@[i].at <= threshold,
            decreases self.entries@.len() - k,
        {
            k = k + 1;
        }
        let ghost old_entries = self.entries@;
        let mut due = self.entries.split_off(k);
        std::mem::swap(&mut due, &mut self.entries);
        proof {
            assert forall|i: int| 0 <= i < self.entries@.len() implies #[trigger] self.entries@[i].at
                > threshold by {
                assert(self.entries@[i] == old_entries[k + i]);
                assert(old_entries[k as int].at <= old_entries[k + i].at);
            }
            assert forall|i: int, j: int| 0 <= i <= j < self.entries@.len() implies #[trigger] self.entries@[i].at
                <= #[trigger] self.entries@[j].at by {
                assert(self.entries@[i] == old_entries[k + i]);
                assert(self.entries@[j] == old_entries[k + j]);
            }
            assert(k == due_prefix(old_entries, threshold)) by {
                lemma_due_prefix(old_entries, threshold);
                if k < due_prefix(old_entries, threshold) {
                    assert(old_entries[k as int].at <= threshold);
                } else if k > due_prefix(old_entries, threshold) {
                    let d = due_prefix(old_entries, threshold) as int;
                    assert(old_entries[d].at > threshold);
                }
            }
            assert(due@ =~= old_entries.take(k as int));
            assert(self.entries@ =~= old_entries.skip(k as int));
        }
        due
    }
}

} // verus!
