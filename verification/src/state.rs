//! Bookkeeping of running downloads: the process handle of each active task
//! and the set of tasks whose cancellation was requested.
use vstd::prelude::*;
use crate::text::str_eq;

verus! {

/// Running download processes (handles of type `C`) and cancellations,
/// keyed by task id. A front end shares one instance between its threads
/// behind a lock.
pub struct DownloadManager<C> {
    active_tasks: Vec<(String, C)>,
    cancelled_tasks: Vec<String>,
}

pub open spec fn has_key<C>(s: Seq<(String, C)>, k: Seq<char>) -> bool {
    exists|i: int| 0 <= i < s.len() && (#[trigger] s[i]).0@ == k
}

pub open spec fn keys_distinct<C>(s: Seq<(String, C)>) -> bool {
    forall|i: int, j: int| 0 <= i < s.len() && 0 <= j < s.len() && i != j ==> (#[trigger] s[i]).0@
        != (#[trigger] s[j]).0@
}

pub open spec fn names_distinct(s: Seq<String>) -> bool {
    forall|i: int, j: int| 0 <= i < s.len() && 0 <= j < s.len() && i != j ==> (#[trigger] s[i])@
        != (#[trigger] s[j])@
}

/// The handle stored under `k`.
pub open spec fn value_at<C>(s: Seq<(String, C)>, k: Seq<char>) -> C {
    s[choose|i: int| 0 <= i < s.len() && (#[trigger] s[i]).0@ == k].1
}

pub open spec fn pairs_map<C>(s: Seq<(String, C)>) -> Map<Seq<char>, C> {
    Map::new(|k: Seq<char>| has_key(s, k), |k: Seq<char>| value_at(s, k))
}

pub open spec fn names_set(s: Seq<String>) -> Set<Seq<char>> {
    Set::new(|k: Seq<char>| exists|i: int| 0 <= i < s.len() && (#[trigger] s[i])@ == k)
}

proof fn lemma_value_at<C>(s: Seq<(String, C)>, i: int)
    requires
        keys_distinct(s),
        0 <= i < s.len(),
    ensures
        value_at(s, s[i].0@) == s[i].1,
{
    let k = s[i].0@;
    let j = choose|j: int| 0 <= j < s.len() && (#[trigger] s[j]).0@ == k;
    assert(s[i].0@ == k);
    if j != i {
        assert(s[j].0@ != s[i].0@);
    }
}

impl<C> DownloadManager<C> {
    #[verifier::type_invariant]
    spec fn inv(&self) -> bool {
        keys_distinct(self.active_tasks@) && names_distinct(self.cancelled_tasks@)
    }

    /// The handles of the active tasks, by task id.
    pub closed spec fn active(&self) -> Map<Seq<char>, C> {
        pairs_map(self.active_tasks@)
    }

    /// The ids of the tasks whose cancellation was requested.
    pub closed spec fn cancelled(&self) -> Set<Seq<char>> {
        names_set(self.cancelled_tasks@)
    }

    /// An empty manager.
    pub fn new() -> (r: Self)
        ensures
            r.active() == Map::<Seq<char>, C>::empty(),
            r.cancelled() == Set::<Seq<char>>::empty(),
    {
        let r = DownloadManager { active_tasks: Vec::new(), cancelled_tasks: Vec::new() };
        assert(r.active() =~= Map::<Seq<char>, C>::empty());
        assert(r.cancelled() =~= Set::<Seq<char>>::empty());
        r
    }

    fn find_active(&self, task_id: &str) -> (r: Option<usize>)
        ensures
            r matches Some(i) ==> i < self.active_tasks@.len() && self.active_tasks@[i as int].0@
                == task_id@,
            r is None ==> !has_key(self.active_tasks@, task_id@),
    {
        let mut i: usize = 0;
        while i < self.active_tasks.len()
            invariant
                i <= self.active_tasks@.len(),
                forall|j: int| 0 <= j < i ==> (#[trigger] self.active_tasks@[j]).0@ != task_id@,
            decreases self.active_tasks.len() - i,
        {
            if str_eq(self.active_tasks[i].0.as_str(), task_id) {
                return Some(i);
            }
            i += 1;
        }
        None
    }

    fn find_cancelled(&self, task_id: &str) -> (r: Option<usize>)
        ensures
            r matches Some(i) ==> i < self.cancelled_tasks@.len() && self.cancelled_tasks@[i as int]@
                == task_id@,
            r is None ==> !names_set(self.cancelled_tasks@).contains(task_id@),
    {
        let mut i: usize = 0;
        while i < self.cancelled_tasks.len()
            invariant
                i <= self.cancelled_tasks@.len(),
                forall|j: int| 0 <= j < i ==> (#[trigger] self.cancelled_tasks@[j])@ != task_id@,
            decreases self.cancelled_tasks.len() - i,
        {
            if str_eq(self.cancelled_tasks[i].as_str(), task_id) {
                return Some(i);
            }
            i += 1;
        }
        None
    }

    /// Stores the process handle of a task, replacing any earlier one.
    pub fn insert_task(&mut self, task_id: String, child: C) -> (r: Result<(), String>)
        ensures
            r is Ok,
            final(self).active() == old(self).active().insert(task_id@, child),
            final(self).cancelled() == old(self).cancelled(),
    {
        proof {
            use_type_invariant(&*self);
        }
        let ghost k = task_id@;
        let ghost s0 = self.active_tasks@;
        let found = self.find_active(task_id.as_str());
        let mut tasks = Vec::new();
        std::mem::swap(&mut tasks, &mut self.active_tasks);
        match found {
            Some(i) => {
                tasks.remove(i);
            },
            None => {},
        }
        let ghost s1 = tasks@;
        tasks.push((task_id, child));
        proof {
            assert forall|a: int, b: int| 0 <= a < tasks@.len() && 0 <= b < tasks@.len() && a != b
                implies (#[trigger] tasks@[a]).0@ != (#[trigger] tasks@[b]).0@ by {
                if a < s1.len() && b < s1.len() {
                    if let Some(i) = found {
                        let ia = if a < i { a } else { a + 1 };
                        let ib = if b < i { b } else { b + 1 };
                        assert(s1[a] == s0[ia]);
                        assert(s1[b] == s0[ib]);
                    } else {
                        assert(s1[a] == s0[a]);
                        assert(s1[b] == s0[b]);
                    }
                } else if a == s1.len() {
                    if let Some(i) = found {
                        let ib = if b < i { b } else { b + 1 };
                        assert(s1[b] == s0[ib]);
                    } else {
                        assert(s1[b] == s0[b]);
                    }
                } else {
                    if let Some(i) = found {
                        let ia = if a < i { a } else { a + 1 };
                        assert(s1[a] == s0[ia]);
                    } else {
                        assert(s1[a] == s0[a]);
                    }
                }
            }
            assert forall|x: Seq<char>| #![auto]
                pairs_map(tasks@).dom().contains(x) <==> pairs_map(s0).insert(k, child).dom().contains(x)
            by {
                if x != k {
                    if has_key(s0, x) {
                        let j = choose|j: int| 0 <= j < s0.len() && (#[trigger] s0[j]).0@ == x;
                        if let Some(i) = found {
                            assert(j != i);
                            let jj = if j < i { j } else { j - 1 };
                            assert(tasks@[jj] == s0[j]);
                        } else {
                            assert(tasks@[j] == s0[j]);
                        }
                    }
                    if has_key(tasks@, x) {
                        let j = choose|j: int| 0 <= j < tasks@.len() && (#[trigger] tasks@[j]).0@ == x;
                        if let Some(i) = found {
                            let jj = if j < i { j } else { j + 1 };
                            assert(s0[jj] == tasks@[j]);
                        } else {
                            assert(s0[j] == tasks@[j]);
                        }
                    }
                } else {
                    assert(tasks@[s1.len() as int].0@ == k);
                }
            }
            assert forall|x: Seq<char>| #![auto] pairs_map(tasks@).dom().contains(x) implies pairs_map(
                tasks@,
            )[x] == pairs_map(s0).insert(k, child)[x] by {
                if x == k {
                    lemma_value_at(tasks@, s1.len() as int);
                } else {
                    let j = choose|j: int| 0 <= j < tasks@.len() && (#[trigger] tasks@[j]).0@ == x;
                    lemma_value_at(tasks@, j);
                    if let Some(i) = found {
                        let jj = if j < i { j } else { j + 1 };
                        assert(s0[jj] == tasks@[j]);
                        lemma_value_at(s0, jj);
                    } else {
                        assert(s0[j] == tasks@[j]);
                        lemma_value_at(s0, j);
                    }
                }
            }
            assert(pairs_map(tasks@) =~= pairs_map(s0).insert(k, child));
        }
        self.active_tasks = tasks;
        Ok(())
    }

    /// Removes and returns the process handle of a task.
    pub fn remove_task(&mut self, task_id: &str) -> (r: Result<Option<C>, String>)
        ensures
            r matches Ok(c) && (c == if old(self).active().dom().contains(task_id@) {
                Some(old(self).active()[task_id@])
            } else {
                None::<C>
            }),
            final(self).active() == old(self).active().remove(task_id@),
            final(self).cancelled() == old(self).cancelled(),
    {
        proof {
            use_type_invariant(&*self);
        }
        let ghost k = task_id@;
        let ghost s0 = self.active_tasks@;
        let found = self.find_active(task_id);
        match found {
            Some(i) => {
                let mut tasks = Vec::new();
                std::mem::swap(&mut tasks, &mut self.active_tasks);
                let (_, child) = tasks.remove(i);
                proof {
                    lemma_value_at(s0, i as int);
                    assert forall|a: int, b: int| 0 <= a < tasks@.len() && 0 <= b < tasks@.len() && a
                        != b implies (#[trigger] tasks@[a]).0@ != (#[trigger] tasks@[b]).0@ by {
                        let ia = if a < i { a } else { a + 1 };
                        let ib = if b < i { b } else { b + 1 };
                        assert(tasks@[a] == s0[ia]);
                        assert(tasks@[b] == s0[ib]);
                    }
                    assert forall|x: Seq<char>| #![auto]
                        pairs_map(tasks@).dom().contains(x) <==> pairs_map(s0).remove(k).dom().contains(x)
                    by {
                        if has_key(s0, x) && x != k {
                            let j = choose|j: int| 0 <= j < s0.len() && (#[trigger] s0[j]).0@ == x;
                            assert(j != i);
                            let jj = if j < i { j } else { j - 1 };
                            assert(tasks@[jj] == s0[j]);
                        }
                        if has_key(tasks@, x) {
                            let j = choose|j: int| 0 <= j < tasks@.len() && (#[trigger] tasks@[j]).0@ == x;
                            let jj = if j < i { j } else { j + 1 };
                            assert(s0[jj] == tasks@[j]);
                            assert(jj != i);
                        }
                    }
                    assert forall|x: Seq<char>| #![auto] pairs_map(tasks@).dom().contains(x) implies pairs_map(
                        tasks@,
                    )[x] == pairs_map(s0).remove(k)[x] by {
                        let j = choose|j: int| 0 <= j < tasks@.len() && (#[trigger] tasks@[j]).0@ == x;
                        lemma_value_at(tasks@, j);
                        let jj = if j < i { j } else { j + 1 };
                        assert(s0[jj] == tasks@[j]);
                        lemma_value_at(s0, jj);
                    }
                    assert(pairs_map(tasks@) =~= pairs_map(s0).remove(k));
                }
                self.active_tasks = tasks;
                Ok(Some(child))
            },
            None => {
                assert(pairs_map(s0).remove(k) =~= pairs_map(s0));
                Ok(None)
            },
        }
    }

    /// Marks a task as cancelled.
    pub fn mark_cancelled(&mut self, task_id: &str) -> (r: Result<(), String>)
        ensures
            r is Ok,
            final(self).cancelled() == old(self).cancelled().insert(task_id@),
            final(self).active() == old(self).active(),
    {
        proof {
            use_type_invariant(&*self);
        }
        let ghost s0 = self.cancelled_tasks@;
        match self.find_cancelled(task_id) {
            Some(i) => {
                assert(names_set(s0).insert(task_id@) =~= names_set(s0));
            },
            None => {
                let mut c = Vec::new();
                std::mem::swap(&mut c, &mut self.cancelled_tasks);
                c.push(String::from_str(task_id));
                proof {
                    assert(c@.last()@ == task_id@);
                    assert forall|a: int, b: int| 0 <= a < c@.len() && 0 <= b < c@.len() && a != b
                        implies (#[trigger] c@[a])@ != (#[trigger] c@[b])@ by {
                        if a < s0.len() && b < s0.len() {
                            assert(c@[a] == s0[a] && c@[b] == s0[b]);
                        } else if a < s0.len() {
                            assert(c@[a] == s0[a]);
                        } else {
                            assert(c@[b] == s0[b]);
                        }
                    }
                    assert forall|x: Seq<char>| names_set(c@).contains(x) <==> names_set(s0).insert(
                        task_id@,
                    ).contains(x) by {
                        if names_set(s0).contains(x) {
                            let j = choose|j: int| 0 <= j < s0.len() && (#[trigger] s0[j])@ == x;
                            assert(c@[j] == s0[j]);
                        }
                        if names_set(c@).contains(x) {
                            let j = choose|j: int| 0 <= j < c@.len() && (#[trigger] c@[j])@ == x;
                            if j < s0.len() {
                                assert(c@[j] == s0[j]);
                            }
                        }
                        if x == task_id@ {
                            assert(c@[s0.len() as int]@ == x);
                        }
                    }
                    assert(names_set(c@) =~= names_set(s0).insert(task_id@));
                }
                self.cancelled_tasks = c;
            },
        }
        Ok(())
    }

    /// Whether the cancellation of a task was requested.
    pub fn is_cancelled(&self, task_id: &str) -> (r: bool)
        ensures
            r == self.cancelled().contains(task_id@),
    {
        match self.find_cancelled(task_id) {
            Some(i) => {
                assert(names_set(self.cancelled_tasks@).contains(task_id@));
                true
            },
            None => false,
        }
    }

    /// Forgets the cancellation of a task; returns whether it was marked.
    pub fn clear_cancelled(&mut self, task_id: &str) -> (r: bool)
        ensures
            r == old(self).cancelled().contains(task_id@),
            final(self).cancelled() == old(self).cancelled().remove(task_id@),
            final(self).active() == old(self).active(),
    {
        proof {
            use_type_invariant(&*self);
        }
        let ghost s0 = self.cancelled_tasks@;
        match self.find_cancelled(task_id) {
            Some(i) => {
                let mut c = Vec::new();
                std::mem::swap(&mut c, &mut self.cancelled_tasks);
                c.remove(i);
                proof {
                    assert(names_set(s0).contains(task_id@));
                    assert forall|a: int, b: int| 0 <= a < c@.len() && 0 <= b < c@.len() && a != b
                        implies (#[trigger] c@[a])@ != (#[trigger] c@[b])@ by {
                        let ia = if a < i { a } else { a + 1 };
                        let ib = if b < i { b } else { b + 1 };
                        assert(c@[a] == s0[ia]);
                        assert(c@[b] == s0[ib]);
                    }
                    assert forall|x: Seq<char>| names_set(c@).contains(x) <==> names_set(s0).remove(
                        task_id@,
                    ).contains(x) by {
                        if names_set(s0).contains(x) && x != task_id@ {
                            let j = choose|j: int| 0 <= j < s0.len() && (#[trigger] s0[j])@ == x;
                            assert(j != i);
                            let jj = if j < i { j } else { j - 1 };
                            assert(c@[jj] == s0[j]);
                        }
                        if names_set(c@).contains(x) {
                            let j = choose|j: int| 0 <= j < c@.len() && (#[trigger] c@[j])@ == x;
                            let jj = if j < i { j } else { j + 1 };
                            assert(s0[jj] == c@[j]);
                            assert(jj != i);
                        }
                    }
                    assert(names_set(c@) =~= names_set(s0).remove(task_id@));
                }
                self.cancelled_tasks = c;
                true
            },
            None => {
                assert(names_set(s0).remove(task_id@) =~= names_set(s0));
                false
            },
        }
    }
}

impl<C> Default for DownloadManager<C> {
    fn default() -> (r: Self)
        ensures
            r.active() == Map::<Seq<char>, C>::empty(),
            r.cancelled() == Set::<Seq<char>>::empty(),
    {
        Self::new()
    }
}

/// Cancellation round trip: after `mark_cancelled(k)` the task `k` counts as
/// cancelled; a following `clear_cancelled(k)` answers `true` and leaves the
/// set as a plain removal of `k` would, so `k` no longer counts as cancelled.
pub proof fn law_cancel_then_clear<C>(m: DownloadManager<C>, k: Seq<char>)
    ensures
        m.cancelled().insert(k).contains(k),
        m.cancelled().insert(k).remove(k) == m.cancelled().remove(k),
        !m.cancelled().insert(k).remove(k).contains(k),
{
    assert(m.cancelled().insert(k).remove(k) =~= m.cancelled().remove(k));
}

/// Task round trip: `remove_task(k)` right after `insert_task(k, c)` hands
/// back `c`, and the active tasks are then those before the insertion
/// without `k`.
pub proof fn law_insert_then_remove<C>(m: DownloadManager<C>, k: Seq<char>, c: C)
    ensures
        m.active().insert(k, c).dom().contains(k),
        m.active().insert(k, c)[k] == c,
        m.active().insert(k, c).remove(k) == m.active().remove(k),
{
    assert(m.active().insert(k, c).remove(k) =~= m.active().remove(k));
}

} // verus!
