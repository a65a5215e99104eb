//! A process-wide collection of named counters.
//!
//! Call sites that want a lazily created, one-time-initialized counter per
//! stable name go through a [`CounterRegistry`]: `get_or_create` finds the
//! counter for a name, creating and metrics-initializing it on first use,
//! and `inc_at` records on it. [`CounterRegistry::inc_new`] is the
//! one-call update-or-create convenience over the two.

use vstd::prelude::*;

verus! {

use vstd::string::*;
use crate::counter::{
    Counter,
    IncAction,
    env_view,
    fresh_init,
    inc_fits,
    inc_post,
    log_action_ok,
    submit_action_ok,
};

/// The named counters of one process, at most one per name.
pub struct CounterRegistry {
    pub entries: Vec<Counter>,
}

impl CounterRegistry {
    /// Names are distinct and every counter is well formed.
    pub open spec fn wf(self) -> bool {
        &&& forall|i: int, j: int|
            0 <= i < j < self.entries@.len() ==> (#[trigger] self.entries@[i]).name@ != (
            #[trigger] self.entries@[j]).name@
        &&& forall|i: int| 0 <= i < self.entries@.len() ==> (#[trigger] self.entries@[i]).wf()
    }

    /// Whether some counter is named `name`.
    pub open spec fn has(self, name: Seq<char>) -> bool {
        exists|i: int|
            0 <= i < self.entries@.len() && (#[trigger] self.entries@[i]).name@ == name
    }

    /// An empty registry.
    pub fn new() -> (r: CounterRegistry)
        ensures
            r.wf(),
            r.entries@.len() == 0,
    {
        CounterRegistry { entries: Vec::new() }
    }

    /// The position of the counter named `name`, if one exists.
    pub fn find(&self, name: &String) -> (r: Option<usize>)
        ensures
            match r {
                Some(i) => i < self.entries@.len() && self.entries@[i as int].name@ == name@,
                None => !self.has(name@),
            },
    {
        let n = self.entries.len();
        let mut k: usize = 0;
        while k < n
            invariant
                k <= n,
                n == self.entries@.len(),
                forall|m: int| 0 <= m < k ==> (#[trigger] self.entries@[m]).name@ != name@,
            decreases n - k,
        {
            if self.entries[k].name == *name {
                return Some(k);
            }
            k = k + 1;
        }
        None
    }

    /// The counter named `name`, created with starting rate `lograte` and
    /// metrics-initialized if it did not exist yet; returns its position.
    pub fn get_or_create(&mut self, name: &str, lograte: usize) -> (i: usize)
        requires
            old(self).wf(),
        ensures
            final(self).wf(),
            i < final(self).entries@.len(),
            final(self).entries@[i as int].name@ == name@,
            old(self).has(name@) ==> final(self).entries@ == old(self).entries@,
            !old(self).has(name@) ==> {
                &&& final(self).entries@.len() == old(self).entries@.len() + 1
                &&& i == old(self).entries@.len()
                &&& (forall|j: int|
                    0 <= j < old(self).entries@.len() ==> final(self).entries@[j] == old(self).entries@[j])
                &&& fresh_init(name@, lograte as int, final(self).entries@[i as int])
            },
    {
        let key = String::from_str(name);
        match self.find(&key) {
            Some(i) => i,
            None => {
                let mut c = Counter::new(name, lograte);
                c.init();
                let i = self.entries.len();
                self.entries.push(c);
                proof {
                    assert forall|a: int, b: int|
                        0 <= a < b < self.entries@.len() implies (
                    #[trigger] self.entries@[a]).name@ != (#[trigger] self.entries@[b]).name@ by {
                        if b < self.entries@.len() - 1 {
                            assert(old(self).wf());
                        }
                    }
                }
                i
            },
        }
    }

    /// Record `events` events at severity `level` on the counter at
    /// position `i`; `env_log_rate` is the configured override, if any.
    pub fn inc_at(
        &mut self,
        i: usize,
        level: log::Level,
        events: usize,
        env_log_rate: Option<&str>,
    ) -> (action: IncAction)
        requires
            old(self).wf(),
            i < old(self).entries@.len(),
            inc_fits(old(self).entries@[i as int], events as int),
        ensures
            final(self).wf(),
            final(self).entries@.len() == old(self).entries@.len(),
            forall|j: int|
                0 <= j < old(self).entries@.len() && j != i ==> final(self).entries@[j] == old(self).entries@[j],
            inc_post(
                old(self).entries@[i as int],
                final(self).entries@[i as int],
                events as int,
                env_view(env_log_rate),
            ),
            log_action_ok(final(self).entries@[i as int], events as int, action),
            submit_action_ok(
                old(self).entries@[i as int],
                final(self).entries@[i as int],
                action,
            ),
    {
        let mut c = self.entries.remove(i);
        let action = c.inc(level, events, env_log_rate);
        self.entries.insert(i, c);
        proof {
            assert(self.entries@ =~= old(self).entries@.update(i as int, c));
        }
        action
    }

    /// One call updates-or-creates: record `events` on the counter named
    /// `name`, creating it with starting rate `lograte` on first use.
    pub fn inc_new(
        &mut self,
        name: &str,
        level: log::Level,
        events: usize,
        lograte: usize,
        env_log_rate: Option<&str>,
    ) -> (action: IncAction)
        requires
            old(self).wf(),
            forall|j: int|
                0 <= j < old(self).entries@.len() ==> inc_fits(
                    #[trigger] old(self).entries@[j],
                    events as int,
                ),
        ensures
            final(self).wf(),
            final(self).has(name@),
            old(self).has(name@) ==> {
                &&& final(self).entries@.len() == old(self).entries@.len()
                &&& exists|i: int|
                    {
                        &&& 0 <= i < old(self).entries@.len()
                        &&& (#[trigger] old(self).entries@[i]).name@ == name@
                        &&& inc_post(
                            old(self).entries@[i],
                            final(self).entries@[i],
                            events as int,
                            env_view(env_log_rate),
                        )
                        &&& log_action_ok(final(self).entries@[i], events as int, action)
                        &&& submit_action_ok(
                            old(self).entries@[i],
                            final(self).entries@[i],
                            action,
                        )
                        &&& (forall|j: int|
                            0 <= j < old(self).entries@.len() && j != i ==> final(self).entries@[j] == old(self).entries@[j])
                    }
            },
            !old(self).has(name@) ==> {
                &&& final(self).entries@.len() == old(self).entries@.len() + 1
                &&& (forall|j: int|
                    0 <= j < old(self).entries@.len() ==> final(self).entries@[j] == old(self).entries@[j])
                &&& exists|c: Counter|
                    {
                        &&& #[trigger] fresh_init(name@, lograte as int, c)
                        &&& inc_post(
                            c,
                            final(self).entries@[old(self).entries@.len() as int],
                            events as int,
                            env_view(env_log_rate),
                        )
                        &&& log_action_ok(
                            final(self).entries@[old(self).entries@.len() as int],
                            events as int,
                            action,
                        )
                        &&& submit_action_ok(
                            c,
                            final(self).entries@[old(self).entries@.len() as int],
                            action,
                        )
                    }
            },
    {
        let ghost pre = *self;
        let i = self.get_or_create(name, lograte);
        let ghost mid = *self;
        let action = self.inc_at(i, level, events, env_log_rate);
        proof {
            if pre.has(name@) {
                assert(mid.entries@ == pre.entries@);
                assert(0 <= i < pre.entries@.len());
                assert(pre.entries@[i as int].name@ == name@);
                assert(inc_post(
                    pre.entries@[i as int],
                    self.entries@[i as int],
                    events as int,
                    env_view(env_log_rate),
                ));
            } else {
                let c = mid.entries@[i as int];
                assert(fresh_init(name@, lograte as int, c));
                assert(i == pre.entries@.len());
                assert forall|j: int| 0 <= j < pre.entries@.len() implies self.entries@[j]
                    == pre.entries@[j] by {
                    assert(mid.entries@[j] == pre.entries@[j]);
                }
            }
            assert(self.entries@[i as int].name@ == name@);
        }
        action
    }
}

} // verus!
