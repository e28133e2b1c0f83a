//! The scheduled download driver's decisions: how long to wait before an
//! item, whether to retry it, and how a run ends. Items are taken strictly
//! in order; each may be retried once.
use vstd::prelude::*;

use crate::text::str_eq;

verus! {

broadcast use vstd::string::group_string_axioms;

/// Rest a rate-limited source takes between two downloads, in seconds.
pub const RATE_LIMITED_WAIT_DURATION_SECS: u64 = 120;

/// Wait after a failed attempt before the retry, in seconds.
pub const AFTER_FAILURE_WAIT_DURATION_SECS: u64 = 5;

/// What pacing an item asks for.
#[derive(Debug)]
pub struct ScheduledItem {
    /// The caller asked for a fixed wait before this item.
    pub rate_limited_request: bool,
    /// The item's source, when that source is rate-limited.
    pub rate_limited_source: Option<String>,
}

/// What to do once an attempt has been reported.
#[derive(Clone, Copy, Debug, PartialEq, Eq, Structural)]
pub enum Next {
    /// Wait this many seconds, then attempt the same item again.
    Retry { wait_secs: u64 },
    /// The item is settled; go on with the next one.
    Proceed,
}

/// The state of a run over a list of items.
#[derive(Debug)]
pub struct DownloadRun {
    items: Vec<ScheduledItem>,
    pos: usize,
    retrying: bool,
    failed: usize,
    /// When each rate-limited source last finished an item, in milliseconds.
    last_done: Vec<(String, u64)>,
}

/// When the source `name` last finished an item.
pub open spec fn last_done_of(ls: Seq<(String, u64)>, name: Seq<char>) -> Option<u64>
    decreases ls.len(),
{
    if ls.len() == 0 {
        None
    } else if ls.last().0@ == name {
        Some(ls.last().1)
    } else {
        last_done_of(ls.drop_last(), name)
    }
}

/// Milliseconds of cooldown left, rounded up to whole seconds.
pub open spec fn cooldown_secs(last: u64, now: u64) -> u64 {
    let elapsed: int = if now >= last {
        now - last
    } else {
        0
    };
    let window: int = RATE_LIMITED_WAIT_DURATION_SECS * 1000;
    if elapsed >= window {
        0
    } else {
        ((window - elapsed + 999) / 1000) as u64
    }
}

/// The wait before attempting an item: a fixed one if the caller asked for
/// it, else what is left of its rate-limited source's cooldown.
pub open spec fn pre_wait(item: ScheduledItem, ls: Seq<(String, u64)>, now: u64) -> u64 {
    if item.rate_limited_request {
        RATE_LIMITED_WAIT_DURATION_SECS
    } else {
        match item.rate_limited_source {
            Some(name) => match last_done_of(ls, name@) {
                Some(t) => cooldown_secs(t, now),
                None => 0,
            },
            None => 0,
        }
    }
}

/// The wait before a retry: the whole cooldown for a rate-limited source,
/// else a short fixed delay.
pub open spec fn retry_wait(item: ScheduledItem) -> u64 {
    if item.rate_limited_source is Some {
        RATE_LIMITED_WAIT_DURATION_SECS
    } else {
        AFTER_FAILURE_WAIT_DURATION_SECS
    }
}

impl DownloadRun {
    pub closed spec fn items(&self) -> Seq<ScheduledItem> {
        self.items@
    }

    /// The position of the item in progress; the number of items when done.
    pub closed spec fn position(&self) -> nat {
        self.pos as nat
    }

    /// Whether the item in progress has failed once already.
    pub closed spec fn retrying(&self) -> bool {
        self.retrying
    }

    /// How many items failed twice.
    pub closed spec fn failed(&self) -> nat {
        self.failed as nat
    }

    pub closed spec fn cooldowns(&self) -> Seq<(String, u64)> {
        self.last_done@
    }

    pub closed spec fn wf(&self) -> bool {
        &&& self.pos <= self.items@.len()
        &&& self.failed <= self.pos
        &&& (self.retrying ==> self.pos < self.items@.len())
    }

    /// A run over `items`, none of them started.
    pub fn new(items: Vec<ScheduledItem>) -> (r: Self)
        ensures
            r.wf(),
            r.items() == items@,
            r.position() == 0,
            !r.retrying(),
            r.failed() == 0,
            r.cooldowns() == Seq::<(String, u64)>::empty(),
    {
        DownloadRun { items, pos: 0, retrying: false, failed: 0, last_done: Vec::new() }
    }

    /// Whether every item is settled.
    pub fn is_done(&self) -> (r: bool)
        requires
            self.wf(),
        ensures
            r == (self.position() == self.items().len()),
    {
        self.pos == self.items.len()
    }

    /// The position of the item in progress.
    pub fn current(&self) -> (r: usize)
        ensures
            r == self.position(),
    {
        self.pos
    }

    fn cooldown_index(&self, name: &str) -> (r: Option<usize>)
        ensures
            r matches Some(k) ==> k < self.last_done@.len() && self.last_done@[k as int].0@ == name@ && forall|j: int| k < j < self.last_done@.len() ==> self.last_done@[j].0@ != name@,
            r is None ==> forall|j: int| 0 <= j < self.last_done@.len() ==> self.last_done@[j].0@ != name@,
    {
        let mut i: usize = self.last_done.len();
        while i > 0
            invariant
                i <= self.last_done@.len(),
                forall|j: int| i <= j < self.last_done@.len() ==> self.last_done@[j].0@ != name@,
            decreases i,
        {
            if str_eq(self.last_done[i - 1].0.as_str(), name) {
                return Some(i - 1);
            }
            i = i - 1;
        }
        None
    }

    /// Seconds to wait before the first attempt of the item in progress,
    /// `now` being the time in milliseconds.
    pub fn wait_before_attempt(&self, now: u64) -> (r: u64)
        requires
            self.wf(),
            self.position() < self.items().len(),
        ensures
            r == pre_wait(self.items()[self.position() as int], self.cooldowns(), now),
    {
        let item = &self.items[self.pos];
        if item.rate_limited_request {
            return RATE_LIMITED_WAIT_DURATION_SECS;
        }
        match &item.rate_limited_source {
            None => 0,
            Some(name) => match self.cooldown_index(name.as_str()) {
                None => {
                    proof {
                        lemma_last_done_absent(self.last_done@, name@);
                    }
                    0
                },
                Some(k) => {
                    proof {
                        lemma_last_done_at(self.last_done@, name@, k as int);
                    }
                    let last = self.last_done[k].1;
                    let elapsed: u64 = if now >= last {
                        now - last
                    } else {
                        0
                    };
                    let window: u64 = RATE_LIMITED_WAIT_DURATION_SECS * 1000;
                    if elapsed >= window {
                        0
                    } else {
                        (window - elapsed + 999) / 1000
                    }
                },
            },
        }
    }

    /// Reports the outcome of an attempt at the item in progress, finished
    /// at `now`. A first failure asks for a retry after a wait; a success or
    /// a second failure settles the item, a second failure counting as
    /// failed, and starts the cooldown of its rate-limited source.
    pub fn report(&mut self, succeeded: bool, now: u64) -> (r: Next)
        requires
            old(self).wf(),
            old(self).position() < old(self).items().len(),
        ensures
            final(self).wf(),
            final(self).items() == old(self).items(),
            !succeeded && !old(self).retrying() ==> {
                &&& r == Next::Retry { wait_secs: retry_wait(old(self).items()[old(self).position() as int]) }
                &&& final(self).position() == old(self).position()
                &&& final(self).retrying()
                &&& final(self).failed() == old(self).failed()
                &&& final(self).cooldowns() == old(self).cooldowns()
            },
            succeeded || old(self).retrying() ==> r == Next::Proceed,
            succeeded || old(self).retrying() ==> final(self).position() == old(self).position() + 1,
            succeeded || old(self).retrying() ==> !final(self).retrying(),
            succeeded || old(self).retrying() ==> final(self).failed() == old(self).failed() + if succeeded { 0nat } else { 1nat },
            succeeded || old(self).retrying() ==> (old(self).items()[old(self).position() as int].rate_limited_source is None ==> final(self).cooldowns() == old(self).cooldowns()),
            succeeded || old(self).retrying() ==> (old(self).items()[old(self).position() as int].rate_limited_source matches Some(name) ==> forall|other: Seq<char>| other != name@ ==> last_done_of(final(self).cooldowns(), other) == last_done_of(old(self).cooldowns(), other)),
            succeeded || old(self).retrying() ==> (old(self).items()[old(self).position() as int].rate_limited_source matches Some(name) ==> last_done_of(final(self).cooldowns(), name@) == Some(now)),
    {
        if !succeeded && !self.retrying {
            self.retrying = true;
            let wait_secs = match &self.items[self.pos].rate_limited_source {
                Some(_) => RATE_LIMITED_WAIT_DURATION_SECS,
                None => AFTER_FAILURE_WAIT_DURATION_SECS,
            };
            return Next::Retry { wait_secs };
        }
        let n = self.items.len();
        assert(self.failed <= self.pos < n);
        if !succeeded {
            self.failed = self.failed + 1;
        }
        let ghost before = self.last_done@;
        let ghost item = self.items@[self.pos as int];
        match &self.items[self.pos].rate_limited_source {
            None => {},
            Some(name) => {
                let name = name.clone();
                match self.cooldown_index(name.as_str()) {
                    Some(k) => {
                        let key = self.last_done[k].0.clone();
                        self.last_done.set(k, (key, now));
                        proof {
                            lemma_last_done_after_set(before, name@, k as int, now);
                        }
                    },
                    None => {
                        self.last_done.push((name, now));
                        assert(self.last_done@.drop_last() == before);
                        assert(last_done_of(self.last_done@, item.rate_limited_source->Some_0@) == Some(now));
                    },
                }
            },
        }
        self.pos = self.pos + 1;
        self.retrying = false;
        assert(self.failed == old(self).failed + if succeeded { 0nat } else { 1nat });
        assert(item.rate_limited_source matches Some(name) ==> last_done_of(self.last_done@, name@) == Some(now));
        Next::Proceed
    }

    /// How the run ended: the number of items that failed twice, if any.
    pub fn outcome(&self) -> (r: Result<(), usize>)
        ensures
            r is Ok == (self.failed() == 0),
            r matches Err(n) ==> n == self.failed(),
    {
        if self.failed == 0 {
            Ok(())
        } else {
            Err(self.failed)
        }
    }
}

proof fn lemma_last_done_absent(ls: Seq<(String, u64)>, name: Seq<char>)
    requires
        forall|j: int| 0 <= j < ls.len() ==> ls[j].0@ != name,
    ensures
        last_done_of(ls, name) is None,
    decreases ls.len(),
{
    if ls.len() > 0 {
        lemma_last_done_absent(ls.drop_last(), name);
    }
}

proof fn lemma_last_done_at(ls: Seq<(String, u64)>, name: Seq<char>, k: int)
    requires
        0 <= k < ls.len(),
        ls[k].0@ == name,
        forall|j: int| k < j < ls.len() ==> ls[j].0@ != name,
    ensures
        last_done_of(ls, name) == Some(ls[k].1),
    decreases ls.len(),
{
    if k < ls.len() - 1 {
        lemma_last_done_at(ls.drop_last(), name, k);
    }
}

proof fn lemma_last_done_after_set(ls: Seq<(String, u64)>, name: Seq<char>, k: int, now: u64)
    requires
        0 <= k < ls.len(),
        ls[k].0@ == name,
        forall|j: int| k < j < ls.len() ==> ls[j].0@ != name,
    ensures
        last_done_of(ls.update(k, (ls[k].0, now)), name) == Some(now),
        forall|other: Seq<char>| other != name ==> last_done_of(ls.update(k, (ls[k].0, now)), other) == last_done_of(ls, other),
{
    lemma_last_done_at(ls.update(k, (ls[k].0, now)), name, k);
    assert forall|other: Seq<char>| other != name implies last_done_of(ls.update(k, (ls[k].0, now)), other) == last_done_of(ls, other) by {
        lemma_last_done_other(ls, k, now, other);
    }
}

proof fn lemma_last_done_other(ls: Seq<(String, u64)>, k: int, now: u64, other: Seq<char>)
    requires
        0 <= k < ls.len(),
        ls[k].0@ != other,
    ensures
        last_done_of(ls.update(k, (ls[k].0, now)), other) == last_done_of(ls, other),
    decreases ls.len(),
{
    let u = ls.update(k, (ls[k].0, now));
    if k < ls.len() - 1 {
        assert(u.drop_last() == ls.drop_last().update(k, (ls[k].0, now)));
        lemma_last_done_other(ls.drop_last(), k, now, other);
    } else {
        assert(u.drop_last() == ls.drop_last());
    }
}

} // verus!
