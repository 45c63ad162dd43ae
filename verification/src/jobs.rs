//! Background-job events and the result waiter: subscribe to a set of
//! `(row key, job type)` pairs, consume terminal events from the bus in
//! arrival order, and report the first error.
use vstd::prelude::*;

verus! {

/// The metadata table a row key points into.
#[derive(Debug, Clone, Copy, PartialEq, Eq, Structural)]
pub enum TableId {
    Schemas,
    Tables,
    WALs,
    Indexes,
    Partitions,
    Chunks,
}

/// The kinds of background jobs whose completion gates statements.
#[derive(Debug, Clone, Copy, PartialEq, Eq, Structural)]
pub enum JobType {
    WalPartitioning,
    TableImport,
    PartitionCompaction,
    Repartition,
}

/// A key of a metadata row: the table it lives in and its id.
#[derive(Debug, Clone, Copy, PartialEq, Eq, Structural)]
pub enum RowKey {
    Table(TableId, u64),
}

/// A terminal notification on the job-event bus.
#[derive(Debug, Clone, PartialEq, Eq)]
pub enum JobEvent {
    Success(RowKey, JobType),
    Error(RowKey, JobType, String),
}

/// The pair a terminal event is keyed by.
pub open spec fn event_key(e: JobEvent) -> (RowKey, JobType) {
    match e {
        JobEvent::Success(k, t) => (k, t),
        JobEvent::Error(k, t, _) => (k, t),
    }
}

pub open spec fn is_error_event(e: JobEvent) -> bool {
    e matches JobEvent::Error(_, _, _)
}

/// Whether every event in a list is a success.
pub open spec fn all_success(events: Seq<JobEvent>) -> bool {
    forall|i: int| 0 <= i < events.len() ==> !is_error_event(#[trigger] events[i])
}

/// The message of the earliest error event, in arrival order.
pub open spec fn spec_first_error(events: Seq<JobEvent>) -> Option<Seq<char>>
    decreases events.len(),
{
    if events.len() == 0 {
        None
    } else {
        match events[0] {
            JobEvent::Error(_, _, m) => Some(m@),
            JobEvent::Success(_, _) => spec_first_error(events.skip(1)),
        }
    }
}

/// There is no first error exactly when every event succeeded.
pub proof fn lemma_first_error_none(events: Seq<JobEvent>)
    ensures
        spec_first_error(events) is None <==> all_success(events),
    decreases events.len(),
{
    if events.len() > 0 {
        lemma_first_error_none(events.skip(1));
        if events[0] matches JobEvent::Success(_, _) {
            if all_success(events.skip(1)) {
                assert forall|i: int| 0 <= i < events.len() implies !is_error_event(
                    #[trigger] events[i],
                ) by {
                    if i > 0 {
                        assert(events[i] == events.skip(1)[i - 1]);
                    }
                }
            } else {
                let i = choose|i: int|
                    0 <= i < events.skip(1).len() && is_error_event(#[trigger] events.skip(1)[i]);
                assert(events[i + 1] == events.skip(1)[i]);
            }
        }
    }
}

/// Report the message of the earliest error event, if any.
#[verifier::loop_isolation(false)]
pub fn first_error(events: &Vec<JobEvent>) -> (r: Option<String>)
    ensures
        r is Some <==> spec_first_error(events@) is Some,
        r matches Some(m) ==> spec_first_error(events@) == Some(m@),
{
    let mut i: usize = 0;
    proof {
        assert(events@.skip(0) =~= events@);
    }
    while i < events.len()
        invariant
            i <= events@.len(),
            spec_first_error(events@) == spec_first_error(events@.skip(i as int)),
        decreases events@.len() - i,
    {
        match &events[i] {
            JobEvent::Error(_, _, m) => {
                proof {
                    assert(events@.skip(i as int)[0] == events@[i as int]);
                }
                return Some(m.clone());
            },
            JobEvent::Success(_, _) => {
                proof {
                    assert(events@.skip(i as int)[0] == events@[i as int]);
                    assert(events@.skip(i as int).skip(1) =~= events@.skip(i + 1));
                }
                i += 1;
            },
        }
    }
    proof {
        assert(events@.skip(i as int) =~= Seq::<JobEvent>::empty());
    }
    None
}

/// An equal copy of a job event.
pub fn duplicate_event(e: &JobEvent) -> (r: JobEvent)
    ensures
        r == *e,
{
    match e {
        JobEvent::Success(k, t) => JobEvent::Success(*k, *t),
        JobEvent::Error(k, t, m) => JobEvent::Error(*k, *t, m.clone()),
    }
}

/// A subscription to the job-event bus, held before the triggering work is
/// enqueued: the pairs still awaited and the terminal events received, in
/// arrival order.
#[derive(Debug, Clone, PartialEq, Eq)]
pub struct JobResultListener {
    pub pending: Vec<(RowKey, JobType)>,
    pub received: Vec<JobEvent>,
}

impl JobResultListener {
    /// Subscribe for a set of awaited pairs.
    pub fn subscribe(pairs: Vec<(RowKey, JobType)>) -> (l: JobResultListener)
        ensures
            l.pending@ == pairs@,
            l.received@.len() == 0,
    {
        JobResultListener { pending: pairs, received: Vec::new() }
    }

    /// Whether every awaited pair has received its terminal event.
    pub fn done(&self) -> (r: bool)
        ensures
            r == (self.pending@.len() == 0),
    {
        self.pending.len() == 0
    }

    /// Offer one event from the bus. It is consumed exactly when it matches
    /// a pair still awaited; a consumed event is appended to the received
    /// list and its pair is no longer awaited.
    #[verifier::loop_isolation(false)]
    pub fn offer(&mut self, e: &JobEvent) -> (accepted: bool)
        ensures
            accepted <==> exists|i: int|
                0 <= i < old(self).pending@.len() && old(self).pending@[i] == event_key(*e),
            accepted ==> exists|i: int|
                {
                    &&& 0 <= i < old(self).pending@.len()
                    &&& old(self).pending@[i] == event_key(*e)
                    &&& final(self).pending@ == old(self).pending@.remove(i)
                },
            accepted ==> final(self).received@ == old(self).received@.push(*e),
            !accepted ==> *final(self) == *old(self),
    {
        let key: (RowKey, JobType) = match e {
            JobEvent::Success(k, t) => (*k, *t),
            JobEvent::Error(k, t, _) => (*k, *t),
        };
        let mut i: usize = 0;
        while i < self.pending.len()
            invariant
                i <= self.pending@.len(),
                *self == *old(self),
                key == event_key(*e),
                forall|t: int| 0 <= t < i ==> #[trigger] self.pending@[t] != key,
            decreases self.pending@.len() - i,
        {
            let p = self.pending[i];
            if p.0 == key.0 && p.1 == key.1 {
                self.pending.remove(i);
                self.received.push(duplicate_event(e));
                proof {
                    assert(old(self).pending@[i as int] == event_key(*e));
                }
                return true;
            }
            i += 1;
        }
        false
    }
}

} // verus!

