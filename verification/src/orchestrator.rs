//! The system-event orchestrator: on each heartbeat tick, what becomes of
//! each pending event (acknowledged always; notified at once when critical
//! or immediate; summarized when the policy says so).

use vstd::prelude::*;

use crate::system_event::{EventPriority, EventScope, SessionSummary, SummaryItem, SystemEvent};
use crate::text::copy_string;

verus! {

/// A notification to send at once.
#[derive(Debug, Clone)]
pub struct NotificationRequest {
    pub event_id: String,
    pub scope: EventScope,
    pub title: String,
    pub body: String,
    pub priority: EventPriority,
}

/// An event is surfaced to the user at all unless it is low priority or its
/// policy says not to notify.
pub open spec fn surfaced(e: SystemEvent) -> bool {
    e.priority != EventPriority::Low && e.delivery.notify_user
}

/// A surfaced event is notified at once when critical or immediate.
pub open spec fn notify_now(e: SystemEvent) -> bool {
    surfaced(e) && (e.priority == EventPriority::Critical || e.delivery.immediate)
}

/// A surfaced event goes into the session summary when its policy says so.
pub open spec fn summarize(e: SystemEvent) -> bool {
    surfaced(e) && e.delivery.include_in_summary
}

/// What a tick does with the pending events: the ids acknowledged (all, in
/// order), the notifications sent at once, and the positions of the events
/// to summarize.
#[derive(Debug, Clone)]
pub struct TickPlan {
    pub ack_event_ids: Vec<String>,
    pub immediate_notifications: Vec<NotificationRequest>,
    pub summarize: Vec<usize>,
}

pub open spec fn notification_of(e: SystemEvent) -> NotificationRequest {
    NotificationRequest { event_id: e.id, scope: e.scope, title: e.title, body: e.summary, priority: e.priority }
}

/// The notifications for the first `n` events.
pub open spec fn notifications_spec(events: Seq<SystemEvent>) -> Seq<NotificationRequest>
    decreases events.len(),
{
    if events.len() == 0 {
        seq![]
    } else {
        let rest = notifications_spec(events.drop_last());
        if notify_now(events.last()) {
            rest.push(notification_of(events.last()))
        } else {
            rest
        }
    }
}

/// Positions of the events to summarize.
pub open spec fn summarize_spec(events: Seq<SystemEvent>) -> Seq<int>
    decreases events.len(),
{
    if events.len() == 0 {
        seq![]
    } else {
        let rest = summarize_spec(events.drop_last());
        if summarize(events.last()) {
            rest.push(events.len() - 1)
        } else {
            rest
        }
    }
}

pub fn copy_scope(s: &EventScope) -> (r: EventScope)
    ensures
        r == *s,
{
    match s {
        EventScope::Global => EventScope::Global,
        EventScope::MainSession => EventScope::MainSession,
        EventScope::Channel { channel, chat_id } => EventScope::Channel {
            channel: copy_string(channel),
            chat_id: copy_string(chat_id),
        },
        EventScope::Session { channel, chat_id, session_key } => EventScope::Session {
            channel: copy_string(channel),
            chat_id: copy_string(chat_id),
            session_key: copy_string(session_key),
        },
    }
}

/// Plans a heartbeat tick over the pending events.
pub fn plan_tick(events: &[SystemEvent]) -> (p: TickPlan)
    ensures
        p.ack_event_ids@ == events@.map_values(|e: SystemEvent| e.id),
        p.immediate_notifications@ == notifications_spec(events@),
        p.summarize@.map_values(|i: usize| i as int) == summarize_spec(events@),
{
    let mut acks: Vec<String> = Vec::new();
    let mut notes: Vec<NotificationRequest> = Vec::new();
    let mut summ: Vec<usize> = Vec::new();
    let mut i: usize = 0;
    assert(events@.take(0) =~= Seq::<SystemEvent>::empty());
    while i < events.len()
        invariant
            i <= events.len(),
            acks@ == events@.take(i as int).map_values(|e: SystemEvent| e.id),
            notes@ == notifications_spec(events@.take(i as int)),
            summ@.map_values(|i: usize| i as int) == summarize_spec(events@.take(i as int)),
        decreases events.len() - i,
    {
        let e = &events[i];
        proof {
            assert(events@.take(i + 1).drop_last() =~= events@.take(i as int));
            assert(events@.take(i + 1).last() == events@[i as int]);
        }
        acks.push(copy_string(&e.id));
        assert(acks@ =~= events@.take(i + 1).map_values(|e: SystemEvent| e.id));
        let shown = !(e.priority == EventPriority::Low) && e.delivery.notify_user;
        if shown && (e.priority == EventPriority::Critical || e.delivery.immediate) {
            notes.push(NotificationRequest {
                event_id: copy_string(&e.id),
                scope: copy_scope(&e.scope),
                title: copy_string(&e.title),
                body: copy_string(&e.summary),
                priority: e.priority,
            });
        }
        if shown && e.delivery.include_in_summary {
            let ghost before = summ@.map_values(|i: usize| i as int);
            summ.push(i);
            assert(summ@.map_values(|i: usize| i as int) =~= before.push(i as int));
        }
        i = i + 1;
    }
    assert(events@.take(events.len() as int) =~= events@);
    TickPlan { ack_event_ids: acks, immediate_notifications: notes, summarize: summ }
}

/// Every pending event is acknowledged, whatever its priority and policy;
/// a critical event the user is to be told of is always notified at once.
pub proof fn lemma_tick_acks_all(events: Seq<SystemEvent>, k: int)
    requires
        0 <= k < events.len(),
    ensures
        events.map_values(|e: SystemEvent| e.id)[k] == events[k].id,
        (events[k].priority == EventPriority::Critical && events[k].delivery.notify_user) ==> notify_now(
            events[k],
        ),
        events[k].priority == EventPriority::Low ==> !notify_now(events[k]) && !summarize(events[k]),
{
}

/// A summary item to add to the session summary for an event.
#[derive(Debug, Clone)]
pub struct SummaryEnqueueRequest {
    pub event_id: String,
    pub item: SummaryItem,
}

/// What a heartbeat tick decided: the notifications sent at once, the
/// summary items added, the session summaries flushed, the events it raised
/// and the ids of the events it acknowledged.
#[derive(Debug, Clone)]
pub struct HeartbeatDecision {
    pub immediate_notifications: Vec<NotificationRequest>,
    pub summary_updates: Vec<SummaryEnqueueRequest>,
    pub flushed_summaries: Vec<SessionSummary>,
    pub emitted_events: Vec<SystemEvent>,
    pub ack_event_ids: Vec<String>,
}

/// The decision of a tick over the pending events, given the summary item
/// the queue made of each event to summarize (in order) and the summary it
/// flushed, if any: every event acknowledged, the critical or immediate ones
/// notified, one summary update per summarized event, at most one flushed
/// summary, and no event raised.
pub fn tick_decision(
    events: &[SystemEvent],
    items: Vec<SummaryItem>,
    flushed: Option<SessionSummary>,
) -> (d: HeartbeatDecision)
    requires
        items@.len() == summarize_spec(events@).len(),
    ensures
        d.ack_event_ids@ == events@.map_values(|e: SystemEvent| e.id),
        d.immediate_notifications@ == notifications_spec(events@),
        d.summary_updates@.len() == summarize_spec(events@).len(),
        forall|k: int|
            0 <= k < d.summary_updates@.len() ==> (#[trigger] d.summary_updates@[k]).event_id
                == events@[summarize_spec(events@)[k]].id && d.summary_updates@[k].item == items@[k],
        d.flushed_summaries@ == (match flushed {
            Some(f) => seq![f],
            None => Seq::<SessionSummary>::empty(),
        }),
        d.emitted_events@.len() == 0,
{
    let plan = plan_tick(events);
    let ghost pos = summarize_spec(events@);
    proof {
        lemma_summarize_bounds(events@);
    }
    let ghost orig = items@;
    let mut items = items;
    let mut updates: Vec<SummaryEnqueueRequest> = Vec::new();
    let mut k: usize = 0;
    assert(orig.skip(0) =~= orig);
    while k < plan.summarize.len()
        invariant
            k <= plan.summarize.len(),
            plan.summarize@.map_values(|i: usize| i as int) == pos,
            pos.len() == orig.len(),
            forall|j: int| 0 <= j < pos.len() ==> 0 <= #[trigger] pos[j] < events@.len(),
            items@ == orig.skip(k as int),
            updates@.len() == k,
            forall|j: int|
                0 <= j < k ==> (#[trigger] updates@[j]).event_id == events@[pos[j]].id && updates@[j].item
                    == orig[j],
        decreases plan.summarize.len() - k,
    {
        let at = plan.summarize[k];
        assert(pos[k as int] == at as int);
        let item = items.remove(0);
        assert(items@ =~= orig.skip(k + 1));
        updates.push(SummaryEnqueueRequest { event_id: copy_string(&events[at].id), item });
        k = k + 1;
    }
    let mut flushed_summaries: Vec<SessionSummary> = Vec::new();
    match flushed {
        Some(f) => {
            flushed_summaries.push(f);
            assert(flushed_summaries@ =~= seq![f]);
        },
        None => {
            assert(flushed_summaries@ =~= Seq::<SessionSummary>::empty());
        },
    }
    HeartbeatDecision {
        immediate_notifications: plan.immediate_notifications,
        summary_updates: updates,
        flushed_summaries,
        emitted_events: Vec::new(),
        ack_event_ids: plan.ack_event_ids,
    }
}

proof fn lemma_summarize_bounds(events: Seq<SystemEvent>)
    ensures
        forall|j: int| 0 <= j < summarize_spec(events).len() ==> 0 <= #[trigger] summarize_spec(events)[j] < events.len(),
    decreases events.len(),
{
    if events.len() > 0 {
        let prev = events.drop_last();
        lemma_summarize_bounds(prev);
        assert forall|j: int| 0 <= j < summarize_spec(events).len() implies 0 <= #[trigger] summarize_spec(
            events,
        )[j] < events.len() by {
            if j < summarize_spec(prev).len() {
                assert(summarize_spec(events)[j] == summarize_spec(prev)[j]);
            }
        }
    }
}

/// The orchestrator: an event store and a summary queue.
pub struct SystemEventOrchestrator<S, Q> {
    store: S,
    queue: Q,
}

impl<S, Q> SystemEventOrchestrator<S, Q> {
    pub closed spec fn store_spec(&self) -> S {
        self.store
    }

    pub closed spec fn queue_spec(&self) -> Q {
        self.queue
    }

    pub fn new(store: S, queue: Q) -> (o: Self)
        ensures
            o.store_spec() == store,
            o.queue_spec() == queue,
    {
        SystemEventOrchestrator { store, queue }
    }

    pub fn queue(&self) -> (q: &Q)
        ensures
            *q == self.queue_spec(),
    {
        &self.queue
    }

    pub fn store(&self) -> (s: &S)
        ensures
            *s == self.store_spec(),
    {
        &self.store
    }
}

/// How many pending events a tick looks at.
pub const PENDING_EVENTS_PER_TICK: usize = 256;

} // verus!
