//! The addressed event bus: a mapping from a destination label (the opaque
//! identifier of a UI surface) to the sink that delivers events to it. A
//! delivery is always unicast to one label; delivering to an unregistered
//! label is a logged no-op, never an error, and a sink whose receiving half is
//! gone fails soft.

use vstd::prelude::*;

verus! {

/// The declaration of tokio's unbounded channel sender, the delivery mechanism
/// a sink hands to the bus. The bus only ever enqueues on it.
#[verifier::external_type_specification]
#[verifier::external_body]
#[verifier::reject_recursive_types(T)]
pub struct ExUnboundedSender<T>(tokio::sync::mpsc::UnboundedSender<T>);

/// A sink: the sending half of the channel owned by one UI surface. Each
/// delivered event is a pair of event name and JSON payload text.
pub type EventSink = tokio::sync::mpsc::UnboundedSender<(String, String)>;

/// Relies on `tokio::sync::mpsc::UnboundedSender::send`: enqueues the message
/// without blocking, and fails exactly when the receiving half is gone. The
/// bus treats a failed send as soft failure, so nothing more is assumed of it.
#[verifier::external_body]
fn sink_send(sink: &EventSink, name: String, payload: String) -> (r: bool) {
    sink.send((name, payload)).is_ok()
}

/// The label-to-sink mapping described by a registration list: the most recent
/// entry for a label wins.
pub open spec fn assoc_map(entries: Seq<(String, EventSink)>) -> Map<Seq<char>, EventSink>
    decreases entries.len(),
{
    if entries.len() == 0 {
        Map::empty()
    } else {
        assoc_map(entries.drop_last()).insert(entries.last().0@, entries.last().1)
    }
}

/// What a delivery did: handed the event to the label's sink, found the sink's
/// receiving half gone (soft failure), or found no sink registered for the
/// label (a logged no-op). None of these is an error to the caller.
#[derive(PartialEq, Eq, Structural, Debug, Clone, Copy)]
pub enum DeliveryOutcome {
    Sent,
    SinkClosed,
    NoSink,
}

/// The addressed event bus. Labels are unique; registering a label again
/// replaces its sink silently.
pub struct EventBus {
    entries: Vec<(String, EventSink)>,
}

impl EventBus {
    /// Labels are pairwise distinct, so one registration entry per label.
    pub closed spec fn wf(self) -> bool {
        forall|i: int, j: int|
            0 <= i < j < self.entries@.len() ==> (#[trigger] self.entries@[i]).0@ != (
            #[trigger] self.entries@[j]).0@
    }

    /// The label-to-sink mapping the bus currently holds.
    pub closed spec fn sinks(self) -> Map<Seq<char>, EventSink> {
        assoc_map(self.entries@)
    }

    /// An empty bus: no label is registered.
    pub fn new() -> (r: EventBus)
        ensures
            r.wf(),
            r.sinks() == Map::<Seq<char>, EventSink>::empty(),
    {
        EventBus { entries: Vec::new() }
    }

    /// Registers a sink under a label. A previous sink under the same label is
    /// replaced silently: the most recent registration wins.
    pub fn register(&mut self, label: String, sink: EventSink)
        requires
            old(self).wf(),
        ensures
            final(self).wf(),
            final(self).sinks() == old(self).sinks().insert(label@, sink),
    {
        let ghost entries0 = self.entries@;
        let mut j: usize = 0;
        while j < self.entries.len()
            invariant
                j <= self.entries@.len(),
                self.entries@ == entries0,
                entries0 == old(self).entries@,
                forall|i: int, k: int|
                    0 <= i < k < entries0.len() ==> (#[trigger] entries0[i]).0@ != (
                    #[trigger] entries0[k]).0@,
                forall|k: int| 0 <= k < j ==> (#[trigger] entries0[k]).0@ != label@,
            decreases self.entries@.len() - j,
        {
            if string_eq(&self.entries[j].0, &label) {
                let ghost found = entries0[j as int].0@;
                self.entries[j] = (label, sink);
                proof {
                    let updated = self.entries@;
                    assert(updated == entries0.update(j as int, updated[j as int]));
                    assert(updated[j as int] == (label, sink));
                    assert(updated[j as int].0@ == label@ && updated[j as int].1 == sink);
                    assert(forall|i: int|
                        0 <= i < updated.len() ==> (#[trigger] updated[i]).0@ == entries0[i].0@);
                    lemma_assoc_map_update(entries0, j as int, updated[j as int]);
                }
                return ;
            }
            j = j + 1;
        }
        self.entries.push((label, sink));
        proof {
            assert(self.entries@.drop_last() =~= entries0);
            assert(!assoc_map(entries0).contains_key(label@)) by {
                lemma_assoc_map_absent(entries0, label@);
            }
        }
    }

    /// The sink registered under a label, if any.
    pub fn lookup(&self, label: &String) -> (r: Option<&EventSink>)
        requires
            self.wf(),
        ensures
            match r {
                Some(s) => self.sinks().contains_key(label@) && *s == self.sinks()[label@],
                None => !self.sinks().contains_key(label@),
            },
    {
        let mut j: usize = 0;
        while j < self.entries.len()
            invariant
                self.wf(),
                j <= self.entries@.len(),
                forall|k: int| 0 <= k < j ==> (#[trigger] self.entries@[k]).0@ != label@,
            decreases self.entries@.len() - j,
        {
            if string_eq(&self.entries[j].0, label) {
                proof {
                    lemma_assoc_map_present(self.entries@, j as int);
                }
                return Some(&self.entries[j].1);
            }
            j = j + 1;
        }
        proof {
            lemma_assoc_map_absent(self.entries@, label@);
        }
        None
    }

    /// Delivers a named payload to the sink registered under a label. An
    /// unregistered label is a no-op (`NoSink`), never an error and never
    /// retried; a sink whose receiving half is gone fails soft (`SinkClosed`).
    pub fn deliver(&self, label: &String, name: String, payload: String) -> (r: DeliveryOutcome)
        requires
            self.wf(),
        ensures
            r == DeliveryOutcome::NoSink <==> !self.sinks().contains_key(label@),
    {
        match self.lookup(label) {
            Some(sink) => {
                if sink_send(sink, name, payload) {
                    DeliveryOutcome::Sent
                } else {
                    DeliveryOutcome::SinkClosed
                }
            },
            None => DeliveryOutcome::NoSink,
        }
    }
}

/// Registering the same label twice keeps only the most recent sink: the
/// second registration fully replaces the first, and a later lookup of the
/// label finds the second sink.
pub proof fn lemma_register_latest_wins(
    m: Map<Seq<char>, EventSink>,
    label: Seq<char>,
    first: EventSink,
    second: EventSink,
)
    ensures
        m.insert(label, first).insert(label, second) == m.insert(label, second),
        m.insert(label, first).insert(label, second)[label] == second,
{
    assert(m.insert(label, first).insert(label, second) =~= m.insert(label, second));
}

/// Exact string equality, so that a label lookup compares the characters.
fn string_eq(a: &String, b: &String) -> (r: bool)
    ensures
        r == (a@ == b@),
{
    a.eq(b)
}

proof fn lemma_assoc_map_present(entries: Seq<(String, EventSink)>, j: int)
    requires
        0 <= j < entries.len(),
        forall|i: int, k: int|
            0 <= i < k < entries.len() ==> (#[trigger] entries[i]).0@ != (#[trigger] entries[k]).0@,
    ensures
        assoc_map(entries).contains_key(entries[j].0@),
        assoc_map(entries)[entries[j].0@] == entries[j].1,
    decreases entries.len(),
{
    if j == entries.len() - 1 {
    } else {
        assert(entries.drop_last()[j] == entries[j]);
        lemma_assoc_map_present(entries.drop_last(), j);
        assert(entries.last().0@ != entries[j].0@);
    }
}

proof fn lemma_assoc_map_absent(entries: Seq<(String, EventSink)>, label: Seq<char>)
    requires
        forall|k: int| 0 <= k < entries.len() ==> (#[trigger] entries[k]).0@ != label,
    ensures
        !assoc_map(entries).contains_key(label),
    decreases entries.len(),
{
    if entries.len() > 0 {
        lemma_assoc_map_absent(entries.drop_last(), label);
    }
}

proof fn lemma_assoc_map_update(
    entries: Seq<(String, EventSink)>,
    j: int,
    replacement: (String, EventSink),
)
    requires
        0 <= j < entries.len(),
        replacement.0@ == entries[j].0@,
        forall|i: int, k: int|
            0 <= i < k < entries.len() ==> (#[trigger] entries[i]).0@ != (#[trigger] entries[k]).0@,
    ensures
        assoc_map(entries.update(j, replacement)) == assoc_map(entries).insert(
            replacement.0@,
            replacement.1,
        ),
    decreases entries.len(),
{
    let updated = entries.update(j, replacement);
    if j == entries.len() - 1 {
        assert(updated.drop_last() =~= entries.drop_last());
        assert(updated.last() == replacement);
        assert(assoc_map(updated) =~= assoc_map(entries).insert(replacement.0@, replacement.1));
    } else {
        assert(updated.drop_last() =~= entries.drop_last().update(j, replacement));
        assert(updated.last() == entries.last());
        assert(entries.drop_last()[j] == entries[j]);
        lemma_assoc_map_update(entries.drop_last(), j, replacement);
        assert(entries.last().0@ != replacement.0@);
        assert(assoc_map(updated) =~= assoc_map(entries).insert(replacement.0@, replacement.1));
    }
}

} // verus!
