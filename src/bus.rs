//! The event bus: envelopes with idempotency keys, per-topic fan-out to
//! bounded subscriber queues, and the audit record of every publish.
use vstd::prelude::*;

use crossbeam_channel::{Receiver, Sender};

use crate::events::{MirrorEvent, SourceEvent};
use crate::identity::{hex_digit, hex_of, idempotency_key, idempotency_key_of, sha256_of};

verus! {

#[verifier::external_type_specification]
#[verifier::external_body]
#[verifier::reject_recursive_types(T)]
pub struct ExSender<T>(Sender<T>);

#[verifier::external_type_specification]
#[verifier::external_body]
#[verifier::reject_recursive_types(T)]
pub struct ExReceiver<T>(Receiver<T>);

/// Relies on `crossbeam_channel::bounded`: a fresh queue holding at most
/// `cap` messages, as a sending and a receiving end.
#[verifier::external_body]
fn bounded_queue<T>(cap: usize) -> (Sender<T>, Receiver<T>) {
    crossbeam_channel::bounded(cap)
}

/// Relies on `crossbeam_channel::Sender::try_send`: delivers without
/// blocking; fails when the queue is full or its receiver is gone. Which of
/// these happens depends on the subscriber, so nothing is promised of it.
#[verifier::external_body]
fn try_deliver<T>(tx: &Sender<T>, msg: T) -> (delivered: bool) {
    tx.try_send(msg).is_ok()
}

/// An event as published: format version, time, idempotency key and data.
#[derive(Clone, Debug)]
pub struct Envelope<T> {
    pub v: u8,
    pub ts: i64,
    pub idempotency_key: String,
    pub data: T,
}

impl<T> Envelope<T> {
    /// Wraps `event`, published at `ts` (seconds since the epoch), whose
    /// canonical serialization is `payload`.
    pub fn new(event: T, ts: i64, payload: &Vec<u8>) -> (e: Envelope<T>)
        ensures
            e.v == 1,
            e.ts == ts,
            e.idempotency_key@ == idempotency_key_of(payload@),
            e.data == event,
    {
        Envelope { v: 1, ts, idempotency_key: idempotency_key(payload), data: event }
    }
}

/// Subsequence of `subs` whose delivery flag is set.
pub open spec fn kept<S>(subs: Seq<S>, delivered: Seq<bool>) -> Seq<S>
    decreases subs.len(),
{
    if subs.len() == 0 || delivered.len() < subs.len() {
        Seq::empty()
    } else {
        let n = subs.len() - 1;
        let r = kept(subs.drop_last(), delivered.take(n));
        if delivered[n] {
            r.push(subs.last())
        } else {
            r
        }
    }
}

/// The subscribers that took the last event, in their order.
pub fn retain_delivered<S>(subs: Vec<S>, delivered: &Vec<bool>) -> (r: Vec<S>)
    requires
        delivered@.len() == subs@.len(),
    ensures
        r@ == kept(subs@, delivered@),
{
    let mut r: Vec<S> = Vec::new();
    let mut rest = subs;
    let ghost all = rest@;
    let mut i: usize = 0;
    let mut tail: Vec<S> = Vec::new();
    while rest.len() > 0
        invariant
            all.len() == delivered@.len(),
            rest@.len() + tail@.len() == all.len(),
            rest@ == all.take(rest@.len() as int),
            tail@ == all.skip(rest@.len() as int).reverse(),
        decreases rest.len(),
    {
        let ghost before = rest@;
        let x = rest.pop().unwrap();
        tail.push(x);
        assert(tail@ =~= all.skip(rest@.len() as int).reverse()) by {
            assert(all.skip(rest@.len() as int) =~= seq![x].add(all.skip((rest@.len() + 1) as int)));
        }
        assert(rest@ =~= all.take(rest@.len() as int));
    }
    let mut k: usize = 0;
    let dl = delivered.len();
    while tail.len() > 0
        invariant
            all.len() == delivered@.len(),
            dl == delivered@.len(),
            tail@.len() + k == all.len(),
            tail@ == all.skip(k as int).reverse(),
            r@ == kept(all.take(k as int), delivered@.take(k as int)),
        decreases tail.len(),
    {
        let x = tail.pop().unwrap();
        assert(x == all[k as int]);
        assert(all.take(k + 1).drop_last() =~= all.take(k as int));
        assert(delivered@.take(k + 1).take(k as int) =~= delivered@.take(k as int));
        if delivered[k] {
            r.push(x);
        }
        k = k + 1;
        assert(tail@ =~= all.skip(k as int).reverse());
    }
    assert(all.take(all.len() as int) =~= all);
    assert(delivered@.take(delivered@.len() as int) =~= delivered@);
    r
}

/// One topic: its queue bound and its live subscribers.
#[verifier::reject_recursive_types(T)]
pub struct Topic<T> {
    pub bound: usize,
    pub subs: Vec<Sender<Envelope<T>>>,
}

impl<T: Clone> Topic<T> {
    /// A topic without subscribers whose queues hold `bound` events.
    pub fn new(bound: usize) -> (t: Topic<T>)
        ensures
            t.bound == bound,
            t.subs@.len() == 0,
    {
        Topic { bound, subs: Vec::new() }
    }

    /// A fresh bounded queue that receives the events published from now on.
    pub fn subscribe(&mut self) -> (rx: Receiver<Envelope<T>>)
        ensures
            final(self).bound == old(self).bound,
            final(self).subs@.len() == old(self).subs@.len() + 1,
            final(self).subs@.take(old(self).subs@.len() as int) == old(self).subs@,
    {
        let (tx, rx) = bounded_queue(self.bound);
        self.subs.push(tx);
        rx
    }

    /// Offers `env` to every live subscriber without waiting; a subscriber
    /// whose queue is full or whose receiver is gone is dropped. Returns the
    /// delivery of each subscriber, in order.
    pub fn publish(&mut self, env: &Envelope<T>) -> (delivered: Vec<bool>)
        ensures
            delivered@.len() == old(self).subs@.len(),
            final(self).subs@ == kept(old(self).subs@, delivered@),
            final(self).bound == old(self).bound,
    {
        let mut delivered: Vec<bool> = Vec::new();
        let mut i: usize = 0;
        while i < self.subs.len()
            invariant
                delivered@.len() == i,
                i <= self.subs@.len(),
            decreases self.subs.len() - i,
        {
            let ok = try_deliver(&self.subs[i], env.clone());
            delivered.push(ok);
            i = i + 1;
        }
        let mut subs: Vec<Sender<Envelope<T>>> = Vec::new();
        std::mem::swap(&mut self.subs, &mut subs);
        self.subs = retain_delivered(subs, &delivered);
        delivered
    }
}

/// The audit row of one publish.
#[derive(Clone, Debug)]
pub struct AuditRow {
    pub ts: i64,
    pub topic: String,
    pub event_type: String,
    pub idempotency_key: String,
    pub payload: Vec<u8>,
}

/// The audit row of an envelope published on `topic`, with the event's type
/// tag and canonical payload.
pub fn audit_row<T>(topic: &str, event_type: &str, env: &Envelope<T>, payload: Vec<u8>) -> (r: AuditRow)
    ensures
        r.ts == env.ts,
        r.topic@ == topic@,
        r.event_type@ == event_type@,
        r.idempotency_key@ == env.idempotency_key@,
        r.payload@ == payload@,
{
    AuditRow {
        ts: env.ts,
        topic: topic.to_owned(),
        event_type: event_type.to_owned(),
        idempotency_key: env.idempotency_key.clone(),
        payload,
    }
}

/// The audit rows written for a sequence of publishes, one row each, keyed by
/// the digest of its payload.
pub open spec fn audit_of(payloads: Seq<Seq<u8>>) -> Seq<Seq<char>> {
    payloads.map_values(|p: Seq<u8>| idempotency_key_of(p))
}

proof fn lemma_hex_digit_injective(a: int, b: int)
    requires
        0 <= a < 16,
        0 <= b < 16,
        hex_digit(a) == hex_digit(b),
    ensures
        a == b,
{
}

proof fn lemma_hex_injective(a: Seq<u8>, b: Seq<u8>)
    requires
        hex_of(a) == hex_of(b),
    ensures
        a == b,
    decreases a.len(),
{
    lemma_hex_len(a);
    lemma_hex_len(b);
    if a.len() > 0 {
        let ha = hex_of(a.drop_last());
        let hb = hex_of(b.drop_last());
        lemma_hex_len(a.drop_last());
        lemma_hex_len(b.drop_last());
        assert(hex_of(a)[ha.len() as int] == hex_of(b)[hb.len() as int]);
        assert(hex_of(a)[(ha.len() + 1) as int] == hex_of(b)[(hb.len() + 1) as int]);
        lemma_hex_digit_injective(a.last() as int / 16, b.last() as int / 16);
        lemma_hex_digit_injective(a.last() as int % 16, b.last() as int % 16);
        assert(hex_of(a).take(ha.len() as int) == ha);
        assert(hex_of(b).take(hb.len() as int) == hb);
        lemma_hex_injective(a.drop_last(), b.drop_last());
        assert(a == a.drop_last().push(a.last()));
        assert(b == b.drop_last().push(b.last()));
    } else {
        assert(b.len() == 0);
        assert(a =~= b);
    }
}

proof fn lemma_hex_len(a: Seq<u8>)
    ensures
        hex_of(a).len() == 2 * a.len(),
    decreases a.len(),
{
    if a.len() > 0 {
        lemma_hex_len(a.drop_last());
    }
}

/// Every publish writes exactly one audit row, and the row's key is the
/// payload's: the same payload always gets the same key, and two rows with
/// the same key have payloads with the same SHA-256 digest.
pub proof fn lemma_audit_rows(payloads: Seq<Seq<u8>>, i: int, j: int)
    requires
        0 <= i < payloads.len(),
        0 <= j < payloads.len(),
    ensures
        audit_of(payloads).len() == payloads.len(),
        payloads[i] == payloads[j] ==> audit_of(payloads)[i] == audit_of(payloads)[j],
        audit_of(payloads)[i] == audit_of(payloads)[j] ==> sha256_of(payloads[i]) == sha256_of(
            payloads[j],
        ),
{
    let ki = idempotency_key_of(payloads[i]);
    let kj = idempotency_key_of(payloads[j]);
    if ki == kj {
        let pre = seq!['s', 'h', 'a', '2', '5', '6', ':'];
        assert(ki.skip(7) == hex_of(sha256_of(payloads[i])));
        assert(kj.skip(7) == hex_of(sha256_of(payloads[j])));
        lemma_hex_injective(sha256_of(payloads[i]), sha256_of(payloads[j]));
    }
}

/// The type tag of a `SourceEvent` in the audit log.
pub open spec fn source_tag(e: SourceEvent) -> Seq<char> {
    match e {
        SourceEvent::SyncStarted => "sync_started"@,
        SourceEvent::SyncDelta { .. } => "sync_delta"@,
        SourceEvent::FileAdded { .. } => "file_added"@,
        SourceEvent::FileModified { .. } => "file_modified"@,
        SourceEvent::FileMoved { .. } => "file_moved"@,
        SourceEvent::FileDeleted { .. } => "file_deleted"@,
        SourceEvent::ExtractionRequested { .. } => "extraction_requested"@,
        SourceEvent::ExtractionCompleted { .. } => "extraction_completed"@,
        SourceEvent::ExtractionFailed { .. } => "extraction_failed"@,
    }
}

impl SourceEvent {
    /// The event's type tag in the audit log.
    pub fn kind_tag(&self) -> (s: &'static str)
        ensures
            s@ == source_tag(*self),
    {
        match self {
            SourceEvent::SyncStarted => "sync_started",
            SourceEvent::SyncDelta { .. } => "sync_delta",
            SourceEvent::FileAdded { .. } => "file_added",
            SourceEvent::FileModified { .. } => "file_modified",
            SourceEvent::FileMoved { .. } => "file_moved",
            SourceEvent::FileDeleted { .. } => "file_deleted",
            SourceEvent::ExtractionRequested { .. } => "extraction_requested",
            SourceEvent::ExtractionCompleted { .. } => "extraction_completed",
            SourceEvent::ExtractionFailed { .. } => "extraction_failed",
        }
    }
}

/// The type tag of a `MirrorEvent` in the audit log.
pub open spec fn mirror_tag(e: MirrorEvent) -> Seq<char> {
    match e {
        MirrorEvent::MirrorDocUpserted { .. } => "mirror_doc_upserted"@,
        MirrorEvent::MirrorDocDeleted { .. } => "mirror_doc_deleted"@,
        MirrorEvent::MirrorChunkUpserted { .. } => "mirror_chunk_upserted"@,
        MirrorEvent::MirrorChunkDeleted { .. } => "mirror_chunk_deleted"@,
    }
}

impl MirrorEvent {
    /// The event's type tag in the audit log.
    pub fn kind_tag(&self) -> (s: &'static str)
        ensures
            s@ == mirror_tag(*self),
    {
        match self {
            MirrorEvent::MirrorDocUpserted { .. } => "mirror_doc_upserted",
            MirrorEvent::MirrorDocDeleted { .. } => "mirror_doc_deleted",
            MirrorEvent::MirrorChunkUpserted { .. } => "mirror_chunk_upserted",
            MirrorEvent::MirrorChunkDeleted { .. } => "mirror_chunk_deleted",
        }
    }
}

} // verus!
