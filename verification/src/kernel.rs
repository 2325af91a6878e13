//! Kernel log aggregation: logical entries, the append-only store, the
//! subscriber registry and the service that ties them together.
//!
//! Raw entries arrive from the kernel log source (read by the caller, which
//! owns the I/O). The service normalizes them: an entry that carries a
//! facility marker starts a new logical entry and advances the sequence
//! counter; an entry without one is a continuation line whose text is merged,
//! newline-separated, into the most recently finalized entry. Every finalized
//! or updated entry is appended to (or updated in) the store and broadcast to
//! all registered subscribers.

use vstd::prelude::*;

use crate::registry::{EventRecord, Registry, RegistryView, SubscriberView, WebsocketEventType};

verus! {

/// One logical kernel-log record.
pub struct KernelMessage {
    /// Subsystem tag reported by the kernel source; empty if unreported.
    pub facility: String,
    /// Log level reported by the kernel source; empty if unreported.
    pub level: String,
    /// Monotonic counter identifying which group of continuation lines this
    /// entry belongs to.
    pub sequence_number: usize,
    /// Nanoseconds since system start, as reported by the source; 0 if
    /// unavailable.
    pub timestamp_from_system_start_ns: u64,
    /// Message text; contains embedded newlines when continuation lines were
    /// merged in.
    pub message: String,
}

/// Mathematical model of one logical kernel-log record.
pub ghost struct LogEntryView {
    pub facility: Seq<char>,
    pub level: Seq<char>,
    pub sequence_number: nat,
    pub timestamp_from_system_start_ns: u64,
    pub message: Seq<char>,
}

impl View for KernelMessage {
    type V = LogEntryView;

    open spec fn view(&self) -> LogEntryView {
        LogEntryView {
            facility: self.facility@,
            level: self.level@,
            sequence_number: self.sequence_number as nat,
            timestamp_from_system_start_ns: self.timestamp_from_system_start_ns,
            message: self.message@,
        }
    }
}

impl DeepView for KernelMessage {
    type V = LogEntryView;

    open spec fn deep_view(&self) -> LogEntryView {
        self.view()
    }
}

impl Clone for KernelMessage {
    fn clone(&self) -> (res: Self)
        ensures
            res@ == self@,
    {
        KernelMessage {
            facility: self.facility.clone(),
            level: self.level.clone(),
            sequence_number: self.sequence_number,
            timestamp_from_system_start_ns: self.timestamp_from_system_start_ns,
            message: self.message.clone(),
        }
    }
}

/// One raw item from the kernel log source, already normalized to plain
/// values by the caller that owns the connection to the source. A raw entry
/// that carries a facility marker starts a new logical entry; one without is
/// a continuation line.
pub struct RawEntry {
    /// Facility marker; its presence marks the start of a new logical entry.
    pub facility: Option<String>,
    /// Log level, if the source reported one.
    pub level: Option<String>,
    /// Nanoseconds since system start, if the source reported them.
    pub timestamp_from_system_start_ns: Option<u64>,
    /// Raw message text of this line.
    pub message: String,
}

/// Mathematical model of a raw item from the kernel log source.
pub ghost struct RawEntryView {
    pub facility: Option<Seq<char>>,
    pub level: Option<Seq<char>>,
    pub timestamp_from_system_start_ns: Option<u64>,
    pub message: Seq<char>,
}

impl View for RawEntry {
    type V = RawEntryView;

    open spec fn view(&self) -> RawEntryView {
        RawEntryView {
            facility: self.facility.deep_view(),
            level: self.level.deep_view(),
            timestamp_from_system_start_ns: self.timestamp_from_system_start_ns,
            message: self.message@,
        }
    }
}

/// Query parameters of the kernel-buffer endpoint: both optional, missing
/// values defaulting as [`Store::read`] states.
pub struct KernelBufferQuery {
    pub start: Option<usize>,
    pub size: Option<usize>,
}

/// Append-only ordered sequence of logical kernel-log entries.
///
/// The store is mutated only through [`Store::append`] and
/// [`Store::merge_last`]; readers get a copy, never a live view.
pub struct Store {
    entries: Vec<KernelMessage>,
}

/// The entry that results from merging one continuation line into `e`: the
/// continuation's text is appended to the message, separated by a single
/// newline; every other field, the sequence number in particular, is
/// unchanged.
pub open spec fn merged_entry(e: LogEntryView, text: Seq<char>) -> LogEntryView {
    LogEntryView { message: e.message + seq!['\n'] + text, ..e }
}

/// Start of the range that a paginated read returns: `start` (default 0)
/// clipped to the store's length.
pub open spec fn read_lo(len: int, start: Option<usize>) -> int {
    let s = match start {
        Some(s) => s as int,
        None => 0,
    };
    if s < len {
        s
    } else {
        len
    }
}

/// End of the range that a paginated read returns: `start + size` (`size`
/// defaults to everything remaining) clipped to the store's length.
pub open spec fn read_hi(len: int, start: Option<usize>, size: Option<usize>) -> int {
    let lo = read_lo(len, start);
    match size {
        Some(s) => {
            if lo + s < len {
                lo + s
            } else {
                len
            }
        },
        None => len,
    }
}

impl View for Store {
    type V = Seq<LogEntryView>;

    closed spec fn view(&self) -> Seq<LogEntryView> {
        self.entries.deep_view()
    }
}

impl Store {
    /// An empty store.
    pub fn new() -> (s: Store)
        ensures
            s@ == Seq::<LogEntryView>::empty(),
    {
        let s = Store { entries: Vec::new() };
        proof {
            assert(s@ =~= Seq::<LogEntryView>::empty());
        }
        s
    }

    /// Current number of entries.
    pub fn len(&self) -> (n: usize)
        ensures
            n == self@.len(),
    {
        self.entries.len()
    }

    /// Adds one finalized entry at the end.
    pub fn append(&mut self, entry: KernelMessage)
        ensures
            final(self)@ == old(self)@.push(entry@),
    {
        self.entries.push(entry);
        proof {
            assert(self@ =~= old(self)@.push(self.entries@.last()@));
        }
    }

    /// Merges one continuation line into the most recently finalized entry:
    /// its text is appended to that entry's message, separated by a single
    /// newline; the sequence number and all other fields stay unchanged.
    pub fn merge_last(&mut self, text: &str)
        requires
            old(self)@.len() > 0,
        ensures
            final(self)@ == old(self)@.update(
                old(self)@.len() - 1,
                merged_entry(old(self)@.last(), text@),
            ),
    {
        proof {
            reveal_strlit("\n");
        }
        let mut last = self.entries.pop().unwrap();
        last.message.append("\n");
        last.message.append(text);
        self.entries.push(last);
        proof {
            assert(last@.message =~= old(self)@.last().message + seq!['\n'] + text@);
            assert(self@ =~= old(self)@.update(
                old(self)@.len() - 1,
                merged_entry(old(self)@.last(), text@),
            ));
        }
    }

    /// Returns a copy of the entries at positions `[start, start + size)`,
    /// clipped to the available range. `start` defaults to 0; `size` defaults
    /// to everything remaining from `start`. Never errors: an out-of-range
    /// `start` yields an empty result.
    pub fn read(&self, start: Option<usize>, size: Option<usize>) -> (r: Vec<KernelMessage>)
        ensures
            r.deep_view() == self@.subrange(
                read_lo(self@.len() as int, start),
                read_hi(self@.len() as int, start, size),
            ),
    {
        let len = self.entries.len();
        let lo: usize = match start {
            Some(s) => if s < len {
                s
            } else {
                len
            },
            None => 0,
        };
        let mut count: usize = len - lo;
        if let Some(s) = size {
            if s < count {
                count = s;
            }
        }
        proof {
            assert(lo == read_lo(self@.len() as int, start));
            assert(lo + count == read_hi(self@.len() as int, start, size));
        }
        let mut out: Vec<KernelMessage> = Vec::new();
        let mut i: usize = 0;
        while i < count
            invariant
                i <= count,
                len == self@.len(),
                lo + count <= len,
                out@.len() == i,
                forall|j: int| 0 <= j < i ==> #[trigger] out@[j]@ == self@[lo + j],
            decreases count - i,
        {
            out.push(self.entries[lo + i].clone());
            i += 1;
        }
        proof {
            assert forall|j: int| 0 <= j < out@.len() implies #[trigger] out.deep_view()[j]
                == self@.subrange(lo as int, lo + count)[j] by {
                assert(out@[j]@ == self@[lo + j]);
            }
            assert(out.deep_view() =~= self@.subrange(
                read_lo(self@.len() as int, start),
                read_hi(self@.len() as int, start, size),
            ));
        }
        out
    }

    /// A copy of the most recently finalized entry.
    pub fn last_entry(&self) -> (r: KernelMessage)
        requires
            self@.len() > 0,
        ensures
            r@ == self@.last(),
    {
        let n = self.entries.len();
        self.entries[n - 1].clone()
    }
}

/// Mathematical model of the whole kernel log service.
pub ghost struct ServiceView {
    /// The store's contents, in arrival order.
    pub entries: Seq<LogEntryView>,
    /// The running sequence counter of the normalization step.
    pub sequence_counter: nat,
    /// The subscriber registry, with its ghost log of broadcast events.
    pub registry: RegistryView,
}

/// The logical entry built from a raw entry that carries a facility marker:
/// unreported fields default to empty or zero, the sequence number is the
/// counter value assigned to this entry.
pub open spec fn finalized_entry(raw: RawEntryView, seqno: nat) -> LogEntryView {
    LogEntryView {
        facility: match raw.facility {
            Some(f) => f,
            None => Seq::empty(),
        },
        level: match raw.level {
            Some(l) => l,
            None => Seq::empty(),
        },
        sequence_number: seqno,
        timestamp_from_system_start_ns: match raw.timestamp_from_system_start_ns {
            Some(t) => t,
            None => 0,
        },
        message: raw.message,
    }
}

/// One step of the normalization algorithm. A raw entry with a facility
/// marker advances the sequence counter (when an entry was already tracked),
/// is finalized and appended, and is broadcast. A continuation line while
/// nothing is tracked yet is skipped. Any other continuation line is merged,
/// newline-separated, into the most recently finalized entry, and the updated
/// entry is broadcast.
pub open spec fn ingest_spec(s: ServiceView, raw: RawEntryView) -> ServiceView {
    if raw.facility is Some {
        let seqno: nat = if s.entries.len() > 0 {
            s.sequence_counter + 1
        } else {
            s.sequence_counter
        };
        let entry = finalized_entry(raw, seqno);
        ServiceView {
            entries: s.entries.push(entry),
            sequence_counter: seqno,
            registry: s.registry.after_broadcast(WebsocketEventType::KernelBuffer, entry),
        }
    } else if s.entries.len() == 0 {
        s
    } else {
        let entry = merged_entry(s.entries.last(), raw.message);
        ServiceView {
            entries: s.entries.update(s.entries.len() - 1, entry),
            sequence_counter: s.sequence_counter,
            registry: s.registry.after_broadcast(WebsocketEventType::KernelBuffer, entry),
        }
    }
}

/// The service after one subscriber connected with an outbound queue
/// bounded by `capacity`: a fresh subscriber joins at the current end of the
/// event log, with nothing queued or taken; store and counter are untouched.
/// Its snapshot is the store's contents at that same moment.
pub open spec fn connect_spec(s: ServiceView, capacity: nat) -> ServiceView {
    ServiceView {
        registry: RegistryView {
            subscribers: s.registry.subscribers.push(
                SubscriberView {
                    id: s.registry.next_id,
                    event_type: WebsocketEventType::KernelBuffer,
                    capacity,
                    queue: Seq::empty(),
                    joined_at: s.registry.events.len(),
                    taken: Seq::empty(),
                },
            ),
            next_id: s.registry.next_id + 1,
            events: s.registry.events,
        },
        ..s
    }
}

impl ServiceView {
    /// Well-formedness: the registry invariant holds, the sequence number of
    /// the entry at position `i` is exactly `i`, and the counter tracks the
    /// last assigned sequence number.
    pub open spec fn wf(self) -> bool {
        &&& self.registry.wf()
        &&& forall|i: int|
            0 <= i < self.entries.len() ==> (#[trigger] self.entries[i]).sequence_number == i
        &&& self.sequence_counter == if self.entries.len() == 0 {
            0nat
        } else {
            (self.entries.len() - 1) as nat
        }
    }
}

/// The kernel log aggregation service: the append-only store, the subscriber
/// registry and the normalization state, behind one exclusive reference. The
/// caller wraps the service in its mutual-exclusion primitive of choice and
/// shares it between the reader task, the sessions and the HTTP handlers;
/// every operation here holds that exclusive access only for the duration of
/// the call.
pub struct KernelService {
    store: Store,
    registry: Registry,
    sequence_counter: usize,
}

impl View for KernelService {
    type V = ServiceView;

    closed spec fn view(&self) -> ServiceView {
        ServiceView {
            entries: self.store@,
            sequence_counter: self.sequence_counter as nat,
            registry: self.registry@,
        }
    }
}

impl KernelService {
    /// A fresh service: empty store, no subscribers, counter at zero.
    pub fn new() -> (s: KernelService)
        ensures
            s@.wf(),
            s@.entries == Seq::<LogEntryView>::empty(),
            s@.sequence_counter == 0,
            s@.registry.subscribers == Seq::<SubscriberView>::empty(),
            s@.registry.events == Seq::<EventRecord>::empty(),
            s@.registry.next_id == 0,
    {
        KernelService { store: Store::new(), registry: Registry::new(), sequence_counter: 0 }
    }

    /// Feeds one raw entry from the kernel log source through the
    /// normalization step: finalize-and-append or merge, then broadcast, as
    /// [`ingest_spec`] states. Parse errors of the source never reach this
    /// function; the caller skips them.
    pub fn ingest(&mut self, raw: RawEntry)
        requires
            old(self)@.wf(),
        ensures
            final(self)@ == ingest_spec(old(self)@, raw@),
            final(self)@.wf(),
    {
        let RawEntry { facility, level, timestamp_from_system_start_ns, message } = raw;
        match facility {
            Some(facility) => {
                let len = self.store.len();
                let seqno: usize = if len > 0 {
                    self.sequence_counter + 1
                } else {
                    self.sequence_counter
                };
                self.sequence_counter = seqno;
                let entry = KernelMessage {
                    facility,
                    level: match level {
                        Some(l) => l,
                        None => String::new(),
                    },
                    sequence_number: seqno,
                    timestamp_from_system_start_ns: match timestamp_from_system_start_ns {
                        Some(t) => t,
                        None => 0,
                    },
                    message,
                };
                self.registry.broadcast(WebsocketEventType::KernelBuffer, &entry);
                self.store.append(entry);
            },
            None => {
                if self.store.len() == 0 {
                    return ;
                }
                self.store.merge_last(message.as_str());
                let updated = self.store.last_entry();
                self.registry.broadcast(WebsocketEventType::KernelBuffer, &updated);
                proof {
                    assert(self@.entries =~= old(self)@.entries.update(
                        old(self)@.entries.len() - 1,
                        merged_entry(old(self)@.entries.last(), raw@.message),
                    ));
                }
            },
        }
    }

    /// Current number of stored entries.
    pub fn len(&self) -> (n: usize)
        ensures
            n == self@.entries.len(),
    {
        self.store.len()
    }

    /// Paginated read of the stored entries: positions `[start, start + size)`
    /// clipped to the available range, `start` defaulting to 0 and `size` to
    /// everything remaining. Never errors; an out-of-range `start` yields an
    /// empty result.
    pub fn messages(&self, start: Option<usize>, size: Option<usize>) -> (r: Vec<KernelMessage>)
        ensures
            r.deep_view() == self@.entries.subrange(
                read_lo(self@.entries.len() as int, start),
                read_hi(self@.entries.len() as int, start, size),
            ),
    {
        self.store.read(start, size)
    }

    /// Connects one subscriber: atomically (under the one exclusive reference
    /// to the service) captures the snapshot of all entries stored so far and
    /// registers a fresh subscriber with an outbound queue bounded by
    /// `capacity`. Because nothing can be appended between the snapshot and
    /// the registration, the subscriber misses no entry and sees none twice:
    /// its snapshot is everything up to its join point, and the registry
    /// invariant covers everything after.
    pub fn connect(&mut self, capacity: usize) -> (r: (Vec<KernelMessage>, usize))
        requires
            old(self)@.wf(),
            old(self)@.registry.next_id < usize::MAX,
        ensures
            final(self)@.wf(),
            r.0.deep_view() == old(self)@.entries,
            r.1 == old(self)@.registry.next_id,
            final(self)@.entries == old(self)@.entries,
            final(self)@.sequence_counter == old(self)@.sequence_counter,
            final(self)@.registry.events == old(self)@.registry.events,
            final(self)@.registry.next_id == old(self)@.registry.next_id + 1,
            final(self)@.registry.subscribers == old(self)@.registry.subscribers.push(
                SubscriberView {
                    id: old(self)@.registry.next_id,
                    event_type: WebsocketEventType::KernelBuffer,
                    capacity: capacity as nat,
                    queue: Seq::empty(),
                    joined_at: old(self)@.registry.events.len(),
                    taken: Seq::empty(),
                },
            ),
            final(self)@ == connect_spec(old(self)@, capacity as nat),
    {
        let snapshot = self.store.read(None, None);
        proof {
            assert(snapshot.deep_view() =~= self@.entries);
        }
        let id = self.registry.register(WebsocketEventType::KernelBuffer, capacity);
        (snapshot, id)
    }

    /// Whether another subscriber can still be registered: identifiers are
    /// handed out in order and the machine-sized counter must not wrap.
    pub fn can_accept_subscriber(&self) -> (r: bool)
        ensures
            r == (self@.registry.next_id < usize::MAX),
    {
        self.registry.can_accept_subscriber()
    }

    /// Number of currently connected subscribers.
    pub fn subscriber_count(&self) -> (n: usize)
        ensures
            n == self@.registry.subscribers.len(),
    {
        self.registry.subscriber_count()
    }

    /// Disconnects the subscriber with the given identifier; idempotent, and
    /// no other subscriber is touched.
    pub fn disconnect(&mut self, id: usize)
        requires
            old(self)@.wf(),
        ensures
            final(self)@.wf(),
            final(self)@.entries == old(self)@.entries,
            final(self)@.sequence_counter == old(self)@.sequence_counter,
            final(self)@.registry.events == old(self)@.registry.events,
            final(self)@.registry.next_id == old(self)@.registry.next_id,
            final(self)@.registry.subscribers == old(self)@.registry.subscribers.filter(
                |s: SubscriberView| s.id != id as nat,
            ),
    {
        self.registry.unregister(id);
    }

    /// Hands the subscriber with the given identifier everything waiting in
    /// its outbound queue, in delivery order, emptying the queue. An unknown
    /// identifier yields an empty result and changes nothing.
    pub fn take_pending(&mut self, id: usize) -> (r: Vec<KernelMessage>)
        requires
            old(self)@.wf(),
        ensures
            final(self)@.wf(),
            final(self)@.entries == old(self)@.entries,
            final(self)@.sequence_counter == old(self)@.sequence_counter,
            final(self)@.registry.events == old(self)@.registry.events,
            final(self)@.registry.next_id == old(self)@.registry.next_id,
            (exists|i: int|
                0 <= i < old(self)@.registry.subscribers.len()
                    && old(self)@.registry.subscribers[i].id == id as nat) ==> exists|i: int|
                {
                    &&& 0 <= i < old(self)@.registry.subscribers.len()
                    &&& old(self)@.registry.subscribers[i].id == id as nat
                    &&& r.deep_view() == old(self)@.registry.subscribers[i].queue
                    &&& final(self)@.registry.subscribers
                        == old(self)@.registry.subscribers.update(
                        i,
                        old(self)@.registry.subscribers[i].flushed(),
                    )
                },
            (forall|i: int|
                0 <= i < old(self)@.registry.subscribers.len() ==> (
                #[trigger] old(self)@.registry.subscribers[i]).id != id as nat) ==> {
                &&& final(self)@ == old(self)@
                &&& r.deep_view() == Seq::<LogEntryView>::empty()
            },
    {
        let r = self.registry.take_pending(id);
        proof {
            if forall|i: int|
                0 <= i < old(self)@.registry.subscribers.len() ==> (
                #[trigger] old(self)@.registry.subscribers[i]).id != id as nat {
                assert(self@ == old(self)@);
            }
        }
        r
    }
}

/// Reads are clipped to the stored range: the window is always within
/// bounds, an explicit size of zero yields an empty window, and a start at
/// or past the end yields an empty window.
pub proof fn lemma_read_clipping(len: int, start: Option<usize>, size: Option<usize>)
    requires
        0 <= len,
    ensures
        0 <= read_lo(len, start) <= read_hi(len, start, size) <= len,
        size == Some(0usize) ==> read_hi(len, start, size) == read_lo(len, start),
        (start is Some && start.unwrap() >= len) ==> read_lo(len, start) == len && read_hi(
            len,
            start,
            size,
        ) == len,
{
}

/// The service after a whole run of raw entries was ingested, one at a time,
/// in order.
pub open spec fn ingest_all(s: ServiceView, raws: Seq<RawEntryView>) -> ServiceView
    decreases raws.len(),
{
    if raws.len() == 0 {
        s
    } else {
        ingest_spec(ingest_all(s, raws.drop_last()), raws.last())
    }
}

/// Whether every raw entry in the run is a continuation line.
pub open spec fn all_continuations(raws: Seq<RawEntryView>) -> bool {
    forall|i: int| 0 <= i < raws.len() ==> (#[trigger] raws[i]).facility is None
}

/// Whether every raw entry in the run carries a facility marker.
pub open spec fn all_markers(raws: Seq<RawEntryView>) -> bool {
    forall|i: int| 0 <= i < raws.len() ==> (#[trigger] raws[i]).facility is Some
}

/// `base` followed by the text of each continuation line, each separated by
/// a single newline.
pub open spec fn merged_message(base: Seq<char>, conts: Seq<RawEntryView>) -> Seq<char>
    decreases conts.len(),
{
    if conts.len() == 0 {
        base
    } else {
        merged_message(base, conts.drop_last()) + seq!['\n'] + conts.last().message
    }
}

/// One normalization step leaves a well-formed service well formed: sequence
/// numbers still equal positions, the counter still tracks the last of them,
/// and the registry invariant still holds.
pub proof fn lemma_ingest_preserves_wf(s: ServiceView, raw: RawEntryView)
    requires
        s.wf(),
    ensures
        ingest_spec(s, raw).wf(),
{
    if raw.facility is Some {
        let seqno: nat = if s.entries.len() > 0 {
            s.sequence_counter + 1
        } else {
            s.sequence_counter
        };
        let entry = finalized_entry(raw, seqno);
        s.registry.lemma_after_broadcast_wf(WebsocketEventType::KernelBuffer, entry);
    } else if s.entries.len() > 0 {
        let entry = merged_entry(s.entries.last(), raw.message);
        s.registry.lemma_after_broadcast_wf(WebsocketEventType::KernelBuffer, entry);
    }
}

/// A whole run of normalization steps leaves a well-formed service well
/// formed.
pub proof fn lemma_ingest_all_preserves_wf(s: ServiceView, raws: Seq<RawEntryView>)
    requires
        s.wf(),
    ensures
        ingest_all(s, raws).wf(),
    decreases raws.len(),
{
    if raws.len() > 0 {
        lemma_ingest_all_preserves_wf(s, raws.drop_last());
        lemma_ingest_preserves_wf(ingest_all(s, raws.drop_last()), raws.last());
    }
}

/// Continuation lines merge, and nothing else moves: after a run of
/// continuation lines, the store holds the same entries but for the last one,
/// whose message is the old message followed by each continuation's text,
/// newline-separated; its sequence number — and every other field — is
/// unchanged across the merges, and so is the sequence counter.
pub proof fn lemma_continuation_run(s: ServiceView, conts: Seq<RawEntryView>)
    requires
        s.entries.len() > 0,
        all_continuations(conts),
    ensures
        ({
            let s2 = ingest_all(s, conts);
            s2.entries == s.entries.update(
                s.entries.len() - 1,
                LogEntryView { message: merged_message(s.entries.last().message, conts), ..s.entries.last() },
            ) && s2.sequence_counter == s.sequence_counter
        }),
    decreases conts.len(),
{
    let s2 = ingest_all(s, conts);
    if conts.len() == 0 {
        assert(s.entries.update(
            s.entries.len() - 1,
            LogEntryView { message: merged_message(s.entries.last().message, conts), ..s.entries.last() },
        ) =~= s.entries);
    } else {
        let d = conts.drop_last();
        assert(all_continuations(d)) by {
            assert(forall|i: int| 0 <= i < d.len() ==> d[i] == conts[i]);
        }
        lemma_continuation_run(s, d);
        let s1 = ingest_all(s, d);
        let n = s.entries.len() - 1;
        assert(s1.entries.len() == s.entries.len());
        assert(conts.last().facility is None);
        assert(s2 == ingest_spec(s1, conts.last()));
        assert(s1.entries.last() == LogEntryView {
            message: merged_message(s.entries.last().message, d),
            ..s.entries.last()
        });
        assert(s2.entries =~= s.entries.update(
            n,
            LogEntryView { message: merged_message(s.entries.last().message, conts), ..s.entries.last() },
        ));
    }
}

/// A marker entry followed by any run of continuation lines becomes one
/// stored entry whose message is the marker's message followed by each
/// continuation's text, each separated by a single newline; its sequence
/// number — assigned when the marker arrived — is unchanged across the
/// merges, and everything stored earlier is untouched.
pub proof fn lemma_marker_then_continuations(
    s: ServiceView,
    m: RawEntryView,
    conts: Seq<RawEntryView>,
)
    requires
        m.facility is Some,
        all_continuations(conts),
    ensures
        ({
            let seqno: nat = if s.entries.len() > 0 {
                s.sequence_counter + 1
            } else {
                s.sequence_counter
            };
            let s2 = ingest_all(ingest_spec(s, m), conts);
            &&& s2.entries.len() == s.entries.len() + 1
            &&& s2.entries.subrange(0, s.entries.len() as int) == s.entries
            &&& s2.entries.last() == (LogEntryView {
                message: merged_message(m.message, conts),
                ..finalized_entry(m, seqno)
            })
            &&& s2.entries.last().sequence_number == seqno
            &&& s2.sequence_counter == seqno
        }),
{
    let s1 = ingest_spec(s, m);
    let seqno: nat = if s.entries.len() > 0 {
        s.sequence_counter + 1
    } else {
        s.sequence_counter
    };
    lemma_continuation_run(s1, conts);
    let s2 = ingest_all(s1, conts);
    assert(s1.entries.last() == finalized_entry(m, seqno));
    assert(s2.entries.subrange(0, s.entries.len() as int) =~= s.entries);
    assert(s2.entries.last() == (LogEntryView {
        message: merged_message(finalized_entry(m, seqno).message, conts),
        ..finalized_entry(m, seqno)
    }));
}

/// Along the store, sequence numbers are exactly the positions — hence
/// non-decreasing in arrival order.
pub proof fn lemma_sequence_numbers_nondecreasing(s: ServiceView, i: int, j: int)
    requires
        s.wf(),
        0 <= i <= j < s.entries.len(),
    ensures
        s.entries[i].sequence_number == i,
        s.entries[j].sequence_number == j,
        s.entries[i].sequence_number <= s.entries[j].sequence_number,
{
}

/// A raw entry with a facility marker arriving while an entry is already
/// tracked increases the assigned sequence number by exactly one; the very
/// first tracked entry keeps the counter where it started. A continuation
/// line never changes any sequence number.
pub proof fn lemma_sequence_number_step(s: ServiceView, raw: RawEntryView)
    requires
        s.wf(),
    ensures
        ({
            let s2 = ingest_spec(s, raw);
            &&& (raw.facility is Some && s.entries.len() > 0) ==> s2.entries.last().sequence_number
                == s.entries.last().sequence_number + 1
            &&& (raw.facility is Some && s.entries.len() == 0) ==> s2.entries.last().sequence_number
                == s.sequence_counter
            &&& raw.facility is None ==> forall|i: int|
                0 <= i < s2.entries.len() ==> (#[trigger] s2.entries[i]).sequence_number
                    == s.entries[i].sequence_number
        }),
{
}

/// All events ever broadcast by the kernel log service carry the
/// kernel-buffer tag.
pub open spec fn tagged_events(entries: Seq<LogEntryView>) -> Seq<EventRecord> {
    entries.map_values(
        |e: LogEntryView| EventRecord { event_type: WebsocketEventType::KernelBuffer, entry: e },
    )
}

/// A run of raw entries that all carry facility markers appends exactly one
/// entry per raw entry, leaves the earlier entries untouched, and broadcasts
/// exactly the appended entries, in append order, each exactly once.
pub proof fn lemma_append_only_run(s: ServiceView, raws: Seq<RawEntryView>)
    requires
        all_markers(raws),
    ensures
        ({
            let s2 = ingest_all(s, raws);
            &&& s2.entries.len() == s.entries.len() + raws.len()
            &&& s2.entries.subrange(0, s.entries.len() as int) == s.entries
            &&& s2.registry.events == s.registry.events + tagged_events(
                s2.entries.skip(s.entries.len() as int),
            )
            &&& s2.registry.next_id == s.registry.next_id
        }),
    decreases raws.len(),
{
    let s2 = ingest_all(s, raws);
    let n = s.entries.len() as int;
    if raws.len() == 0 {
        assert(s2.entries.subrange(0, n) =~= s.entries);
        assert(s2.entries.skip(n) =~= Seq::<LogEntryView>::empty());
        assert(tagged_events(Seq::<LogEntryView>::empty())
            =~= Seq::<EventRecord>::empty());
        assert(s.registry.events + Seq::<EventRecord>::empty() =~= s.registry.events);
    } else {
        let d = raws.drop_last();
        assert(all_markers(d)) by {
            assert(forall|i: int| 0 <= i < d.len() ==> d[i] == raws[i]);
        }
        lemma_append_only_run(s, d);
        let s1 = ingest_all(s, d);
        assert(raws.last().facility is Some);
        let entry = s2.entries.last();
        assert(s2.entries == s1.entries.push(entry));
        assert(s2.entries.subrange(0, n) =~= s1.entries.subrange(0, n));
        assert(s2.entries.skip(n) =~= s1.entries.skip(n).push(entry));
        crate::registry::lemma_map_values_push(
            s1.entries.skip(n),
            entry,
            |e: LogEntryView| EventRecord { event_type: WebsocketEventType::KernelBuffer, entry: e },
        );
        assert(s2.registry.events =~= s.registry.events + tagged_events(s2.entries.skip(n)));
    }
}

/// The whole subscriber story in one statement: a subscriber connecting
/// after `s.entries` were stored receives exactly those entries as its
/// snapshot ([`KernelService::connect`]), and across any further run of
/// marker-carrying raw entries — as long as the run fits its queue — it is
/// still registered with its queue holding exactly the newly appended
/// entries, in append order, each exactly once, with no duplicate and no
/// gap. Meanwhile everything stored before it connected is untouched.
pub proof fn lemma_connect_then_appends(s: ServiceView, capacity: nat, raws: Seq<RawEntryView>)
    requires
        all_markers(raws),
        raws.len() <= capacity,
    ensures
        ({
            let s1 = connect_spec(s, capacity);
            let s2 = ingest_all(s1, raws);
            &&& s2.entries.len() == s.entries.len() + raws.len()
            &&& s2.entries.subrange(0, s.entries.len() as int) == s.entries
            &&& exists|j: int|
                0 <= j < s2.registry.subscribers.len() && s2.registry.subscribers[j]
                    == (SubscriberView {
                    id: s.registry.next_id,
                    event_type: WebsocketEventType::KernelBuffer,
                    capacity,
                    queue: s2.entries.skip(s.entries.len() as int),
                    joined_at: s.registry.events.len(),
                    taken: Seq::empty(),
                })
        }),
{
    let s1 = connect_spec(s, capacity);
    let sub = SubscriberView {
        id: s.registry.next_id,
        event_type: WebsocketEventType::KernelBuffer,
        capacity,
        queue: Seq::empty(),
        joined_at: s.registry.events.len(),
        taken: Seq::empty(),
    };
    let i = s1.registry.subscribers.len() - 1;
    assert(s1.registry.subscribers[i] == sub);
    lemma_append_only_run(s1, raws);
    lemma_subscriber_receives_appends(s1, raws, i);
    let s2 = ingest_all(s1, raws);
    assert(sub.queue + s2.entries.skip(s.entries.len() as int) =~= s2.entries.skip(
        s.entries.len() as int,
    ));
}

/// A kernel-buffer subscriber whose outbound queue never saturates receives,
/// across any run of marker-carrying raw entries, exactly the newly appended
/// entries: afterwards it is still registered, unchanged except that its
/// queue grew by those entries, in append order, each exactly once — no
/// duplicate, no gap. Together with [`KernelService::connect`], whose
/// snapshot is everything stored up to the join point, a subscriber sees
/// every entry exactly once.
pub proof fn lemma_subscriber_receives_appends(s: ServiceView, raws: Seq<RawEntryView>, i: int)
    requires
        all_markers(raws),
        0 <= i < s.registry.subscribers.len(),
        s.registry.subscribers[i].event_type == WebsocketEventType::KernelBuffer,
        s.registry.subscribers[i].queue.len() + raws.len() <= s.registry.subscribers[i].capacity,
    ensures
        ({
            let s2 = ingest_all(s, raws);
            let sub = s.registry.subscribers[i];
            exists|j: int|
                0 <= j < s2.registry.subscribers.len() && s2.registry.subscribers[j]
                    == (SubscriberView {
                    queue: sub.queue + s2.entries.skip(s.entries.len() as int),
                    ..sub
                })
        }),
    decreases raws.len(),
{
    let s2 = ingest_all(s, raws);
    let sub = s.registry.subscribers[i];
    let n = s.entries.len() as int;
    if raws.len() == 0 {
        assert(sub.queue + s2.entries.skip(n) =~= sub.queue) by {
            assert(s2.entries.skip(n) =~= Seq::<LogEntryView>::empty());
        }
        assert(s2.registry.subscribers[i] == (SubscriberView {
            queue: sub.queue + s2.entries.skip(n),
            ..sub
        }));
    } else {
        let d = raws.drop_last();
        assert(all_markers(d)) by {
            assert(forall|k: int| 0 <= k < d.len() ==> d[k] == raws[k]);
        }
        lemma_subscriber_receives_appends(s, d, i);
        lemma_append_only_run(s, d);
        let s1 = ingest_all(s, d);
        let mid = SubscriberView { queue: sub.queue + s1.entries.skip(n), ..sub };
        let j = choose|j: int|
            0 <= j < s1.registry.subscribers.len() && s1.registry.subscribers[j] == mid;
        assert(raws.last().facility is Some);
        let entry = s2.entries.last();
        assert(s2.entries == s1.entries.push(entry));
        let t = WebsocketEventType::KernelBuffer;
        let pred = |v: SubscriberView| v.survives(t);
        let dlv = |v: SubscriberView| v.delivered(t, entry);
        assert(mid.queue.len() == sub.queue.len() + d.len()) by {
            assert(s1.entries.skip(n).len() == d.len());
        }
        assert(pred(mid));
        s1.registry.subscribers.lemma_filter_contains(pred, j);
        let filtered = s1.registry.subscribers.filter(pred);
        assert(filtered.contains(mid));
        let k = choose|k: int| 0 <= k < filtered.len() && filtered[k] == mid;
        assert(s2.registry.subscribers == filtered.map_values(dlv));
        assert(s2.registry.subscribers[k] == dlv(mid));
        assert(dlv(mid).queue =~= sub.queue + s2.entries.skip(n)) by {
            assert(s2.entries.skip(n) =~= s1.entries.skip(n).push(entry));
            assert(mid.queue.push(entry) =~= sub.queue + s1.entries.skip(n).push(entry));
        }
        assert(s2.registry.subscribers[k] == (SubscriberView {
            queue: sub.queue + s2.entries.skip(n),
            ..sub
        }));
    }
}

} // verus!
