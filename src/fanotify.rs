use vstd::prelude::*;
use lru::LruCache;
use std::num::NonZeroUsize;
use crate::event::{EventKey, EventDeduplicator, repeats};
use crate::process::{finalize_exe, finalize_exe_spec, is_absolute, BinPathCache};
use crate::status::unknown_name;
use crate::types::{ProcessInfo, SedockerError};

verus! {

/// Initialisation class: notification only, no permission decisions.
pub const FAN_CLASS_NOTIF: u32 = 0x0;
/// Mark flag: add to the marks of the object.
pub const FAN_MARK_ADD: u32 = 0x1;
/// Mask bit: report events on the children of a marked directory.
pub const FAN_EVENT_ON_CHILD: u64 = 0x0800_0000;
/// The only metadata layout version the decoder accepts.
pub const FANOTIFY_METADATA_VERSION: u8 = 3;
/// Size in bytes of one event metadata header.
pub const EVENT_METADATA_LEN: usize = 24;
/// Size of the buffer that one read of the channel fills.
pub const EVENT_BUFFER_LEN: usize = 16384;
/// Most entries kept in the pid-to-binary cache.
pub const PROCESS_CACHE_CAPACITY: usize = 1000;

/// The events that a marked directory subscribes to.
pub open spec fn subscription_mask_spec() -> u64 {
    crate::event::FAN_OPEN | crate::event::FAN_ACCESS | crate::event::FAN_MODIFY | FAN_EVENT_ON_CHILD
}

/// The mask given when marking the observed directory: opens, reads and
/// writes, also of the directory's children.
pub fn subscription_mask() -> (r: u64)
    ensures
        r == subscription_mask_spec(),
{
    crate::event::FAN_OPEN | crate::event::FAN_ACCESS | crate::event::FAN_MODIFY | FAN_EVENT_ON_CHILD
}

/// One event record as the kernel delivers it.
#[derive(Debug, Clone, Copy, PartialEq, Eq, Structural)]
pub struct RawEvent {
    pub event_len: u32,
    pub version: u8,
    pub mask: u64,
    pub fd: i32,
    pub pid: i32,
}

/// Why decoding a batch stopped.
#[derive(Debug, Clone, Copy, PartialEq, Eq, Structural)]
pub enum BatchEnd {
    /// Every record of the batch was decoded.
    Complete,
    /// A record had another metadata version; the rest of the batch is dropped.
    VersionMismatch,
    /// A record was cut short or gave a length below the header size.
    Malformed,
}

pub open spec fn le_u16(b: Seq<u8>, off: int) -> nat {
    b[off] as nat + b[off + 1] as nat * 0x100
}

pub open spec fn le_u32(b: Seq<u8>, off: int) -> nat {
    le_u16(b, off) + le_u16(b, off + 2) * 0x1_0000
}

pub open spec fn le_u64(b: Seq<u8>, off: int) -> nat {
    le_u32(b, off) + le_u32(b, off + 4) * 0x1_0000_0000
}

/// The header at byte `off`: length (4 bytes), version (1), reserved (1),
/// header length (2), mask (8), fd (4) and pid (4), little-endian.
pub open spec fn record_at(b: Seq<u8>, off: int) -> RawEvent {
    RawEvent {
        event_len: le_u32(b, off) as u32,
        version: b[off + 4],
        mask: le_u64(b, off + 8) as u64,
        fd: (le_u32(b, off + 16) as u32) as i32,
        pid: (le_u32(b, off + 20) as u32) as i32,
    }
}

/// The records of `b[off..]`, walking by each record's length, and why the
/// walk stopped.
pub open spec fn batch_from(b: Seq<u8>, off: int) -> (Seq<RawEvent>, BatchEnd)
    decreases b.len() - off,
{
    if off < 0 || off >= b.len() {
        (Seq::empty(), BatchEnd::Complete)
    } else if off + 24 > b.len() {
        (Seq::empty(), BatchEnd::Malformed)
    } else {
        let r = record_at(b, off);
        let n = r.event_len as int;
        if r.version != 3 {
            (Seq::empty(), BatchEnd::VersionMismatch)
        } else if n < 24 {
            (Seq::empty(), BatchEnd::Malformed)
        } else if off + n >= b.len() {
            (seq![r], BatchEnd::Complete)
        } else {
            let rest = batch_from(b, off + n);
            (seq![r] + rest.0, rest.1)
        }
    }
}

/// The result of decoding one batch.
pub struct DecodedBatch {
    pub events: Vec<RawEvent>,
    pub end: BatchEnd,
}

fn read_u32(b: &Vec<u8>, off: usize) -> (r: u32)
    requires
        off + 4 <= b.len(),
    ensures
        r as nat == le_u32(b@, off as int),
{
    b[off] as u32 + b[off + 1] as u32 * 0x100 + b[off + 2] as u32 * 0x1_0000 + b[off + 3] as u32 * 0x100_0000
}

fn read_u64(b: &Vec<u8>, off: usize) -> (r: u64)
    requires
        off + 8 <= b.len(),
    ensures
        r as nat == le_u64(b@, off as int),
{
    let lo = read_u32(b, off) as u64;
    let hi = read_u32(b, off + 4) as u64;
    lo + hi * 0x1_0000_0000
}

/// Decodes the first `len` bytes of a read of the channel into event records,
/// in buffer order.
pub fn decode_batch(buf: &Vec<u8>, len: usize) -> (r: DecodedBatch)
    requires
        len <= buf.len(),
    ensures
        r.events@ == batch_from(buf@.take(len as int), 0).0,
        r.end == batch_from(buf@.take(len as int), 0).1,
{
    let ghost b = buf@.take(len as int);
    let mut events: Vec<RawEvent> = Vec::new();
    let mut off: usize = 0;
    while off < len
        invariant
            len <= buf.len(),
            b == buf@.take(len as int),
            batch_from(b, 0).0 == events@ + batch_from(b, off as int).0,
            batch_from(b, 0).1 == batch_from(b, off as int).1,
        decreases len - off,
    {
        if len - off < EVENT_METADATA_LEN {
            proof {
                assert(events@ + Seq::<RawEvent>::empty() =~= events@);
            }
            return DecodedBatch { events, end: BatchEnd::Malformed };
        }
        let event_len = read_u32(buf, off);
        let version = buf[off + 4];
        let mask = read_u64(buf, off + 8);
        let fd = read_u32(buf, off + 16) as i32;
        let pid = read_u32(buf, off + 20) as i32;
        let ev = RawEvent { event_len, version, mask, fd, pid };
        let ghost old_events = events@;
        proof {
            assert forall|k: int| off <= k < off + 24 implies b[k] == buf@[k] by {}
            assert(ev == record_at(b, off as int));
        }
        if version != FANOTIFY_METADATA_VERSION {
            proof {
                assert(events@ + Seq::<RawEvent>::empty() =~= events@);
            }
            return DecodedBatch { events, end: BatchEnd::VersionMismatch };
        }
        if (event_len as usize) < EVENT_METADATA_LEN {
            proof {
                assert(events@ + Seq::<RawEvent>::empty() =~= events@);
            }
            return DecodedBatch { events, end: BatchEnd::Malformed };
        }
        events.push(ev);
        if event_len as usize >= len - off {
            return DecodedBatch { events, end: BatchEnd::Complete };
        }
        proof {
            let rest = batch_from(b, off + event_len);
            assert(events@ + rest.0 =~= old_events + (seq![ev] + rest.0));
        }
        off = off + event_len as usize;
    }
    proof {
        assert(events@ + Seq::<RawEvent>::empty() =~= events@);
    }
    DecodedBatch { events, end: BatchEnd::Complete }
}


#[verifier::external_type_specification]
#[verifier::external_body]
#[verifier::reject_recursive_types(K)]
#[verifier::reject_recursive_types(V)]
#[verifier::reject_recursive_types(S)]
pub struct ExLruCache<K, V, S>(lru::LruCache<K, V, S>);

#[verifier::external_type_specification]
#[verifier::external_body]
pub struct ExDefaultHasher(lru::DefaultHasher);

/// The entries of a pid-to-path LRU cache.
pub uninterp spec fn lru_entries(c: LruCache<i32, String>) -> Map<i32, Seq<char>>;

/// The empty pid-to-path map.
pub open spec fn no_entries() -> Map<i32, Seq<char>> {
    Map::empty()
}

/// The capacity an LRU cache was made with.
pub uninterp spec fn lru_capacity(c: LruCache<i32, String>) -> nat;

/// Whether an LRU cache holds finitely many entries, at most its capacity.
pub open spec fn lru_bounded(c: LruCache<i32, String>) -> bool {
    lru_entries(c).dom().finite() && lru_entries(c).len() <= lru_capacity(c)
}

/// Relies on `LruCache::new`: an empty cache holding at most `cap` entries.
#[verifier::external_body]
fn lru_new(cap: usize) -> (r: LruCache<i32, String>)
    requires
        cap > 0,
    ensures
        lru_entries(r) == no_entries(),
        lru_capacity(r) == cap,
{
    LruCache::new(NonZeroUsize::new(cap).unwrap())
}

/// Relies on `LruCache::get`: the value stored under `k`, if any; the call
/// only moves the entry to the most recently used place.
#[verifier::external_body]
fn lru_get(c: &mut LruCache<i32, String>, k: i32) -> (r: Option<String>)
    ensures
        lru_entries(*final(c)) == lru_entries(*old(c)),
        lru_capacity(*final(c)) == lru_capacity(*old(c)),
        lru_bounded(*final(c)),
        match r {
            Some(v) => lru_entries(*old(c)).contains_key(k) && lru_entries(*old(c))[k] == v@,
            None => !lru_entries(*old(c)).contains_key(k),
        },
{
    c.get(&k).cloned()
}

/// Relies on `LruCache::put`: `k` then maps to `v`; any other entry that
/// remains is unchanged; an entry is evicted only when `k` was absent and the
/// cache was full, so the cache never holds more than its capacity.
#[verifier::external_body]
fn lru_put(c: &mut LruCache<i32, String>, k: i32, v: String)
    ensures
        lru_capacity(*final(c)) == lru_capacity(*old(c)),
        lru_bounded(*final(c)),
        lru_entries(*final(c)).contains_key(k),
        lru_entries(*final(c))[k] == v@,
        forall|j: i32| j != k && #[trigger] lru_entries(*final(c)).contains_key(j) ==>
            lru_entries(*old(c)).contains_key(j) && lru_entries(*final(c))[j] == lru_entries(*old(c))[j],
        lru_entries(*old(c)).contains_key(k) || lru_entries(*old(c)).len() < lru_capacity(*old(c)) ==>
            lru_entries(*final(c)) == lru_entries(*old(c)).insert(k, v@),
{
    c.put(k, v);
}

fn starts_with_slash(s: &String) -> (r: bool)
    ensures
        r == is_absolute(s@),
{
    let cs = crate::text::chars_of(s.as_str());
    cs.len() > 0 && cs[0] == '/'
}

/// A bounded map from pid to the absolute binary path last seen for it, so
/// that an event of a process that is already gone can still name its
/// binary. It holds at most `PROCESS_CACHE_CAPACITY` entries, dropping the
/// least recently used one to make room.
pub struct ProcessCache {
    cache: LruCache<i32, String>,
}

impl ProcessCache {
    /// The paths cached per pid.
    pub closed spec fn entries(&self) -> Map<i32, Seq<char>> {
        lru_entries(self.cache)
    }

    /// The most entries the cache holds.
    pub closed spec fn capacity(&self) -> nat {
        lru_capacity(self.cache)
    }

    /// The cache's invariant: its fixed capacity, and never more entries.
    pub open spec fn wf(&self) -> bool {
        &&& self.capacity() == PROCESS_CACHE_CAPACITY
        &&& self.entries().dom().finite()
        &&& self.entries().len() <= self.capacity()
    }

    pub fn new() -> (r: Self)
        ensures
            r.wf(),
            r.entries() == no_entries(),
    {
        let r = ProcessCache { cache: lru_new(PROCESS_CACHE_CAPACITY) };
        proof {
            assert(r.entries().dom() =~= Set::<i32>::empty());
        }
        r
    }

    /// Remembers the binary path of a process whose snapshot succeeded, when
    /// it is absolute.
    pub fn remember(&mut self, pid: i32, exe: &String)
        requires
            old(self).wf(),
        ensures
            final(self).wf(),
            !is_absolute(exe@) ==> final(self).entries() == old(self).entries(),
            is_absolute(exe@) ==> final(self).entries().contains_key(pid)
                && final(self).entries()[pid] == exe@,
    {
        if starts_with_slash(exe) {
            lru_put(&mut self.cache, pid, exe.clone());
        }
    }

    /// The path cached for `pid`, if any; the entries stay as they are.
    pub fn cached_path(&mut self, pid: i32) -> (r: Option<String>)
        requires
            old(self).wf(),
        ensures
            final(self).wf(),
            final(self).entries() == old(self).entries(),
            match r {
                Some(p) => old(self).entries().contains_key(pid) && old(self).entries()[pid] == p@,
                None => !old(self).entries().contains_key(pid),
            },
    {
        lru_get(&mut self.cache, pid)
    }

    /// Takes the path read afresh for a process missing from the cache: a
    /// bare name is first resolved through the executable-path cache (the
    /// command name of a gone process is not known); the result is cached
    /// when it is absolute.
    pub fn adopt_fetched(&mut self, pid: i32, fetched: String, bin_cache: &BinPathCache) -> (r: String)
        requires
            old(self).wf(),
        ensures
            final(self).wf(),
            r@ == finalize_exe_spec(*bin_cache, pid as int, fetched@, unknown_name()),
            is_absolute(r@) ==> final(self).entries().contains_key(pid) && final(self).entries()[pid] == r@,
            !is_absolute(r@) ==> final(self).entries() == old(self).entries(),
    {
        proof {
            reveal_strlit("unknown");
        }
        let unknown = String::from_str("unknown");
        proof {
            assert(unknown@ =~= unknown_name());
        }
        let r = finalize_exe(bin_cache, pid, fetched, &unknown);
        if starts_with_slash(&r) {
            lru_put(&mut self.cache, pid, r.clone());
        }
        r
    }
}

/// What the snapshot of an event's process came to.
pub enum SnapshotKind {
    Taken,
    Gone,
    Failed,
}

pub open spec fn snapshot_kind(s: Result<ProcessInfo, SedockerError>) -> SnapshotKind {
    match s {
        Ok(_) => SnapshotKind::Taken,
        Err(SedockerError::ProcessGone(_)) => SnapshotKind::Gone,
        Err(_) => SnapshotKind::Failed,
    }
}

/// One event's fate: whether it is emitted, and the deduplicator's key
/// afterwards. An event whose snapshot failed is dropped and leaves the key
/// alone; otherwise, with deduplication on, it is emitted unless it repeats
/// the key, which it then becomes; with deduplication off it is emitted.
pub open spec fn decide_step(enabled: bool, last: Option<EventKey>, kind: SnapshotKind, key: EventKey) -> (bool, Option<EventKey>) {
    if kind is Failed {
        (false, last)
    } else if enabled {
        (!repeats(last, key), Some(key))
    } else {
        (true, last)
    }
}

/// The decision on one drained event.
pub struct Decision {
    /// Whether a record is to be emitted for the event.
    pub emit: bool,
    /// The descriptor that the kernel opened for the event, to be closed once
    /// the event is handled, whatever the decision.
    pub close_fd: i32,
}

/// The per-event state of the observer: the deduplicator, when enabled, and
/// the cache of binary paths per pid.
pub struct Monitor {
    dedup: Option<EventDeduplicator>,
    cache: ProcessCache,
}

impl Monitor {
    /// The binary paths cached per pid.
    pub closed spec fn cached(&self) -> Map<i32, Seq<char>> {
        self.cache.entries()
    }

    /// The state's invariant: the path cache stays within its capacity.
    pub closed spec fn wf(&self) -> bool {
        self.cache.wf()
    }

    /// The path cached for `pid`, for an event whose process is gone.
    pub fn cached_path(&mut self, pid: i32) -> (r: Option<String>)
        requires
            old(self).wf(),
        ensures
            final(self).wf(),
            final(self).cached() == old(self).cached(),
            final(self).dedup_enabled() == old(self).dedup_enabled(),
            final(self).last_key() == old(self).last_key(),
            match r {
                Some(p) => old(self).cached().contains_key(pid) && old(self).cached()[pid] == p@,
                None => !old(self).cached().contains_key(pid),
            },
    {
        self.cache.cached_path(pid)
    }

    /// Takes the path read afresh for a gone process that the cache misses,
    /// resolving a bare name through the executable-path cache.
    pub fn adopt_fetched(&mut self, pid: i32, fetched: String, bin_cache: &BinPathCache) -> (r: String)
        requires
            old(self).wf(),
        ensures
            final(self).wf(),
            final(self).dedup_enabled() == old(self).dedup_enabled(),
            final(self).last_key() == old(self).last_key(),
            r@ == finalize_exe_spec(*bin_cache, pid as int, fetched@, unknown_name()),
            is_absolute(r@) ==> final(self).cached().contains_key(pid) && final(self).cached()[pid] == r@,
            !is_absolute(r@) ==> final(self).cached() == old(self).cached(),
    {
        self.cache.adopt_fetched(pid, fetched, bin_cache)
    }

    pub closed spec fn dedup_enabled(&self) -> bool {
        self.dedup is Some
    }

    /// The deduplicator's key; none while deduplication is off.
    pub closed spec fn last_key(&self) -> Option<EventKey> {
        match self.dedup {
            Some(d) => d.last_seen(),
            None => None,
        }
    }

    pub fn new(dedup_enabled: bool) -> (r: Self)
        ensures
            r.dedup_enabled() == dedup_enabled,
            r.wf(),
            r.last_key() is None,
            r.cached() == no_entries(),
    {
        Monitor {
            dedup: if dedup_enabled { Some(EventDeduplicator::new()) } else { None },
            cache: ProcessCache::new(),
        }
    }

    /// Decides on one drained event, given the path its descriptor names and
    /// the snapshot of its process. A successful snapshot's binary path is
    /// cached for the pid unless it is a placeholder.
    pub fn decide(&mut self, ev: &RawEvent, file_path: &str, snapshot: &Result<ProcessInfo, SedockerError>) -> (r: Decision)
        requires
            old(self).wf(),
        ensures
            final(self).wf(),
            r.close_fd == ev.fd,
            r.emit == decide_step(old(self).dedup_enabled(), old(self).last_key(), snapshot_kind(*snapshot), (ev.pid, ev.mask, file_path@)).0,
            final(self).last_key() == decide_step(old(self).dedup_enabled(), old(self).last_key(), snapshot_kind(*snapshot), (ev.pid, ev.mask, file_path@)).1,
            final(self).dedup_enabled() == old(self).dedup_enabled(),
            match snapshot {
                Ok(info) => (is_absolute(info.exe@) ==> final(self).cached().contains_key(ev.pid)
                    && final(self).cached()[ev.pid] == info.exe@)
                    && (!is_absolute(info.exe@) ==> final(self).cached() == old(self).cached()),
                Err(_) => final(self).cached() == old(self).cached(),
            },
    {
        match snapshot {
            Ok(info) => {
                self.cache.remember(ev.pid, &info.exe);
            },
            Err(SedockerError::ProcessGone(_)) => {},
            Err(_) => {
                return Decision { emit: false, close_fd: ev.fd };
            },
        }
        let emit = match &mut self.dedup {
            Some(d) => !d.is_duplicate(ev.pid, ev.mask, file_path),
            None => true,
        };
        Decision { emit, close_fd: ev.fd }
    }
}

/// The emit flags of a run of events, and the key after it.
pub open spec fn decide_run(enabled: bool, last: Option<EventKey>, evs: Seq<(SnapshotKind, EventKey)>) -> (Seq<bool>, Option<EventKey>)
    decreases evs.len(),
{
    if evs.len() == 0 {
        (Seq::empty(), last)
    } else {
        let before = decide_run(enabled, last, evs.drop_last());
        let s = decide_step(enabled, before.1, evs.last().0, evs.last().1);
        (before.0.push(s.0), s.1)
    }
}

/// The key of the nearest event before index `i` whose snapshot did not
/// fail, or the initial key if there is none.
pub open spec fn previous_key(last: Option<EventKey>, evs: Seq<(SnapshotKind, EventKey)>, i: int) -> Option<EventKey>
    decreases i,
{
    if i <= 0 {
        last
    } else if !(evs[i - 1].0 is Failed) {
        Some(evs[i - 1].1)
    } else {
        previous_key(last, evs, i - 1)
    }
}

/// Events keep their order, and one is left out only when its snapshot
/// failed or, with deduplication on, when it repeats the key of the nearest
/// earlier event that was not left out for a failed snapshot. With
/// deduplication off, every event with a snapshot (taken or gone) is emitted.
pub proof fn lemma_emitted_in_order(enabled: bool, last: Option<EventKey>, evs: Seq<(SnapshotKind, EventKey)>)
    ensures
        decide_run(enabled, last, evs).0.len() == evs.len(),
        forall|i: int| 0 <= i < evs.len() ==> #[trigger] decide_run(enabled, last, evs).0[i] == (!(evs[i].0 is Failed)
            && !(enabled && previous_key(last, evs, i) == Some(evs[i].1))),
        enabled ==> decide_run(enabled, last, evs).1 == previous_key(last, evs, evs.len() as int),
        !enabled ==> decide_run(enabled, last, evs).1 == last,
    decreases evs.len(),
{
    if evs.len() > 0 {
        let init = evs.drop_last();
        lemma_emitted_in_order(enabled, last, init);
        assert forall|i: int| 0 <= i <= init.len() implies previous_key(last, init, i) == previous_key(last, evs, i) by {
            lemma_previous_key_prefix(last, evs, i);
        }
        let n = evs.len() - 1;
        assert forall|i: int| 0 <= i < evs.len() implies #[trigger] decide_run(enabled, last, evs).0[i] == (!(evs[i].0 is Failed)
            && !(enabled && previous_key(last, evs, i) == Some(evs[i].1))) by {
            if i < n {
                assert(init[i] == evs[i]);
                assert(decide_run(enabled, last, evs).0[i] == decide_run(enabled, last, init).0[i]);
            }
        }
    }
}

proof fn lemma_previous_key_prefix(last: Option<EventKey>, evs: Seq<(SnapshotKind, EventKey)>, i: int)
    requires
        evs.len() > 0,
        0 <= i < evs.len(),
    ensures
        previous_key(last, evs.drop_last(), i) == previous_key(last, evs, i),
    decreases i,
{
    if i > 0 {
        lemma_previous_key_prefix(last, evs, i - 1);
    }
}

} // verus!
