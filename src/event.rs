use vstd::prelude::*;
use crate::types::{event_type_label, EventType, FileAccessEvent, ProcessInfo};
use crate::text::{chars_of, string_of};
use crate::num::{decimal_int, decimal_of_i64};

verus! {

/// Mask bit: a file was opened.
pub const FAN_OPEN: u64 = 0x20;
/// Mask bit: a file was read.
pub const FAN_ACCESS: u64 = 0x1;
/// Mask bit: a file was written.
pub const FAN_MODIFY: u64 = 0x2;

/// The category of a raw event mask: a write wins over an open, and anything
/// else counts as a read.
pub open spec fn classify_spec(mask: u64) -> EventType {
    if mask & FAN_MODIFY != 0 {
        EventType::Write
    } else if mask & FAN_OPEN != 0 {
        EventType::Open
    } else {
        EventType::Read
    }
}

/// Maps a raw event mask to exactly one category, first matching rule first.
pub fn classify(mask: u64) -> (r: EventType)
    ensures
        r == classify_spec(mask),
        r != EventType::Modify,
{
    if mask & FAN_MODIFY != 0 {
        EventType::Write
    } else if mask & FAN_OPEN != 0 {
        EventType::Open
    } else {
        EventType::Read
    }
}


/// The (pid, mask, path) triple that the deduplicator compares.
pub type EventKey = (i32, u64, Seq<char>);

/// Whether an event with key `k` repeats the last one seen.
pub open spec fn repeats(last: Option<EventKey>, k: EventKey) -> bool {
    last == Some(k)
}

/// Suppresses an event that repeats the (pid, mask, path) of the event seen
/// just before it.
pub struct EventDeduplicator {
    last: Option<(i32, u64, String)>,
}

impl EventDeduplicator {
    /// The key of the last event seen; none before the first event, so that
    /// no real event can match it.
    pub closed spec fn last_seen(&self) -> Option<EventKey> {
        match self.last {
            Some(t) => Some((t.0, t.1, t.2@)),
            None => None,
        }
    }

    pub fn new() -> (r: Self)
        ensures
            r.last_seen() is None,
    {
        EventDeduplicator { last: None }
    }

    /// Tells whether the event repeats the last one seen, and records it as
    /// the last one seen in either case.
    pub fn is_duplicate(&mut self, pid: i32, mask: u64, path: &str) -> (r: bool)
        ensures
            r == repeats(old(self).last_seen(), (pid, mask, path@)),
            final(self).last_seen() == Some((pid, mask, path@)),
    {
        let p = String::from_str(path);
        let dup = match &self.last {
            Some(t) => t.0 == pid && t.1 == mask && t.2 == p,
            None => false,
        };
        self.last = Some((pid, mask, p));
        dup
    }
}

/// Two calls in a row with the same key: the second is always a duplicate,
/// and the first is one exactly when the key repeats the state before them.
pub proof fn lemma_dedup_twice(before: Option<EventKey>, k: EventKey)
    ensures
        repeats(Some(k), k),
        !repeats(before, k) <==> before != Some(k),
{
}

/// Relies on `chrono::Local::now` and `DelayedFormat::to_string`: the local
/// wall-clock time, to the second, as `YYYY-MM-DD HH:MM:SS`. It depends on
/// the clock, so nothing is promised of it.
#[verifier::external_body]
fn local_timestamp() -> (r: String) {
    chrono::Local::now().format("%Y-%m-%d %H:%M:%S").to_string()
}

/// Whether a record holds exactly the given fields, the time stamp aside.
pub open spec fn event_fields(
    e: FileAccessEvent,
    event_type: EventType,
    pid: i32,
    container_pid: Option<i32>,
    uid: u32,
    gid: u32,
    process_path: Seq<char>,
    file_path: Seq<char>,
    container_id: Option<Seq<char>>,
) -> bool {
    &&& e.event_type@ == event_type_label(event_type)
    &&& e.pid == pid
    &&& e.container_pid == container_pid
    &&& e.uid == uid
    &&& e.gid == gid
    &&& e.process_path@ == process_path
    &&& e.file_path@ == file_path
    &&& crate::process::opt_view(e.container_id) == container_id
}

/// Builds a record with the given time stamp.
pub fn assemble_event(
    event_type: EventType,
    timestamp: String,
    pid: i32,
    container_pid: Option<i32>,
    uid: u32,
    gid: u32,
    process_path: String,
    file_path: String,
    container_id: Option<String>,
) -> (r: FileAccessEvent)
    ensures
        event_fields(r, event_type, pid, container_pid, uid, gid, process_path@, file_path@,
            crate::process::opt_view(container_id)),
        r.timestamp == timestamp,
{
    FileAccessEvent {
        event_type: event_type.label(),
        timestamp,
        pid,
        container_pid,
        uid,
        gid,
        process_path,
        file_path,
        container_id,
    }
}

/// Builds a record stamped with the current local time.
pub fn create_event(
    event_type: EventType,
    pid: i32,
    container_pid: Option<i32>,
    uid: u32,
    gid: u32,
    process_path: String,
    file_path: String,
    container_id: Option<String>,
) -> (r: FileAccessEvent)
    ensures
        event_fields(r, event_type, pid, container_pid, uid, gid, process_path@, file_path@,
            crate::process::opt_view(container_id)),
{
    let ts = local_timestamp();
    assemble_event(event_type, ts, pid, container_pid, uid, gid, process_path, file_path, container_id)
}

/// The identity fields of a record: those of the snapshot when there is one;
/// for a process that is gone, uid and gid 0, no namespace pid, and the
/// fallback path.
pub open spec fn identity_of(info: Option<ProcessInfo>, fallback_exe: Seq<char>) -> (Option<i32>, u32, u32, Seq<char>) {
    match info {
        Some(i) => (i.container_pid, i.uid, i.gid, i.exe@),
        None => (None, 0, 0, fallback_exe),
    }
}

/// Composes the record of one event from its mask, the snapshot of its
/// process (none if the process was gone), and the fallback binary path.
pub fn compose_event(
    mask: u64,
    pid: i32,
    file_path: String,
    proc_info: Option<ProcessInfo>,
    fallback_exe: String,
    container_id: Option<String>,
    timestamp: String,
) -> (r: FileAccessEvent)
    ensures
        ({
            let id = identity_of(proc_info, fallback_exe@);
            event_fields(r, classify_spec(mask), pid, id.0, id.1, id.2, id.3, file_path@,
                crate::process::opt_view(container_id))
        }),
        r.timestamp == timestamp,
{
    let event_type = classify(mask);
    match proc_info {
        Some(info) => assemble_event(event_type, timestamp, pid, info.container_pid, info.uid, info.gid, info.exe, file_path, container_id),
        None => assemble_event(event_type, timestamp, pid, None, 0, 0, fallback_exe, file_path, container_id),
    }
}

/// Composes the record of one event, stamped with the current local time.
pub fn stamp_event(
    mask: u64,
    pid: i32,
    file_path: String,
    proc_info: Option<ProcessInfo>,
    fallback_exe: String,
    container_id: Option<String>,
) -> (r: FileAccessEvent)
    ensures
        ({
            let id = identity_of(proc_info, fallback_exe@);
            event_fields(r, classify_spec(mask), pid, id.0, id.1, id.2, id.3, file_path@,
                crate::process::opt_view(container_id))
        }),
{
    let ts = local_timestamp();
    compose_event(mask, pid, file_path, proc_info, fallback_exe, container_id, ts)
}

/// `s` cut from the left to at most `max_len` characters, with `...` in
/// front of what is kept when it had to be cut.
pub open spec fn truncate_spec(s: Seq<char>, max_len: nat) -> Seq<char> {
    if s.len() <= max_len {
        s
    } else {
        seq!['.', '.', '.'] + s.skip(s.len() - (max_len - 3))
    }
}

/// Shortens a path for a fixed-width column, keeping its end.
pub fn truncate_string(s: &str, max_len: usize) -> (r: String)
    requires
        max_len >= 3,
    ensures
        r@ == truncate_spec(s@, max_len as nat),
        r@.len() <= max_len,
{
    let cs = chars_of(s);
    if cs.len() <= max_len {
        return string_of(&cs);
    }
    let start = cs.len() - (max_len - 3);
    let mut out: Vec<char> = Vec::new();
    out.push('.');
    out.push('.');
    out.push('.');
    let mut i: usize = start;
    proof {
        assert(out@ =~= seq!['.', '.', '.'] + cs@.subrange(start as int, i as int));
    }
    while i < cs.len()
        invariant
            start <= i <= cs.len(),
            out@ == seq!['.', '.', '.'] + cs@.subrange(start as int, i as int),
        decreases cs.len() - i,
    {
        out.push(cs[i]);
        i = i + 1;
        proof {
            assert(out@ =~= seq!['.', '.', '.'] + cs@.subrange(start as int, i as int));
        }
    }
    proof {
        assert(cs@.subrange(start as int, i as int) =~= cs@.skip(start as int));
    }
    string_of(&out)
}


/// `n` space characters.
pub open spec fn spaces(n: nat) -> Seq<char>
    decreases n,
{
    if n == 0 {
        Seq::empty()
    } else {
        spaces((n - 1) as nat).push(' ')
    }
}

/// `s` padded on the right with spaces to `width` characters, as `{:<width}`
/// does; a longer `s` stays as it is.
pub open spec fn pad_right(s: Seq<char>, width: nat) -> Seq<char> {
    if s.len() < width {
        s + spaces((width - s.len()) as nat)
    } else {
        s
    }
}

/// The pid column: `PID`, or `PID/NSpid` when there is a namespace pid.
pub open spec fn pid_column(pid: i32, container_pid: Option<i32>) -> Seq<char> {
    match container_pid {
        Some(c) => decimal_int(pid as int) + seq!['/'] + decimal_int(c as int),
        None => decimal_int(pid as int),
    }
}

/// One row of the text table.
pub open spec fn text_row_spec(e: FileAccessEvent) -> Seq<char> {
    seq!['['] + pad_right(e.event_type@, 5) + seq![']', ' ']
        + pad_right(pid_column(e.pid, e.container_pid), 13) + seq![' ']
        + pad_right(decimal_int(e.uid as int), 5) + seq![' ']
        + pad_right(decimal_int(e.gid as int), 5) + seq![' ']
        + pad_right(truncate_spec(e.process_path@, 25), 25) + seq![' ']
        + pad_right(
            match e.container_id {
                Some(c) => c@,
                None => seq!['-'],
            },
            15,
        ) + seq![' ']
        + e.file_path@
}

fn append(v: &mut Vec<char>, w: &Vec<char>)
    ensures
        final(v)@ == old(v)@ + w@,
{
    let ghost base = v@;
    let mut i: usize = 0;
    while i < w.len()
        invariant
            i <= w.len(),
            v@ == base + w@.take(i as int),
        decreases w.len() - i,
    {
        v.push(w[i]);
        i = i + 1;
        proof {
            assert(v@ =~= base + w@.take(i as int));
        }
    }
    proof {
        assert(w@.take(i as int) =~= w@);
    }
}

fn append_padded(v: &mut Vec<char>, w: &Vec<char>, width: usize)
    ensures
        final(v)@ == old(v)@ + pad_right(w@, width as nat),
{
    let ghost base = v@;
    append(v, w);
    if w.len() < width {
        let n = width - w.len();
        let mut i: usize = 0;
        proof {
            assert(v@ =~= base + w@ + spaces(0));
        }
        while i < n
            invariant
                i <= n,
                v@ == base + w@ + spaces(i as nat),
            decreases n - i,
        {
            v.push(' ');
            i = i + 1;
            proof {
                assert(v@ =~= base + w@ + spaces(i as nat));
            }
        }
        proof {
            assert(base + w@ + spaces(n as nat) =~= base + (w@ + spaces(n as nat)));
        }
    } else {
        proof {
            assert(v@ =~= base + w@);
        }
    }
}

/// Writes the record as one row of the text table: the category in
/// brackets, the pid (with the namespace pid after a `/`), uid, gid, the
/// binary path cut to 25 characters, the container id or `-`, and the file.
pub fn text_row(e: &FileAccessEvent) -> (r: String)
    ensures
        r@ == text_row_spec(*e),
{
    let mut v: Vec<char> = Vec::new();
    v.push('[');
    append_padded(&mut v, &chars_of(e.event_type.as_str()), 5);
    v.push(']');
    v.push(' ');
    let mut pid_col = decimal_of_i64(e.pid as i64);
    match e.container_pid {
        Some(c) => {
            pid_col.push('/');
            append(&mut pid_col, &decimal_of_i64(c as i64));
        },
        None => {},
    }
    append_padded(&mut v, &pid_col, 13);
    v.push(' ');
    append_padded(&mut v, &decimal_of_i64(e.uid as i64), 5);
    v.push(' ');
    append_padded(&mut v, &decimal_of_i64(e.gid as i64), 5);
    v.push(' ');
    let path = truncate_string(e.process_path.as_str(), 25);
    append_padded(&mut v, &chars_of(path.as_str()), 25);
    v.push(' ');
    match &e.container_id {
        Some(c) => append_padded(&mut v, &chars_of(c.as_str()), 15),
        None => {
            let mut dash: Vec<char> = Vec::new();
            dash.push('-');
            proof {
                assert(dash@ =~= seq!['-']);
            }
            append_padded(&mut v, &dash, 15);
        },
    }
    v.push(' ');
    append(&mut v, &chars_of(e.file_path.as_str()));
    proof {
        assert(v@ =~= text_row_spec(*e));
    }
    string_of(&v)
}

/// The two header lines of the text table: the column names, then 130 dashes.
pub fn text_header() -> (r: (String, String))
    ensures
        r.0@ == "EVENT   PID(H/C)      UID   GID   PROCESS_PATH              CONTAINER       FILE_PATH"@,
        r.1@ == Seq::new(130, |i: int| '-'),
{
    let names = String::from_str("EVENT   PID(H/C)      UID   GID   PROCESS_PATH              CONTAINER       FILE_PATH");
    let mut dashes: Vec<char> = Vec::new();
    let mut i: usize = 0;
    while i < 130
        invariant
            i <= 130,
            dashes@ == Seq::new(i as nat, |k: int| '-'),
        decreases 130 - i,
    {
        dashes.push('-');
        i = i + 1;
        proof {
            assert(dashes@ =~= Seq::new(i as nat, |k: int| '-'));
        }
    }
    (names, string_of(&dashes))
}

} // verus!
