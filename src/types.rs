use vstd::prelude::*;

verus! {

/// Identity of a process, as read from `/proc/<pid>`.
#[derive(Debug, Clone)]
pub struct ProcessInfo {
    pub pid: i32,
    pub uid: u32,
    pub gid: u32,
    pub container_pid: Option<i32>,
    pub comm: String,
    pub exe: String,
}

/// The category of one observed file access.
#[derive(Debug, Clone, Copy, PartialEq, Eq, Structural)]
pub enum EventType {
    Open,
    Read,
    Write,
    Modify,
}

/// The label of an event category.
pub open spec fn event_type_label(t: EventType) -> Seq<char> {
    match t {
        EventType::Open => "OPEN"@,
        EventType::Read => "READ"@,
        EventType::Write => "WRITE"@,
        EventType::Modify => "MODIFY"@,
    }
}

impl EventType {
    /// The upper-case label of the category, as it appears in records.
    pub fn label(&self) -> (r: String)
        ensures
            r@ == event_type_label(*self),
    {
        match self {
            EventType::Open => String::from_str("OPEN"),
            EventType::Read => String::from_str("READ"),
            EventType::Write => String::from_str("WRITE"),
            EventType::Modify => String::from_str("MODIFY"),
        }
    }
}

/// One emitted record of a file access.
#[derive(Debug, Clone)]
pub struct FileAccessEvent {
    pub event_type: String,
    pub timestamp: String,
    pub pid: i32,
    pub container_pid: Option<i32>,
    pub uid: u32,
    pub gid: u32,
    pub process_path: String,
    pub file_path: String,
    pub container_id: Option<String>,
}

/// The errors of the library.
#[derive(Debug, Clone)]
pub enum SedockerError {
    Io(String),
    Permission(String),
    Fanotify(String),
    Docker(String),
    Parse(String),
    System(String),
    ProcessGone(i32),
}

} // verus!
