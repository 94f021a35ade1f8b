use vstd::prelude::*;
use vstd::hash_map::StringHashMap;
use crate::status::{parse_status, status_of, unknown_name};
use crate::types::{ProcessInfo, SedockerError};
use crate::num::{decimal_int, decimal_of_i64};
use crate::text::{
    before_first, chars_of, pieces, split_pieces, views, ends_with, has_suffix, prefix_before, string_of, trim, trim_chars,
};

verus! {

/// The marker that the kernel appends to the `exe` link of an unlinked binary.
pub open spec fn deleted_marker() -> Seq<char> {
    " (deleted)"@
}

/// `s` without the deleted marker, if it ends with it.
pub open spec fn strip_deleted(s: Seq<char>) -> Seq<char> {
    if ends_with(s, deleted_marker()) {
        s.take(s.len() - deleted_marker().len())
    } else {
        s
    }
}

/// Removes a `" (deleted)"` marker from the very end of an `exe` link target.
pub fn strip_deleted_suffix(link: &str) -> (r: String)
    ensures
        r@ == strip_deleted(link@),
{
    proof {
        reveal_strlit(" (deleted)");
    }
    let cs = chars_of(link);
    if has_suffix(&cs, " (deleted)") {
        let mut out: Vec<char> = Vec::new();
        let n = cs.len() - 10;
        let mut i: usize = 0;
        while i < n
            invariant
                n <= cs.len(),
                i <= n,
                out@ == cs@.take(i as int),
            decreases n - i,
        {
            out.push(cs[i]);
            i = i + 1;
            proof {
                assert(out@ =~= cs@.take(i as int));
            }
        }
        string_of(&out)
    } else {
        string_of(&cs)
    }
}

/// The deleted marker is removed exactly when it stands at the very end:
/// the path changes if and only if it ends with the marker, and a path with
/// the marker appended gives the path back.
pub proof fn lemma_strip_deleted_only_at_end(s: Seq<char>)
    ensures
        strip_deleted(s) != s <==> ends_with(s, deleted_marker()),
        strip_deleted(s + deleted_marker()) == s,
{
    reveal_strlit(" (deleted)");
    if ends_with(s, deleted_marker()) {
        assert(strip_deleted(s).len() < s.len());
    }
    let t = s + deleted_marker();
    assert(t.skip(t.len() - deleted_marker().len()) =~= deleted_marker());
    assert(t.take(t.len() - deleted_marker().len()) =~= s);
}

/// The placeholder path `[<pid>]` of a process whose binary is unknown.
pub open spec fn pid_sentinel_spec(pid: int) -> Seq<char> {
    seq!['['] + decimal_int(pid) + seq![']']
}

/// Whether a path is absolute, that is, begins with `/`.
pub open spec fn is_absolute(s: Seq<char>) -> bool {
    s.len() > 0 && s[0] == '/'
}

/// Writes the placeholder path `[<pid>]`.
pub fn pid_sentinel(pid: i32) -> (r: String)
    ensures
        r@ == pid_sentinel_spec(pid as int),
{
    let d = decimal_of_i64(pid as i64);
    let mut v: Vec<char> = Vec::new();
    v.push('[');
    let mut i: usize = 0;
    while i < d.len()
        invariant
            i <= d.len(),
            v@ == seq!['['] + d@.take(i as int),
        decreases d.len() - i,
    {
        v.push(d[i]);
        i = i + 1;
        proof {
            assert(v@ =~= seq!['['] + d@.take(i as int));
        }
    }
    v.push(']');
    proof {
        assert(d@.take(i as int) =~= d@);
        assert(v@ =~= pid_sentinel_spec(pid as int));
    }
    string_of(&v)
}

/// The first argument of a NUL-separated `/proc/<pid>/cmdline`.
pub fn first_cmdline_arg(content: &str) -> (r: String)
    ensures
        r@ == before_first(content@, '\0'),
{
    let cs = chars_of(content);
    let p = prefix_before(&cs, '\0');
    string_of(&p)
}

/// The directories tried, in order, for a command given by a bare name.
pub open spec fn probe_prefixes() -> Seq<Seq<char>> {
    seq!["/usr/bin/"@, "/bin/"@]
}

/// The candidate paths of a command given by a bare name.
pub fn cmdline_probes(cmd: &str) -> (r: Vec<String>)
    ensures
        r.len() == probe_prefixes().len(),
        forall|i: int| 0 <= i < r.len() ==> #[trigger] r[i]@ == probe_prefixes()[i] + cmd@,
{
    let mut a = String::from_str("/usr/bin/");
    a.append(cmd);
    let mut b = String::from_str("/bin/");
    b.append(cmd);
    let mut r: Vec<String> = Vec::new();
    r.push(a);
    r.push(b);
    proof {
        reveal_strlit("/usr/bin/");
        reveal_strlit("/bin/");
    }
    r
}

/// The path taken from a command line's first argument, given which of the
/// candidate paths exist: an absolute path as it is, else the first existing
/// candidate, else the bare name; nothing for an empty argument.
pub open spec fn cmdline_path_spec(cmd: Seq<char>, exists: Seq<bool>) -> Option<Seq<char>> {
    if cmd.len() == 0 {
        None
    } else if cmd[0] == '/' {
        Some(cmd)
    } else if exists.len() > 0 && exists[0] {
        Some(probe_prefixes()[0] + cmd)
    } else if exists.len() > 1 && exists[1] {
        Some(probe_prefixes()[1] + cmd)
    } else {
        Some(cmd)
    }
}

/// Picks the executable path that a command line's first argument gives;
/// `exists[i]` tells whether the `i`-th path of `cmdline_probes(cmd)` exists.
pub fn path_from_cmdline(cmd: &str, exists: &Vec<bool>) -> (r: Option<String>)
    ensures
        opt_view(r) == cmdline_path_spec(cmd@, exists@),
{
    let cs = chars_of(cmd);
    if cs.len() == 0 {
        return None;
    }
    if cs[0] == '/' {
        return Some(string_of(&cs));
    }
    let probes = cmdline_probes(cmd);
    if exists.len() > 0 && exists[0] {
        return Some(probes[0].clone());
    }
    if exists.len() > 1 && exists[1] {
        return Some(probes[1].clone());
    }
    Some(string_of(&cs))
}

/// The view of an optional string.
pub open spec fn opt_view(o: Option<String>) -> Option<Seq<char>> {
    match o {
        Some(s) => Some(s@),
        None => None,
    }
}

/// The best-known path of a process's binary: the `exe` link without the
/// deleted marker; else the path from the command line; else the trimmed
/// `comm` file if not empty; else `[<pid>]`.
pub open spec fn process_path_spec(
    pid: int,
    exe_link: Option<Seq<char>>,
    from_cmdline: Option<Seq<char>>,
    comm_file: Option<Seq<char>>,
) -> Seq<char> {
    match exe_link {
        Some(l) => strip_deleted(l),
        None => match from_cmdline {
            Some(p) => p,
            None => match comm_file {
                Some(c) => if trim(c).len() > 0 {
                    trim(c)
                } else {
                    pid_sentinel_spec(pid)
                },
                None => pid_sentinel_spec(pid),
            },
        },
    }
}

/// Decides the path of a process's binary from what could be read of it:
/// the `exe` link target, the result of [`path_from_cmdline`], and the
/// content of the `comm` file (each `None` where it could not be read).
pub fn get_process_path(
    pid: i32,
    exe_link: Option<String>,
    from_cmdline: Option<String>,
    comm_file: Option<String>,
) -> (r: String)
    ensures
        r@ == process_path_spec(
            pid as int,
            opt_view(exe_link),
            opt_view(from_cmdline),
            opt_view(comm_file),
        ),
{
    match exe_link {
        Some(l) => strip_deleted_suffix(l.as_str()),
        None => match from_cmdline {
            Some(p) => p,
            None => match comm_file {
                Some(c) => {
                    let cs = chars_of(c.as_str());
                    let t = trim_chars(&cs);
                    if t.len() > 0 {
                        string_of(&t)
                    } else {
                        pid_sentinel(pid)
                    }
                },
                None => pid_sentinel(pid),
            },
        },
    }
}


/// The directories always scanned for binaries, in order.
pub open spec fn seed_dirs() -> Seq<Seq<char>> {
    seq!["/usr/bin"@, "/bin"@, "/usr/sbin"@, "/sbin"@, "/usr/local/bin"@, "/usr/local/sbin"@]
}

/// `dirs` extended by each of `ps` not yet in it, in order.
pub open spec fn add_dirs(dirs: Seq<Seq<char>>, ps: Seq<Seq<char>>) -> Seq<Seq<char>>
    decreases ps.len(),
{
    if ps.len() == 0 {
        dirs
    } else {
        let d = add_dirs(dirs, ps.drop_last());
        if d.contains(ps.last()) {
            d
        } else {
            d.push(ps.last())
        }
    }
}

/// The directories to scan: the fixed ones, then each non-empty entry of the
/// search path that is not already listed.
pub open spec fn search_dirs_spec(path_env: Option<Seq<char>>) -> Seq<Seq<char>> {
    match path_env {
        Some(p) => add_dirs(seed_dirs(), pieces(p, ':')),
        None => seed_dirs(),
    }
}

pub open spec fn strings_view(v: Seq<String>) -> Seq<Seq<char>> {
    v.map_values(|s: String| s@)
}

fn push_str(v: &mut Vec<String>, s: &str)
    ensures
        strings_view(final(v)@) == strings_view(old(v)@).push(s@),
{
    let ghost before = v@;
    v.push(String::from_str(s));
    proof {
        assert(strings_view(v@) =~= strings_view(before).push(s@));
    }
}

/// Lists the directories to scan for binaries, given the binary search path
/// (`None` where it is not set).
pub fn search_dirs(path_env: Option<&str>) -> (r: Vec<String>)
    ensures
        strings_view(r@) == search_dirs_spec(match path_env {
            Some(p) => Some(p@),
            None => None,
        }),
{
    let mut dirs: Vec<String> = Vec::new();
    push_str(&mut dirs, "/usr/bin");
    push_str(&mut dirs, "/bin");
    push_str(&mut dirs, "/usr/sbin");
    push_str(&mut dirs, "/sbin");
    push_str(&mut dirs, "/usr/local/bin");
    push_str(&mut dirs, "/usr/local/sbin");
    proof {
        assert(strings_view(dirs@) =~= seed_dirs());
    }
    match path_env {
        None => dirs,
        Some(p) => {
            let cs = chars_of(p);
            let ps = split_pieces(&cs, ':');
            let mut k: usize = 0;
            proof {
                assert(views(ps@).take(0) =~= Seq::<Seq<char>>::empty());
            }
            while k < ps.len()
                invariant
                    k <= ps.len(),
                    views(ps@) == pieces(p@, ':'),
                    strings_view(dirs@) == add_dirs(seed_dirs(), views(ps@).take(k as int)),
                decreases ps.len() - k,
            {
                let d = string_of(&ps[k]);
                let mut found = false;
                let mut j: usize = 0;
                while j < dirs.len()
                    invariant
                        j <= dirs.len(),
                        found == (exists|m: int| 0 <= m < j && dirs@[m]@ == d@),
                    decreases dirs.len() - j,
                {
                    if dirs[j] == d {
                        found = true;
                    }
                    j = j + 1;
                }
                let ghost before = strings_view(dirs@);
                let ghost t = views(ps@).take(k + 1);
                proof {
                    assert(t.drop_last() =~= views(ps@).take(k as int));
                    assert(t.last() == d@);
                    if found {
                        let m = choose|m: int| 0 <= m < j && dirs@[m]@ == d@;
                        assert(before[m] == d@);
                    } else {
                        assert forall|m: int| 0 <= m < before.len() implies before[m] != d@ by {
                            assert(before[m] == dirs@[m]@);
                        }
                    }
                }
                if !found {
                    dirs.push(d);
                    proof {
                        assert(strings_view(dirs@) =~= before.push(t.last()));
                    }
                }
                k = k + 1;
            }
            proof {
                assert(views(ps@).take(k as int) =~= views(ps@));
            }
            dirs
        },
    }
}

/// The view of a list of (name, path) pairs.
pub open spec fn pairs_view(v: Seq<(String, String)>) -> Seq<(Seq<char>, Seq<char>)> {
    v.map_values(|e: (String, String)| (e.0@, e.1@))
}

/// The path of the first entry named `name`, if any.
pub open spec fn first_path(entries: Seq<(Seq<char>, Seq<char>)>, name: Seq<char>) -> Option<Seq<char>>
    decreases entries.len(),
{
    if entries.len() == 0 {
        None
    } else {
        match first_path(entries.drop_last(), name) {
            Some(p) => Some(p),
            None => if entries.last().0 == name {
                Some(entries.last().1)
            } else {
                None
            },
        }
    }
}

/// Maps the names of binaries to their absolute paths, as found by a scan of
/// the search directories made once at startup. It has no method that changes
/// it, so a name resolves to the same path for as long as it lives.
pub struct BinPathCache {
    map: StringHashMap<String>,
}

impl BinPathCache {
    /// The path that a name resolves to.
    pub closed spec fn lookup(&self, name: Seq<char>) -> Option<Seq<char>> {
        if self.map@.contains_key(name) {
            Some(self.map@[name]@)
        } else {
            None
        }
    }

    /// Builds the cache from the entries of the scanned directories, in scan
    /// order, each a (file name, absolute path) pair; the first entry of a
    /// name wins.
    pub fn new(entries: Vec<(String, String)>) -> (r: BinPathCache)
        ensures
            forall|name: Seq<char>| #[trigger] r.lookup(name) == first_path(pairs_view(entries@), name),
    {
        let mut map: StringHashMap<String> = StringHashMap::new();
        let mut i: usize = 0;
        while i < entries.len()
            invariant
                i <= entries.len(),
                forall|name: Seq<char>| #[trigger] map@.contains_key(name) == first_path(pairs_view(entries@.take(i as int)), name) is Some,
                forall|name: Seq<char>| map@.contains_key(name) ==> Some(#[trigger] map@[name]@) == first_path(pairs_view(entries@.take(i as int)), name),
            decreases entries.len() - i,
        {
            let ghost before = map@;
            let ghost pv = pairs_view(entries@.take(i + 1));
            proof {
                assert(pv.drop_last() =~= pairs_view(entries@.take(i as int)));
                assert(pv.last() == (entries@[i as int].0@, entries@[i as int].1@));
            }
            if !map.contains_key(entries[i].0.as_str()) {
                map.insert(entries[i].0.clone(), entries[i].1.clone());
            }
            proof {
                assert forall|name: Seq<char>| #[trigger] map@.contains_key(name) == first_path(pv, name) is Some by {
                    assert(first_path(pv, name) == match first_path(pv.drop_last(), name) {
                        Some(p) => Some(p),
                        None => if pv.last().0 == name { Some(pv.last().1) } else { None },
                    });
                }
                assert forall|name: Seq<char>| map@.contains_key(name) implies Some(#[trigger] map@[name]@) == first_path(pv, name) by {
                    assert(first_path(pv, name) == match first_path(pv.drop_last(), name) {
                        Some(p) => Some(p),
                        None => if pv.last().0 == name { Some(pv.last().1) } else { None },
                    });
                }
            }
            i = i + 1;
        }
        proof {
            assert(entries@.take(i as int) =~= entries@);
        }
        let r = BinPathCache { map };
        proof {
            assert forall|name: Seq<char>| #[trigger] r.lookup(name) == first_path(pairs_view(entries@), name) by {
                if map@.contains_key(name) {
                } else {
                }
            }
        }
        r
    }

    /// The absolute path of the binary named `name`, if the scan found one.
    pub fn resolve(&self, name: &str) -> (r: Option<&str>)
        ensures
            match r {
                Some(p) => self.lookup(name@) == Some(p@),
                None => self.lookup(name@) is None,
            },
    {
        match self.map.get(name) {
            Some(p) => Some(p.as_str()),
            None => None,
        }
    }
}

/// The binary path after the cache lookup: the `[<pid>]` placeholder of
/// this pid is replaced by the path of the command name when that name is
/// known and resolves; any other name without `/` by its own resolved path;
/// else it stays.
pub open spec fn finalize_exe_spec(cache: BinPathCache, pid: int, exe: Seq<char>, comm: Seq<char>) -> Seq<char> {
    if exe == pid_sentinel_spec(pid) {
        if comm != unknown_name() {
            match cache.lookup(comm) {
                Some(p) => p,
                None => exe,
            }
        } else {
            exe
        }
    } else if !exe.contains('/') {
        match cache.lookup(exe) {
            Some(p) => p,
            None => exe,
        }
    } else {
        exe
    }
}

/// Resolves a binary path through the cache: the placeholder `[<pid>]` by
/// the command name `comm`, a bare name by itself.
pub fn finalize_exe(cache: &BinPathCache, pid: i32, exe: String, comm: &String) -> (r: String)
    ensures
        r@ == finalize_exe_spec(*cache, pid as int, exe@, comm@),
{
    let cs = chars_of(exe.as_str());
    proof {
        reveal_strlit("unknown");
    }
    let placeholder = pid_sentinel(pid);
    if exe == placeholder {
        let unknown = String::from_str("unknown");
        proof {
            assert(unknown@ =~= unknown_name());
        }
        if *comm != unknown {
            match cache.resolve(comm.as_str()) {
                Some(p) => String::from_str(p),
                None => exe,
            }
        } else {
            exe
        }
    } else {
        let mut has_slash = false;
        let mut i: usize = 0;
        while i < cs.len()
            invariant
                cs@ == exe@,
                i <= cs.len(),
                has_slash == (exists|k: int| 0 <= k < i && cs@[k] == '/'),
            decreases cs.len() - i,
        {
            if cs[i] == '/' {
                has_slash = true;
            }
            i = i + 1;
        }
        if !has_slash {
            match cache.resolve(exe.as_str()) {
                Some(p) => String::from_str(p),
                None => exe,
            }
        } else {
            exe
        }
    }
}

/// The snapshot of a process that its status text and binary path give.
pub open spec fn snapshot_matches(r: ProcessInfo, pid: i32, status: Seq<char>, exe: Seq<char>, cache: BinPathCache) -> bool {
    let st = status_of(status);
    &&& r.pid == pid
    &&& r.uid == st.uid
    &&& r.gid == st.gid
    &&& r.container_pid == st.container_pid
    &&& r.comm@ == st.comm
    &&& r.exe@ == finalize_exe_spec(cache, pid as int, exe, st.comm)
}

/// Assembles a process snapshot from the text of `/proc/<pid>/status`, read
/// once, and the path given by [`get_process_path`].
pub fn get_process_info(pid: i32, status_content: &str, exe: String, bin_cache: &BinPathCache) -> (r: ProcessInfo)
    ensures
        snapshot_matches(r, pid, status_content@, exe@, *bin_cache),
{
    let st = parse_status(status_content);
    let exe = finalize_exe(bin_cache, pid, exe, &st.comm);
    ProcessInfo {
        pid,
        uid: st.uid,
        gid: st.gid,
        container_pid: st.container_pid,
        comm: st.comm,
        exe,
    }
}

/// The startup checks of the observer: the directory must exist, then the
/// effective user must be root.
pub fn startup_check(directory: &str, dir_exists: bool, euid: u32) -> (r: Result<(), SedockerError>)
    ensures
        dir_exists && euid == 0 <==> r is Ok,
        !dir_exists ==> match r {
            Err(SedockerError::System(m)) => m@ == "Directory does not exist: "@ + directory@,
            _ => false,
        },
        dir_exists && euid != 0 ==> match r {
            Err(SedockerError::Permission(m)) => m@ == "This tool requires root privileges"@,
            _ => false,
        },
{
    if !dir_exists {
        let mut m = String::from_str("Directory does not exist: ");
        m.append(directory);
        return Err(SedockerError::System(m));
    }
    if euid != 0 {
        return Err(SedockerError::Permission(String::from_str("This tool requires root privileges")));
    }
    Ok(())
}

/// The real uid and gid that the text of `/proc/<pid>/status` gives.
pub fn get_ids_from_pid(status_content: &str) -> (r: (u32, u32))
    ensures
        r == (status_of(status_content@).uid, status_of(status_content@).gid),
{
    let st = parse_status(status_content);
    (st.uid, st.gid)
}

/// The namespace pid that the text of `/proc/<pid>/status` gives, present
/// when its `NSpid:` line lists two or more pids.
pub fn get_container_pid(status_content: &str) -> (r: Option<i32>)
    ensures
        r == status_of(status_content@).container_pid,
{
    parse_status(status_content).container_pid
}

/// The command name from the content of `/proc/<pid>/comm`, trimmed;
/// `unknown` where the file could not be read.
pub fn get_process_comm(comm_file: Option<&str>) -> (r: String)
    ensures
        match comm_file {
            Some(c) => r@ == trim(c@),
            None => r@ == unknown_name(),
        },
{
    match comm_file {
        Some(c) => string_of(&trim_chars(&chars_of(c))),
        None => {
            proof {
                reveal_strlit("unknown");
            }
            let r = String::from_str("unknown");
            proof {
                assert(r@ =~= unknown_name());
            }
            r
        },
    }
}

/// The OS error code for "no such process".
pub const ESRCH: i32 = 3;

/// Classifies a failed read of `/proc/<pid>/status`: a missing file or the
/// code for "no such process" means the process is gone; anything else is a
/// system error with the given message.
pub fn status_read_error(pid: i32, not_found: bool, os_code: Option<i32>, message: String) -> (r: SedockerError)
    ensures
        (not_found || os_code == Some(ESRCH)) ==> r == SedockerError::ProcessGone(pid),
        !(not_found || os_code == Some(ESRCH)) ==> r == SedockerError::System(message),
{
    if not_found || os_code == Some(ESRCH) {
        SedockerError::ProcessGone(pid)
    } else {
        SedockerError::System(message)
    }
}

} // verus!
