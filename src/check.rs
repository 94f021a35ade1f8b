use vstd::prelude::*;
use crate::num::{decimal, decimal_of_u64};
use crate::text::{
    after_first, before_first, chars_of, contains_char, contains_seq, has_infix, has_prefix,
    lines, prefix_before, split_lines, starts_with, string_of, suffix_after, trim, trim_chars,
    views,
};
use crate::types::SedockerError;

verus! {

/// How far back the event report looks by default.
pub fn default_since() -> (r: &'static str)
    ensures
        r@ == "24h"@,
{
    "24h"
}

/// The server side of `docker version`.
pub struct VersionInfo {
    pub server_version: String,
    pub api_version: String,
    pub go_version: String,
    pub os_arch: String,
    pub build_time: String,
}

/// What a scan of the plain `docker version` output has gathered.
pub struct VersionScan {
    pub in_server: bool,
    pub version: Seq<char>,
    pub api: Seq<char>,
    pub go: Seq<char>,
    pub os: Seq<char>,
    pub arch: Seq<char>,
    pub built: Seq<char>,
}

pub open spec fn initial_scan() -> VersionScan {
    VersionScan {
        in_server: false,
        version: Seq::empty(),
        api: Seq::empty(),
        go: Seq::empty(),
        os: Seq::empty(),
        arch: Seq::empty(),
        built: Seq::empty(),
    }
}

/// The trimmed text after the first `:` of a line.
pub open spec fn field_value(line: Seq<char>) -> Seq<char> {
    trim(after_first(line, ':'))
}

/// What one line of the output changes: `Server:` and `Client:` open a
/// section, and inside the server section the known fields are taken.
pub open spec fn apply_version_line(st: VersionScan, raw: Seq<char>) -> VersionScan {
    let line = trim(raw);
    if starts_with(line, "Server:"@) {
        VersionScan { in_server: true, ..st }
    } else if starts_with(line, "Client:"@) {
        VersionScan { in_server: false, ..st }
    } else if !st.in_server {
        st
    } else if starts_with(line, "Version:"@) {
        VersionScan { version: field_value(line), ..st }
    } else if starts_with(line, "API version:"@) {
        VersionScan { api: field_value(line), ..st }
    } else if starts_with(line, "Go version:"@) {
        VersionScan { go: field_value(line), ..st }
    } else if starts_with(line, "OS/Arch:"@) {
        let v = field_value(line);
        if v.contains('/') {
            VersionScan {
                os: trim(before_first(v, '/')),
                arch: trim(before_first(after_first(v, '/'), '/')),
                ..st
            }
        } else {
            st
        }
    } else if starts_with(line, "Built:"@) {
        VersionScan { built: field_value(line), ..st }
    } else {
        st
    }
}

pub open spec fn version_scan_lines(ls: Seq<Seq<char>>) -> VersionScan
    decreases ls.len(),
{
    if ls.len() == 0 {
        initial_scan()
    } else {
        apply_version_line(version_scan_lines(ls.drop_last()), ls.last())
    }
}

/// The scan of a whole `docker version` output.
pub open spec fn version_scan(output: Seq<char>) -> VersionScan {
    version_scan_lines(lines(output))
}

struct ScanState {
    in_server: bool,
    version: Vec<char>,
    api: Vec<char>,
    go: Vec<char>,
    os: Vec<char>,
    arch: Vec<char>,
    built: Vec<char>,
}

impl ScanState {
    spec fn view(&self) -> VersionScan {
        VersionScan {
            in_server: self.in_server,
            version: self.version@,
            api: self.api@,
            go: self.go@,
            os: self.os@,
            arch: self.arch@,
            built: self.built@,
        }
    }
}

fn value_of(line: &Vec<char>) -> (r: Vec<char>)
    ensures
        r@ == field_value(line@),
{
    let a = suffix_after(line, ':');
    trim_chars(&a)
}

fn scan_line(st: &mut ScanState, raw: &Vec<char>)
    ensures
        final(st).view() == apply_version_line(old(st).view(), raw@),
{
    let line = trim_chars(raw);
    if has_prefix(&line, "Server:") {
        st.in_server = true;
    } else if has_prefix(&line, "Client:") {
        st.in_server = false;
    } else if !st.in_server {
    } else if has_prefix(&line, "Version:") {
        st.version = value_of(&line);
    } else if has_prefix(&line, "API version:") {
        st.api = value_of(&line);
    } else if has_prefix(&line, "Go version:") {
        st.go = value_of(&line);
    } else if has_prefix(&line, "OS/Arch:") {
        let v = value_of(&line);
        if contains_char(&v, '/') {
            let first = prefix_before(&v, '/');
            let after = suffix_after(&v, '/');
            let second = prefix_before(&after, '/');
            st.os = trim_chars(&first);
            st.arch = trim_chars(&second);
        }
    } else if has_prefix(&line, "Built:") {
        st.built = value_of(&line);
    }
}

/// Whether a plain `docker version` output gave these server fields.
pub open spec fn version_info_matches(v: VersionInfo, sc: VersionScan) -> bool {
    &&& v.server_version@ == sc.version
    &&& v.api_version@ == sc.api
    &&& v.go_version@ == sc.go
    &&& v.os_arch@ == sc.os + seq!['/'] + sc.arch
    &&& v.build_time@ == sc.built
}

/// Reads the server section of the plain-text `docker version` output; fails
/// with a parse error when it gives no server version.
pub fn parse_version_plain(output: &str) -> (r: Result<VersionInfo, SedockerError>)
    ensures
        version_scan(output@).version.len() > 0 <==> r is Ok,
        match r {
            Ok(v) => version_info_matches(v, version_scan(output@)),
            Err(e) => e is Parse,
        },
{
    let cs = chars_of(output);
    let ls = split_lines(&cs);
    let mut st = ScanState {
        in_server: false,
        version: Vec::new(),
        api: Vec::new(),
        go: Vec::new(),
        os: Vec::new(),
        arch: Vec::new(),
        built: Vec::new(),
    };
    proof {
        assert(st.view() == initial_scan()) by {
            assert(st.version@ =~= Seq::<char>::empty());
            assert(st.api@ =~= Seq::<char>::empty());
            assert(st.go@ =~= Seq::<char>::empty());
            assert(st.os@ =~= Seq::<char>::empty());
            assert(st.arch@ =~= Seq::<char>::empty());
            assert(st.built@ =~= Seq::<char>::empty());
        }
        assert(views(ls@).take(0) =~= Seq::<Seq<char>>::empty());
    }
    let mut k: usize = 0;
    while k < ls.len()
        invariant
            k <= ls.len(),
            views(ls@) == lines(output@),
            st.view() == version_scan_lines(views(ls@).take(k as int)),
        decreases ls.len() - k,
    {
        scan_line(&mut st, &ls[k]);
        proof {
            let t = views(ls@).take(k + 1);
            assert(t.drop_last() =~= views(ls@).take(k as int));
            assert(t.last() == ls@[k as int]@);
        }
        k = k + 1;
    }
    proof {
        assert(views(ls@).take(k as int) =~= views(ls@));
    }
    if st.version.len() == 0 {
        return Err(SedockerError::Parse(String::from_str("Could not parse docker version output")));
    }
    let mut os_arch = st.os.clone();
    os_arch.push('/');
    let mut i: usize = 0;
    let ghost base = os_arch@;
    while i < st.arch.len()
        invariant
            i <= st.arch.len(),
            os_arch@ == base + st.arch@.take(i as int),
        decreases st.arch.len() - i,
    {
        os_arch.push(st.arch[i]);
        i = i + 1;
        proof {
            assert(os_arch@ =~= base + st.arch@.take(i as int));
        }
    }
    proof {
        assert(st.arch@.take(i as int) =~= st.arch@);
        assert(base =~= st.os@ + seq!['/']);
    }
    Ok(VersionInfo {
        server_version: string_of(&st.version),
        api_version: string_of(&st.api),
        go_version: string_of(&st.go),
        os_arch: string_of(&os_arch),
        build_time: string_of(&st.built),
    })
}


/// An uptime as `Dd Hh Mm`, leaving out leading zero units (minutes always shown).
pub open spec fn uptime_text(seconds: nat) -> Seq<char> {
    let d = seconds / 86400;
    let h = (seconds % 86400) / 3600;
    let m = (seconds % 3600) / 60;
    if d > 0 {
        decimal(d) + "d "@ + decimal(h) + "h "@ + decimal(m) + seq!['m']
    } else if h > 0 {
        decimal(h) + "h "@ + decimal(m) + seq!['m']
    } else {
        decimal(m) + seq!['m']
    }
}

fn append_chars(v: &mut Vec<char>, w: &Vec<char>)
    ensures
        final(v)@ == old(v)@ + w@,
{
    let ghost base = v@;
    let mut i: usize = 0;
    while i < w.len()
        invariant
            i <= w.len(),
            v@ == base + w@.take(i as int),
        decreases w.len() - i,
    {
        v.push(w[i]);
        i = i + 1;
        proof {
            assert(v@ =~= base + w@.take(i as int));
        }
    }
    proof {
        assert(w@.take(i as int) =~= w@);
    }
}

/// Writes an uptime given in seconds.
pub fn format_uptime(seconds: u64) -> (r: String)
    ensures
        r@ == uptime_text(seconds as nat),
{
    proof {
        reveal_strlit("d ");
        reveal_strlit("h ");
    }
    let d = seconds / 86400;
    let h = (seconds % 86400) / 3600;
    let m = (seconds % 3600) / 60;
    let mut out: Vec<char> = Vec::new();
    if d > 0 {
        append_chars(&mut out, &decimal_of_u64(d));
        out.push('d');
        out.push(' ');
    }
    if d > 0 || h > 0 {
        append_chars(&mut out, &decimal_of_u64(h));
        out.push('h');
        out.push(' ');
    }
    append_chars(&mut out, &decimal_of_u64(m));
    out.push('m');
    proof {
        if d > 0 {
            assert(out@ =~= uptime_text(seconds as nat));
        } else if h > 0 {
            assert(out@ =~= uptime_text(seconds as nat));
        } else {
            assert(out@ =~= uptime_text(seconds as nat));
        }
    }
    string_of(&out)
}

/// The cgroup hierarchy of the host, from which of its marker files exist.
pub fn cgroup_version_label(controllers_exist: bool, memory_limit_exists: bool) -> (r: String)
    ensures
        controllers_exist ==> r@ == "v2"@,
        !controllers_exist && memory_limit_exists ==> r@ == "v1"@,
        !controllers_exist && !memory_limit_exists ==> r@ == "unknown"@,
{
    if controllers_exist {
        String::from_str("v2")
    } else if memory_limit_exists {
        String::from_str("v1")
    } else {
        String::from_str("unknown")
    }
}

/// The security modules of the host.
pub struct SecurityInfo {
    pub selinux: String,
    pub apparmor: String,
}

/// AppArmor's state, from whether its profile list or its module exists.
pub fn apparmor_label(profiles_exist: bool, module_exists: bool) -> (r: String)
    ensures
        profiles_exist || module_exists ==> r@ == "enabled"@,
        !(profiles_exist || module_exists) ==> r@ == "disabled"@,
{
    if profiles_exist || module_exists {
        String::from_str("enabled")
    } else {
        String::from_str("disabled")
    }
}

/// SELinux's state from the trimmed content of its `enforce` file.
pub fn selinux_enforce_label(enforce: &str) -> (r: String)
    ensures
        trim(enforce@) == "1"@ ==> r@ == "enforcing"@,
        trim(enforce@) == "0"@ ==> r@ == "permissive"@,
        trim(enforce@) != "1"@ && trim(enforce@) != "0"@ ==> r@ == "unknown"@,
{
    proof {
        reveal_strlit("1");
        reveal_strlit("0");
    }
    let t = trim_chars(&chars_of(enforce));
    if t.len() == 1 && t[0] == '1' {
        proof {
            assert(t@ =~= "1"@);
        }
        String::from_str("enforcing")
    } else if t.len() == 1 && t[0] == '0' {
        proof {
            assert(t@ =~= "0"@);
        }
        String::from_str("permissive")
    } else {
        proof {
            if t@ == "1"@ {
                assert(t@[0] == '1');
            }
            if t@ == "0"@ {
                assert(t@[0] == '0');
            }
        }
        String::from_str("unknown")
    }
}

/// The host clock.
pub struct TimeInfo {
    pub system_time: String,
    pub ntp_synced: bool,
}

/// Whether the clock is synchronised: by what `timedatectl` printed when it
/// says yes or no, else by the presence of systemd's sentinel file.
pub open spec fn ntp_synced_spec(timedatectl: Option<Seq<char>>, sentinel_exists: bool) -> bool {
    match timedatectl {
        Some(out) => if contains_seq(out, "synchronized: yes"@) {
            true
        } else if contains_seq(out, "synchronized: no"@) {
            false
        } else {
            sentinel_exists
        },
        None => sentinel_exists,
    }
}

/// Decides whether the clock is synchronised, given the output of
/// `timedatectl` (if it ran) and whether the sentinel file exists.
pub fn check_ntp_sync(timedatectl: Option<&str>, sentinel_exists: bool) -> (r: bool)
    ensures
        r == ntp_synced_spec(
            match timedatectl {
                Some(t) => Some(t@),
                None => None,
            },
            sentinel_exists,
        ),
{
    match timedatectl {
        Some(t) => {
            let cs = chars_of(t);
            if has_infix(&cs, "synchronized: yes") {
                true
            } else if has_infix(&cs, "synchronized: no") {
                false
            } else {
                sentinel_exists
            }
        },
        None => sentinel_exists,
    }
}

} // verus!
