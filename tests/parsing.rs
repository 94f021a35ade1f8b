use sedock::container::{get_container_id, extract_container_id};
use sedock::num::{decimal_of_i64, parse_i32, parse_u32};
use sedock::process::{
    get_container_pid, get_ids_from_pid, get_process_comm,
    first_cmdline_arg, get_process_path, path_from_cmdline, cmdline_probes, pid_sentinel,
    search_dirs, strip_deleted_suffix,
};
use sedock::status::parse_status;
use sedock::text::{split_lines, split_words, trim_chars};

fn chars(s: &str) -> Vec<char> {
    s.chars().collect()
}

fn strs(v: Vec<Vec<char>>) -> Vec<String> {
    v.into_iter().map(|w| w.into_iter().collect()).collect()
}

#[test]
fn words_ignore_runs_of_whitespace() {
    assert_eq!(strs(split_words(&chars("  Uid:\t0 \t 1000  "))), vec!["Uid:", "0", "1000"]);
    assert!(split_words(&chars("")).is_empty());
    assert!(split_words(&chars(" \t ")).is_empty());
}

#[test]
fn lines_split_at_newlines() {
    assert_eq!(strs(split_lines(&chars("a\nb\n"))), vec!["a", "b"]);
    assert_eq!(strs(split_lines(&chars("a\n\nb"))), vec!["a", "", "b"]);
    assert!(split_lines(&chars("")).is_empty());
    assert_eq!(strs(split_lines(&chars("\n"))), vec![""]);
}

#[test]
fn trim_removes_both_ends() {
    let t: String = trim_chars(&chars("  cat\n")).into_iter().collect();
    assert_eq!(t, "cat");
    assert!(trim_chars(&chars(" \n\t")).is_empty());
}

#[test]
fn unsigned_numbers_parse_as_std_does() {
    assert_eq!(parse_u32(&chars("1000")), Some(1000));
    assert_eq!(parse_u32(&chars("+7")), Some(7));
    assert_eq!(parse_u32(&chars("4294967295")), Some(u32::MAX));
    assert_eq!(parse_u32(&chars("4294967296")), None);
    assert_eq!(parse_u32(&chars("")), None);
    assert_eq!(parse_u32(&chars("+")), None);
    assert_eq!(parse_u32(&chars("-1")), None);
    assert_eq!(parse_u32(&chars("12a")), None);
}

#[test]
fn signed_numbers_parse_as_std_does() {
    assert_eq!(parse_i32(&chars("17")), Some(17));
    assert_eq!(parse_i32(&chars("-2147483648")), Some(i32::MIN));
    assert_eq!(parse_i32(&chars("2147483647")), Some(i32::MAX));
    assert_eq!(parse_i32(&chars("2147483648")), None);
    assert_eq!(parse_i32(&chars("-")), None);
    assert_eq!(parse_i32(&chars("+-1")), None);
}

#[test]
fn decimal_notation() {
    let s: String = decimal_of_i64(-42).into_iter().collect();
    assert_eq!(s, "-42");
    let s: String = decimal_of_i64(0).into_iter().collect();
    assert_eq!(s, "0");
    let s: String = decimal_of_i64(i64::MIN).into_iter().collect();
    assert_eq!(s, i64::MIN.to_string());
}

const STATUS: &str = "Name:\tcat\nUmask:\t0022\nState:\tR (running)\nPid:\t4242\nNSpid:\t4242\t17\nUid:\t1000\t1001\t1000\t1000\nGid:\t100\t100\t100\t100\n";

#[test]
fn status_fields_of_a_namespaced_process() {
    let st = parse_status(STATUS);
    assert_eq!(st.uid, 1000);
    assert_eq!(st.gid, 100);
    assert_eq!(st.container_pid, Some(17));
    assert_eq!(st.comm, "cat");
}

#[test]
fn nspid_with_one_token_gives_no_namespace_pid() {
    let st = parse_status("NSpid:\t4242\nUid:\t0\t0\t0\t0\n");
    assert_eq!(st.container_pid, None);
    let st = parse_status("NSpid:\t4242\t300\t1\n");
    assert_eq!(st.container_pid, Some(1));
}

#[test]
fn status_tolerates_wide_whitespace() {
    let a = parse_status("Uid:\t5\t5\t5\t5\nGid:\t6\nName:\tsh\n");
    let b = parse_status("Uid:      5 5 5 5\nGid:  \t  6\nName:    sh\n");
    assert_eq!((a.uid, a.gid, a.comm.clone()), (b.uid, b.gid, b.comm.clone()));
    assert_eq!((b.uid, b.gid, b.comm.as_str()), (5, 6, "sh"));
}

#[test]
fn status_defaults_when_fields_missing() {
    let st = parse_status("");
    assert_eq!((st.uid, st.gid, st.container_pid, st.comm.as_str()), (0, 0, None, "unknown"));
    let st = parse_status("Uid:\tabc\n");
    assert_eq!(st.uid, 0);
}

#[test]
fn deleted_marker_stripped_only_at_end() {
    assert_eq!(strip_deleted_suffix("/usr/bin/vim (deleted)"), "/usr/bin/vim");
    assert_eq!(strip_deleted_suffix("/tmp/a (deleted)/b"), "/tmp/a (deleted)/b");
    assert_eq!(strip_deleted_suffix("/usr/bin/vim"), "/usr/bin/vim");
    assert_eq!(strip_deleted_suffix(" (deleted)"), "");
}

#[test]
fn sentinel_names_the_pid() {
    assert_eq!(pid_sentinel(4242), "[4242]");
    assert_eq!(pid_sentinel(0), "[0]");
}

#[test]
fn cmdline_first_argument() {
    assert_eq!(first_cmdline_arg("head\0-c1\0a.txt\0"), "head");
    assert_eq!(first_cmdline_arg(""), "");
    assert_eq!(first_cmdline_arg("/bin/sh"), "/bin/sh");
}

#[test]
fn cmdline_path_choice() {
    let probes = cmdline_probes("cat");
    assert_eq!(probes, vec!["/usr/bin/cat".to_string(), "/bin/cat".to_string()]);
    assert_eq!(path_from_cmdline("/opt/x", &vec![false, false]), Some("/opt/x".to_string()));
    assert_eq!(path_from_cmdline("cat", &vec![true, true]), Some("/usr/bin/cat".to_string()));
    assert_eq!(path_from_cmdline("cat", &vec![false, true]), Some("/bin/cat".to_string()));
    assert_eq!(path_from_cmdline("cat", &vec![false, false]), Some("cat".to_string()));
    assert_eq!(path_from_cmdline("", &vec![true, true]), None);
}

#[test]
fn process_path_fallback_order() {
    assert_eq!(
        get_process_path(7, Some("/usr/bin/cat (deleted)".into()), Some("/x".into()), None),
        "/usr/bin/cat"
    );
    assert_eq!(get_process_path(7, None, Some("/bin/cat".into()), Some("cat\n".into())), "/bin/cat");
    assert_eq!(get_process_path(7, None, None, Some(" head\n".into())), "head");
    assert_eq!(get_process_path(7, None, None, Some("\n".into())), "[7]");
    assert_eq!(get_process_path(7, None, None, None), "[7]");
}

#[test]
fn search_dirs_append_new_path_entries() {
    let seed = vec!["/usr/bin", "/bin", "/usr/sbin", "/sbin", "/usr/local/bin", "/usr/local/sbin"];
    assert_eq!(search_dirs(None), seed);
    let mut want = seed.clone();
    want.push("/opt/x/bin");
    want.push("/home/u/.local/bin");
    assert_eq!(search_dirs(Some("/usr/bin::/opt/x/bin:/bin:/home/u/.local/bin:/opt/x/bin:")), want);
}

#[test]
fn container_id_from_docker_cgroup() {
    let hex = "a1b2c3d4e5f6a7b8c9d0a1b2c3d4e5f6a7b8c9d0a1b2c3d4e5f6a7b8c9d0abcd";
    let content = format!("12:pids:/user.slice\n11:memory:/docker/{}\n", hex);
    assert_eq!(get_container_id(&content), Some("a1b2c3d4e5f6".to_string()));
}

#[test]
fn container_id_edge_cases() {
    assert_eq!(get_container_id("0::/user.slice/session-1.scope\n"), None);
    assert_eq!(get_container_id(""), None);
    assert_eq!(get_container_id("1:x:/docker/\n2:y:/containerd/abc \n"), Some("abc".to_string()));
    assert_eq!(extract_container_id("0::/docker/short"), Some("short".to_string()));
    assert_eq!(extract_container_id("no slash here"), None);
    let id = get_container_id("0::/system.slice/docker-0123456789abcdef.scope\n").unwrap();
    assert_eq!(id, "docker-01234");
    assert!(id.chars().count() <= 12);
}

#[test]
fn ids_namespace_pid_and_comm() {
    assert_eq!(get_ids_from_pid(STATUS), (1000, 100));
    assert_eq!(get_container_pid(STATUS), Some(17));
    assert_eq!(get_container_pid("NSpid:\t12\n"), None);
    assert_eq!(get_process_comm(Some("bash\n")), "bash");
    assert_eq!(get_process_comm(None), "unknown");
}
