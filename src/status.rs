use vstd::prelude::*;
use crate::num::{parse_i32, parse_i32_spec, parse_u32, parse_u32_spec};
use crate::text::{
    is_ws, lemma_prefix_after_gap, lemma_second_word, lemma_words_after_gap, no_ws,
    chars_of, has_prefix, string_of, lines, split_lines, split_words, starts_with, views, words,
};

verus! {

/// The fields of a `/proc/<pid>/status` file that the library reads.
pub struct StatusFields {
    /// Real user id (`Uid:`, first value), 0 when absent or unreadable.
    pub uid: u32,
    /// Real group id (`Gid:`, first value), 0 when absent or unreadable.
    pub gid: u32,
    /// The innermost namespace pid (`NSpid:`) when the line lists two or more.
    pub container_pid: Option<i32>,
    /// The short command name (`Name:`), `unknown` when absent.
    pub comm: String,
}

/// The abstract content of a [`StatusFields`].
pub struct StatusView {
    pub uid: u32,
    pub gid: u32,
    pub container_pid: Option<i32>,
    pub comm: Seq<char>,
}

impl StatusFields {
    pub open spec fn view(&self) -> StatusView {
        StatusView {
            uid: self.uid,
            gid: self.gid,
            container_pid: self.container_pid,
            comm: self.comm@,
        }
    }
}

/// The command name used while none is known.
pub open spec fn unknown_name() -> Seq<char> {
    seq!['u', 'n', 'k', 'n', 'o', 'w', 'n']
}

pub open spec fn initial_status() -> StatusView {
    StatusView { uid: 0, gid: 0, container_pid: None, comm: unknown_name() }
}

/// The second word of a line read as a `u32`, or 0.
pub open spec fn second_u32(line: Seq<char>) -> u32 {
    let w = words(line);
    if w.len() >= 2 {
        match parse_u32_spec(w[1]) {
            Some(v) => v,
            None => 0,
        }
    } else {
        0
    }
}

/// What one line of the status file changes.
pub open spec fn apply_status_line(acc: StatusView, line: Seq<char>) -> StatusView {
    if starts_with(line, "Uid:"@) {
        StatusView { uid: second_u32(line), ..acc }
    } else if starts_with(line, "Gid:"@) {
        StatusView { gid: second_u32(line), ..acc }
    } else if starts_with(line, "NSpid:"@) {
        let w = words(line);
        if w.len() >= 3 {
            StatusView { container_pid: parse_i32_spec(w.last()), ..acc }
        } else {
            acc
        }
    } else if starts_with(line, "Name:"@) {
        let w = words(line);
        if w.len() >= 2 {
            StatusView { comm: w[1], ..acc }
        } else {
            acc
        }
    } else {
        acc
    }
}

/// The fields after reading the lines `ls` in order; a later line wins.
pub open spec fn status_of_lines(ls: Seq<Seq<char>>) -> StatusView
    decreases ls.len(),
{
    if ls.len() == 0 {
        initial_status()
    } else {
        apply_status_line(status_of_lines(ls.drop_last()), ls.last())
    }
}

/// The fields that a status file's text gives.
pub open spec fn status_of(content: Seq<char>) -> StatusView {
    status_of_lines(lines(content))
}

/// In an `NSpid:` line, a single pid leaves the namespace pid as it was
/// (absent in a fresh parse); two or more set it to the last one.
pub proof fn lemma_nspid_rule(acc: StatusView, line: Seq<char>)
    requires
        starts_with(line, "NSpid:"@),
    ensures
        words(line).len() <= 2 ==> apply_status_line(acc, line).container_pid == acc.container_pid,
        words(line).len() >= 3 ==> apply_status_line(acc, line).container_pid == parse_i32_spec(words(line).last()),
        apply_status_line(initial_status(), line).container_pid is None <==> (words(line).len() <= 2
            || parse_i32_spec(words(line).last()) is None),
{
    reveal_strlit("NSpid:");
    reveal_strlit("Uid:");
    reveal_strlit("Gid:");
    assert(line.take(6)[0] == line[0]);
    assert(line[0] == 'N');
    assert(!starts_with(line, "Uid:"@)) by {
        if starts_with(line, "Uid:"@) {
            assert(line.take(4)[0] == 'U');
        }
    }
    assert(!starts_with(line, "Gid:"@)) by {
        if starts_with(line, "Gid:"@) {
            assert(line.take(4)[0] == 'G');
        }
    }
}

proof fn lemma_field_names_no_ws()
    ensures
        no_ws("Uid:"@),
        no_ws("Gid:"@),
        no_ws("NSpid:"@),
        no_ws("Name:"@),
{
    reveal_strlit("Uid:");
    reveal_strlit("Gid:");
    reveal_strlit("NSpid:");
    reveal_strlit("Name:");
}

/// The width of the whitespace between a field's name and its values does
/// not change what the line gives.
pub proof fn lemma_status_gap_width(acc: StatusView, name: Seq<char>, gap1: Seq<char>, gap2: Seq<char>, rest: Seq<char>)
    requires
        name.len() > 0,
        no_ws(name),
        gap1.len() > 0,
        forall|k: int| 0 <= k < gap1.len() ==> is_ws(#[trigger] gap1[k]),
        gap2.len() > 0,
        forall|k: int| 0 <= k < gap2.len() ==> is_ws(#[trigger] gap2[k]),
    ensures
        apply_status_line(acc, name + gap1 + rest) == apply_status_line(acc, name + gap2 + rest),
{
    lemma_words_after_gap(name, gap1, rest);
    lemma_words_after_gap(name, gap2, rest);
    lemma_field_names_no_ws();
    lemma_prefix_after_gap(name, gap1, gap2, rest, "Uid:"@);
    lemma_prefix_after_gap(name, gap1, gap2, rest, "Gid:"@);
    lemma_prefix_after_gap(name, gap1, gap2, rest, "NSpid:"@);
    lemma_prefix_after_gap(name, gap1, gap2, rest, "Name:"@);
}

/// A `Uid:` or `Gid:` line gives the first value after the field name,
/// however wide the whitespace before it, read as a number (0 if it is not
/// one).
pub proof fn lemma_id_after_any_gap(acc: StatusView, gap: Seq<char>, d: Seq<char>, rest: Seq<char>)
    requires
        gap.len() > 0,
        forall|k: int| 0 <= k < gap.len() ==> is_ws(#[trigger] gap[k]),
        d.len() > 0,
        no_ws(d),
        rest.len() == 0 || is_ws(rest[0]),
    ensures
        apply_status_line(acc, "Uid:"@ + gap + (d + rest)).uid == match parse_u32_spec(d) {
            Some(v) => v,
            None => 0,
        },
        apply_status_line(acc, "Gid:"@ + gap + (d + rest)).gid == match parse_u32_spec(d) {
            Some(v) => v,
            None => 0,
        },
{
    lemma_field_names_no_ws();
    reveal_strlit("Uid:");
    reveal_strlit("Gid:");
    lemma_second_word("Uid:"@, gap, d, rest);
    lemma_second_word("Gid:"@, gap, d, rest);
    let u = "Uid:"@ + gap + (d + rest);
    let g = "Gid:"@ + gap + (d + rest);
    assert(u.take(4) =~= "Uid:"@);
    assert(g.take(4) =~= "Gid:"@);
    assert(!starts_with(g, "Uid:"@)) by {
        if starts_with(g, "Uid:"@) {
            assert(g.take(4)[0] == 'G');
        }
    }
}

fn second_word_u32(w: &Vec<Vec<char>>, line: Ghost<Seq<char>>) -> (r: u32)
    requires
        views(w@) == words(line@),
    ensures
        r == second_u32(line@),
{
    if w.len() >= 2 {
        proof {
            assert(views(w@)[1] == w@[1]@);
        }
        match parse_u32(&w[1]) {
            Some(v) => v,
            None => 0,
        }
    } else {
        0
    }
}

fn apply_line(acc: &mut StatusFields, line: &Vec<char>)
    ensures
        final(acc).view() == apply_status_line(old(acc).view(), line@),
{
    if has_prefix(line, "Uid:") {
        let w = split_words(line);
        acc.uid = second_word_u32(&w, Ghost(line@));
    } else if has_prefix(line, "Gid:") {
        let w = split_words(line);
        acc.gid = second_word_u32(&w, Ghost(line@));
    } else if has_prefix(line, "NSpid:") {
        let w = split_words(line);
        if w.len() >= 3 {
            proof {
                assert(views(w@).last() == w@.last()@);
            }
            acc.container_pid = parse_i32(&w[w.len() - 1]);
        }
    } else if has_prefix(line, "Name:") {
        let w = split_words(line);
        if w.len() >= 2 {
            proof {
                assert(views(w@)[1] == w@[1]@);
            }
            let name = string_of(&w[1]);
            acc.comm = name;
        }
    }
}

/// Reads the uid, gid, namespace pid and command name from the text of a
/// `/proc/<pid>/status` file. Whitespace between a field's name and its
/// values may be of any length.
pub fn parse_status(content: &str) -> (r: StatusFields)
    ensures
        r.view() == status_of(content@),
{
    let cs = chars_of(content);
    let ls = split_lines(&cs);
    let mut acc = StatusFields {
        uid: 0,
        gid: 0,
        container_pid: None,
        comm: String::from_str("unknown"),
    };
    proof {
        reveal_strlit("unknown");
        assert(acc.comm@ =~= unknown_name());
        assert(acc.view() == initial_status());
        assert(views(ls@).take(0) =~= Seq::<Seq<char>>::empty());
    }
    let mut k: usize = 0;
    while k < ls.len()
        invariant
            k <= ls.len(),
            views(ls@) == lines(content@),
            acc.view() == status_of_lines(views(ls@).take(k as int)),
        decreases ls.len() - k,
    {
        apply_line(&mut acc, &ls[k]);
        proof {
            let t = views(ls@).take(k + 1);
            assert(t.drop_last() =~= views(ls@).take(k as int));
            assert(t.last() == ls@[k as int]@);
        }
        k = k + 1;
    }
    proof {
        assert(views(ls@).take(k as int) =~= views(ls@));
    }
    acc
}

} // verus!
