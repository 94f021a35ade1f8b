use vstd::prelude::*;
use crate::text::{
    is_ws, lemma_last_index_append, no_ws, trim_end, trim_start,
    lemma_lines_in_text, lemma_piece_trans, lemma_trim_piece,
    chars_of, contains_seq, lemma_last_index_bounds, copy_range, has_infix, last_index_of, lines, rfind_char,
    split_lines, string_of, trim, trim_chars, views,
};

verus! {

/// The short container id in one cgroup line: the part after the last `/`,
/// trimmed, cut to its first 12 characters; nothing if it is empty or the
/// line holds no `/`.
pub open spec fn container_id_of_line(line: Seq<char>) -> Option<Seq<char>> {
    let p = last_index_of(line, '/');
    if p < 0 {
        None
    } else {
        let id = trim(line.skip(p + 1));
        if id.len() >= 12 {
            Some(id.take(12))
        } else if id.len() > 0 {
            Some(id)
        } else {
            None
        }
    }
}

/// Whether a cgroup line belongs to a container runtime.
pub open spec fn is_runtime_line(line: Seq<char>) -> bool {
    contains_seq(line, "docker"@) || contains_seq(line, "containerd"@)
}

/// The container id of the first runtime line of `ls[k..]` that yields one.
pub open spec fn container_id_from(ls: Seq<Seq<char>>, k: int) -> Option<Seq<char>>
    decreases ls.len() - k,
{
    if k >= ls.len() || k < 0 {
        None
    } else if is_runtime_line(ls[k]) && container_id_of_line(ls[k]) is Some {
        container_id_of_line(ls[k])
    } else {
        container_id_from(ls, k + 1)
    }
}

/// The container id that the text of `/proc/<pid>/cgroup` gives.
pub open spec fn container_id_of(content: Seq<char>) -> Option<Seq<char>> {
    container_id_from(lines(content), 0)
}

proof fn lemma_line_id_shape(line: Seq<char>)
    ensures
        match container_id_of_line(line) {
            Some(id) => 0 < id.len() <= 12 && contains_seq(line, id),
            None => true,
        },
{
    lemma_last_index_bounds(line, '/');
    let p = last_index_of(line, '/');
    if p >= 0 {
        let tail = line.skip(p + 1);
        let id = trim(tail);
        lemma_trim_piece(tail);
        assert(line.subrange(p + 1, p + 1 + tail.len()) =~= tail);
        assert(contains_seq(line, tail));
        lemma_piece_trans(id, tail, line);
        if id.len() >= 12 {
            let z: int = 0;
            assert(id.subrange(z, z + id.take(12).len()) =~= id.take(12));
            assert(contains_seq(id, id.take(12)));
            lemma_piece_trans(id.take(12), id, line);
        }
    }
}

proof fn lemma_id_from_shape(ls: Seq<Seq<char>>, k: int, content: Seq<char>)
    requires
        forall|j: int| 0 <= j < ls.len() ==> contains_seq(content, #[trigger] ls[j]),
    ensures
        match container_id_from(ls, k) {
            Some(id) => 0 < id.len() <= 12 && contains_seq(content, id),
            None => true,
        },
    decreases ls.len() - k,
{
    if k >= ls.len() || k < 0 {
    } else if is_runtime_line(ls[k]) && container_id_of_line(ls[k]) is Some {
        lemma_line_id_shape(ls[k]);
        lemma_piece_trans(container_id_of_line(ls[k]).unwrap(), ls[k], content);
    } else {
        lemma_id_from_shape(ls, k + 1, content);
    }
}

/// A container id, when one is found, has 1 to 12 characters and is a
/// contiguous piece of the cgroup text it was read from.
pub proof fn lemma_container_id_width(content: Seq<char>)
    ensures
        match container_id_of(content) {
            Some(id) => 0 < id.len() <= 12 && contains_seq(content, id),
            None => true,
        },
{
    lemma_lines_in_text(content);
    lemma_id_from_shape(lines(content), 0, content);
}

/// A runtime line that ends in `/` and then an id without `/` or
/// whitespace, of 12 characters or more, gives the id's first 12.
pub proof fn lemma_runtime_line_id(prefix: Seq<char>, id: Seq<char>)
    requires
        prefix.len() > 0,
        prefix.last() == '/',
        !id.contains('/'),
        no_ws(id),
        id.len() >= 12,
    ensures
        container_id_of_line(prefix + id) == Some(id.take(12)),
{
    lemma_last_index_append(prefix, id, '/');
    let line = prefix + id;
    let p = prefix.len() - 1;
    assert(last_index_of(prefix, '/') == p);
    assert(line.skip(p + 1) =~= id);
    assert(trim_end(id) == id);
    assert(trim_start(id) == id);
}

/// The first line of the cgroup text that names a runtime decides: when
/// line `k` is `prefix` + `id` as above, naming `docker` or `containerd`,
/// and no line before it names either, the container id is `id`'s first 12
/// characters.
pub proof fn lemma_first_runtime_line(content: Seq<char>, k: int, prefix: Seq<char>, id: Seq<char>)
    requires
        0 <= k < lines(content).len(),
        lines(content)[k] == prefix + id,
        contains_seq(prefix, "docker"@) || contains_seq(prefix, "containerd"@),
        prefix.len() > 0,
        prefix.last() == '/',
        !id.contains('/'),
        no_ws(id),
        id.len() >= 12,
        forall|j: int| 0 <= j < k ==> !is_runtime_line(#[trigger] lines(content)[j]),
    ensures
        container_id_of(content) == Some(id.take(12)),
{
    let ls = lines(content);
    let line = prefix + id;
    lemma_runtime_line_id(prefix, id);
    assert(is_runtime_line(line)) by {
        if contains_seq(prefix, "docker"@) {
            let i = choose|i: int| 0 <= i && i + "docker"@.len() <= prefix.len() && #[trigger] prefix.subrange(i, i + "docker"@.len()) == "docker"@;
            assert(line.subrange(i, i + "docker"@.len()) =~= prefix.subrange(i, i + "docker"@.len()));
        } else {
            let i = choose|i: int| 0 <= i && i + "containerd"@.len() <= prefix.len() && #[trigger] prefix.subrange(i, i + "containerd"@.len()) == "containerd"@;
            assert(line.subrange(i, i + "containerd"@.len()) =~= prefix.subrange(i, i + "containerd"@.len()));
        }
    }
    lemma_skip_to_line(ls, 0, k);
}

proof fn lemma_skip_to_line(ls: Seq<Seq<char>>, j: int, k: int)
    requires
        0 <= j <= k < ls.len(),
        forall|m: int| 0 <= m < k ==> !is_runtime_line(#[trigger] ls[m]),
    ensures
        container_id_from(ls, j) == container_id_from(ls, k),
    decreases k - j,
{
    if j < k {
        assert(!is_runtime_line(ls[j]));
        lemma_skip_to_line(ls, j + 1, k);
    }
}

fn id_of_line(line: &Vec<char>) -> (r: Option<Vec<char>>)
    ensures
        match r {
            Some(v) => container_id_of_line(line@) == Some(v@),
            None => container_id_of_line(line@) is None,
        },
{
    match rfind_char(line, '/') {
        None => None,
        Some(p) => {
            let tail = copy_range(line, p + 1, line.len());
            proof {
                assert(tail@ =~= line@.skip(p + 1));
            }
            let id = trim_chars(&tail);
            if id.len() >= 12 {
                let short = copy_range(&id, 0, 12);
                proof {
                    assert(short@ =~= id@.take(12));
                }
                Some(short)
            } else if id.len() > 0 {
                Some(id)
            } else {
                None
            }
        },
    }
}

/// Extracts the short container id from one cgroup line.
pub fn extract_container_id(line: &str) -> (r: Option<String>)
    ensures
        match r {
            Some(v) => container_id_of_line(line@) == Some(v@),
            None => container_id_of_line(line@) is None,
        },
{
    let cs = chars_of(line);
    match id_of_line(&cs) {
        Some(v) => Some(string_of(&v)),
        None => None,
    }
}

/// Finds the short container id in the text of `/proc/<pid>/cgroup`: the id
/// of the first line that names `docker` or `containerd` and yields one.
pub fn get_container_id(content: &str) -> (r: Option<String>)
    ensures
        match r {
            Some(v) => container_id_of(content@) == Some(v@),
            None => container_id_of(content@) is None,
        },
{
    let cs = chars_of(content);
    let ls = split_lines(&cs);
    let mut k: usize = 0;
    while k < ls.len()
        invariant
            k <= ls.len(),
            views(ls@) == lines(content@),
            container_id_of(content@) == container_id_from(views(ls@), k as int),
        decreases ls.len() - k,
    {
        proof {
            assert(views(ls@)[k as int] == ls@[k as int]@);
        }
        if has_infix(&ls[k], "docker") || has_infix(&ls[k], "containerd") {
            match id_of_line(&ls[k]) {
                Some(v) => {
                    return Some(string_of(&v));
                },
                None => {},
            }
        }
        k = k + 1;
    }
    None
}

} // verus!
