use vstd::prelude::*;
use vstd::std_specs::iter::IteratorSpec;

verus! {

/// Relies on `String::push`: the character is appended at the end.
pub assume_specification[ String::push ](s: &mut String, ch: char)
    ensures
        final(s)@ == old(s)@.push(ch),
;

/// A string holding the characters `v`.
pub fn string_of(v: &Vec<char>) -> (r: String)
    ensures
        r@ == v@,
{
    let mut out = String::new();
    let mut i: usize = 0;
    while i < v.len()
        invariant
            i <= v.len(),
            out@ == v@.take(i as int),
        decreases v.len() - i,
    {
        out.push(v[i]);
        i = i + 1;
        proof {
            assert(out@ =~= v@.take(i as int));
        }
    }
    proof {
        assert(v@.take(i as int) =~= v@);
    }
    out
}

/// The characters that `char::is_whitespace` accepts (Unicode White_Space).
pub open spec fn is_ws(c: char) -> bool {
    let u = c as u32;
    u == 0x20 || (0x09 <= u && u <= 0x0d) || u == 0x85 || u == 0xa0 || u == 0x1680
        || (0x2000 <= u && u <= 0x200a) || u == 0x2028 || u == 0x2029 || u == 0x202f
        || u == 0x205f || u == 0x3000
}

/// Whether `c` is whitespace, as `char::is_whitespace` decides.
pub fn is_ws_char(c: char) -> (r: bool)
    ensures
        r == is_ws(c),
{
    let u = c as u32;
    u == 0x20 || (0x09 <= u && u <= 0x0d) || u == 0x85 || u == 0xa0 || u == 0x1680
        || (0x2000 <= u && u <= 0x200a) || u == 0x2028 || u == 0x2029 || u == 0x202f
        || u == 0x205f || u == 0x3000
}

/// The characters of a string, in order.
pub fn chars_of(s: &str) -> (r: Vec<char>)
    ensures
        r@ == s@,
{
    let mut out: Vec<char> = Vec::new();
    for c in it: s.chars()
        invariant
            out@ == it.seq().take(it.index() as int),
    {
        out.push(c);
    }
    out
}


/// Whitespace-separated words of `s[i..]`, given the word `cur` being read
/// and the words `acc` already complete.
pub open spec fn words_from(s: Seq<char>, i: int, cur: Seq<char>, acc: Seq<Seq<char>>) -> Seq<Seq<char>>
    decreases s.len() - i,
{
    if i >= s.len() {
        if cur.len() > 0 { acc.push(cur) } else { acc }
    } else if is_ws(s[i]) {
        words_from(s, i + 1, Seq::empty(), if cur.len() > 0 { acc.push(cur) } else { acc })
    } else {
        words_from(s, i + 1, cur.push(s[i]), acc)
    }
}

/// The maximal runs of non-whitespace characters of `s`, in order.
pub open spec fn words(s: Seq<char>) -> Seq<Seq<char>> {
    words_from(s, 0, Seq::empty(), Seq::empty())
}

proof fn lemma_words_shift(s: Seq<char>, i: int, t: Seq<char>, j: int, cur: Seq<char>, acc: Seq<Seq<char>>)
    requires
        0 <= i <= s.len(),
        0 <= j <= t.len(),
        s.skip(i) == t.skip(j),
    ensures
        words_from(s, i, cur, acc) == words_from(t, j, cur, acc),
    decreases s.len() - i,
{
    assert(s.skip(i).len() == s.len() - i);
    assert(t.skip(j).len() == t.len() - j);
    assert(s.len() - i == t.len() - j);
    if i < s.len() {
        assert(j < t.len());
        assert(s.skip(i)[0] == s[i]);
        assert(t.skip(j)[0] == t[j]);
        assert(s.skip(i + 1) =~= s.skip(i).drop_first());
        assert(t.skip(j + 1) =~= t.skip(j).drop_first());
        let nc = if is_ws(s[i]) { Seq::<char>::empty() } else { cur.push(s[i]) };
        let na = if is_ws(s[i]) { if cur.len() > 0 { acc.push(cur) } else { acc } } else { acc };
        lemma_words_shift(s, i + 1, t, j + 1, nc, na);
    }
}

proof fn lemma_words_word_run(s: Seq<char>, i: int, m: int, cur: Seq<char>, acc: Seq<Seq<char>>)
    requires
        0 <= i,
        0 <= m,
        i + m <= s.len(),
        forall|k: int| i <= k < i + m ==> !is_ws(#[trigger] s[k]),
    ensures
        words_from(s, i, cur, acc) == words_from(s, i + m, cur + s.subrange(i, i + m), acc),
    decreases m,
{
    if m == 0 {
        assert(cur + s.subrange(i, i) =~= cur);
    } else {
        lemma_words_word_run(s, i + 1, m - 1, cur.push(s[i]), acc);
        assert(cur.push(s[i]) + s.subrange(i + 1, i + m) =~= cur + s.subrange(i, i + m));
    }
}

proof fn lemma_words_gap_run(s: Seq<char>, i: int, m: int, acc: Seq<Seq<char>>)
    requires
        0 <= i,
        0 <= m,
        i + m <= s.len(),
        forall|k: int| i <= k < i + m ==> is_ws(#[trigger] s[k]),
    ensures
        words_from(s, i, Seq::empty(), acc) == words_from(s, i + m, Seq::empty(), acc),
    decreases m,
{
    if m > 0 {
        lemma_words_gap_run(s, i + 1, m - 1, acc);
    }
}

/// The words of `name`, a whitespace run, then `rest`, are `name` followed by
/// the words of `rest`, however long the run.
pub proof fn lemma_words_after_gap(name: Seq<char>, gap: Seq<char>, rest: Seq<char>)
    requires
        name.len() > 0,
        forall|k: int| 0 <= k < name.len() ==> !is_ws(#[trigger] name[k]),
        gap.len() > 0,
        forall|k: int| 0 <= k < gap.len() ==> is_ws(#[trigger] gap[k]),
    ensures
        words(name + gap + rest) == words_from(rest, 0, Seq::empty(), seq![name]),
{
    let s = name + gap + rest;
    let n = name.len() as int;
    assert forall|k: int| 0 <= k < 0 + n implies !is_ws(#[trigger] s[k]) by {
        assert(s[k] == name[k]);
    }
    lemma_words_word_run(s, 0, n, Seq::empty(), Seq::empty());
    assert(Seq::<char>::empty() + s.subrange(0, n) =~= name);
    assert(s[n] == gap[0]);
    assert(Seq::<Seq<char>>::empty().push(name) =~= seq![name]);
    let g = gap.len() as int;
    assert forall|k: int| n + 1 <= k < n + 1 + (g - 1) implies is_ws(#[trigger] s[k]) by {
        assert(s[k] == gap[k - n]);
    }
    lemma_words_gap_run(s, n + 1, g - 1, seq![name]);
    assert(s.skip(n + g) =~= rest.skip(0));
    lemma_words_shift(s, n + g, rest, 0, Seq::empty(), seq![name]);
}

/// Reading on from any state keeps the words already complete in front.
pub proof fn lemma_words_keep_front(s: Seq<char>, i: int, cur: Seq<char>, acc: Seq<Seq<char>>)
    ensures
        words_from(s, i, cur, acc).len() >= acc.len(),
        forall|k: int| 0 <= k < acc.len() ==> #[trigger] words_from(s, i, cur, acc)[k] == acc[k],
    decreases s.len() - i,
{
    if i >= s.len() {
    } else if is_ws(s[i]) {
        let a2 = if cur.len() > 0 { acc.push(cur) } else { acc };
        lemma_words_keep_front(s, i + 1, Seq::empty(), a2);
        assert forall|k: int| 0 <= k < acc.len() implies #[trigger] words_from(s, i, cur, acc)[k] == acc[k] by {
            assert(a2[k] == acc[k]);
            assert(words_from(s, i + 1, Seq::empty(), a2)[k] == a2[k]);
        }
    } else {
        lemma_words_keep_front(s, i + 1, cur.push(s[i]), acc);
        assert forall|k: int| 0 <= k < acc.len() implies #[trigger] words_from(s, i, cur, acc)[k] == acc[k] by {
            assert(words_from(s, i + 1, cur.push(s[i]), acc)[k] == acc[k]);
        }
    }
}

/// After a field name and a whitespace run, the value `d` (free of
/// whitespace, and ended by whitespace or the end of the line) is the
/// second word.
pub proof fn lemma_second_word(name: Seq<char>, gap: Seq<char>, d: Seq<char>, rest: Seq<char>)
    requires
        name.len() > 0,
        no_ws(name),
        gap.len() > 0,
        forall|k: int| 0 <= k < gap.len() ==> is_ws(#[trigger] gap[k]),
        d.len() > 0,
        no_ws(d),
        rest.len() == 0 || is_ws(rest[0]),
    ensures
        words(name + gap + (d + rest)).len() >= 2,
        words(name + gap + (d + rest))[0] == name,
        words(name + gap + (d + rest))[1] == d,
{
    lemma_words_after_gap(name, gap, d + rest);
    let t = d + rest;
    let n = d.len() as int;
    assert forall|k: int| 0 <= k < 0 + n implies !is_ws(#[trigger] t[k]) by {
        assert(t[k] == d[k]);
    }
    lemma_words_word_run(t, 0, n, Seq::empty(), seq![name]);
    assert(Seq::<char>::empty() + t.subrange(0, n) =~= d);
    let a2 = seq![name].push(d);
    if rest.len() == 0 {
        assert(words_from(t, n, d, seq![name]) == a2);
    } else {
        assert(t[n] == rest[0]);
        assert(words_from(t, n, d, seq![name]) == words_from(t, n + 1, Seq::empty(), a2));
        lemma_words_keep_front(t, n + 1, Seq::empty(), a2);
        assert(words_from(t, n + 1, Seq::empty(), a2)[0] == a2[0]);
        assert(words_from(t, n + 1, Seq::empty(), a2)[1] == a2[1]);
    }
}

/// Whether no character of `s` is whitespace.
pub open spec fn no_ws(s: Seq<char>) -> bool {
    forall|k: int| 0 <= k < s.len() ==> !is_ws(#[trigger] s[k])
}

/// A prefix check without whitespace does not depend on the width of the
/// whitespace run after `name`.
pub proof fn lemma_prefix_after_gap(name: Seq<char>, gap1: Seq<char>, gap2: Seq<char>, rest: Seq<char>, p: Seq<char>)
    requires
        no_ws(p),
        gap1.len() > 0,
        forall|k: int| 0 <= k < gap1.len() ==> is_ws(#[trigger] gap1[k]),
        gap2.len() > 0,
        forall|k: int| 0 <= k < gap2.len() ==> is_ws(#[trigger] gap2[k]),
    ensures
        starts_with(name + gap1 + rest, p) == starts_with(name + gap2 + rest, p),
{
    let s1 = name + gap1 + rest;
    let s2 = name + gap2 + rest;
    let n = name.len() as int;
    if p.len() <= n {
        assert(s1.take(p.len() as int) =~= name.take(p.len() as int));
        assert(s2.take(p.len() as int) =~= name.take(p.len() as int));
    } else {
        if starts_with(s1, p) {
            assert(s1.take(p.len() as int)[n] == s1[n]);
            assert(s1[n] == gap1[0]);
            assert(!is_ws(p[n]));
        }
        if starts_with(s2, p) {
            assert(s2.take(p.len() as int)[n] == s2[n]);
            assert(s2[n] == gap2[0]);
            assert(!is_ws(p[n]));
        }
    }
}

/// The views of a vector of character vectors.
pub open spec fn views(v: Seq<Vec<char>>) -> Seq<Seq<char>> {
    v.map_values(|w: Vec<char>| w@)
}

/// Splits `s` into its whitespace-separated words.
pub fn split_words(s: &Vec<char>) -> (r: Vec<Vec<char>>)
    ensures
        views(r@) == words(s@),
{
    let mut acc: Vec<Vec<char>> = Vec::new();
    let mut cur: Vec<char> = Vec::new();
    let mut i: usize = 0;
    proof {
        assert(views(acc@) =~= Seq::<Seq<char>>::empty());
        assert(cur@ =~= Seq::<char>::empty());
    }
    while i < s.len()
        invariant
            i <= s.len(),
            words(s@) == words_from(s@, i as int, cur@, views(acc@)),
        decreases s.len() - i,
    {
        let c = s[i];
        if is_ws_char(c) {
            if cur.len() > 0 {
                let w = cur;
                cur = Vec::new();
                proof {
                    assert(views(acc@.push(w)) =~= views(acc@).push(w@));
                }
                acc.push(w);
            }
            proof {
                assert(cur@ =~= Seq::<char>::empty());
            }
        } else {
            cur.push(c);
        }
        i = i + 1;
    }
    if cur.len() > 0 {
        proof {
            assert(views(acc@.push(cur)) =~= views(acc@).push(cur@));
        }
        acc.push(cur);
    }
    acc
}

/// The non-empty pieces of `s[i..]` between `sep` characters, given the
/// piece `cur` being read and the pieces `acc` already complete.
pub open spec fn pieces_from(s: Seq<char>, sep: char, i: int, cur: Seq<char>, acc: Seq<Seq<char>>) -> Seq<Seq<char>>
    decreases s.len() - i,
{
    if i >= s.len() {
        if cur.len() > 0 { acc.push(cur) } else { acc }
    } else if s[i] == sep {
        pieces_from(s, sep, i + 1, Seq::empty(), if cur.len() > 0 { acc.push(cur) } else { acc })
    } else {
        pieces_from(s, sep, i + 1, cur.push(s[i]), acc)
    }
}

/// The non-empty pieces of `s` between `sep` characters, in order.
pub open spec fn pieces(s: Seq<char>, sep: char) -> Seq<Seq<char>> {
    pieces_from(s, sep, 0, Seq::empty(), Seq::empty())
}

/// Splits `s` at `sep`, dropping empty pieces.
pub fn split_pieces(s: &Vec<char>, sep: char) -> (r: Vec<Vec<char>>)
    ensures
        views(r@) == pieces(s@, sep),
{
    let mut acc: Vec<Vec<char>> = Vec::new();
    let mut cur: Vec<char> = Vec::new();
    let mut i: usize = 0;
    proof {
        assert(views(acc@) =~= Seq::<Seq<char>>::empty());
        assert(cur@ =~= Seq::<char>::empty());
    }
    while i < s.len()
        invariant
            i <= s.len(),
            pieces(s@, sep) == pieces_from(s@, sep, i as int, cur@, views(acc@)),
        decreases s.len() - i,
    {
        let c = s[i];
        if c == sep {
            if cur.len() > 0 {
                let w = cur;
                cur = Vec::new();
                proof {
                    assert(views(acc@.push(w)) =~= views(acc@).push(w@));
                }
                acc.push(w);
            }
            proof {
                assert(cur@ =~= Seq::<char>::empty());
            }
        } else {
            cur.push(c);
        }
        i = i + 1;
    }
    if cur.len() > 0 {
        proof {
            assert(views(acc@.push(cur)) =~= views(acc@).push(cur@));
        }
        acc.push(cur);
    }
    acc
}

/// Lines of `s[i..]` split at `'\n'`, given the line `cur` being read and the
/// lines `acc` already complete; a last line without a terminator counts
/// only if it is not empty.
pub open spec fn lines_from(s: Seq<char>, i: int, cur: Seq<char>, acc: Seq<Seq<char>>) -> Seq<Seq<char>>
    decreases s.len() - i,
{
    if i >= s.len() {
        if cur.len() > 0 { acc.push(cur) } else { acc }
    } else if s[i] == '\n' {
        lines_from(s, i + 1, Seq::empty(), acc.push(cur))
    } else {
        lines_from(s, i + 1, cur.push(s[i]), acc)
    }
}

/// The lines of `s`.
pub open spec fn lines(s: Seq<char>) -> Seq<Seq<char>> {
    lines_from(s, 0, Seq::empty(), Seq::empty())
}

/// Splits `s` into its lines.
pub fn split_lines(s: &Vec<char>) -> (r: Vec<Vec<char>>)
    ensures
        views(r@) == lines(s@),
{
    let mut acc: Vec<Vec<char>> = Vec::new();
    let mut cur: Vec<char> = Vec::new();
    let mut i: usize = 0;
    proof {
        assert(views(acc@) =~= Seq::<Seq<char>>::empty());
        assert(cur@ =~= Seq::<char>::empty());
    }
    while i < s.len()
        invariant
            i <= s.len(),
            lines(s@) == lines_from(s@, i as int, cur@, views(acc@)),
        decreases s.len() - i,
    {
        let c = s[i];
        if c == '\n' {
            let w = cur;
            cur = Vec::new();
            proof {
                assert(views(acc@.push(w)) =~= views(acc@).push(w@));
                assert(cur@ =~= Seq::<char>::empty());
            }
            acc.push(w);
        } else {
            cur.push(c);
        }
        i = i + 1;
    }
    if cur.len() > 0 {
        proof {
            assert(views(acc@.push(cur)) =~= views(acc@).push(cur@));
        }
        acc.push(cur);
    }
    acc
}

proof fn lemma_lines_pieces(s: Seq<char>, i: int, cur: Seq<char>, acc: Seq<Seq<char>>)
    requires
        0 <= i <= s.len(),
        cur.len() <= i,
        cur == s.subrange(i - cur.len(), i),
        forall|k: int| 0 <= k < acc.len() ==> contains_seq(s, #[trigger] acc[k]),
    ensures
        forall|k: int| 0 <= k < lines_from(s, i, cur, acc).len() ==> contains_seq(s, #[trigger] lines_from(s, i, cur, acc)[k]),
    decreases s.len() - i,
{
    assert(s.subrange(i - cur.len(), i - cur.len() + cur.len()) == cur);
    assert(contains_seq(s, cur));
    if i >= s.len() {
        if cur.len() > 0 {
            assert forall|k: int| 0 <= k < acc.push(cur).len() implies contains_seq(s, #[trigger] acc.push(cur)[k]) by {
                if k < acc.len() {
                    assert(acc.push(cur)[k] == acc[k]);
                }
            }
        }
    } else if s[i] == '\n' {
        let a2 = acc.push(cur);
        assert forall|k: int| 0 <= k < a2.len() implies contains_seq(s, #[trigger] a2[k]) by {
            if k < acc.len() {
                assert(a2[k] == acc[k]);
            }
        }
        assert(Seq::<char>::empty() =~= s.subrange(i + 1, i + 1));
        lemma_lines_pieces(s, i + 1, Seq::empty(), a2);
        assert(lines_from(s, i, cur, acc) == lines_from(s, i + 1, Seq::empty(), a2));
    } else {
        assert(cur.push(s[i]) =~= s.subrange(i - cur.len(), i + 1));
        lemma_lines_pieces(s, i + 1, cur.push(s[i]), acc);
        assert(lines_from(s, i, cur, acc) == lines_from(s, i + 1, cur.push(s[i]), acc));
    }
}

/// Every line of `s` is a contiguous piece of `s`.
pub proof fn lemma_lines_in_text(s: Seq<char>)
    ensures
        forall|k: int| 0 <= k < lines(s).len() ==> contains_seq(s, #[trigger] lines(s)[k]),
{
    assert(Seq::<char>::empty() =~= s.subrange(0, 0));
    lemma_lines_pieces(s, 0, Seq::empty(), Seq::empty());
}

/// `a` is a piece of `b` and `b` of `c`: then `a` is a piece of `c`.
pub proof fn lemma_piece_trans(a: Seq<char>, b: Seq<char>, c: Seq<char>)
    requires
        contains_seq(b, a),
        contains_seq(c, b),
    ensures
        contains_seq(c, a),
{
    let i = choose|i: int| 0 <= i && i + a.len() <= b.len() && #[trigger] b.subrange(i, i + a.len()) == a;
    let j = choose|j: int| 0 <= j && j + b.len() <= c.len() && #[trigger] c.subrange(j, j + b.len()) == b;
    assert(c.subrange(j + i, j + i + a.len()) =~= a);
}

/// The trimmed string is a piece of the string.
pub proof fn lemma_trim_piece(s: Seq<char>)
    ensures
        contains_seq(s, trim(s)),
{
    lemma_trim_end_piece(s);
    lemma_trim_start_piece(trim_end(s));
    let e = trim_end(s);
    assert(s.subrange(0, e.len() as int) == e);
    let t = trim_start(e);
    assert(e.subrange(e.len() - t.len(), e.len() as int) == t);
    let i = e.len() - t.len();
    assert(s.subrange(i, i + t.len()) =~= t);
}

proof fn lemma_trim_end_piece(s: Seq<char>)
    ensures
        trim_end(s).len() <= s.len(),
        s.subrange(0, trim_end(s).len() as int) == trim_end(s),
    decreases s.len(),
{
    if s.len() > 0 && is_ws(s.last()) {
        lemma_trim_end_piece(s.drop_last());
        assert(s.subrange(0, trim_end(s).len() as int) =~= s.drop_last().subrange(0, trim_end(s).len() as int));
    } else {
        assert(s.subrange(0, s.len() as int) =~= s);
    }
}

proof fn lemma_trim_start_piece(s: Seq<char>)
    ensures
        trim_start(s).len() <= s.len(),
        s.subrange(s.len() - trim_start(s).len(), s.len() as int) == trim_start(s),
    decreases s.len(),
{
    if s.len() > 0 && is_ws(s[0]) {
        lemma_trim_start_piece(s.drop_first());
        let t = trim_start(s);
        assert(s.subrange(s.len() - t.len(), s.len() as int) =~= s.drop_first().subrange(s.drop_first().len() - t.len(), s.drop_first().len() as int));
    } else {
        assert(s.subrange(0, s.len() as int) =~= s);
    }
}

/// Whether `s` begins with `p`.
pub open spec fn starts_with(s: Seq<char>, p: Seq<char>) -> bool {
    p.len() <= s.len() && s.take(p.len() as int) == p
}

/// Whether the characters `s` begin with `p`.
pub fn has_prefix(s: &Vec<char>, p: &str) -> (r: bool)
    ensures
        r == starts_with(s@, p@),
{
    let pc = chars_of(p);
    if pc.len() > s.len() {
        return false;
    }
    let mut i: usize = 0;
    while i < pc.len()
        invariant
            pc@ == p@,
            pc.len() <= s.len(),
            i <= pc.len(),
            forall|k: int| 0 <= k < i ==> s@[k] == pc@[k],
        decreases pc.len() - i,
    {
        if s[i] != pc[i] {
            proof {
                assert(s@.take(pc.len() as int)[i as int] != pc@[i as int]);
            }
            return false;
        }
        i = i + 1;
    }
    proof {
        assert(s@.take(pc.len() as int) =~= pc@);
    }
    true
}


/// Whether `s` ends with `p`.
pub open spec fn ends_with(s: Seq<char>, p: Seq<char>) -> bool {
    p.len() <= s.len() && s.skip(s.len() - p.len()) == p
}

/// Whether the characters `s` end with `p`.
pub fn has_suffix(s: &Vec<char>, p: &str) -> (r: bool)
    ensures
        r == ends_with(s@, p@),
{
    let pc = chars_of(p);
    if pc.len() > s.len() {
        return false;
    }
    let off = s.len() - pc.len();
    let mut i: usize = 0;
    while i < pc.len()
        invariant
            pc@ == p@,
            off + pc.len() == s.len(),
            i <= pc.len(),
            forall|k: int| 0 <= k < i ==> s@[off + k] == pc@[k],
        decreases pc.len() - i,
    {
        if s[off + i] != pc[i] {
            proof {
                assert(s@.skip(off as int)[i as int] != pc@[i as int]);
            }
            return false;
        }
        i = i + 1;
    }
    proof {
        assert(s@.skip(off as int) =~= pc@);
    }
    true
}

/// Whether `p` occurs in `s` as a contiguous piece.
pub open spec fn contains_seq(s: Seq<char>, p: Seq<char>) -> bool {
    exists|i: int| 0 <= i && i + p.len() <= s.len() && #[trigger] s.subrange(i, i + p.len()) == p
}

/// Whether `p` occurs in the characters `s`.
pub fn has_infix(s: &Vec<char>, p: &str) -> (r: bool)
    ensures
        r == contains_seq(s@, p@),
{
    let pc = chars_of(p);
    if pc.len() > s.len() {
        return false;
    }
    let last = s.len() - pc.len();
    let mut i: usize = 0;
    while i <= last
        invariant
            pc@ == p@,
            pc.len() <= s.len(),
            last == s.len() - pc.len(),
            i <= last + 1,
            forall|k: int| 0 <= k < i ==> #[trigger] s@.subrange(k, k + pc.len()) != pc@,
        decreases last + 1 - i,
    {
        let mut j: usize = 0;
        let mut ok = true;
        while j < pc.len()
            invariant
                pc.len() <= s.len(),
                i + pc.len() <= s.len(),
                j <= pc.len(),
                ok == (forall|k: int| 0 <= k < j ==> s@[i + k] == pc@[k]),
            decreases pc.len() - j,
        {
            if s[i + j] != pc[j] {
                ok = false;
            }
            j = j + 1;
        }
        if ok {
            proof {
                assert(s@.subrange(i as int, i + pc.len()) =~= pc@);
            }
            return true;
        }
        proof {
            let k0 = choose|k: int| 0 <= k < pc.len() && s@[i + k] != pc@[k];
            assert(s@.subrange(i as int, i + pc.len())[k0] != pc@[k0]);
        }
        i = i + 1;
    }
    proof {
        assert forall|k: int| 0 <= k && k + p@.len() <= s@.len() implies #[trigger] s@.subrange(k, k + p@.len()) != p@ by {
            assert(k < i);
        }
    }
    false
}

/// `s` without a trailing run of whitespace.
pub open spec fn trim_end(s: Seq<char>) -> Seq<char>
    decreases s.len(),
{
    if s.len() > 0 && is_ws(s.last()) {
        trim_end(s.drop_last())
    } else {
        s
    }
}

/// `s` without a leading run of whitespace.
pub open spec fn trim_start(s: Seq<char>) -> Seq<char>
    decreases s.len(),
{
    if s.len() > 0 && is_ws(s[0]) {
        trim_start(s.drop_first())
    } else {
        s
    }
}

/// `s` without leading and trailing whitespace.
pub open spec fn trim(s: Seq<char>) -> Seq<char> {
    trim_start(trim_end(s))
}

/// The characters of `s[lo..hi]`.
pub fn copy_range(s: &Vec<char>, lo: usize, hi: usize) -> (r: Vec<char>)
    requires
        lo <= hi <= s.len(),
    ensures
        r@ == s@.subrange(lo as int, hi as int),
{
    let mut out: Vec<char> = Vec::new();
    let mut i: usize = lo;
    while i < hi
        invariant
            lo <= i <= hi <= s.len(),
            out@ == s@.subrange(lo as int, i as int),
        decreases hi - i,
    {
        out.push(s[i]);
        i = i + 1;
        proof {
            assert(out@ =~= s@.subrange(lo as int, i as int));
        }
    }
    out
}

/// The characters `s` without leading and trailing whitespace.
pub fn trim_chars(s: &Vec<char>) -> (r: Vec<char>)
    ensures
        r@ == trim(s@),
{
    let mut hi: usize = s.len();
    proof {
        assert(s@.take(hi as int) =~= s@);
    }
    while hi > 0 && is_ws_char(s[hi - 1])
        invariant
            hi <= s.len(),
            trim_end(s@) == trim_end(s@.take(hi as int)),
        decreases hi,
    {
        proof {
            assert(s@.take(hi as int).drop_last() =~= s@.take(hi - 1));
        }
        hi = hi - 1;
    }
    let mut lo: usize = 0;
    proof {
        assert(s@.subrange(0, hi as int) =~= s@.take(hi as int));
    }
    while lo < hi && is_ws_char(s[lo])
        invariant
            lo <= hi <= s.len(),
            trim_end(s@) == s@.take(hi as int),
            trim(s@) == trim_start(s@.subrange(lo as int, hi as int)),
        decreases hi - lo,
    {
        proof {
            assert(s@.subrange(lo as int, hi as int).drop_first() =~= s@.subrange(lo + 1, hi as int));
        }
        lo = lo + 1;
    }
    copy_range(s, lo, hi)
}

/// The part of `s` before the first `c`, or all of `s` if it holds none.
pub open spec fn before_first(s: Seq<char>, c: char) -> Seq<char>
    decreases s.len(),
{
    if s.len() == 0 {
        s
    } else if s[0] == c {
        Seq::empty()
    } else {
        seq![s[0]] + before_first(s.drop_first(), c)
    }
}

/// The part before the first `c` is a prefix free of `c`, followed by a `c`
/// unless it is all of `s`.
pub proof fn lemma_before_first(s: Seq<char>, c: char)
    ensures
        before_first(s, c).len() <= s.len(),
        before_first(s, c) == s.take(before_first(s, c).len() as int),
        before_first(s, c).len() < s.len() ==> s[before_first(s, c).len() as int] == c,
        forall|k: int| 0 <= k < before_first(s, c).len() ==> s[k] != c,
        before_first(s, c).len() < s.len() <==> s.contains(c),
    decreases s.len(),
{
    if s.len() > 0 && s[0] != c {
        let t = s.drop_first();
        lemma_before_first(t, c);
        let b = before_first(s, c);
        assert(b == seq![s[0]] + before_first(t, c));
        assert(b =~= s.take(b.len() as int));
        assert forall|k: int| 0 <= k < b.len() implies s[k] != c by {
            if k > 0 {
                assert(s[k] == t[k - 1]);
            }
        }
        if s.contains(c) {
            let k = choose|k: int| 0 <= k < s.len() && s[k] == c;
            assert(t[k - 1] == c);
            assert(t.contains(c));
        }
        if t.contains(c) {
            let k = choose|k: int| 0 <= k < t.len() && t[k] == c;
            assert(s[k + 1] == c);
        }
    } else if s.len() > 0 {
        assert(s.take(0) =~= Seq::<char>::empty());
        assert(s[0] == c);
    } else {
        assert(s.take(0) =~= s);
    }
}

/// The part of `s` after its first `c`; empty if it holds none.
pub open spec fn after_first(s: Seq<char>, c: char) -> Seq<char> {
    let b = before_first(s, c);
    if b.len() < s.len() {
        s.skip(b.len() as int + 1)
    } else {
        Seq::empty()
    }
}

/// The characters of `s` after its first `c`.
pub fn suffix_after(s: &Vec<char>, c: char) -> (r: Vec<char>)
    ensures
        r@ == after_first(s@, c),
{
    let b = prefix_before(s, c);
    proof {
        lemma_before_first(s@, c);
    }
    if b.len() < s.len() {
        let r = copy_range(s, b.len() + 1, s.len());
        proof {
            assert(r@ =~= s@.skip(b.len() + 1));
        }
        r
    } else {
        Vec::new()
    }
}

/// Whether `s` holds `c`.
pub fn contains_char(s: &Vec<char>, c: char) -> (r: bool)
    ensures
        r == s@.contains(c),
{
    let b = prefix_before(s, c);
    proof {
        lemma_before_first(s@, c);
    }
    b.len() < s.len()
}

/// The characters of `s` before its first `c`.
pub fn prefix_before(s: &Vec<char>, c: char) -> (r: Vec<char>)
    ensures
        r@ == before_first(s@, c),
{
    let mut out: Vec<char> = Vec::new();
    let mut i: usize = 0;
    proof {
        assert(s@.skip(0) =~= s@);
        assert(out@ + before_first(s@, c) =~= before_first(s@, c));
    }
    while i < s.len() && s[i] != c
        invariant
            i <= s.len(),
            before_first(s@, c) == out@ + before_first(s@.skip(i as int), c),
        decreases s.len() - i,
    {
        proof {
            assert(s@.skip(i as int).drop_first() =~= s@.skip(i + 1));
            assert(out@.push(s@[i as int]) + before_first(s@.skip(i + 1), c) =~= out@ + (seq![s@[i as int]] + before_first(s@.skip(i + 1), c)));
        }
        out.push(s[i]);
        i = i + 1;
    }
    proof {
        assert(out@ + before_first(s@.skip(i as int), c) =~= out@);
    }
    out
}

/// The index of the last `c` in `s`, or -1 if it holds none.
pub open spec fn last_index_of(s: Seq<char>, c: char) -> int
    decreases s.len(),
{
    if s.len() == 0 {
        -1
    } else if s.last() == c {
        s.len() - 1
    } else {
        last_index_of(s.drop_last(), c)
    }
}

pub proof fn lemma_last_index_bounds(s: Seq<char>, c: char)
    ensures
        -1 <= last_index_of(s, c) < s.len(),
        last_index_of(s, c) >= 0 ==> s[last_index_of(s, c)] == c,
    decreases s.len(),
{
    if s.len() > 0 && s.last() != c {
        lemma_last_index_bounds(s.drop_last(), c);
    }
}

/// The index of the last `c` in `s`.
/// Appending text free of `c` leaves the last `c` where it was.
pub proof fn lemma_last_index_append(s: Seq<char>, t: Seq<char>, c: char)
    requires
        !t.contains(c),
    ensures
        last_index_of(s + t, c) == last_index_of(s, c),
    decreases t.len(),
{
    if t.len() > 0 {
        assert((s + t).last() == t.last());
        assert((s + t).drop_last() =~= s + t.drop_last());
        assert(!t.drop_last().contains(c)) by {
            if t.drop_last().contains(c) {
                let k = choose|k: int| 0 <= k < t.drop_last().len() && t.drop_last()[k] == c;
                assert(t[k] == c);
            }
        }
        lemma_last_index_append(s, t.drop_last(), c);
    } else {
        assert(s + t =~= s);
    }
}

pub fn rfind_char(s: &Vec<char>, c: char) -> (r: Option<usize>)
    ensures
        match r {
            Some(i) => i == last_index_of(s@, c) && i < s.len(),
            None => last_index_of(s@, c) == -1,
        },
{
    proof {
        lemma_last_index_bounds(s@, c);
    }
    let mut n: usize = s.len();
    proof {
        assert(s@.take(n as int) =~= s@);
    }
    while n > 0
        invariant
            n <= s.len(),
            last_index_of(s@, c) == last_index_of(s@.take(n as int), c),
        decreases n,
    {
        if s[n - 1] == c {
            return Some(n - 1);
        }
        proof {
            assert(s@.take(n as int).drop_last() =~= s@.take(n - 1));
        }
        n = n - 1;
    }
    None
}

} // verus!
