//! Tmux session bookkeeping: the base sessions that clients share, the per-client grouped
//! sessions (whose names carry a marker), and the snapshot that survives a reboot.
use vstd::prelude::*;

use crate::text::{
    chars_eq, chars_of, contains_chars, contains_seq, decimal_digits, lines_of, push_decimal, seqs_of, split_lines,
    string_from_chars, trim, trim_chars,
};

verus! {

/// A base session as saved for a restore: its name and its working directory.
#[derive(Debug, PartialEq, Eq)]
pub struct SavedSession {
    pub name: String,
    pub cwd: String,
}

/// The snapshot of all base sessions.
#[derive(Debug, PartialEq, Eq)]
pub struct SavedState {
    pub sessions: Vec<SavedSession>,
}

/// The text that marks a per-client session name.
pub open spec fn client_marker() -> Seq<char> {
    "_client_"@
}

/// The session is a per-client session, not a base session.
pub open spec fn is_client_session(name: Seq<char>) -> bool {
    contains_seq(name, client_marker())
}

/// The name of the per-client session `id` grouped to base session `base`.
pub open spec fn client_session_name_of(base: Seq<char>, id: nat) -> Seq<char> {
    base + client_marker() + decimal_digits(id)
}

/// The base sessions named in the lines of a `tmux list-sessions` listing: each line trimmed,
/// empty lines and per-client sessions left out.
pub open spec fn base_sessions(lines: Seq<Seq<char>>) -> Seq<Seq<char>>
    decreases lines.len(),
{
    if lines.len() == 0 {
        Seq::empty()
    } else {
        let prev = base_sessions(lines.drop_last());
        let name = trim(lines.last());
        if name.len() > 0 && !is_client_session(name) {
            prev.push(name)
        } else {
            prev
        }
    }
}

/// All session names of a `tmux list-sessions` listing, per-client sessions included: each line
/// trimmed, empty lines left out.
pub open spec fn all_sessions(lines: Seq<Seq<char>>) -> Seq<Seq<char>>
    decreases lines.len(),
{
    if lines.len() == 0 {
        Seq::empty()
    } else {
        let prev = all_sessions(lines.drop_last());
        let name = trim(lines.last());
        if name.len() > 0 {
            prev.push(name)
        } else {
            prev
        }
    }
}

/// The line has a space at position `i`, and none before it.
pub open spec fn is_first_space(line: Seq<char>, i: int) -> bool {
    0 <= i < line.len() && line[i] == ' ' && forall|j: int| 0 <= j < i ==> line[j] != ' '
}

/// The line split at its first space: the part before it and the part after it, as
/// `splitn(2, ' ')` gives them; `None` when the line has no space.
pub open spec fn split_first_space(line: Seq<char>) -> Option<(Seq<char>, Seq<char>)> {
    if exists|i: int| is_first_space(line, i) {
        let i = choose|i: int| is_first_space(line, i);
        Some((line.subrange(0, i), line.subrange(i + 1, line.len() as int)))
    } else {
        None
    }
}

/// Some saved session has this name.
pub open spec fn name_saved(saved: Seq<(Seq<char>, Seq<char>)>, name: Seq<char>) -> bool {
    exists|k: int| 0 <= k < saved.len() && (#[trigger] saved[k]).0 == name
}

/// The base sessions of the lines of a `tmux list-panes -a` listing, each line holding a
/// session name, a space and a working directory: lines without a space and per-client
/// sessions are left out, and a session keeps the directory of its first pane.
pub open spec fn saved_from_lines(lines: Seq<Seq<char>>) -> Seq<(Seq<char>, Seq<char>)>
    decreases lines.len(),
{
    if lines.len() == 0 {
        Seq::empty()
    } else {
        let prev = saved_from_lines(lines.drop_last());
        match split_first_space(lines.last()) {
            Some((name, cwd)) => if !is_client_session(name) && !name_saved(prev, name) {
                prev.push((name, cwd))
            } else {
                prev
            },
            None => prev,
        }
    }
}

/// The character sequences of a vector of strings.
pub open spec fn string_views(v: Seq<String>) -> Seq<Seq<char>> {
    v.map_values(|s: String| s@)
}

/// The (name, directory) pairs of a vector of saved sessions.
pub open spec fn saved_views(v: Seq<SavedSession>) -> Seq<(Seq<char>, Seq<char>)> {
    v.map_values(|s: SavedSession| (s.name@, s.cwd@))
}

/// Whether the session name is that of a per-client session.
pub fn is_client_session_name(name: &str) -> (r: bool)
    ensures
        r == is_client_session(name@),
{
    let marker = chars_of("_client_");
    let v = chars_of(name);
    contains_chars(&v, &marker)
}

/// The name of the per-client session `id` grouped to base session `base`.
pub fn client_session_name(base: &str, id: u64) -> (name: String)
    ensures
        name@ == client_session_name_of(base@, id as nat),
{
    let mut v = chars_of(base);
    let marker = chars_of("_client_");
    let mut k: usize = 0;
    let ghost start = v@;
    while k < marker.len()
        invariant
            k <= marker@.len(),
            marker@ == client_marker(),
            v@ == start + marker@.take(k as int),
        decreases marker.len() - k,
    {
        v.push(marker[k]);
        k = k + 1;
        assert(v@ =~= start + marker@.take(k as int));
    }
    assert(marker@.take(marker@.len() as int) =~= marker@);
    push_decimal(&mut v, id);
    assert(v@ =~= base@ + client_marker() + decimal_digits(id as nat));
    string_from_chars(&v)
}

/// The base sessions named in a `tmux list-sessions -F '#{session_name}'` listing.
pub fn parse_session_list(output: &str) -> (names: Vec<String>)
    ensures
        string_views(names@) == base_sessions(lines_of(output@)),
{
    let text = chars_of(output);
    let lines = split_lines(&text);
    let marker = chars_of("_client_");
    let mut names: Vec<String> = Vec::new();
    let mut i: usize = 0;
    while i < lines.len()
        invariant
            i <= lines@.len(),
            marker@ == client_marker(),
            seqs_of(lines@) == lines_of(output@),
            string_views(names@) == base_sessions(seqs_of(lines@).take(i as int)),
        decreases lines.len() - i,
    {
        let name = trim_chars(&lines[i]);
        proof {
            let ls = seqs_of(lines@);
            assert(ls.take(i + 1).drop_last() =~= ls.take(i as int));
            assert(ls.take(i + 1).last() == lines@[i as int]@);
        }
        let ghost before = names@;
        if name.len() > 0 && !contains_chars(&name, &marker) {
            let s = string_from_chars(&name);
            names.push(s);
            assert(string_views(names@) =~= string_views(before).push(name@));
        }
        i = i + 1;
    }
    assert(seqs_of(lines@).take(lines@.len() as int) =~= seqs_of(lines@));
    names
}

/// Every session named in a `tmux list-sessions -F '#{session_name}'` listing, per-client
/// sessions included.
pub fn parse_all_session_names(output: &str) -> (names: Vec<String>)
    ensures
        string_views(names@) == all_sessions(lines_of(output@)),
{
    let text = chars_of(output);
    let lines = split_lines(&text);
    let mut names: Vec<String> = Vec::new();
    let mut i: usize = 0;
    while i < lines.len()
        invariant
            i <= lines@.len(),
            seqs_of(lines@) == lines_of(output@),
            string_views(names@) == all_sessions(seqs_of(lines@).take(i as int)),
        decreases lines.len() - i,
    {
        let name = trim_chars(&lines[i]);
        proof {
            let ls = seqs_of(lines@);
            assert(ls.take(i + 1).drop_last() =~= ls.take(i as int));
            assert(ls.take(i + 1).last() == lines@[i as int]@);
        }
        let ghost before = names@;
        if name.len() > 0 {
            let s = string_from_chars(&name);
            names.push(s);
            assert(string_views(names@) =~= string_views(before).push(name@));
        }
        i = i + 1;
    }
    assert(seqs_of(lines@).take(lines@.len() as int) =~= seqs_of(lines@));
    names
}

/// The characters of each of `names`.
pub fn name_chars(names: &Vec<String>) -> (r: Vec<Vec<char>>)
    ensures
        seqs_of(r@) == string_views(names@),
{
    let mut r: Vec<Vec<char>> = Vec::new();
    let mut i: usize = 0;
    while i < names.len()
        invariant
            i <= names@.len(),
            seqs_of(r@) == string_views(names@.take(i as int)),
        decreases names.len() - i,
    {
        let ghost before = r@;
        r.push(chars_of(names[i].as_str()));
        assert(names@.take(i + 1) =~= names@.take(i as int).push(names@[i as int]));
        assert(seqs_of(r@) =~= seqs_of(before).push(names@[i as int]@));
        i = i + 1;
    }
    assert(names@.take(names@.len() as int) =~= names@);
    r
}

/// Whether `name` is one of `names`.
pub fn chars_listed(names: &Vec<Vec<char>>, name: &Vec<char>) -> (r: bool)
    ensures
        r == seqs_of(names@).contains(name@),
{
    let mut i: usize = 0;
    while i < names.len()
        invariant
            i <= names@.len(),
            forall|j: int| 0 <= j < i ==> names@[j]@ != name@,
        decreases names.len() - i,
    {
        if chars_eq(&names[i], name) {
            assert(seqs_of(names@)[i as int] == name@);
            return true;
        }
        i = i + 1;
    }
    assert forall|j: int| 0 <= j < seqs_of(names@).len() implies seqs_of(names@)[j] != name@ by {
        assert(seqs_of(names@)[j] == names@[j]@);
    }
    false
}

/// Whether `name` is one of `names`.
pub fn name_listed(names: &Vec<String>, name: &String) -> (r: bool)
    ensures
        r == string_views(names@).contains(name@),
{
    chars_listed(&name_chars(names), &chars_of(name.as_str()))
}

/// The position of the first space of `line`, if it has one.
fn first_space(line: &Vec<char>) -> (r: Option<usize>)
    ensures
        match r {
            Some(i) => is_first_space(line@, i as int),
            None => !exists|i: int| is_first_space(line@, i),
        },
{
    let mut i: usize = 0;
    while i < line.len()
        invariant
            i <= line@.len(),
            forall|j: int| 0 <= j < i ==> line@[j] != ' ',
        decreases line.len() - i,
    {
        if line[i] == ' ' {
            return Some(i);
        }
        i = i + 1;
    }
    None
}

/// The characters of `v` from `from` up to `to`.
fn sub_chars(v: &Vec<char>, from: usize, to: usize) -> (r: Vec<char>)
    requires
        from <= to <= v@.len(),
    ensures
        r@ == v@.subrange(from as int, to as int),
{
    let mut r: Vec<char> = Vec::new();
    let mut k: usize = from;
    while k < to
        invariant
            from <= k <= to <= v@.len(),
            r@ == v@.subrange(from as int, k as int),
        decreases to - k,
    {
        r.push(v[k]);
        k = k + 1;
        assert(r@ =~= v@.subrange(from as int, k as int));
    }
    r
}

/// The line split at its first space (see `split_first_space`).
pub fn split_at_first_space(line: &Vec<char>) -> (r: Option<(Vec<char>, Vec<char>)>)
    ensures
        match r {
            Some((a, b)) => split_first_space(line@) == Some((a@, b@)),
            None => split_first_space(line@) is None,
        },
{
    match first_space(line) {
        Some(i) => {
            proof {
                let c = choose|j: int| is_first_space(line@, j);
                assert(is_first_space(line@, c));
                if c < i {
                    assert(line@[c] != ' ');
                } else if c > i {
                    assert(line@[i as int] != ' ');
                }
            }
            let n = line.len();
            assert(i < n);
            let a = sub_chars(line, 0, i);
            let b = sub_chars(line, i + 1, n);
            Some((a, b))
        },
        None => None,
    }
}

/// Whether some saved session has this name.
fn saved_has_name(saved: &Vec<SavedSession>, name: &String) -> (r: bool)
    ensures
        r == name_saved(saved_views(saved@), name@),
{
    let mut k: usize = 0;
    while k < saved.len()
        invariant
            k <= saved@.len(),
            forall|j: int| 0 <= j < k ==> saved@[j].name@ != name@,
        decreases saved.len() - k,
    {
        if saved[k].name == *name {
            assert(saved_views(saved@)[k as int].0 == name@);
            return true;
        }
        k = k + 1;
    }
    proof {
        if name_saved(saved_views(saved@), name@) {
            let j = choose|j: int|
                0 <= j < saved_views(saved@).len() && (#[trigger] saved_views(saved@)[j]).0 == name@;
            assert(saved@[j].name@ == name@);
        }
    }
    false
}

/// The base sessions of a `tmux list-panes -a -F '#{session_name} #{pane_current_path}'`
/// listing, each with the directory of its first pane.
pub fn parse_pane_list(output: &str) -> (saved: Vec<SavedSession>)
    ensures
        saved_views(saved@) == saved_from_lines(lines_of(output@)),
{
    let text = chars_of(output);
    let lines = split_lines(&text);
    let marker = chars_of("_client_");
    let mut saved: Vec<SavedSession> = Vec::new();
    let mut i: usize = 0;
    while i < lines.len()
        invariant
            i <= lines@.len(),
            marker@ == client_marker(),
            seqs_of(lines@) == lines_of(output@),
            saved_views(saved@) == saved_from_lines(seqs_of(lines@).take(i as int)),
        decreases lines.len() - i,
    {
        proof {
            let ls = seqs_of(lines@);
            assert(ls.take(i + 1).drop_last() =~= ls.take(i as int));
            assert(ls.take(i + 1).last() == lines@[i as int]@);
        }
        let ghost before = saved@;
        match split_at_first_space(&lines[i]) {
            Some((name, cwd)) => {
                if !contains_chars(&name, &marker) {
                    let name_s = string_from_chars(&name);
                    if !saved_has_name(&saved, &name_s) {
                        let cwd_s = string_from_chars(&cwd);
                        saved.push(SavedSession { name: name_s, cwd: cwd_s });
                        assert(saved_views(saved@) =~= saved_views(before).push((name@, cwd@)));
                    }
                }
            },
            None => {},
        }
        i = i + 1;
    }
    assert(seqs_of(lines@).take(lines@.len() as int) =~= seqs_of(lines@));
    saved
}

/// The names of the saved sessions, in order.
pub fn saved_session_names(saved: &Vec<SavedSession>) -> (names: Vec<String>)
    ensures
        string_views(names@) == saved_views(saved@).map_values(|p: (Seq<char>, Seq<char>)| p.0),
{
    let mut names: Vec<String> = Vec::new();
    let mut k: usize = 0;
    while k < saved.len()
        invariant
            k <= saved@.len(),
            string_views(names@) == saved_views(saved@).take(k as int).map_values(
                |p: (Seq<char>, Seq<char>)| p.0,
            ),
        decreases saved.len() - k,
    {
        let n = saved[k].name.clone();
        let ghost before = names@;
        names.push(n);
        proof {
            assert(string_views(names@) =~= string_views(before).push(saved@[k as int].name@));
            assert(saved_views(saved@).take(k + 1) =~= saved_views(saved@).take(k as int).push(
                saved_views(saved@)[k as int],
            ));
        }
        k = k + 1;
        assert(string_views(names@) =~= saved_views(saved@).take(k as int).map_values(
            |p: (Seq<char>, Seq<char>)| p.0,
        ));
    }
    assert(saved_views(saved@).take(saved@.len() as int) =~= saved_views(saved@));
    names
}

} // verus!

verus! {

/// Every per-client session name carries the marker that listings filter out.
pub proof fn law_client_names_marked(base: Seq<char>, id: nat)
    ensures
        is_client_session(client_session_name_of(base, id)),
{
    let name = client_session_name_of(base, id);
    let m = client_marker();
    assert(name.subrange(base.len() as int, (base.len() + m.len()) as int) =~= m);
    assert(crate::text::occurs_at(name, m, base.len() as int));
}

/// A session listing holds only non-empty, trimmed base session names; in particular, no
/// per-client session is ever offered to a client as a base session.
pub proof fn law_listing_holds_base_sessions(lines: Seq<Seq<char>>, base: Seq<char>, id: nat)
    ensures
        forall|k: int|
            0 <= k < base_sessions(lines).len() ==> {
                let n = #[trigger] base_sessions(lines)[k];
                n.len() > 0 && !is_client_session(n) && exists|l: Seq<char>| n == trim(l)
            },
        !base_sessions(lines).contains(client_session_name_of(base, id)),
    decreases lines.len(),
{
    law_client_names_marked(base, id);
    if lines.len() > 0 {
        law_listing_holds_base_sessions(lines.drop_last(), base, id);
        let prev = base_sessions(lines.drop_last());
        let r = base_sessions(lines);
        assert forall|k: int| 0 <= k < r.len() implies {
            let n = #[trigger] r[k];
            n.len() > 0 && !is_client_session(n) && exists|l: Seq<char>| n == trim(l)
        } by {
            if k < prev.len() {
                assert(r[k] == prev[k]);
            } else {
                assert(r[k] == trim(lines.last()));
            }
        }
        if r.contains(client_session_name_of(base, id)) {
            let k = choose|k: int| 0 <= k < r.len() && r[k] == client_session_name_of(base, id);
            assert(!is_client_session(r[k]));
        }
    }
}

/// The base sessions of a listing are exactly its lines, trimmed, that are not empty and name
/// no per-client session, in the order of the listing: each such line is listed, and nothing
/// else is.
pub proof fn law_base_sessions_are_kept_lines(lines: Seq<Seq<char>>)
    ensures
        base_sessions(lines) == lines.map_values(|l: Seq<char>| trim(l)).filter(
            |n: Seq<char>| n.len() > 0 && !is_client_session(n),
        ),
        forall|k: int|
            0 <= k < lines.len() && trim(lines[k]).len() > 0 && !is_client_session(trim(lines[k]))
                ==> #[trigger] base_sessions(lines).contains(trim(lines[k])),
    decreases lines.len(),
{
    let pred = |n: Seq<char>| n.len() > 0 && !is_client_session(n);
    let t = lines.map_values(|l: Seq<char>| trim(l));
    if lines.len() > 0 {
        law_base_sessions_are_kept_lines(lines.drop_last());
        assert(t.drop_last() =~= lines.drop_last().map_values(|l: Seq<char>| trim(l)));
        reveal_with_fuel(Seq::filter, 1);
        assert(t.filter(pred) == (if pred(t.last()) {
            t.drop_last().filter(pred).push(t.last())
        } else {
            t.drop_last().filter(pred)
        }));
        let prev = base_sessions(lines.drop_last());
        let r = base_sessions(lines);
        assert forall|k: int|
            0 <= k < lines.len() && trim(lines[k]).len() > 0 && !is_client_session(trim(lines[k]))
                implies #[trigger] r.contains(trim(lines[k])) by {
            if k < lines.len() - 1 {
                assert(lines.drop_last()[k] == lines[k]);
                assert(prev.contains(trim(lines[k])));
                let j = choose|j: int| 0 <= j < prev.len() && prev[j] == trim(lines[k]);
                assert(r[j] == prev[j]);
            } else {
                assert(r[r.len() - 1] == trim(lines.last()));
            }
        }
    } else {
        reveal_with_fuel(Seq::filter, 1);
        assert(t.filter(pred) =~= Seq::<Seq<char>>::empty());
    }
}

/// The session names of a listing are exactly its lines, trimmed, that are not empty, in the
/// order of the listing.
pub proof fn law_all_sessions_are_kept_lines(lines: Seq<Seq<char>>)
    ensures
        all_sessions(lines) == lines.map_values(|l: Seq<char>| trim(l)).filter(
            |n: Seq<char>| n.len() > 0,
        ),
        forall|k: int|
            0 <= k < lines.len() && trim(lines[k]).len() > 0 ==> #[trigger] all_sessions(
                lines,
            ).contains(trim(lines[k])),
    decreases lines.len(),
{
    let pred = |n: Seq<char>| n.len() > 0;
    let t = lines.map_values(|l: Seq<char>| trim(l));
    if lines.len() > 0 {
        law_all_sessions_are_kept_lines(lines.drop_last());
        assert(t.drop_last() =~= lines.drop_last().map_values(|l: Seq<char>| trim(l)));
        reveal_with_fuel(Seq::filter, 1);
        assert(t.filter(pred) == (if pred(t.last()) {
            t.drop_last().filter(pred).push(t.last())
        } else {
            t.drop_last().filter(pred)
        }));
        let prev = all_sessions(lines.drop_last());
        let r = all_sessions(lines);
        assert forall|k: int| 0 <= k < lines.len() && trim(lines[k]).len() > 0 implies #[trigger] r.contains(
            trim(lines[k]),
        ) by {
            if k < lines.len() - 1 {
                assert(lines.drop_last()[k] == lines[k]);
                assert(prev.contains(trim(lines[k])));
                let j = choose|j: int| 0 <= j < prev.len() && prev[j] == trim(lines[k]);
                assert(r[j] == prev[j]);
            } else {
                assert(r[r.len() - 1] == trim(lines.last()));
            }
        }
    } else {
        reveal_with_fuel(Seq::filter, 1);
        assert(t.filter(pred) =~= Seq::<Seq<char>>::empty());
    }
}

/// Line `k` of a pane listing is a pane of the session named `name`.
pub open spec fn line_names(lines: Seq<Seq<char>>, k: int, name: Seq<char>) -> bool {
    split_first_space(lines[k]) matches Some(x) && x.0 == name
}

proof fn lemma_saved_names_from_lines(lines: Seq<Seq<char>>, name: Seq<char>)
    requires
        name_saved(saved_from_lines(lines), name),
    ensures
        exists|k: int| 0 <= k < lines.len() && #[trigger] line_names(lines, k, name),
    decreases lines.len(),
{
    let prev = saved_from_lines(lines.drop_last());
    let r = saved_from_lines(lines);
    let m = choose|m: int| 0 <= m < r.len() && (#[trigger] r[m]).0 == name;
    if m < prev.len() {
        assert(r[m] == prev[m]);
        assert(name_saved(prev, name));
        lemma_saved_names_from_lines(lines.drop_last(), name);
        let k = choose|k: int| 0 <= k < lines.len() - 1 && #[trigger] line_names(lines.drop_last(), k, name);
        assert(lines.drop_last()[k] == lines[k]);
        assert(line_names(lines, k, name));
    } else {
        assert(line_names(lines, lines.len() - 1, name));
    }
}

/// Every base session of a pane listing is saved, with the directory of its first pane: a
/// line `name dir` whose name is no per-client session, and with no earlier pane of that
/// session, puts `(name, dir)` in the snapshot.
pub proof fn law_snapshot_keeps_first_panes(lines: Seq<Seq<char>>, k: int)
    requires
        0 <= k < lines.len(),
        split_first_space(lines[k]) is Some,
        !is_client_session((split_first_space(lines[k])->0).0),
        forall|j: int| 0 <= j < k ==> !#[trigger] line_names(lines, j, (split_first_space(lines[k])->0).0),
    ensures
        saved_from_lines(lines).contains(split_first_space(lines[k])->0),
    decreases lines.len(),
{
    let x = split_first_space(lines[k])->0;
    let prev = saved_from_lines(lines.drop_last());
    let r = saved_from_lines(lines);
    if k < lines.len() - 1 {
        assert(lines.drop_last()[k] == lines[k]);
        assert forall|j: int| 0 <= j < k implies !#[trigger] line_names(lines.drop_last(), j, x.0) by {
            assert(lines.drop_last()[j] == lines[j]);
            assert(!line_names(lines, j, x.0));
        }
        law_snapshot_keeps_first_panes(lines.drop_last(), k);
        let m = choose|m: int| 0 <= m < prev.len() && prev[m] == x;
        assert(r[m] == prev[m]);
    } else {
        if name_saved(prev, x.0) {
            lemma_saved_names_from_lines(lines.drop_last(), x.0);
            let j = choose|j: int| 0 <= j < lines.len() - 1 && #[trigger] line_names(lines.drop_last(), j, x.0);
            assert(lines.drop_last()[j] == lines[j]);
            assert(line_names(lines, j, x.0));
        }
        assert(r[r.len() - 1] == x);
    }
}

/// A snapshot names each base session once, and never a per-client session.
pub proof fn law_snapshot_names_distinct(lines: Seq<Seq<char>>)
    ensures
        forall|a: int, b: int|
            0 <= a < b < saved_from_lines(lines).len() ==> (#[trigger] saved_from_lines(lines)[a]).0
                != (#[trigger] saved_from_lines(lines)[b]).0,
        forall|k: int|
            0 <= k < saved_from_lines(lines).len() ==> !is_client_session(
                (#[trigger] saved_from_lines(lines)[k]).0,
            ),
    decreases lines.len(),
{
    if lines.len() > 0 {
        law_snapshot_names_distinct(lines.drop_last());
        let prev = saved_from_lines(lines.drop_last());
        let r = saved_from_lines(lines);
        if r.len() > prev.len() {
            assert(r =~= prev.push(r.last()));
            assert forall|a: int, b: int| 0 <= a < b < r.len() implies (#[trigger] r[a]).0 != (
            #[trigger] r[b]).0 by {
                if b == r.len() - 1 {
                    assert(r[a] == prev[a]);
                    assert(!name_saved(prev, r.last().0));
                    if r[a].0 == r[b].0 {
                        assert(prev[a].0 == r.last().0);
                    }
                } else {
                    assert(r[a] == prev[a]);
                    assert(r[b] == prev[b]);
                }
            }
            assert forall|k: int| 0 <= k < r.len() implies !is_client_session((#[trigger] r[k]).0) by {
                if k < prev.len() {
                    assert(r[k] == prev[k]);
                }
            }
        }
    }
}

} // verus!
