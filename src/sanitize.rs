//! Strips the diagnostic lines that precede a report's JSON, keeping the
//! hosts that they name in a side table.
//!
//! Three diagnostics are recognised, case-sensitively:
//! - a whole line `Minion <id> did not respond. No job will be sent.`;
//! - a line that starts with
//!   `minion <id> was already deleted from tracker, probably a duplicate key`,
//!   of which that start is removed;
//! - the text `ERROR: No return received` anywhere, which is removed and
//!   recorded under the host `*`.
//!
//! An `<id>` is a run of characters that are not white space.

use vstd::prelude::*;
use crate::normalize::join_lines;
use crate::table::{table_insert, FailureTable, TableView};

verus! {

/// Relies on Vec's FromIterator, fed by str::chars: the characters of the
/// text, in order.
#[verifier::external_body]
fn chars_of(s: &str) -> (r: Vec<char>)
    ensures
        r@ == s@,
{
    Vec::from_iter(s.chars())
}

/// Relies on String's FromIterator<&char>: the string of these characters.
#[verifier::external_body]
fn string_of_chars(cs: &[char]) -> (r: String)
    ensures
        r@ == cs@,
{
    String::from_iter(cs)
}

/// Unicode's White_Space characters.
pub open spec fn is_space(c: char) -> bool {
    let u = c as u32;
    (0x9 <= u <= 0xd) || u == 0x20 || u == 0x85 || u == 0xa0 || u == 0x1680 || (0x2000 <= u
        <= 0x200a) || u == 0x2028 || u == 0x2029 || u == 0x202f || u == 0x205f || u == 0x3000
}

fn is_space_exec(c: char) -> (r: bool)
    ensures
        r == is_space(c),
{
    let u = c as u32;
    (0x9 <= u && u <= 0xd) || u == 0x20 || u == 0x85 || u == 0xa0 || u == 0x1680 || (0x2000 <= u
        && u <= 0x200a) || u == 0x2028 || u == 0x2029 || u == 0x202f || u == 0x205f || u == 0x3000
}

pub open spec fn starts_with(s: Seq<char>, p: Seq<char>) -> bool {
    p.len() <= s.len() && s.take(p.len() as int) == p
}

pub open spec fn no_space(s: Seq<char>) -> bool {
    forall|i: int| 0 <= i < s.len() ==> !is_space(#[trigger] s[i])
}

/// The lines of a text: the pieces between newlines, as many as there are
/// newlines plus one.
pub open spec fn split_lines(t: Seq<char>) -> Seq<Seq<char>>
    decreases t.len(),
{
    if t.len() == 0 {
        seq![Seq::empty()]
    } else {
        let ls = split_lines(t.drop_last());
        if t.last() == '\n' {
            ls.push(Seq::empty())
        } else {
            ls.update(ls.len() - 1, ls.last().push(t.last()))
        }
    }
}

/// The host of a line `Minion <id> did not respond. No job will be sent.`
pub open spec fn not_responding_host(line: Seq<char>) -> Option<Seq<char>> {
    let p = "Minion "@;
    let s = " did not respond. No job will be sent."@;
    if p.len() + s.len() <= line.len() && starts_with(line, p) && line.skip(line.len() - s.len()) == s
        && no_space(line.subrange(p.len() as int, line.len() - s.len())) {
        Some(line.subrange(p.len() as int, line.len() - s.len()))
    } else {
        None
    }
}

/// The index of the first white space at or after `k`, or the length.
pub open spec fn space_from(line: Seq<char>, k: int) -> int
    decreases line.len() - k,
{
    if k >= line.len() {
        line.len() as int
    } else if is_space(line[k]) {
        k
    } else {
        space_from(line, k + 1)
    }
}

/// The host of a line that starts with
/// `minion <id> was already deleted from tracker, probably a duplicate key`,
/// with the length of that start.
pub open spec fn duplicate_key_host(line: Seq<char>) -> Option<(Seq<char>, int)> {
    let p = "minion "@;
    let s = " was already deleted from tracker, probably a duplicate key"@;
    let e = space_from(line, p.len() as int);
    if starts_with(line, p) && starts_with(line.skip(e), s) {
        Some((line.subrange(p.len() as int, e), e + s.len()))
    } else {
        None
    }
}

/// A line without the diagnostic that it holds.
pub open spec fn clean_line(line: Seq<char>) -> Seq<char> {
    if not_responding_host(line) is Some {
        Seq::empty()
    } else {
        match duplicate_key_host(line) {
            Some((_, n)) => line.skip(n),
            None => line,
        }
    }
}

/// The hosts named by lines that did not respond, in order.
pub open spec fn not_responding_hosts(lines: Seq<Seq<char>>) -> Seq<Seq<char>>
    decreases lines.len(),
{
    if lines.len() == 0 {
        Seq::empty()
    } else {
        not_responding_hosts(lines.drop_last()) + match not_responding_host(lines.last()) {
            Some(h) => seq![h],
            None => Seq::empty(),
        }
    }
}

/// The hosts named by lines on duplicate keys, in order.
pub open spec fn duplicate_key_hosts(lines: Seq<Seq<char>>) -> Seq<Seq<char>>
    decreases lines.len(),
{
    if lines.len() == 0 {
        Seq::empty()
    } else {
        duplicate_key_hosts(lines.drop_last()) + match duplicate_key_host(lines.last()) {
            Some((h, _)) => seq![h],
            None => Seq::empty(),
        }
    }
}

/// `t` with each of `hosts` mapped to `reason`, one after another.
pub open spec fn insert_all(t: TableView, hosts: Seq<Seq<char>>, reason: Seq<char>) -> TableView
    decreases hosts.len(),
{
    if hosts.len() == 0 {
        t
    } else {
        table_insert(insert_all(t, hosts.drop_last(), reason), hosts.last(), reason)
    }
}

/// Whether `m` occurs in `t` from position `i` on.
pub open spec fn occurs_at(t: Seq<char>, m: Seq<char>, i: int) -> bool {
    0 <= i && i + m.len() <= t.len() && t.subrange(i, i + m.len()) == m
}

pub open spec fn contains_text(t: Seq<char>, m: Seq<char>) -> bool {
    exists|i: int| occurs_at(t, m, i)
}

/// `t` without the occurrences of a non-empty `m`, taken left to right.
pub open spec fn remove_all(t: Seq<char>, m: Seq<char>) -> Seq<char>
    decreases t.len(),
{
    if t.len() == 0 || m.len() == 0 {
        t
    } else if starts_with(t, m) {
        remove_all(t.skip(m.len() as int), m)
    } else {
        seq![t[0]] + remove_all(t.skip(1), m)
    }
}

pub open spec fn no_return_marker() -> Seq<char> {
    "ERROR: No return received"@
}

/// The text with its diagnostic lines cleaned, before the marker is removed.
pub open spec fn cleaned_lines(t: Seq<char>) -> Seq<char> {
    join_lines(split_lines(t).map_values(|l: Seq<char>| clean_line(l)))
}

/// The sanitized text.
pub open spec fn sanitized_text(t: Seq<char>) -> Seq<char> {
    let c = cleaned_lines(t);
    if contains_text(c, no_return_marker()) {
        remove_all(c, no_return_marker())
    } else {
        c
    }
}

/// The side table: hosts that did not respond, then hosts with duplicate
/// keys, then `*` where no return was received; a later reason for a host
/// replaces the earlier one.
pub open spec fn sanitized_table(t: Seq<char>) -> TableView {
    let lines = split_lines(t);
    let after_silent = insert_all(Seq::empty(), not_responding_hosts(lines), "Minion did not respond. No job will be sent."@);
    let after_dup = insert_all(after_silent, duplicate_key_hosts(lines), "Minion was already deleted from tracker, probably a duplicate key."@);
    if contains_text(cleaned_lines(t), no_return_marker()) {
        table_insert(after_dup, "*"@, "ERROR: No return received."@)
    } else {
        after_dup
    }
}

pub open spec fn lines_view(ls: Seq<Vec<char>>) -> Seq<Seq<char>> {
    ls.map_values(|l: Vec<char>| l@)
}

fn split_lines_exec(t: &Vec<char>) -> (r: Vec<Vec<char>>)
    ensures
        lines_view(r@) == split_lines(t@),
{
    let mut done: Vec<Vec<char>> = Vec::new();
    let mut cur: Vec<char> = Vec::new();
    let mut i: usize = 0;
    assert(t@.take(0) =~= Seq::<char>::empty());
    assert(lines_view(done@).push(cur@) =~= split_lines(t@.take(0)));
    while i < t.len()
        invariant
            0 <= i <= t@.len(),
            lines_view(done@).push(cur@) == split_lines(t@.take(i as int)),
        decreases t@.len() - i,
    {
        proof {
            assert(t@.take(i + 1).drop_last() =~= t@.take(i as int));
            assert(t@.take(i + 1).last() == t@[i as int]);
        }
        let c = t[i];
        let ghost before = lines_view(done@).push(cur@);
        if c == '\n' {
            let line = cur;
            done.push(line);
            cur = Vec::new();
            assert(lines_view(done@).push(cur@) =~= before.push(Seq::empty()));
        } else {
            cur.push(c);
            assert(lines_view(done@).push(cur@) =~= before.update(before.len() - 1, before.last().push(c)));
        }
        i = i + 1;
    }
    assert(t@.take(t@.len() as int) =~= t@);
    done.push(cur);
    done
}

/// Whether `p` occurs in `t` at `start`.
fn occurs_at_exec(t: &Vec<char>, start: usize, p: &Vec<char>) -> (r: bool)
    ensures
        r == occurs_at(t@, p@, start as int),
{
    if p.len() > t.len() || start > t.len() - p.len() {
        return false;
    }
    let mut k: usize = 0;
    while k < p.len()
        invariant
            0 <= k <= p@.len(),
            start + p@.len() <= t@.len(),
            t@.len() <= usize::MAX,
            forall|j: int| 0 <= j < k ==> t@[start + j] == p@[j],
        decreases p@.len() - k,
    {
        if t[start + k] != p[k] {
            assert(t@.subrange(start as int, start + p@.len())[k as int] != p@[k as int]);
            return false;
        }
        k = k + 1;
    }
    assert(t@.subrange(start as int, start + p@.len()) =~= p@);
    true
}

fn copy_range(t: &Vec<char>, from: usize, to: usize) -> (r: Vec<char>)
    requires
        from <= to <= t@.len(),
    ensures
        r@ == t@.subrange(from as int, to as int),
{
    let mut r: Vec<char> = Vec::new();
    let mut k: usize = from;
    while k < to
        invariant
            from <= k <= to,
            to <= t@.len(),
            r@ == t@.subrange(from as int, k as int),
        decreases to - k,
    {
        r.push(t[k]);
        assert(r@ =~= t@.subrange(from as int, k + 1));
        k = k + 1;
    }
    r
}

/// The host of a line that did not respond.
fn not_responding_exec(line: &Vec<char>, p: &Vec<char>, s: &Vec<char>) -> (r: Option<Vec<char>>)
    requires
        p@ == "Minion "@,
        s@ == " did not respond. No job will be sent."@,
    ensures
        match r {
            Some(h) => not_responding_host(line@) == Some(h@),
            None => not_responding_host(line@) is None,
        },
{
    if p.len() > line.len() || s.len() > line.len() - p.len() {
        return None;
    }
    let end = line.len() - s.len();
    if !occurs_at_exec(line, 0, p) || !occurs_at_exec(line, end, s) {
        proof {
            assert(line@.take(p@.len() as int) =~= line@.subrange(0, p@.len() as int));
            assert(line@.skip(end as int) =~= line@.subrange(end as int, end + s@.len()));
        }
        return None;
    }
    proof {
        assert(line@.take(p@.len() as int) =~= line@.subrange(0, p@.len() as int));
        assert(line@.skip(end as int) =~= line@.subrange(end as int, end + s@.len()));
    }
    let mut k: usize = p.len();
    while k < end
        invariant
            p@.len() <= k <= end,
            end <= line@.len(),
            p@ == "Minion "@,
            s@ == " did not respond. No job will be sent."@,
            end == line@.len() - s@.len(),
            p@.len() + s@.len() <= line@.len(),
            starts_with(line@, p@),
            line@.skip(end as int) == s@,
            forall|j: int| p@.len() <= j < k ==> !is_space(#[trigger] line@[j]),
        decreases end - k,
    {
        if is_space_exec(line[k]) {
            proof {
                let mid = line@.subrange(p@.len() as int, end as int);
                assert(mid[k - p@.len()] == line@[k as int]);
            }
            return None;
        }
        k = k + 1;
    }
    let host = copy_range(line, p.len(), end);
    proof {
        let mid = line@.subrange(p@.len() as int, end as int);
        assert forall|i: int| 0 <= i < mid.len() implies !is_space(#[trigger] mid[i]) by {
            assert(mid[i] == line@[p@.len() + i]);
        }
    }
    Some(host)
}

/// The index of the first white space at or after `k`, or the length.
fn space_from_exec(line: &Vec<char>, k: usize) -> (r: usize)
    requires
        k <= line@.len(),
    ensures
        r == space_from(line@, k as int),
{
    let mut i: usize = k;
    while i < line.len()
        invariant
            k <= i <= line@.len(),
            space_from(line@, k as int) == space_from(line@, i as int),
        decreases line@.len() - i,
    {
        if is_space_exec(line[i]) {
            return i;
        }
        i = i + 1;
    }
    i
}

/// The host of a line on a duplicate key, with the length of its diagnostic.
fn duplicate_key_exec(line: &Vec<char>, p: &Vec<char>, s: &Vec<char>) -> (r: Option<(Vec<char>, usize)>)
    requires
        p@ == "minion "@,
        s@ == " was already deleted from tracker, probably a duplicate key"@,
    ensures
        match r {
            Some((h, n)) => duplicate_key_host(line@) == Some((h@, n as int)) && n <= line@.len(),
            None => duplicate_key_host(line@) is None,
        },
{
    if p.len() > line.len() {
        return None;
    }
    if !occurs_at_exec(line, 0, p) {
        assert(line@.take(p@.len() as int) =~= line@.subrange(0, p@.len() as int));
        return None;
    }
    assert(line@.take(p@.len() as int) =~= line@.subrange(0, p@.len() as int));
    let e = space_from_exec(line, p.len());
    proof {
        lemma_space_from_bound(line@, p@.len() as int);
    }
    if !occurs_at_exec(line, e, s) {
        proof {
            if starts_with(line@.skip(e as int), s@) {
                assert(line@.skip(e as int).take(s@.len() as int) =~= line@.subrange(e as int, e + s@.len()));
            }
        }
        return None;
    }
    assert(line@.skip(e as int).take(s@.len() as int) =~= line@.subrange(e as int, e + s@.len()));
    let host = copy_range(line, p.len(), e);
    Some((host, e + s.len()))
}

/// `t` without the occurrences of `m`, and whether there were any.
fn remove_all_exec(t: &Vec<char>, m: &Vec<char>) -> (r: (Vec<char>, bool))
    requires
        m@.len() > 0,
    ensures
        r.0@ == remove_all(t@, m@),
        r.1 == contains_text(t@, m@),
{
    let mut out: Vec<char> = Vec::new();
    let mut found = false;
    let mut i: usize = 0;
    assert(t@.skip(0) =~= t@);
    while i < t.len()
        invariant
            0 <= i <= t@.len(),
            m@.len() > 0,
            out@ + remove_all(t@.skip(i as int), m@) == remove_all(t@, m@),
            found ==> contains_text(t@, m@),
            !found ==> forall|j: int| 0 <= j < i ==> !occurs_at(t@, m@, j),
        decreases t@.len() - i,
    {
        let ghost rest = t@.skip(i as int);
        if occurs_at_exec(t, i, m) {
            proof {
                assert(rest.take(m@.len() as int) =~= t@.subrange(i as int, i + m@.len()));
                assert(rest.skip(m@.len() as int) =~= t@.skip(i + m@.len()));
            }
            found = true;
            i = i + m.len();
        } else {
            proof {
                if starts_with(rest, m@) {
                    assert(rest.take(m@.len() as int) =~= t@.subrange(i as int, i + m@.len()));
                }
                assert(rest.skip(1) =~= t@.skip(i + 1));
                assert(out@.push(t@[i as int]) + remove_all(t@.skip(i + 1), m@) =~= out@ + (seq![rest[0]]
                    + remove_all(rest.skip(1), m@)));
            }
            out.push(t[i]);
            i = i + 1;
        }
    }
    proof {
        assert(t@.skip(i as int).len() == 0);
        assert(out@ + Seq::<char>::empty() =~= out@);
    }
    (out, found)
}

fn join_exec(lines: &Vec<Vec<char>>) -> (r: Vec<char>)
    ensures
        r@ == join_lines(lines_view(lines@)),
{
    proof {
        reveal_strlit("\n");
    }
    let mut out: Vec<char> = Vec::new();
    let mut i: usize = 0;
    while i < lines.len()
        invariant
            0 <= i <= lines@.len(),
            "\n"@ == seq!['\n'],
            out@ == join_lines(lines_view(lines@).take(i as int)),
        decreases lines@.len() - i,
    {
        let ghost before = out@;
        proof {
            assert(lines_view(lines@).take(i + 1).drop_last() =~= lines_view(lines@).take(i as int));
            assert(lines_view(lines@).take(i + 1).last() == lines@[i as int]@);
        }
        if i > 0 {
            out.push('\n');
        }
        let line = &lines[i];
        let mut k: usize = 0;
        let ghost base = out@;
        while k < line.len()
            invariant
                0 <= k <= line@.len(),
                out@ == base + line@.take(k as int),
            decreases line@.len() - k,
        {
            out.push(line[k]);
            assert(line@.take(k + 1) =~= line@.take(k as int).push(line@[k as int]));
            assert(out@ =~= base + line@.take(k + 1));
            k = k + 1;
        }
        proof {
            assert(line@.take(line@.len() as int) =~= line@);
            if i == 0 {
                assert(base =~= Seq::<char>::empty());
                assert(out@ =~= line@);
            } else {
                assert(out@ =~= before + "\n"@ + line@);
            }
        }
        i = i + 1;
    }
    assert(lines_view(lines@).take(lines@.len() as int) =~= lines_view(lines@));
    out
}

/// Strips the diagnostics from a report's text: a line of a host that did
/// not respond is emptied, the diagnostic at the start of a line on a
/// duplicate key is removed, and every `ERROR: No return received` goes.
/// The hosts they name go into the side table with their reasons.
pub fn cleanup_input_data(input_data: String) -> (r: (String, FailureTable))
    ensures
        r.0@ == sanitized_text(input_data@),
        r.1@ == sanitized_table(input_data@),
        r.1.wf(),
{
    let text = chars_of(input_data.as_str());
    let lines = split_lines_exec(&text);
    let ghost ls = split_lines(input_data@);
    let silent_prefix = chars_of("Minion ");
    let silent_suffix = chars_of(" did not respond. No job will be sent.");
    let dup_prefix = chars_of("minion ");
    let dup_suffix = chars_of(" was already deleted from tracker, probably a duplicate key");
    let mut cleaned: Vec<Vec<char>> = Vec::new();
    let mut not_responding: Vec<Vec<char>> = Vec::new();
    let mut duplicates: Vec<Vec<char>> = Vec::new();
    let mut i: usize = 0;
    assert(ls.take(0) =~= Seq::<Seq<char>>::empty());
    assert(lines_view(cleaned@) =~= ls.take(0).map_values(|l: Seq<char>| clean_line(l)));
    while i < lines.len()
        invariant
            0 <= i <= lines@.len(),
            lines_view(lines@) == ls,
            silent_prefix@ == "Minion "@,
            silent_suffix@ == " did not respond. No job will be sent."@,
            dup_prefix@ == "minion "@,
            dup_suffix@ == " was already deleted from tracker, probably a duplicate key"@,
            lines_view(cleaned@) == ls.take(i as int).map_values(|l: Seq<char>| clean_line(l)),
            lines_view(not_responding@) == not_responding_hosts(ls.take(i as int)),
            lines_view(duplicates@) == duplicate_key_hosts(ls.take(i as int)),
        decreases lines@.len() - i,
    {
        let line = &lines[i];
        let ghost l = line@;
        proof {
            assert(ls.take(i + 1).drop_last() =~= ls.take(i as int));
            assert(ls.take(i + 1).last() == l);
            assert(ls.take(i + 1).map_values(|l: Seq<char>| clean_line(l)) =~= ls.take(i as int).map_values(
                |l: Seq<char>| clean_line(l),
            ).push(clean_line(l)));
        }
        match not_responding_exec(line, &silent_prefix, &silent_suffix) {
            Some(h) => {
                not_responding.push(h);
                cleaned.push(Vec::new());
                proof {
                    reveal_strlit("Minion ");
                    reveal_strlit("minion ");
                    assert(l.take(7)[0] == 'M');
                    assert(duplicate_key_host(l) is None);
                    assert(lines_view(cleaned@) =~= ls.take(i + 1).map_values(|l: Seq<char>| clean_line(l)));
                    assert(lines_view(not_responding@) =~= not_responding_hosts(ls.take(i + 1)));
                    assert(lines_view(duplicates@) =~= duplicate_key_hosts(ls.take(i + 1)));
                }
            },
            None => match duplicate_key_exec(line, &dup_prefix, &dup_suffix) {
                Some((h, n)) => {
                    duplicates.push(h);
                    cleaned.push(copy_range(line, n, line.len()));
                    proof {
                        assert(l.subrange(n as int, l.len() as int) =~= l.skip(n as int));
                        assert(lines_view(cleaned@) =~= ls.take(i + 1).map_values(|l: Seq<char>| clean_line(l)));
                        assert(lines_view(not_responding@) =~= not_responding_hosts(ls.take(i + 1)));
                        assert(lines_view(duplicates@) =~= duplicate_key_hosts(ls.take(i + 1)));
                    }
                },
                None => {
                    cleaned.push(copy_range(line, 0, line.len()));
                    proof {
                        assert(l.subrange(0, l.len() as int) =~= l);
                        assert(lines_view(cleaned@) =~= ls.take(i + 1).map_values(|l: Seq<char>| clean_line(l)));
                        assert(lines_view(not_responding@) =~= not_responding_hosts(ls.take(i + 1)));
                        assert(lines_view(duplicates@) =~= duplicate_key_hosts(ls.take(i + 1)));
                    }
                },
            },
        }
        i = i + 1;
    }
    assert(ls.take(lines@.len() as int) =~= ls);
    let joined = join_exec(&cleaned);
    let mut table = FailureTable::new();
    let mut j: usize = 0;
    let ghost silent_hosts = lines_view(not_responding@);
    assert(silent_hosts.take(0) =~= Seq::<Seq<char>>::empty());
    while j < not_responding.len()
        invariant
            0 <= j <= not_responding@.len(),
            silent_hosts == lines_view(not_responding@),
            table.wf(),
            table@ == insert_all(Seq::empty(), silent_hosts.take(j as int), "Minion did not respond. No job will be sent."@),
        decreases not_responding@.len() - j,
    {
        assert(silent_hosts.take(j + 1).drop_last() =~= silent_hosts.take(j as int));
        let reason = <String as vstd::string::StringExecFns>::from_str("Minion did not respond. No job will be sent.");
        table.insert(string_of_chars(not_responding[j].as_slice()), reason);
        j = j + 1;
    }
    assert(silent_hosts.take(silent_hosts.len() as int) =~= silent_hosts);
    let ghost after_silent = table@;
    let ghost dup_hosts = lines_view(duplicates@);
    let mut j: usize = 0;
    assert(dup_hosts.take(0) =~= Seq::<Seq<char>>::empty());
    while j < duplicates.len()
        invariant
            0 <= j <= duplicates@.len(),
            dup_hosts == lines_view(duplicates@),
            table.wf(),
            table@ == insert_all(after_silent, dup_hosts.take(j as int), "Minion was already deleted from tracker, probably a duplicate key."@),
        decreases duplicates@.len() - j,
    {
        assert(dup_hosts.take(j + 1).drop_last() =~= dup_hosts.take(j as int));
        let reason = <String as vstd::string::StringExecFns>::from_str(
            "Minion was already deleted from tracker, probably a duplicate key.",
        );
        table.insert(string_of_chars(duplicates[j].as_slice()), reason);
        j = j + 1;
    }
    assert(dup_hosts.take(dup_hosts.len() as int) =~= dup_hosts);
    let marker = chars_of("ERROR: No return received");
    proof {
        reveal_strlit("ERROR: No return received");
    }
    let (removed, found) = remove_all_exec(&joined, &marker);
    if found {
        let star = <String as vstd::string::StringExecFns>::from_str("*");
        let reason = <String as vstd::string::StringExecFns>::from_str("ERROR: No return received.");
        table.insert(star, reason);
        (string_of_chars(removed.as_slice()), table)
    } else {
        (string_of_chars(joined.as_slice()), table)
    }
}

/// Whether the text holds any of the three diagnostics.
pub open spec fn has_diagnostic(t: Seq<char>) -> bool {
    let ls = split_lines(t);
    (exists|i: int|
        0 <= i < ls.len() && (not_responding_host(#[trigger] ls[i]) is Some || duplicate_key_host(ls[i]) is Some))
        || contains_text(t, no_return_marker())
}

proof fn lemma_split_nonempty(t: Seq<char>)
    ensures
        split_lines(t).len() >= 1,
    decreases t.len(),
{
    if t.len() > 0 {
        lemma_split_nonempty(t.drop_last());
    }
}

/// Joining the lines of a text gives the text back.
proof fn lemma_join_split(t: Seq<char>)
    ensures
        join_lines(split_lines(t)) == t,
    decreases t.len(),
{
    reveal_strlit("\n");
    if t.len() > 0 {
        let t0 = t.drop_last();
        let c = t.last();
        let ls = split_lines(t0);
        lemma_join_split(t0);
        lemma_split_nonempty(t0);
        if c == '\n' {
            assert(ls.push(Seq::empty()).drop_last() =~= ls);
            assert(join_lines(ls.push(Seq::empty())) =~= t0 + "\n"@ + Seq::empty());
            assert(t =~= t0.push(c));
        } else {
            let next = ls.update(ls.len() - 1, ls.last().push(c));
            if ls.len() == 1 {
                assert(join_lines(next) =~= t0.push(c));
            } else {
                assert(next.drop_last() =~= ls.drop_last());
                assert(join_lines(next) =~= (join_lines(ls.drop_last()) + "\n"@ + ls.last()).push(c));
            }
            assert(t =~= t0.push(c));
        }
    }
}

proof fn lemma_no_hosts(ls: Seq<Seq<char>>)
    requires
        forall|i: int|
            0 <= i < ls.len() ==> not_responding_host(#[trigger] ls[i]) is None && duplicate_key_host(ls[i]) is None,
    ensures
        not_responding_hosts(ls) == Seq::<Seq<char>>::empty(),
        duplicate_key_hosts(ls) == Seq::<Seq<char>>::empty(),
    decreases ls.len(),
{
    if ls.len() > 0 {
        lemma_no_hosts(ls.drop_last());
        assert(ls.last() == ls[ls.len() - 1]);
    }
}

/// A text without diagnostics is left as it is, with an empty side table.
pub proof fn lemma_clean_text_unchanged(t: Seq<char>)
    requires
        !has_diagnostic(t),
    ensures
        sanitized_text(t) == t,
        sanitized_table(t) == Seq::<(Seq<char>, Seq<char>)>::empty(),
{
    let ls = split_lines(t);
    assert(ls.map_values(|l: Seq<char>| clean_line(l)) =~= ls) by {
        assert forall|i: int| 0 <= i < ls.len() implies clean_line(ls[i]) == ls[i] by {
            assert(not_responding_host(ls[i]) is None && duplicate_key_host(ls[i]) is None);
        }
    }
    lemma_join_split(t);
    lemma_no_hosts(ls);
}

/// Sanitizing is idempotent: on sanitized text the sanitizer removes nothing
/// more and finds no host. This holds wherever removing diagnostics did not
/// join the rest of a line into a new one.
pub proof fn lemma_sanitize_idempotent(t: Seq<char>)
    requires
        !has_diagnostic(sanitized_text(t)),
    ensures
        sanitized_text(sanitized_text(t)) == sanitized_text(t),
        sanitized_table(sanitized_text(t)) == Seq::<(Seq<char>, Seq<char>)>::empty(),
{
    lemma_clean_text_unchanged(sanitized_text(t));
}

proof fn lemma_space_from_bound(line: Seq<char>, k: int)
    requires
        0 <= k <= line.len(),
    ensures
        k <= space_from(line, k) <= line.len(),
    decreases line.len() - k,
{
    if k < line.len() && !is_space(line[k]) {
        lemma_space_from_bound(line, k + 1);
    }
}

} // verus!
