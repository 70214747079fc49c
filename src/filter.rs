//! Decides which groups are shown and tallies the ones held back.

use vstd::prelude::*;
use crate::group::{groups_view, GroupsView};
use crate::record::{MinionResult, ResultView, Retcode};

verus! {

#[verifier::external_type_specification]
#[verifier::external_body]
pub struct ExRegex(regex::Regex);

/// Relies on regex::Regex::is_match: whether the pattern matches somewhere in
/// the text. Nothing is stated of the answer: the pattern is opaque here.
#[verifier::external_body]
fn regex_matches(re: &regex::Regex, text: &str) -> bool {
    re.is_match(text)
}

/// Why a group is held back.
#[derive(Debug, Clone, Copy, PartialEq, Eq, Structural)]
pub enum Suppression {
    /// Only successes are shown and this group failed.
    NotSucceeded,
    /// Only failures are shown and this group succeeded.
    Succeeded,
    /// Unchanged groups are hidden and this one succeeded without a diff.
    Unchanged,
    /// Its command does not match the command pattern.
    Command,
    /// Its message does not match the result pattern.
    Result,
    /// Its diff does not match the output pattern.
    Output,
}

/// What to show. A pattern that is absent lets every value through.
pub struct Filter {
    pub command: Option<regex::Regex>,
    pub failed: bool,
    pub output: Option<regex::Regex>,
    pub result: Option<regex::Regex>,
    pub succeeded: bool,
    pub unchanged: bool,
}

/// The switches of a filter, and which patterns it has.
pub struct FilterView {
    pub succeeded: bool,
    pub failed: bool,
    pub unchanged: bool,
    pub command: bool,
    pub result: bool,
    pub output: bool,
}

impl View for Filter {
    type V = FilterView;

    open spec fn view(&self) -> FilterView {
        FilterView {
            succeeded: self.succeeded,
            failed: self.failed,
            unchanged: self.unchanged,
            command: self.command is Some,
            result: self.result is Some,
            output: self.output is Some,
        }
    }
}

/// The filter that holds nothing back.
pub open spec fn shows_everything(f: FilterView) -> bool {
    !f.succeeded && !f.failed && !f.unchanged && !f.command && !f.result && !f.output
}

/// Why a group with `key` is held back, if it is, given whether its command,
/// message and diff match their patterns. Reasons are tried in a fixed order
/// and the first that applies is the one given.
pub open spec fn suppression(key: ResultView, f: FilterView, command_ok: bool, result_ok: bool, output_ok: bool) -> Option<Suppression> {
    if f.succeeded && key.retcode != Retcode::Success {
        Some(Suppression::NotSucceeded)
    } else if f.failed && key.retcode == Retcode::Success {
        Some(Suppression::Succeeded)
    } else if f.unchanged && key.output is None && key.retcode == Retcode::Success {
        Some(Suppression::Unchanged)
    } else if key.command is Some && !command_ok {
        Some(Suppression::Command)
    } else if key.result is Some && !result_ok {
        Some(Suppression::Result)
    } else if key.output is Some && !output_ok {
        Some(Suppression::Output)
    } else {
        None
    }
}

/// A verdict that the filter can give a group with `key`: the one for some
/// answers of its patterns, where a missing pattern always matches.
pub open spec fn possible_verdict(key: ResultView, f: FilterView, v: Option<Suppression>) -> bool {
    exists|c: bool, r: bool, o: bool|
        (!f.command ==> c) && (!f.result ==> r) && (!f.output ==> o) && v == #[trigger] suppression(key, f, c, r, o)
}

/// Where the hosts of a group are counted.
#[derive(Debug, Clone, Copy, PartialEq, Eq, Structural)]
pub enum Tally {
    Held(Suppression),
    Succeeded,
    Failed,
}

pub open spec fn tally_of(key: ResultView, v: Option<Suppression>) -> Tally {
    match v {
        Some(s) => Tally::Held(s),
        None => if key.retcode == Retcode::Success {
            Tally::Succeeded
        } else {
            Tally::Failed
        },
    }
}

/// The hosts of the first `n` groups whose verdict puts them in tally `t`.
pub open spec fn tally_hosts(groups: GroupsView, verdicts: Seq<Option<Suppression>>, t: Tally, n: int) -> Set<Seq<char>>
    decreases n,
{
    if n <= 0 {
        Set::empty()
    } else if tally_of(groups[n - 1].0, verdicts[n - 1]) == t {
        tally_hosts(groups, verdicts, t, n - 1).union(groups[n - 1].1.to_set())
    } else {
        tally_hosts(groups, verdicts, t, n - 1)
    }
}

/// The number of the first `n` verdicts that are `v`.
pub open spec fn count_verdicts(verdicts: Seq<Option<Suppression>>, v: Option<Suppression>, n: int) -> nat
    decreases n,
{
    if n <= 0 {
        0
    } else if verdicts[n - 1] == v {
        count_verdicts(verdicts, v, n - 1) + 1
    } else {
        count_verdicts(verdicts, v, n - 1)
    }
}

pub open spec fn names(v: Seq<String>) -> Seq<Seq<char>> {
    v.map_values(|s: String| s@)
}

/// A list of distinct hosts that holds exactly `hosts`.
pub open spec fn lists(v: Vec<String>, hosts: Set<Seq<char>>) -> bool {
    names(v@).no_duplicates() && names(v@).to_set() == hosts
}

/// The verdicts on the groups and the tallies of the hosts.
pub struct FilterReport {
    /// One per group: `None` for a group that is shown.
    pub verdicts: Vec<Option<Suppression>>,
    /// Distinct hosts held back by the command pattern.
    pub filtered_command: Vec<String>,
    /// Distinct hosts held back by the result pattern.
    pub filtered_result: Vec<String>,
    /// Distinct hosts held back by the output pattern.
    pub filtered_output: Vec<String>,
    /// Distinct hosts held back because they failed.
    pub filtered_failed: Vec<String>,
    /// Distinct hosts held back because they succeeded.
    pub filtered_succeeded: Vec<String>,
    /// Groups held back as unchanged.
    pub filtered_unchanged: usize,
    /// Distinct hosts of shown groups that succeeded.
    pub succeeded_hosts: Vec<String>,
    /// Distinct hosts of shown groups that failed.
    pub failed_hosts: Vec<String>,
}

/// `rep` is what filtering `groups` with `f` reports.
pub open spec fn reports(groups: GroupsView, f: FilterView, rep: FilterReport) -> bool {
    let vs = rep.verdicts@;
    let n = groups.len() as int;
    &&& vs.len() == groups.len()
    &&& forall|i: int| 0 <= i < n ==> possible_verdict(groups[i].0, f, #[trigger] vs[i])
    &&& lists(rep.filtered_command, tally_hosts(groups, vs, Tally::Held(Suppression::Command), n))
    &&& lists(rep.filtered_result, tally_hosts(groups, vs, Tally::Held(Suppression::Result), n))
    &&& lists(rep.filtered_output, tally_hosts(groups, vs, Tally::Held(Suppression::Output), n))
    &&& lists(rep.filtered_failed, tally_hosts(groups, vs, Tally::Held(Suppression::NotSucceeded), n))
    &&& lists(rep.filtered_succeeded, tally_hosts(groups, vs, Tally::Held(Suppression::Succeeded), n))
    &&& rep.filtered_unchanged == count_verdicts(vs, Some(Suppression::Unchanged), n)
    &&& lists(rep.succeeded_hosts, tally_hosts(groups, vs, Tally::Succeeded, n))
    &&& lists(rep.failed_hosts, tally_hosts(groups, vs, Tally::Failed, n))
}

/// Why a group with `key` is held back, if it is, given whether its command,
/// message and diff match their patterns.
pub fn decide(key: &MinionResult, filter: &Filter, command_ok: bool, result_ok: bool, output_ok: bool) -> (r: Option<Suppression>)
    ensures
        r == suppression(key@, filter@, command_ok, result_ok, output_ok),
{
    let success = key.retcode.is_success();
    if filter.succeeded && !success {
        Some(Suppression::NotSucceeded)
    } else if filter.failed && success {
        Some(Suppression::Succeeded)
    } else if filter.unchanged && key.output.is_none() && success {
        Some(Suppression::Unchanged)
    } else if key.command.is_some() && !command_ok {
        Some(Suppression::Command)
    } else if key.result.is_some() && !result_ok {
        Some(Suppression::Result)
    } else if key.output.is_some() && !output_ok {
        Some(Suppression::Output)
    } else {
        None
    }
}

/// Whether a value passes a pattern: a missing pattern or value always does.
fn passes(pattern: &Option<regex::Regex>, value: &Option<String>) -> (r: bool)
    ensures
        pattern is None ==> r,
{
    match pattern {
        Some(re) => match value {
            Some(v) => regex_matches(re, v.as_str()),
            None => true,
        },
        None => true,
    }
}

/// Adds each of `hosts` that is not there yet.
fn add_hosts(set: &mut Vec<String>, hosts: &Vec<String>)
    requires
        names(old(set)@).no_duplicates(),
    ensures
        names(final(set)@).no_duplicates(),
        names(final(set)@).to_set() == names(old(set)@).to_set().union(names(hosts@).to_set()),
{
    let mut i: usize = 0;
    while i < hosts.len()
        invariant
            0 <= i <= hosts@.len(),
            names(set@).no_duplicates(),
            names(set@).to_set() == names(old(set)@).to_set().union(names(hosts@.take(i as int)).to_set()),
        decreases hosts@.len() - i,
    {
        let ghost before = names(set@);
        let mut j: usize = 0;
        let mut present = false;
        while j < set.len()
            invariant
                0 <= j <= set@.len(),
                i < hosts@.len(),
                names(set@) == before,
                present <==> exists|k: int| 0 <= k < j && before[k] == hosts@[i as int]@,
            decreases set@.len() - j,
        {
            if set[j].eq(&hosts[i]) {
                present = true;
                assert(before[j as int] == hosts@[i as int]@);
            }
            j = j + 1;
        }
        if !present {
            set.push(hosts[i].clone());
            proof {
                assert(names(set@) =~= before.push(hosts@[i as int]@));
                assert(!before.contains(hosts@[i as int]@));
                vstd::seq_lib::lemma_no_dup_in_concat(before, seq![hosts@[i as int]@]);
                assert(before + seq![hosts@[i as int]@] =~= before.push(hosts@[i as int]@));
            }
        }
        proof {
            broadcast use vstd::seq::Seq::lemma_push_to_set_commute;
            let h = hosts@[i as int]@;
            assert(names(hosts@.take(i + 1)) =~= names(hosts@.take(i as int)).push(h));
            if present {
                let k = choose|k: int| 0 <= k < set@.len() && before[k] == h;
                assert(before.contains(h));
                assert(names(set@).to_set() =~= names(set@).to_set().insert(h));
            } else {
                assert(names(set@) == before.push(h));
            }
            assert(names(set@).to_set() =~= names(old(set)@).to_set().union(names(hosts@.take(i + 1)).to_set()));
        }
        i = i + 1;
    }
    assert(hosts@.take(hosts@.len() as int) =~= hosts@);
}

/// Tallies read only the verdicts below `n`.
proof fn lemma_tally_frame_one(groups: GroupsView, a: Seq<Option<Suppression>>, b: Seq<Option<Suppression>>, t: Tally, v: Option<Suppression>, n: int)
    requires
        0 <= n <= a.len(),
        n <= b.len(),
        forall|j: int| 0 <= j < n ==> a[j] == b[j],
    ensures
        tally_hosts(groups, a, t, n) == tally_hosts(groups, b, t, n),
        count_verdicts(a, v, n) == count_verdicts(b, v, n),
    decreases n,
{
    if n > 0 {
        lemma_tally_frame_one(groups, a, b, t, v, n - 1);
    }
}

proof fn lemma_tally_frame(groups: GroupsView, a: Seq<Option<Suppression>>, b: Seq<Option<Suppression>>, n: int)
    requires
        0 <= n <= a.len(),
        n <= b.len(),
        forall|j: int| 0 <= j < n ==> a[j] == b[j],
    ensures
        forall|t: Tally| tally_hosts(groups, a, t, n) == #[trigger] tally_hosts(groups, b, t, n),
        forall|v: Option<Suppression>| count_verdicts(a, v, n) == #[trigger] count_verdicts(b, v, n),
{
    assert forall|t: Tally| tally_hosts(groups, a, t, n) == #[trigger] tally_hosts(groups, b, t, n) by {
        lemma_tally_frame_one(groups, a, b, t, None, n);
    }
    assert forall|v: Option<Suppression>| count_verdicts(a, v, n) == #[trigger] count_verdicts(b, v, n) by {
        lemma_tally_frame_one(groups, a, b, Tally::Failed, v, n);
    }
}

/// One more group adds its hosts to the tally of its verdict alone.
proof fn lemma_tally_step(groups: GroupsView, vs: Seq<Option<Suppression>>, i: int)
    requires
        0 <= i,
    ensures
        forall|t: Tally|
            #[trigger] tally_hosts(groups, vs, t, i + 1) == if tally_of(groups[i].0, vs[i]) == t {
                tally_hosts(groups, vs, t, i).union(groups[i].1.to_set())
            } else {
                tally_hosts(groups, vs, t, i)
            },
{
}

/// Gives each group its verdict and tallies the hosts: the hosts of a group
/// that is held back count under its reason (an unchanged group counts once,
/// as a group), those of a shown group as succeeded or failed.
pub fn filter_groups(groups: &Vec<(MinionResult, Vec<String>)>, filter: &Filter) -> (r: FilterReport)
    ensures
        reports(groups_view(groups@), filter@, r),
{
    let ghost gv = groups_view(groups@);
    let mut rep = FilterReport {
        verdicts: Vec::new(),
        filtered_command: Vec::new(),
        filtered_result: Vec::new(),
        filtered_output: Vec::new(),
        filtered_failed: Vec::new(),
        filtered_succeeded: Vec::new(),
        filtered_unchanged: 0,
        succeeded_hosts: Vec::new(),
        failed_hosts: Vec::new(),
    };
    proof {
        assert(names(rep.filtered_command@).to_set() =~= Set::empty());
    }
    let mut i: usize = 0;
    while i < groups.len()
        invariant
            0 <= i <= groups@.len(),
            gv == groups_view(groups@),
            rep.verdicts@.len() == i,
            rep.filtered_unchanged <= i,
            forall|j: int| 0 <= j < i ==> possible_verdict(gv[j].0, filter@, #[trigger] rep.verdicts@[j]),
            lists(rep.filtered_command, tally_hosts(gv, rep.verdicts@, Tally::Held(Suppression::Command), i as int)),
            lists(rep.filtered_result, tally_hosts(gv, rep.verdicts@, Tally::Held(Suppression::Result), i as int)),
            lists(rep.filtered_output, tally_hosts(gv, rep.verdicts@, Tally::Held(Suppression::Output), i as int)),
            lists(rep.filtered_failed, tally_hosts(gv, rep.verdicts@, Tally::Held(Suppression::NotSucceeded), i as int)),
            lists(rep.filtered_succeeded, tally_hosts(gv, rep.verdicts@, Tally::Held(Suppression::Succeeded), i as int)),
            rep.filtered_unchanged == count_verdicts(rep.verdicts@, Some(Suppression::Unchanged), i as int),
            lists(rep.succeeded_hosts, tally_hosts(gv, rep.verdicts@, Tally::Succeeded, i as int)),
            lists(rep.failed_hosts, tally_hosts(gv, rep.verdicts@, Tally::Failed, i as int)),
        decreases groups@.len() - i,
    {
        let key = &groups[i].0;
        let hosts = &groups[i].1;
        let command_ok = passes(&filter.command, &key.command);
        let result_ok = passes(&filter.result, &key.result);
        let output_ok = passes(&filter.output, &key.output);
        let verdict = decide(key, filter, command_ok, result_ok, output_ok);
        let ghost old_vs = rep.verdicts@;
        rep.verdicts.push(verdict);
        proof {
            assert(gv[i as int].0 == key@);
            assert(gv[i as int].1 == names(hosts@));
            assert(possible_verdict(key@, filter@, verdict));
            lemma_tally_frame(gv, old_vs, rep.verdicts@, i as int);
            assert(rep.verdicts@[i as int] == verdict);
        }
        match verdict {
            Some(Suppression::Command) => add_hosts(&mut rep.filtered_command, hosts),
            Some(Suppression::Result) => add_hosts(&mut rep.filtered_result, hosts),
            Some(Suppression::Output) => add_hosts(&mut rep.filtered_output, hosts),
            Some(Suppression::NotSucceeded) => add_hosts(&mut rep.filtered_failed, hosts),
            Some(Suppression::Succeeded) => add_hosts(&mut rep.filtered_succeeded, hosts),
            Some(Suppression::Unchanged) => {
                rep.filtered_unchanged = rep.filtered_unchanged + 1;
            },
            None => {
                if key.retcode.is_success() {
                    add_hosts(&mut rep.succeeded_hosts, hosts);
                } else {
                    add_hosts(&mut rep.failed_hosts, hosts);
                }
            },
        }
        proof {
            lemma_tally_step(gv, rep.verdicts@, i as int);
            assert(count_verdicts(rep.verdicts@, Some(Suppression::Unchanged), i + 1) == if rep.verdicts@[i as int]
                == Some(Suppression::Unchanged) {
                count_verdicts(rep.verdicts@, Some(Suppression::Unchanged), i as int) + 1
            } else {
                count_verdicts(rep.verdicts@, Some(Suppression::Unchanged), i as int)
            });
        }
        i = i + 1;
    }
    rep
}

/// With every switch off and no pattern, no group is held back and every
/// tally of held-back hosts or groups is empty.
pub proof fn lemma_default_filter_shows_all(groups: GroupsView, f: FilterView, rep: FilterReport)
    requires
        reports(groups, f, rep),
        shows_everything(f),
    ensures
        forall|i: int| 0 <= i < groups.len() ==> #[trigger] rep.verdicts@[i] is None,
        rep.filtered_command@.len() == 0,
        rep.filtered_result@.len() == 0,
        rep.filtered_output@.len() == 0,
        rep.filtered_failed@.len() == 0,
        rep.filtered_succeeded@.len() == 0,
        rep.filtered_unchanged == 0,
{
    assert forall|i: int| 0 <= i < groups.len() implies #[trigger] rep.verdicts@[i] is None by {
        assert(possible_verdict(groups[i].0, f, rep.verdicts@[i]));
    }
    lemma_no_held_tally(groups, rep.verdicts@, groups.len() as int);
    lemma_empty_list(rep.filtered_command);
    lemma_empty_list(rep.filtered_result);
    lemma_empty_list(rep.filtered_output);
    lemma_empty_list(rep.filtered_failed);
    lemma_empty_list(rep.filtered_succeeded);
}

proof fn lemma_no_held_tally(groups: GroupsView, vs: Seq<Option<Suppression>>, n: int)
    requires
        0 <= n <= vs.len(),
        forall|i: int| 0 <= i < n ==> #[trigger] vs[i] is None,
    ensures
        forall|s: Suppression| tally_hosts(groups, vs, Tally::Held(s), n) == Set::<Seq<char>>::empty(),
        count_verdicts(vs, Some(Suppression::Unchanged), n) == 0,
    decreases n,
{
    if n > 0 {
        lemma_no_held_tally(groups, vs, n - 1);
        assert(vs[n - 1] is None);
        assert forall|s: Suppression| tally_hosts(groups, vs, Tally::Held(s), n) == Set::<Seq<char>>::empty() by {
            assert(tally_hosts(groups, vs, Tally::Held(s), n - 1) == Set::<Seq<char>>::empty());
            assert(tally_of(groups[n - 1].0, vs[n - 1]) != Tally::Held(s));
        }
    }
}

proof fn lemma_empty_list(v: Vec<String>)
    requires
        lists(v, Set::empty()),
    ensures
        v@.len() == 0,
{
    if v@.len() > 0 {
        assert(names(v@)[0] == v@[0]@);
        assert(names(v@).contains(v@[0]@));
        assert(names(v@).to_set().contains(v@[0]@));
    }
}

/// Reasons are tried in order and only the first counts: a group that failed
/// while only successes are shown is held back as not succeeded, whatever its
/// patterns say, and its hosts count in that tally.
pub proof fn lemma_first_reason_wins(groups: GroupsView, f: FilterView, rep: FilterReport, g: int)
    requires
        reports(groups, f, rep),
        0 <= g < groups.len(),
        f.succeeded,
        groups[g].0.retcode != Retcode::Success,
    ensures
        rep.verdicts@[g] == Some(Suppression::NotSucceeded),
        forall|h: Seq<char>| groups[g].1.contains(h) ==> names(rep.filtered_failed@).contains(h),
{
    assert(possible_verdict(groups[g].0, f, rep.verdicts@[g]));
    let vs = rep.verdicts@;
    lemma_tally_includes(groups, vs, Tally::Held(Suppression::NotSucceeded), g, groups.len() as int);
    assert forall|h: Seq<char>| groups[g].1.contains(h) implies names(rep.filtered_failed@).contains(h) by {
        assert(groups[g].1.to_set().contains(h));
        assert(names(rep.filtered_failed@).to_set().contains(h));
    }
}

proof fn lemma_tally_includes(groups: GroupsView, vs: Seq<Option<Suppression>>, t: Tally, g: int, n: int)
    requires
        0 <= g < n,
        tally_of(groups[g].0, vs[g]) == t,
    ensures
        groups[g].1.to_set().subset_of(tally_hosts(groups, vs, t, n)),
    decreases n,
{
    if g < n - 1 {
        lemma_tally_includes(groups, vs, t, g, n - 1);
    }
}

} // verus!
