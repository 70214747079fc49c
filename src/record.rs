//! Canonical per-host records and their grouping key.

use vstd::prelude::*;

verus! {

/// Outcome of a host's run.
#[derive(Debug, Clone, Copy, PartialEq, Eq, Structural, PartialOrd, Ord)]
pub enum Retcode {
    Success,
    Failure,
}

impl Retcode {
    pub fn is_success(&self) -> (r: bool)
        ensures
            r == (*self == Retcode::Success),
    {
        match self {
            Retcode::Success => true,
            Retcode::Failure => false,
        }
    }
}

impl Default for Retcode {
    /// An unobserved outcome counts as a failure.
    fn default() -> (r: Retcode)
        ensures
            r == Retcode::Failure,
    {
        Retcode::Failure
    }
}

/// The outcome that a numeric return code stands for: only zero is a success.
pub open spec fn retcode_of(n: u64) -> Retcode {
    if n == 0 {
        Retcode::Success
    } else {
        Retcode::Failure
    }
}

impl From<u64> for Retcode {
    fn from(input: u64) -> (r: Retcode)
        ensures
            r == retcode_of(input),
            (r == Retcode::Success) <==> (input == 0),
    {
        if input == 0 {
            Retcode::Success
        } else {
            Retcode::Failure
        }
    }
}

impl vstd::std_specs::convert::FromSpecImpl<u64> for Retcode {
    open spec fn obeys_from_spec() -> bool {
        true
    }

    open spec fn from_spec(v: u64) -> Retcode {
        retcode_of(v)
    }
}

/// The view of an optional string.
pub open spec fn opt_view(o: Option<String>) -> Option<Seq<char>> {
    match o {
        Some(s) => Some(s@),
        None => None,
    }
}

/// One observation for one host and, optionally, one command.
///
/// `result` carries the descriptive message (a comment, a stringified scalar
/// or joined lines) and `output` the free-text body (a diff, or the reason a
/// host gave no answer).
#[derive(Debug, Clone, PartialEq, Eq, PartialOrd, Ord)]
pub struct MinionResult {
    pub command: Option<String>,
    pub retcode: Retcode,
    pub output: Option<String>,
    pub result: Option<String>,
    pub host: String,
}

/// The mathematical value of a [`MinionResult`].
pub struct ResultView {
    pub command: Option<Seq<char>>,
    pub retcode: Retcode,
    pub output: Option<Seq<char>>,
    pub result: Option<Seq<char>>,
    pub host: Seq<char>,
}

impl View for MinionResult {
    type V = ResultView;

    open spec fn view(&self) -> ResultView {
        ResultView {
            command: opt_view(self.command),
            retcode: self.retcode,
            output: opt_view(self.output),
            result: opt_view(self.result),
            host: self.host@,
        }
    }
}

/// The views of a sequence of records.
pub open spec fn views(rs: Seq<MinionResult>) -> Seq<ResultView> {
    rs.map_values(|r: MinionResult| r@)
}

/// The grouping key of a record: the record with its host cleared.
pub open spec fn key_of(r: ResultView) -> ResultView {
    ResultView { host: Seq::empty(), ..r }
}

/// Two records are the same result when they agree on everything but the host.
pub open spec fn same_result(a: ResultView, b: ResultView) -> bool {
    key_of(a) == key_of(b)
}

pub fn clone_opt(o: &Option<String>) -> (r: Option<String>)
    ensures
        opt_view(r) == opt_view(*o),
{
    match o {
        Some(s) => Some(s.clone()),
        None => None,
    }
}

pub fn opt_eq(a: &Option<String>, b: &Option<String>) -> (r: bool)
    ensures
        r == (opt_view(*a) == opt_view(*b)),
{
    match a {
        Some(x) => match b {
            Some(y) => x.eq(y),
            None => false,
        },
        None => b.is_none(),
    }
}

impl Default for MinionResult {
    /// A failed record with no command, message, output or host.
    fn default() -> (r: MinionResult)
        ensures
            r@ == (ResultView {
                command: None,
                retcode: Retcode::Failure,
                output: None,
                result: None,
                host: Seq::empty(),
            }),
    {
        MinionResult {
            command: None,
            retcode: Retcode::Failure,
            output: None,
            result: None,
            host: String::new(),
        }
    }
}

impl MinionResult {
    /// This record with its host cleared: the identity under which records
    /// are grouped.
    pub fn grouping_key(&self) -> (r: MinionResult)
        ensures
            r@ == key_of(self@),
    {
        MinionResult {
            command: clone_opt(&self.command),
            retcode: self.retcode,
            output: clone_opt(&self.output),
            result: clone_opt(&self.result),
            host: String::new(),
        }
    }

    /// Whether the two records are the same result, hosts aside.
    pub fn same_result_as(&self, other: &MinionResult) -> (r: bool)
        ensures
            r == same_result(self@, other@),
    {
        let r = opt_eq(&self.command, &other.command) && self.retcode == other.retcode
            && opt_eq(&self.output, &other.output) && opt_eq(&self.result, &other.result);
        proof {
            if r {
                assert(key_of(self@) == key_of(other@));
            }
        }
        r
    }
}

} // verus!
