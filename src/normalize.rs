//! Turns a parsed report into a flat sequence of canonical records.

use vstd::prelude::*;
use crate::json::{field, JsonValue};
use crate::record::{retcode_of, views, MinionResult, ResultView, Retcode};
use crate::table::{FailureTable, TableView};

verus! {

/// Why a report could not be read.
#[derive(Debug, Clone, Copy, PartialEq, Eq, Structural)]
pub enum ResultError {
    /// A command's `changes.diff` is not a string.
    ConvertDiffToString,
    /// A command's `comment` is not a string.
    ConvertValueToString,
    /// A host's `retcode` is not a non-negative integer.
    ReturnCodeNotNumber,
    /// A host's result is null.
    RetValueIsNull,
    /// A host's result is a number.
    RetValueIsNumber,
    /// The report is not an object of hosts.
    ValueNotAnObject,
    /// A host's result is a list with an item that is not a string.
    ArrayElementNotString,
}

impl ResultError {
    /// A sentence that names the error.
    pub fn message(&self) -> (r: &'static str)
        ensures
            r@ == error_message(*self),
    {
        match self {
            ResultError::ConvertDiffToString => "can not convert diff to string",
            ResultError::ConvertValueToString => "can not convert value to string",
            ResultError::ReturnCodeNotNumber => "returncode is not a number",
            ResultError::RetValueIsNull => "ret value is null",
            ResultError::RetValueIsNumber => "ret value is number",
            ResultError::ValueNotAnObject => "value it not an object",
            ResultError::ArrayElementNotString => "can not convert the array value to a string",
        }
    }
}

pub open spec fn error_message(e: ResultError) -> Seq<char> {
    match e {
        ResultError::ConvertDiffToString => "can not convert diff to string"@,
        ResultError::ConvertValueToString => "can not convert value to string"@,
        ResultError::ReturnCodeNotNumber => "returncode is not a number"@,
        ResultError::RetValueIsNull => "ret value is null"@,
        ResultError::RetValueIsNumber => "ret value is number"@,
        ResultError::ValueNotAnObject => "value it not an object"@,
        ResultError::ArrayElementNotString => "can not convert the array value to a string"@,
    }
}

/// A host's outcome: its `retcode`, a failure where it has none.
pub open spec fn host_retcode(v: JsonValue) -> Result<Retcode, ResultError> {
    match field(v, "retcode"@) {
        None => Ok(Retcode::Failure),
        Some(JsonValue::Number(Some(n))) => Ok(retcode_of(n)),
        Some(_) => Err(ResultError::ReturnCodeNotNumber),
    }
}

/// What a host returned: its `ret` member, or the whole value where it has none.
pub open spec fn payload(v: JsonValue) -> JsonValue {
    match field(v, "ret"@) {
        Some(r) => r,
        None => v,
    }
}

pub open spec fn bool_text(b: bool) -> Seq<char> {
    if b {
        "true"@
    } else {
        "false"@
    }
}

/// The lines joined, with a newline between two neighbours.
pub open spec fn join_lines(lines: Seq<Seq<char>>) -> Seq<char>
    decreases lines.len(),
{
    if lines.len() == 0 {
        Seq::empty()
    } else if lines.len() == 1 {
        lines[0]
    } else {
        join_lines(lines.drop_last()) + "\n"@ + lines.last()
    }
}

pub open spec fn all_strings(items: Seq<JsonValue>) -> bool {
    forall|i: int| 0 <= i < items.len() ==> items[i] is String
}

pub open spec fn string_items(items: Seq<JsonValue>) -> Seq<Seq<char>> {
    items.map_values(
        |v: JsonValue|
            match v {
                JsonValue::String(s) => s@,
                _ => Seq::empty(),
            },
    )
}

/// A record without a command.
pub open spec fn host_record(host: Seq<char>, rc: Retcode, result: Option<Seq<char>>) -> ResultView {
    ResultView { command: None, retcode: rc, output: None, result, host }
}

/// An optional string member: absent, a string, or an error.
pub open spec fn string_member(v: Option<JsonValue>, e: ResultError) -> Result<Option<Seq<char>>, ResultError> {
    match v {
        None => Ok(None),
        Some(JsonValue::String(s)) => Ok(Some(s@)),
        Some(_) => Err(e),
    }
}

/// A command's message: its `comment`.
pub open spec fn command_comment(cr: JsonValue) -> Result<Option<Seq<char>>, ResultError> {
    string_member(field(cr, "comment"@), ResultError::ConvertValueToString)
}

/// A command's body: its `changes.diff`.
pub open spec fn command_diff(cr: JsonValue) -> Result<Option<Seq<char>>, ResultError> {
    match field(cr, "changes"@) {
        None => Ok(None),
        Some(c) => string_member(field(c, "diff"@), ResultError::ConvertDiffToString),
    }
}

/// The record of one command of a host.
pub open spec fn command_record(host: Seq<char>, rc: Retcode, command: Seq<char>, cr: JsonValue) -> Result<ResultView, ResultError> {
    match command_comment(cr) {
        Err(e) => Err(e),
        Ok(result) => match command_diff(cr) {
            Err(e) => Err(e),
            Ok(output) => Ok(ResultView { command: Some(command), retcode: rc, output, result, host }),
        },
    }
}

/// The records of a host's commands, in order; the first error met wins.
pub open spec fn command_records(host: Seq<char>, rc: Retcode, commands: Seq<(String, JsonValue)>) -> Result<Seq<ResultView>, ResultError>
    decreases commands.len(),
{
    if commands.len() == 0 {
        Ok(Seq::empty())
    } else {
        match command_records(host, rc, commands.drop_last()) {
            Err(e) => Err(e),
            Ok(rs) => match command_record(host, rc, commands.last().0@, commands.last().1) {
                Err(e) => Err(e),
                Ok(r) => Ok(rs.push(r)),
            },
        }
    }
}

/// The records of one host, by the kind of value that it returned.
pub open spec fn host_records(host: Seq<char>, v: JsonValue) -> Result<Seq<ResultView>, ResultError> {
    match host_retcode(v) {
        Err(e) => Err(e),
        Ok(rc) => match payload(v) {
            JsonValue::Null => Err(ResultError::RetValueIsNull),
            JsonValue::Bool(b) => Ok(seq![host_record(host, rc, Some(bool_text(b)))]),
            JsonValue::Number(_) => Err(ResultError::RetValueIsNumber),
            JsonValue::String(s) => Ok(seq![host_record(host, rc, Some(s@))]),
            JsonValue::Array(items) => if all_strings(items@) {
                Ok(seq![host_record(host, rc, Some(join_lines(string_items(items@))))])
            } else {
                Err(ResultError::ArrayElementNotString)
            },
            JsonValue::Object(commands) => if commands@.len() == 0 {
                Ok(seq![host_record(host, rc, None)])
            } else {
                command_records(host, rc, commands@)
            },
        },
    }
}

/// The records of all hosts, host after host; the first error met wins.
pub open spec fn hosts_records(hosts: Seq<(String, JsonValue)>) -> Result<Seq<ResultView>, ResultError>
    decreases hosts.len(),
{
    if hosts.len() == 0 {
        Ok(Seq::empty())
    } else {
        match hosts_records(hosts.drop_last()) {
            Err(e) => Err(e),
            Ok(rs) => match host_records(hosts.last().0@, hosts.last().1) {
                Err(e) => Err(e),
                Ok(more) => Ok(rs + more),
            },
        }
    }
}

/// A failed record for each host of the side table, its reason as the output.
pub open spec fn failure_records(t: TableView) -> Seq<ResultView> {
    t.map_values(
        |e: (Seq<char>, Seq<char>)|
            ResultView { command: None, retcode: Retcode::Failure, output: Some(e.1), result: None, host: e.0 },
    )
}

/// The records of a whole report: those of its hosts, then those of the side table.
pub open spec fn report_records(v: JsonValue, t: TableView) -> Result<Seq<ResultView>, ResultError> {
    match v {
        JsonValue::Object(hosts) => match hosts_records(hosts@) {
            Err(e) => Err(e),
            Ok(rs) => Ok(rs + failure_records(t)),
        },
        _ => Err(ResultError::ValueNotAnObject),
    }
}

fn string_of(text: &str) -> (r: String)
    ensures
        r@ == text@,
{
    <String as vstd::string::StringExecFns>::from_str(text)
}

/// A host's outcome.
fn retcode_exec(v: &JsonValue) -> (r: Result<Retcode, ResultError>)
    ensures
        r == host_retcode(*v),
{
    let key = string_of("retcode");
    match v.get(&key) {
        None => Ok(Retcode::Failure),
        Some(JsonValue::Number(Some(n))) => Ok(Retcode::from(*n)),
        Some(_) => Err(ResultError::ReturnCodeNotNumber),
    }
}

pub open spec fn deref_member(v: Option<&JsonValue>) -> Option<JsonValue> {
    match v {
        Some(x) => Some(*x),
        None => None,
    }
}

pub open spec fn opt_result_view(r: Result<Option<String>, ResultError>) -> Result<Option<Seq<char>>, ResultError> {
    match r {
        Ok(o) => Ok(crate::record::opt_view(o)),
        Err(e) => Err(e),
    }
}

/// An optional string member, copied out.
fn string_member_exec(v: Option<&JsonValue>, e: ResultError) -> (r: Result<Option<String>, ResultError>)
    ensures
        opt_result_view(r) == string_member(deref_member(v), e),
{
    match v {
        None => Ok(None),
        Some(JsonValue::String(s)) => Ok(Some(s.clone())),
        Some(_) => Err(e),
    }
}

/// The record of one command of a host.
fn command_record_exec(host: &String, rc: Retcode, command: &String, cr: &JsonValue) -> (r: Result<MinionResult, ResultError>)
    ensures
        match r {
            Ok(x) => command_record(host@, rc, command@, *cr) == Ok::<ResultView, ResultError>(x@),
            Err(e) => command_record(host@, rc, command@, *cr) == Err::<ResultView, ResultError>(e),
        },
{
    let comment_key = string_of("comment");
    let result = match string_member_exec(cr.get(&comment_key), ResultError::ConvertValueToString) {
        Ok(o) => o,
        Err(e) => return Err(e),
    };
    let changes_key = string_of("changes");
    let output = match cr.get(&changes_key) {
        None => None,
        Some(c) => {
            let diff_key = string_of("diff");
            match string_member_exec(c.get(&diff_key), ResultError::ConvertDiffToString) {
                Ok(o) => o,
                Err(e) => return Err(e),
            }
        },
    };
    Ok(MinionResult { command: Some(command.clone()), retcode: rc, output, result, host: host.clone() })
}

/// The items of a list of strings, joined by newlines; an error where an
/// item is not a string.
fn join_items(items: &Vec<JsonValue>) -> (r: Result<String, ResultError>)
    ensures
        match r {
            Ok(s) => all_strings(items@) && s@ == join_lines(string_items(items@)),
            Err(e) => !all_strings(items@) && e == ResultError::ArrayElementNotString,
        },
{
    let mut out = String::new();
    let mut i: usize = 0;
    while i < items.len()
        invariant
            0 <= i <= items@.len(),
            all_strings(items@.take(i as int)),
            out@ == join_lines(string_items(items@.take(i as int))),
        decreases items@.len() - i,
    {
        proof {
            assert(string_items(items@.take(i + 1)).drop_last() =~= string_items(items@.take(i as int)));
        }
        match &items[i] {
            JsonValue::String(s) => {
                if i > 0 {
                    out.append("\n");
                }
                out.append(s.as_str());
                proof {
                    if i == 0 {
                        assert(out@ =~= join_lines(string_items(items@.take(1))));
                    }
                }
            },
            _ => {
                return Err(ResultError::ArrayElementNotString);
            },
        }
        i = i + 1;
    }
    assert(items@.take(items@.len() as int) =~= items@);
    Ok(out)
}

/// One record without a command.
fn host_record_exec(host: &String, rc: Retcode, result: Option<String>) -> (r: MinionResult)
    ensures
        r@ == host_record(host@, rc, crate::record::opt_view(result)),
{
    MinionResult { command: None, retcode: rc, output: None, result, host: host.clone() }
}

/// Appends the records of one host.
fn push_host_records(host: &String, v: &JsonValue, out: &mut Vec<MinionResult>) -> (r: Result<(), ResultError>)
    ensures
        match host_records(host@, *v) {
            Ok(rs) => r is Ok && views(final(out)@) == views(old(out)@) + rs,
            Err(e) => r == Err::<(), ResultError>(e),
        },
{
    let rc = match retcode_exec(v) {
        Ok(rc) => rc,
        Err(e) => return Err(e),
    };
    let ret_key = string_of("ret");
    let ret = match v.get(&ret_key) {
        Some(r) => r,
        None => v,
    };
    let ghost start = out@;
    match ret {
        JsonValue::Null => Err(ResultError::RetValueIsNull),
        JsonValue::Bool(b) => {
            let text = if *b { string_of("true") } else { string_of("false") };
            out.push(host_record_exec(host, rc, Some(text)));
            assert(views(out@) =~= views(start) + host_records(host@, *v)->Ok_0);
            Ok(())
        },
        JsonValue::Number(_) => Err(ResultError::RetValueIsNumber),
        JsonValue::String(s) => {
            out.push(host_record_exec(host, rc, Some(s.clone())));
            assert(views(out@) =~= views(start) + host_records(host@, *v)->Ok_0);
            Ok(())
        },
        JsonValue::Array(items) => {
            match join_items(items) {
                Ok(text) => {
                    out.push(host_record_exec(host, rc, Some(text)));
                    assert(views(out@) =~= views(start) + host_records(host@, *v)->Ok_0);
                    Ok(())
                },
                Err(e) => Err(e),
            }
        },
        JsonValue::Object(commands) => {
            if commands.len() == 0 {
                out.push(host_record_exec(host, rc, None));
                assert(views(out@) =~= views(start) + host_records(host@, *v)->Ok_0);
                return Ok(());
            }
            let mut i: usize = 0;
            while i < commands.len()
                invariant
                    0 <= i <= commands@.len(),
                    commands@.len() > 0,
                    host_retcode(*v) == Ok::<Retcode, ResultError>(rc),
                    payload(*v) == JsonValue::Object(*commands),
                    command_records(host@, rc, commands@.take(i as int)) matches Ok(rs)
                        && views(out@) == views(start) + rs,
                decreases commands@.len() - i,
            {
                proof {
                    assert(commands@.take(i + 1).drop_last() =~= commands@.take(i as int));
                }
                let ghost before = out@;
                match command_record_exec(host, rc, &commands[i].0, &commands[i].1) {
                    Ok(rec) => {
                        out.push(rec);
                        proof {
                            let rs = command_records(host@, rc, commands@.take(i as int))->Ok_0;
                            assert(views(out@) =~= views(before).push(rec@));
                            assert(views(start) + rs.push(rec@) =~= (views(start) + rs).push(rec@));
                        }
                    },
                    Err(e) => {
                        proof {
                            assert(commands@.take(i + 1).last() == commands@[i as int]);
                            assert(command_records(host@, rc, commands@.take(i + 1)) == Err::<Seq<ResultView>, ResultError>(e));
                            lemma_command_error_persists(host@, rc, commands@, i as int + 1);
                        }
                        return Err(e);
                    },
                }
                i = i + 1;
            }
            assert(commands@.take(commands@.len() as int) =~= commands@);
            Ok(())
        },
    }
}

/// Once the commands up to `k` give an error, all of them give that error.
proof fn lemma_command_error_persists(host: Seq<char>, rc: Retcode, commands: Seq<(String, JsonValue)>, k: int)
    requires
        0 < k <= commands.len(),
        command_records(host, rc, commands.take(k)) is Err,
    ensures
        command_records(host, rc, commands) == command_records(host, rc, commands.take(k)),
    decreases commands.len() - k,
{
    if k < commands.len() {
        assert(commands.take(k + 1).drop_last() =~= commands.take(k));
        lemma_command_error_persists(host, rc, commands, k + 1);
    } else {
        assert(commands.take(k) =~= commands);
    }
}

/// Once the hosts up to `k` give an error, all of them give that error.
proof fn lemma_host_error_persists(hosts: Seq<(String, JsonValue)>, k: int)
    requires
        0 < k <= hosts.len(),
        hosts_records(hosts.take(k)) is Err,
    ensures
        hosts_records(hosts) == hosts_records(hosts.take(k)),
    decreases hosts.len() - k,
{
    if k < hosts.len() {
        assert(hosts.take(k + 1).drop_last() =~= hosts.take(k));
        lemma_host_error_persists(hosts, k + 1);
    } else {
        assert(hosts.take(k) =~= hosts);
    }
}

/// The records of a report: one or more for each host, in the report's
/// order, then a failed one for each host of the side table, its reason as
/// the output. Fails with the first error met, host by host.
pub fn get_results(value: &JsonValue, failed_minions: &FailureTable) -> (r: Result<Vec<MinionResult>, ResultError>)
    ensures
        match r {
            Ok(rs) => report_records(*value, failed_minions@) == Ok::<Seq<ResultView>, ResultError>(views(rs@)),
            Err(e) => report_records(*value, failed_minions@) == Err::<Seq<ResultView>, ResultError>(e),
        },
{
    let hosts = match value {
        JsonValue::Object(hosts) => hosts,
        _ => return Err(ResultError::ValueNotAnObject),
    };
    let mut results: Vec<MinionResult> = Vec::new();
    let mut i: usize = 0;
    while i < hosts.len()
        invariant
            0 <= i <= hosts@.len(),
            *value == JsonValue::Object(*hosts),
            hosts_records(hosts@.take(i as int)) matches Ok(rs) && views(results@) == rs,
        decreases hosts@.len() - i,
    {
        proof {
            assert(hosts@.take(i + 1).drop_last() =~= hosts@.take(i as int));
        }
        let ghost before = results@;
        match push_host_records(&hosts[i].0, &hosts[i].1, &mut results) {
            Ok(()) => {},
            Err(e) => {
                proof {
                    lemma_host_error_persists(hosts@, i + 1);
                }
                return Err(e);
            },
        }
        i = i + 1;
    }
    assert(hosts@.take(hosts@.len() as int) =~= hosts@);
    let ghost host_part = results@;
    let mut j: usize = 0;
    while j < failed_minions.len()
        invariant
            0 <= j <= failed_minions@.len(),
            views(results@) == views(host_part) + failure_records(failed_minions@.take(j as int)),
        decreases failed_minions@.len() - j,
    {
        let (host, reason) = failed_minions.entry(j);
        let ghost before = results@;
        results.push(MinionResult {
            command: None,
            retcode: Retcode::Failure,
            output: Some(reason.clone()),
            result: None,
            host: host.clone(),
        });
        proof {
            assert(failure_records(failed_minions@.take(j + 1)) =~= failure_records(failed_minions@.take(j as int)).push(
                failure_records(failed_minions@)[j as int]));
            assert(views(results@) =~= views(before).push(results@.last()@));
        }
        j = j + 1;
    }
    assert(failed_minions@.take(failed_minions@.len() as int) =~= failed_minions@);
    Ok(results)
}

} // verus!
