//! The process runner's decision logic: how a command string is turned into a
//! spawn plan, what the execution endpoint answers, how streamed output lines
//! are named and forwarded. The spawning itself and the pipe reads are the
//! caller's I/O; every decision around them is verified here.

use vstd::prelude::*;

use crate::bus::{DeliveryOutcome, EventBus};
use crate::json::{json_accepted, json_quote, json_quoted, parse_json, str_field, str_field_of};
use crate::lines::{decode_line, payload_json, utf8_lossy, utf8_lossy_of};

verus! {

/// An execution request, as the endpoint receives it: a command string and
/// the mode — one-shot (block, return the output) or polling (return at once,
/// stream the output to the destination label).
pub struct ExecRequest {
    pub command: String,
    pub polls: bool,
}

/// How a target string is to be spawned: directly as a program, or handed
/// verbatim to a shell for interpretation.
pub enum SpawnPlan {
    Direct(String),
    Shell(String),
}

/// The spawn policy: a target that names an existing filesystem entry is
/// executed directly as a program; any other target string goes to the shell,
/// unmodified. That raw text can reach a shell verbatim is an accepted trust
/// boundary — the caller is the local, already-privileged UI.
pub fn plan_spawn(command: String, target_exists: bool) -> (r: SpawnPlan)
    ensures
        target_exists ==> r == SpawnPlan::Direct(command),
        !target_exists ==> r == SpawnPlan::Shell(command),
{
    if target_exists {
        SpawnPlan::Direct(command)
    } else {
        SpawnPlan::Shell(command)
    }
}

/// The characters after the last path separator; the whole sequence when no
/// separator occurs.
pub open spec fn after_last_slash(s: Seq<char>) -> Seq<char>
    decreases s.len(),
{
    if s.len() == 0 {
        Seq::empty()
    } else if s.last() == '/' {
        Seq::empty()
    } else {
        after_last_slash(s.drop_last()).push(s.last())
    }
}

/// The file name a path ends in: its last segment, with trailing separators
/// and bare `.` segments ignored; nothing when the path is empty, all
/// separators, or ends in a parent-directory step.
pub open spec fn spec_file_name(s: Seq<char>) -> Option<Seq<char>>
    decreases s.len(),
{
    if s.len() == 0 {
        None
    } else if s.last() == '/' {
        spec_file_name(s.drop_last())
    } else if s.last() == '.' && (s.len() == 1 || s[s.len() - 2] == '/') {
        spec_file_name(s.drop_last())
    } else {
        let seg = after_last_slash(s);
        if seg == ".."@ {
            None
        } else {
            Some(seg)
        }
    }
}

/// The file name a path string ends in, if any.
pub fn file_name(s: &str) -> (r: Option<String>)
    ensures
        match r {
            Some(n) => spec_file_name(s@) == Some(n@),
            None => spec_file_name(s@) is None,
        },
{
    let n = s.unicode_len();
    let mut e: usize = n;
    assert(s@.take(n as int) =~= s@);
    while e > 0
        invariant
            e <= s@.len(),
            spec_file_name(s@) == spec_file_name(s@.take(e as int)),
        ensures
            e <= s@.len(),
            spec_file_name(s@) == spec_file_name(s@.take(e as int)),
            e == 0 || (s@[e as int - 1] != '/' && !(s@[e as int - 1] == '.' && (e == 1 || s@[
                e as int - 2] == '/'))),
        decreases e,
    {
        let ghost pre = s@.take(e as int);
        assert(pre.last() == s@[e as int - 1]);
        assert(pre.drop_last() =~= s@.take(e as int - 1));
        let c = s.get_char(e - 1);
        if c == '/' {
            e = e - 1;
        } else if c == '.' && (e == 1 || s.get_char(e - 2) == '/') {
            assert(pre.len() == 1 || pre[pre.len() - 2] == s@[e as int - 2]);
            e = e - 1;
        } else {
            break ;
        }
    }
    if e == 0 {
        assert(s@.take(0) =~= Seq::<char>::empty());
        return None;
    }
    let ghost pre = s@.take(e as int);
    let mut b: usize = e;
    while b > 0
        invariant
            b <= e <= s@.len(),
            pre == s@.take(e as int),
            after_last_slash(pre) == after_last_slash(s@.take(b as int)) + s@.subrange(
                b as int,
                e as int,
            ),
        ensures
            b <= e,
            pre == s@.take(e as int),
            after_last_slash(pre) == after_last_slash(s@.take(b as int)) + s@.subrange(
                b as int,
                e as int,
            ),
            b == 0 || s@[b as int - 1] == '/',
        decreases b,
    {
        if s.get_char(b - 1) == '/' {
            break ;
        }
        proof {
            let cut = s@.take(b as int);
            assert(cut.last() == s@[b as int - 1]);
            assert(cut.drop_last() =~= s@.take(b as int - 1));
            assert(after_last_slash(cut) == after_last_slash(s@.take(b as int - 1)).push(
                s@[b as int - 1],
            ));
            assert(after_last_slash(s@.take(b as int - 1)).push(s@[b as int - 1]) + s@.subrange(
                b as int,
                e as int,
            ) =~= after_last_slash(s@.take(b as int - 1)) + s@.subrange(b as int - 1, e as int));
        }
        b = b - 1;
    }
    proof {
        if b == 0 {
            assert(s@.take(0) =~= Seq::<char>::empty());
            assert(after_last_slash(Seq::<char>::empty()) == Seq::<char>::empty());
        } else {
            assert(s@.take(b as int).last() == s@[b as int - 1]);
            assert(after_last_slash(s@.take(b as int)) == Seq::<char>::empty());
        }
        assert(Seq::<char>::empty() + s@.subrange(b as int, e as int) =~= s@.subrange(
            b as int,
            e as int,
        ));
        assert(after_last_slash(pre) == s@.subrange(b as int, e as int));
    }
    let seg = s.substring_char(b, e);
    let seg_string = seg.to_owned();
    proof {
        assert(pre.last() == s@[e as int - 1]);
        assert(pre.len() == 1 || pre[pre.len() - 2] == s@[e as int - 2]);
        assert(spec_file_name(pre) == (if after_last_slash(pre) == ".."@ {
            Option::<Seq<char>>::None
        } else {
            Option::<Seq<char>>::Some(after_last_slash(pre))
        }));
    }
    if seg_string.eq(&String::from_str("..")) {
        None
    } else {
        Some(seg_string)
    }
}

/// The event name for a streamed execution: the file name of the target, or a
/// fixed placeholder when the target has none.
pub fn event_name_of(command: &String) -> (r: String)
    ensures
        match spec_file_name(command@) {
            Some(n) => r@ == n,
            None => r@ == "unknown-command"@,
        },
{
    match file_name(command.as_str()) {
        Some(n) => n,
        None => String::from_str("unknown-command"),
    }
}

/// The destination label of a request: the label header when the UI sent one,
/// else a sentinel label that is never registered, so that delivery quietly
/// discards the output.
pub fn label_or_default(label: Option<String>) -> (r: String)
    ensures
        match label {
            Some(l) => r@ == l@,
            None => r@ == "unknown-label"@,
        },
{
    match label {
        Some(l) => l,
        None => String::from_str("unknown-label"),
    }
}

/// The immediate answer of the execution endpoint: a status code and a JSON
/// body.
pub struct ExecResponse {
    pub status: u16,
    pub body: String,
}

/// The error body sent when a command could not be run: a one-field JSON
/// object carrying the message.
pub open spec fn spec_error_body(msg: Seq<char>) -> Seq<char> {
    "{\"error\":"@ + json_quoted(msg) + "}"@
}

fn error_response(prefix: &str, error: &String) -> (r: ExecResponse)
    ensures
        r.status == 500,
        r.body@ == spec_error_body(prefix@ + error@),
{
    let mut msg = prefix.to_owned();
    msg.append(error.as_str());
    let mut body = String::from_str("{\"error\":");
    body.append(json_quote(msg.as_str()).as_str());
    body.append("}");
    ExecResponse { status: 500, body }
}

/// The answer when a polling command's child could not be spawned: a 500 with
/// the spawn error, sent before any streaming begins.
pub fn spawn_failure_response(error: &String) -> (r: ExecResponse)
    ensures
        r.status == 500,
        r.body@ == spec_error_body("Failed to spawn command: "@ + error@),
{
    error_response("Failed to spawn command: ", error)
}

/// The answer when a one-shot command could not be executed: a 500 with the
/// execution error.
pub fn exec_failure_response(error: &String) -> (r: ExecResponse)
    ensures
        r.status == 500,
        r.body@ == spec_error_body("Failed to execute command: "@ + error@),
{
    error_response("Failed to execute command: ", error)
}

/// The immediate acknowledgement of a polling execution: the caller is not
/// kept waiting for the child; output arrives through the event bus instead.
pub fn poll_started_response() -> (r: ExecResponse)
    ensures
        r.status == 200,
        r.body@ == "{\"message\":\"Polling command started\"}"@,
{
    ExecResponse { status: 200, body: String::from_str("{\"message\":\"Polling command started\"}") }
}

/// The answer of a one-shot execution that ran to completion: 200 with the
/// child's standard output as a JSON-encoded string.
pub fn oneshot_response(stdout: &[u8]) -> (r: ExecResponse)
    ensures
        r.status == 200,
        r.body@ == json_quoted(utf8_lossy_of(stdout@)),
{
    let text = utf8_lossy(stdout);
    ExecResponse { status: 200, body: json_quote(text.as_str()) }
}

/// The accumulated output of a one-shot execution whose caller requires the
/// whole output to itself be a structured document: accepted exactly when the
/// text parses as JSON, handed back untouched either way.
pub fn require_structured(output: String) -> (r: Result<String, String>)
    ensures
        r matches Ok(o) ==> json_accepted(output@) && o@ == output@,
        r matches Err(o) ==> !json_accepted(output@) && o@ == output@,
{
    match parse_json(output.as_str()) {
        Some(_) => Ok(output),
        None => Err(output),
    }
}

/// Decodes one line of child output and delivers it to the destination label
/// as a named event: the payload is the line's own JSON value, or the line
/// wrapped as `{"output": <line>}` when it is not JSON. Delivery is best
/// effort: an unregistered label quietly discards the event.
pub fn forward_line(bus: &EventBus, label: &String, name: String, line: String) -> (r:
    DeliveryOutcome)
    requires
        bus.wf(),
    ensures
        r == DeliveryOutcome::NoSink <==> !bus.sinks().contains_key(label@),
{
    let decoded = decode_line(line);
    let payload = payload_json(&decoded);
    bus.deliver(label, name, payload)
}

/// The decision of the streaming channel: a text message is acted on exactly
/// when it is a JSON object with `"type": "exec"` and a string `"path"`; the
/// result is that path, verbatim — to be spawned detached, its output
/// discarded. Any other message yields nothing: it is silently ignored and
/// never closes the channel.
pub fn ws_exec_command(text: &str) -> (r: Option<String>)
    ensures
        str_field_of(text@, "type"@) == Some("exec"@) ==> match r {
            Some(c) => str_field_of(text@, "path"@) == Some(c@),
            None => str_field_of(text@, "path"@) is None,
        },
        str_field_of(text@, "type"@) != Some("exec"@) ==> r is None,
        r is Some ==> json_accepted(text@),
{
    match str_field(text, "type") {
        Some(t) => {
            if t.eq(&String::from_str("exec")) {
                str_field(text, "path")
            } else {
                None
            }
        },
        None => None,
    }
}

} // verus!
