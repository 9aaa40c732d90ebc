//! The framing of messages between ugdb and the programs that control it
//! (editors): a twelve-byte header `ugdb-ipc` with the length of the
//! message in four little-endian bytes, then the message; the reading of a
//! request as UTF-8 text and as JSON; and the choice of the function that a
//! request calls.
use vstd::prelude::*;
use crate::breakpoints::BreakpointOperationError;
use crate::mi::value::{obj_get, object_get, str_eq, entries_view, MiValue, Val};
use crate::mi::ExecuteError;
use crate::text::{decimal, decimal_string, push_char, push_str, str_from_utf8};

verus! {

/// The length of a message header.
pub const HEADER_LENGTH: usize = 12;

/// The identifier that starts each header: `ugdb-ipc`.
pub open spec fn ipc_identifier() -> Seq<u8> {
    seq![117u8, 103u8, 100u8, 98u8, 45u8, 105u8, 112u8, 99u8]
}

/// The four little-endian bytes of `n`.
pub open spec fn le_bytes(n: u32) -> Seq<u8> {
    seq![
        (n % 256) as u8,
        ((n / 256) % 256) as u8,
        ((n / 65536) % 256) as u8,
        ((n / 16777216) % 256) as u8,
    ]
}

/// The number that four little-endian bytes stand for.
pub open spec fn le_value(b: Seq<u8>) -> nat {
    b[0] as nat + b[1] as nat * 256 + b[2] as nat * 65536 + b[3] as nat * 16777216
}

/// The header of a message of `msg_len` bytes.
pub open spec fn header_spec(msg_len: u32) -> Seq<u8> {
    ipc_identifier() + le_bytes(msg_len)
}

fn identifier_bytes() -> (r: Vec<u8>)
    ensures
        r@ == ipc_identifier(),
{
    let r: Vec<u8> = vec![117u8, 103u8, 100u8, 98u8, 45u8, 105u8, 112u8, 99u8];
    assert(r@ =~= ipc_identifier());
    r
}

/// The header of a message of `msg_len` bytes (see [`header_spec`]).
pub fn write_ipc_header(msg_len: u32) -> (r: Vec<u8>)
    ensures
        r@ == header_spec(msg_len),
{
    let mut r = identifier_bytes();
    r.push((msg_len % 256) as u8);
    r.push(((msg_len / 256) % 256) as u8);
    r.push(((msg_len / 65536) % 256) as u8);
    r.push(((msg_len / 16777216) % 256) as u8);
    assert(r@ =~= header_spec(msg_len));
    r
}

/// The bytes of a response: the header for the length of `msg` (cut to
/// 32 bits), then `msg`.
pub fn write_ipc_response(msg: &[u8]) -> (r: Vec<u8>)
    ensures
        r@ == header_spec(msg@.len() as u32) + msg@,
{
    let mut r = write_ipc_header(msg.len() as u32);
    let ghost h = r@;
    let mut i: usize = 0;
    while i < msg.len()
        invariant
            i <= msg@.len(),
            r@ == h + msg@.take(i as int),
        decreases msg@.len() - i,
    {
        r.push(msg[i]);
        assert(h + msg@.take(i + 1) =~= (h + msg@.take(i as int)).push(msg@[i as int]));
        i += 1;
    }
    assert(msg@.take(msg@.len() as int) =~= msg@);
    r
}

/// The message length that a twelve-byte header announces, if it starts
/// with the identifier.
pub open spec fn read_header_spec(buf: Seq<u8>) -> Option<nat> {
    if buf.len() == 12 && buf.take(8) == ipc_identifier() {
        Some(le_value(buf.skip(8)))
    } else {
        None
    }
}

/// The message length that the header `buf` announces (see
/// [`read_header_spec`]).
pub fn try_read_ipc_header(buf: &[u8]) -> (r: Option<u32>)
    ensures
        match r {
            Some(n) => read_header_spec(buf@) == Some(n as nat),
            None => read_header_spec(buf@) is None,
        },
{
    if buf.len() != HEADER_LENGTH {
        return None;
    }
    let id = identifier_bytes();
    let mut i: usize = 0;
    while i < 8
        invariant
            i <= 8,
            buf@.len() == 12,
            id@ == ipc_identifier(),
            forall|k: int| 0 <= k < i ==> buf@[k] == id@[k],
        decreases 8 - i,
    {
        if buf[i] != id[i] {
            assert(buf@.take(8)[i as int] != ipc_identifier()[i as int]);
            return None;
        }
        i += 1;
    }
    assert(buf@.take(8) =~= ipc_identifier());
    let len: u32 = buf[8] as u32 + (buf[9] as u32) * 256 + (buf[10] as u32) * 65536 + (buf[11] as u32) * 16777216;
    assert(buf@.skip(8)[0] == buf@[8]);
    assert(buf@.skip(8)[1] == buf@[9]);
    assert(buf@.skip(8)[2] == buf@[10]);
    assert(buf@.skip(8)[3] == buf@[11]);
    Some(len)
}

/// Reading the header written for a message gives back its length.
pub proof fn lemma_header_round_trip(msg_len: u32)
    ensures
        read_header_spec(header_spec(msg_len)) == Some(msg_len as nat),
{
    let h = header_spec(msg_len);
    assert(h.take(8) =~= ipc_identifier());
    assert(h.skip(8) =~= le_bytes(msg_len));
    let n = msg_len as int;
    assert(le_value(le_bytes(msg_len)) == n) by (nonlinear_arith)
        requires
            0 <= n < 4294967296,
            le_value(le_bytes(msg_len)) == (n % 256) + ((n / 256) % 256) * 256 + ((n / 65536) % 256) * 65536 + ((n / 16777216) % 256) * 16777216,
    ;
}

/// A failed request: a reason and details.
#[derive(Debug, PartialEq, Eq)]
pub struct IPCError {
    pub reason: String,
    pub details: String,
}

impl IPCError {
    pub fn new(reason: &str, details: String) -> (r: Self)
        ensures
            r.reason@ == reason@,
            r.details@ == details@,
    {
        IPCError { reason: reason.to_owned(), details }
    }
}

/// The functions that a request can call.
#[derive(Copy, Clone, Debug, PartialEq, Eq, Structural)]
pub enum IpcFunction {
    SetBreakpoint,
    GetInstanceInfo,
}

/// The function that a request names, or the error for an unknown name.
pub fn dispatch(function_name: &str) -> (r: Result<IpcFunction, IPCError>)
    ensures
        function_name@ == "set_breakpoint"@ ==> r == Ok::<IpcFunction, IPCError>(IpcFunction::SetBreakpoint),
        function_name@ == "get_instance_info"@ ==> r == Ok::<IpcFunction, IPCError>(IpcFunction::GetInstanceInfo),
        function_name@ != "set_breakpoint"@ && function_name@ != "get_instance_info"@ ==> (r matches Err(e)
            && e.reason@ == "unknown function"@ && e.details@ == function_name@),
{
    proof {
        reveal_strlit("set_breakpoint");
        reveal_strlit("get_instance_info");
        assert("set_breakpoint"@.len() != "get_instance_info"@.len());
    }
    if str_eq(function_name, "set_breakpoint") {
        Ok(IpcFunction::SetBreakpoint)
    } else if str_eq(function_name, "get_instance_info") {
        Ok(IpcFunction::GetInstanceInfo)
    } else {
        Err(IPCError::new("unknown function", function_name.to_owned()))
    }
}

/// The reply to setting a breakpoint at `file`:`line`: a confirmation, or
/// why it failed.
pub fn set_breakpoint_reply(file: &str, line: u32, result: Result<(), BreakpointOperationError>) -> (r: Result<String, IPCError>)
    ensures
        match result {
            Ok(()) => r matches Ok(m) && m@ == "Inserted breakpoint at "@ + file@ + seq![':'] + decimal(line as nat),
            Err(BreakpointOperationError::Busy) => r matches Err(e) && e.reason@ == "Could not insert breakpoint"@ && e.details@ == "GDB is busy"@,
            Err(BreakpointOperationError::ExecutionError(msg)) => r matches Err(e) && e.reason@ == "Could not insert breakpoint:"@ && e.details@ == msg@,
        },
{
    match result {
        Ok(()) => {
            let mut m = "Inserted breakpoint at ".to_owned();
            push_str(&mut m, file);
            push_char(&mut m, ':');
            push_str(&mut m, decimal_string(line as u128).as_str());
            Ok(m)
        },
        Err(BreakpointOperationError::Busy) => Err(IPCError::new("Could not insert breakpoint", "GDB is busy".to_owned())),
        Err(BreakpointOperationError::ExecutionError(msg)) => Err(IPCError::new("Could not insert breakpoint:", msg)),
    }
}

/// The error for a failed request for the working directory.
pub fn instance_info_error(e: ExecuteError) -> (r: IPCError)
    ensures
        r.reason@ == "Could not get working directory"@,
        r.details@ == (match e {
            ExecuteError::Busy => "GDB is busy"@,
            ExecuteError::Quit => "GDB quit"@,
        }),
{
    match e {
        ExecuteError::Busy => IPCError::new("Could not get working directory", "GDB is busy".to_owned()),
        ExecuteError::Quit => IPCError::new("Could not get working directory", "GDB quit".to_owned()),
    }
}

/// A JSON value as the json crate reads it: its text (`dump`), the string it
/// is (`as_str`), the `u32` it is (`as_u32`), and, for an object, its
/// members in order, each read the same way.
pub struct JsonRead {
    pub text: String,
    pub string: Option<String>,
    pub number: Option<u32>,
    pub members: Option<Vec<(String, JsonRead)>>,
}

/// The mathematical form of a [`JsonRead`].
pub struct JsonReadView {
    pub text: Seq<char>,
    pub string: Option<Seq<char>>,
    pub number: Option<u32>,
    pub members: Option<Seq<(Seq<char>, JsonReadView)>>,
}

/// The mathematical form of a read JSON value.
pub open spec fn json_view(r: JsonRead) -> JsonReadView
    decreases r,
{
    JsonReadView {
        text: r.text@,
        string: match r.string {
            Some(s) => Some(s@),
            None => None,
        },
        number: r.number,
        members: match r.members {
            Some(m) => {
                proof {
                    assert(decreases_to!(r => r.members));
                    assert(decreases_to!(r.members => m));
                    assert(decreases_to!(m => m@));
                }
                Some(json_members_view(m@))
            },
            None => None,
        },
    }
}

/// The mathematical form of the members of a read object.
pub open spec fn json_members_view(m: Seq<(String, JsonRead)>) -> Seq<(Seq<char>, JsonReadView)>
    decreases m,
{
    if m.len() == 0 {
        Seq::empty()
    } else {
        proof {
            assert(decreases_to!(m => m[0]));
            assert(decreases_to!(m[0] => m[0].1));
            vstd::seq::axiom_seq_len_decreases(m, m.drop_first());
        }
        seq![(m[0].0@, json_view(m[0].1))] + json_members_view(m.drop_first())
    }
}

proof fn lemma_json_members_view(m: Seq<(String, JsonRead)>)
    ensures
        json_members_view(m).len() == m.len(),
        forall|i: int| 0 <= i < m.len() ==> #[trigger] json_members_view(m)[i] == (m[i].0@, json_view(m[i].1)),
    decreases m.len(),
{
    if m.len() > 0 {
        lemma_json_members_view(m.drop_first());
        assert forall|i: int| 0 <= i < m.len() implies #[trigger] json_members_view(m)[i] == (m[i].0@, json_view(m[i].1)) by {
            if i > 0 {
                assert(m.drop_first()[i - 1] == m[i]);
            }
        }
    }
}

/// The mathematical form of a value that may have been read.
pub open spec fn opt_json_view(r: Option<JsonRead>) -> Option<JsonReadView> {
    match r {
        Some(v) => Some(json_view(v)),
        None => None,
    }
}

/// The value of the first member named `k`.
pub open spec fn member(m: Seq<(Seq<char>, JsonReadView)>, k: Seq<char>) -> Option<JsonReadView>
    decreases m.len(),
{
    if m.len() == 0 {
        None
    } else if m[0].0 == k {
        Some(m[0].1)
    } else {
        member(m.drop_first(), k)
    }
}

/// The string that the member named `k` is, if there is one and it is one.
pub open spec fn member_str(m: Seq<(Seq<char>, JsonReadView)>, k: Seq<char>) -> Option<Seq<char>> {
    match member(m, k) {
        Some(v) => v.string,
        None => None,
    }
}

/// The `u32` that the member named `k` is, if there is one and it is one.
pub open spec fn member_u32(m: Seq<(Seq<char>, JsonReadView)>, k: Seq<char>) -> Option<u32> {
    match member(m, k) {
        Some(v) => v.number,
        None => None,
    }
}

fn find_member<'a>(m: &'a [(String, JsonRead)], k: &str) -> (r: Option<&'a JsonRead>)
    ensures
        match r {
            Some(f) => member(json_members_view(m@), k@) == Some(json_view(*f)),
            None => member(json_members_view(m@), k@) is None,
        },
{
    let ghost mv = json_members_view(m@);
    proof {
        lemma_json_members_view(m@);
    }
    let mut i: usize = 0;
    assert(mv.skip(0) =~= mv);
    while i < m.len()
        invariant
            i <= m@.len() == mv.len(),
            mv == json_members_view(m@),
            forall|j: int| 0 <= j < m@.len() ==> #[trigger] mv[j] == (m@[j].0@, json_view(m@[j].1)),
            member(mv, k@) == member(mv.skip(i as int), k@),
        decreases m@.len() - i,
    {
        let ghost rest = mv.skip(i as int);
        assert(rest.drop_first() =~= mv.skip(i + 1));
        assert(rest[0] == mv[i as int]);
        if str_eq(m[i].0.as_str(), k) {
            return Some(&m[i].1);
        }
        i += 1;
    }
    None
}

/// What `json::parse` reads of a text: `None` where the text is not JSON;
/// otherwise the parsed value, read as [`JsonRead`] says.
pub uninterp spec fn json_request_of(text: Seq<char>) -> Option<JsonReadView>;

/// `json::parse` on the text of a request, the parsed value read as
/// [`JsonRead`] says (by [`read_json_value`]): the result is
/// [`json_request_of`] of the text.
#[verifier::external_body]
pub(crate) fn parse_request_json(text: &str) -> (r: Option<JsonRead>)
    ensures
        opt_json_view(r) == json_request_of(text@),
{
    match json::parse(text) {
        Ok(v) => Some(read_json_value(&v)),
        Err(_) => None,
    }
}

/// A value parsed by the json crate.
#[verifier::external_type_specification]
#[verifier::external_body]
pub struct ExJsonValue(json::JsonValue);

/// The conversion of a value parsed by the json crate into a [`JsonRead`],
/// one for one: `JsonValue::dump`, `as_str`, `as_u32`, and the members of an
/// object in order, each converted the same way. Nothing is stated of it on
/// its own: what it gives is part of what [`json_request_of`] names.
#[verifier::external_body]
fn read_json_value(v: &json::JsonValue) -> JsonRead {
    JsonRead {
        text: v.dump(),
        string: v.as_str().map(|s| s.to_owned()),
        number: v.as_u32(),
        members: match v {
            json::JsonValue::Object(o) => Some(o.iter().map(|(k, x)| (k.to_owned(), read_json_value(x))).collect()),
            _ => None,
        },
    }
}

/// Why a request could not be read as JSON.
pub enum RequestReadError {
    /// The bytes are not UTF-8.
    NotUtf8,
    /// The text (given) is not JSON.
    NotJson(String),
}

/// Reads a raw request: its bytes as UTF-8 text, and that text as JSON.
pub fn read_request(raw: &[u8]) -> (r: Result<JsonRead, RequestReadError>)
    ensures
        r matches Err(RequestReadError::NotUtf8) <==> !vstd::utf8::valid_utf8(raw@),
        vstd::utf8::valid_utf8(raw@) ==> match json_request_of(vstd::utf8::decode_utf8(raw@)) {
            None => r matches Err(RequestReadError::NotJson(t)) && t@ == vstd::utf8::decode_utf8(raw@),
            Some(v) => r matches Ok(rr) && json_view(rr) == v,
        },
{
    match str_from_utf8(raw) {
        None => Err(RequestReadError::NotUtf8),
        Some(t) => match parse_request_json(t) {
            None => Err(RequestReadError::NotJson(t.to_owned())),
            Some(rr) => Ok(rr),
        },
    }
}

/// A call that a request asks for.
pub enum IpcCall {
    /// Set a breakpoint at a line of a file.
    SetBreakpoint { file: String, line: u32 },
    /// Report the working directory of gdb.
    GetInstanceInfo,
}

/// The error of a request, as a pair of reason and details.
pub open spec fn ipc_err(r: Result<IpcCall, IPCError>, reason: Seq<char>, details: Seq<char>) -> bool {
    r matches Err(e) && e.reason@ == reason && e.details@ == details
}

/// What a request read as JSON asks for: the function that its member
/// `function` names, and for `set_breakpoint` the members `file` and `line`
/// of its member `parameters` (a missing one is `null`, as the json crate
/// reads it).
pub open spec fn call_spec(read: JsonReadView, r: Result<IpcCall, IPCError>) -> bool {
    match read.members {
        None => ipc_err(r, "Malformed (non-object) request"@, read.text),
        Some(obj) => match member_str(obj, "function"@) {
            None => ipc_err(r, "Missing function name"@, read.text),
            Some(f) => if f == "get_instance_info"@ {
                r matches Ok(IpcCall::GetInstanceInfo)
            } else if f != "set_breakpoint"@ {
                ipc_err(r, "unknown function"@, f)
            } else {
                match member(obj, "parameters"@) {
                    None => ipc_err(r, "Parameters is not an object"@, "null"@),
                    Some(params) => match params.members {
                        None => ipc_err(r, "Parameters is not an object"@, params.text),
                        Some(p) => match member_str(p, "file"@) {
                            None => ipc_err(r, "Missing file name"@, params.text),
                            Some(file) => match member_u32(p, "line"@) {
                                None => ipc_err(r, "Missing integer line number"@, params.text),
                                Some(line) => r matches Ok(IpcCall::SetBreakpoint { file: fl, line: ln })
                                    && fl@ == file && ln == line,
                            },
                        },
                    },
                }
            },
        },
    }
}

/// The call that a request asks for, or the error that answers it.
pub fn request_call(read: Result<JsonRead, RequestReadError>) -> (r: Result<IpcCall, IPCError>)
    ensures
        match read {
            Err(RequestReadError::NotUtf8) => ipc_err(r, "Malformed utf8."@, ""@),
            Err(RequestReadError::NotJson(t)) => ipc_err(r, "Malformed json."@, t@),
            Ok(rr) => call_spec(json_view(rr), r),
        },
{
    let read = match read {
        Err(RequestReadError::NotUtf8) => return Err(IPCError::new("Malformed utf8.", "".to_owned())),
        Err(RequestReadError::NotJson(t)) => return Err(IPCError::new("Malformed json.", t)),
        Ok(rr) => rr,
    };
    let obj = match &read.members {
        None => return Err(IPCError::new("Malformed (non-object) request", read.text.clone())),
        Some(o) => o,
    };
    let function = match find_member(obj.as_slice(), "function") {
        Some(JsonRead { string: Some(f), .. }) => f.clone(),
        _ => return Err(IPCError::new("Missing function name", read.text.clone())),
    };
    proof {
        reveal_strlit("set_breakpoint");
        reveal_strlit("get_instance_info");
        reveal_strlit("null");
        assert("set_breakpoint"@.len() != "get_instance_info"@.len());
    }
    match dispatch(function.as_str()) {
        Err(e) => Err(e),
        Ok(IpcFunction::GetInstanceInfo) => Ok(IpcCall::GetInstanceInfo),
        Ok(IpcFunction::SetBreakpoint) => {
            let params = match find_member(obj.as_slice(), "parameters") {
                None => return Err(IPCError::new("Parameters is not an object", "null".to_owned())),
                Some(p) => p,
            };
            let p = match &params.members {
                None => return Err(IPCError::new("Parameters is not an object", params.text.clone())),
                Some(p) => p,
            };
            let file = match find_member(p.as_slice(), "file") {
                Some(JsonRead { string: Some(f), .. }) => f.clone(),
                _ => return Err(IPCError::new("Missing file name", params.text.clone())),
            };
            match find_member(p.as_slice(), "line") {
                Some(JsonRead { number: Some(line), .. }) => Ok(IpcCall::SetBreakpoint { file, line: *line }),
                _ => Err(IPCError::new("Missing integer line number", params.text.clone())),
            }
        },
    }
}

/// The call that a raw request asks for, or the error that answers it:
/// bytes that are not UTF-8, text that is not JSON, or what [`call_spec`]
/// says of the JSON that was read.
pub fn handle_request(raw: &[u8]) -> (r: Result<IpcCall, IPCError>)
    ensures
        !vstd::utf8::valid_utf8(raw@) ==> ipc_err(r, "Malformed utf8."@, ""@),
        vstd::utf8::valid_utf8(raw@) ==> match json_request_of(vstd::utf8::decode_utf8(raw@)) {
            None => ipc_err(r, "Malformed json."@, vstd::utf8::decode_utf8(raw@)),
            Some(v) => call_spec(v, r),
        },
{
    request_call(read_request(raw))
}

/// The working directory that gdb reports under `cwd`, or the error that
/// answers the request when it reports none.
pub fn instance_info_reply(results: &[(String, MiValue)]) -> (r: Result<String, IPCError>)
    ensures
        match obj_get(entries_view(results@), "cwd"@) {
            Some(Val::Str(s)) => r matches Ok(w) && w@ == s,
            _ => r matches Err(e) && e.reason@ == "Could not get working directory"@
                && e.details@ == "Malformed GDB response"@,
        },
{
    match object_get(results, "cwd") {
        Some(MiValue::Str(s)) => Ok(s.clone()),
        _ => Err(IPCError::new("Could not get working directory", "Malformed GDB response".to_owned())),
    }
}

} // verus!
