use ugdb::breakpoints::BreakpointOperationError;
use ugdb::ipc::{
    dispatch, instance_info_error, instance_info_reply, handle_request, read_request, request_call, set_breakpoint_reply,
    try_read_ipc_header, write_ipc_header, write_ipc_response, IpcCall, IpcFunction, JsonRead, RequestReadError,
    HEADER_LENGTH,
};
use ugdb::mi::value::MiValue;
use ugdb::mi::ExecuteError;

fn other(text: &str) -> JsonRead {
    JsonRead { text: text.to_owned(), string: None, number: None, members: None }
}

fn string(s: &str) -> JsonRead {
    JsonRead { text: format!("\"{}\"", s), string: Some(s.to_owned()), number: None, members: None }
}

fn number(n: u32) -> JsonRead {
    JsonRead { text: n.to_string(), string: None, number: Some(n), members: None }
}

fn object(text: &str, members: Vec<(&str, JsonRead)>) -> JsonRead {
    JsonRead {
        text: text.to_owned(),
        string: None,
        number: None,
        members: Some(members.into_iter().map(|(k, v)| (k.to_owned(), v)).collect()),
    }
}

fn err_of(r: Result<IpcCall, ugdb::ipc::IPCError>) -> (String, String) {
    match r {
        Err(e) => (e.reason, e.details),
        Ok(_) => panic!("expected an error"),
    }
}

#[test]
fn header_round_trip() {
    let h = write_ipc_header(0x01020304);
    assert_eq!(h.len(), HEADER_LENGTH);
    assert_eq!(&h[0..8], b"ugdb-ipc");
    assert_eq!(&h[8..12], &[4, 3, 2, 1]);
    assert_eq!(try_read_ipc_header(&h), Some(0x01020304));
    assert_eq!(try_read_ipc_header(b"ugdb-ipX\x01\0\0\0"), None);
    assert_eq!(try_read_ipc_header(b"ugdb-ipc\x01\0\0"), None);

    let r = write_ipc_response(b"{}");
    assert_eq!(r, b"ugdb-ipc\x02\0\0\0{}".to_vec());
}

#[test]
fn functions_are_dispatched_by_name() {
    assert_eq!(dispatch("set_breakpoint").unwrap(), IpcFunction::SetBreakpoint);
    assert_eq!(dispatch("get_instance_info").unwrap(), IpcFunction::GetInstanceInfo);
    let e = dispatch("frobnicate").unwrap_err();
    assert_eq!(e.reason, "unknown function");
    assert_eq!(e.details, "frobnicate");
}

#[test]
fn requests_name_their_call() {
    match read_request(b"{\"a\":1, \"b\": {\"c\": \"d\"}}") {
        Ok(r) => {
            assert_eq!(r.text, "{\"a\":1,\"b\":{\"c\":\"d\"}}");
            assert!(r.string.is_none() && r.number.is_none());
            let m = r.members.unwrap();
            assert_eq!(m.len(), 2);
            assert_eq!(m[0].0, "a");
            assert_eq!(m[0].1.number, Some(1));
            assert_eq!(m[0].1.text, "1");
            assert_eq!(m[1].0, "b");
            let inner = m[1].1.members.as_ref().unwrap();
            assert_eq!(inner[0].0, "c");
            assert_eq!(inner[0].1.string.as_deref(), Some("d"));
            assert_eq!(inner[0].1.text, "\"d\"");
        }
        Err(_) => panic!("expected a request"),
    }
    assert!(matches!(read_request(&[0xff, 0xfe]), Err(RequestReadError::NotUtf8)));
    match read_request(b"{") {
        Err(RequestReadError::NotJson(t)) => assert_eq!(t, "{"),
        _ => panic!("expected malformed json"),
    }

    assert_eq!(err_of(request_call(Err(RequestReadError::NotUtf8))), ("Malformed utf8.".to_owned(), "".to_owned()));
    assert_eq!(
        err_of(request_call(Err(RequestReadError::NotJson("{".to_owned())))),
        ("Malformed json.".to_owned(), "{".to_owned())
    );
    assert_eq!(
        err_of(request_call(Ok(other("[1]")))),
        ("Malformed (non-object) request".to_owned(), "[1]".to_owned())
    );
    assert_eq!(
        err_of(request_call(Ok(object("{\"function\":1}", vec![("function", number(1))])))),
        ("Missing function name".to_owned(), "{\"function\":1}".to_owned())
    );
    assert_eq!(
        err_of(request_call(Ok(object("{\"function\":\"x\"}", vec![("function", string("x"))])))),
        ("unknown function".to_owned(), "x".to_owned())
    );
    match request_call(Ok(object("{}", vec![("function", string("get_instance_info"))]))) {
        Ok(IpcCall::GetInstanceInfo) => {}
        _ => panic!("expected get_instance_info"),
    }

    let set_bp = |params: Option<JsonRead>| {
        let mut members = vec![("function", string("set_breakpoint"))];
        if let Some(p) = params {
            members.push(("parameters", p));
        }
        object("{}", members)
    };
    assert_eq!(
        err_of(request_call(Ok(set_bp(None)))),
        ("Parameters is not an object".to_owned(), "null".to_owned())
    );
    assert_eq!(
        err_of(request_call(Ok(set_bp(Some(number(3)))))),
        ("Parameters is not an object".to_owned(), "3".to_owned())
    );
    assert_eq!(
        err_of(request_call(Ok(set_bp(Some(object("{\"line\":3}", vec![("line", number(3))])))))),
        ("Missing file name".to_owned(), "{\"line\":3}".to_owned())
    );
    assert_eq!(
        err_of(request_call(Ok(set_bp(Some(object(
            "{\"file\":\"a.c\",\"line\":-3}",
            vec![("file", string("a.c")), ("line", other("-3"))],
        )))))),
        ("Missing integer line number".to_owned(), "{\"file\":\"a.c\",\"line\":-3}".to_owned())
    );
    match request_call(Ok(set_bp(Some(object("", vec![("file", string("a.c")), ("line", number(12))]))))) {
        Ok(IpcCall::SetBreakpoint { file, line }) => {
            assert_eq!(file, "a.c");
            assert_eq!(line, 12);
        }
        _ => panic!("expected set_breakpoint"),
    }
}

#[test]
fn replies_to_calls() {
    assert_eq!(set_breakpoint_reply("main.c", 42, Ok(())).unwrap(), "Inserted breakpoint at main.c:42");
    let e = set_breakpoint_reply("main.c", 42, Err(BreakpointOperationError::Busy)).unwrap_err();
    assert_eq!((e.reason.as_str(), e.details.as_str()), ("Could not insert breakpoint", "GDB is busy"));
    let e = set_breakpoint_reply("main.c", 42, Err(BreakpointOperationError::ExecutionError("no".to_owned())))
        .unwrap_err();
    assert_eq!((e.reason.as_str(), e.details.as_str()), ("Could not insert breakpoint:", "no"));

    let e = instance_info_error(ExecuteError::Quit);
    assert_eq!((e.reason.as_str(), e.details.as_str()), ("Could not get working directory", "GDB quit"));
    let e = instance_info_error(ExecuteError::Busy);
    assert_eq!(e.details, "GDB is busy");

    let results = [("cwd".to_owned(), MiValue::Str("/home/u".to_owned()))];
    assert_eq!(instance_info_reply(&results).unwrap(), "/home/u");
    let e = instance_info_reply(&[("cwd".to_owned(), MiValue::Array(vec![]))]).unwrap_err();
    assert_eq!(e.details, "Malformed GDB response");
}

#[test]
fn raw_requests_are_read_as_json() {
    assert_eq!(err_of(handle_request(&[0xff])), ("Malformed utf8.".to_owned(), "".to_owned()));
    assert_eq!(err_of(handle_request(b"{\"function\"")), ("Malformed json.".to_owned(), "{\"function\"".to_owned()));
    assert_eq!(err_of(handle_request(b"[1, 2]")), ("Malformed (non-object) request".to_owned(), "[1,2]".to_owned()));
    assert_eq!(
        err_of(handle_request(b"{ \"function\": 1 }")),
        ("Missing function name".to_owned(), "{\"function\":1}".to_owned())
    );
    assert_eq!(err_of(handle_request(b"{\"function\": \"x\"}")), ("unknown function".to_owned(), "x".to_owned()));
    assert!(matches!(handle_request(b"{\"function\": \"get_instance_info\"}"), Ok(IpcCall::GetInstanceInfo)));
    assert_eq!(
        err_of(handle_request(b"{\"function\": \"set_breakpoint\"}")),
        ("Parameters is not an object".to_owned(), "null".to_owned())
    );
    assert_eq!(
        err_of(handle_request(b"{\"function\": \"set_breakpoint\", \"parameters\": 3}")),
        ("Parameters is not an object".to_owned(), "3".to_owned())
    );
    assert_eq!(
        err_of(handle_request(b"{\"function\": \"set_breakpoint\", \"parameters\": {\"line\": 3}}")),
        ("Missing file name".to_owned(), "{\"line\":3}".to_owned())
    );
    assert_eq!(
        err_of(handle_request(b"{\"function\": \"set_breakpoint\", \"parameters\": {\"file\": \"a.c\", \"line\": 1.5}}")),
        ("Missing integer line number".to_owned(), "{\"file\":\"a.c\",\"line\":1.5}".to_owned())
    );
    match handle_request(b"{\"function\": \"set_breakpoint\", \"parameters\": {\"file\": \"src/a.c\", \"line\": 12}}") {
        Ok(IpcCall::SetBreakpoint { file, line }) => {
            assert_eq!(file, "src/a.c");
            assert_eq!(line, 12);
        }
        _ => panic!("expected set_breakpoint"),
    }
}
