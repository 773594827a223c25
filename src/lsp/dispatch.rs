use vstd::prelude::*;

verus! {

/// The methods the server serves.
#[derive(Debug, Clone, Copy, PartialEq, Eq, Structural)]
pub enum Request {
    Initialize,
    Initialized,
    Shutdown,
    Exit,
    DidOpen,
    Definition,
    DidSave,
    DidChange,
    DidClose,
}

/// What to do with an incoming message.
#[derive(Debug, Clone, Copy, PartialEq, Eq, Structural)]
pub enum Dispatch {
    /// Serve the request.
    Serve(Request),
    /// Refuse it: a shutdown was requested and it is not `exit`.
    ShuttingDown,
    /// Refuse it: the method is not one the server knows.
    UnknownMethod,
}

/// The request that method name `m` names, if any.
pub open spec fn request_named(m: Seq<char>) -> Option<Request> {
    if m == "initialize"@ {
        Some(Request::Initialize)
    } else if m == "initialized"@ {
        Some(Request::Initialized)
    } else if m == "shutdown"@ {
        Some(Request::Shutdown)
    } else if m == "exit"@ {
        Some(Request::Exit)
    } else if m == "textDocument/didOpen"@ {
        Some(Request::DidOpen)
    } else if m == "textDocument/definition"@ {
        Some(Request::Definition)
    } else if m == "textDocument/didSave"@ {
        Some(Request::DidSave)
    } else if m == "textDocument/didChange"@ {
        Some(Request::DidChange)
    } else if m == "textDocument/didClose"@ {
        Some(Request::DidClose)
    } else {
        None
    }
}

/// The request that `method` names, if any.
pub fn parse_method(method: &String) -> (r: Option<Request>)
    ensures
        r == request_named(method@),
{
    if *method == String::from_str("initialize") {
        Some(Request::Initialize)
    } else if *method == String::from_str("initialized") {
        Some(Request::Initialized)
    } else if *method == String::from_str("shutdown") {
        Some(Request::Shutdown)
    } else if *method == String::from_str("exit") {
        Some(Request::Exit)
    } else if *method == String::from_str("textDocument/didOpen") {
        Some(Request::DidOpen)
    } else if *method == String::from_str("textDocument/definition") {
        Some(Request::Definition)
    } else if *method == String::from_str("textDocument/didSave") {
        Some(Request::DidSave)
    } else if *method == String::from_str("textDocument/didChange") {
        Some(Request::DidChange)
    } else if *method == String::from_str("textDocument/didClose") {
        Some(Request::DidClose)
    } else {
        None
    }
}

/// Decides what to do with a message for `method`, and whether the server is
/// shutting down afterwards: once `shutdown` has been served, only `exit` is.
pub fn dispatch(shutting_down: bool, method: &String) -> (r: (Dispatch, bool))
    ensures
        shutting_down && method@ != "exit"@ ==> r == (Dispatch::ShuttingDown, true),
        !(shutting_down && method@ != "exit"@) ==> match request_named(method@) {
            Some(q) => r == (Dispatch::Serve(q), shutting_down || q == Request::Shutdown),
            None => r == (Dispatch::UnknownMethod, shutting_down),
        },
{
    let exit = String::from_str("exit");
    if shutting_down && *method != exit {
        return (Dispatch::ShuttingDown, true);
    }
    match parse_method(method) {
        Some(q) => {
            let next = shutting_down || q == Request::Shutdown;
            (Dispatch::Serve(q), next)
        },
        None => (Dispatch::UnknownMethod, shutting_down),
    }
}

} // verus!
