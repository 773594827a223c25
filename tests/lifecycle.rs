use scope_server::lsp::dispatch::{dispatch, parse_method, Dispatch, Request};
use scope_server::lsp::lifecycle::initialize_result;

#[test]
fn methods_are_routed() {
    assert_eq!(parse_method(&"initialize".to_string()), Some(Request::Initialize));
    assert_eq!(parse_method(&"textDocument/definition".to_string()), Some(Request::Definition));
    assert_eq!(parse_method(&"textDocument/didChange".to_string()), Some(Request::DidChange));
    assert_eq!(parse_method(&"textDocument/hover".to_string()), None);
    assert_eq!(
        dispatch(false, &"textDocument/didOpen".to_string()),
        (Dispatch::Serve(Request::DidOpen), false)
    );
    assert_eq!(dispatch(false, &"bogus".to_string()), (Dispatch::UnknownMethod, false));
}

#[test]
fn shutdown_refuses_all_but_exit() {
    assert_eq!(dispatch(false, &"shutdown".to_string()), (Dispatch::Serve(Request::Shutdown), true));
    assert_eq!(dispatch(true, &"initialize".to_string()), (Dispatch::ShuttingDown, true));
    assert_eq!(dispatch(true, &"bogus".to_string()), (Dispatch::ShuttingDown, true));
    assert_eq!(dispatch(true, &"exit".to_string()), (Dispatch::Serve(Request::Exit), true));
}

#[test]
fn initialize_announces_capabilities() {
    let result = initialize_result("server".to_string(), "1.2.3".to_string());
    assert_eq!(result.capabilities.text_document_sync, Some(1));
    assert_eq!(result.capabilities.hover_provider, Some(false));
    assert_eq!(result.capabilities.definition_provider, Some(true));
    let info = result.server_info.unwrap();
    assert_eq!(info.name, "server");
    assert_eq!(info.version, Some("1.2.3".to_string()));
}
