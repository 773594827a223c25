use vstd::prelude::*;

verus! {

#[derive(Debug, Clone, Copy)]
pub struct ClientCapabilities {}

/// The answer to the `initialize` request.
#[derive(Debug, Clone)]
pub struct InitializeResult {
    pub capabilities: ServerCapabilities,
    pub server_info: Option<ServerInfo>,
}

/// What the server offers: full-text document sync and go-to-definition.
#[derive(Debug, Clone, Copy)]
pub struct ServerCapabilities {
    pub text_document_sync: Option<u8>,
    pub hover_provider: Option<bool>,
    pub definition_provider: Option<bool>,
}

#[derive(Debug, Clone)]
pub struct ServerInfo {
    pub name: String,
    pub version: Option<String>,
}

/// The answer to `initialize`: full-text document sync, no hover,
/// go-to-definition, and the server's name and version.
pub fn initialize_result(name: String, version: String) -> (r: InitializeResult)
    ensures
        r.capabilities.text_document_sync == Some(1u8),
        r.capabilities.hover_provider == Some(false),
        r.capabilities.definition_provider == Some(true),
        r.server_info is Some,
        r.server_info->0.name@ == name@,
        r.server_info->0.version is Some,
        r.server_info->0.version->0@ == version@,
{
    InitializeResult {
        capabilities: ServerCapabilities {
            text_document_sync: Some(1),
            hover_provider: Some(false),
            definition_provider: Some(true),
        },
        server_info: Some(ServerInfo { name, version: Some(version) }),
    }
}

} // verus!
