pub mod catalog;
pub mod framer;
pub mod framer_laws;
pub mod manager;
pub mod manager_laws;
pub mod rpc;
pub mod settings;
pub mod spec;
pub mod spec_laws;
pub mod tool_laws;
pub mod tools;

pub use catalog::{canonical_name, McpCatalog};
pub use framer::{FramedLine, JsonLineFramer};
pub use manager::McpManager;
pub use settings::{Setting, Settings};
pub use spec::{
    McpError, McpServerInfo, McpServerSpec, McpServerStatus, McpToolSummary, McpTransport,
    MCP_PROTOCOL_VERSION,
};
