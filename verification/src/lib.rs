//! The Atrinik client core: session and actions, presentation adapters,
//! server discovery with its cache, the platform boundary and the resource
//! boundary, each function proved against its contract.
pub mod actions;
pub mod ordered_keys;
pub mod session;
pub mod testkit;
pub mod text;
pub mod ui_model;
pub mod scene;
pub mod protocol_adapter;
pub mod directory_model;
pub mod digest;
pub mod directory_cache;
pub mod cache_laws;
pub mod transport;
pub mod directory;
pub mod platform;
pub mod config_cache;
