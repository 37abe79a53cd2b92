//! Verified core of a Redis desktop client: redis-cli compatible quoting and
//! argument splitting, terminal reply rendering, ACL rule handling, cluster
//! topology parsing and the data model the client works on.
pub mod text;
pub mod cli_format;
pub mod cli_args;
pub mod cli_roundtrip;
pub mod model;
pub mod cli_display;
pub mod display_laws;
pub mod acl;
pub mod acl_list;
pub mod acl_log;
pub mod acl_roundtrip;
pub mod bytes_format;
pub mod transfer;
pub mod key_commands;
pub mod key_roundtrip;
pub mod cluster;
pub mod server;
pub mod paging;
pub mod value_view;
pub mod field_ops;
pub mod edit_laws;
pub mod field_read;
pub mod operations;
