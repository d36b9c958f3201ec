//! Verified core logic of the Conch terminal: the tmux control-mode protocol
//! parser, streaming UTF-8 decoding, and the text processing the terminal's
//! backend performs on tmux, SSH and configuration data.
pub mod text;
pub mod utf8_stream;
pub mod tmux_protocol;
pub mod tmux_parser;
pub mod tmux_backend;
pub mod plugin_sdk;
pub mod keys;
pub mod theme;
pub mod sorting;
pub mod os_types;
pub mod remote;
pub mod sftp;
pub mod rsync;
pub mod local_fs;
pub mod fonts;
pub mod ssh_config;
pub mod ids;
pub mod server_commands;
pub mod tunnel_manager;
pub mod ssh_connect;
pub mod plugin_dialogs;
pub mod tmux_connection;
pub mod shell;
pub mod migration;
pub mod pending;
pub mod sessions;
