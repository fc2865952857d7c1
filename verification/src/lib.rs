//! Verified core logic of the Proxmox Yew component library.

pub mod text;
pub mod slug;
pub mod markdown;
pub mod journal;
pub mod log_view;
pub mod loadable;
pub mod auth;
pub mod json;
pub mod http;
pub mod guest;
pub mod firewall;
pub mod stream;
pub mod kv;
pub mod options;
pub mod property;
pub mod qemu;
pub mod lxc;
pub mod display;
pub mod markdown_editor;
pub mod pattern;
pub mod login;
