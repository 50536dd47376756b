use vstd::prelude::*;

pub mod askpass;
pub mod auth;
pub mod client;
pub mod dto;
pub mod hosts;
pub mod identity;
pub mod jump;
pub mod keyed;
pub mod keysetup;
pub mod password;
pub mod popup;
pub mod pty;
pub mod registry;
pub mod session;
pub mod snippets;
pub mod ssh_config;
pub mod text;
pub mod tray;
pub mod tunnel;

verus! {
}
