//! kfm_na core: the terminal app's protocols, codecs and state machines.
#![allow(unused_imports)]

pub mod text;
pub mod gate;
pub mod session;
pub mod http1;
pub mod json;
pub mod brain;
pub mod endpoint;
pub mod install;
pub mod crash;
pub mod effect;
pub mod ime_queue;
pub mod direct_brain;
pub mod bootstrap;
pub mod gles;
pub mod ctrl_feed;
pub mod input_bar;
pub mod ai_presence;
pub mod glyph_atlas;
pub mod conn;
pub mod brain_ep;
pub mod ai_chat;
pub mod fs_fetch;
