//! A verified library for a chat bot around the uiua array language: parsing
//! invocations out of messages, detecting bare playground links, preparing
//! programs for a sandboxed run, and rendering results back into replies
//! under the transport's length budget.

pub mod commands;
pub mod docs;
pub mod emojify;
pub mod highlight;
pub mod link_scan;
pub mod links;
pub mod output;
pub mod pad;
pub mod render;
pub mod run;
pub mod text;
pub mod uiua_api;
