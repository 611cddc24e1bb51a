//! Forest Chat: the verified core of a small real-time chat server and of the
//! LAN meeting rooms of its desktop shell.

pub mod api;
pub mod attachments;
pub mod db;
pub mod files;
pub mod hub;
pub mod keyed;
pub mod meeting;
pub mod names;
pub mod protocol;
pub mod session;
pub mod text;
