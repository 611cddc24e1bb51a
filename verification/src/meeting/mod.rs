//! The LAN meeting rooms of the desktop shell: the signalling protocol, the
//! rooms that admit peers, and the decisions of the signalling server and of
//! the meeting client.

pub mod commands;
pub mod discovery;
pub mod protocol;
pub mod rooms;
pub mod screen_capture;
pub mod signaling;
