//! Plays scores of klavier-core through a JACK audio server.
//!
//! `player` holds what the process callback does, one buffer after the other, and how a score
//! becomes the command to play it. `tracker` keeps track of what is being played. Both decide on
//! plain values; the channels, the threads and the server belong to the program around them.
//! `score` is the boundary to klavier-core, `prepared` a score that is ready to be played,
//! `messages` and `timing` are about MIDI messages and about time, and `client` describes the
//! client of the server. `laws` and `timing_laws` state what holds over several calls, and
//! `call_laws` and `request_laws` what a caller of the operations can count on.
pub mod call_laws;
pub mod client;
pub mod laws;
pub mod messages;
pub mod player;
pub mod prepared;
pub mod request_laws;
pub mod score;
pub mod timing;
pub mod timing_laws;
pub mod tracker;
