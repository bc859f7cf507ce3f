//! Core logic of two node subsystems: the peer identification protocol that
//! runs over every authenticated session, and the message-driven transaction
//! pool service that serializes requests against a shared pool.
//!
//! The identify side: [`addr`] models composite addresses and the
//! reachability policy, [`bytes`] and [`wire`] give the handshake codec with
//! a proved round trip, [`identify`] holds the per-session state machine and
//! [`network`] the policy callback over the node's network state.
//!
//! The pool side: [`pool`] models the pending/proposed sets and the
//! reorganization rule, and [`service`] wires the typed message envelope,
//! the dispatch, and the client controller over bounded channels from
//! [`chan`]. [`keymap`] and [`seqs`] are the shared containers and sequence
//! lemmas; [`flags`] is the capability bitset.

pub mod flags;
pub mod keymap;
pub mod seqs;
pub mod addr;
pub mod bytes;
pub mod wire;
pub mod identify;
pub mod network;
pub mod chan;
pub mod pool;
pub mod service;

use vstd::prelude::*;

verus! {

} // verus!
