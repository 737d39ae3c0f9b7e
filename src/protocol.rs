//! The messages of the request/response service built on channels.

use vstd::prelude::*;
use crate::snapshot::{Snapshot, checksum_of};
use crate::state::{State, current_values, values_of};

verus! {

/// A command sent from a client to the server.
pub enum Command {
    /// Append `val` to the channel named `key`.
    Put { key: String, val: String },
    /// Read the value at `idx` of the channel named `key`.
    Get { key: String, idx: usize },
}

/// The server's response to a command.
pub enum Response {
    /// The value found at a requested index.
    Artefact { key: String, val: String },
    /// The index that a put value was stored at.
    NewArtefact { key: String, idx: usize },
    /// Nothing is stored at the requested index yet.
    MissingArtefact { key: String, idx: usize },
}

/// A query sent from a client to the server.
pub enum Query {
    /// Ask for a copy of the whole state.
    Snapshot,
    /// Compare the given checksum with the server's.
    Checksum(String),
}

/// The server's answer to a query.
pub enum Answer {
    /// A copy of the state.
    Snapshot(Snapshot),
    /// The checksums agree.
    ChecksumOk,
    /// The checksums differ.
    ChecksumFailed,
}

impl Command {
    /// Applies the command to the state: a put appends its value to the
    /// key's channel and answers with the index it got; a get answers with
    /// the value at the index, or says that there is none yet.
    pub fn apply(self, state: &mut State) -> (r: Response)
        requires
            old(state).wf(),
            self matches Command::Put { key, .. } ==> old(state).spec_version() < u32::MAX
                && values_of(old(state)@, key@).len() < usize::MAX,
        ensures
            final(state).wf(),
            match self {
                Command::Put { key, val } => {
                    &&& r == Response::NewArtefact { key, idx: values_of(old(state)@, key@).len() as usize }
                    &&& final(state)@ == old(state)@.insert(key@, values_of(old(state)@, key@).push(val))
                    &&& final(state).spec_version() == old(state).spec_version() + 1
                },
                Command::Get { key, idx } => {
                    &&& r == if idx < values_of(old(state)@, key@).len() {
                        Response::Artefact { key, val: values_of(old(state)@, key@)[idx as int] }
                    } else {
                        Response::MissingArtefact { key, idx }
                    }
                    &&& *final(state) == *old(state)
                },
            },
    {
        match self {
            Command::Put { key, val } => {
                let idx = state.put(&key, val);
                Response::NewArtefact { key, idx }
            },
            Command::Get { key, idx } => {
                match state.get(&key, idx) {
                    Some(val) => Response::Artefact { key, val },
                    None => Response::MissingArtefact { key, idx },
                }
            },
        }
    }
}

impl Query {
    /// Answers the query from the state: a copy of its current values, or
    /// whether the given checksum is the state's.
    pub fn apply(self, state: &State) -> (r: Answer)
        requires
            state.wf(),
        ensures
            match self {
                Query::Snapshot => r matches Answer::Snapshot(s) && s.wf() && s@ == current_values(
                    state@,
                ) && s.spec_version() == state.spec_version(),
                Query::Checksum(c) => r == if c@ == checksum_of(state.spec_version()) {
                    Answer::ChecksumOk
                } else {
                    Answer::ChecksumFailed
                },
            },
    {
        match self {
            Query::Snapshot => Answer::Snapshot(state.snapshot()),
            Query::Checksum(c) => {
                if state.checksum() == c {
                    Answer::ChecksumOk
                } else {
                    Answer::ChecksumFailed
                }
            },
        }
    }
}

/// A message that the server broadcasts.
pub enum Message {
    /// The server is alive.
    Heartbeat,
    /// The value of `key` is now `val`.
    StateUpdated { key: String, val: String },
}

} // verus!

verus! {

/// A single message carrying data.
#[derive(PartialEq, Eq, Structural, Clone, Copy, Debug)]
pub enum Droplet {
    Data,
}

impl Default for Droplet {
    fn default() -> (r: Droplet)
        ensures
            r == Droplet::Data,
    {
        Droplet::Data
    }
}

} // verus!
