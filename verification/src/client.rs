//! The client of the audio server, as far as the player needs to know it, and doubles that
//! stand in for it where there is no server.
use std::marker::PhantomData;

use vstd::prelude::*;

use crate::messages::RawMidi;

verus! {

/// How the server took the client in: a set of flags.
#[derive(Debug, PartialEq, Eq, Clone, Copy, Structural)]
pub struct ClientStatus {
    pub bits: u32,
}

impl ClientStatus {
    /// The client could not be initialised.
    pub const INIT_FAILURE: u32 = 0x100;

    /// No flag is set.
    pub fn empty() -> (status: ClientStatus)
        ensures
            status.bits == 0,
    {
        ClientStatus { bits: 0 }
    }
}

/// A client of the server: its status, the cycles in a buffer and the sample frames a second.
#[derive(Debug, PartialEq, Eq, Clone, Copy, Structural)]
pub struct JackClientProxy {
    pub status: ClientStatus,
    pub buffer_size: u32,
    pub sampling_rate: usize,
}

impl JackClientProxy {
    /// The cycles in a buffer.
    pub fn buffer_size(&self) -> (size: u32)
        ensures
            size == self.buffer_size,
    {
        self.buffer_size
    }

    /// The sample frames a second.
    pub fn sampling_rate(&self) -> (rate: usize)
        ensures
            rate == self.sampling_rate,
    {
        self.sampling_rate
    }
}

/// A client without a server.
#[derive(Debug, PartialEq, Eq, Clone)]
pub struct TestJackClientProxy {
    pub status: ClientStatus,
    pub app_name: String,
    pub buffer_size: u32,
    pub sampling_rate: usize,
}

impl TestJackClientProxy {
    /// A client that shows the given values.
    pub fn new_test(
        app_name: &str,
        status: ClientStatus,
        buffer_size: u32,
        sampling_rate: usize,
    ) -> (proxy: Self)
        ensures
            proxy.app_name@ == app_name@,
            proxy.status == status,
            proxy.buffer_size == buffer_size,
            proxy.sampling_rate == sampling_rate,
    {
        TestJackClientProxy { status, app_name: app_name.to_owned(), buffer_size, sampling_rate }
    }

    /// The cycles in a buffer.
    pub fn buffer_size(&self) -> (size: u32)
        ensures
            size == self.buffer_size,
    {
        self.buffer_size
    }

    /// The sample frames a second.
    pub fn sampling_rate(&self) -> (rate: usize)
        ensures
            rate == self.sampling_rate,
    {
        self.sampling_rate
    }

    /// What the player sees of this client.
    pub fn client(&self) -> (client: JackClientProxy)
        ensures
            client == (JackClientProxy {
                status: self.status,
                buffer_size: self.buffer_size,
                sampling_rate: self.sampling_rate,
            }),
    {
        JackClientProxy {
            status: self.status,
            buffer_size: self.buffer_size,
            sampling_rate: self.sampling_rate,
        }
    }

    /// An output port that leads nowhere.
    pub fn midi_out_port<T>(&self) -> (port: TestPort<T>)
        ensures
            port == (TestPort { _phantom: PhantomData::<T> }),
    {
        TestPort { _phantom: PhantomData }
    }
}

/// An output port that leads nowhere.
pub struct TestPort<T> {
    pub _phantom: PhantomData<T>,
}

impl<T> TestPort<T> {
    /// A writer that takes every message.
    pub fn writer<'a>(&'a mut self) -> (writer: TestMidiWriter<'a>)
        ensures
            *final(self) == *old(self),
            writer == (TestMidiWriter { _phantom: PhantomData::<&'a ()> }),
    {
        TestMidiWriter { _phantom: PhantomData }
    }
}

/// A writer that takes every message.
pub struct TestMidiWriter<'a> {
    pub _phantom: PhantomData<&'a ()>,
}

impl<'a> TestMidiWriter<'a> {
    /// Takes a message; this never fails.
    pub fn write(&mut self, _message: &RawMidi) -> (done: Result<(), String>)
        ensures
            done == Ok::<(), String>(()),
            *final(self) == *old(self),
    {
        Ok(())
    }
}

} // verus!
