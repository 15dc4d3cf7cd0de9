use vstd::prelude::*;

use crate::control_definitions::{AIRCRAFT_NAME_CONTROL, InnerControlDefinitions, outputs_read};
use crate::controls::{ControlOutputs, Output, Outputs};

verus! {

/// Size of the mirror: every address from 0 to `u16::MAX`.
pub const BUFFER_LEN: usize = 65536;

/// The byte that the four sync bytes each hold.
pub const SYNC_BYTE: u8 = 0x55;

/// Which part of the protocol comes next.
#[derive(Debug, Clone, Copy, PartialEq, Eq, Structural)]
pub enum RecvState {
    /// Four sync bytes.
    Sync,
    /// Datagrams: an address, a length and that many bytes.
    Data,
}

/// Why a connection to the telemetry bus is given up.
#[derive(Debug, Clone, Copy, PartialEq, Eq, Structural)]
pub enum StreamError {
    /// The four bytes in sync position were not all the sync byte.
    BadSync,
    /// A datagram reached past the end of the mirror.
    InvalidRange,
}

/// The decoder of the telemetry stream and the mirror it keeps.
#[derive(Debug)]
pub struct Stream {
    buffer: Vec<u8>,
    recv_state: RecvState,
}

/// The little-endian word of two bytes.
pub open spec fn le_word(lo: u8, hi: u8) -> u16 {
    ((hi as u16) << 8u16) | (lo as u16)
}

impl Stream {
    pub closed spec fn mirror(&self) -> Seq<u8> {
        self.buffer@
    }

    pub closed spec fn state(&self) -> RecvState {
        self.recv_state
    }

    pub open spec fn wf(&self) -> bool {
        self.mirror().len() == BUFFER_LEN
    }

    /// A decoder waiting for sync, with a zeroed mirror.
    pub fn new() -> (r: Stream)
        ensures
            r.wf(),
            r.state() == RecvState::Sync,
            forall|i: int| 0 <= i < BUFFER_LEN ==> r.mirror()[i] == 0,
    {
        Stream { buffer: vec![0u8; BUFFER_LEN], recv_state: RecvState::Sync }
    }

    pub fn recv_state(&self) -> (r: RecvState)
        ensures
            r == self.state(),
    {
        self.recv_state
    }

    /// The mirror.
    pub fn buffer(&self) -> (r: &[u8])
        ensures
            r@ == self.mirror(),
    {
        self.buffer.as_slice()
    }

    /// Takes the four bytes of the sync phase: all must be the sync byte, and
    /// then datagrams follow.
    pub fn read_sync(&mut self, bytes: &[u8]) -> (r: Result<(), StreamError>)
        requires
            old(self).state() == RecvState::Sync,
            bytes@.len() == 4,
        ensures
            r is Ok <==> (forall|i: int| 0 <= i < 4 ==> bytes@[i] == SYNC_BYTE),
            r is Err ==> r == Err::<(), StreamError>(StreamError::BadSync),
            r is Ok ==> final(self).state() == RecvState::Data,
            r is Err ==> final(self).state() == old(self).state(),
            final(self).mirror() == old(self).mirror(),
    {
        if bytes[0] == SYNC_BYTE && bytes[1] == SYNC_BYTE && bytes[2] == SYNC_BYTE && bytes[3]
            == SYNC_BYTE {
            self.recv_state = RecvState::Data;
            Ok(())
        } else {
            Err(StreamError::BadSync)
        }
    }

    /// Decodes a datagram header, `u16` address then `u16` length, both
    /// little-endian, and checks that the range fits the mirror; nothing is
    /// written.
    pub fn read_header(&self, header: &[u8]) -> (r: Result<(u16, u16), StreamError>)
        requires
            header@.len() == 4,
        ensures
            ({
                let addr = le_word(header@[0], header@[1]);
                let len = le_word(header@[2], header@[3]);
                &&& r is Ok <==> addr + len <= BUFFER_LEN
                &&& r is Ok ==> r == Ok::<(u16, u16), StreamError>((addr, len))
                &&& r is Err ==> r == Err::<(u16, u16), StreamError>(StreamError::InvalidRange)
            }),
    {
        let addr: u16 = ((header[1] as u16) << 8u16) | (header[0] as u16);
        let len: u16 = ((header[3] as u16) << 8u16) | (header[2] as u16);
        if addr as usize + len as usize > BUFFER_LEN {
            Err(StreamError::InvalidRange)
        } else {
            Ok((addr, len))
        }
    }

    /// Writes a datagram's bytes into the mirror at `addr`. A datagram that
    /// ends at the end of the mirror completes a frame: the decoder returns to
    /// sync and `true` is returned.
    pub fn read_data(&mut self, addr: u16, data: &[u8]) -> (r: bool)
        requires
            old(self).wf(),
            old(self).state() == RecvState::Data,
            addr + data@.len() <= BUFFER_LEN,
        ensures
            final(self).wf(),
            final(self).mirror() == old(self).mirror().subrange(0, addr as int) + data@
                + old(self).mirror().subrange(addr + data@.len(), BUFFER_LEN as int),
            r == (addr + data@.len() == BUFFER_LEN),
            r ==> final(self).state() == RecvState::Sync,
            !r ==> final(self).state() == RecvState::Data,
    {
        let start = addr as usize;
        let n = data.len();
        let mut i: usize = 0;
        while i < n
            invariant
                0 <= i <= n,
                n == data@.len(),
                start + n <= BUFFER_LEN,
                self.buffer@.len() == BUFFER_LEN,
                self.recv_state == old(self).recv_state,
                forall|j: int|
                    0 <= j < BUFFER_LEN ==> #[trigger] self.buffer@[j] == if start <= j < start
                        + i {
                        data@[j - start]
                    } else {
                        old(self).buffer@[j]
                    },
            decreases n - i,
        {
            self.buffer.set(start + i, data[i]);
            i += 1;
        }
        assert(self.buffer@ =~= old(self).mirror().subrange(0, addr as int) + data@ + old(
            self,
        ).mirror().subrange(addr + data@.len(), BUFFER_LEN as int));
        if start + n == BUFFER_LEN {
            self.recv_state = RecvState::Sync;
            true
        } else {
            false
        }
    }
}

/// The name that the airframe control gives: its first string output, or the
/// empty name when it has none.
pub open spec fn aircraft_name_read(outputs: Seq<Output>, name: Seq<char>) -> bool {
    if exists|i: int| 0 <= i < outputs.len() && outputs[i] is String {
        exists|i: int|
            0 <= i < outputs.len() && outputs[i] is String && outputs[i]->String_0@ == name
                && forall|j: int| 0 <= j < i ==> !(outputs[j] is String)
    } else {
        name.len() == 0
    }
}

/// What follows a complete frame: read the airframe's name from the mirror;
/// when it is not empty and differs from the one loaded before, make that
/// airframe active (an unknown name leaves only the global controls) and
/// remember it; then take a snapshot of every active control.
pub fn process_frame(
    defs: &mut InnerControlDefinitions,
    mirror: &[u8],
    previous_loaded: &mut String,
) -> (r: ControlOutputs)
    requires
        old(defs).wf(),
    ensures
        final(defs).wf(),
        final(defs).globals() == old(defs).globals(),
        final(defs).airframes() == old(defs).airframes(),
        exists|name_outputs: Outputs, name: Seq<char>|
            {
                &&& outputs_read(
                    old(defs).lookup(AIRCRAFT_NAME_CONTROL@).unwrap().outputs@,
                    mirror@,
                    name_outputs@,
                ) || (old(defs).lookup(AIRCRAFT_NAME_CONTROL@) is None && name_outputs@.len()
                    == 0)
                &&& aircraft_name_read(name_outputs@, name)
                &&& if name.len() != 0 && name != old(previous_loaded)@ {
                    &&& final(previous_loaded)@ == name
                    &&& (old(defs).airframes().contains_key(name) ==> final(defs).active_name()
                        == Some(name))
                    &&& (!old(defs).airframes().contains_key(name)
                        ==> final(defs).active_name() is None)
                } else {
                    &&& final(previous_loaded)@ == old(previous_loaded)@
                    &&& final(defs).active_name() == old(defs).active_name()
                }
            },
        r@.dom() == final(defs).globals().dom().union(final(defs).active().dom()),
        forall|k: Seq<char>| #[trigger]
            r@.contains_key(k) ==> outputs_read(
                final(defs).snapshot_source(k).outputs@,
                mirror@,
                r@[k]@,
            ),
{
    let name_outputs = defs.control_outputs(AIRCRAFT_NAME_CONTROL, mirror);
    let ghost name_view = name_outputs@;
    let aircraft = match name_outputs.into_string() {
        Some(s) => s,
        None => String::new(),
    };
    let ghost name = aircraft@;
    assert(aircraft_name_read(name_view, name));
    if !aircraft.as_str().is_empty() && aircraft != *previous_loaded {
        let _ = defs.load_aircraft(aircraft.as_str());
        *previous_loaded = aircraft;
    }
    defs.all_outputs(mirror)
}

} // verus!
