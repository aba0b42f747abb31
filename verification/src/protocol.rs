//! Command/status protocol: frame codec, response buffer, and the
//! validation each exchange's status frame must pass.

pub mod internal;

use vstd::prelude::*;
use crate::protocol::internal::spec_command_bytes;
use crate::protocol::internal::spec_decode_status;
use crate::protocol::internal::decode_status;

verus! {

/// Capacity of the response buffer: the largest single inbound bulk
/// transfer the device produces.
pub const RESPONSE_CAPACITY: usize = 512;

/// One of the three request kinds this engine emits.
#[derive(Debug, PartialEq, Eq, Structural, Clone, Copy)]
pub enum Command {
    /// Probe the device's state.
    Status,
    /// Write one chunk of firmware at an address.
    Page,
    /// Signal upload completion and jump to the entry point.
    Execute,
}

impl Command {
    /// The on-wire operation code of this command.
    pub open spec fn spec_code(self) -> u32 {
        match self {
            Command::Status => 0,
            Command::Page => 3,
            Command::Execute => 4,
        }
    }

    /// Returns the on-wire operation code of this command.
    pub fn code(&self) -> (c: u32)
        ensures
            c == self.spec_code(),
    {
        match self {
            Command::Status => 0,
            Command::Page => 3,
            Command::Execute => 4,
        }
    }
}

/// An upload failure.  Every variant is fatal: the protocol defines no
/// retry or recovery, so the first error aborts the whole upload.
#[derive(Debug, PartialEq, Eq, Structural, Clone, Copy)]
pub enum Error {
    /// The underlying transport reported an I/O failure.
    Transport,
    /// Received bytes do not parse as the expected frame.
    MalformedFrame,
    /// The status frame answers a different exchange than the one
    /// outstanding: the protocol is desynchronized.
    TagMismatch { expected: u32, actual: u32 },
    /// The device answered with a nonzero result code.
    DeviceRejected,
    /// A response payload's length differs from the requested one.
    PayloadSizeMismatch { expected: u32, actual: u32 },
    /// The firmware image header is missing, malformed, or its declared
    /// size does not match the image.
    InvalidImage,
}

/// One inbound transfer: a fixed-capacity buffer and the effective
/// length of the bytes received into it.
pub struct Response {
    data: Vec<u8>,
    len: usize,
}

impl View for Response {
    type V = Seq<u8>;

    /// A response is its received bytes: the filled prefix of the buffer.
    closed spec fn view(&self) -> Seq<u8> {
        self.data@.subrange(0, self.len as int)
    }
}

impl Response {
    /// The buffer always spans the full capacity; the effective length
    /// never exceeds it.
    pub closed spec fn wf(&self) -> bool {
        self.data@.len() == RESPONSE_CAPACITY && self.len <= RESPONSE_CAPACITY
    }

    /// A response with no bytes received yet.
    pub fn empty() -> (r: Response)
        ensures
            r.wf(),
            r@ == Seq::<u8>::empty(),
    {
        let mut data: Vec<u8> = Vec::new();
        while data.len() < RESPONSE_CAPACITY
            invariant
                data@.len() <= RESPONSE_CAPACITY,
            decreases RESPONSE_CAPACITY - data@.len(),
        {
            data.push(0);
        }
        let r = Response { data, len: 0 };
        proof {
            assert(r@ =~= Seq::<u8>::empty());
        }
        r
    }

    /// A response holding `bytes`, as one inbound transfer leaves it.
    pub fn from_bytes(bytes: &[u8]) -> (r: Response)
        requires
            bytes@.len() <= RESPONSE_CAPACITY,
        ensures
            r.wf(),
            r@ == bytes@,
    {
        let mut r = Response::empty();
        proof {
            assert(r@.len() == r.len as int);
        }
        let mut i: usize = 0;
        while i < bytes.len()
            invariant
                i <= bytes@.len() <= RESPONSE_CAPACITY,
                r.wf(),
                r.len == i,
                r@ == bytes@.subrange(0, i as int),
            decreases bytes@.len() - i,
        {
            let ghost prev = r@;
            let b = *vstd::slice::slice_index_get(bytes, i);
            r.data.set(i, b);
            r.len = i + 1;
            proof {
                assert(r@ =~= prev + seq![bytes@[i as int]]);
                assert(r@ =~= bytes@.subrange(0, i + 1));
            }
            i = i + 1;
        }
        proof {
            assert(bytes@.subrange(0, bytes@.len() as int) =~= bytes@);
        }
        r
    }

    /// The received bytes, as a read-only view.
    pub fn get(&self) -> (s: &[u8])
        requires
            self.wf(),
        ensures
            s@ == self@,
    {
        vstd::slice::slice_subrange(self.data.as_slice(), 0, self.len)
    }
}

/// Encodes the command frame that opens an exchange: tag, declared
/// payload size, operation and address, in the fixed 24-byte layout.
pub fn encode_command(tag: u32, size: u32, operation: Command, address: u32) -> (r: Vec<u8>)
    ensures
        r@ == spec_command_bytes(
            internal::Command {
                tag,
                size,
                command: operation.spec_code(),
                address,
                unk: 0,
            },
        ),
        r@.len() == internal::COMMAND_FRAME_LEN,
{
    let frame = internal::Command { tag, size, command: operation.code(), address, unk: 0 };
    frame.bytes()
}

/// What an exchange's status frame means for a sender awaiting `tag`:
/// malformed bytes, a foreign tag and a device rejection fail, in that
/// order of precedence; only a well-formed, matching, successful status
/// frame completes the exchange.
pub open spec fn spec_send_outcome(status: Seq<u8>, tag: u32) -> Result<(), Error> {
    match spec_decode_status(status) {
        None => Err(Error::MalformedFrame),
        Some(st) => if st.tag != tag {
            Err(Error::TagMismatch { expected: tag, actual: st.tag })
        } else if !st.success {
            Err(Error::DeviceRejected)
        } else {
            Ok(())
        },
    }
}

/// Validates the status frame that answers a send-class exchange: the
/// frame must decode, echo `tag`, and report success.
pub fn confirm_send(status_bytes: &[u8], tag: u32) -> (r: Result<(), Error>)
    ensures
        r == spec_send_outcome(status_bytes@, tag),
{
    let status = match decode_status(status_bytes) {
        Ok(st) => st,
        Err(e) => { return Err(e); },
    };
    if status.tag != tag {
        return Err(Error::TagMismatch { expected: tag, actual: status.tag });
    }
    if !status.success {
        return Err(Error::DeviceRejected);
    }
    Ok(())
}

/// What a receive-class exchange yields once its response payload and
/// status frame are in: a status frame that does not decode fails first;
/// then a payload whose length is not the requested `size`; then a
/// foreign tag; then a device rejection.
pub open spec fn spec_receive_outcome(
    payload: Seq<u8>,
    status: Seq<u8>,
    tag: u32,
    size: u32,
) -> Result<(), Error> {
    match spec_decode_status(status) {
        None => Err(Error::MalformedFrame),
        Some(st) => if payload.len() != size {
            Err(Error::PayloadSizeMismatch { expected: size, actual: payload.len() as u32 })
        } else if st.tag != tag {
            Err(Error::TagMismatch { expected: tag, actual: st.tag })
        } else if !st.success {
            Err(Error::DeviceRejected)
        } else {
            Ok(())
        },
    }
}

/// Validates a receive-class exchange: beyond the checks of
/// `confirm_send`, the response payload must have exactly the requested
/// length.
pub fn confirm_receive(response: &Response, status_bytes: &[u8], tag: u32, size: u32) -> (r:
    Result<(), Error>)
    requires
        response.wf(),
    ensures
        r == spec_receive_outcome(response@, status_bytes@, tag, size),
{
    let status = match decode_status(status_bytes) {
        Ok(st) => st,
        Err(e) => { return Err(e); },
    };
    let actual = response.get().len();
    if actual != size as usize {
        return Err(Error::PayloadSizeMismatch { expected: size, actual: actual as u32 });
    }
    if status.tag != tag {
        return Err(Error::TagMismatch { expected: tag, actual: status.tag });
    }
    if !status.success {
        return Err(Error::DeviceRejected);
    }
    Ok(())
}

} // verus!
