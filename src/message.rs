//! The fixed 48-byte protocol message: building a client request and reading
//! the server's receive and transmit timestamps out of a response.

use vstd::prelude::*;
use byteorder::{BigEndian, ReadBytesExt};
use crate::timestamp::NTPTimestamp;

verus! {

/// Length in bytes of a protocol message.
pub const NTP_MESSAGE_LENGTH: usize = 48;

/// Byte 0 of a client request: leap indicator 0, version 3, mode 3 (client),
/// packed as `(leap << 6) | (version << 3) | mode`.
pub const CLIENT_HEADER: u8 = 0b_00_011_011;

/// Offset of the receive timestamp (the server's record of the request's arrival).
pub const RECEIVE_TIMESTAMP_OFFSET: usize = 32;

/// Offset of the transmit timestamp (the server's record of the response's departure).
pub const TRANSMIT_TIMESTAMP_OFFSET: usize = 40;

/// Why a timestamp could not be read from a buffer.
#[derive(Clone, Copy, Debug, PartialEq, Eq, Structural)]
pub enum ParseError {
    /// Fewer than eight bytes remain from the requested offset.
    Truncated,
    /// The read failed for another reason.
    Malformed,
}

/// The big-endian unsigned integer held by the four bytes of `s` from `at`.
pub open spec fn be_u32_at(s: Seq<u8>, at: int) -> int {
    s[at] * 16_777_216 + s[at + 1] * 65_536 + s[at + 2] * 256 + s[at + 3]
}

/// The timestamp held by the eight bytes of `s` from `at`: seconds, then fraction.
pub open spec fn timestamp_at(s: Seq<u8>, at: int) -> NTPTimestamp {
    NTPTimestamp { seconds: be_u32_at(s, at) as u32, fraction: be_u32_at(s, at + 4) as u32 }
}

/// Relies on byteorder's `ReadBytesExt::read_u32::<BigEndian>` on the byte slice
/// from `at`: it reads four bytes as a big-endian integer, and fails when fewer
/// than four remain.
#[verifier::external_body]
fn read_be_u32(bytes: &[u8], at: usize) -> (r: Option<u32>)
    requires
        at <= bytes@.len(),
    ensures
        r.is_some() == (bytes@.len() - at >= 4),
        r matches Some(v) ==> v == be_u32_at(bytes@, at as int),
{
    let mut reader = &bytes[at..];
    reader.read_u32::<BigEndian>().ok()
}

/// A protocol message as raw bytes.
pub struct NTPMessage {
    pub data: Vec<u8>,
}

impl NTPMessage {
    /// A message of 48 zero bytes.
    pub fn new() -> (r: NTPMessage)
        ensures
            r.data@.len() == NTP_MESSAGE_LENGTH,
            forall|i: int| 0 <= i < NTP_MESSAGE_LENGTH ==> r.data@[i] == 0,
    {
        NTPMessage { data: vec![0u8; NTP_MESSAGE_LENGTH] }
    }

    /// A message holding the given bytes, such as a received response.
    pub fn from_bytes(bytes: Vec<u8>) -> (r: NTPMessage)
        ensures
            r.data@ == bytes@,
    {
        NTPMessage { data: bytes }
    }

    /// The client request: 48 bytes, all zero but byte 0, which holds leap
    /// indicator 0, version 3 and mode 3 (client).
    pub fn client() -> (r: NTPMessage)
        ensures
            r.data@.len() == NTP_MESSAGE_LENGTH,
            r.data@[0] == 0b_00_011_011u8,
            forall|i: int| 1 <= i < NTP_MESSAGE_LENGTH ==> r.data@[i] == 0,
    {
        let mut message = Self::new();
        message.data.set(0, CLIENT_HEADER);
        message
    }

    /// The timestamp in the eight bytes from `i`: big-endian seconds, then
    /// big-endian fraction. Fails with `Truncated` when fewer than eight bytes
    /// remain from `i`.
    pub fn parse_timestamp(&self, i: usize) -> (r: Result<NTPTimestamp, ParseError>)
        ensures
            (r == Err::<NTPTimestamp, ParseError>(ParseError::Truncated)) <==> self.data@.len() < i + 8,
            self.data@.len() >= i + 8 ==> r == Ok::<NTPTimestamp, ParseError>(
                timestamp_at(self.data@, i as int),
            ),
    {
        let bytes = self.data.as_slice();
        if i > bytes.len() || bytes.len() - i < 8 {
            return Err(ParseError::Truncated);
        }
        let seconds = match read_be_u32(bytes, i) {
            Some(v) => v,
            None => return Err(ParseError::Malformed),
        };
        let fraction = match read_be_u32(bytes, i + 4) {
            Some(v) => v,
            None => return Err(ParseError::Malformed),
        };
        Ok(NTPTimestamp { seconds, fraction })
    }

    /// The receive timestamp (bytes 32 to 39): when the server received the request.
    pub fn rx_time(&self) -> (r: Result<NTPTimestamp, ParseError>)
        ensures
            (r == Err::<NTPTimestamp, ParseError>(ParseError::Truncated)) <==> self.data@.len() < 40,
            self.data@.len() >= 40 ==> r == Ok::<NTPTimestamp, ParseError>(
                timestamp_at(self.data@, RECEIVE_TIMESTAMP_OFFSET as int),
            ),
    {
        self.parse_timestamp(RECEIVE_TIMESTAMP_OFFSET)
    }

    /// The transmit timestamp (bytes 40 to 47): when the server sent the response.
    pub fn tx_time(&self) -> (r: Result<NTPTimestamp, ParseError>)
        ensures
            (r == Err::<NTPTimestamp, ParseError>(ParseError::Truncated)) <==> self.data@.len() < 48,
            self.data@.len() >= 48 ==> r == Ok::<NTPTimestamp, ParseError>(
                timestamp_at(self.data@, TRANSMIT_TIMESTAMP_OFFSET as int),
            ),
    {
        self.parse_timestamp(TRANSMIT_TIMESTAMP_OFFSET)
    }
}

} // verus!
