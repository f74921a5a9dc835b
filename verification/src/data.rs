//! Data carried over a byte stream and the error taxonomy of the socket
//! layer: the payload encodings a stream may hold, the conversion of raw
//! bytes to UTF-16 text, the record a server keeps per incoming stream, and
//! the error kinds the socket wrappers report. The socket layer itself lives
//! outside the library; these are the plain values it exchanges with it.

use vstd::prelude::*;

use crate::errors::ProtocolError;

verus! {

/// Data read from a stream, in one of the encodings the protocol accepts.
#[derive(Debug)]
pub enum Data {
    /// UTF-8 encoded text, after deserialization.
    Utf8(String),
    /// UTF-16 encoded text, after deserialization.
    Utf16(String),
    /// Raw bytes as transmitted.
    Bytes(Vec<u8>),
}

impl Clone for Data {
    fn clone(&self) -> (r: Self)
        ensures
            r@ == self@,
    {
        match self {
            Data::Utf8(s) => Data::Utf8(s.clone()),
            Data::Utf16(s) => Data::Utf16(s.clone()),
            Data::Bytes(b) => Data::Bytes(clone_bytes(b)),
        }
    }
}

/// View of [`Data`].
#[verifier::ext_equal]
pub enum DataV {
    Utf8(Seq<char>),
    Utf16(Seq<char>),
    Bytes(Seq<u8>),
}

impl View for Data {
    type V = DataV;

    open spec fn view(&self) -> DataV {
        match self {
            Data::Utf8(s) => DataV::Utf8(s@),
            Data::Utf16(s) => DataV::Utf16(s@),
            Data::Bytes(b) => DataV::Bytes(b@),
        }
    }
}

/// Clones a byte buffer.
fn clone_bytes(b: &Vec<u8>) -> (r: Vec<u8>)
    ensures
        r@ == b@,
{
    let mut out: Vec<u8> = Vec::new();
    let mut i: usize = 0;
    while i < b.len()
        invariant
            i <= b@.len(),
            out@ == b@.take(i as int),
        decreases b@.len() - i,
    {
        out.push(b[i]);
        proof {
            assert(b@.take(i as int).push(b@[i as int]) =~= b@.take(i + 1));
        }
        i = i + 1;
    }
    proof {
        assert(b@.take(b@.len() as int) =~= b@);
    }
    out
}

/// The encoding a caller expects of incoming stream data.
#[derive(Clone, Copy, Debug, PartialEq, Eq, Structural)]
pub enum Type {
    /// UTF-8 encoded text.
    Utf8,
    /// UTF-16 encoded text.
    Utf16,
    /// Raw bytes.
    Bytes,
}

/// The byte order used when pairing bytes into 16-bit units.
#[derive(Clone, Copy, Debug, PartialEq, Eq, Structural)]
pub enum Endian {
    /// Most significant byte first.
    Big,
    /// Least significant byte first.
    Little,
}

/// The 16-bit unit two bytes form under the given byte order.
pub open spec fn unit16(b0: u8, b1: u8, endian: Endian) -> u16 {
    match endian {
        Endian::Big => (b0 as u16 * 256 + b1 as u16) as u16,
        Endian::Little => (b1 as u16 * 256 + b0 as u16) as u16,
    }
}

/// The 16-bit units a byte buffer forms under the given byte order, pairing
/// adjacent bytes; a trailing odd byte is dropped.
pub open spec fn utf16_units(b: Seq<u8>, endian: Endian) -> Seq<u16> {
    Seq::new((b.len() / 2) as nat, |i: int| unit16(b[2 * i], b[2 * i + 1], endian))
}

/// What `String::from_utf16_lossy` makes of a unit sequence; the result
/// depends on the units alone.
pub uninterp spec fn utf16_lossy_of(units: Seq<u16>) -> Seq<char>;

/// Relies on `String::from_utf16_lossy`: the text it builds is a function of
/// the 16-bit units alone.
#[verifier::external_body]
fn utf16_lossy(units: &Vec<u16>) -> (r: String)
    ensures
        r@ == utf16_lossy_of(units@),
{
    String::from_utf16_lossy(units.as_slice())
}

impl Data {
    /// Pairs the buffer's bytes into 16-bit units under the given byte
    /// order; a trailing odd byte is dropped.
    pub fn to_utf16_encoded(buf: &Vec<u8>, endian: Endian) -> (r: Vec<u16>)
        ensures
            r@ == utf16_units(buf@, endian),
    {
        let mut out: Vec<u16> = Vec::new();
        let mut i: usize = 0;
        let mut j: usize = 0;
        while buf.len() - j >= 2
            invariant
                j == 2 * (i as int),
                j <= buf@.len(),
                out@.len() == i,
                forall|m: int|
                    0 <= m < i ==> #[trigger] out@[m] == unit16(
                        buf@[2 * m],
                        buf@[2 * m + 1],
                        endian,
                    ),
            decreases buf@.len() - j,
        {
            let b0 = buf[j];
            let b1 = buf[j + 1];
            let s: u16 = match endian {
                Endian::Big => b0 as u16 * 256 + b1 as u16,
                Endian::Little => b1 as u16 * 256 + b0 as u16,
            };
            out.push(s);
            i = i + 1;
            j = j + 2;
        }
        proof {
            assert(out@ =~= utf16_units(buf@, endian));
        }
        out
    }

    /// Decodes the buffer as UTF-16 text under the given byte order,
    /// replacing ill-formed units as `String::from_utf16_lossy` does.
    pub fn to_utf16_string(buf: &Vec<u8>, endian: Endian) -> (r: String)
        ensures
            r@ == utf16_lossy_of(utf16_units(buf@, endian)),
    {
        let units = Self::to_utf16_encoded(buf, endian);
        utf16_lossy(&units)
    }
}

/// What a server records of one incoming stream: the peer's address, as
/// text, and the data read from the stream.
#[derive(Debug)]
pub struct SocketData {
    address: String,
    data: Data,
}

/// View of [`SocketData`].
#[verifier::ext_equal]
pub struct SocketDataV {
    pub address: Seq<char>,
    pub data: DataV,
}

impl View for SocketData {
    type V = SocketDataV;

    closed spec fn view(&self) -> SocketDataV {
        SocketDataV { address: self.address@, data: self.data@ }
    }
}

impl SocketData {
    /// Wraps the address of an incoming stream and the data read from it.
    pub fn new(address: String, data: Data) -> (r: SocketData)
        ensures
            r@ == (SocketDataV { address: address@, data: data@ }),
    {
        SocketData { address, data }
    }

    /// The peer's address.
    pub fn address(&self) -> (r: &String)
        ensures
            r@ == self@.address,
    {
        &self.address
    }

    /// The data read from the stream.
    pub fn data(&self) -> (r: &Data)
        ensures
            r@ == self@.data,
    {
        &self.data
    }
}

/// The I/O error type of std, declared so that the socket error kinds can
/// carry the underlying fault through the library.
#[verifier::external_type_specification]
#[verifier::external_body]
pub struct ExIoError(std::io::Error);

/// The errors a client-side socket wrapper reports.
#[derive(Debug)]
pub enum ClientSocketError {
    /// An I/O operation on the stream failed.
    IoError { source: std::io::Error },
    /// The socket timed out transacting data.
    TimeoutError { message: String },
    /// Parsing the received data as a protocol frame failed.
    ProtocolParseError { source: ProtocolError },
}

impl From<std::io::Error> for ClientSocketError {
    fn from(value: std::io::Error) -> (r: Self) {
        ClientSocketError::IoError { source: value }
    }
}

impl vstd::std_specs::convert::FromSpecImpl<std::io::Error> for ClientSocketError {
    open spec fn obeys_from_spec() -> bool {
        true
    }

    open spec fn from_spec(t: std::io::Error) -> Self {
        ClientSocketError::IoError { source: t }
    }
}

/// The errors a server-side socket wrapper reports.
#[derive(Debug)]
pub enum ServerSocketError {
    /// An I/O operation on the listener or a stream failed.
    IoError { source: std::io::Error },
}

impl From<std::io::Error> for ServerSocketError {
    fn from(value: std::io::Error) -> (r: Self) {
        ServerSocketError::IoError { source: value }
    }
}

impl vstd::std_specs::convert::FromSpecImpl<std::io::Error> for ServerSocketError {
    open spec fn obeys_from_spec() -> bool {
        true
    }

    open spec fn from_spec(t: std::io::Error) -> Self {
        ServerSocketError::IoError { source: t }
    }
}

} // verus!
