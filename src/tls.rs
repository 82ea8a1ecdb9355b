//! The start of a TLS client: the ClientHello and its parts. The handshake
//! itself is not implemented and writes nothing to the stream.

use crate::bignum::fresh_rng;
use rand::rngs::StdRng;
use rand::RngCore;
use vstd::prelude::*;

verus! {

/// Number of random bytes after the timestamp in a hello's random value.
pub const RANDOM_BYTES: usize = 28;

/// A protocol version as a (major, minor) pair.
#[derive(Debug, Clone, Copy, PartialEq, Eq, Structural)]
pub struct TlsProtocolVersion {
    pub major: u8,
    pub minor: u8,
}

/// The version this client offers: TLS 1.2.
pub open spec fn offered_version() -> TlsProtocolVersion {
    TlsProtocolVersion { major: 3, minor: 3 }
}

/// A hello's random value: a timestamp and 28 random bytes.
#[derive(Debug, Clone)]
pub struct TlsRandom {
    pub time: u32,
    pub bytes: Vec<u8>,
}

impl TlsRandom {
    pub open spec fn wf(&self) -> bool {
        self.bytes@.len() == RANDOM_BYTES
    }

    /// The current time, and bytes drawn from `rng`.
    pub fn new(rng: &mut StdRng) -> (r: TlsRandom)
        ensures
            r.wf(),
    {
        TlsRandom { time: unix_time_now(), bytes: random_bytes(rng, RANDOM_BYTES) }
    }
}

/// A ClientHello: the offered version, a random value and the session
/// identifier to resume (empty for a new session).
#[derive(Debug, Clone)]
pub struct TlsClientHello {
    pub version: TlsProtocolVersion,
    pub random: TlsRandom,
    pub session: Vec<u8>,
}

impl TlsClientHello {
    pub open spec fn wf(&self) -> bool {
        self.random.wf()
    }

    /// A hello for a new session, with a fresh random value.
    pub fn new() -> (r: TlsClientHello)
        ensures
            r.wf(),
            r.version == offered_version(),
            r.session@.len() == 0,
    {
        let mut rng = fresh_rng();
        TlsClientHello {
            version: TlsProtocolVersion { major: 3, minor: 3 },
            random: TlsRandom::new(&mut rng),
            session: Vec::new(),
        }
    }
}

/// A TLS client over a stream. The handshake is not implemented: it builds
/// a ClientHello and hands it to `write_client_hello`, which sends nothing.
#[derive(Debug)]
pub struct TlsClient<S> {
    pub stream: S,
}

impl<S> TlsClient<S> {
    /// Wraps `stream` and runs the handshake for a new session.
    pub fn wrap(stream: S) -> (r: TlsClient<S>)
        ensures
            r.stream == stream,
    {
        let mut client = TlsClient { stream };
        client.handshake(None);
        client
    }

    /// The handshake: builds a ClientHello and writes it. The session to
    /// resume is not used yet.
    pub fn handshake(&mut self, session: Option<&[u8]>)
        ensures
            *final(self) == *old(self),
    {
        let hello = TlsClientHello::new();
        self.write_client_hello(&hello);
    }

    /// Writing a ClientHello is not implemented: the client is left as it is.
    pub fn write_client_hello(&mut self, hello: &TlsClientHello)
        ensures
            *final(self) == *old(self),
    {
    }
}

/// Relies on `time::OffsetDateTime::now_utc` and `unix_timestamp`: the
/// current time in seconds since the Unix epoch, cut to 32 bits.
#[verifier::external_body]
fn unix_time_now() -> (r: u32) {
    time::OffsetDateTime::now_utc().unix_timestamp() as u32
}

/// Relies on `RngCore::fill_bytes` for `StdRng`: `len` bytes drawn from
/// `rng`.
#[verifier::external_body]
fn random_bytes(rng: &mut StdRng, len: usize) -> (r: Vec<u8>)
    ensures
        r@.len() == len,
{
    let mut b = vec![0u8; len];
    rng.fill_bytes(&mut b);
    b
}

} // verus!
