//! Incoming connection handling: the TLS acceptor configuration with its
//! self-signed fallback, TLS/plaintext sniffing, and the admission ceiling
//! for in-flight handshakes.

use vstd::prelude::*;

verus! {

/// How the TLS acceptor gets its private key and certificate: explicit
/// in-memory PEM data, or paths to PEM files.
pub enum Tls {
    /// The private key and the certificate, as PEM bytes.
    KeyCert(Vec<u8>, Vec<u8>),
    /// The paths of the private key file and the certificate chain file.
    FilesPem(String, String),
}

/// What the finished TLS acceptor is built from. Renegotiation is always
/// disabled, and a key/certificate consistency failure is fatal.
pub enum TlsAcceptorPlan {
    /// Use the given private key and certificate (PEM bytes).
    KeyCert(Vec<u8>, Vec<u8>),
    /// Load the private key and the certificate chain from the given PEM
    /// files.
    FilesPem(String, String),
    /// Generate a self-signed certificate on the fly: a NIST P-256 key, a
    /// SHA-256 signature, valid for [`SELF_SIGNED_VALIDITY_DAYS`] days from
    /// now, issuer `C=CA, O=Self, CN=localhost`.
    SelfSigned,
}

/// How long a generated self-signed certificate stays valid, in days.
pub const SELF_SIGNED_VALIDITY_DAYS: u32 = 365;

/// A builder for a TLS acceptor which can be configured either with
/// certificates (or paths to PEM files), or otherwise builds a self-signed
/// certificate on the fly (mostly useful during development).
pub struct TlsAcceptorBuilder {
    /// The configured key and certificate source, if any.
    pub tls: Option<Tls>,
    /// The configured cipher suites, if any.
    pub cipher_suites: Option<String>,
    /// The configured cipher list, if any.
    pub cipher_list: Option<String>,
}

impl TlsAcceptorBuilder {
    /// A builder with nothing configured.
    pub fn new() -> (r: Self)
        ensures
            r.tls is None,
            r.cipher_suites is None,
            r.cipher_list is None,
    {
        TlsAcceptorBuilder { tls: None, cipher_suites: None, cipher_list: None }
    }

    /// Configures an explicit in-memory key and certificate; this takes
    /// precedence over PEM file paths.
    pub fn certificate(self, key: Vec<u8>, cert: Vec<u8>) -> (r: Self)
        ensures
            r.tls matches Some(t) && t == Tls::KeyCert(key, cert),
            r.cipher_suites == self.cipher_suites,
            r.cipher_list == self.cipher_list,
    {
        TlsAcceptorBuilder { tls: Some(Tls::KeyCert(key, cert)), ..self }
    }

    /// Configures PEM file paths for the key and the certificate chain.
    pub fn certificate_paths_pem(self, key: String, cert: String) -> (r: Self)
        ensures
            r.tls matches Some(t) && t == Tls::FilesPem(key, cert),
            r.cipher_suites == self.cipher_suites,
            r.cipher_list == self.cipher_list,
    {
        TlsAcceptorBuilder { tls: Some(Tls::FilesPem(key, cert)), ..self }
    }

    /// Configures the cipher suites.
    pub fn cipher_suites(self, suites: String) -> (r: Self)
        ensures
            r.cipher_suites matches Some(s) && s == suites,
            r.tls == self.tls,
            r.cipher_list == self.cipher_list,
    {
        TlsAcceptorBuilder { cipher_suites: Some(suites), ..self }
    }

    /// Configures the cipher list.
    pub fn cipher_list(self, list: String) -> (r: Self)
        ensures
            r.cipher_list matches Some(l) && l == list,
            r.tls == self.tls,
            r.cipher_suites == self.cipher_suites,
    {
        TlsAcceptorBuilder { cipher_list: Some(list), ..self }
    }

    /// Decides what the acceptor is built from, by precedence: an explicit
    /// key and certificate first, then PEM file paths, and a generated
    /// self-signed certificate when nothing was configured.
    pub fn build(self) -> (r: TlsAcceptorPlan)
        ensures
            match self.tls {
                Some(Tls::KeyCert(key, cert)) => r == TlsAcceptorPlan::KeyCert(key, cert),
                Some(Tls::FilesPem(key, cert)) => r == TlsAcceptorPlan::FilesPem(key, cert),
                None => r == TlsAcceptorPlan::SelfSigned,
            },
    {
        match self.tls {
            Some(Tls::KeyCert(key, cert)) => TlsAcceptorPlan::KeyCert(key, cert),
            Some(Tls::FilesPem(key, cert)) => TlsAcceptorPlan::FilesPem(key, cert),
            None => TlsAcceptorPlan::SelfSigned,
        }
    }
}

/// The configuration of the accept loop: a debug flag for verbose logging,
/// the TCP keepalive interval, and the ceiling on concurrently pending
/// handshakes.
pub struct AcceptBuilder {
    /// Whether routine rejection and timeout noise is logged verbosely.
    pub debug: bool,
    /// The TCP keepalive interval set on each accepted socket, in seconds.
    pub tcp_keepalive_time: u32,
    /// The admission ceiling: how many handshakes may be in flight at once.
    pub max_pending_accepts: usize,
}

impl Default for AcceptBuilder {
    /// The stock configuration: quiet logging, two-minute keepalive, and a
    /// ceiling of 1024 pending handshakes.
    fn default() -> (r: Self)
        ensures
            r.debug == false,
            r.tcp_keepalive_time == 120,
            r.max_pending_accepts == 1024,
    {
        AcceptBuilder { debug: false, tcp_keepalive_time: 120, max_pending_accepts: 1024 }
    }
}

impl AcceptBuilder {
    /// The stock configuration, as [`Default::default`] gives it.
    pub fn new() -> (r: Self)
        ensures
            r.debug == false,
            r.tcp_keepalive_time == 120,
            r.max_pending_accepts == 1024,
    {
        Default::default()
    }

    /// Sets the debug flag.
    pub fn debug(self, debug: bool) -> (r: Self)
        ensures
            r.debug == debug,
            r.tcp_keepalive_time == self.tcp_keepalive_time,
            r.max_pending_accepts == self.max_pending_accepts,
    {
        AcceptBuilder { debug, ..self }
    }

    /// Sets the TCP keepalive interval.
    pub fn tcp_keepalive_time(self, time: u32) -> (r: Self)
        ensures
            r.tcp_keepalive_time == time,
            r.debug == self.debug,
            r.max_pending_accepts == self.max_pending_accepts,
    {
        AcceptBuilder { tcp_keepalive_time: time, ..self }
    }

    /// Sets the admission ceiling.
    pub fn max_pending_accepts(self, count: usize) -> (r: Self)
        ensures
            r.max_pending_accepts == count,
            r.debug == self.debug,
            r.tcp_keepalive_time == self.tcp_keepalive_time,
    {
        AcceptBuilder { max_pending_accepts: count, ..self }
    }
}

/// Counts the handshakes in flight against the admission ceiling: one token
/// is acquired per accepted raw socket and released when its handshake
/// finishes or fails, on every exit path.
pub struct AcceptCounter {
    /// How many handshakes are in flight.
    pub pending: usize,
    /// The admission ceiling.
    pub max: usize,
}

/// Whether the counter admits one more connection.
pub open spec fn spec_admits(c: AcceptCounter) -> bool {
    c.pending < c.max
}

impl AcceptCounter {
    /// A counter with nothing in flight and the given ceiling.
    pub fn new(max: usize) -> (r: Self)
        ensures
            r.pending == 0,
            r.max == max,
    {
        AcceptCounter { pending: 0, max }
    }

    /// Admits a new connection when the ceiling is not reached, taking one
    /// token; at the ceiling the connection is refused and nothing changes
    /// (load-shedding, not queuing).
    pub fn try_acquire(&mut self) -> (admitted: bool)
        ensures
            admitted == spec_admits(*old(self)),
            final(self).max == old(self).max,
            admitted ==> final(self).pending == old(self).pending + 1,
            !admitted ==> final(self).pending == old(self).pending,
    {
        if self.pending < self.max {
            self.pending = self.pending + 1;
            true
        } else {
            false
        }
    }

    /// Releases the token of a handshake that finished or failed.
    pub fn release(&mut self)
        requires
            old(self).pending > 0,
        ensures
            final(self).pending == old(self).pending - 1,
            final(self).max == old(self).max,
    {
        self.pending = self.pending - 1;
    }
}

/// Once `max` handshakes are outstanding, the next accepted raw connection is
/// refused before any handshake is attempted: the counter admits nothing at
/// or beyond its ceiling.
pub proof fn lemma_admission_at_ceiling(c: AcceptCounter)
    ensures
        c.pending >= c.max ==> !spec_admits(c),
{
}

/// Whether an SSL 3.0 / TLS plaintext fragment opening a TLS handshake
/// stands at the start of the buffer: at least five bytes, content type
/// handshake (22), major version 3, and a fragment length of at most
/// 2^14 bytes read big-endian from bytes 3 and 4.
pub open spec fn spec_contains_tls_handshake_fragment(buf: Seq<u8>) -> bool {
    &&& buf.len() >= 5
    &&& buf[0] == 0x16
    &&& buf[1] == 0x3
    &&& ((buf[3] as u16) << 8u16) + (buf[4] as u16) <= 0x4000
}

/// Checks whether an SSL 3.0 / TLS plaintext fragment being part of a
/// SSL / TLS handshake is contained in the given buffer.
///
/// If such a fragment is detected at the beginning of the buffer, a TLS
/// handshake is most definitely being made.
pub fn contains_tls_handshake_fragment(buf: &[u8]) -> (r: bool)
    ensures
        r == spec_contains_tls_handshake_fragment(buf@),
{
    if buf.len() < 5 {
        return false;
    }

    let b3 = buf[3];
    let b4 = buf[4];
    assert(((b3 as u16) << 8u16) <= 0xFF00) by (bit_vector);
    buf[0] == 0x16 && buf[1] == 0x3 && ((b3 as u16) << 8u16) + (b4 as u16) <= 0x4000
}

/// What one poll of the sniffer decides for a fresh connection.
#[derive(Debug, PartialEq, Eq, Structural, Copy, Clone)]
pub enum SniffDecision {
    /// The peeked bytes open a TLS handshake: route to the TLS accept path.
    Tls,
    /// No new bytes arrived between polls: treat the stream as plaintext.
    Plaintext,
    /// Something new arrived but no verdict yet: peek again.
    KeepPolling,
}

/// Decides, from one non-destructive peek, how to route a fresh connection:
/// TLS as soon as the peeked bytes open a TLS handshake; plaintext when a
/// poll brought no new bytes; otherwise keep polling (the surrounding loop
/// bounds the polling at one second and then falls back to plaintext).
pub fn sniff_step(buf: &[u8], peek_size: usize, last_peek_size: usize) -> (r: SniffDecision)
    ensures
        (r == SniffDecision::Tls) <==> spec_contains_tls_handshake_fragment(buf@),
        !spec_contains_tls_handshake_fragment(buf@) && peek_size == last_peek_size ==> r
            == SniffDecision::Plaintext,
        !spec_contains_tls_handshake_fragment(buf@) && peek_size != last_peek_size ==> r
            == SniffDecision::KeepPolling,
{
    if contains_tls_handshake_fragment(buf) {
        SniffDecision::Tls
    } else if peek_size == last_peek_size {
        SniffDecision::Plaintext
    } else {
        SniffDecision::KeepPolling
    }
}

} // verus!
