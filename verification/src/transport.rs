//! Parameters of the QUIC connection between two peers, and how each knows the
//! other by the fingerprint of its certificate.
use rustls::pki_types::CertificateDer;
use vstd::prelude::*;
use webpki::EndEntityCert;

use crate::cert::{constant_time_eq, sha256, sha256_of};
use crate::clock::Duration;
use crate::env::{env_int, spec_env_int, spec_var, Env};
use crate::exchange::{spec_resolve_dur, PeerConfig};
use crate::text::join2;

verus! {

pub const PROTOCOL_VERSION: &'static str = "0.1";

/// Name of the protocol in the TLS handshake.
pub const ALPN: &'static str = "qvole-v0.1";

pub const DEFAULT_KEEP_ALIVE_PERIOD_MS: u64 = 5_000;

pub const DEFAULT_MAX_IDLE_TIMEOUT_MS: u64 = 120_000;

pub const DEFAULT_HANDSHAKE_TIMEOUT_MS: u64 = 30_000;

pub const DEFAULT_MAX_INCOMING_STREAMS: u32 = 100;

pub const DEFAULT_FORWARD_MAX_STREAMS: i64 = 200;

pub const DEFAULT_INITIAL_STREAM_WINDOW: i64 = 1_048_576;

pub const DEFAULT_INITIAL_CONNECTION_WINDOW: i64 = 4_194_304;

/// Code with which a connection is closed when this side is told to stop.
pub const CANCEL_ERROR_CODE: u32 = 1;

/// Pause between the end of a stream and the close of its connection.
pub const STREAM_CLOSE_DELAY_MS: u64 = 500;

/// How long packets are sent to keep the way to the peer open.
pub const HELPER_TIMEOUT_MS: u64 = 3_000;

/// Interval between those packets.
pub const HELPER_TICKER_INTERVAL_MS: u64 = 50;

/// Contents of those packets.
pub const KEEPALIVE_PAYLOAD: [u8; 1] = [0x01];

/// Milliseconds as QUIC carries them here: in 32 bits, the greatest number for
/// more.
pub open spec fn spec_millis_varint(d: Duration) -> int {
    let ms = d.nanos / crate::clock::NANOS_PER_MILLI;
    if ms > u32::MAX {
        u32::MAX as int
    } else {
        ms as int
    }
}

pub fn millis_varint(d: Duration) -> (v: u32)
    ensures
        v == spec_millis_varint(d),
{
    let ms: u128 = d.as_millis();
    if ms > u32::MAX as u128 {
        u32::MAX
    } else {
        ms as u32
    }
}

/// A number of bytes, in 32 bits.
pub fn byte_varint(b: u64) -> (v: u32)
    ensures
        v == if b > u32::MAX {
            u32::MAX as int
        } else {
            b as int
        },
{
    if b > u32::MAX as u64 {
        u32::MAX
    } else {
        b as u32
    }
}

/// The receive window of a stream.
pub fn initial_stream_window(env: &Env) -> (n: u64)
    requires
        env.wf(),
    ensures
        n == spec_env_int(
            spec_var(env@, "QVOLE_INITIAL_STREAM_WINDOW"@),
            DEFAULT_INITIAL_STREAM_WINDOW,
        ),
{
    let n: i64 = env_int(env, "QVOLE_INITIAL_STREAM_WINDOW", DEFAULT_INITIAL_STREAM_WINDOW);
    proof {
        crate::env::law_settings_bounded(
            spec_var(env@, "QVOLE_INITIAL_STREAM_WINDOW"@),
            DEFAULT_INITIAL_STREAM_WINDOW,
            0,
        );
    }
    n as u64
}

/// The receive window of a connection.
pub fn initial_connection_window(env: &Env) -> (n: u64)
    requires
        env.wf(),
    ensures
        n == spec_env_int(
            spec_var(env@, "QVOLE_INITIAL_CONNECTION_WINDOW"@),
            DEFAULT_INITIAL_CONNECTION_WINDOW,
        ),
{
    let n: i64 = env_int(env, "QVOLE_INITIAL_CONNECTION_WINDOW", DEFAULT_INITIAL_CONNECTION_WINDOW);
    proof {
        crate::env::law_settings_bounded(
            spec_var(env@, "QVOLE_INITIAL_CONNECTION_WINDOW"@),
            DEFAULT_INITIAL_CONNECTION_WINDOW,
            0,
        );
    }
    n as u64
}

/// How many streams a tunnel may carry at once: `override_val` unless it is
/// zero or not set, else the setting.
pub fn get_forward_max_streams(override_val: Option<u32>, env: &Env) -> (n: i64)
    requires
        env.wf(),
    ensures
        n == if override_val is Some && override_val->0 > 0 {
            override_val->0 as i64
        } else {
            spec_env_int(spec_var(env@, "QVOLE_FORWARD_MAX_STREAMS"@), DEFAULT_FORWARD_MAX_STREAMS)
        },
{
    match override_val {
        Some(v) => if v > 0 {
            return v as i64;
        },
        None => {},
    }
    env_int(env, "QVOLE_FORWARD_MAX_STREAMS", DEFAULT_FORWARD_MAX_STREAMS)
}

/// What a QUIC connection is set up with.
#[derive(Clone, Copy, Debug)]
pub struct TransportProfile {
    pub max_bidi_streams: u32,
    /// One-way streams are not used.
    pub max_uni_streams: u32,
    pub keep_alive: Duration,
    pub idle_timeout_ms: u32,
    pub stream_window: u32,
    pub connection_window: u32,
}

/// The set-up that `cfg` and the environment ask for.
pub fn quic_transport_config(cfg: &PeerConfig, env: &Env) -> (p: TransportProfile)
    requires
        env.wf(),
    ensures
        p.max_bidi_streams == (if cfg.max_streams is Some && cfg.max_streams->0 > 0 {
            cfg.max_streams->0
        } else {
            spec_env_int(
                spec_var(env@, "QVOLE_MAX_STREAMS"@),
                DEFAULT_MAX_INCOMING_STREAMS as i64,
            ) as u32
        }),
        p.max_uni_streams == 0,
        p.keep_alive == spec_resolve_dur(
            cfg.keep_alive_period,
            spec_var(env@, "QVOLE_KEEPALIVE_MS"@),
            DEFAULT_KEEP_ALIVE_PERIOD_MS,
        ),
        p.idle_timeout_ms == spec_millis_varint(
            spec_resolve_dur(
                cfg.idle_timeout,
                spec_var(env@, "QVOLE_IDLE_TIMEOUT_MS"@),
                DEFAULT_MAX_IDLE_TIMEOUT_MS,
            ),
        ),
        p.stream_window == capped(
            spec_env_int(
                spec_var(env@, "QVOLE_INITIAL_STREAM_WINDOW"@),
                DEFAULT_INITIAL_STREAM_WINDOW,
            ) as int,
        ),
        p.connection_window == capped(
            spec_env_int(
                spec_var(env@, "QVOLE_INITIAL_CONNECTION_WINDOW"@),
                DEFAULT_INITIAL_CONNECTION_WINDOW,
            ) as int,
        ),
{
    TransportProfile {
        max_bidi_streams: cfg.max_streams(env),
        max_uni_streams: 0,
        keep_alive: cfg.keep_alive_period(env),
        idle_timeout_ms: millis_varint(cfg.idle_timeout(env)),
        stream_window: byte_varint(initial_stream_window(env)),
        connection_window: byte_varint(initial_connection_window(env)),
    }
}

/// `n`, or the greatest number of 32 bits for more.
pub open spec fn capped(n: int) -> int {
    if n > u32::MAX {
        u32::MAX as int
    } else {
        n
    }
}

/// Why a peer's certificate or signature was not accepted.
#[derive(Debug)]
pub enum TlsFault {
    FingerprintMismatch,
    UnsupportedScheme,
    InvalidEncoding,
    InvalidSignature(String),
    FingerprintLength,
}

impl TlsFault {
    /// The text of a fault.
    pub open spec fn spec_message(&self) -> Seq<char> {
        match self {
            TlsFault::FingerprintMismatch => "peer certificate fingerprint mismatch"@,
            TlsFault::UnsupportedScheme => "unsupported signature scheme"@,
            TlsFault::InvalidEncoding => "invalid peer certificate encoding"@,
            TlsFault::InvalidSignature(m) => "peer certificate signature invalid: "@ + m@,
            TlsFault::FingerprintLength => "bad peer fingerprint length"@,
        }
    }

    pub fn message(&self) -> (s: String)
        ensures
            s@ == self.spec_message(),
    {
        match self {
            TlsFault::FingerprintMismatch => "peer certificate fingerprint mismatch".to_owned(),
            TlsFault::UnsupportedScheme => "unsupported signature scheme".to_owned(),
            TlsFault::InvalidEncoding => "invalid peer certificate encoding".to_owned(),
            TlsFault::InvalidSignature(m) => join2(
                "peer certificate signature invalid: ",
                m.as_str(),
            ),
            TlsFault::FingerprintLength => "bad peer fingerprint length".to_owned(),
        }
    }
}

/// A certificate is the one that was pinned by its fingerprint.
pub open spec fn pin_accepts(fingerprint: Seq<u8>, end_entity: Seq<u8>) -> bool {
    sha256_of(end_entity) == fingerprint
}

/// A certificate is accepted just when its SHA-256 hash is the fingerprint.
pub fn check_fingerprint(fingerprint: [u8; 32], end_entity: &[u8]) -> (r: Result<(), TlsFault>)
    ensures
        if pin_accepts(fingerprint@, end_entity@) {
            r is Ok
        } else {
            r is Err && r->Err_0 is FingerprintMismatch
        },
{
    let h = sha256(end_entity);
    if constant_time_eq(h.as_slice(), fingerprint.as_slice()) {
        Ok(())
    } else {
        Err(TlsFault::FingerprintMismatch)
    }
}

/// Number of the signature scheme ECDSA with P-256 and SHA-256.
pub const ECDSA_NISTP256_SHA256: u16 = 0x0403;

/// A byte string is the encoding of a certificate.
pub uninterp spec fn cert_is_readable(cert: Seq<u8>) -> bool;

/// What is wrong with a signature under the key of a certificate.
pub uninterp spec fn signature_fault(
    cert: Seq<u8>,
    message: Seq<u8>,
    signature: Seq<u8>,
) -> Option<Seq<char>>;

/// What came of checking a signature.
enum Checked {
    Unreadable,
    Invalid(String),
    Valid,
}

/// `EndEntityCert::try_from` reads a certificate, and `verify_signature`
/// checks an ECDSA signature with P-256 and SHA-256 under its key. Which of
/// the two fails, and with which text, depends on the three byte strings
/// alone.
#[verifier::external_body]
fn check_p256_signature(cert: &[u8], message: &[u8], signature: &[u8]) -> (r: Checked)
    ensures
        match r {
            Checked::Unreadable => !cert_is_readable(cert@),
            Checked::Invalid(m) => cert_is_readable(cert@) && signature_fault(
                cert@,
                message@,
                signature@,
            ) == Some(m@),
            Checked::Valid => cert_is_readable(cert@) && signature_fault(
                cert@,
                message@,
                signature@,
            ) is None,
        },
{
    let der = CertificateDer::from(cert);
    match EndEntityCert::try_from(&der) {
        Err(_) => Checked::Unreadable,
        Ok(c) => match c.verify_signature(webpki::ring::ECDSA_P256_SHA256, message, signature) {
            Ok(()) => Checked::Valid,
            Err(e) => Checked::Invalid(e.to_string()),
        },
    }
}

/// What is said of a signature of the given scheme, when the certificate can
/// or cannot be read and the check gave `fault`.
pub open spec fn spec_signature_verdict(
    scheme: u16,
    readable: bool,
    fault: Option<Seq<char>>,
) -> Option<Seq<char>> {
    if scheme != ECDSA_NISTP256_SHA256 {
        Some("unsupported signature scheme"@)
    } else if !readable {
        Some("invalid peer certificate encoding"@)
    } else {
        match fault {
            Some(m) => Some("peer certificate signature invalid: "@ + m),
            None => None,
        }
    }
}

/// The verdict on a signature, from what came of reading the certificate and
/// of checking the signature.
pub fn signature_verdict(scheme: u16, readable: bool, fault: Option<String>) -> (r: Result<
    (),
    TlsFault,
>)
    ensures
        match spec_signature_verdict(
            scheme,
            readable,
            match fault {
                Some(m) => Some(m@),
                None => None,
            },
        ) {
            None => r is Ok,
            Some(m) => r is Err && r->Err_0.spec_message() == m,
        },
{
    if scheme != ECDSA_NISTP256_SHA256 {
        return Err(TlsFault::UnsupportedScheme);
    }
    if !readable {
        return Err(TlsFault::InvalidEncoding);
    }
    match fault {
        Some(m) => Err(TlsFault::InvalidSignature(m)),
        None => Ok(()),
    }
}

/// Checks a signature made with the key of the certificate `cert`. Only one
/// scheme is accepted, that of the keys in use.
pub fn verify_pinned_signature(
    message: &[u8],
    cert: &[u8],
    scheme: u16,
    signature: &[u8],
) -> (r: Result<(), TlsFault>)
    ensures
        match spec_signature_verdict(
            scheme,
            cert_is_readable(cert@),
            signature_fault(cert@, message@, signature@),
        ) {
            None => r is Ok,
            Some(m) => r is Err && r->Err_0.spec_message() == m,
        },
{
    if scheme != ECDSA_NISTP256_SHA256 {
        return Err(TlsFault::UnsupportedScheme);
    }
    match check_p256_signature(cert, message, signature) {
        Checked::Unreadable => signature_verdict(scheme, false, None),
        Checked::Invalid(m) => signature_verdict(scheme, true, Some(m)),
        Checked::Valid => signature_verdict(scheme, true, None),
    }
}

/// The fingerprint in a byte string of the right length.
pub fn pinned_fingerprint(bytes: &[u8]) -> (r: Result<[u8; 32], TlsFault>)
    ensures
        if bytes@.len() == 32 {
            r is Ok && r->Ok_0@ == bytes@
        } else {
            r is Err && r->Err_0 is FingerprintLength
        },
{
    if bytes.len() != 32 {
        return Err(TlsFault::FingerprintLength);
    }
    let mut a: [u8; 32] = [0u8; 32];
    let mut i: usize = 0;
    while i < 32
        invariant
            i <= 32,
            bytes@.len() == 32,
            forall|j: int| 0 <= j < i ==> a@[j] == bytes@[j],
        decreases 32 - i,
    {
        a[i] = bytes[i];
        i = i + 1;
    }
    assert(a@ =~= bytes@);
    Ok(a)
}

/// How a client knows the server: by the fingerprint of its certificate.
#[derive(Clone, Copy, Debug)]
pub struct PinnedServerVerifier {
    pub fingerprint: [u8; 32],
}

impl PinnedServerVerifier {
    pub fn new(fingerprint: [u8; 32]) -> (v: PinnedServerVerifier)
        ensures
            v.fingerprint@ == fingerprint@,
    {
        PinnedServerVerifier { fingerprint }
    }

    /// Only the certificate of the server itself counts, not its chain, name
    /// or validity.
    pub fn verify_server_cert(&self, end_entity: &[u8]) -> (r: Result<(), TlsFault>)
        ensures
            if pin_accepts(self.fingerprint@, end_entity@) {
                r is Ok
            } else {
                r is Err && r->Err_0 is FingerprintMismatch
            },
    {
        check_fingerprint(self.fingerprint, end_entity)
    }

    /// The one scheme that is accepted.
    pub fn supported_verify_schemes(&self) -> (r: Vec<u16>)
        ensures
            r@ == seq![ECDSA_NISTP256_SHA256],
    {
        let r: Vec<u16> = vec![ECDSA_NISTP256_SHA256];
        assert(r@ =~= seq![ECDSA_NISTP256_SHA256]);
        r
    }
}

/// How a server knows the client: by the fingerprint of its certificate.
#[derive(Clone, Copy, Debug)]
pub struct PinnedClientVerifier {
    pub fingerprint: [u8; 32],
}

impl PinnedClientVerifier {
    pub fn new(fingerprint: [u8; 32]) -> (v: PinnedClientVerifier)
        ensures
            v.fingerprint@ == fingerprint@,
    {
        PinnedClientVerifier { fingerprint }
    }

    /// A certificate is asked for.
    pub fn offer_client_auth(&self) -> (b: bool)
        ensures
            b,
    {
        true
    }

    /// There is no connection without one.
    pub fn client_auth_mandatory(&self) -> (b: bool)
        ensures
            b,
    {
        true
    }

    /// Only the certificate of the client itself counts.
    pub fn verify_client_cert(&self, end_entity: &[u8]) -> (r: Result<(), TlsFault>)
        ensures
            if pin_accepts(self.fingerprint@, end_entity@) {
                r is Ok
            } else {
                r is Err && r->Err_0 is FingerprintMismatch
            },
    {
        check_fingerprint(self.fingerprint, end_entity)
    }

    /// The one scheme that is accepted.
    pub fn supported_verify_schemes(&self) -> (r: Vec<u16>)
        ensures
            r@ == seq![ECDSA_NISTP256_SHA256],
    {
        let r: Vec<u16> = vec![ECDSA_NISTP256_SHA256];
        assert(r@ =~= seq![ECDSA_NISTP256_SHA256]);
        r
    }
}

/// The certificate whose fingerprint a peer announces along with its points is
/// accepted by the side that reads the announcement, and no certificate with
/// another hash is.
pub proof fn law_announced_cert_is_accepted(
    cert: crate::cert::SelfSignedCert,
    other: Seq<u8>,
    m: Seq<u8>,
    n: Seq<u8>,
    my_m: Seq<u8>,
    my_n: Seq<u8>,
)
    requires
        cert.wf(),
        m.len() == crate::exchange::POINT_LEN,
        n.len() == crate::exchange::POINT_LEN,
        my_m.len() == crate::exchange::POINT_LEN,
        my_n.len() == crate::exchange::POINT_LEN,
        m != my_m,
    ensures
        ({
            let body = crate::hex::spec_to_hex(
                crate::exchange::announcement(m, n, cert.fingerprint@),
            );
            let read = crate::exchange::spec_parse_spake(body, my_m, my_n);
            &&& read is Ok
            &&& pin_accepts(read->Ok_0.peer_fingerprint, cert.der@)
            &&& pin_accepts(read->Ok_0.peer_fingerprint, other) ==> sha256_of(other) == sha256_of(
                cert.der@,
            )
        }),
{
    crate::exchange::law_roles_agree(m, n, cert.fingerprint@, my_m, my_n, cert.fingerprint@);
}

} // verus!
