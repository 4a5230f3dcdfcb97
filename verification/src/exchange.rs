//! The exchange of keys and addresses between two peers that share a code.
//!
//! A peer announces itself with
//! `point M (65) | point N (65) | certificate fingerprint (32)`, and confirms
//! that it knows the code with
//! `nonce (16) | HMAC (32) | encrypted address (80) | random padding (32)`,
//! both in hex. The peer whose point M is the larger byte string is the
//! server; a peer that announces the other one's own point is turned away.
use vstd::prelude::*;
use vstd::slice::slice_subrange;

use crate::clock::Duration;
use crate::env::{env_duration_ms, env_int, Env};
use crate::hex::hex_decode;
use crate::net::SocketAddr;
use crate::random::random_bytes;
use crate::room::trim_ascii_space;
use crate::seqs::same_bytes;
use crate::text::join2;

verus! {

pub const POINT_LEN: usize = 65;

pub const FINGERPRINT_SIZE: usize = 32;

pub const SPAKE2_PAYLOAD_LEN: usize = POINT_LEN * 2 + FINGERPRINT_SIZE;

pub const MAX_CANDIDATES: usize = 50;

pub const MAX_BUFFERED_CONFIRMS: usize = 200;

pub const READ_BUFFER_SIZE: usize = 1500;

pub const SPAKE2_RESEND_INTERVAL_MS: u64 = 2_000;

pub const CONFIRM_RESEND_INTERVAL_MS: u64 = 2_000;

pub const EXCHANGE_READ_DEADLINE_MS: u64 = 1_000;

pub const EXCHANGE_DEADLINE_MS: u64 = 90_000;

pub const REG_INTERVAL_MS: u64 = 30_000;

pub const MAX_METADATA_SIZE: usize = 52;

pub const CONFIRM_NONCE_SIZE: usize = 16;

pub const CONFIRM_HMAC_SIZE: usize = 32;

pub const ENCRYPTED_ADDR_SIZE: usize = 12 + MAX_METADATA_SIZE + 16;

pub const CONFIRM_MIN_SIZE: usize = CONFIRM_NONCE_SIZE + CONFIRM_HMAC_SIZE + ENCRYPTED_ADDR_SIZE;

pub const CONFIRM_RAND_PAD: usize = 32;

pub const CONFIRM_PAYLOAD_SIZE: usize = CONFIRM_MIN_SIZE + CONFIRM_RAND_PAD;

pub const DEFAULT_PUNCH_TIMEOUT_MS: u64 = 10_000;

/// Connection parameters. One that is not set comes from the environment, or
/// else from a default.
#[derive(Clone, Copy, Debug, PartialEq, Eq, Structural)]
pub struct PeerConfig {
    pub punch_timeout: Option<Duration>,
    pub exchange_deadline: Option<Duration>,
    pub spake2_resend: Option<Duration>,
    pub confirm_resend: Option<Duration>,
    pub read_deadline: Option<Duration>,
    pub reg_interval: Option<Duration>,
    pub max_streams: Option<u32>,
    pub forward_max_streams: Option<u32>,
    pub keep_alive_period: Option<Duration>,
    pub idle_timeout: Option<Duration>,
    pub handshake_timeout: Option<Duration>,
}

impl Default for PeerConfig {
    fn default() -> (c: PeerConfig)
        ensures
            c == PeerConfig::unset(),
    {
        PeerConfig {
            punch_timeout: None,
            exchange_deadline: None,
            spake2_resend: None,
            confirm_resend: None,
            read_deadline: None,
            reg_interval: None,
            max_streams: None,
            forward_max_streams: None,
            keep_alive_period: None,
            idle_timeout: None,
            handshake_timeout: None,
        }
    }
}

/// A span that is set and not zero, else the one in the environment, else
/// `def_ms` milliseconds.
pub open spec fn spec_resolve_dur(
    val: Option<Duration>,
    var: Option<Seq<char>>,
    def_ms: u64,
) -> Duration {
    if val is Some && val->0.nanos > 0 {
        val->0
    } else {
        crate::clock::spec_from_millis(crate::env::spec_env_duration_ms(var, def_ms) as nat)
    }
}

impl PeerConfig {
    /// Nothing set.
    pub open spec fn unset() -> PeerConfig {
        PeerConfig {
            punch_timeout: None,
            exchange_deadline: None,
            spake2_resend: None,
            confirm_resend: None,
            read_deadline: None,
            reg_interval: None,
            max_streams: None,
            forward_max_streams: None,
            keep_alive_period: None,
            idle_timeout: None,
            handshake_timeout: None,
        }
    }

    fn resolve_dur(val: Option<Duration>, env: &Env, env_name: &str, def_ms: u64) -> (d: Duration)
        requires
            env.wf(),
        ensures
            d == spec_resolve_dur(val, crate::env::spec_var(env@, env_name@), def_ms),
    {
        match val {
            Some(d) => if d.nanos > 0 {
                d
            } else {
                Duration::from_millis(env_duration_ms(env, env_name, def_ms))
            },
            None => Duration::from_millis(env_duration_ms(env, env_name, def_ms)),
        }
    }

    /// `QVOLE_PUNCH_TIMEOUT_MS`, ten seconds by default.
    pub fn punch_timeout(&self, env: &Env) -> (d: Duration)
        requires
            env.wf(),
        ensures
            d == spec_resolve_dur(
                self.punch_timeout,
                crate::env::spec_var(env@, "QVOLE_PUNCH_TIMEOUT_MS"@),
                DEFAULT_PUNCH_TIMEOUT_MS,
            ),
    {
        Self::resolve_dur(
            self.punch_timeout,
            env,
            "QVOLE_PUNCH_TIMEOUT_MS",
            DEFAULT_PUNCH_TIMEOUT_MS,
        )
    }

    /// `QVOLE_EXCHANGE_DEADLINE_MS`, ninety seconds by default.
    pub fn exchange_deadline(&self, env: &Env) -> (d: Duration)
        requires
            env.wf(),
        ensures
            d == spec_resolve_dur(
                self.exchange_deadline,
                crate::env::spec_var(env@, "QVOLE_EXCHANGE_DEADLINE_MS"@),
                EXCHANGE_DEADLINE_MS,
            ),
    {
        Self::resolve_dur(
            self.exchange_deadline,
            env,
            "QVOLE_EXCHANGE_DEADLINE_MS",
            EXCHANGE_DEADLINE_MS,
        )
    }

    /// `QVOLE_SPAKE2_RESEND_MS`, two seconds by default.
    pub fn spake2_resend(&self, env: &Env) -> (d: Duration)
        requires
            env.wf(),
        ensures
            d == spec_resolve_dur(
                self.spake2_resend,
                crate::env::spec_var(env@, "QVOLE_SPAKE2_RESEND_MS"@),
                SPAKE2_RESEND_INTERVAL_MS,
            ),
    {
        Self::resolve_dur(
            self.spake2_resend,
            env,
            "QVOLE_SPAKE2_RESEND_MS",
            SPAKE2_RESEND_INTERVAL_MS,
        )
    }

    /// `QVOLE_CONFIRM_RESEND_MS`, two seconds by default.
    pub fn confirm_resend(&self, env: &Env) -> (d: Duration)
        requires
            env.wf(),
        ensures
            d == spec_resolve_dur(
                self.confirm_resend,
                crate::env::spec_var(env@, "QVOLE_CONFIRM_RESEND_MS"@),
                CONFIRM_RESEND_INTERVAL_MS,
            ),
    {
        Self::resolve_dur(
            self.confirm_resend,
            env,
            "QVOLE_CONFIRM_RESEND_MS",
            CONFIRM_RESEND_INTERVAL_MS,
        )
    }

    /// `QVOLE_EXCHANGE_READ_DEADLINE_MS`, one second by default.
    pub fn read_deadline(&self, env: &Env) -> (d: Duration)
        requires
            env.wf(),
        ensures
            d == spec_resolve_dur(
                self.read_deadline,
                crate::env::spec_var(env@, "QVOLE_EXCHANGE_READ_DEADLINE_MS"@),
                EXCHANGE_READ_DEADLINE_MS,
            ),
    {
        Self::resolve_dur(
            self.read_deadline,
            env,
            "QVOLE_EXCHANGE_READ_DEADLINE_MS",
            EXCHANGE_READ_DEADLINE_MS,
        )
    }

    /// `QVOLE_REG_INTERVAL_MS`, thirty seconds by default.
    pub fn reg_interval(&self, env: &Env) -> (d: Duration)
        requires
            env.wf(),
        ensures
            d == spec_resolve_dur(
                self.reg_interval,
                crate::env::spec_var(env@, "QVOLE_REG_INTERVAL_MS"@),
                REG_INTERVAL_MS,
            ),
    {
        Self::resolve_dur(self.reg_interval, env, "QVOLE_REG_INTERVAL_MS", REG_INTERVAL_MS)
    }

    /// `QVOLE_MAX_STREAMS`, a hundred by default.
    pub fn max_streams(&self, env: &Env) -> (n: u32)
        requires
            env.wf(),
        ensures
            n == (if self.max_streams is Some && self.max_streams->0 > 0 {
                self.max_streams->0
            } else {
                crate::env::spec_env_int(
                    crate::env::spec_var(env@, "QVOLE_MAX_STREAMS"@),
                    crate::transport::DEFAULT_MAX_INCOMING_STREAMS as i64,
                ) as u32
            }),
    {
        let set: u32 = match self.max_streams {
            Some(v) => v,
            None => 0,
        };
        if set > 0 {
            set
        } else {
            env_int(
                env,
                "QVOLE_MAX_STREAMS",
                crate::transport::DEFAULT_MAX_INCOMING_STREAMS as i64,
            ) as u32
        }
    }

    /// `QVOLE_KEEPALIVE_MS`, five seconds by default.
    pub fn keep_alive_period(&self, env: &Env) -> (d: Duration)
        requires
            env.wf(),
        ensures
            d == spec_resolve_dur(
                self.keep_alive_period,
                crate::env::spec_var(env@, "QVOLE_KEEPALIVE_MS"@),
                crate::transport::DEFAULT_KEEP_ALIVE_PERIOD_MS,
            ),
    {
        Self::resolve_dur(
            self.keep_alive_period,
            env,
            "QVOLE_KEEPALIVE_MS",
            crate::transport::DEFAULT_KEEP_ALIVE_PERIOD_MS,
        )
    }

    /// `QVOLE_IDLE_TIMEOUT_MS`, two minutes by default.
    pub fn idle_timeout(&self, env: &Env) -> (d: Duration)
        requires
            env.wf(),
        ensures
            d == spec_resolve_dur(
                self.idle_timeout,
                crate::env::spec_var(env@, "QVOLE_IDLE_TIMEOUT_MS"@),
                crate::transport::DEFAULT_MAX_IDLE_TIMEOUT_MS,
            ),
    {
        Self::resolve_dur(
            self.idle_timeout,
            env,
            "QVOLE_IDLE_TIMEOUT_MS",
            crate::transport::DEFAULT_MAX_IDLE_TIMEOUT_MS,
        )
    }

    /// `QVOLE_HANDSHAKE_TIMEOUT_MS`, thirty seconds by default.
    pub fn handshake_timeout(&self, env: &Env) -> (d: Duration)
        requires
            env.wf(),
        ensures
            d == spec_resolve_dur(
                self.handshake_timeout,
                crate::env::spec_var(env@, "QVOLE_HANDSHAKE_TIMEOUT_MS"@),
                crate::transport::DEFAULT_HANDSHAKE_TIMEOUT_MS,
            ),
    {
        Self::resolve_dur(
            self.handshake_timeout,
            env,
            "QVOLE_HANDSHAKE_TIMEOUT_MS",
            crate::transport::DEFAULT_HANDSHAKE_TIMEOUT_MS,
        )
    }
}

/// Why an exchange, or one message of it, came to nothing.
#[derive(Debug)]
pub enum ExchangeError {
    /// The key agreement could not start or go on.
    Spake2State(String),
    /// Text that is not hex.
    Hex(String),
    /// A message that is not of the expected form.
    Wire(String),
    DeriveKey(String),
    ComputeConfirm(String),
    EncryptAddr(String),
    /// The length of an address, and the longest that fits.
    AddressTooLong(usize, usize),
    ConfirmPayloadTooShort,
    ConfirmMismatch,
    DecryptAddr(String),
    Timeout,
    RelayRead(String),
    Cancelled,
}

/// An [`ExchangeError`] by its contents.
pub enum ExchangeErrorView {
    Spake2State(Seq<char>),
    Hex(Seq<char>),
    Wire(Seq<char>),
    DeriveKey(Seq<char>),
    ComputeConfirm(Seq<char>),
    EncryptAddr(Seq<char>),
    AddressTooLong(nat, nat),
    ConfirmPayloadTooShort,
    ConfirmMismatch,
    DecryptAddr(Seq<char>),
    Timeout,
    RelayRead(Seq<char>),
    Cancelled,
}

impl View for ExchangeError {
    type V = ExchangeErrorView;

    open spec fn view(&self) -> ExchangeErrorView {
        match self {
            ExchangeError::Spake2State(m) => ExchangeErrorView::Spake2State(m@),
            ExchangeError::Hex(m) => ExchangeErrorView::Hex(m@),
            ExchangeError::Wire(m) => ExchangeErrorView::Wire(m@),
            ExchangeError::DeriveKey(m) => ExchangeErrorView::DeriveKey(m@),
            ExchangeError::ComputeConfirm(m) => ExchangeErrorView::ComputeConfirm(m@),
            ExchangeError::EncryptAddr(m) => ExchangeErrorView::EncryptAddr(m@),
            ExchangeError::AddressTooLong(n, max) => ExchangeErrorView::AddressTooLong(
                *n as nat,
                *max as nat,
            ),
            ExchangeError::ConfirmPayloadTooShort => ExchangeErrorView::ConfirmPayloadTooShort,
            ExchangeError::ConfirmMismatch => ExchangeErrorView::ConfirmMismatch,
            ExchangeError::DecryptAddr(m) => ExchangeErrorView::DecryptAddr(m@),
            ExchangeError::Timeout => ExchangeErrorView::Timeout,
            ExchangeError::RelayRead(m) => ExchangeErrorView::RelayRead(m@),
            ExchangeError::Cancelled => ExchangeErrorView::Cancelled,
        }
    }
}

/// The text of an error.
pub open spec fn exchange_error_text(e: ExchangeErrorView) -> Seq<char> {
    match e {
        ExchangeErrorView::Spake2State(m) => "spake2 state: "@ + m,
        ExchangeErrorView::Hex(m) => "encoding/hex: "@ + m,
        ExchangeErrorView::Wire(m) => m,
        ExchangeErrorView::DeriveKey(m) => "spake2 derive key: "@ + m,
        ExchangeErrorView::ComputeConfirm(m) => "compute confirm: "@ + m,
        ExchangeErrorView::EncryptAddr(m) => "encrypt addr: "@ + m,
        ExchangeErrorView::AddressTooLong(n, max) => "address too long: "@
            + crate::number::spec_decimal(n) + " bytes (max "@ + crate::number::spec_decimal(max)
            + ")"@,
        ExchangeErrorView::ConfirmPayloadTooShort => "confirm payload too short"@,
        ExchangeErrorView::ConfirmMismatch => "spake2 confirmation mismatch"@,
        ExchangeErrorView::DecryptAddr(m) => "decrypt peer addr: "@ + m,
        ExchangeErrorView::Timeout => "timeout exchanging with peer"@,
        ExchangeErrorView::RelayRead(m) => "relay read: "@ + m,
        ExchangeErrorView::Cancelled => "context canceled"@,
    }
}

impl ExchangeError {
    pub fn message(&self) -> (s: String)
        ensures
            s@ == exchange_error_text(self@),
    {
        match self {
            ExchangeError::Spake2State(m) => join2("spake2 state: ", m.as_str()),
            ExchangeError::Hex(m) => join2("encoding/hex: ", m.as_str()),
            ExchangeError::Wire(m) => m.clone(),
            ExchangeError::DeriveKey(m) => join2("spake2 derive key: ", m.as_str()),
            ExchangeError::ComputeConfirm(m) => join2("compute confirm: ", m.as_str()),
            ExchangeError::EncryptAddr(m) => join2("encrypt addr: ", m.as_str()),
            ExchangeError::AddressTooLong(n, max) => {
                let mut s = join2(
                    "address too long: ",
                    crate::number::decimal(*n as u64).as_str(),
                );
                s.push_str(" bytes (max ");
                s.push_str(crate::number::decimal(*max as u64).as_str());
                s.push_str(")");
                assert(s@ =~= exchange_error_text(self@));
                s
            },
            ExchangeError::ConfirmPayloadTooShort => "confirm payload too short".to_owned(),
            ExchangeError::ConfirmMismatch => "spake2 confirmation mismatch".to_owned(),
            ExchangeError::DecryptAddr(m) => join2("decrypt peer addr: ", m.as_str()),
            ExchangeError::Timeout => "timeout exchanging with peer".to_owned(),
            ExchangeError::RelayRead(m) => join2("relay read: ", m.as_str()),
            ExchangeError::Cancelled => "context canceled".to_owned(),
        }
    }
}

/// `b` without the white space at its ends.
pub fn trim_ascii(b: &[u8]) -> (r: &[u8])
    ensures
        r@ == crate::room::spec_trim(b@),
{
    trim_ascii_space(b)
}

/// `a` comes before `b` in the order of byte strings.
pub open spec fn lex_less(a: Seq<u8>, b: Seq<u8>) -> bool
    decreases a.len(),
{
    if b.len() == 0 {
        false
    } else if a.len() == 0 {
        true
    } else if a[0] != b[0] {
        a[0] < b[0]
    } else {
        lex_less(a.drop_first(), b.drop_first())
    }
}

/// Of two different byte strings, just one comes before the other.
pub proof fn lemma_lex_total(a: Seq<u8>, b: Seq<u8>)
    ensures
        a == b ==> !lex_less(a, b),
        a != b ==> lex_less(a, b) != lex_less(b, a),
    decreases a.len(),
{
    if a.len() > 0 && b.len() > 0 {
        if a[0] == b[0] {
            lemma_lex_total(a.drop_first(), b.drop_first());
            if a.drop_first() == b.drop_first() {
                assert(a =~= seq![a[0]] + a.drop_first());
                assert(b =~= seq![b[0]] + b.drop_first());
            }
        }
    } else if a.len() == b.len() {
        assert(a =~= b);
    }
}

pub(crate) fn bytes_less(a: &[u8], b: &[u8]) -> (r: bool)
    ensures
        r == lex_less(a@, b@),
{
    let mut i: usize = 0;
    proof {
        assert(a@.skip(0) =~= a@);
        assert(b@.skip(0) =~= b@);
    }
    while i < a.len() && i < b.len()
        invariant
            i <= a@.len(),
            i <= b@.len(),
            lex_less(a@, b@) == lex_less(a@.skip(i as int), b@.skip(i as int)),
        decreases a@.len() - i,
    {
        let ghost x = a@.skip(i as int);
        let ghost y = b@.skip(i as int);
        assert(x[0] == a@[i as int] && y[0] == b@[i as int]);
        if a[i] != b[i] {
            return a[i] < b[i];
        }
        proof {
            assert(x.drop_first() =~= a@.skip(i + 1));
            assert(y.drop_first() =~= b@.skip(i + 1));
        }
        i = i + 1;
    }
    i < b.len()
}

/// What a peer's announcement says, and what follows from it.
#[derive(Debug)]
pub struct SpakeRole {
    pub effective_my_point: Vec<u8>,
    pub effective_peer_point: Vec<u8>,
    pub peer_fingerprint: Vec<u8>,
    pub is_server: bool,
}

/// A [`SpakeRole`] by its contents.
#[verifier::ext_equal]
pub struct SpakeRoleView {
    pub my_point: Seq<u8>,
    pub peer_point: Seq<u8>,
    pub peer_fingerprint: Seq<u8>,
    pub is_server: bool,
}

impl View for SpakeRole {
    type V = SpakeRoleView;

    open spec fn view(&self) -> SpakeRoleView {
        SpakeRoleView {
            my_point: self.effective_my_point@,
            peer_point: self.effective_peer_point@,
            peer_fingerprint: self.peer_fingerprint@,
            is_server: self.is_server,
        }
    }
}

/// What a peer announces: its two points and its certificate fingerprint.
pub open spec fn announcement(point_m: Seq<u8>, point_n: Seq<u8>, fingerprint: Seq<u8>) -> Seq<u8> {
    point_m + point_n + fingerprint
}

/// The role that a peer's announcement `p` leads to. The server goes by its
/// own point N and the peer's point M, the client by its own point M and the
/// peer's point N.
pub open spec fn role_of(p: Seq<u8>, my_m: Seq<u8>, my_n: Seq<u8>) -> SpakeRoleView {
    let peer_m = p.subrange(0, 65);
    let peer_n = p.subrange(65, 130);
    let is_server = lex_less(peer_m, my_m);
    SpakeRoleView {
        my_point: if is_server {
            my_n
        } else {
            my_m
        },
        peer_point: if is_server {
            peer_m
        } else {
            peer_n
        },
        peer_fingerprint: p.subrange(130, 162),
        is_server,
    }
}

/// A peer's announcement in hex, read.
pub open spec fn spec_parse_spake(body: Seq<char>, my_m: Seq<u8>, my_n: Seq<u8>) -> Result<
    SpakeRoleView,
    ExchangeErrorView,
> {
    match crate::hex::spec_hex_decode(vstd::utf8::encode_utf8(body)) {
        None => Err(ExchangeErrorView::Hex("invalid hex string"@)),
        Some(p) => if p.len() < SPAKE2_PAYLOAD_LEN {
            Err(ExchangeErrorView::Wire("spake2 payload too short"@))
        } else if p.subrange(0, 65) == my_m {
            Err(ExchangeErrorView::Wire("spake2: peer sent reflected point"@))
        } else {
            Ok(role_of(p, my_m, my_n))
        },
    }
}

/// A copy of a byte string.
pub fn copy_bytes(b: &[u8]) -> (v: Vec<u8>)
    ensures
        v@ == b@,
{
    vstd::slice::slice_to_vec(b)
}

pub fn parse_spake(body: &str, my_point_m: &[u8], my_point_n: &[u8]) -> (r: Result<
    SpakeRole,
    ExchangeError,
>)
    ensures
        match r {
            Ok(role) => spec_parse_spake(body@, my_point_m@, my_point_n@) == Ok::<
                SpakeRoleView,
                ExchangeErrorView,
            >(role@),
            Err(e) => spec_parse_spake(body@, my_point_m@, my_point_n@) == Err::<
                SpakeRoleView,
                ExchangeErrorView,
            >(e@),
        },
{
    let p: Vec<u8> = match hex_decode(body) {
        Some(p) => p,
        None => {
            return Err(ExchangeError::Hex("invalid hex string".to_owned()));
        },
    };
    if p.len() < SPAKE2_PAYLOAD_LEN {
        return Err(ExchangeError::Wire("spake2 payload too short".to_owned()));
    }
    let peer_m = slice_subrange(p.as_slice(), 0, POINT_LEN);
    let peer_n = slice_subrange(p.as_slice(), POINT_LEN, POINT_LEN * 2);
    let fp = slice_subrange(p.as_slice(), POINT_LEN * 2, SPAKE2_PAYLOAD_LEN);
    if same_bytes(my_point_m, peer_m) {
        return Err(ExchangeError::Wire("spake2: peer sent reflected point".to_owned()));
    }
    let is_server = bytes_less(peer_m, my_point_m);
    let role = if is_server {
        SpakeRole {
            effective_my_point: copy_bytes(my_point_n),
            effective_peer_point: copy_bytes(peer_m),
            peer_fingerprint: copy_bytes(fp),
            is_server,
        }
    } else {
        SpakeRole {
            effective_my_point: copy_bytes(my_point_m),
            effective_peer_point: copy_bytes(peer_n),
            peer_fingerprint: copy_bytes(fp),
            is_server,
        }
    };
    assert(role@ =~= role_of(p@, my_point_m@, my_point_n@));
    Ok(role)
}

/// Two peers that read each other's announcements take different roles and
/// agree on the two points that count: neither is turned away, one is the
/// server and the other the client, and each has the other's point for its
/// own peer's.
pub proof fn law_roles_agree(
    m1: Seq<u8>,
    n1: Seq<u8>,
    f1: Seq<u8>,
    m2: Seq<u8>,
    n2: Seq<u8>,
    f2: Seq<u8>,
)
    requires
        m1.len() == POINT_LEN,
        n1.len() == POINT_LEN,
        f1.len() == FINGERPRINT_SIZE,
        m2.len() == POINT_LEN,
        n2.len() == POINT_LEN,
        f2.len() == FINGERPRINT_SIZE,
        m1 != m2,
    ensures
        ({
            let r1 = spec_parse_spake(
                crate::hex::spec_to_hex(announcement(m2, n2, f2)),
                m1,
                n1,
            );
            let r2 = spec_parse_spake(
                crate::hex::spec_to_hex(announcement(m1, n1, f1)),
                m2,
                n2,
            );
            &&& r1 is Ok && r2 is Ok
            &&& r1->Ok_0.is_server != r2->Ok_0.is_server
            &&& r1->Ok_0.my_point == r2->Ok_0.peer_point
            &&& r1->Ok_0.peer_point == r2->Ok_0.my_point
            &&& r1->Ok_0.peer_fingerprint == f2
            &&& r2->Ok_0.peer_fingerprint == f1
        }),
{
    let p1 = announcement(m1, n1, f1);
    let p2 = announcement(m2, n2, f2);
    crate::hex::law_hex_round_trip(p1);
    crate::hex::law_hex_round_trip(p2);
    lemma_lex_total(m1, m2);
    assert(p1.subrange(0, 65) =~= m1);
    assert(p1.subrange(65, 130) =~= n1);
    assert(p1.subrange(130, 162) =~= f1);
    assert(p2.subrange(0, 65) =~= m2);
    assert(p2.subrange(65, 130) =~= n2);
    assert(p2.subrange(130, 162) =~= f2);
}

/// A peer that is sent its own point back turns the sender away.
pub proof fn law_reflection_refused(m: Seq<u8>, n: Seq<u8>, n2: Seq<u8>, f2: Seq<u8>)
    requires
        m.len() == POINT_LEN,
        n2.len() == POINT_LEN,
        f2.len() == FINGERPRINT_SIZE,
    ensures
        spec_parse_spake(crate::hex::spec_to_hex(announcement(m, n2, f2)), m, n) is Err,
{
    let p = announcement(m, n2, f2);
    crate::hex::law_hex_round_trip(p);
    assert(p.subrange(0, 65) =~= m);
}

/// How the key agreement failed.
#[derive(Debug)]
pub enum KeyError {
    /// The shared secret could not be computed.
    Shared(String),
    /// The session keys could not be derived.
    Derive(String),
}

/// The keys of a session between two peers.
#[derive(Clone, Copy, Debug)]
pub struct SessionKeys {
    pub confirm_key: [u8; 32],
    pub enc_key: [u8; 32],
}

/// A peer's announcement with the session keys that belong to it.
#[derive(Debug)]
pub struct ProcessedSpake {
    pub effective_my_point: Vec<u8>,
    pub effective_peer_point: Vec<u8>,
    pub peer_fingerprint: Vec<u8>,
    pub is_server: bool,
    pub confirm_key: [u8; 32],
    pub enc_key: [u8; 32],
}

impl ProcessedSpake {
    /// The role in it.
    pub open spec fn role(&self) -> SpakeRoleView {
        SpakeRoleView {
            my_point: self.effective_my_point@,
            peer_point: self.effective_peer_point@,
            peer_fingerprint: self.peer_fingerprint@,
            is_server: self.is_server,
        }
    }
}

/// A peer's announcement, with the result of the key agreement that its points
/// call for.
pub fn process_spake_msg(
    body: &str,
    my_point_m: &[u8],
    my_point_n: &[u8],
    keys: Result<SessionKeys, KeyError>,
) -> (r: Result<ProcessedSpake, ExchangeError>)
    ensures
        match spec_parse_spake(body@, my_point_m@, my_point_n@) {
            Err(e) => r is Err && r->Err_0@ == e,
            Ok(role) => match keys {
                Err(KeyError::Shared(m)) => r is Err && r->Err_0@
                    == ExchangeErrorView::Spake2State(m@),
                Err(KeyError::Derive(m)) => r is Err && r->Err_0@ == ExchangeErrorView::DeriveKey(
                    m@,
                ),
                Ok(k) => r is Ok && r->Ok_0.role() == role && r->Ok_0.confirm_key == k.confirm_key
                    && r->Ok_0.enc_key == k.enc_key,
            },
        },
{
    match parse_spake(body, my_point_m, my_point_n) {
        Err(e) => Err(e),
        Ok(role) => match keys {
            Err(KeyError::Shared(m)) => Err(ExchangeError::Spake2State(m)),
            Err(KeyError::Derive(m)) => Err(ExchangeError::DeriveKey(m)),
            Ok(k) => Ok(
                ProcessedSpake {
                    effective_my_point: role.effective_my_point,
                    effective_peer_point: role.effective_peer_point,
                    peer_fingerprint: role.peer_fingerprint,
                    is_server: role.is_server,
                    confirm_key: k.confirm_key,
                    enc_key: k.enc_key,
                },
            ),
        },
    }
}

/// What the HMAC in a confirmation is computed from.
#[derive(Debug)]
pub struct ConfirmInputs {
    pub confirm_key: [u8; 32],
    pub my_point: Vec<u8>,
    pub peer_point: Vec<u8>,
    pub nonce: Vec<u8>,
    /// The fingerprint of the certificate of the peer that is to check it.
    pub fingerprint: Vec<u8>,
}

/// [`ConfirmInputs`] by their contents.
#[verifier::ext_equal]
pub struct ConfirmInputsView {
    pub confirm_key: [u8; 32],
    pub my_point: Seq<u8>,
    pub peer_point: Seq<u8>,
    pub nonce: Seq<u8>,
    pub fingerprint: Seq<u8>,
}

impl View for ConfirmInputs {
    type V = ConfirmInputsView;

    open spec fn view(&self) -> ConfirmInputsView {
        ConfirmInputsView {
            confirm_key: self.confirm_key,
            my_point: self.my_point@,
            peer_point: self.peer_point@,
            nonce: self.nonce@,
            fingerprint: self.fingerprint@,
        }
    }
}

/// What the HMAC is computed from where the fingerprint is `fingerprint`.
pub open spec fn confirm_inputs(
    confirm_key: [u8; 32],
    role: SpakeRoleView,
    nonce: Seq<u8>,
    fingerprint: Seq<u8>,
) -> ConfirmInputsView {
    ConfirmInputsView {
        confirm_key,
        my_point: role.my_point,
        peer_point: role.peer_point,
        nonce,
        fingerprint,
    }
}

/// What the HMAC of one's own confirmation is computed from: the fingerprint in
/// it is the one that the peer announced.
pub fn confirm_to_send(p: &ProcessedSpake, nonce: &[u8]) -> (c: ConfirmInputs)
    ensures
        c@ == confirm_inputs(p.confirm_key, p.role(), nonce@, p.role().peer_fingerprint),
{
    ConfirmInputs {
        confirm_key: p.confirm_key,
        my_point: copy_bytes(p.effective_my_point.as_slice()),
        peer_point: copy_bytes(p.effective_peer_point.as_slice()),
        nonce: copy_bytes(nonce),
        fingerprint: copy_bytes(p.peer_fingerprint.as_slice()),
    }
}

/// What the HMAC of the peer's confirmation must have been computed from: the
/// fingerprint in it is one's own.
pub fn confirm_to_check(p: &ProcessedSpake, nonce: &[u8], my_fingerprint: &[u8]) -> (c:
    ConfirmInputs)
    ensures
        c@ == confirm_inputs(p.confirm_key, p.role(), nonce@, my_fingerprint@),
{
    ConfirmInputs {
        confirm_key: p.confirm_key,
        my_point: copy_bytes(p.effective_my_point.as_slice()),
        peer_point: copy_bytes(p.effective_peer_point.as_slice()),
        nonce: copy_bytes(nonce),
        fingerprint: copy_bytes(my_fingerprint),
    }
}

/// A confirmation covers the certificate of the peer that checks it. The first
/// peer was announced the second one's points with the fingerprint `seen`; the
/// second has the fingerprint `f2`. What the first computes its confirmation
/// from is what the second checks it by, with the two points the other way
/// round, except for the fingerprint: that is the same just when `seen` is
/// `f2`.
pub proof fn law_confirm_covers_fingerprint(
    m1: Seq<u8>,
    n1: Seq<u8>,
    f1: Seq<u8>,
    m2: Seq<u8>,
    n2: Seq<u8>,
    f2: Seq<u8>,
    seen: Seq<u8>,
    key: [u8; 32],
    nonce: Seq<u8>,
)
    requires
        m1.len() == POINT_LEN,
        n1.len() == POINT_LEN,
        f1.len() == FINGERPRINT_SIZE,
        m2.len() == POINT_LEN,
        n2.len() == POINT_LEN,
        seen.len() == FINGERPRINT_SIZE,
        m1 != m2,
    ensures
        ({
            let r1 = spec_parse_spake(
                crate::hex::spec_to_hex(announcement(m2, n2, seen)),
                m1,
                n1,
            );
            let r2 = spec_parse_spake(
                crate::hex::spec_to_hex(announcement(m1, n1, f1)),
                m2,
                n2,
            );
            let sent = confirm_inputs(key, r1->Ok_0, nonce, r1->Ok_0.peer_fingerprint);
            let checked = confirm_inputs(key, r2->Ok_0, nonce, f2);
            &&& r1 is Ok && r2 is Ok
            &&& sent.my_point == checked.peer_point
            &&& sent.peer_point == checked.my_point
            &&& sent.fingerprint == checked.fingerprint <==> seen == f2
        }),
{
    law_roles_agree(m1, n1, f1, m2, n2, seen);
}

/// An address, filled up with zero bytes to the fixed length that is
/// encrypted.
pub open spec fn padded(addr: Seq<u8>) -> Seq<u8> {
    addr + Seq::new((MAX_METADATA_SIZE - addr.len()) as nat, |i: int| 0u8)
}

/// The plain text of an address; fails if the address is too long.
pub fn pad_address(my_addr: &str) -> (r: Result<Vec<u8>, ExchangeError>)
    ensures
        ({
            let a = vstd::utf8::encode_utf8(my_addr@);
            match r {
                Ok(v) => a.len() <= MAX_METADATA_SIZE && v@ == padded(a),
                Err(e) => a.len() > MAX_METADATA_SIZE && e@ == ExchangeErrorView::AddressTooLong(
                    a.len(),
                    MAX_METADATA_SIZE as nat,
                ),
            }
        }),
{
    let b = my_addr.as_bytes();
    if b.len() > MAX_METADATA_SIZE {
        return Err(ExchangeError::AddressTooLong(b.len(), MAX_METADATA_SIZE));
    }
    let mut v = copy_bytes(b);
    while v.len() < MAX_METADATA_SIZE
        invariant
            b@.len() <= v@.len() <= MAX_METADATA_SIZE,
            v@ == b@ + Seq::new((v@.len() - b@.len()) as nat, |i: int| 0u8),
        decreases MAX_METADATA_SIZE - v@.len(),
    {
        let ghost n = v@.len();
        v.push(0);
        assert(v@ =~= b@ + Seq::new((n + 1 - b@.len()) as nat, |i: int| 0u8));
    }
    Ok(v)
}

/// The address in a plain text: up to the first zero byte, each byte a
/// character.
pub open spec fn spec_address_of(plain: Seq<u8>) -> Seq<char> {
    crate::packet::ascii_chars(plain.take(crate::seqs::first_index(plain, 0u8)))
}

pub fn address_of(plain: &[u8]) -> (s: String)
    ensures
        s@ == spec_address_of(plain@),
{
    let n = crate::seqs::find_byte(plain, 0);
    let mut s = String::new();
    let mut i: usize = 0;
    while i < n
        invariant
            i <= n <= plain@.len(),
            s@ == crate::packet::ascii_chars(plain@.take(i as int)),
        decreases n - i,
    {
        s.push(plain[i] as char);
        assert(s@ =~= crate::packet::ascii_chars(plain@.take(i + 1)));
        i = i + 1;
    }
    s
}

/// An ASCII address without zero bytes comes out of its plain text as it went
/// in.
pub proof fn law_address_round_trip(addr: Seq<char>)
    requires
        addr.len() <= MAX_METADATA_SIZE,
        forall|i: int| 0 <= i < addr.len() ==> 0 < #[trigger] (addr[i] as int) < 128,
    ensures
        vstd::utf8::encode_utf8(addr).len() <= MAX_METADATA_SIZE,
        spec_address_of(padded(vstd::utf8::encode_utf8(addr))) == addr,
{
    assert(vstd::utf8::is_ascii_chars(addr)) by {
        assert forall|i: int| 0 <= i < addr.len() implies '\0' <= #[trigger] addr[i] <= '\u{7f}' by {
            assert(0 < (addr[i] as int) < 128);
        }
    }
    vstd::utf8::is_ascii_chars_encode_utf8(addr);
    let b = vstd::utf8::encode_utf8(addr);
    let p = padded(b);
    assert forall|i: int| 0 <= i < b.len() implies p[i] != 0 && p[i] as char == addr[i] by {
        assert(0 < (addr[i] as int) < 128);
        assert(addr[i] as u8 == b[i]);
    }
    crate::seqs::lemma_first_index(p, 0u8, b.len() as int);
    assert(spec_address_of(p) =~= addr);
}

/// A confirmation without its padding.
pub open spec fn confirm_core(nonce: Seq<u8>, confirm: Seq<u8>, enc_addr: Seq<u8>) -> Seq<u8> {
    nonce + confirm + enc_addr
}

/// A confirmation: its parts, and padding up to the full size.
pub open spec fn is_confirm_payload(
    payload: Seq<u8>,
    nonce: Seq<u8>,
    confirm: Seq<u8>,
    enc_addr: Seq<u8>,
) -> bool {
    let core = confirm_core(nonce, confirm, enc_addr);
    &&& crate::seqs::begins_with(payload, core)
    &&& payload.len() == (if core.len() < CONFIRM_PAYLOAD_SIZE {
        CONFIRM_PAYLOAD_SIZE as nat
    } else {
        core.len()
    })
}

/// A fresh nonce for a confirmation.
pub fn confirm_nonce() -> (n: Vec<u8>)
    ensures
        n@.len() == CONFIRM_NONCE_SIZE,
{
    random_bytes(CONFIRM_NONCE_SIZE)
}

/// Puts a confirmation together: the nonce, the HMAC over it (`confirm`), the
/// encrypted [plain text](pad_address) of the address `my_addr`, and random
/// padding up to the full size.
pub fn build_confirm_payload(
    nonce: &[u8],
    confirm: Result<Vec<u8>, String>,
    my_addr: &str,
    enc_addr: Result<Vec<u8>, String>,
) -> (r: Result<Vec<u8>, ExchangeError>)
    ensures
        ({
            let n = vstd::utf8::encode_utf8(my_addr@).len();
            match confirm {
                Err(m) => r is Err && r->Err_0@ == ExchangeErrorView::ComputeConfirm(m@),
                Ok(c) => if n > MAX_METADATA_SIZE {
                    r is Err && r->Err_0@ == ExchangeErrorView::AddressTooLong(
                        n,
                        MAX_METADATA_SIZE as nat,
                    )
                } else {
                    match enc_addr {
                        Err(m) => r is Err && r->Err_0@ == ExchangeErrorView::EncryptAddr(m@),
                        Ok(e) => r is Ok && is_confirm_payload(r->Ok_0@, nonce@, c@, e@),
                    }
                },
            }
        }),
{
    let c = match confirm {
        Ok(c) => c,
        Err(m) => {
            return Err(ExchangeError::ComputeConfirm(m));
        },
    };
    let n = my_addr.as_bytes().len();
    if n > MAX_METADATA_SIZE {
        return Err(ExchangeError::AddressTooLong(n, MAX_METADATA_SIZE));
    }
    let e = match enc_addr {
        Ok(e) => e,
        Err(m) => {
            return Err(ExchangeError::EncryptAddr(m));
        },
    };
    let mut cp = copy_bytes(nonce);
    let mut c2 = c;
    let mut e2 = e;
    let ghost core = confirm_core(nonce@, c2@, e2@);
    cp.append(&mut c2);
    cp.append(&mut e2);
    assert(cp@ =~= core);
    if cp.len() < CONFIRM_PAYLOAD_SIZE {
        let mut pad = random_bytes(CONFIRM_PAYLOAD_SIZE - cp.len());
        cp.append(&mut pad);
    }
    assert(cp@.take(core.len() as int) =~= core);
    Ok(cp)
}

/// The parts of a confirmation that are checked.
#[derive(Debug)]
pub struct ConfirmParts {
    pub nonce: Vec<u8>,
    pub confirm: Vec<u8>,
    pub enc_addr: Vec<u8>,
}

/// [`ConfirmParts`] by their contents.
#[verifier::ext_equal]
pub struct ConfirmPartsView {
    pub nonce: Seq<u8>,
    pub confirm: Seq<u8>,
    pub enc_addr: Seq<u8>,
}

impl View for ConfirmParts {
    type V = ConfirmPartsView;

    open spec fn view(&self) -> ConfirmPartsView {
        ConfirmPartsView {
            nonce: self.nonce@,
            confirm: self.confirm@,
            enc_addr: self.enc_addr@,
        }
    }
}

/// A confirmation in hex, taken apart.
pub open spec fn spec_open_confirm(body: Seq<char>) -> Result<
    ConfirmPartsView,
    ExchangeErrorView,
> {
    match crate::hex::spec_hex_decode(vstd::utf8::encode_utf8(body)) {
        None => Err(ExchangeErrorView::Hex("invalid hex string"@)),
        Some(p) => if p.len() < CONFIRM_PAYLOAD_SIZE {
            Err(ExchangeErrorView::ConfirmPayloadTooShort)
        } else {
            Ok(
                ConfirmPartsView {
                    nonce: p.subrange(0, 16),
                    confirm: p.subrange(16, 48),
                    enc_addr: p.subrange(48, 128),
                },
            )
        },
    }
}

pub fn open_confirm(hex_body: &str) -> (r: Result<ConfirmParts, ExchangeError>)
    ensures
        match spec_open_confirm(hex_body@) {
            Ok(p) => r is Ok && r->Ok_0@ == p,
            Err(e) => r is Err && r->Err_0@ == e,
        },
{
    let p: Vec<u8> = match hex_decode(hex_body) {
        Some(p) => p,
        None => {
            return Err(ExchangeError::Hex("invalid hex string".to_owned()));
        },
    };
    if p.len() < CONFIRM_PAYLOAD_SIZE {
        return Err(ExchangeError::ConfirmPayloadTooShort);
    }
    Ok(
        ConfirmParts {
            nonce: copy_bytes(slice_subrange(p.as_slice(), 0, CONFIRM_NONCE_SIZE)),
            confirm: copy_bytes(
                slice_subrange(
                    p.as_slice(),
                    CONFIRM_NONCE_SIZE,
                    CONFIRM_NONCE_SIZE + CONFIRM_HMAC_SIZE,
                ),
            ),
            enc_addr: copy_bytes(
                slice_subrange(
                    p.as_slice(),
                    CONFIRM_NONCE_SIZE + CONFIRM_HMAC_SIZE,
                    CONFIRM_PAYLOAD_SIZE - CONFIRM_RAND_PAD,
                ),
            ),
        },
    )
}

/// A confirmation has the full size, and comes apart into what it was put together
/// from, whatever its padding.
pub proof fn law_confirm_round_trip(
    nonce: Seq<u8>,
    confirm: Seq<u8>,
    enc_addr: Seq<u8>,
    payload: Seq<u8>,
)
    requires
        nonce.len() == CONFIRM_NONCE_SIZE,
        confirm.len() == CONFIRM_HMAC_SIZE,
        enc_addr.len() == ENCRYPTED_ADDR_SIZE,
        is_confirm_payload(payload, nonce, confirm, enc_addr),
    ensures
        payload.len() == CONFIRM_PAYLOAD_SIZE,
        spec_open_confirm(crate::hex::spec_to_hex(payload)) == Ok::<
            ConfirmPartsView,
            ExchangeErrorView,
        >(ConfirmPartsView { nonce, confirm, enc_addr }),
{
    crate::hex::law_hex_round_trip(payload);
    let core = confirm_core(nonce, confirm, enc_addr);
    let head = payload.take(core.len() as int);
    assert(head == core);
    assert(payload.subrange(0, 16) =~= head.subrange(0, 16));
    assert(payload.subrange(16, 48) =~= head.subrange(16, 48));
    assert(payload.subrange(48, 128) =~= head.subrange(48, 128));
    assert(core.subrange(0, 16) =~= nonce);
    assert(core.subrange(16, 48) =~= confirm);
    assert(core.subrange(48, 128) =~= enc_addr);
}

/// What checking a confirmation came to: whether its HMAC is right, and the
/// decrypted address.
#[derive(Debug)]
pub struct CheckedConfirm {
    pub verified: bool,
    pub plain: Result<Vec<u8>, String>,
}

/// The address that a confirmation gives, from what checking it came to.
pub open spec fn spec_process_confirm(body: Seq<char>, c: CheckedConfirm) -> Result<
    Seq<char>,
    ExchangeErrorView,
> {
    match spec_open_confirm(body) {
        Err(e) => Err(e),
        Ok(_) => if !c.verified {
            Err(ExchangeErrorView::ConfirmMismatch)
        } else {
            match c.plain {
                Err(m) => Err(ExchangeErrorView::DecryptAddr(m@)),
                Ok(v) => Ok(spec_address_of(v@)),
            }
        },
    }
}

pub fn process_confirm_msg(hex_body: &str, checked: &CheckedConfirm) -> (r: Result<
    String,
    ExchangeError,
>)
    ensures
        match spec_process_confirm(hex_body@, *checked) {
            Ok(a) => r is Ok && r->Ok_0@ == a,
            Err(e) => r is Err && r->Err_0@ == e,
        },
{
    match open_confirm(hex_body) {
        Err(e) => Err(e),
        Ok(_) => {
            if !checked.verified {
                return Err(ExchangeError::ConfirmMismatch);
            }
            match &checked.plain {
                Err(m) => Err(ExchangeError::DecryptAddr(m.clone())),
                Ok(v) => Ok(address_of(v.as_slice())),
            }
        },
    }
}

/// `checked` is what checking the confirmation `body` comes to, where
/// `verifies` says whether an HMAC is right for a nonce, and `decrypted` is what
/// decrypting a byte string gives.
pub open spec fn is_check_of(
    checked: CheckedConfirm,
    body: Seq<char>,
    verifies: spec_fn(Seq<u8>, Seq<u8>) -> bool,
    decrypted: spec_fn(Seq<u8>) -> Option<Seq<u8>>,
) -> bool {
    match spec_open_confirm(body) {
        Err(_) => true,
        Ok(p) => {
            &&& checked.verified == verifies(p.nonce, p.confirm)
            &&& checked.verified ==> match decrypted(p.enc_addr) {
                Some(v) => checked.plain is Ok && checked.plain->Ok_0@ == v,
                None => checked.plain is Err,
            }
        },
    }
}

/// The address that one peer puts into its confirmation is the one that the
/// other reads from it, for any encryption that can be undone and any HMAC that
/// is found to be right: the padding is stripped, and the address comes back
/// exactly.
pub proof fn law_confirmed_address(
    addr: Seq<char>,
    nonce: Seq<u8>,
    confirm: Seq<u8>,
    enc_addr: Seq<u8>,
    payload: Seq<u8>,
    verifies: spec_fn(Seq<u8>, Seq<u8>) -> bool,
    decrypted: spec_fn(Seq<u8>) -> Option<Seq<u8>>,
    checked: CheckedConfirm,
)
    requires
        addr.len() <= MAX_METADATA_SIZE,
        forall|i: int| 0 <= i < addr.len() ==> 0 < #[trigger] (addr[i] as int) < 128,
        nonce.len() == CONFIRM_NONCE_SIZE,
        confirm.len() == CONFIRM_HMAC_SIZE,
        enc_addr.len() == ENCRYPTED_ADDR_SIZE,
        is_confirm_payload(payload, nonce, confirm, enc_addr),
        verifies(nonce, confirm),
        decrypted(enc_addr) == Some(padded(vstd::utf8::encode_utf8(addr))),
        is_check_of(checked, crate::hex::spec_to_hex(payload), verifies, decrypted),
    ensures
        payload.len() == CONFIRM_PAYLOAD_SIZE,
        spec_process_confirm(crate::hex::spec_to_hex(payload), checked) == Ok::<
            Seq<char>,
            ExchangeErrorView,
        >(addr),
{
    law_confirm_round_trip(nonce, confirm, enc_addr, payload);
    law_address_round_trip(addr);
}

/// A confirmation that is not hex, is too short, or has an HMAC that is not
/// right gives no address, whatever else checking it came to.
pub proof fn law_bad_confirm_refused(body: Seq<char>, checked: CheckedConfirm)
    ensures
        ({
            let bytes = crate::hex::spec_hex_decode(vstd::utf8::encode_utf8(body));
            let r = spec_process_confirm(body, checked);
            &&& bytes is None ==> r == Err::<Seq<char>, ExchangeErrorView>(
                ExchangeErrorView::Hex("invalid hex string"@),
            )
            &&& bytes is Some && bytes->0.len() < CONFIRM_PAYLOAD_SIZE ==> r == Err::<
                Seq<char>,
                ExchangeErrorView,
            >(ExchangeErrorView::ConfirmPayloadTooShort)
            &&& bytes is Some && bytes->0.len() >= CONFIRM_PAYLOAD_SIZE && !checked.verified
                ==> r == Err::<Seq<char>, ExchangeErrorView>(ExchangeErrorView::ConfirmMismatch)
        }),
{
}

/// The address to tell the peer: the local one, whose text is `text`, or
/// `localhost` with its port where it names no interface.
pub fn detect_outbound_addr(local: SocketAddr, text: &str) -> (s: String)
    ensures
        s@ == (if local.ip == crate::net::IpAddr::V4(0) || local.ip == crate::net::IpAddr::V6(0) {
            "localhost:"@ + crate::number::spec_decimal(local.port as nat)
        } else {
            text@
        }),
{
    if local.ip.is_unspecified() {
        join2("localhost:", crate::number::decimal(local.port as u64).as_str())
    } else {
        text.to_owned()
    }
}

} // verus!
