//! Self-signed certificates and their fingerprints.
use rcgen::Error::Time;
use rcgen::DnType::{CommonName, OrganizationName};
use rcgen::ExtendedKeyUsagePurpose::Other;
use rcgen::KeyUsagePurpose::DigitalSignature;
use rcgen::{CertificateParams, DistinguishedName, IsCa, KeyPair, SerialNumber};
use sha2::{Digest, Sha256};
use time::OffsetDateTime;
use vstd::prelude::*;

use crate::random::random_bytes;
use crate::text::join2;

verus! {

/// Common name of the certificates in use.
pub const CERT_COMMON_NAME: &'static str = "qvole";

/// Organization of every certificate.
pub const CERT_ORGANIZATION: &'static str = "qvole";

/// How long a certificate is valid, in seconds: 365 days.
pub const VALID_SECONDS: i64 = 31_536_000;

/// The first second of the year 0, in seconds of Unix time: no certificate can
/// begin earlier.
pub const FIRST_SECOND: i64 = -62_167_219_200;

/// The last second of the year 9999, in seconds of Unix time: no certificate
/// can end later.
pub const LAST_SECOND: i64 = 253_402_300_799;

/// Length of a serial number.
pub const SERIAL_LEN: usize = 16;

/// `Error` of rcgen: why a key or a certificate could not be made.
#[verifier::external_type_specification]
#[verifier::external_body]
pub struct ExRcgenError(rcgen::Error);

/// The SHA-256 hash of a byte string.
pub uninterp spec fn sha256_of(data: Seq<u8>) -> Seq<u8>;

/// `Sha256::digest` computes the SHA-256 hash, 32 bytes, of its argument.
#[verifier::external_body]
pub(crate) fn sha256(data: &[u8]) -> (h: [u8; 32])
    ensures
        h@ == sha256_of(data@),
{
    Sha256::digest(data).into()
}

/// What the key of a certificate may be used for.
#[derive(Clone, Copy, Debug, PartialEq, Eq, Structural)]
pub enum KeyUsage {
    DigitalSignature,
}

/// Whether a certificate may sign others.
#[derive(Clone, Copy, Debug, PartialEq, Eq, Structural)]
pub enum Authority {
    EndEntity,
}

/// The contents of a certificate to be made.
#[derive(Debug)]
pub struct CertPlan {
    pub organization: &'static str,
    pub common_name: String,
    pub serial: Vec<u8>,
    /// When the certificate begins to be valid, in seconds of Unix time.
    pub not_before: i64,
    /// When it ceases to be valid.
    pub not_after: i64,
    pub authority: Authority,
    pub key_usage: KeyUsage,
    /// The object identifiers of what the certificate may be presented as.
    pub extended_usages: Vec<Vec<u64>>,
}

/// A [`CertPlan`] by its contents.
pub struct PlanView {
    pub organization: Seq<char>,
    pub common_name: Seq<char>,
    pub serial: Seq<u8>,
    pub not_before: i64,
    pub not_after: i64,
    pub authority: Authority,
    pub key_usage: KeyUsage,
    pub extended_usages: Seq<Seq<u64>>,
}

impl View for CertPlan {
    type V = PlanView;

    open spec fn view(&self) -> PlanView {
        PlanView {
            organization: self.organization@,
            common_name: self.common_name@,
            serial: self.serial@,
            not_before: self.not_before,
            not_after: self.not_after,
            authority: self.authority,
            key_usage: self.key_usage,
            extended_usages: Seq::new(
                self.extended_usages@.len(),
                |i: int| self.extended_usages@[i]@,
            ),
        }
    }
}

/// The object identifier of authentication as a TLS server.
pub open spec fn server_auth() -> Seq<u64> {
    seq![1, 3, 6, 1, 5, 5, 7, 3, 1]
}

/// The object identifier of authentication as a TLS client.
pub open spec fn client_auth() -> Seq<u64> {
    seq![1, 3, 6, 1, 5, 5, 7, 3, 2]
}

/// The first byte of a serial number, without the bit that would make the
/// number negative.
pub open spec fn positive_first(b: u8) -> u8 {
    b & 0x7f
}

/// An object identifier that can be encoded.
pub open spec fn valid_oid(o: Seq<u64>) -> bool {
    &&& o.len() >= 2
    &&& o[0] < 3
    &&& o[1] < 18_446_744_073_709_551_535
    &&& o[0] >= 2 || o[1] < 40
}

impl CertPlan {
    /// The contents can be encoded: the object identifiers are valid, and both
    /// instants are in a year of four digits.
    pub open spec fn wf(&self) -> bool {
        &&& FIRST_SECOND <= self.not_before <= LAST_SECOND
        &&& FIRST_SECOND <= self.not_after <= LAST_SECOND
        &&& forall|i: int|
            0 <= i < self.extended_usages@.len() ==> valid_oid(
                #[trigger] self.extended_usages@[i]@,
            )
    }
}

/// The instant nearest to `t` that a certificate can hold.
pub open spec fn nearest_instant(t: int) -> int {
    if t < FIRST_SECOND {
        FIRST_SECOND as int
    } else if t > LAST_SECOND {
        LAST_SECOND as int
    } else {
        t
    }
}

/// When a certificate that is made at `now` begins and ceases to be valid.
pub fn validity(now: i64) -> (r: (i64, i64))
    ensures
        r.0 == nearest_instant(now as int),
        r.1 == nearest_instant(r.0 + VALID_SECONDS),
{
    let start: i64 = if now < FIRST_SECOND {
        FIRST_SECOND
    } else if now > LAST_SECOND {
        LAST_SECOND
    } else {
        now
    };
    let end: i64 = if start > LAST_SECOND - VALID_SECONDS {
        LAST_SECOND
    } else {
        start + VALID_SECONDS
    };
    (start, end)
}

/// A certificate made before the last year that one can hold is valid for 365
/// days from when it is made.
pub proof fn law_valid_for_a_year(now: int)
    requires
        FIRST_SECOND <= now <= LAST_SECOND - VALID_SECONDS,
    ensures
        nearest_instant(now) == now,
        nearest_instant(nearest_instant(now) + VALID_SECONDS) == now + 365 * 24 * 3600,
{
}

/// The contents of the certificate of `common_name` made at `now`, with a
/// serial number made of the random bytes `random`.
pub open spec fn spec_cert_plan(common_name: Seq<char>, random: Seq<u8>, now: i64) -> PlanView {
    PlanView {
        organization: CERT_ORGANIZATION@,
        common_name,
        serial: random.update(0, positive_first(random[0])),
        not_before: nearest_instant(now as int) as i64,
        not_after: nearest_instant(nearest_instant(now as int) + VALID_SECONDS) as i64,
        authority: Authority::EndEntity,
        key_usage: KeyUsage::DigitalSignature,
        extended_usages: seq![server_auth(), client_auth()],
    }
}

pub fn cert_plan(common_name: &str, random: Vec<u8>, now: i64) -> (p: CertPlan)
    requires
        random@.len() == SERIAL_LEN,
    ensures
        p.wf(),
        p@ == spec_cert_plan(common_name@, random@, now),
        p.serial@[0] < 0x80,
{
    let mut serial = random;
    let b: u8 = serial[0];
    assert(b & 0x7f < 0x80) by (bit_vector);
    serial.set(0, b & 0x7f);
    let server: Vec<u64> = vec![1, 3, 6, 1, 5, 5, 7, 3, 1];
    let client: Vec<u64> = vec![1, 3, 6, 1, 5, 5, 7, 3, 2];
    assert(server@ =~= server_auth());
    assert(client@ =~= client_auth());
    let extended_usages: Vec<Vec<u64>> = vec![server, client];
    let (not_before, not_after) = validity(now);
    let p = CertPlan {
        organization: CERT_ORGANIZATION,
        common_name: common_name.to_owned(),
        serial,
        not_before,
        not_after,
        authority: Authority::EndEntity,
        key_usage: KeyUsage::DigitalSignature,
        extended_usages,
    };
    assert(p@.extended_usages =~= seq![server_auth(), client_auth()]);
    p
}

/// `KeyPair::generate` makes a fresh ECDSA P-256 key pair, or says why it could
/// not; the bytes are its private key as PKCS#8. Which one comes is chance, so
/// nothing is claimed of it.
#[verifier::external_body]
fn generate_key() -> (r: Result<Vec<u8>, rcgen::Error>) {
    Ok(KeyPair::generate()?.serialize_der())
}

/// The text of an error of rcgen. An error is opaque here, so nothing is
/// claimed of the text.
#[verifier::external_body]
fn error_text(e: rcgen::Error) -> (s: String) {
    e.to_string()
}

/// The DER encoding of the certificate with the given contents and private
/// key. `chance` stands for the random part of its signature.
pub uninterp spec fn certificate_der(plan: PlanView, key: Seq<u8>, chance: Seq<u8>) -> Seq<u8>;

/// The current time in seconds of Unix time, by `OffsetDateTime::now_utc`. What
/// it is depends on the clock of the machine, so nothing is claimed of it. A
/// clock beyond the year 9999 would make it panic.
#[verifier::external_body]
fn current_second() -> (t: i64) {
    OffsetDateTime::now_utc().unix_timestamp()
}

/// `CertificateParams::self_signed` makes a certificate from the contents that
/// the fields of `CertificateParams` hold, signs it with its own key and gives
/// its DER encoding, or says why it could not. It can encode object
/// identifiers that are valid, and instants in a year of four digits. Besides
/// the contents and the key, chance has a part in the encoding; when it
/// succeeds is not said.
#[verifier::external_body]
fn self_sign(plan: &CertPlan, key: &[u8]) -> (r: Result<Vec<u8>, rcgen::Error>)
    requires
        plan.wf(),
    ensures
        r is Ok ==> exists|chance: Seq<u8>|
            r->Ok_0@ == #[trigger] certificate_der(plan@, key@, chance),
{
    let mut p = CertificateParams::default();
    p.not_before = OffsetDateTime::from_unix_timestamp(plan.not_before).or(Err(Time))?;
    p.not_after = OffsetDateTime::from_unix_timestamp(plan.not_after).or(Err(Time))?;
    p.serial_number = Some(SerialNumber::from_slice(&plan.serial));
    p.distinguished_name = DistinguishedName::new();
    p.distinguished_name.push(OrganizationName, plan.organization);
    p.distinguished_name.push(CommonName, plan.common_name.as_str());
    p.is_ca = match plan.authority { Authority::EndEntity => IsCa::ExplicitNoCa };
    p.key_usages = vec![match plan.key_usage { KeyUsage::DigitalSignature => DigitalSignature }];
    p.extended_key_usages = plan.extended_usages.iter().cloned().map(Other).collect();
    Ok(p.self_signed(&KeyPair::try_from(key)?)?.der().to_vec())
}

/// A certificate with its private key and fingerprint.
#[derive(Debug)]
pub struct SelfSignedCert {
    /// The certificate, in DER.
    pub der: Vec<u8>,
    /// The private key, as PKCS#8 in DER.
    pub key: Vec<u8>,
    /// SHA-256 hash of `der`.
    pub fingerprint: [u8; 32],
}

impl SelfSignedCert {
    /// The fingerprint is that of the certificate.
    pub open spec fn wf(&self) -> bool {
        self.fingerprint@ == sha256_of(self.der@)
    }
}

/// Why no certificate could be made.
#[derive(Debug)]
pub enum CertError {
    GenerateKey(String),
    CreateCert(String),
}

impl CertError {
    /// The text of an error.
    pub open spec fn spec_message(&self) -> Seq<char> {
        match self {
            CertError::GenerateKey(m) => "generate key: "@ + m@,
            CertError::CreateCert(m) => "create cert: "@ + m@,
        }
    }

    pub fn message(&self) -> (s: String)
        ensures
            s@ == self.spec_message(),
    {
        match self {
            CertError::GenerateKey(m) => join2("generate key: ", m.as_str()),
            CertError::CreateCert(m) => join2("create cert: ", m.as_str()),
        }
    }
}

/// The certificate with encoding `der` and private key `key`; `der` may be the
/// reason why there is none.
pub fn finish_cert(der: Result<Vec<u8>, String>, key: Vec<u8>) -> (r: Result<
    SelfSignedCert,
    CertError,
>)
    ensures
        match der {
            Ok(d) => r is Ok && r->Ok_0.der@ == d@ && r->Ok_0.key@ == key@ && r->Ok_0.wf(),
            Err(m) => r is Err && r->Err_0 is CreateCert && r->Err_0->CreateCert_0@ == m@,
        },
{
    match der {
        Ok(der) => {
            let fingerprint = sha256(der.as_slice());
            Ok(SelfSignedCert { der, key, fingerprint })
        },
        Err(m) => Err(CertError::CreateCert(m)),
    }
}

/// `c` is a certificate as planned for `common_name`, with some serial number
/// and from some instant on, made with the key that it carries, and it carries its own fingerprint.
pub open spec fn is_cert_of(c: SelfSignedCert, common_name: Seq<char>) -> bool {
    &&& c.wf()
    &&& exists|random: Seq<u8>, now: i64, chance: Seq<u8>|
        random.len() == SERIAL_LEN && c.der@ == #[trigger] certificate_der(
            spec_cert_plan(common_name, random, now),
            c.key@,
            chance,
        )
}

/// Makes a certificate for `common_name` with a fresh key. Whether that
/// succeeds, the key and the serial number are chance; it is valid from now on.
pub fn generate_self_signed_cert(common_name: &str) -> (r: Result<SelfSignedCert, CertError>)
    ensures
        r is Ok ==> is_cert_of(r->Ok_0, common_name@),
{
    let made = match generate_key() {
        Ok(k) => Ok(k),
        Err(e) => Err(error_text(e)),
    };
    let key = match check_key(made) {
        Ok(k) => k,
        Err(e) => {
            return Err(e);
        },
    };
    let random = random_bytes(SERIAL_LEN);
    let ghost bytes = random@;
    let now: i64 = current_second();
    let plan = cert_plan(common_name, random, now);
    let der = match self_sign(&plan, key.as_slice()) {
        Ok(d) => Ok(d),
        Err(e) => Err(error_text(e)),
    };
    let r = finish_cert(der, key);
    proof {
        if r is Ok {
            let chance = choose|chance: Seq<u8>|
                r->Ok_0.der@ == #[trigger] certificate_der(
                    spec_cert_plan(common_name@, bytes, now),
                    r->Ok_0.key@,
                    chance,
                );
            assert(r->Ok_0.der@ == certificate_der(
                spec_cert_plan(common_name@, bytes, now),
                r->Ok_0.key@,
                chance,
            ));
        }
    }
    r
}

/// The private key, or the failure to make one; `key` may be the reason why
/// there is none.
pub fn check_key(key: Result<Vec<u8>, String>) -> (r: Result<Vec<u8>, CertError>)
    ensures
        match key {
            Ok(k) => r is Ok && r->Ok_0@ == k@,
            Err(m) => r is Err && r->Err_0 is GenerateKey && r->Err_0->GenerateKey_0@ == m@,
        },
{
    match key {
        Ok(k) => Ok(k),
        Err(m) => Err(CertError::GenerateKey(m)),
    }
}

/// The fingerprint of the first certificate of a chain.
pub fn cert_fingerprint(der_certs: &[Vec<u8>]) -> (r: Option<[u8; 32]>)
    ensures
        if der_certs@.len() > 0 {
            r is Some && r->0@ == sha256_of(der_certs@[0]@)
        } else {
            r is None
        },
{
    if der_certs.len() == 0 {
        None
    } else {
        Some(sha256(der_certs[0].as_slice()))
    }
}

/// Compares all bytes, wherever the first difference is.
pub fn constant_time_eq(a: &[u8], b: &[u8]) -> (r: bool)
    ensures
        r == (a@ == b@),
{
    if a.len() != b.len() {
        return false;
    }
    let mut diff: u8 = 0;
    let mut i: usize = 0;
    assert(a@.take(0) =~= b@.take(0));
    while i < a.len()
        invariant
            i <= a@.len(),
            a@.len() == b@.len(),
            diff == 0 <==> a@.take(i as int) == b@.take(i as int),
        decreases a@.len() - i,
    {
        let x: u8 = a[i];
        let y: u8 = b[i];
        let d: u8 = diff;
        assert((d | (x ^ y)) == 0 <==> (d == 0 && x == y)) by (bit_vector);
        proof {
            let p = a@.take(i + 1);
            let q = b@.take(i + 1);
            assert(p.drop_last() =~= a@.take(i as int));
            assert(q.drop_last() =~= b@.take(i as int));
            assert(p.last() == x && q.last() == y);
            if a@.take(i as int) == b@.take(i as int) && x == y {
                assert(p =~= p.drop_last().push(x));
                assert(q =~= q.drop_last().push(y));
            }
        }
        diff = diff | (x ^ y);
        i = i + 1;
    }
    assert(a@.take(i as int) =~= a@);
    assert(b@.take(i as int) =~= b@);
    diff == 0
}

} // verus!
