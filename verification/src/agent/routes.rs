//! Enrollment and connection for hosts that dial out.
//!
//! An operator asks for a one-time install command; the daemon's first run
//! presents the bootstrap token from it and gets a long-lived credential back;
//! every run after that presents the credential.
use vstd::prelude::*;
use crate::encoding::{base64_url_encode, base64_url_text, hyphenated, url_safe, uuid_text};
use crate::error::{bad_request, refusal, AppError, ErrorModel};
use crate::models::host::{Host, Transport};
use crate::text::{join2, join4};

verus! {

/// For how many microseconds a bootstrap token stays redeemable: long enough
/// to copy a command onto a machine and run it, short enough that a token
/// nobody used is not a standing credential.
pub const ENROLLMENT_TTL: i64 = 3600000000;

/// Calls `try_fill_bytes` of `rand::rngs::OsRng` for 32 bytes. The bytes
/// depend on chance, and whether there are any on the machine: nothing is
/// stated of either.
#[verifier::external_body]
fn random_bytes() -> (r: Option<[u8; 32]>)
{
    let mut bytes: [u8; 32] = [0; 32];
    rand::RngCore::try_fill_bytes(&mut rand::rngs::OsRng, &mut bytes).ok().map(|_| bytes)
}

/// The token that some random bytes are written as.
pub fn token_of(bytes: &[u8; 32]) -> (r: String)
    ensures
        r@ == base64_url_text(bytes@),
        r@.len() == 43,
        forall|i: int| 0 <= i < r@.len() ==> url_safe(#[trigger] r@[i]),
{
    base64_url_encode(bytes)
}

/// The token that comes of what the machine gave: one for its random bytes,
/// and none where it had none to give.
pub fn token_from(random: Option<[u8; 32]>) -> (r: Option<String>)
    ensures
        match random {
            Some(bytes) => {
                &&& r matches Some(token)
                &&& token@ == base64_url_text(bytes@)
                &&& token@.len() == 43
                &&& forall|i: int| 0 <= i < token@.len() ==> url_safe(#[trigger] token@[i])
            },
            None => r is None,
        },
{
    match random {
        Some(bytes) => Some(token_of(&bytes)),
        None => None,
    }
}

/// A new token, unless the machine has no random bytes to give: what
/// [`token_from`] makes of them.
pub fn generate_token() -> (r: Option<String>)
    ensures
        r matches Some(token) ==> {
            &&& exists|bytes: Seq<u8>|
                bytes.len() == 32 && token@ == #[trigger] base64_url_text(bytes)
            &&& token@.len() == 43
            &&& forall|i: int| 0 <= i < token@.len() ==> url_safe(#[trigger] token@[i])
        },
{
    token_from(random_bytes())
}

/// The caller's own agent host, or the error that says why it isn't one. A
/// host somebody else owns is indistinguishable from one that does not exist.
pub fn owned_agent_host(found: Option<Host>) -> (r: Result<Host, AppError>)
    ensures
        match found {
            None => refusal(r) == Some(ErrorModel::NotFound),
            Some(host) => if host.reached_by(Transport::Agent) {
                r == Ok::<Host, AppError>(host)
            } else {
                refusal(r) == Some(
                    ErrorModel::BadRequest("this host's transport is not 'agent'"@),
                )
            },
        },
{
    match found {
        None => Err(AppError::NotFound),
        Some(host) => {
            if host.is_by(Transport::Agent) {
                Ok(host)
            } else {
                Err(bad_request("this host's transport is not 'agent'"))
            }
        },
    }
}

/// A bootstrap token, and the command that redeems it.
#[derive(Debug)]
pub struct EnrollResponse {
    /// One-time; never stored or shown again after it is exchanged.
    pub token: String,
    pub expires_at: i64,
    /// A copy-pasteable one-liner that fetches the installer and hands it the
    /// token.
    pub install_command: String,
}

/// Issues a bootstrap token, and builds the command that redeems it. `base` is
/// where this service is reached from outside.
pub fn issue_enrollment(base: &str, token: String, now: i64) -> (r: EnrollResponse)
    requires
        now + ENROLLMENT_TTL <= i64::MAX,
    ensures
        r.token@ == token@,
        r.expires_at == now + ENROLLMENT_TTL,
        r.install_command@ == "curl -fsSL "@ + base@ + "/api/agent/install.sh | sh -s -- --token "@
            + token@,
{
    let install_command = join4(
        "curl -fsSL ",
        base,
        "/api/agent/install.sh | sh -s -- --token ",
        token.as_str(),
    );
    EnrollResponse { token, expires_at: now + ENROLLMENT_TTL, install_command }
}

/// Checks the key that a daemon reports: `readable` is whether a fingerprint
/// could be made of it.
pub fn check_host_key(readable: bool) -> (r: Result<(), AppError>)
    ensures
        refusal(r) == if readable {
            None
        } else {
            Some(
                ErrorModel::BadRequest("host_pubkey is not a readable OpenSSH public key"@),
            )
        },
{
    if readable {
        Ok(())
    } else {
        Err(bad_request("host_pubkey is not a readable OpenSSH public key"))
    }
}

/// An issued bootstrap token, as it is stored.
#[derive(Debug, Clone, Copy, PartialEq, Eq, Structural)]
pub struct Enrollment {
    pub host_id: u128,
    pub expires_at: i64,
    pub consumed_at: Option<i64>,
}

impl Enrollment {
    /// Whether the token can still be exchanged.
    pub open spec fn redeemable(self, now: i64) -> bool {
        self.consumed_at is None && self.expires_at > now
    }
}

/// Exchanges a bootstrap token: the enrollment that carries its hash, where
/// there is one that can still be redeemed, is consumed. Says which host it
/// was for.
pub fn exchange(found: Option<Enrollment>, now: i64) -> (r: Result<Enrollment, AppError>)
    ensures
        match found {
            Some(enrollment) => if enrollment.redeemable(now) {
                r == Ok::<Enrollment, AppError>(
                    Enrollment { consumed_at: Some(now), ..enrollment },
                )
            } else {
                refusal(r) == Some(
                    ErrorModel::Unauthorized("unknown or expired enrollment token"@),
                )
            },
            None => refusal(r) == Some(
                ErrorModel::Unauthorized("unknown or expired enrollment token"@),
            ),
        },
{
    if let Some(enrollment) = found {
        if enrollment.consumed_at.is_none() && enrollment.expires_at > now {
            return Ok(
                Enrollment {
                    host_id: enrollment.host_id,
                    expires_at: enrollment.expires_at,
                    consumed_at: Some(now),
                },
            );
        }
    }
    Err(AppError::Unauthorized("unknown or expired enrollment token".to_owned()))
}

/// Supersedes an unused token: a second command leaves no first one redeemable
/// beside it. It expires rather than being marked consumed, for it was never
/// exchanged.
pub fn supersede(enrollment: Enrollment, now: i64) -> (r: Enrollment)
    ensures
        r == if enrollment.consumed_at is None {
            Enrollment { expires_at: now, ..enrollment }
        } else {
            enrollment
        },
{
    if enrollment.consumed_at.is_none() {
        Enrollment {
            host_id: enrollment.host_id,
            expires_at: now,
            consumed_at: enrollment.consumed_at,
        }
    } else {
        enrollment
    }
}

/// A token is exchanged at most once, never after its hour, and not once it
/// was superseded.
pub proof fn a_token_is_redeemed_once(enrollment: Enrollment, now: i64, later: i64)
    requires
        now <= later,
    ensures
        !(Enrollment { consumed_at: Some(now), ..enrollment }).redeemable(later),
        !(Enrollment { expires_at: now, ..enrollment }).redeemable(later),
        later >= enrollment.expires_at ==> !enrollment.redeemable(later),
{
}

/// A daemon's long-lived credential, as it is stored.
#[derive(Debug)]
pub struct Credential {
    pub id: u128,
    pub host_id: u128,
    pub token_hash: String,
    /// The key the daemon reported when it enrolled, pinned from then on.
    pub host_pubkey: String,
    pub issued_at: i64,
    pub revoked_at: Option<i64>,
}

impl Credential {
    /// Whether a host's daemon can still present this.
    pub open spec fn live(self, host_id: u128) -> bool {
        self.host_id == host_id && self.revoked_at is None
    }

    /// This credential once its host got a new one: revoked if it was live,
    /// else as it was.
    pub open spec fn superseded(self, host_id: u128, now: i64) -> Credential {
        if self.live(host_id) {
            Credential { revoked_at: Some(now), ..self }
        } else {
            self
        }
    }
}

/// The credentials once a host got a new one.
pub open spec fn renewed(log: Seq<Credential>, new: Credential, now: i64) -> Seq<Credential> {
    Seq::new(log.len(), |i: int| log[i].superseded(new.host_id, now)).push(new)
}

/// Gives a host its new credential. The previous one is revoked rather than
/// overwritten, so the log keeps what was there; a daemon that was installed
/// from scratch has no old credential to present, so one may well be live.
pub fn renew_credential(
    log: &mut Vec<Credential>,
    id: u128,
    host_id: u128,
    token_hash: String,
    host_pubkey: String,
    now: i64,
)
    ensures
        final(log)@ == renewed(
            old(log)@,
            Credential { id, host_id, token_hash, host_pubkey, issued_at: now, revoked_at: None },
            now,
        ),
{
    let ghost before = log@;
    let mut i: usize = 0;
    while i < log.len()
        invariant
            i <= log@.len() == before.len(),
            forall|k: int|
                0 <= k < i ==> #[trigger] log@[k] == before[k].superseded(host_id, now),
            forall|k: int| i <= k < log@.len() ==> #[trigger] log@[k] == before[k],
        decreases log@.len() - i,
    {
        if log[i].host_id == host_id && log[i].revoked_at.is_none() {
            log[i].revoked_at = Some(now);
        }
        i += 1;
    }
    let new = Credential {
        id,
        host_id,
        token_hash,
        host_pubkey,
        issued_at: now,
        revoked_at: None,
    };
    log.push(new);
    assert(log@ =~= renewed(before, new, now));
}

/// A host that got a new credential has exactly that one live, and the log
/// still holds every earlier one: what was revoked before keeps its time, and
/// no other host's is touched.
pub proof fn one_credential_is_left(log: Seq<Credential>, new: Credential, now: i64, i: int)
    requires
        new.revoked_at is None,
        0 <= i < log.len(),
    ensures
        renewed(log, new, now).len() == log.len() + 1,
        renewed(log, new, now).last() == new,
        new.live(new.host_id),
        !renewed(log, new, now)[i].live(new.host_id),
        renewed(log, new, now)[i].id == log[i].id,
        renewed(log, new, now)[i].host_id == log[i].host_id,
        renewed(log, new, now)[i].token_hash == log[i].token_hash,
        renewed(log, new, now)[i].host_pubkey == log[i].host_pubkey,
        renewed(log, new, now)[i].issued_at == log[i].issued_at,
        log[i].host_id != new.host_id || log[i].revoked_at is Some ==> renewed(log, new, now)[i]
            == log[i],
{
}

/// What a daemon's session goes by.
pub fn session_name(host_id: u128) -> (r: String)
    ensures
        r@ == "agent:"@ + hyphenated(host_id),
{
    join2("agent:", uuid_text(host_id).as_str())
}

/// A token is redeemable up to its end and not from then on, as long as nobody
/// has redeemed it.
pub proof fn a_token_is_redeemable_until_it_ends(enrollment: Enrollment, now: i64)
    ensures
        enrollment.redeemable(now) <==> enrollment.consumed_at is None && now
            < enrollment.expires_at,
        ENROLLMENT_TTL == 60 * 60 * 1000 * 1000,
{
}

} // verus!
