//! Stateless cookies that prove where a client receives.
//!
//! A cookie is a keyed tag of the client's address and of a five-minute bucket; the key
//! comes from the server's master secret and changes every hour. Cookies of the current and
//! the previous bucket and hour are accepted. Times are seconds since the Unix epoch.

use crate::constant_time::ct_eq;
use crate::handshake::error::HandshakeError;
use crate::hash::{hkdf_sha256, hkdf_sha256_of, hmac_sha256, hmac_sha256_of};
use crate::types::ClientIp;
use crate::wire::{be64, copy_bytes, push_u64};
use vstd::prelude::*;

verus! {

/// Seconds in a bucket.
pub const COOKIE_BUCKET_SECONDS: u64 = 300;

/// Seconds between changes of the key.
pub const SECRET_ROTATION_SECONDS: u64 = 3600;

/// The label `phantom-pow-cookie-v1`.
pub open spec fn cookie_label() -> Seq<u8> {
    seq![
        0x70u8, 0x68, 0x61, 0x6e, 0x74, 0x6f, 0x6d, 0x2d, 0x70, 0x6f, 0x77, 0x2d, 0x63, 0x6f, 0x6f,
        0x6b, 0x69, 0x65, 0x2d, 0x76, 0x31,
    ]
}

/// The secret of an hour.
pub open spec fn hour_secret(master: Seq<u8>, hour: u64) -> Seq<u8> {
    hkdf_sha256_of(master, cookie_label() + be64(hour as int))
}

/// The cookie of an address for an hour and a bucket.
pub open spec fn cookie_of(master: Seq<u8>, ip: Seq<u8>, hour: u64, bucket: u64) -> Seq<u8> {
    hmac_sha256_of(hour_secret(master, hour), ip + be64(bucket as int))
}

/// The hour of a time.
pub open spec fn hour_of(now: u64) -> u64 {
    now / SECRET_ROTATION_SECONDS
}

/// The bucket of a time.
pub open spec fn bucket_of(now: u64) -> u64 {
    now / COOKIE_BUCKET_SECONDS
}

/// The one before, except that zero stays.
pub open spec fn previous(n: u64) -> u64 {
    if n == 0 {
        0
    } else {
        (n - 1) as u64
    }
}

/// Whether a cookie is accepted at `now`.
pub open spec fn cookie_accepted(master: Seq<u8>, ip: Seq<u8>, cookie: Seq<u8>, now: u64) -> bool {
    let h = hour_of(now);
    let b = bucket_of(now);
    ||| cookie == cookie_of(master, ip, h, b)
    ||| cookie == cookie_of(master, ip, h, previous(b))
    ||| cookie == cookie_of(master, ip, previous(h), b)
    ||| cookie == cookie_of(master, ip, previous(h), previous(b))
}

/// Derive the secret of an hour from the master secret.
pub fn derive_session_secret_for_hour(master: &[u8; 32], hour: u64) -> (secret: [u8; 32])
    ensures
        secret@ == hour_secret(master@, hour),
{
    let mut info: Vec<u8> = vec![
        0x70u8, 0x68, 0x61, 0x6e, 0x74, 0x6f, 0x6d, 0x2d, 0x70, 0x6f, 0x77, 0x2d, 0x63, 0x6f, 0x6f,
        0x6b, 0x69, 0x65, 0x2d, 0x76, 0x31,
    ];
    assert(info@ =~= cookie_label());
    push_u64(&mut info, hour);
    hkdf_sha256(master.as_slice(), info.as_slice())
}

fn generate_cookie_for_bucket(derived: &[u8; 32], ip: &ClientIp, bucket: u64) -> (cookie: [u8; 32])
    ensures
        cookie@ == hmac_sha256_of(derived@, ip.text@ + be64(bucket as int)),
{
    let mut data: Vec<u8> = copy_bytes(ip.text.as_slice());
    push_u64(&mut data, bucket);
    hmac_sha256(derived.as_slice(), data.as_slice())
}

/// The cookie for an address at `now`; `None` stands for a clock before the epoch.
pub fn generate_cookie(master: &[u8; 32], ip: &ClientIp, now: Option<u64>) -> (r: Result<
    [u8; 32],
    HandshakeError,
>)
    ensures
        match now {
            Some(t) => r matches Ok(cookie) && cookie@ == cookie_of(
                master@,
                ip.text@,
                hour_of(t),
                bucket_of(t),
            ),
            None => r == Err::<[u8; 32], HandshakeError>(HandshakeError::ClockBackwards),
        },
{
    match now {
        Some(t) => {
            let derived: [u8; 32] = derive_session_secret_for_hour(
                master,
                t / SECRET_ROTATION_SECONDS,
            );
            Ok(generate_cookie_for_bucket(&derived, ip, t / COOKIE_BUCKET_SECONDS))
        },
        None => Err(HandshakeError::ClockBackwards),
    }
}

/// Whether a cookie of an address is accepted at `now`. All four candidates are made and
/// compared in any case.
pub fn validate_cookie(
    master: &[u8; 32],
    ip: &ClientIp,
    cookie: &[u8; 32],
    now: Option<u64>,
) -> (r: Result<bool, HandshakeError>)
    ensures
        match now {
            Some(t) => r == Ok::<bool, HandshakeError>(
                cookie_accepted(master@, ip.text@, cookie@, t),
            ),
            None => r == Err::<bool, HandshakeError>(HandshakeError::ClockBackwards),
        },
{
    match now {
        Some(t) => {
            let bucket: u64 = t / COOKIE_BUCKET_SECONDS;
            let hour: u64 = t / SECRET_ROTATION_SECONDS;
            let this: [u8; 32] = derive_session_secret_for_hour(master, hour);
            let last: [u8; 32] = derive_session_secret_for_hour(master, hour.saturating_sub(1));
            let before: u64 = bucket.saturating_sub(1);
            let c0: [u8; 32] = generate_cookie_for_bucket(&this, ip, bucket);
            let c1: [u8; 32] = generate_cookie_for_bucket(&this, ip, before);
            let c2: [u8; 32] = generate_cookie_for_bucket(&last, ip, bucket);
            let c3: [u8; 32] = generate_cookie_for_bucket(&last, ip, before);
            let e0: bool = ct_eq(cookie.as_slice(), c0.as_slice());
            let e1: bool = ct_eq(cookie.as_slice(), c1.as_slice());
            let e2: bool = ct_eq(cookie.as_slice(), c2.as_slice());
            let e3: bool = ct_eq(cookie.as_slice(), c3.as_slice());
            Ok(e0 || e1 || e2 || e3)
        },
        None => Err(HandshakeError::ClockBackwards),
    }
}

/// A cookie is accepted from its address for at least one bucket after it was made, also
/// across a change of the key.
pub proof fn law_cookie_is_accepted(master: Seq<u8>, ip: Seq<u8>, made: u64, now: u64)
    requires
        made <= now <= made + COOKIE_BUCKET_SECONDS,
    ensures
        cookie_accepted(master, ip, cookie_of(master, ip, hour_of(made), bucket_of(made)), now),
{
    assert(bucket_of(now) == bucket_of(made) || bucket_of(now) == bucket_of(made) + 1);
    assert(hour_of(now) == hour_of(made) || hour_of(now) == hour_of(made) + 1);
}

/// What a cookie is bound to: the address, the five minutes it was made in, and a key that is
/// derived from the master secret and the hour under the label `phantom-pow-cookie-v1`.
pub proof fn law_cookie_is_bound(master: Seq<u8>, ip: Seq<u8>, made: u64)
    ensures
        cookie_of(master, ip, hour_of(made), bucket_of(made)) == hmac_sha256_of(
            hkdf_sha256_of(
                master,
                "phantom-pow-cookie-v1"@.map_values(|c: char| c as u8) + be64(made as int / 3600),
            ),
            ip + be64(made as int / 300),
        ),
{
    reveal_strlit("phantom-pow-cookie-v1");
    assert(cookie_label() =~= "phantom-pow-cookie-v1"@.map_values(|c: char| c as u8));
}

/// Which cookies are accepted, and no others: those that this server made for this address in this
/// bucket of five minutes or the one before, under the key of this hour or the one before.
pub proof fn law_accepted_cookie_was_made(
    master: Seq<u8>,
    ip: Seq<u8>,
    cookie: Seq<u8>,
    now: u64,
)
    ensures
        cookie_accepted(master, ip, cookie, now) <==> exists|hour: u64, bucket: u64| #[trigger]
            cookie_of(master, ip, hour, bucket) == cookie && (hour as int == now as int / 3600
                || hour as int == now as int / 3600 - 1) && (bucket as int == now as int / 300
                || bucket as int == now as int / 300 - 1),
{
    let h = (now / 3600) as u64;
    let b = (now / 300) as u64;
    if cookie_accepted(master, ip, cookie, now) {
        let c = cookie_of(master, ip, h, b);
        let c1 = cookie_of(master, ip, h, previous(b));
        let c2 = cookie_of(master, ip, previous(h), b);
        let c3 = cookie_of(master, ip, previous(h), previous(b));
        assert(cookie == c || cookie == c1 || cookie == c2 || cookie == c3);
    }
    if exists|hour: u64, bucket: u64| #[trigger]
        cookie_of(master, ip, hour, bucket) == cookie && (hour as int == now as int / 3600
            || hour as int == now as int / 3600 - 1) && (bucket as int == now as int / 300
            || bucket as int == now as int / 300 - 1) {
        let (hour, bucket) = choose|hour: u64, bucket: u64| #[trigger]
            cookie_of(master, ip, hour, bucket) == cookie && (hour as int == now as int / 3600
                || hour as int == now as int / 3600 - 1) && (bucket as int == now as int / 300
                || bucket as int == now as int / 300 - 1);
        assert(hour == h || hour == previous(h));
        assert(bucket == b || bucket == previous(b));
    }
}

/// The secret of an hour, which proofs of work are bound to as well: it is derived from the master secret under the
/// label and the number of the hour. The one before it is that of the hour before, down to the first.
pub proof fn law_secret_of_an_hour(master: Seq<u8>, hour: u64)
    ensures
        hour_secret(master, hour) == hkdf_sha256_of(
            master,
            "phantom-pow-cookie-v1"@.map_values(|c: char| c as u8) + be64(hour as int),
        ),
        hour > 0 ==> previous(hour) == hour - 1,
        previous(0) == 0,
{
    reveal_strlit("phantom-pow-cookie-v1");
    assert(cookie_label() =~= "phantom-pow-cookie-v1"@.map_values(|c: char| c as u8));
}

} // verus!
