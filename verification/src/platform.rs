//! The outside crates and the parts of std that the library calls, each
//! behind a contract that states no more than their documentation or source
//! promises.
use vstd::prelude::*;

verus! {

// ---------------------------------------------------------------- dashmap

#[verifier::external_type_specification]
#[verifier::external_body]
#[verifier::reject_recursive_types(K)]
#[verifier::reject_recursive_types(V)]
#[verifier::reject_recursive_types(S)]
pub struct ExDashMap<K, V, S>(dashmap::DashMap<K, V, S>);

/// `dashmap::DashMap::new`: an empty concurrent map. Maps whose contents a
/// contract speaks of are made by a wrapper of their own that says so; this
/// one is for maps that the library holds and no logic of it reads.
#[verifier::external_body]
pub(crate) fn new_dash_map<K: Eq + core::hash::Hash, V>() -> dashmap::DashMap<K, V> {
    dashmap::DashMap::new()
}

// ---------------------------------------------------------------- clock

/// The largest number of nanoseconds that a `Duration` holds: `u64::MAX`
/// seconds and 999,999,999 nanoseconds.
pub open spec fn max_duration_nanos() -> int {
    18_446_744_073_709_551_615int * 1_000_000_000int + 999_999_999int
}

/// `SystemTime::now()`, as nanoseconds since the UNIX epoch (0 for a clock
/// set before the epoch). Of the reading, which is the machine's clock,
/// only the bound of `Duration::as_nanos` is promised.
#[verifier::external_body]
pub(crate) fn now_unix_nanos() -> (r: u128)
    ensures
        r <= max_duration_nanos(),
{
    match std::time::SystemTime::now().duration_since(std::time::UNIX_EPOCH) {
        Ok(d) => d.as_nanos(),
        Err(_) => 0,
    }
}

/// `SystemTime::now()` as whole seconds since the UNIX epoch, as the broker
/// stamps a message it sends out (0 for a clock set before the epoch).
#[verifier::external_body]
pub(crate) fn now_unix_secs() -> i64 {
    match std::time::SystemTime::now().duration_since(std::time::UNIX_EPOCH) {
        Ok(d) => d.as_secs() as i64,
        Err(_) => 0,
    }
}

/// `chrono::Utc::now()` as milliseconds since the UNIX epoch. Nothing is
/// promised of the reading.
#[verifier::external_body]
pub(crate) fn utc_now_millis() -> i64 {
    chrono::Utc::now().timestamp_millis()
}

// ---------------------------------------------------------------- uuid

/// The shape of `Uuid::to_string` for a version 4 UUID: 36 characters,
/// hyphens at 8, 13, 18 and 23, the version digit `4` at 14, lower-case
/// hexadecimal digits elsewhere.
pub open spec fn is_v4_uuid_text(s: Seq<char>) -> bool {
    &&& s.len() == 36
    &&& forall|i: int| 0 <= i < 36 ==> (if i == 8 || i == 13 || i == 18 || i == 23 {
        s[i] == '-'
    } else {
        ('0' <= s[i] && s[i] <= '9') || ('a' <= s[i] && s[i] <= 'f')
    })
    &&& s[14] == '4'
}

/// `uuid::Uuid::new_v4().to_string()`: a random UUID in its hyphenated
/// lower-case form. Which UUID comes out is left open; only its shape is
/// stated.
#[verifier::external_body]
pub(crate) fn new_uuid_string() -> (s: String)
    ensures
        is_v4_uuid_text(s@),
{
    uuid::Uuid::new_v4().to_string()
}

// ---------------------------------------------------------------- rand

/// `rand::random::<u64>()`: any `u64`; nothing is promised of which.
#[verifier::external_body]
pub(crate) fn random_u64() -> u64 {
    rand::random::<u64>()
}

// ---------------------------------------------------------------- bytes

#[verifier::external_type_specification]
#[verifier::external_body]
pub struct ExBytes(bytes::Bytes);

/// The bytes that a `bytes::Bytes` holds.
pub uninterp spec fn bytes_content(b: bytes::Bytes) -> Seq<u8>;

/// `<Bytes as Clone>::clone`: another handle on the same bytes.
pub assume_specification [<bytes::Bytes as Clone>::clone](b: &bytes::Bytes) -> (r: bytes::Bytes)
    ensures
        bytes_content(r) == bytes_content(*b),
;

/// `Bytes::to_vec`: a vector of the same bytes.
#[verifier::external_body]
pub(crate) fn bytes_to_vec(b: &bytes::Bytes) -> (r: Vec<u8>)
    ensures
        r@ == bytes_content(*b),
{
    b.to_vec()
}

/// `bytes::Bytes::from(Vec<u8>)`: a buffer that holds exactly the vector's
/// bytes.
#[verifier::external_body]
pub(crate) fn bytes_from_vec(v: Vec<u8>) -> (b: bytes::Bytes)
    ensures
        bytes_content(b) == v@,
{
    bytes::Bytes::from(v)
}

// ---------------------------------------------------------------- hashing

/// What `DefaultHasher::new()` finishes with after hashing the byte slice
/// `data` (`<[u8] as Hash>::hash`). The hasher's algorithm is fixed for a
/// given build of std, so the value depends on `data` alone.
pub uninterp spec fn default_hash_of_bytes(data: Seq<u8>) -> u64;

/// Hashes `data` with a fresh `DefaultHasher`.
#[verifier::external_body]
pub(crate) fn default_hash_bytes(data: &[u8]) -> (h: u64)
    ensures
        h == default_hash_of_bytes(data@),
{
    let mut hasher = std::collections::hash_map::DefaultHasher::new();
    std::hash::Hash::hash(data, &mut hasher);
    std::hash::Hasher::finish(&hasher)
}

// ---------------------------------------------------------------- text

/// What `String::from_utf8_lossy` makes of `bytes`: their text, with each
/// ill-formed sequence replaced by U+FFFD.
pub uninterp spec fn lossy_text(bytes: Seq<u8>) -> Seq<char>;

/// `String::from_utf8_lossy(bytes).into_owned()`. Well-formed UTF-8 is
/// decoded as it stands.
#[verifier::external_body]
pub(crate) fn utf8_lossy(bytes: &[u8]) -> (r: String)
    ensures
        r@ == lossy_text(bytes@),
        vstd::utf8::valid_utf8(bytes@) ==> r@ == vstd::utf8::decode_utf8(bytes@),
{
    String::from_utf8_lossy(bytes).into_owned()
}

} // verus!
