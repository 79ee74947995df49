//! Ids that no two processes draw alike.
use crate::text::{
    ascii_lowered, concat, decimal, decimal_text, is_ascii_text, lowercased, prefix_chars,
    take_chars, to_lowercase,
};
use crate::time::Timestamp;
use sha2::{Digest, Sha256};
use vstd::bytes::{spec_u64_to_le_bytes, u64_to_le_bytes};
use vstd::prelude::*;

verus! {

/// The digest that `sha2::Sha256` gives for some bytes.
pub uninterp spec fn sha256_digest(data: Seq<u8>) -> Seq<u8>;

/// What `base32::encode` gives for some bytes in Crockford's alphabet.
pub uninterp spec fn crockford_text(data: Seq<u8>) -> Seq<char>;

/// `uuid::Uuid::new_v4` and `as_bytes`: the 16 bytes of a random identifier, whose fixed bits are those
/// of version 4. Nothing else is known of them.
#[verifier::external_body]
pub(crate) fn random_uuid() -> (r: Vec<u8>)
    ensures
        r@.len() == 16,
        r@[6] / 16 == 4,
        r@[8] / 64 == 2,
{
    uuid::Uuid::new_v4().as_bytes().to_vec()
}

/// `sha2::Sha256`, one `update` and `finalize`: the digest of the bytes, 32 bytes long, which depends on
/// them alone.
#[verifier::external_body]
fn sha256(data: &Vec<u8>) -> (r: Vec<u8>)
    ensures
        r@ == sha256_digest(data@),
        r@.len() == 32,
{
    let mut hasher = Sha256::new();
    hasher.update(data);
    hasher.finalize().to_vec()
}

/// `base32::encode` with `base32::Alphabet::Crockford`: the bytes as text, which depends on them alone.
/// It has one character, a digit or an upper-case ASCII letter, for every five bits, the last bits
/// filled up.
#[verifier::external_body]
fn crockford(data: &Vec<u8>) -> (r: String)
    ensures
        r@ == crockford_text(data@),
        r@.len() == (data@.len() * 8 + 4) / 5,
        forall|i: int|
            0 <= i < r@.len() ==> {
                let c = (#[trigger] r@[i]) as u32;
                (0x30 <= c <= 0x39) || (0x41 <= c <= 0x5A)
            },
{
    base32::encode(base32::Alphabet::Crockford, data)
}

/// Nanoseconds since the start of 1970, or 0 where 64 bits do not hold them.
pub open spec fn unix_nanos(t: Timestamp) -> int {
    let n = t.spec_secs() * 1_000_000_000 + t.spec_nanos();
    if i64::MIN <= n <= i64::MAX {
        n
    } else {
        0
    }
}

fn nanos_since_epoch(t: &Timestamp) -> (r: i64)
    ensures
        r == unix_nanos(*t),
{
    let n: i128 = t.secs() as i128 * 1_000_000_000 + t.nanos() as i128;
    if -0x8000_0000_0000_0000 <= n && n <= 0x7FFF_FFFF_FFFF_FFFF {
        n as i64
    } else {
        0
    }
}

/// The first `n` characters, in lower case, of the digest over random bytes and an instant.
pub open spec fn digest_text(random: Seq<u8>, at: Timestamp, n: int) -> Seq<char> {
    let digest = sha256_digest(random + spec_u64_to_le_bytes((unix_nanos(at) as i64) as u64));
    prefix_chars(lowercased(crockford_text(digest.take(6))), n)
}

pub(crate) fn short_digest(random: &Vec<u8>, at: &Timestamp, n: usize) -> (r: String)
    requires
        n <= 10,
    ensures
        r@ == digest_text(random@, *at, n as int),
        r@.len() == n,
{
    let ts: i64 = nanos_since_epoch(at);
    let mut data: Vec<u8> = Vec::new();
    let mut i: usize = 0;
    while i < random.len()
        invariant
            i <= random.len(),
            data@ == random@.take(i as int),
        decreases random.len() - i,
    {
        data.push(random[i]);
        i += 1;
        assert(random@.take(i as int) =~= random@.take(i - 1).push(random@[i - 1]));
    }
    assert(random@.take(random@.len() as int) =~= random@);
    let mut le = u64_to_le_bytes(#[verifier::truncate] (ts as u64));
    data.append(&mut le);
    let mut hash = sha256(&data);
    hash.truncate(6);
    assert(hash@ =~= sha256_digest(data@).take(6));
    let encoded = crockford(&hash);
    assert(is_ascii_text(encoded@));
    let lower = to_lowercase(&encoded);
    assert(lower@ == ascii_lowered(encoded@));
    take_chars(&lower, n)
}

/// The id of an issue made from random bytes and an instant: the prefix, a dash and four
/// lower-case characters.
pub open spec fn issue_id(prefix: Seq<char>, random: Seq<u8>, at: Timestamp) -> Seq<char> {
    prefix + "-"@ + digest_text(random, at, 4)
}

/// The id of the issue that drew those random bytes at that instant.
pub fn issue_id_from(prefix: &str, random: &Vec<u8>, at: &Timestamp) -> (r: String)
    ensures
        r@ == issue_id(prefix@, random@, *at),
        r@.len() == prefix@.len() + 5,
{
    proof {
        reveal_strlit("-");
    }
    let mut r = concat(prefix, "-");
    r.append(&short_digest(random, at, 4));
    r
}

/// A new issue id.
pub fn generate_id(prefix: &str) -> (r: String)
    ensures
        r@.len() == prefix@.len() + 5,
        exists|random: Seq<u8>, at: Timestamp|
            random.len() == 16 && r@ == #[trigger] issue_id(prefix@, random, at),
{
    let random = random_uuid();
    let at = Timestamp::now();
    issue_id_from(prefix, &random, &at)
}

/// The id of a child: the parent's id, a dot and the child's number.
pub open spec fn child_id(parent: Seq<char>, n: nat) -> Seq<char> {
    parent + "."@ + decimal(n)
}

pub fn generate_child_id(parent: &str, n: u32) -> (r: String)
    ensures
        r@ == child_id(parent@, n as nat),
{
    let mut r = concat(parent, ".");
    r.append(&decimal_text(n as u64));
    r
}

/// Law: the id of an issue is its prefix, a dash and what was drawn. Two issues under one
/// prefix have one id only where the same was drawn, and an id tells its prefix.
pub proof fn ids_begin_with_their_prefix(prefix: Seq<char>, random: Seq<u8>, at: Timestamp)
    ensures
        issue_id(prefix, random, at).take(prefix.len() as int) == prefix,
        issue_id(prefix, random, at)[prefix.len() as int] == '-',
        issue_id(prefix, random, at).skip(prefix.len() as int + 1) == digest_text(random, at, 4),
{
    reveal_strlit("-");
    let id = issue_id(prefix, random, at);
    assert(id.take(prefix.len() as int) =~= prefix);
    assert(id.skip(prefix.len() as int + 1) =~= digest_text(random, at, 4));
}

/// Law: the children of an issue have ids that begin with its own, and no two of them the same.
pub proof fn child_ids_differ(parent: Seq<char>, m: nat, n: nat)
    ensures
        child_id(parent, n).take(parent.len() as int + 1) == parent + "."@,
        child_id(parent, m) == child_id(parent, n) ==> m == n,
{
    reveal_strlit(".");
    assert(child_id(parent, n).take(parent.len() as int + 1) =~= parent + "."@);
    if child_id(parent, m) == child_id(parent, n) {
        let top = if m < n {
            n
        } else {
            m
        };
        assert(child_id(parent, m).skip(parent.len() as int + 1) =~= decimal(m));
        assert(child_id(parent, n).skip(parent.len() as int + 1) =~= decimal(n));
        crate::text::decimal_reads_back(m, top);
        crate::text::decimal_reads_back(n, top);
    }
}

} // verus!
