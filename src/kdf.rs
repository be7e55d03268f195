//! Parsing of the parameter block and the derivation of the AES key and IV
//! from it and a password.
use crate::cipher::append;
use crate::error::Error;
use crate::primitives::{sha256, sha256_digest};
use vstd::prelude::*;

verus! {

/// Iteration power that selects raw keying: the key is the salt followed by
/// the password, with no hashing.
pub const RAW_KEY_POWER: u8 = 0x3f;

/// The iteration power: bits 0 to 5 of the first byte.
pub open spec fn cycles_power(props: Seq<u8>) -> u8 {
    props[0] & 0x3f
}

/// Bit 6 of the first byte plus the low nibble of the second.
pub open spec fn iv_size(props: Seq<u8>) -> int {
    ((props[0] >> 6u8) & 1u8) + (props[1] & 15u8)
}

/// Bit 7 of the first byte plus the high nibble of the second.
pub open spec fn salt_size(props: Seq<u8>) -> int {
    ((props[0] >> 7u8) & 1u8) + (props[1] >> 4u8)
}

/// The block has its two header bytes and the salt and IV they declare.
pub open spec fn properties_fit(props: Seq<u8>) -> bool {
    &&& props.len() >= 2
    &&& 2 + salt_size(props) + iv_size(props) <= props.len()
}

pub open spec fn salt_of(props: Seq<u8>) -> Seq<u8> {
    props.subrange(2, 2 + salt_size(props))
}

pub open spec fn zeros(n: int) -> Seq<u8> {
    Seq::new(n as nat, |_i: int| 0u8)
}

/// The IV bytes of the block, zero-extended to 16 bytes.
pub open spec fn derived_iv(props: Seq<u8>) -> Seq<u8> {
    let start = 2 + salt_size(props);
    props.subrange(start, start + iv_size(props)) + zeros(16 - iv_size(props))
}

/// The round counter as 8 little-endian bytes.
pub open spec fn counter_bytes(i: u64) -> Seq<u8> {
    seq![
        i as u8,
        (i >> 8u64) as u8,
        (i >> 16u64) as u8,
        (i >> 24u64) as u8,
        (i >> 32u64) as u8,
        (i >> 40u64) as u8,
        (i >> 48u64) as u8,
        (i >> 56u64) as u8,
    ]
}

/// What the hash reads over `rounds` rounds: each round is the salt, the
/// password and the round's counter.
pub open spec fn kdf_input(salt: Seq<u8>, password: Seq<u8>, rounds: nat) -> Seq<u8>
    decreases rounds,
{
    if rounds == 0 {
        Seq::empty()
    } else {
        kdf_input(salt, password, (rounds - 1) as nat) + salt + password + counter_bytes(
            (rounds - 1) as u64,
        )
    }
}

/// The number of hash rounds, 2 to the power `power`.
pub open spec fn kdf_rounds(power: u8) -> nat {
    (1u64 << power as u64) as nat
}

/// The salt, then as many leading password bytes as fit in 32, then zeros.
pub open spec fn raw_key(salt: Seq<u8>, password: Seq<u8>) -> Seq<u8> {
    let room = 32 - salt.len();
    let n = if password.len() < room {
        password.len() as int
    } else {
        room
    };
    salt + password.take(n) + zeros(room - n)
}

/// The 32-byte key for a well-formed block and a non-empty password.
pub open spec fn derived_key(props: Seq<u8>, password: Seq<u8>) -> Seq<u8> {
    if cycles_power(props) == RAW_KEY_POWER {
        raw_key(salt_of(props), password)
    } else {
        sha256_digest(
            kdf_input(salt_of(props), password, kdf_rounds(cycles_power(props))),
        )
    }
}

/// `key` and `iv` are what the block `props` and `password` derive.
pub open spec fn derives(props: Seq<u8>, password: Seq<u8>, key: Seq<u8>, iv: Seq<u8>) -> bool {
    &&& properties_fit(props)
    &&& password.len() > 0
    &&& key == derived_key(props, password)
    &&& iv == derived_iv(props)
}

/// The error, if any, that the derivation reports for these inputs.
pub open spec fn derivation_error(props: Seq<u8>, password: Seq<u8>, e: Error) -> bool {
    if !properties_fit(props) {
        e matches Error::Other(_)
    } else {
        password.len() == 0 && e matches Error::PasswordRequired
    }
}

/// Derives the AES key and IV from a parameter block and a password.
pub fn get_aes_key(properties: &[u8], password: &[u8]) -> (r: Result<([u8; 32], [u8; 16]), Error>)
    ensures
        match r {
            Ok((key, iv)) => derives(properties@, password@, key@, iv@),
            Err(e) => derivation_error(properties@, password@, e),
        },
        properties_fit(properties@) && password@.len() > 0 <==> r is Ok,
{
    if properties.len() < 2 {
        return Err(Error::other("AES256 properties too short"));
    }
    let b0 = properties[0];
    let num_cycles_power = b0 & 0x3f;
    let b1 = properties[1];
    assert((b0 >> 6u8) & 1u8 <= 1 && b1 & 15u8 <= 15) by (bit_vector);
    assert((b0 >> 7u8) & 1u8 <= 1 && b1 >> 4u8 <= 15) by (bit_vector);
    let iv_size = (((b0 >> 6u8) & 1u8) + (b1 & 15u8)) as usize;
    let salt_size = (((b0 >> 7u8) & 1u8) + (b1 >> 4u8)) as usize;
    if 2 + salt_size + iv_size > properties.len() {
        return Err(Error::other("Salt size + IV size too long"));
    }
    let ghost props = properties@;
    let mut iv = [0u8; 16];
    let mut i: usize = 0;
    while i < iv_size
        invariant
            i <= iv_size <= 16,
            salt_size <= 16,
            2 + salt_size + iv_size <= props.len(),
            props == properties@,
            iv@.len() == 16,
            forall|j: int| 0 <= j < i ==> iv@[j] == props[2 + salt_size + j],
            forall|j: int| i <= j < 16 ==> iv@[j] == 0,
        decreases iv_size - i,
    {
        iv[i] = properties[2 + salt_size + i];
        i += 1;
    }
    assert(iv@ =~= derived_iv(props));
    if password.len() == 0 {
        return Err(Error::PasswordRequired);
    }
    let salt = &properties[2..2 + salt_size];
    assert(salt@ =~= salt_of(props));
    let key = if num_cycles_power == RAW_KEY_POWER {
        raw_key_of(salt, password)
    } else {
        assert(b0 & 0x3f <= 63) by (bit_vector);
        let rounds: u64 = 1u64 << num_cycles_power as u64;
        // The rounds are gathered into one buffer and hashed in one call.
        let mut data: Vec<u8> = Vec::new();
        let mut i: u64 = 0;
        while i < rounds
            invariant
                i <= rounds,
                data@ == kdf_input(salt@, password@, i as nat),
            decreases rounds - i,
        {
            append(&mut data, salt);
            append(&mut data, password);
            let counter: [u8; 8] = [
                #[verifier::truncate]
                (i as u8),
                #[verifier::truncate]
                ((i >> 8u64) as u8),
                #[verifier::truncate]
                ((i >> 16u64) as u8),
                #[verifier::truncate]
                ((i >> 24u64) as u8),
                #[verifier::truncate]
                ((i >> 32u64) as u8),
                #[verifier::truncate]
                ((i >> 40u64) as u8),
                #[verifier::truncate]
                ((i >> 48u64) as u8),
                #[verifier::truncate]
                ((i >> 56u64) as u8),
            ];
            assert(counter@ =~= counter_bytes(i));
            append(&mut data, &counter);
            i += 1;
        }
        sha256(data.as_slice())
    };
    Ok((key, iv))
}

/// The raw key: the salt, then the password's head, then zeros.
fn raw_key_of(salt: &[u8], password: &[u8]) -> (key: [u8; 32])
    requires
        salt@.len() <= 16,
    ensures
        key@ == raw_key(salt@, password@),
{
    let mut key = [0u8; 32];
    let mut i: usize = 0;
    while i < salt.len()
        invariant
            i <= salt@.len() <= 16,
            key@.len() == 32,
            forall|j: int| 0 <= j < i ==> key@[j] == salt@[j],
            forall|j: int| i <= j < 32 ==> key@[j] == 0,
        decreases salt@.len() - i,
    {
        key[i] = salt[i];
        i += 1;
    }
    let room = 32 - salt.len();
    let n = if password.len() < room {
        password.len()
    } else {
        room
    };
    let mut j: usize = 0;
    while j < n
        invariant
            j <= n <= room,
            room == 32 - salt@.len(),
            n <= password@.len(),
            salt@.len() <= 16,
            key@.len() == 32,
            forall|k: int| 0 <= k < salt@.len() ==> key@[k] == salt@[k],
            forall|k: int| 0 <= k < j ==> key@[salt@.len() + k] == password@[k],
            forall|k: int| salt@.len() + j <= k < 32 ==> key@[k] == 0,
        decreases n - j,
    {
        key[salt.len() + j] = password[j];
        j += 1;
    }
    assert(key@ =~= raw_key(salt@, password@));
    key
}

/// Deriving twice from the same block and password gives the same key and IV.
pub proof fn derivation_is_deterministic(
    props: Seq<u8>,
    password: Seq<u8>,
    key1: Seq<u8>,
    iv1: Seq<u8>,
    key2: Seq<u8>,
    iv2: Seq<u8>,
)
    requires
        derives(props, password, key1, iv1),
        derives(props, password, key2, iv2),
    ensures
        key1 == key2,
        iv1 == iv2,
{
}

} // verus!
