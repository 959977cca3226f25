//! Commit seeds and idempotency keys: a write that is made again after a failure is
//! known by its key.

use std::collections::hash_map::DefaultHasher;
use std::hash::Hasher;

use vstd::prelude::*;
use vstd::std_specs::hash::DefaultHasherAdditionalSpecFns;
use vstd::utf8::encode_utf8;

use crate::jsonl::{append_bytes, copy_bytes};
use crate::numbers::{decimal, decimal_text, hex16_text, hex_digits, lemma_decimal_value};
use crate::text::{concat3, Text};

verus! {

/// The seed of a commit: which mount it is, which run of it, and which of its commits.
pub open spec fn seed_text(mount_name: Text, instance: u128, id: u64) -> Text {
    mount_name + ":"@ + (decimal(instance as nat) + ":"@ + decimal(id as nat))
}

/// The next number after one, as long as there is one.
pub open spec fn next_id(id: u64) -> u64 {
    if id == u64::MAX {
        id
    } else {
        (id + 1) as u64
    }
}

/// The bytes of a number, the lowest first.
pub open spec fn low_bytes(value: nat, width: nat) -> Seq<u8>
    decreases width,
{
    if width == 0 {
        Seq::empty()
    } else {
        seq![(value % 256) as u8] + low_bytes(value / 256, (width - 1) as nat)
    }
}

/// What the hash of a write is taken of: the seed and the path, each with an end mark,
/// and the bytes after their number.
pub open spec fn key_material(path: Text, bytes: Seq<u8>, seed: Text) -> Seq<Seq<u8>> {
    seq![
        encode_utf8(seed),
        seq![255u8],
        encode_utf8(path),
        seq![255u8],
        low_bytes(bytes.len(), 8),
        bytes,
    ]
}

/// The idempotency key of a write: the hash as sixteen hexadecimal digits.
pub open spec fn write_key(path: Text, bytes: Seq<u8>, seed: Text) -> Text {
    hex_digits(DefaultHasher::spec_finish(key_material(path, bytes, seed)) as nat, 16)
}

/// What the key of a rename is made of: where it comes from, which generation of the
/// source it takes, and what that holds.
pub open spec fn rename_material(from: Text, generation: u64, bytes: Seq<u8>) -> Seq<u8> {
    encode_utf8(from) + seq![0u8] + encode_utf8(decimal(generation as nat)) + seq![0u8] + bytes
}

/// Two commits of one mount have different seeds.
pub proof fn law_commit_seeds_differ(mount_name: Text, instance: u128, one: u64, other: u64)
    requires
        one != other,
    ensures
        seed_text(mount_name, instance, one) != seed_text(mount_name, instance, other),
{
    let first = seed_text(mount_name, instance, one);
    let second = seed_text(mount_name, instance, other);
    let head = mount_name + ":"@ + (decimal(instance as nat) + ":"@);
    lemma_decimal_value(one as nat);
    lemma_decimal_value(other as nat);
    assert(first =~= head + decimal(one as nat));
    assert(second =~= head + decimal(other as nat));
    if first == second {
        assert(first.skip(head.len() as int) =~= decimal(one as nat));
        assert(second.skip(head.len() as int) =~= decimal(other as nat));
    }
}

/// Writes that differ in their seed, their path or their bytes are hashed from different
/// material.
pub proof fn law_key_material_differs(
    path: Text,
    bytes: Seq<u8>,
    seed: Text,
    other_path: Text,
    other_bytes: Seq<u8>,
    other_seed: Text,
)
    requires
        path != other_path || bytes != other_bytes || seed != other_seed,
    ensures
        key_material(path, bytes, seed) != key_material(other_path, other_bytes, other_seed),
{
    let one = key_material(path, bytes, seed);
    let other = key_material(other_path, other_bytes, other_seed);
    vstd::utf8::encode_utf8_decode_utf8(seed);
    vstd::utf8::encode_utf8_decode_utf8(other_seed);
    vstd::utf8::encode_utf8_decode_utf8(path);
    vstd::utf8::encode_utf8_decode_utf8(other_path);
    if one == other {
        assert(one[0] == other[0]);
        assert(one[2] == other[2]);
        assert(one[5] == other[5]);
    }
}

/// The seed of a commit.
pub fn commit_seed(mount_name: &str, instance: u128, id: u64) -> (seed: String)
    ensures
        seed@ == seed_text(mount_name@, instance, id),
{
    let run = decimal_text(instance);
    let number = decimal_text(id as u128);
    let end = concat3(run.as_str(), ":", number.as_str());
    concat3(mount_name, ":", end.as_str())
}

/// The next number after one, as long as there is one.
pub fn following_id(id: u64) -> (next: u64)
    ensures
        next == next_id(id),
{
    if id == u64::MAX {
        id
    } else {
        id + 1
    }
}

fn length_bytes(value: u64, width: u8) -> (bytes: Vec<u8>)
    ensures
        bytes@ == low_bytes(value as nat, width as nat),
    decreases width,
{
    if width == 0 {
        Vec::new()
    } else {
        let low: u8 = (value % 256) as u8;
        let mut bytes: Vec<u8> = vec![low];
        let rest = length_bytes(value / 256, width - 1);
        append_bytes(&mut bytes, rest.as_slice());
        assert(bytes@ =~= seq![low] + rest@);
        bytes
    }
}

/// The idempotency key of a write.
pub fn idempotency_key(path: &str, bytes: &[u8], commit_seed: &str) -> (key: String)
    ensures
        key@ == write_key(path@, bytes@, commit_seed@),
{
    let end_mark: Vec<u8> = vec![255u8];
    let length = length_bytes(bytes.len() as u64, 8);
    assert(end_mark@ =~= seq![255u8]);
    let mut hasher = DefaultHasher::new();
    hasher.write(commit_seed.as_bytes());
    hasher.write(end_mark.as_slice());
    hasher.write(path.as_bytes());
    hasher.write(end_mark.as_slice());
    hasher.write(length.as_slice());
    hasher.write(bytes);
    assert(hasher@ =~= key_material(path@, bytes@, commit_seed@));
    hex16_text(hasher.finish())
}

/// What the key of a rename is made of.
pub fn rename_completion_key_material(from_path: &str, source_generation: u64, bytes: &[u8]) -> (material:
    Vec<u8>)
    ensures
        material@ == rename_material(from_path@, source_generation, bytes@),
{
    let number = decimal_text(source_generation as u128);
    let mut material = copy_bytes(from_path.as_bytes());
    material.push(0u8);
    append_bytes(&mut material, number.as_str().as_bytes());
    material.push(0u8);
    append_bytes(&mut material, bytes);
    assert(material@ =~= rename_material(from_path@, source_generation, bytes@));
    material
}

} // verus!
