//! Commit seeds, idempotency keys and numbers as text.

use std::collections::hash_map::DefaultHasher;
use std::hash::{Hash, Hasher};

use eventfs::keys::{commit_seed, following_id, idempotency_key, rename_completion_key_material};
use eventfs::numbers::{decimal_text, hex16_text, hex_char, read_number, signed_text};

fn hashed(path: &str, bytes: &[u8], seed: &str) -> String {
    let mut hasher = DefaultHasher::new();
    seed.hash(&mut hasher);
    path.hash(&mut hasher);
    bytes.hash(&mut hasher);
    format!("{:016x}", hasher.finish())
}

#[test]
fn commit_seeds_name_the_mount_its_run_and_the_commit() {
    assert_eq!(commit_seed("eventfs", 17, 3), "eventfs:17:3");
    assert_eq!(
        commit_seed("", u128::MAX, u64::MAX),
        ":340282366920938463463374607431768211455:18446744073709551615"
    );
}

#[test]
fn commit_seeds_of_one_mount_differ() {
    assert_ne!(commit_seed("eventfs", 17, 1), commit_seed("eventfs", 17, 11));
    assert_ne!(commit_seed("eventfs", 17, 1), commit_seed("eventfs", 171, 1));
}

#[test]
fn commit_numbers_stop_at_the_last_one() {
    assert_eq!(following_id(0), 1);
    assert_eq!(following_id(41), 42);
    assert_eq!(following_id(u64::MAX), u64::MAX);
}

#[test]
fn idempotency_keys_are_hashes_of_seed_path_and_bytes() {
    for (path, bytes, seed) in [
        ("/kv/demo/file.json", &b"{}"[..], "eventfs:1:1"),
        ("/objects/assets/a", &b""[..], ""),
        ("/kv/demo/\u{fc}.json", &[0u8, 255, 7][..], "m:340282366920938463463:9"),
        ("/events/system.jsonl", &[b'x'; 300][..], "seed"),
    ] {
        let key = idempotency_key(path, bytes, seed);
        assert_eq!(key, hashed(path, bytes, seed));
        assert_eq!(key.len(), 16);
    }
}

#[test]
fn idempotency_keys_depend_on_every_part() {
    let key = idempotency_key("/kv/demo/a", b"one", "seed");
    assert_eq!(key, idempotency_key("/kv/demo/a", b"one", "seed"));
    assert_ne!(key, idempotency_key("/kv/demo/b", b"one", "seed"));
    assert_ne!(key, idempotency_key("/kv/demo/a", b"two", "seed"));
    assert_ne!(key, idempotency_key("/kv/demo/a", b"one", "other"));
}

#[test]
fn rename_keys_are_made_of_source_generation_and_content() {
    assert_eq!(
        rename_completion_key_material("/kv/demo/a", 12, b"value"),
        b"/kv/demo/a\x0012\x00value".to_vec()
    );
    assert_eq!(
        rename_completion_key_material("", 0, b""),
        b"\x000\x00".to_vec()
    );
}

#[test]
fn numbers_are_written_in_decimal() {
    for value in [0u128, 7, 10, 99, 100, u64::MAX as u128, u128::MAX] {
        assert_eq!(decimal_text(value), value.to_string());
    }
    for value in [0i32, 1, -1, 95, -4096, i32::MAX, i32::MIN] {
        assert_eq!(signed_text(value), value.to_string());
    }
}

#[test]
fn numbers_are_read_as_the_standard_library_reads_them() {
    for text in [
        "0", "7", "007", "42", "+5", "-1", "", "+", " 1", "1 ", "18446744073709551615",
        "18446744073709551616", "99999999999999999999", "1a", "\u{661}",
    ] {
        assert_eq!(read_number(text), text.parse::<u64>().ok(), "{text:?}");
    }
}

#[test]
fn numbers_are_written_with_sixteen_hexadecimal_digits() {
    for value in [0u64, 1, 15, 255, 0xcbf2_9ce4_8422_2325, u64::MAX] {
        assert_eq!(hex16_text(value), format!("{value:016x}"));
    }
    for value in 0u8..16 {
        assert_eq!(hex_char(value), std::char::from_digit(value as u32, 16).unwrap());
    }
}
