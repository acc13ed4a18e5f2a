use mi_blockchain::canonical::{digest_text, preimage_text, push_transaction_json, transactions_to_json};
use mi_blockchain::block::Transaction;
use mi_blockchain::encoding::{push_decimal_i64, push_decimal_u64, starts_with_zeros, to_hex};

fn decimal_u64(n: u64) -> String {
    let mut out = String::new();
    push_decimal_u64(&mut out, n);
    out
}

fn decimal_i64(i: i64) -> String {
    let mut out = String::new();
    push_decimal_i64(&mut out, i);
    out
}

#[test]
fn decimal_of_unsigned_numbers() {
    assert_eq!(decimal_u64(0), "0");
    assert_eq!(decimal_u64(7), "7");
    assert_eq!(decimal_u64(10), "10");
    assert_eq!(decimal_u64(1700000000), "1700000000");
    assert_eq!(decimal_u64(u64::MAX), "18446744073709551615");
}

#[test]
fn decimal_of_signed_numbers() {
    assert_eq!(decimal_i64(0), "0");
    assert_eq!(decimal_i64(50), "50");
    assert_eq!(decimal_i64(-1), "-1");
    assert_eq!(decimal_i64(-907), "-907");
    assert_eq!(decimal_i64(i64::MAX), "9223372036854775807");
    assert_eq!(decimal_i64(i64::MIN), "-9223372036854775808");
}

#[test]
fn decimal_agrees_with_std_formatting() {
    let samples: Vec<i64> = vec![0, 1, -1, 9, 10, 99, 100, -100, 123456789, -987654321, i64::MAX, i64::MIN];
    for sample in samples {
        assert_eq!(decimal_i64(sample), format!("{}", sample));
    }
}

#[test]
fn decimal_is_appended_to_what_is_there() {
    let mut out = "n=".to_string();
    push_decimal_u64(&mut out, 42);
    push_decimal_i64(&mut out, -3);
    assert_eq!(out, "n=42-3");
}

#[test]
fn hex_of_bytes() {
    assert_eq!(to_hex(&[]), "");
    assert_eq!(to_hex(&[0x00]), "00");
    assert_eq!(to_hex(&[0x0f, 0xf0]), "0ff0");
    assert_eq!(to_hex(&[0x00, 0xff, 0x1a, 0x9c]), "00ff1a9c");
    assert_eq!(to_hex(&[0x01, 0x23, 0x45, 0x67, 0x89, 0xab, 0xcd, 0xef]), "0123456789abcdef");
}

#[test]
fn hex_of_every_byte_agrees_with_std_formatting() {
    let mut byte: u16 = 0;
    while byte < 256 {
        assert_eq!(to_hex(&[byte as u8]), format!("{:02x}", byte));
        byte += 1;
    }
}

#[test]
fn leading_zeros_are_counted_from_the_start() {
    assert!(starts_with_zeros("00ab", 0));
    assert!(starts_with_zeros("00ab", 1));
    assert!(starts_with_zeros("00ab", 2));
    assert!(!starts_with_zeros("00ab", 3));
    assert!(!starts_with_zeros("a00", 1));
    assert!(starts_with_zeros("0000", 4));
}

#[test]
fn leading_zeros_beyond_the_text_are_not_found() {
    assert!(starts_with_zeros("", 0));
    assert!(!starts_with_zeros("", 1));
    assert!(!starts_with_zeros("000", 4));
    assert!(!starts_with_zeros("000", usize::MAX));
}

#[test]
fn leading_zeros_in_text_that_is_not_ascii() {
    assert!(starts_with_zeros("0é0", 1));
    assert!(!starts_with_zeros("0é0", 2));
    assert!(!starts_with_zeros("é00", 1));
    assert!(starts_with_zeros("00é", 2));
    assert!(!starts_with_zeros("00é", 3));
}

#[test]
fn digest_of_known_texts() {
    assert_eq!(
        digest_text("abc"),
        "ba7816bf8f01cfea414140de5dae2223b00361a396177a9cb410ff61f20015ad"
    );
    assert_eq!(
        digest_text(""),
        "e3b0c44298fc1c149afbf4c8996fb92427ae41e4649b934ca495991b7852b855"
    );
}

#[test]
fn transactions_as_json() {
    assert_eq!(transactions_to_json(&Vec::new()), "[]");
    let one = vec![Transaction { sender: "Alice".to_string(), receiver: "Bob".to_string(), amount: 50 }];
    assert_eq!(transactions_to_json(&one), "[{\"sender\":\"Alice\",\"receiver\":\"Bob\",\"amount\":50}]");
    let two = vec![
        Transaction { sender: "Alice".to_string(), receiver: "Bob".to_string(), amount: 50 },
        Transaction { sender: "Bob".to_string(), receiver: "Carol".to_string(), amount: -20 },
    ];
    assert_eq!(
        transactions_to_json(&two),
        "[{\"sender\":\"Alice\",\"receiver\":\"Bob\",\"amount\":50},{\"sender\":\"Bob\",\"receiver\":\"Carol\",\"amount\":-20}]"
    );
}

#[test]
fn names_are_written_as_json_strings() {
    let awkward = vec![
        Transaction { sender: "A\"l\nice".to_string(), receiver: "Bö\\\u{1}".to_string(), amount: -7 },
        Transaction { sender: String::new(), receiver: "\t".to_string(), amount: 0 },
    ];
    assert_eq!(
        transactions_to_json(&awkward),
        "[{\"sender\":\"A\\\"l\\nice\",\"receiver\":\"Bö\\\\\\u0001\",\"amount\":-7},{\"sender\":\"\",\"receiver\":\"\\t\",\"amount\":0}]"
    );
}

#[test]
fn one_transaction_is_appended_as_an_object() {
    let mut out = "x".to_string();
    let payment = Transaction { sender: "Alice".to_string(), receiver: "Bob".to_string(), amount: 50 };
    push_transaction_json(&mut out, &payment);
    assert_eq!(out, "x{\"sender\":\"Alice\",\"receiver\":\"Bob\",\"amount\":50}");
}

#[test]
fn preimage_joins_the_four_parts() {
    let one = vec![Transaction { sender: "Alice".to_string(), receiver: "Bob".to_string(), amount: 50 }];
    assert_eq!(
        preimage_text(1700000000, &one, "0", 7),
        "1700000000[{\"sender\":\"Alice\",\"receiver\":\"Bob\",\"amount\":50}]07"
    );
    assert_eq!(preimage_text(0, &Vec::new(), "0", 0), "0[]00");
    assert_eq!(preimage_text(-12, &Vec::new(), "", u64::MAX), "-12[]18446744073709551615");
}

#[test]
fn preimage_is_hashed_as_utf8() {
    let awkward = vec![
        Transaction { sender: "A\"l\nice".to_string(), receiver: "Bö\\\u{1}".to_string(), amount: -7 },
        Transaction { sender: String::new(), receiver: "\t".to_string(), amount: 0 },
    ];
    let text = preimage_text(5, &awkward, "hé", u64::MAX);
    assert_eq!(
        digest_text(&text),
        "246820c4d92e3b343afa29cbc478df50219e0387494674cecbbe74ca28ac8b39"
    );
}
