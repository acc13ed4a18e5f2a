use mi_blockchain::block::Transaction;
use mi_blockchain::command::{
    has_prefix, is_space_char, parse_amount, parse_command, same_text, words_of, Command,
    CommandError,
};
use mi_blockchain::encoding::push_decimal_i64;

fn payment(sender: &str, receiver: &str, amount: i64) -> Transaction {
    Transaction { sender: sender.to_string(), receiver: receiver.to_string(), amount }
}

#[test]
fn white_space_is_what_std_calls_white_space() {
    let mut code: u32 = 0;
    while code <= 0x10ffff {
        if let Some(c) = char::from_u32(code) {
            assert_eq!(is_space_char(c), c.is_whitespace());
        }
        code += 1;
    }
}

#[test]
fn words_are_split_at_white_space() {
    assert_eq!(words_of("add-transaction Alice Bob 50"), vec!["add-transaction", "Alice", "Bob", "50"]);
    assert_eq!(words_of("  mine \n"), vec!["mine"]);
    assert_eq!(words_of("a\tb\u{3000}c\u{a0}d"), vec!["a", "b", "c", "d"]);
    assert_eq!(words_of("é  ü"), vec!["é", "ü"]);
    assert_eq!(words_of("one"), vec!["one"]);
}

#[test]
fn text_without_words() {
    assert!(words_of("").is_empty());
    assert!(words_of(" ").is_empty());
    assert!(words_of(" \t\r\n ").is_empty());
}

#[test]
fn words_agree_with_std_splitting() {
    let samples: Vec<&str> = vec![
        "",
        " ",
        "a",
        " a",
        "a ",
        "a b",
        "  a   b  ",
        "add-transaction Alice Bob 50\n",
        "\u{2003}x\u{2028}y\u{1680}",
        "no-space",
        "tab\tseparated\twords",
    ];
    for sample in samples {
        let expected: Vec<String> = sample.split_whitespace().map(|w| w.to_string()).collect();
        assert_eq!(words_of(sample), expected);
    }
}

#[test]
fn prefixes_and_equal_texts() {
    assert!(has_prefix("add-transaction", "add-transaction"));
    assert!(has_prefix("add-transactions", "add-transaction"));
    assert!(has_prefix("anything", ""));
    assert!(has_prefix("", ""));
    assert!(!has_prefix("add", "add-transaction"));
    assert!(!has_prefix("sub-transaction", "add-transaction"));
    assert!(!has_prefix("", "a"));
    assert!(same_text("mine", "mine"));
    assert!(same_text("", ""));
    assert!(!same_text("mine", "mined"));
    assert!(!same_text("mined", "mine"));
    assert!(!same_text("mine", "Mine"));
}

#[test]
fn amounts_are_signed_decimal_numbers() {
    assert_eq!(parse_amount("50"), Some(50));
    assert_eq!(parse_amount("0"), Some(0));
    assert_eq!(parse_amount("-7"), Some(-7));
    assert_eq!(parse_amount("+7"), Some(7));
    assert_eq!(parse_amount("-0"), Some(0));
    assert_eq!(parse_amount("0000000000000000000000000012"), Some(12));
    assert_eq!(parse_amount("9223372036854775807"), Some(i64::MAX));
    assert_eq!(parse_amount("-9223372036854775808"), Some(i64::MIN));
}

#[test]
fn texts_that_are_no_amount() {
    assert_eq!(parse_amount(""), None);
    assert_eq!(parse_amount("-"), None);
    assert_eq!(parse_amount("+"), None);
    assert_eq!(parse_amount("--5"), None);
    assert_eq!(parse_amount("5-"), None);
    assert_eq!(parse_amount("5a"), None);
    assert_eq!(parse_amount("a5"), None);
    assert_eq!(parse_amount("1.5"), None);
    assert_eq!(parse_amount(" 5"), None);
    assert_eq!(parse_amount("5 "), None);
    assert_eq!(parse_amount("1_000"), None);
    assert_eq!(parse_amount("٣"), None);
    assert_eq!(parse_amount("9223372036854775808"), None);
    assert_eq!(parse_amount("-9223372036854775809"), None);
    assert_eq!(parse_amount("99999999999999999999999999999999999999999"), None);
    assert_eq!(parse_amount("99999999999999999999x"), None);
}

#[test]
fn amounts_agree_with_std_parsing() {
    let samples: Vec<&str> = vec![
        "", "0", "-0", "+0", "1", "-1", "+1", "007", "12345678901234567890", "-12345678901234567890",
        "9223372036854775807", "9223372036854775808", "-9223372036854775808", "-9223372036854775809",
        "+-1", "-+1", "1e3", "0x10", " 1", "1 ", "١", "18446744073709551616",
    ];
    for sample in samples {
        assert_eq!(parse_amount(sample), sample.parse::<i64>().ok());
    }
}

#[test]
fn a_rendered_amount_reads_back() {
    let samples: Vec<i64> = vec![0, 1, -1, 50, -50, 1700000000, i64::MAX, i64::MIN, i64::MIN + 1];
    for sample in samples {
        let mut text = String::new();
        push_decimal_i64(&mut text, sample);
        assert_eq!(parse_amount(&text), Some(sample));
    }
}

#[test]
fn single_word_commands() {
    assert_eq!(parse_command("exit"), Ok(Command::Exit));
    assert_eq!(parse_command("show"), Ok(Command::Show));
    assert_eq!(parse_command("mine"), Ok(Command::Mine));
    assert_eq!(parse_command("  mine \n"), Ok(Command::Mine));
    assert_eq!(parse_command("\texit\r\n"), Ok(Command::Exit));
}

#[test]
fn adding_a_transaction() {
    assert_eq!(
        parse_command("add-transaction Alice Bob 50"),
        Ok(Command::AddTransaction(payment("Alice", "Bob", 50)))
    );
    assert_eq!(
        parse_command("  add-transaction   Alice \t Bob   -50  \n"),
        Ok(Command::AddTransaction(payment("Alice", "Bob", -50)))
    );
    assert_eq!(
        parse_command("add-transactions Zoë 李 +3"),
        Ok(Command::AddTransaction(payment("Zoë", "李", 3)))
    );
}

#[test]
fn adding_a_transaction_with_a_bad_amount() {
    assert_eq!(parse_command("add-transaction Alice Bob fifty"), Err(CommandError::InvalidAmount));
    assert_eq!(parse_command("add-transaction Alice Bob 1.5"), Err(CommandError::InvalidAmount));
    assert_eq!(
        parse_command("add-transaction Alice Bob 9223372036854775808"),
        Err(CommandError::InvalidAmount)
    );
}

#[test]
fn adding_a_transaction_with_the_wrong_number_of_words() {
    assert_eq!(parse_command("add-transaction"), Err(CommandError::WrongWordCount));
    assert_eq!(parse_command("add-transaction Alice Bob"), Err(CommandError::WrongWordCount));
    assert_eq!(parse_command("add-transaction Alice Bob 50 now"), Err(CommandError::WrongWordCount));
    // The count is checked before the amount.
    assert_eq!(parse_command("add-transaction Alice Bob x y"), Err(CommandError::WrongWordCount));
}

#[test]
fn lines_that_name_no_command() {
    assert_eq!(parse_command(""), Err(CommandError::UnknownCommand));
    assert_eq!(parse_command("   "), Err(CommandError::UnknownCommand));
    assert_eq!(parse_command("Mine"), Err(CommandError::UnknownCommand));
    assert_eq!(parse_command("mine now"), Err(CommandError::UnknownCommand));
    assert_eq!(parse_command("exit exit"), Err(CommandError::UnknownCommand));
    assert_eq!(parse_command("shows"), Err(CommandError::UnknownCommand));
    assert_eq!(parse_command("add Alice Bob 50"), Err(CommandError::UnknownCommand));
    assert_eq!(parse_command("please add-transaction Alice Bob 50"), Err(CommandError::UnknownCommand));
}
