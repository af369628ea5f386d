use tipbot::{
    count_words, decimal_string, escape_markdown, password_long_enough,
    recovery_phrase_length_ok, telegram_wallet_identifier, Command, LoggingErrorHandler, TipUser,
};

#[test]
fn telegram_identifier_is_lowercased() {
    assert_eq!(telegram_wallet_identifier("Alice_Bob"), "tg-alice_bob");
    assert_eq!(telegram_wallet_identifier(""), "tg-");
}

#[test]
fn telegram_user() {
    let user = TipUser::from_telegram(123456789, "CamelCase");
    assert_eq!(user.identifier(), "123456789");
    assert_eq!(user.wallet_identifier(), "tg-camelcase");
}

#[test]
fn discord_user() {
    let user = TipUser::from_discord(80351110224678912);
    assert_eq!(user.identifier(), "80351110224678912");
    assert_eq!(user.wallet_identifier(), "80351110224678912");
}

#[test]
fn decimal_edges() {
    assert_eq!(decimal_string(0), "0");
    assert_eq!(decimal_string(10), "10");
    assert_eq!(decimal_string(u64::MAX), u64::MAX.to_string());
}

#[test]
fn markdown_escaping() {
    assert_eq!(escape_markdown("a.b_c"), "a\\.b\\_c");
    assert_eq!(escape_markdown(""), "");
    assert_eq!(escape_markdown("1.5 SPR é"), "1\\.5 SPR é");
}

#[test]
fn password_length() {
    assert!(!password_long_enough("1234567"));
    assert!(password_long_enough("12345678"));
}

#[test]
fn recovery_phrase_lengths() {
    let twelve = "a b c d e f g h i j k l";
    assert_eq!(count_words(twelve), 12);
    assert!(recovery_phrase_length_ok(twelve));
    assert!(recovery_phrase_length_ok("  a b c d e f g h i j k l\n"));
    assert!(!recovery_phrase_length_ok("a b c"));
    let twenty_four = [twelve, twelve].join(" ");
    assert!(recovery_phrase_length_ok(&twenty_four));
    assert_eq!(count_words(""), 0);
    assert_eq!(count_words("\t one \u{3000}two  "), 2);
}

#[test]
fn error_handler_text() {
    assert_eq!(LoggingErrorHandler::new().text(), "Error");
    assert_eq!(LoggingErrorHandler::with_custom_text("dispatcher").text(), "dispatcher");
}

#[test]
fn commands_compare() {
    let c = Command::Create { password: "secret123".to_string() };
    assert_eq!(c.clone(), c);
    assert_ne!(c, Command::Claim);
}
