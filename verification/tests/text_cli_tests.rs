use coil::cli::{ArgsError, CommandSwitch};
use coil::message::MessageAddress;
use coil::text::{render_address, render_delivery, u64_to_dec};

#[test]
fn decimal_rendering_is_exact() {
    assert_eq!(u64_to_dec(0), "0");
    assert_eq!(u64_to_dec(7), "7");
    assert_eq!(u64_to_dec(10), "10");
    assert_eq!(u64_to_dec(1234567890), "1234567890");
    assert_eq!(u64_to_dec(u64::MAX), "18446744073709551615");
}

#[test]
fn delivery_line_has_the_documented_shape() {
    let addr = MessageAddress {
        digest: 42,
        author: 5,
        nonce: 1,
    };
    assert_eq!(render_address(&addr), "42-5-1");
    let line = render_delivery(5, &"hi".to_string(), &addr);
    assert_eq!(line, "[5] said: \"hi\" (message id: 42-5-1)");
}

#[test]
fn mode_words_parse_in_any_case() {
    let r = CommandSwitch::parse_from_args(vec![
        "prog".to_string(),
        "DIAL".to_string(),
        "127.0.0.1:19880".to_string(),
    ]);
    match r {
        Ok(CommandSwitch::Dial(a)) => assert_eq!(a, "127.0.0.1:19880"),
        other => panic!("unexpected result: {other:?}"),
    }
    let r = CommandSwitch::parse_from_args(vec![
        "prog".to_string(),
        "Listen".to_string(),
        "127.0.0.1:0".to_string(),
    ]);
    match r {
        Ok(CommandSwitch::Listen(a)) => assert_eq!(a, "127.0.0.1:0"),
        other => panic!("unexpected result: {other:?}"),
    }
}

#[test]
fn wrong_argument_counts_are_refused() {
    let r = CommandSwitch::parse_from_args(vec!["prog".to_string()]);
    assert!(matches!(r, Err(ArgsError::WrongCount)));
    let r = CommandSwitch::parse_from_args(vec![
        "prog".to_string(),
        "dial".to_string(),
        "addr".to_string(),
        "extra".to_string(),
    ]);
    assert!(matches!(r, Err(ArgsError::WrongCount)));
    assert_eq!(
        ArgsError::WrongCount.describe(),
        "missing or invalid number of arguments"
    );
}

#[test]
fn unknown_modes_are_refused() {
    let r = CommandSwitch::parse_from_args(vec![
        "prog".to_string(),
        "serve".to_string(),
        "addr".to_string(),
    ]);
    assert!(matches!(r, Err(ArgsError::UnknownMode)));
    assert_eq!(ArgsError::UnknownMode.describe(), "invalid or unsupported mode");
}
