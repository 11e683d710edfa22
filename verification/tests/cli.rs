use senzai::cli::{config_from_opts, parse_cli, parse_interval, CliError};

fn args(list: &[&str]) -> Vec<String> {
    list.iter().map(|s| s.to_string()).collect()
}

#[test]
fn missing_interval_argument() {
    let r = parse_cli(&args(&["-u", "http://example.com"]));
    match r {
        Err(e) => {
            assert!(matches!(e, CliError::MissingInterval));
            assert_eq!(e.message(), "error: missing interval argument");
        }
        Ok(_) => panic!("a command line without -t must be rejected"),
    }
}

#[test]
fn missing_url_argument() {
    let r = parse_cli(&args(&["-t", "3"]));
    match r {
        Err(e) => {
            assert!(matches!(e, CliError::MissingUrl));
            assert_eq!(e.message(), "error: missing url argument");
        }
        Ok(_) => panic!("a command line without -u must be rejected"),
    }
}

#[test]
fn both_arguments_build_the_config() {
    let r = parse_cli(&args(&["-t", "3", "-u", "http://example.com"]));
    match r {
        Ok(c) => {
            assert_eq!(c.interval_count, 3);
            assert_eq!(c.url, "http://example.com");
        }
        Err(_) => panic!("a complete command line must be accepted"),
    }
}

#[test]
fn interval_must_be_a_number() {
    let r = parse_cli(&args(&["-t", "soon", "-u", "http://example.com"]));
    match r {
        Err(e) => {
            assert!(matches!(e, CliError::BadInterval));
            assert_eq!(e.message(), "error: invalid interval argument");
        }
        Ok(_) => panic!("a non-numeric interval must be rejected"),
    }
}

#[test]
fn interval_must_be_positive() {
    let r = parse_cli(&args(&["-t", "0", "-u", "http://example.com"]));
    assert!(matches!(r, Err(CliError::BadInterval)));
}

#[test]
fn unrecognized_option_is_reported() {
    let r = parse_cli(&args(&["-x", "http://example.com"]));
    match r {
        Err(CliError::BadOptions(msg)) => {
            assert_eq!(msg, "Unrecognized option: 'x'");
        }
        _ => panic!("an unknown option must fail option parsing"),
    }
}

#[test]
fn interval_option_without_value_is_reported() {
    let r = parse_cli(&args(&["-t"]));
    match r {
        Err(CliError::BadOptions(msg)) => {
            assert_eq!(msg, "Argument to option 't' missing");
        }
        _ => panic!("an option without its argument must fail option parsing"),
    }
}

#[test]
fn bad_options_error_line() {
    let e = CliError::BadOptions("Unrecognized option: 'x'".to_string());
    assert_eq!(e.message(), "error: Unrecognized option: 'x'");
}

#[test]
fn parse_interval_accepts_plain_counts() {
    assert_eq!(parse_interval("1"), Some(1));
    assert_eq!(parse_interval("3"), Some(3));
    assert_eq!(parse_interval("60"), Some(60));
    assert_eq!(parse_interval("4294967295"), Some(u32::MAX));
    assert_eq!(parse_interval("007"), Some(7));
}

#[test]
fn parse_interval_rejects_everything_else() {
    assert_eq!(parse_interval(""), None);
    assert_eq!(parse_interval("0"), None);
    assert_eq!(parse_interval("-3"), None);
    assert_eq!(parse_interval("+3"), None);
    assert_eq!(parse_interval("3s"), None);
    assert_eq!(parse_interval(" 3"), None);
    assert_eq!(parse_interval("4294967296"), None);
    assert_eq!(parse_interval("18446744073709551616"), None);
    assert_eq!(parse_interval("trois"), None);
}

#[test]
fn config_decisions_follow_the_argument_order() {
    assert!(matches!(config_from_opts(None, None), Err(CliError::MissingInterval)));
    assert!(matches!(
        config_from_opts(None, Some("http://example.com".to_string())),
        Err(CliError::MissingInterval)
    ));
    assert!(matches!(
        config_from_opts(Some("3".to_string()), None),
        Err(CliError::MissingUrl)
    ));
    let c = config_from_opts(
        Some("4".to_string()),
        Some("http://example.com".to_string()),
    )
    .ok()
    .expect("both arguments present");
    assert_eq!(c.interval_count, 4);
    assert_eq!(c.url, "http://example.com");
}
