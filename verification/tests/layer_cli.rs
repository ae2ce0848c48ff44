use halley::layer_cli::{
    contains_help_flag, parse_layer_handle, parse_layer_request, parse_output_option, parse_u64,
    HelpTopic, LayerRequest, ParseOutcome, Request,
};

fn args(words: &[&str]) -> Vec<String> {
    words.iter().map(|w| w.to_string()).collect()
}

#[test]
fn layer_without_command_or_with_help_shows_help() {
    for a in [args(&[]), args(&["-h"]), args(&["--help"])] {
        match parse_layer_request(&a) {
            Ok(ParseOutcome::Help(HelpTopic::Layer)) => {}
            other => panic!("unexpected {other:?}"),
        }
    }
}

#[test]
fn layer_list_reads_output_option() {
    match parse_layer_request(&args(&["list"])) {
        Ok(ParseOutcome::Request(Request::Layer(LayerRequest::List { output: None }))) => {}
        other => panic!("unexpected {other:?}"),
    }
    match parse_layer_request(&args(&["list", "--output", "DP-1"])) {
        Ok(ParseOutcome::Request(Request::Layer(LayerRequest::List { output: Some(o) }))) => {
            assert_eq!(o, "DP-1")
        }
        other => panic!("unexpected {other:?}"),
    }
    match parse_layer_request(&args(&["list", "--help"])) {
        Ok(ParseOutcome::Help(HelpTopic::LayerList)) => {}
        other => panic!("unexpected {other:?}"),
    }
}

#[test]
fn layer_promote_and_demote_take_a_handle() {
    match parse_layer_request(&args(&["promote", "42"])) {
        Ok(ParseOutcome::Request(Request::Layer(LayerRequest::Promote { handle: 42 }))) => {}
        other => panic!("unexpected {other:?}"),
    }
    match parse_layer_request(&args(&["demote", "+7"])) {
        Ok(ParseOutcome::Request(Request::Layer(LayerRequest::Demote { handle: 7 }))) => {}
        other => panic!("unexpected {other:?}"),
    }
    match parse_layer_request(&args(&["demote", "-h"])) {
        Ok(ParseOutcome::Help(HelpTopic::LayerDemote)) => {}
        other => panic!("unexpected {other:?}"),
    }
}

#[test]
fn layer_errors_name_the_problem() {
    let e = parse_layer_request(&args(&["frobnicate"])).unwrap_err();
    assert_eq!(e.message, "unknown layer command: frobnicate");
    assert_eq!(e.topic, HelpTopic::Layer);
    let e = parse_layer_handle(&args(&[])).unwrap_err();
    assert_eq!(e.message, "missing HANDLE argument");
    let e = parse_layer_request(&args(&["promote", "abc"])).unwrap_err();
    assert_eq!(e.message, "invalid HANDLE: abc (expected a number from `layer list`)");
    assert_eq!(e.topic, HelpTopic::Layer);
    let e = parse_output_option(&args(&["--output"]), HelpTopic::LayerList).unwrap_err();
    assert_eq!(e.message, "missing value for --output");
    let e = parse_layer_request(&args(&["list", "extra"])).unwrap_err();
    assert_eq!(e.message, "unexpected argument: extra");
    assert_eq!(e.topic, HelpTopic::LayerList);
}

#[test]
fn decimal_parsing_matches_std() {
    for s in ["0", "42", "+42", "18446744073709551615", "18446744073709551616", "", "+", "-1", "4a", " 4", "007"] {
        assert_eq!(parse_u64(&s.to_string()), s.parse::<u64>().ok(), "for {s:?}");
    }
}

#[test]
fn help_flag_anywhere() {
    assert!(contains_help_flag(&args(&["1", "--help"])));
    assert!(!contains_help_flag(&args(&["1", "--helpme"])));
}
