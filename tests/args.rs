use storm_server::args::{ArgKind, ArgsParser};

#[test]
fn parse_args_should_return_filename() {
    let args = ["", "-f", "lb.conf"]
        .iter()
        .map(|s| s.to_string())
        .collect::<Vec<String>>();

    let mut parser = ArgsParser::new();
    parser.add(ArgKind::Value(String::from("-f")));

    let result = parser.parse(&args);

    assert!(result.is_ok());
}

#[test]
fn parse_args_should_return_error() {
    let args = ["", "-d", "lb.conf"]
        .iter()
        .map(|s| s.to_string())
        .collect::<Vec<String>>();

    let mut parser = ArgsParser::new();
    parser.add(ArgKind::Value(String::from("-f")));

    let result = parser.parse(&args);

    assert!(result.is_err());
}

#[test]
fn parse_args_stores_values_and_skips_flags() {
    let args = ["prog", "-v", "-f", "a.conf", "-f", "b.conf", "-p"]
        .iter()
        .map(|s| s.to_string())
        .collect::<Vec<String>>();
    let mut parser = ArgsParser::new();
    parser.add(ArgKind::Value(String::from("-f")));
    parser.add(ArgKind::Flag(String::from("-v")));
    parser.add(ArgKind::Value(String::from("-p")));
    let result = parser.parse(&args).unwrap();
    assert_eq!(result, vec![(String::from("-f"), String::from("b.conf"))]);
}

#[test]
fn parse_args_error_names_the_argument() {
    let args = ["prog", "-x"].iter().map(|s| s.to_string()).collect::<Vec<String>>();
    let mut parser = ArgsParser::new();
    parser.add(ArgKind::Value(String::from("-f")));
    let err = parser.parse(&args).unwrap_err();
    assert_eq!(err.message(), "Unknown argument '-x'");
}
