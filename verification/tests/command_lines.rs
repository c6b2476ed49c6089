use postal::arguments::{
    parse_arguments, ArgumentError, CommandLine, Listener, Runtime, Settings, Switch,
};
use postal::arguments::read_argument;
use postal::endpoint::{EncodedEndpoint, EndpointError};

fn parse(args: &[&str]) -> Result<CommandLine, ArgumentError> {
    parse_arguments(args.iter().map(|s| s.to_string()).collect(), true)
}

fn settings(args: &[&str]) -> Settings {
    match parse(args) {
        Ok(CommandLine::Serve(settings)) => settings,
        Ok(CommandLine::Help) => panic!("help"),
        Err(e) => panic!("{e:?}"),
    }
}

fn error(args: &[&str]) -> ArgumentError {
    match parse(args) {
        Err(e) => e,
        Ok(_) => panic!("no error"),
    }
}

#[test]
fn an_empty_command_line() {
    let settings = settings(&[]);
    assert_eq!(settings.ip, "localhost");
    assert_eq!(settings.port, "8080");
    assert_eq!(settings.unix_socket, None);
    assert_eq!(settings.workers, 0);
    assert_eq!(settings.name, None);
    assert!(settings.endpoints.is_empty());
    assert!(matches!(settings.listener(), Listener::Tcp(address) if address == "localhost:8080"));
    assert_eq!(settings.runtime(), Runtime::CurrentThread);
    assert_eq!(settings.prefix(), "postal.");
}

#[test]
fn both_forms_of_every_switch() {
    for (long, short, switch) in [
        ("--help", "-h", Switch::Help),
        ("--ip", "-i", Switch::Ip),
        ("--multipart", "-m", Switch::Multipart),
        ("--name", "-n", Switch::Name),
        ("--port", "-p", Switch::Port),
        ("--unix-socket-file", "-U", Switch::UnixSocketFile),
        ("--urlencoded", "-u", Switch::UrlEncoded),
        ("--workers", "-w", Switch::Workers),
    ] {
        assert_eq!(read_argument(long, true).unwrap(), Some(switch));
        assert_eq!(read_argument(short, true).unwrap(), Some(switch));
    }
}

#[test]
fn every_setting() {
    let settings = settings(&[
        "--ip", "::1", "-p", "80", "-n", "mail.", "--workers", "4", "-u", ",1,/a,x", "--multipart",
        ",2,/b,y",
    ]);
    assert_eq!(settings.ip, "::1");
    assert_eq!(settings.port, "80");
    assert_eq!(settings.prefix(), "mail.");
    assert_eq!(settings.runtime(), Runtime::Threads(4));
    assert!(matches!(settings.listener(), Listener::Tcp(address) if address == "::1:80"));
    assert_eq!(settings.endpoints.len(), 2);
    assert!(matches!(&settings.endpoints[0], EncodedEndpoint::UrlEncoded(e) if e.route == "/a"));
    assert!(matches!(&settings.endpoints[1], EncodedEndpoint::Multipart(e) if e.route == "/b"));
}

#[test]
fn a_unix_socket_comes_before_an_address() {
    let settings = settings(&["-U", "/run/postal", "-i", "127.0.0.1"]);
    assert!(matches!(settings.listener(), Listener::UnixSocket(path) if path == "/run/postal"));
}

#[test]
fn unix_sockets_are_not_everywhere() {
    let args = |s: &str| vec![s.to_owned(), "/run/postal".to_owned()];
    assert!(matches!(
        parse_arguments(args("-U"), false),
        Err(ArgumentError::UnknownShort('U'))
    ));
    assert!(matches!(
        parse_arguments(args("--unix-socket-file"), false),
        Err(ArgumentError::UnknownLong(s)) if s == "unix-socket-file"
    ));
}

#[test]
fn the_last_address_and_the_first_name_count() {
    let settings = settings(&["-i", "a", "-i", "b", "-n", "first", "-n", "--name", "-p", "1"]);
    assert_eq!(settings.ip, "b");
    assert_eq!(settings.name, Some("first".to_owned()));
    assert_eq!(settings.port, "1");
    assert!(matches!(
        error(&["-n", "first", "-n", "second"]),
        ArgumentError::Unknown(s) if s == "second"
    ));
}

#[test]
fn a_value_may_look_like_a_switch() {
    assert_eq!(settings(&["-i", "--help"]).ip, "--help");
}

#[test]
fn help_ends_the_line() {
    assert!(matches!(parse(&["--help", "nonsense"]), Ok(CommandLine::Help)));
    assert!(matches!(parse(&["-i", "a", "-hxyz", "-"]), Ok(CommandLine::Help)));
    assert!(matches!(error(&["nonsense", "--help"]), ArgumentError::Unknown(_)));
}

#[test]
fn a_dash_alone_is_nothing() {
    assert_eq!(settings(&["-", "-p", "5", "-"]).port, "5");
}

#[test]
fn arguments_that_are_none() {
    assert!(matches!(error(&["--nope"]), ArgumentError::UnknownLong(s) if s == "nope"));
    assert!(matches!(error(&["--"]), ArgumentError::UnknownLong(s) if s.is_empty()));
    assert!(matches!(error(&["-x"]), ArgumentError::UnknownShort('x')));
    assert!(matches!(error(&["file"]), ArgumentError::Unknown(s) if s == "file"));
    assert!(matches!(error(&[""]), ArgumentError::Unknown(s) if s.is_empty()));
    assert!(matches!(error(&["-ip", "x"]), ArgumentError::NotAlone));
    assert!(matches!(error(&["-ih"]), ArgumentError::NotAlone));
    assert!(matches!(error(&["--port"]), ArgumentError::NoValue));
    assert!(matches!(error(&["-w", "many"]), ArgumentError::Workers(_)));
    assert!(matches!(error(&["-w", "99999999999999999999999"]), ArgumentError::Workers(_)));
    assert!(matches!(error(&["-u", ""]), ArgumentError::Endpoint(EndpointError::NoDelimiter)));
    assert!(matches!(
        error(&["-m", ",x"]),
        ArgumentError::Endpoint(EndpointError::MaxRequestSize(_))
    ));
}
