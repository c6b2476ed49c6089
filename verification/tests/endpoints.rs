use postal::endpoint::{Endpoint, EndpointError, Parameter, Position};

fn parameter(s: &str) -> (String, Option<String>) {
    let Parameter { name, validator } = Endpoint::split_parameter(s.to_owned());
    (name, validator)
}

fn pair(name: &str, validator: Option<&str>) -> (String, Option<String>) {
    (name.to_owned(), validator.map(|v| v.to_owned()))
}

fn parameters(endpoint: Endpoint) -> Vec<(String, Option<String>)> {
    endpoint.parameters.into_iter().map(|p| (p.name, p.validator)).collect()
}

#[test]
fn parameter_without_validator() {
    assert_eq!(parameter(" to "), pair("to", None));
    assert_eq!(parameter(""), pair("", None));
    assert_eq!(parameter("a-b > c"), pair("a-b > c", None));
}

#[test]
fn parameter_with_validator() {
    assert_eq!(parameter("to -> /bin/check "), pair("to", Some("/bin/check")));
    assert_eq!(parameter("to->"), pair("to", Some("")));
    assert_eq!(parameter("a-->b"), pair("a-", Some("b")));
    assert_eq!(parameter("->->"), pair("", Some("")));
}

#[test]
fn only_the_first_validator_counts() {
    assert_eq!(parameter("a -> b -> c"), pair("a", Some("b")));
}

#[test]
fn a_copy_of_a_parameter_is_the_same() {
    let first = Endpoint::split_parameter("a -> b".to_owned());
    let copy = first.clone();
    assert_eq!((copy.name, copy.validator), (first.name, first.validator));
}

#[test]
fn positions_follow_each_other() {
    let mut position = Position::default();
    assert!(matches!(position, Position::Delimiter));
    position.next();
    assert!(matches!(position, Position::MaxRequestSize));
    position.next();
    assert!(matches!(position, Position::Route));
    position.next();
    assert!(matches!(position, Position::Path));
    position.next();
    assert!(matches!(position, Position::Parameters));
    position.next();
    assert!(matches!(position, Position::Parameters));
}

#[test]
fn default_endpoint() {
    let endpoint = Endpoint::default();
    assert_eq!(endpoint.max_request_size, 1028);
    assert_eq!(endpoint.route, "");
    assert_eq!(endpoint.command, "");
    assert!(endpoint.parameters.is_empty());
}

#[test]
fn description_with_two_parameters() {
    let endpoint = Endpoint::from_string(",1024,/mail,send,to -> check,subject".to_owned());
    assert_eq!(endpoint.max_request_size, 1024);
    assert_eq!(endpoint.route, "/mail");
    assert_eq!(endpoint.command, "send");
    assert_eq!(parameters(endpoint), vec![pair("to", Some("check")), pair("subject", None)]);
}

#[test]
fn the_delimiter_is_free() {
    let commas = Endpoint::from_string(",5,/r,c,a,b".to_owned());
    let pipes = Endpoint::from_string("|5|/r|c|a|b".to_owned());
    assert_eq!(commas.max_request_size, pipes.max_request_size);
    assert_eq!(commas.route, pipes.route);
    assert_eq!(commas.command, pipes.command);
    assert_eq!(parameters(commas), parameters(pipes));
}

#[test]
fn a_single_parameter_needs_a_delimiter_behind_it() {
    assert_eq!(parameters(Endpoint::from_string(",5,/r,c,a".to_owned())), vec![]);
    assert_eq!(
        parameters(Endpoint::from_string(",5,/r,c,a,".to_owned())),
        vec![pair("a", None), pair("", None)]
    );
    assert_eq!(parameters(Endpoint::from_string(",5,/r,c,".to_owned())), vec![]);
}

#[test]
fn short_descriptions() {
    let endpoint = Endpoint::from_string(";+7".to_owned());
    assert_eq!(endpoint.max_request_size, 7);
    assert_eq!(endpoint.route, "");
    assert_eq!(endpoint.command, "");
    let endpoint = Endpoint::from_string(";7;/r".to_owned());
    assert_eq!(endpoint.route, "/r");
    assert_eq!(endpoint.command, "");
}

#[test]
fn texts_that_describe_no_endpoint() {
    assert!(matches!(Endpoint::parse(String::new()), Err(EndpointError::NoDelimiter)));
    for s in [",", ",x,/r,c", ",-1,/r,c", ",,/r", ", 5,/r,c", ",99999999999999999999999,/r,c"] {
        assert!(matches!(
            Endpoint::parse(s.to_owned()),
            Err(EndpointError::MaxRequestSize(_))
        ));
    }
    assert!(Endpoint::parse(",5,/r,c".to_owned()).is_ok());
}

#[test]
fn an_endpoint_reads_back() {
    let written = vec!["20", "/a,b", "do it", " x -> y ", "z", ""].join("#");
    let endpoint = Endpoint::from_string(format!("#{written}"));
    assert_eq!(endpoint.max_request_size, 20);
    assert_eq!(endpoint.route, "/a,b");
    assert_eq!(endpoint.command, "do it");
    assert_eq!(
        parameters(endpoint),
        vec![pair("x", Some("y")), pair("z", None), pair("", None)]
    );
}
