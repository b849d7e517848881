use routem::route::param_type::{check_int, check_str, check_uuid, Checker, ParamType};
use routem::route::parse::ParseError;
use routem::route::Segment;
use routem::{Parser, Routes};

#[test]
fn int_route_scenario() {
    let parser = Parser::default();
    let route = parser.route("user", "/user/<id:int>/").unwrap();

    assert!(route.check("/user/123/"));
    assert_eq!(route.parse_params("/user/123/"), Some(vec!["123".to_string()]));
    assert!(!route.check("/user/123"));
    assert_eq!(route.parse_params("/user/123"), None);
    assert!(!route.check("/user/abc/"));
    assert_eq!(route.parse_params("/user/abc/"), None);
}

#[test]
fn uuid_route_scenario() {
    let parser = Parser::default();
    let route = parser.route("club", "/club/<id:uuid>/").unwrap();

    assert!(!route.check("/club//"));
    assert!(!route.check("/club/abc/"));
    assert!(!route.check("/club/123/"));
    assert!(route.check("/club/36be8705-6c31-45d7-9321-d56cc07b50d9/"));
    assert_eq!(
        route.parse_params("/club/36be8705-6c31-45d7-9321-d56cc07b50d9/"),
        Some(vec!["36be8705-6c31-45d7-9321-d56cc07b50d9".to_string()])
    );
}

#[test]
fn untyped_param_is_string_scenario() {
    let parser = Parser::default();
    let route = parser.route("game", "/game/<slug>/").unwrap();

    assert!(route.check("/game/123/"));
    assert!(route.check("/game//"));
    assert!(route.check("/game/abc/"));
    assert!(!route.check("/game/123"));
}

#[test]
fn root_route_scenario() {
    let parser = Parser::default();
    let route = parser.route("root", "/").unwrap();

    assert_eq!(route.path, vec![Segment::Empty]);
    assert!(route.check("/"));
    assert!(!route.check("/x"));
    assert!(!route.check("//"));
}

#[test]
fn fill_long_route_scenario() {
    let parser = Parser::default();
    let route = parser
        .route("long", "/user/<id:int>/profile/<profile_id:uuid>")
        .unwrap();

    let params = vec!["123".to_string(), "abc".to_string()];
    assert_eq!(route.fill(&params), Some("/user/123/profile/abc".to_string()));

    let too_few = vec!["123".to_string()];
    assert_eq!(route.fill(&too_few), None);

    let too_many = vec!["1".to_string(), "2".to_string(), "3".to_string()];
    assert_eq!(route.fill(&too_many), None);
}

#[test]
fn first_match_scenario() {
    let parser = Parser::default();
    let user = parser.route("user-by-id", "/user/<id:int>/").unwrap();
    let club = parser.route("club-by-id", "/club/<id:uuid>/").unwrap();
    let game = parser.route("game", "/game/<slug>/").unwrap();

    let mut routes = Routes::new();
    routes.add(user);
    routes.add(club);
    routes.add(game.clone());

    assert_eq!(routes.find("/game/123/"), Some(&game));
}

#[test]
fn fill_arity() {
    let parser = Parser::default();

    let root = parser.route("root", "/").unwrap();
    assert_eq!(root.fill(&[]), Some("/".to_string()));
    assert_eq!(root.fill(&["x".to_string()]), None);

    let user = parser.route("user", "/user/<id:int>/").unwrap();
    assert_eq!(user.fill(&[]), None);
    assert_eq!(
        user.fill(&["1".to_string(), "2".to_string()]),
        None
    );
    // fill substitutes verbatim: values are not validated against the type
    assert_eq!(user.fill(&["abc".to_string()]), Some("/user/abc/".to_string()));
}

#[test]
fn round_trip() {
    let parser = Parser::default();
    let route = parser.route("pair", "/<a:int>/<b:string>").unwrap();

    let values = vec!["123".to_string(), "xyz".to_string()];
    let filled = route.fill(&values).unwrap();
    assert_eq!(filled, "/123/xyz");
    assert_eq!(route.parse_params(&filled), Some(values));
}

#[test]
fn match_extract_consistency() {
    let parser = Parser::default();
    let route = parser.route("user", "/user/<id:int>/").unwrap();

    for path in ["/user/123/", "/user/abc/", "/user/123", "/", "/user//"] {
        assert_eq!(route.check(path), route.parse_params(path).is_some());
    }

    let constant_only = parser.route("about", "/about/").unwrap();
    assert_eq!(constant_only.parse_params("/about/"), Some(vec![]));
}

#[test]
fn int_type_gate() {
    assert!(check_int("123"));
    assert!(check_int("-5"));
    assert!(check_int("007"));
    assert!(check_int("9223372036854775807"));
    assert!(check_int("-9223372036854775808"));
    assert!(!check_int("9223372036854775808"));
    assert!(!check_int("-9223372036854775809"));
    assert!(!check_int("99999999999999999999999"));
    assert!(!check_int("+5"));
    assert!(!check_int(""));
    assert!(!check_int("-"));
    assert!(!check_int("12a"));
    assert!(!check_int("1 2"));
    assert!(check_str(""));
    assert!(check_str("anything at all"));
}

#[test]
fn uuid_type_gate() {
    assert!(check_uuid("36be8705-6c31-45d7-9321-d56cc07b50d9"));
    assert!(check_uuid("36be87056c3145d79321d56cc07b50d9"));
    assert!(check_uuid("urn:uuid:36be8705-6c31-45d7-9321-d56cc07b50d9"));
    assert!(!check_uuid("36be8705-6c31-45d7-9321"));
    assert!(!check_uuid("not-a-uuid"));
    assert!(!check_uuid(""));
}

#[test]
fn unknown_type_fails_parse() {
    let parser = Parser::default();
    let result = parser.route("x", "/x/<id:not_a_type>/");
    match result {
        Err(ParseError::Other(msg)) => {
            assert_eq!(msg, "unknown parameter type: not_a_type");
        }
        other => panic!("expected an unknown-type error, got {:#?}", other),
    }
}

#[test]
fn template_must_start_with_slash() {
    let parser = Parser::default();
    for template in ["", "user/", "x"] {
        match parser.route("r", template) {
            Err(ParseError::Other(msg)) => {
                assert_eq!(msg, "route must start with '/'");
            }
            other => panic!("expected a rejected template, got {:#?}", other),
        }
    }
}

#[test]
fn trailing_input_is_reported() {
    let parser = Parser::default();
    match parser.route("r", "/ab<x") {
        Err(ParseError::ExtraInput {
            segments,
            remainder,
        }) => {
            assert_eq!(segments, vec![Segment::Constant("ab".to_string())]);
            assert_eq!(remainder, "<x");
        }
        other => panic!("expected trailing input, got {:#?}", other),
    }

    match parser.route("r", "/x/<id") {
        Err(ParseError::ExtraInput {
            segments,
            remainder,
        }) => {
            assert_eq!(
                segments,
                vec![Segment::Constant("x".to_string()), Segment::Empty]
            );
            assert_eq!(remainder, "<id");
        }
        other => panic!("expected trailing input, got {:#?}", other),
    }
}

#[test]
fn later_registration_wins() {
    let mut parser = Parser::default();
    parser.add_param_type(ParamType {
        typename: "int".to_string(),
        check: Checker::Any,
    });
    let route = parser.route("loose", "/a/<x:int>/").unwrap();
    assert!(route.check("/a/abc/"));

    let strict = Parser::default().route("strict", "/a/<x:int>/").unwrap();
    assert!(!strict.check("/a/abc/"));
}

#[test]
fn custom_registry() {
    let empty = Parser::new(Vec::new());
    match empty.route("r", "/a/<x:int>/") {
        Err(ParseError::Other(msg)) => {
            assert_eq!(msg, "unknown parameter type: int");
        }
        other => panic!("expected an unknown-type error, got {:#?}", other),
    }
    // the untyped shorthand resolves `string` in the registry too
    match empty.route("r", "/a/<slug>/") {
        Err(ParseError::Other(msg)) => {
            assert_eq!(msg, "unknown parameter type: string");
        }
        other => panic!("expected an unknown-type error, got {:#?}", other),
    }

    let custom = Parser::new(vec![ParamType {
        typename: "digits".to_string(),
        check: Checker::Int,
    }]);
    let route = custom.route("r", "/n/<x:digits>/").unwrap();
    assert!(route.check("/n/42/"));
    assert!(!route.check("/n/x/"));
}
