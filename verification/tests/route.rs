use routem::route::param_type::{Checker, ParamType};
use routem::route::{Param, Segment};
use routem::Parser;

#[test]
fn test_parse_route() {
    let input = "/user/<id:int>/";
    let expected = vec![
        Segment::Constant("user".to_string()),
        Segment::Param(Param {
            name: "id".to_string(),
            kind: ParamType {
                typename: "int".to_string(),
                check: Checker::Int,
            },
        }),
        Segment::Empty,
    ];
    let name = "user-route";
    let parser = Parser::default();

    let route = parser.route(name, input);
    assert!(route.is_ok(), "{:#?}", route);
    let route = route.unwrap();

    assert_eq!(route.name, name);
    assert_eq!(route.path, expected);
}

#[test]
fn test_parse_empty_route() {
    let input = "/";
    let expected = vec![Segment::Empty];
    let name = "empty-route";
    let parser = Parser::default();

    let route = parser.route(name, input);
    assert!(route.is_ok(), "{:#?}", route);
    let route = route.unwrap();

    assert_eq!(route.name, name);
    assert_eq!(route.path, expected);
}

#[test]
fn test_parse_long_route() {
    let input = "/user/<id:int>/profile/<profile_id:uuid>";
    let expected = vec![
        Segment::Constant("user".to_string()),
        Segment::Param(Param {
            name: "id".to_string(),
            kind: ParamType {
                typename: "int".to_string(),
                check: Checker::Int,
            },
        }),
        Segment::Constant("profile".to_string()),
        Segment::Param(Param {
            name: "profile_id".to_string(),
            kind: ParamType {
                typename: "uuid".to_string(),
                check: Checker::Uuid,
            },
        }),
    ];
    let name = "long-route";
    let parser = Parser::default();

    let route = parser.route(name, input);
    assert!(route.is_ok(), "{:#?}", route);
    let route = route.unwrap();

    assert_eq!(route.name, name);
    assert_eq!(route.path, expected);
}

#[test]
fn test_check_simple_route() {
    let parser = Parser::default();
    let route = parser.route("user-route", "/user/<id:int>/").unwrap();

    println!("{}", route.check("/user/123/"));
    assert!(route.check("/user/123/"));
    assert!(!route.check("/user/123"));
    assert!(!route.check("/user/abc/"));
}
