use routem::route::param_type::{Checker, ParamType};
use routem::route::parse::urlsafe_str;
use routem::route::{Param, Segment};
use routem::Parser;

#[test]
fn test_urlsafe_str() {
    let input = "abc123-_";
    let expected = "abc123-_";

    let (input, output) = urlsafe_str(input).unwrap();
    assert_eq!(input, "");
    assert_eq!(output, expected);
}

#[test]
fn test_segment() {
    let input = "<id:int>";
    let expected = Segment::Param(Param {
        name: "id".to_string(),
        kind: ParamType {
            typename: "int".to_string(),
            check: Checker::Int,
        },
    });

    let parser = Parser::default();

    let (input, output) = parser.segment(input).unwrap();
    assert_eq!(input, "");
    assert_eq!(output, expected);
}

#[test]
fn test_parse_custom_type() {
    let input = "<arg:custom_type>";
    let custom_type = ParamType {
        typename: "custom_type".to_string(),
        check: Checker::Any,
    };
    let expected = Segment::Param(Param {
        name: "arg".to_string(),
        kind: custom_type.clone(),
    });

    let mut parser = Parser::default();
    parser.add_param_type(custom_type);

    let (input, output) = parser.segment(input).unwrap();
    assert_eq!(input, "");
    assert_eq!(output, expected);
}
