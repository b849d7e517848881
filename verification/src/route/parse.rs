//! The pattern parser: turns a template string such as `/user/<id:int>/` into
//! a sequence of segments, resolving parameter type names in a registry.
//!
//! Grammar, with `urlsafe` being ASCII alphanumerics, `-` and `_`:
//!
//! ```text
//! pattern      := "/" segment ("/" segment)*
//! segment      := param | constant | empty
//! param        := "<" identifier (":" typename)? ">"
//! constant     := urlsafe+
//! identifier   := alpha urlsafe*
//! typename     := urlsafe+
//! ```
//!
//! A placeholder without a type name, such as `<slug>`, stands for the
//! `string` type. A segment is attempted as a parameter first, then as a
//! constant, then as
//! the empty segment; a failed alternative consumes nothing. Parsing stops at
//! the first position no alternative can consume further, and reports the
//! segments read so far together with the unconsumed remainder. A parameter
//! whose type name is not registered is its own error.
use vstd::prelude::*;

use crate::route::param_type::{ParamType, SpecParamType};
use crate::route::text::{is_alpha_char, is_urlsafe_char, urlsafe_len};
use crate::route::{Param, Route, Segment, SpecSegment};

verus! {

/// A route parser: the registry of parameter types it resolves `<name:type>`
/// placeholders against.
#[derive(Clone, Debug)]
pub struct Parser {
    param_types: Vec<ParamType>,
}

/// How a template fails to parse: either a valid prefix was consumed and
/// input remains, or the template is rejected outright with a diagnostic
/// message — it does not begin with `/`, or a parameter names an unregistered
/// type.
#[derive(Clone, Debug, PartialEq)]
pub enum ParseError {
    ExtraInput { segments: Vec<Segment>, remainder: String },
    Other(String),
}

/// The registry entry a type name resolves to: the latest entry with that
/// name wins.
pub open spec fn lookup_spec(reg: Seq<SpecParamType>, name: Seq<char>) -> Option<SpecParamType>
    decreases reg.len(),
{
    if reg.len() == 0 {
        None
    } else if reg.last().typename == name {
        Some(reg.last())
    } else {
        lookup_spec(reg.drop_last(), name)
    }
}

/// Whether a parameter placeholder `<identifier>` or `<identifier:typename>`
/// starts at the beginning of `s`.
pub open spec fn param_syntax(s: Seq<char>) -> bool {
    s.len() >= 2 && s[0] == '<' && is_alpha_char(s[1]) && {
        let nl: int = 1 + urlsafe_len(s.skip(2)) as int;
        1 + nl < s.len() && (s[1 + nl] == '>' || (s[1 + nl] == ':' && {
            let tl: int = urlsafe_len(s.skip(2 + nl)) as int;
            tl >= 1 && 2 + nl + tl < s.len() && s[2 + nl + tl] == '>'
        }))
    }
}

/// Whether the placeholder at the beginning of `s` writes a type name out;
/// one without a type name is shorthand for the `string` type.
pub open spec fn param_has_type(s: Seq<char>) -> bool {
    let nl: int = 1 + urlsafe_len(s.skip(2)) as int;
    s[1 + nl] == ':'
}

/// The identifier of a placeholder at the beginning of `s`.
pub open spec fn param_name(s: Seq<char>) -> Seq<char> {
    let nl: int = 1 + urlsafe_len(s.skip(2)) as int;
    s.subrange(1, 1 + nl)
}

/// The type name a placeholder at the beginning of `s` resolves against the
/// registry: the written one, or `string` when none is written.
pub open spec fn param_typename(s: Seq<char>) -> Seq<char> {
    if param_has_type(s) {
        let nl: int = 1 + urlsafe_len(s.skip(2)) as int;
        let tl: int = urlsafe_len(s.skip(2 + nl)) as int;
        s.subrange(2 + nl, 2 + nl + tl)
    } else {
        "string"@
    }
}

/// How many characters a placeholder at the beginning of `s` spans,
/// closing `>` included.
pub open spec fn param_used(s: Seq<char>) -> nat {
    let nl: int = 1 + urlsafe_len(s.skip(2)) as int;
    if param_has_type(s) {
        let tl: int = urlsafe_len(s.skip(2 + nl)) as int;
        (3 + nl + tl) as nat
    } else {
        (2 + nl) as nat
    }
}

/// What parsing one segment at the beginning of `s` yields: the segment and
/// the count of characters consumed, or the unregistered type name a
/// syntactically valid placeholder referred to.
pub enum SegStep {
    Found(SpecSegment, nat),
    NoType(Seq<char>),
}

/// One step of the ordered alternation: parameter first, then constant, then
/// the empty segment, which consumes nothing.
pub open spec fn parse_one_segment(s: Seq<char>, reg: Seq<SpecParamType>) -> SegStep {
    if param_syntax(s) {
        match lookup_spec(reg, param_typename(s)) {
            Some(pt) => SegStep::Found(
                SpecSegment::Param(crate::route::SpecParam { name: param_name(s), kind: pt }),
                param_used(s),
            ),
            None => SegStep::NoType(param_typename(s)),
        }
    } else {
        let k = urlsafe_len(s);
        if k > 0 {
            SegStep::Found(SpecSegment::Constant(s.take(k as int)), k)
        } else {
            SegStep::Found(SpecSegment::Empty, 0)
        }
    }
}

/// What parsing a whole template yields.
pub enum ParseOutcome {
    /// The template was consumed entirely.
    Parsed(Seq<SpecSegment>),
    /// A valid prefix was consumed; the segments read and the remainder.
    Extra(Seq<SpecSegment>, Seq<char>),
    /// A placeholder named a type absent from the registry.
    NoType(Seq<char>),
    /// The template does not begin with `/`.
    BadStart,
}

/// Parses a list of segments separated by `/` from `s`, the part of a
/// template after a separator.
pub open spec fn parse_segments(s: Seq<char>, reg: Seq<SpecParamType>) -> ParseOutcome
    decreases s.len(),
{
    match parse_one_segment(s, reg) {
        SegStep::NoType(tn) => ParseOutcome::NoType(tn),
        SegStep::Found(seg, used) => if used >= s.len() {
            ParseOutcome::Parsed(seq![seg])
        } else if s[used as int] == '/' {
            match parse_segments(s.skip(used as int + 1), reg) {
                ParseOutcome::Parsed(rest) => ParseOutcome::Parsed(seq![seg] + rest),
                ParseOutcome::Extra(rest, rem) => ParseOutcome::Extra(seq![seg] + rest, rem),
                ParseOutcome::NoType(tn) => ParseOutcome::NoType(tn),
                ParseOutcome::BadStart => ParseOutcome::BadStart,
            }
        } else {
            ParseOutcome::Extra(seq![seg], s.skip(used as int))
        },
    }
}

/// Parses a whole template: a leading `/`, then segments separated by `/`.
pub open spec fn parse_template(t: Seq<char>, reg: Seq<SpecParamType>) -> ParseOutcome {
    if t.len() == 0 || t[0] != '/' {
        ParseOutcome::BadStart
    } else {
        parse_segments(t.skip(1), reg)
    }
}

/// The diagnostic a template that does not begin with `/` is rejected with.
pub open spec fn bad_start_msg() -> Seq<char> {
    "route must start with '/'"@
}

/// The diagnostic a placeholder with an unregistered type name is rejected
/// with.
pub open spec fn unknown_type_msg(typename: Seq<char>) -> Seq<char> {
    "unknown parameter type: "@ + typename
}

/// The default registry resolves each built-in name to its own validator:
/// `string` to the accept-everything checker, `uuid` to the UUID checker,
/// `int` to the signed 64-bit integer checker.
pub proof fn lemma_default_registry_builtins()
    ensures
        lookup_spec(default_registry(), "string"@) == Some(
            SpecParamType { typename: "string"@, check: crate::route::param_type::Checker::Any },
        ),
        lookup_spec(default_registry(), "uuid"@) == Some(
            SpecParamType { typename: "uuid"@, check: crate::route::param_type::Checker::Uuid },
        ),
        lookup_spec(default_registry(), "int"@) == Some(
            SpecParamType { typename: "int"@, check: crate::route::param_type::Checker::Int },
        ),
{
    reveal_strlit("string");
    reveal_strlit("uuid");
    reveal_strlit("int");
    let reg = default_registry();
    let reg1 = reg.drop_last();
    let reg2 = reg1.drop_last();
    assert("string"@.len() == 6 && "uuid"@.len() == 4 && "int"@.len() == 3);
    assert(reg.last() == reg[2] && reg1.last() == reg[1] && reg2.last() == reg[0]);
    assert(lookup_spec(reg, "int"@) == Some(reg[2]));
    assert(lookup_spec(reg, "uuid"@) == lookup_spec(reg1, "uuid"@));
    assert(lookup_spec(reg1, "uuid"@) == Some(reg[1]));
    assert(lookup_spec(reg, "string"@) == lookup_spec(reg1, "string"@));
    assert(lookup_spec(reg1, "string"@) == lookup_spec(reg2, "string"@));
    assert(lookup_spec(reg2, "string"@) == Some(reg[0]));
}

impl View for Parser {
    type V = Seq<SpecParamType>;

    closed spec fn view(&self) -> Seq<SpecParamType> {
        self.param_types@.map_values(|pt: ParamType| pt@)
    }
}

/// The registry every parser starts from: `string` accepts anything, `int`
/// accepts signed 64-bit decimal integers, `uuid` accepts what the UUID
/// parser accepts.
pub open spec fn default_registry() -> Seq<SpecParamType> {
    seq![
        SpecParamType { typename: "string"@, check: crate::route::param_type::Checker::Any },
        SpecParamType { typename: "uuid"@, check: crate::route::param_type::Checker::Uuid },
        SpecParamType { typename: "int"@, check: crate::route::param_type::Checker::Int },
    ]
}

impl Parser {
    /// A parser over the given registry.
    pub fn new(param_types: Vec<ParamType>) -> (r: Parser)
        ensures
            r@ == param_types@.map_values(|pt: ParamType| pt@),
    {
        Parser { param_types }
    }

    /// Registers a parameter type; a later registration of the same name wins
    /// over an earlier one.
    pub fn add_param_type(&mut self, param_type: ParamType)
        ensures
            final(self)@ == old(self)@.push(param_type@),
    {
        let ghost old_types = self.param_types@;
        self.param_types.push(param_type);
        proof {
            assert(self.param_types@.map_values(|pt: ParamType| pt@) =~= old_types.map_values(
                |pt: ParamType| pt@,
            ).push(self.param_types@.last()@));
        }
    }

    /// The registry entry for `name`, the latest registration winning.
    fn lookup(&self, name: &str) -> (r: Option<&ParamType>)
        ensures
            match r {
                Some(pt) => lookup_spec(self@, name@) == Some(pt@),
                None => lookup_spec(self@, name@) is None,
            },
    {
        let mut i: usize = self.param_types.len();
        proof {
            assert(self@.take(self.param_types@.len() as int) =~= self@);
        }
        while i > 0
            invariant
                0 <= i <= self.param_types@.len(),
                self@.len() == self.param_types@.len(),
                lookup_spec(self@, name@) == lookup_spec(self@.take(i as int), name@),
            decreases i,
        {
            proof {
                assert(self@[i as int - 1] == self.param_types@[i as int - 1]@);
                assert(self@.take(i as int).drop_last() =~= self@.take(i as int - 1));
                assert(self@.take(i as int).last() == self@[i as int - 1]);
            }
            if crate::route::text::str_eq(self.param_types[i - 1].typename.as_str(), name) {
                return Some(&self.param_types[i - 1]);
            }
            i -= 1;
        }
        proof {
            assert(self@.take(0) =~= Seq::<SpecParamType>::empty());
        }
        None
    }
}

/// Whether `c` may appear in a constant segment, an identifier or a type
/// name: ASCII alphanumeric, `-` or `_`.
pub fn urlsafe_char(c: char) -> (r: bool)
    ensures
        r == is_urlsafe_char(c),
{
    crate::route::text::urlsafe_char_exec(c)
}

/// Whether `c` may open an identifier: ASCII alphabetic.
pub fn is_alpha(c: char) -> (r: bool)
    ensures
        r == is_alpha_char(c),
{
    crate::route::text::alpha_char_exec(c)
}

/// Takes the longest non-empty URL-safe prefix of `input`; returns the rest
/// of the input with the prefix, or `None` when the first character is not
/// URL-safe.
pub fn urlsafe_str<'a>(input: &'a str) -> (r: Option<(&'a str, &'a str)>)
    ensures
        match r {
            Some(pair) => urlsafe_len(input@) > 0 && pair.1@ == input@.take(
                urlsafe_len(input@) as int,
            ) && pair.0@ == input@.skip(urlsafe_len(input@) as int),
            None => urlsafe_len(input@) == 0,
        },
{
    let k = crate::route::text::urlsafe_run(input, 0);
    proof {
        assert(input@.skip(0) =~= input@);
    }
    if k == 0 {
        None
    } else {
        let rest = input.substring_char(k, input.unicode_len());
        let matched = input.substring_char(0, k);
        Some((rest, matched))
    }
}

/// The segments already read, attached in front of the outcome of the rest
/// of the template.
spec fn glue(prefix: Seq<SpecSegment>, rest: ParseOutcome) -> ParseOutcome {
    match rest {
        ParseOutcome::Parsed(segs) => ParseOutcome::Parsed(prefix + segs),
        ParseOutcome::Extra(segs, rem) => ParseOutcome::Extra(prefix + segs, rem),
        ParseOutcome::NoType(tn) => ParseOutcome::NoType(tn),
        ParseOutcome::BadStart => ParseOutcome::BadStart,
    }
}

proof fn lemma_glue_empty(rest: ParseOutcome)
    ensures
        glue(Seq::empty(), rest) == rest,
{
    match rest {
        ParseOutcome::Parsed(segs) => {
            assert(Seq::empty() + segs =~= segs);
        },
        ParseOutcome::Extra(segs, rem) => {
            assert(Seq::empty() + segs =~= segs);
        },
        _ => {},
    }
}

proof fn lemma_glue_step(prefix: Seq<SpecSegment>, seg: SpecSegment, rest: ParseOutcome)
    ensures
        glue(prefix, glue(seq![seg], rest)) == glue(prefix.push(seg), rest),
{
    match rest {
        ParseOutcome::Parsed(segs) => {
            assert(prefix + (seq![seg] + segs) =~= prefix.push(seg) + segs);
        },
        ParseOutcome::Extra(segs, rem) => {
            assert(prefix + (seq![seg] + segs) =~= prefix.push(seg) + segs);
        },
        _ => {},
    }
}

impl Parser {
    /// Parses one segment at the beginning of `input`: the parameter
    /// alternative first, then a constant, then the empty segment. Returns
    /// the unconsumed rest of the input with the segment, or `None` when a
    /// syntactically valid placeholder names an unregistered type.
    pub fn segment<'a>(&self, input: &'a str) -> (r: Option<(&'a str, Segment)>)
        ensures
            ({
                let step = parse_one_segment(input@, self@);
                match r {
                    Some((rest, seg)) => step is Found && seg@ == step->Found_0 && rest@
                        == input@.skip(step->Found_1 as int),
                    None => step is NoType,
                }
            }),
    {
        match self.next_segment(input) {
            Ok((seg, used)) => {
                let rest = input.substring_char(used, input.unicode_len());
                Some((rest, seg))
            },
            Err(_) => None,
        }
    }

    /// Parses one segment and counts the characters it consumed; an
    /// unregistered type name of a valid placeholder is handed back as the
    /// error.
    fn next_segment(&self, s: &str) -> (r: Result<(Segment, usize), String>)
        ensures
            match r {
                Ok((seg, used)) => parse_one_segment(s@, self@) == SegStep::Found(
                    seg@,
                    used as nat,
                ) && used <= s@.len(),
                Err(tn) => parse_one_segment(s@, self@) == SegStep::NoType(tn@),
            },
    {
        let n = s.unicode_len();
        if n >= 2 && s.get_char(0) == '<' && crate::route::text::alpha_char_exec(s.get_char(1)) {
            let run = crate::route::text::urlsafe_run(s, 2);
            let after_name = 2 + run;
            if after_name < n && s.get_char(after_name) == '>' {
                proof {
                    assert(param_syntax(s@));
                    assert(!param_has_type(s@));
                    assert(param_used(s@) == after_name + 1);
                    assert(param_name(s@) == s@.subrange(1, after_name as int));
                }
                match self.lookup("string") {
                    Some(pt) => {
                        let name = s.substring_char(1, after_name).to_owned();
                        let kind = ParamType { typename: pt.typename.clone(), check: pt.check };
                        return Ok((Segment::Param(Param { name, kind }), after_name + 1));
                    },
                    None => {
                        return Err(String::from_str("string"));
                    },
                }
            }
            if after_name < n && s.get_char(after_name) == ':' {
                let tl = crate::route::text::urlsafe_run(s, after_name + 1);
                let close = after_name + 1 + tl;
                if tl >= 1 && close < n && s.get_char(close) == '>' {
                    proof {
                        assert(param_syntax(s@));
                        assert(param_has_type(s@));
                        assert(param_used(s@) == close + 1);
                        assert(param_name(s@) == s@.subrange(1, after_name as int));
                        assert(param_typename(s@) == s@.subrange(after_name + 1, close as int));
                    }
                    let tn = s.substring_char(after_name + 1, close);
                    match self.lookup(tn) {
                        Some(pt) => {
                            let name = s.substring_char(1, after_name).to_owned();
                            let kind = ParamType {
                                typename: pt.typename.clone(),
                                check: pt.check,
                            };
                            return Ok((Segment::Param(Param { name, kind }), close + 1));
                        },
                        None => {
                            return Err(tn.to_owned());
                        },
                    }
                }
            }
        }
        proof {
            assert(!param_syntax(s@));
        }
        let k = crate::route::text::urlsafe_run(s, 0);
        proof {
            assert(s@.skip(0) =~= s@);
        }
        if k > 0 {
            Ok((Segment::Constant(s.substring_char(0, k).to_owned()), k))
        } else {
            Ok((Segment::Empty, 0))
        }
    }

    /// Parse a route from a string.
    ///
    /// The whole template must be consumed: a valid prefix followed by more
    /// input is reported with the segments read so far and the remainder. A
    /// template that does not begin with `/`, or a placeholder whose type
    /// name is not registered, is reported with a diagnostic message.
    ///
    /// # Examples
    ///
    /// ```
    /// use routem::{Parser, Route};
    /// let parser = Parser::default();
    /// let route: Route = parser.route("user-route", "/user/<id:int>/").unwrap();
    /// ```
    pub fn route(&self, name: &str, path: &str) -> (r: Result<Route, ParseError>)
        ensures
            ({
                let outcome = parse_template(path@, self@);
                match r {
                    Ok(route) => outcome == ParseOutcome::Parsed(route@.segs) && route@.name
                        == name@ && route@.segs.len() >= 1,
                    Err(ParseError::ExtraInput { segments, remainder }) => outcome
                        == ParseOutcome::Extra(
                        segments@.map_values(|s: Segment| s@),
                        remainder@,
                    ),
                    Err(ParseError::Other(m)) => (outcome is BadStart && m@ == bad_start_msg())
                        || (outcome is NoType && m@ == unknown_type_msg(outcome->NoType_0)),
                }
            }),
    {
        let n = path.unicode_len();
        if n == 0 || path.get_char(0) != '/' {
            return Err(ParseError::Other(String::from_str("route must start with '/'")));
        }
        let mut segments: Vec<Segment> = Vec::new();
        let mut i: usize = 1;
        proof {
            assert(segments@.map_values(|s: Segment| s@) =~= Seq::<SpecSegment>::empty());
            lemma_glue_empty(parse_segments(path@.skip(1), self@));
        }
        loop
            invariant
                1 <= i <= n,
                n == path@.len(),
                path@[0] == '/',
                glue(segments@.map_values(|s: Segment| s@), parse_segments(path@.skip(i as int), self@))
                    == parse_template(path@, self@),
            decreases n - i,
        {
            let tail = path.substring_char(i, n);
            proof {
                assert(tail@ =~= path@.skip(i as int));
            }
            match self.next_segment(tail) {
                Err(tn) => {
                    proof {
                        assert(parse_segments(path@.skip(i as int), self@)
                            == ParseOutcome::NoType(tn@));
                    }
                    let msg = String::from_str("unknown parameter type: ").concat(tn.as_str());
                    return Err(ParseError::Other(msg));
                },
                Ok((seg, used)) => {
                    let ghost seg_m = seg@;
                    let ghost old_map = segments@.map_values(|s: Segment| s@);
                    segments.push(seg);
                    proof {
                        assert(segments@.map_values(|s: Segment| s@) =~= old_map.push(seg_m));
                    }
                    let next = i + used;
                    if next == n {
                        proof {
                            assert(parse_segments(path@.skip(i as int), self@)
                                == ParseOutcome::Parsed(seq![seg_m]));
                            assert(old_map + seq![seg_m] =~= old_map.push(seg_m));
                        }
                        return Ok(Route { name: name.to_owned(), path: segments });
                    }
                    if path.get_char(next) == '/' {
                        proof {
                            assert(path@.skip(i as int)[used as int] == path@[next as int]);
                            assert(path@.skip(i as int).skip(used as int + 1) =~= path@.skip(
                                next as int + 1,
                            ));
                            assert(parse_segments(path@.skip(i as int), self@) == glue(
                                seq![seg_m],
                                parse_segments(path@.skip(next as int + 1), self@),
                            ));
                            lemma_glue_step(
                                old_map,
                                seg_m,
                                parse_segments(path@.skip(next as int + 1), self@),
                            );
                        }
                        i = next + 1;
                    } else {
                        proof {
                            assert(path@.skip(i as int)[used as int] == path@[next as int]);
                            assert(path@.skip(i as int).skip(used as int) =~= path@.skip(
                                next as int,
                            ));
                            assert(parse_segments(path@.skip(i as int), self@)
                                == ParseOutcome::Extra(seq![seg_m], path@.skip(next as int)));
                            assert(old_map + seq![seg_m] =~= old_map.push(seg_m));
                        }
                        let rem = path.substring_char(next, n).to_owned();
                        return Err(ParseError::ExtraInput { segments, remainder: rem });
                    }
                },
            }
        }
    }
}

impl Default for Parser {
    /// A parser over the default registry of `string`, `uuid` and `int`.
    fn default() -> (r: Self)
        ensures
            r@ == default_registry(),
    {
        let mut param_types: Vec<ParamType> = Vec::new();
        param_types.push(
            ParamType {
                typename: String::from_str("string"),
                check: crate::route::param_type::Checker::Any,
            },
        );
        param_types.push(
            ParamType {
                typename: String::from_str("uuid"),
                check: crate::route::param_type::Checker::Uuid,
            },
        );
        param_types.push(
            ParamType {
                typename: String::from_str("int"),
                check: crate::route::param_type::Checker::Int,
            },
        );
        let r = Parser { param_types };
        proof {
            assert(r@ =~= default_registry());
        }
        r
    }
}

} // verus!
