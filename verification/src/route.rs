//! Compiled route patterns and the three operations defined on them:
//! matching a concrete path, extracting parameter values, and filling
//! parameter values back into the pattern.
use vstd::prelude::*;

pub mod param_type;
pub mod parse;
pub mod text;

pub use param_type::ParamType;
pub use parse::Parser;

use param_type::{checker_accepts, is_i64_chars, uuid_accepts, SpecParamType};
use text::{split_slash, strip_lead};

verus! {

/// One `/`-delimited slot of a pattern.
#[derive(Clone, Debug, PartialEq)]
pub enum Segment {
    /// Matches only the zero-length component.
    Empty,
    /// Matches a component equal to the text, character for character.
    Constant(String),
    /// Matches any component its parameter type accepts.
    Param(Param),
}

/// A named, typed parameter slot. The name is metadata only; matching goes by
/// the type's checker.
#[derive(Clone, Debug, PartialEq)]
pub struct Param {
    pub name: String,
    pub kind: ParamType,
}

/// A compiled route: a caller-supplied name and the pattern's segments.
#[derive(Clone, Debug, PartialEq)]
pub struct Route {
    pub name: String,
    pub path: Vec<Segment>,
}

/// Errors a path operation can report on malformed input.
#[derive(Clone, Debug, PartialEq)]
pub enum CheckError {
    MalformedPath(String),
}

/// The mathematical image of a [`Param`].
pub struct SpecParam {
    pub name: Seq<char>,
    pub kind: SpecParamType,
}

/// The mathematical image of a [`Segment`].
pub enum SpecSegment {
    Empty,
    Constant(Seq<char>),
    Param(SpecParam),
}

/// The mathematical image of a [`Route`].
pub struct SpecRoute {
    pub name: Seq<char>,
    pub segs: Seq<SpecSegment>,
}

impl View for Param {
    type V = SpecParam;

    open spec fn view(&self) -> SpecParam {
        SpecParam { name: self.name@, kind: self.kind@ }
    }
}

impl View for Segment {
    type V = SpecSegment;

    open spec fn view(&self) -> SpecSegment {
        match self {
            Segment::Empty => SpecSegment::Empty,
            Segment::Constant(s) => SpecSegment::Constant(s@),
            Segment::Param(p) => SpecSegment::Param(p@),
        }
    }
}

impl View for Route {
    type V = SpecRoute;

    open spec fn view(&self) -> SpecRoute {
        SpecRoute { name: self.name@, segs: self.path@.map_values(|s: Segment| s@) }
    }
}

/// Whether one segment accepts one path component.
pub open spec fn seg_matches(seg: SpecSegment, comp: Seq<char>) -> bool {
    match seg {
        SpecSegment::Empty => comp.len() == 0,
        SpecSegment::Constant(text) => comp == text,
        SpecSegment::Param(p) => checker_accepts(p.kind.check, comp),
    }
}

/// Whether the segments accept the components, position by position. Unequal
/// counts never match.
pub open spec fn segs_match(segs: Seq<SpecSegment>, comps: Seq<Seq<char>>) -> bool {
    comps.len() == segs.len() && forall|i: int|
        0 <= i < segs.len() ==> seg_matches(#[trigger] segs[i], comps[i])
}

/// Whether a route's segments accept a concrete path: at most one leading `/`
/// is removed, the rest is split on `/`, and the components are compared
/// position by position.
pub open spec fn route_matches(segs: Seq<SpecSegment>, path: Seq<char>) -> bool {
    segs_match(segs, split_slash(strip_lead(path)))
}

/// The component texts found at the parameter positions, in pattern order.
pub open spec fn extract_params(segs: Seq<SpecSegment>, comps: Seq<Seq<char>>) -> Seq<Seq<char>>
    decreases segs.len(),
{
    if segs.len() == 0 || comps.len() == 0 {
        Seq::empty()
    } else if segs[0] is Param {
        seq![comps[0]] + extract_params(segs.skip(1), comps.skip(1))
    } else {
        extract_params(segs.skip(1), comps.skip(1))
    }
}

/// How many segments are parameters.
pub open spec fn param_count(segs: Seq<SpecSegment>) -> nat
    decreases segs.len(),
{
    if segs.len() == 0 {
        0
    } else {
        (if segs[0] is Param {
            1nat
        } else {
            0nat
        }) + param_count(segs.skip(1))
    }
}

/// The path produced by substituting `values` into the parameter slots, a `/`
/// before every segment. Meaningful when `values` has one entry per
/// parameter.
pub open spec fn fill_chars(segs: Seq<SpecSegment>, values: Seq<Seq<char>>) -> Seq<char>
    decreases segs.len(),
{
    if segs.len() == 0 {
        Seq::empty()
    } else {
        match segs[0] {
            SpecSegment::Empty => seq!['/'] + fill_chars(segs.skip(1), values),
            SpecSegment::Constant(text) => seq!['/'] + text + fill_chars(segs.skip(1), values),
            SpecSegment::Param(_) => seq!['/'] + (if values.len() > 0 {
                values[0]
            } else {
                Seq::empty()
            }) + fill_chars(segs.skip(1), values.skip(1)),
        }
    }
}

/// Segment-count invariant: a path whose `/`-split component count differs
/// from the route's segment count never matches, whatever the components
/// hold.
pub proof fn lemma_count_mismatch(segs: Seq<SpecSegment>, path: Seq<char>)
    requires
        split_slash(strip_lead(path)).len() != segs.len(),
    ensures
        !route_matches(segs, path),
{
}

/// Type gate: at a parameter position, matching goes by the parameter type's
/// predicate alone — `int` accepts exactly the signed 64-bit decimal
/// integers, `uuid` exactly the strings the UUID parser accepts, and
/// `string` accepts every component.
pub proof fn lemma_type_gate(p: SpecParam, s: Seq<char>)
    ensures
        p.kind.check is Int ==> (seg_matches(SpecSegment::Param(p), s) <==> is_i64_chars(s)),
        p.kind.check is Uuid ==> (seg_matches(SpecSegment::Param(p), s) <==> uuid_accepts(s)),
        p.kind.check is Any ==> seg_matches(SpecSegment::Param(p), s),
{
}

proof fn lemma_extract_len(segs: Seq<SpecSegment>, comps: Seq<Seq<char>>)
    requires
        comps.len() == segs.len(),
    ensures
        extract_params(segs, comps).len() == param_count(segs),
    decreases segs.len(),
{
    if segs.len() == 0 {
    } else {
        lemma_extract_len(segs.skip(1), comps.skip(1));
    }
}

/// Match/extract consistency: on a path the route matches, extraction yields
/// one value per parameter segment. That a path is extracted from exactly
/// when it matches is stated on [`Route::parse_params`] itself.
pub proof fn lemma_match_extract(segs: Seq<SpecSegment>, path: Seq<char>)
    requires
        route_matches(segs, path),
    ensures
        extract_params(segs, split_slash(strip_lead(path))).len() == param_count(segs),
{
    lemma_extract_len(segs, split_slash(strip_lead(path)));
}

/// The components joined back into a path body: the values separated by `/`.
spec fn join_slash(values: Seq<Seq<char>>) -> Seq<char>
    decreases values.len(),
{
    if values.len() == 0 {
        Seq::empty()
    } else if values.len() == 1 {
        values[0]
    } else {
        values[0] + seq!['/'] + join_slash(values.skip(1))
    }
}

proof fn lemma_fill_all_params(segs: Seq<SpecSegment>, values: Seq<Seq<char>>)
    requires
        forall|i: int| 0 <= i < segs.len() ==> #[trigger] segs[i] is Param,
        values.len() == segs.len(),
        segs.len() >= 1,
    ensures
        fill_chars(segs, values) == seq!['/'] + join_slash(values),
    decreases segs.len(),
{
    assert(segs[0] is Param);
    if segs.len() == 1 {
        assert(fill_chars(segs.skip(1), values.skip(1)) == Seq::<char>::empty());
        assert(seq!['/'] + values[0] + Seq::<char>::empty() =~= seq!['/'] + join_slash(values));
    } else {
        assert(forall|i: int|
            0 <= i < segs.skip(1).len() ==> #[trigger] segs.skip(1)[i] is Param);
        lemma_fill_all_params(segs.skip(1), values.skip(1));
        assert(seq!['/'] + values[0] + (seq!['/'] + join_slash(values.skip(1))) =~= seq!['/']
            + join_slash(values));
    }
}

proof fn lemma_split_join(values: Seq<Seq<char>>)
    requires
        values.len() >= 1,
        forall|i: int| 0 <= i < values.len() ==> !(#[trigger] values[i]).contains('/'),
    ensures
        split_slash(join_slash(values)) == values,
    decreases values.len(),
{
    let joined = join_slash(values);
    if values.len() == 1 {
        assert forall|j: int| 0 <= j < joined.len() implies #[trigger] joined[j] != '/' by {
            if joined[j] == '/' {
                assert(values[0].contains('/'));
            }
        }
        text::lemma_upto_slash_is(joined, joined.len() as int);
        assert(split_slash(joined) =~= seq![joined]);
        assert(seq![joined] =~= values);
    } else {
        let v0 = values[0];
        let rest = join_slash(values.skip(1));
        assert(joined == v0 + seq!['/'] + rest);
        assert forall|j: int| 0 <= j < v0.len() implies #[trigger] joined[j] != '/' by {
            assert(joined[j] == v0[j]);
            if v0[j] == '/' {
                assert(v0.contains('/'));
            }
        }
        assert(joined[v0.len() as int] == '/');
        text::lemma_upto_slash_is(joined, v0.len() as int);
        assert(joined.take(v0.len() as int) =~= v0);
        assert(joined.skip(v0.len() as int + 1) =~= rest);
        assert(forall|i: int|
            0 <= i < values.skip(1).len() ==> !(#[trigger] values.skip(1)[i]).contains('/'));
        lemma_split_join(values.skip(1));
        assert(split_slash(joined) == seq![v0] + values.skip(1));
        assert(seq![v0] + values.skip(1) =~= values);
    }
}

proof fn lemma_extract_all_params(segs: Seq<SpecSegment>, comps: Seq<Seq<char>>)
    requires
        forall|i: int| 0 <= i < segs.len() ==> #[trigger] segs[i] is Param,
        comps.len() == segs.len(),
    ensures
        extract_params(segs, comps) == comps,
    decreases segs.len(),
{
    if segs.len() == 0 {
        assert(extract_params(segs, comps) =~= comps);
    } else {
        assert(segs[0] is Param);
        assert(forall|i: int|
            0 <= i < segs.skip(1).len() ==> #[trigger] segs.skip(1)[i] is Param);
        lemma_extract_all_params(segs.skip(1), comps.skip(1));
        assert(seq![comps[0]] + comps.skip(1) =~= comps);
    }
}

/// Round-trip: for a route made only of parameter segments, filling a list
/// of values with one entry per parameter — each accepted by its parameter's
/// type and free of `/` — produces a path that matches the route, and
/// extraction from that path recovers exactly the values.
pub proof fn lemma_fill_extract_round_trip(segs: Seq<SpecSegment>, values: Seq<Seq<char>>)
    requires
        segs.len() >= 1,
        forall|i: int| 0 <= i < segs.len() ==> #[trigger] segs[i] is Param,
        values.len() == segs.len(),
        forall|i: int|
            0 <= i < segs.len() ==> checker_accepts(
                (#[trigger] segs[i])->Param_0.kind.check,
                values[i],
            ),
        forall|i: int| 0 <= i < values.len() ==> !(#[trigger] values[i]).contains('/'),
    ensures
        route_matches(segs, fill_chars(segs, values)),
        extract_params(segs, split_slash(strip_lead(fill_chars(segs, values)))) == values,
{
    let filled = fill_chars(segs, values);
    lemma_fill_all_params(segs, values);
    assert(filled[0] == '/');
    assert(strip_lead(filled) =~= join_slash(values));
    lemma_split_join(values);
    assert(split_slash(strip_lead(filled)) == values);
    assert(segs_match(segs, values));
    lemma_extract_all_params(segs, values);
}

impl Segment {
    /// Whether this segment accepts the component.
    fn accepts(&self, comp: &str) -> (r: bool)
        ensures
            r == seg_matches(self@, comp@),
    {
        match self {
            Segment::Empty => comp.unicode_len() == 0,
            Segment::Constant(text) => text::str_eq(comp, text.as_str()),
            Segment::Param(p) => p.kind.check.accepts(comp),
        }
    }
}

impl Route {
    /// Check if a path matches this route.
    ///
    /// # Examples
    ///
    /// ```
    /// use routem::{Parser, Route};
    ///
    /// let parser = Parser::default();
    /// let route = parser.route("user-route", "/user/<id:int>/").unwrap();
    ///
    /// assert!(route.check("/user/123/"));
    /// assert!(!route.check("/user/123"));
    /// assert!(!route.check("/user/abc/"));
    /// ```
    pub fn check(&self, path: &str) -> (r: bool)
        ensures
            r == route_matches(self@.segs, path@),
    {
        let parts = text::split_components(path);
        let ghost comps = split_slash(strip_lead(path@));
        proof {
            assert(self@.segs.len() == self.path@.len());
        }
        if parts.len() != self.path.len() {
            return false;
        }
        let mut i: usize = 0;
        while i < parts.len()
            invariant
                0 <= i <= parts.len(),
                parts@.len() == comps.len(),
                forall|j: int| 0 <= j < parts@.len() ==> #[trigger] parts@[j]@ == comps[j],
                comps == split_slash(strip_lead(path@)),
                parts.len() == self.path@.len(),
                self@.segs.len() == self.path@.len(),
                forall|j: int| 0 <= j < i ==> seg_matches(#[trigger] self@.segs[j], comps[j]),
            decreases parts.len() - i,
        {
            proof {
                assert(self@.segs[i as int] == self.path@[i as int]@);
            }
            if !self.path[i].accepts(parts[i].as_str()) {
                return false;
            }
            i += 1;
        }
        true
    }

    /// If a path matches the route, returns the matching params. Otherwise,
    /// returns None.
    ///
    /// # Examples
    ///
    /// ```
    /// use routem::{Parser, Route};
    ///
    /// let parser = Parser::default();
    /// let route = parser.route("user-route", "/user/<id:int>/").unwrap();
    ///
    /// assert_eq!(route.parse_params("/user/123/"), Some(vec!["123".to_string()]));
    /// ```
    pub fn parse_params(&self, path: &str) -> (r: Option<Vec<String>>)
        ensures
            match r {
                Some(v) => route_matches(self@.segs, path@) && v@.map_values(|s: String| s@)
                    == extract_params(self@.segs, split_slash(strip_lead(path@))),
                None => !route_matches(self@.segs, path@),
            },
    {
        let parts = text::split_components(path);
        let ghost comps = split_slash(strip_lead(path@));
        proof {
            assert(self@.segs.len() == self.path@.len());
        }
        if parts.len() != self.path.len() {
            return None;
        }
        let mut values: Vec<String> = Vec::new();
        let mut i: usize = 0;
        proof {
            assert(self@.segs.skip(0) =~= self@.segs);
            assert(comps.skip(0) =~= comps);
            assert(values@.map_values(|v: String| v@) + extract_params(self@.segs, comps)
                =~= extract_params(self@.segs, comps));
        }
        while i < parts.len()
            invariant
                0 <= i <= parts.len(),
                parts@.len() == comps.len(),
                forall|j: int| 0 <= j < parts@.len() ==> #[trigger] parts@[j]@ == comps[j],
                comps == split_slash(strip_lead(path@)),
                parts.len() == self.path@.len(),
                self@.segs.len() == self.path@.len(),
                forall|j: int| 0 <= j < i ==> seg_matches(#[trigger] self@.segs[j], comps[j]),
                extract_params(self@.segs, comps) == values@.map_values(|v: String| v@)
                    + extract_params(self@.segs.skip(i as int), comps.skip(i as int)),
            decreases parts.len() - i,
        {
            let seg = &self.path[i];
            proof {
                assert(self@.segs[i as int] == self.path@[i as int]@);
                assert(self@.segs.skip(i as int)[0] == self@.segs[i as int]);
                assert(self@.segs.skip(i as int).skip(1) =~= self@.segs.skip(i as int + 1));
                assert(comps.skip(i as int)[0] == comps[i as int]);
                assert(comps.skip(i as int).skip(1) =~= comps.skip(i as int + 1));
            }
            match seg {
                Segment::Empty => {
                    if !(parts[i].as_str().unicode_len() == 0) {
                        return None;
                    }
                },
                Segment::Constant(text) => {
                    if !text::str_eq(parts[i].as_str(), text.as_str()) {
                        return None;
                    }
                },
                Segment::Param(p) => {
                    if !p.kind.check.accepts(parts[i].as_str()) {
                        return None;
                    }
                    let ghost old_values = values@;
                    values.push(parts[i].clone());
                    proof {
                        assert(extract_params(self@.segs.skip(i as int), comps.skip(i as int))
                            == seq![comps[i as int]] + extract_params(
                            self@.segs.skip(i as int + 1),
                            comps.skip(i as int + 1),
                        ));
                        assert(values@.map_values(|v: String| v@) =~= old_values.map_values(
                            |v: String| v@,
                        ).push(comps[i as int]));
                        assert(extract_params(self@.segs, comps) =~= values@.map_values(
                            |v: String| v@,
                        ) + extract_params(
                            self@.segs.skip(i as int + 1),
                            comps.skip(i as int + 1),
                        ));
                    }
                },
            }
            i += 1;
        }
        proof {
            assert(self@.segs.skip(parts@.len() as int) =~= Seq::<SpecSegment>::empty());
            assert(comps.skip(parts@.len() as int) =~= Seq::<Seq<char>>::empty());
            assert(extract_params(self@.segs, comps) =~= values@.map_values(|v: String| v@));
        }
        Some(values)
    }

    /// Fills the supplied parameters into the route. Returns None if the
    /// provided params are the incorrect length.
    ///
    /// # Examples
    /// ```
    /// use routem::{Parser, Route};
    ///
    /// let parser = Parser::default();
    ///
    /// let route = parser.route("user-route", "/user/<id:int>/").unwrap();
    /// let params = vec!["123".to_string()];
    /// assert_eq!(route.fill(&params), Some("/user/123/".to_string()));
    ///
    /// let route = parser.route("user-route", "/user/<id:int>/").unwrap();
    /// let params = vec![];
    /// assert_eq!(route.fill(&params), None);
    /// ```
    pub fn fill(&self, params: &[String]) -> (r: Option<String>)
        ensures
            match r {
                Some(filled) => params@.len() == param_count(self@.segs) && filled@ == fill_chars(
                    self@.segs,
                    params@.map_values(|v: String| v@),
                ),
                None => params@.len() != param_count(self@.segs),
            },
    {
        let ghost vals = params@.map_values(|v: String| v@);
        let mut out = String::new();
        let mut index: usize = 0;
        let mut k: usize = 0;
        proof {
            assert(self@.segs.len() == self.path@.len());
            assert(self@.segs.skip(0) =~= self@.segs);
            assert(vals.skip(0) =~= vals);
        }
        while k < self.path.len()
            invariant
                0 <= k <= self.path@.len(),
                self@.segs.len() == self.path@.len(),
                vals == params@.map_values(|v: String| v@),
                vals.len() == params@.len(),
                index <= params@.len(),
                param_count(self@.segs) == index + param_count(self@.segs.skip(k as int)),
                fill_chars(self@.segs, vals) == out@ + fill_chars(
                    self@.segs.skip(k as int),
                    vals.skip(index as int),
                ),
            decreases self.path@.len() - k,
        {
            proof {
                assert(self@.segs[k as int] == self.path@[k as int]@);
                assert(self@.segs.skip(k as int)[0] == self@.segs[k as int]);
                assert(self@.segs.skip(k as int).skip(1) =~= self@.segs.skip(k as int + 1));
                reveal_strlit("/");
                assert("/"@ =~= seq!['/']);
            }
            let ghost old_out = out@;
            out.append("/");
            match &self.path[k] {
                Segment::Empty => {
                    proof {
                        assert(fill_chars(self@.segs.skip(k as int), vals.skip(index as int))
                            == seq!['/'] + fill_chars(
                            self@.segs.skip(k as int + 1),
                            vals.skip(index as int),
                        ));
                        assert(fill_chars(self@.segs, vals) =~= out@ + fill_chars(
                            self@.segs.skip(k as int + 1),
                            vals.skip(index as int),
                        ));
                    }
                },
                Segment::Constant(text) => {
                    out.append(text.as_str());
                    proof {
                        assert(fill_chars(self@.segs.skip(k as int), vals.skip(index as int))
                            == seq!['/'] + text@ + fill_chars(
                            self@.segs.skip(k as int + 1),
                            vals.skip(index as int),
                        ));
                        assert(fill_chars(self@.segs, vals) =~= out@ + fill_chars(
                            self@.segs.skip(k as int + 1),
                            vals.skip(index as int),
                        ));
                    }
                },
                Segment::Param(_) => {
                    if index >= params.len() {
                        return None;
                    }
                    out.append(params[index].as_str());
                    proof {
                        assert(vals.skip(index as int)[0] == vals[index as int]);
                        assert(vals.skip(index as int).skip(1) =~= vals.skip(index as int + 1));
                        assert(vals[index as int] == params@[index as int]@);
                        assert(fill_chars(self@.segs.skip(k as int), vals.skip(index as int))
                            == seq!['/'] + vals[index as int] + fill_chars(
                            self@.segs.skip(k as int + 1),
                            vals.skip(index as int + 1),
                        ));
                        assert(fill_chars(self@.segs, vals) =~= out@ + fill_chars(
                            self@.segs.skip(k as int + 1),
                            vals.skip(index as int + 1),
                        ));
                    }
                    index += 1;
                },
            }
            k += 1;
        }
        if index < params.len() {
            proof {
                assert(self@.segs.skip(self.path@.len() as int) =~= Seq::<SpecSegment>::empty());
            }
            return None;
        }
        proof {
            assert(self@.segs.skip(self.path@.len() as int) =~= Seq::<SpecSegment>::empty());
            assert(vals.skip(index as int) =~= Seq::<Seq<char>>::empty());
            assert(fill_chars(self@.segs, vals) =~= out@);
        }
        Some(out)
    }
}

} // verus!
