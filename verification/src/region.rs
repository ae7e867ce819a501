//! Points and regions, and the grammar `[label=]x1,y1-x2,y2` that describes them.

use crate::text::{
    chars_of, decimal_digits, decimal_string, find_char, first_index, is_digit,
    lemma_decimal_digits, lemma_first_index, lemma_first_index_bounds, lemma_trim_digits,
    lemma_trim_idempotent, lemma_trim_keeps_absent, parse_u32, parse_u32_spec, sub_chars, trim,
    trim_chars,
};
use vstd::prelude::*;

verus! {

/// A pixel coordinate.
#[derive(Debug, Clone, Copy, PartialEq, Eq, Structural)]
pub struct Point {
    pub x: u32,
    pub y: u32,
}

/// A rectangle of pixels, both corners included, with an optional label.
/// The corners are kept as written, whether or not `start` precedes `end`.
#[derive(Debug, Clone, PartialEq, Eq)]
pub struct Region {
    pub label: Option<String>,
    pub start: Point,
    pub end: Point,
}

/// Why a piece of text is not a point or a region.
#[derive(Debug, Clone, Copy, PartialEq, Eq, Structural)]
pub enum ParseError {
    /// A point without `,`.
    MissingSeparator,
    /// What stands before the `,` is not an unsigned 32-bit decimal number.
    InvalidX,
    /// What stands after the `,` is not an unsigned 32-bit decimal number.
    InvalidY,
    /// A region without `-` between its two points.
    MissingRangeSeparator,
}

/// The mathematical value of a `Region`.
pub ghost struct RegionModel {
    pub label: Option<Seq<char>>,
    pub start: Point,
    pub end: Point,
}

impl View for Region {
    type V = RegionModel;

    open spec fn view(&self) -> RegionModel {
        RegionModel {
            label: match self.label {
                Some(l) => Some(l@),
                None => None,
            },
            start: self.start,
            end: self.end,
        }
    }
}

/// What the text of a point means: the part before the first `,` is x, the
/// rest is y, each trimmed; x is judged before y.
pub open spec fn parse_point_spec(s: Seq<char>) -> Result<Point, ParseError> {
    let i = first_index(s, ',');
    if i >= s.len() {
        Err(ParseError::MissingSeparator)
    } else {
        match parse_u32_spec(trim(s.subrange(0, i as int))) {
            None => Err(ParseError::InvalidX),
            Some(x) => match parse_u32_spec(trim(s.subrange(i as int + 1, s.len() as int))) {
                None => Err(ParseError::InvalidY),
                Some(y) => Ok(Point { x, y }),
            },
        }
    }
}

/// The label of a region's text: what stands before the first `=`, if there is one.
pub open spec fn label_part(s: Seq<char>) -> Option<Seq<char>> {
    let e = first_index(s, '=');
    if e < s.len() {
        Some(s.subrange(0, e as int))
    } else {
        None
    }
}

/// The range of a region's text: what follows the first `=`, or all of it.
pub open spec fn range_part(s: Seq<char>) -> Seq<char> {
    let e = first_index(s, '=');
    if e < s.len() {
        s.subrange(e as int + 1, s.len() as int)
    } else {
        s
    }
}

/// What the text of a region means. The range is cut at its first `-`; the
/// first point is the start, the second the end, and the start is judged first.
pub open spec fn parse_region_spec(s: Seq<char>) -> Result<RegionModel, ParseError> {
    let range = range_part(s);
    let d = first_index(range, '-');
    if d >= range.len() {
        Err(ParseError::MissingRangeSeparator)
    } else {
        match parse_point_spec(range.subrange(0, d as int)) {
            Err(e) => Err(e),
            Ok(start) => match parse_point_spec(range.subrange(d as int + 1, range.len() as int)) {
                Err(e) => Err(e),
                Ok(end) => Ok(RegionModel { label: label_part(s), start, end }),
            },
        }
    }
}

/// The text of a point: `x,y`.
pub open spec fn point_text(p: Point) -> Seq<char> {
    decimal_digits(p.x as nat) + seq![','] + decimal_digits(p.y as nat)
}

/// The text of a range: `x1,y1-x2,y2`.
pub open spec fn range_text(start: Point, end: Point) -> Seq<char> {
    point_text(start) + seq!['-'] + point_text(end)
}

/// The text of a region: its range, after `label=` where it has a label.
pub open spec fn region_text(r: RegionModel) -> Seq<char> {
    match r.label {
        None => range_text(r.start, r.end),
        Some(l) => l + seq!['='] + range_text(r.start, r.end),
    }
}

/// Reads a point from its characters.
pub fn parse_point_chars(v: &Vec<char>) -> (r: Result<Point, ParseError>)
    ensures
        r == parse_point_spec(v@),
{
    let i: usize = find_char(v, ',');
    if i >= v.len() {
        return Err(ParseError::MissingSeparator);
    }
    let x: u32 = match parse_u32(&trim_chars(&sub_chars(v, 0, i))) {
        Some(x) => x,
        None => {
            return Err(ParseError::InvalidX);
        },
    };
    let y: u32 = match parse_u32(&trim_chars(&sub_chars(v, i + 1, v.len()))) {
        Some(y) => y,
        None => {
            return Err(ParseError::InvalidY);
        },
    };
    Ok(Point { x, y })
}

impl Point {
    /// Reads a point written as `x,y`, with optional white space around each number.
    pub fn from_str(s: &str) -> (r: Result<Point, ParseError>)
        ensures
            r == parse_point_spec(s@),
    {
        let v = chars_of(s);
        parse_point_chars(&v)
    }

    /// Writes the point as `x,y`.
    pub fn to_string(&self) -> (s: String)
        ensures
            s@ == point_text(*self),
    {
        let mut s = decimal_string(self.x as u64);
        let ys = decimal_string(self.y as u64);
        proof {
            reveal_strlit(",");
        }
        s.append(",");
        s.append(ys.as_str());
        assert(s@ =~= point_text(*self));
        s
    }
}

impl Region {
    /// Reads a region written as `[label=]x1,y1-x2,y2`.
    pub fn from_str(s: &str) -> (r: Result<Region, ParseError>)
        ensures
            match r {
                Ok(region) => parse_region_spec(s@) == Ok::<RegionModel, ParseError>(region@),
                Err(e) => parse_region_spec(s@) == Err::<RegionModel, ParseError>(e),
            },
    {
        let v = chars_of(s);
        let e: usize = find_char(&v, '=');
        let (label, range) = if e < v.len() {
            let l = s.substring_char(0, e).to_owned();
            let r = sub_chars(&v, e + 1, v.len());
            (Some(l), r)
        } else {
            (None, v)
        };
        assert(range@ == range_part(s@));
        let d: usize = find_char(&range, '-');
        if d >= range.len() {
            return Err(ParseError::MissingRangeSeparator);
        }
        let start = match parse_point_chars(&sub_chars(&range, 0, d)) {
            Ok(p) => p,
            Err(e) => {
                return Err(e);
            },
        };
        let end = match parse_point_chars(&sub_chars(&range, d + 1, range.len())) {
            Ok(p) => p,
            Err(e) => {
                return Err(e);
            },
        };
        Ok(Region { label, start, end })
    }

    /// Writes the region as `label=x1,y1-x2,y2`, or as `x1,y1-x2,y2` without a label.
    pub fn to_string(&self) -> (s: String)
        ensures
            s@ == region_text(self@),
    {
        let mut s = match &self.label {
            Some(l) => {
                let mut t = l.clone();
                proof {
                    reveal_strlit("=");
                }
                t.append("=");
                t
            },
            None => String::new(),
        };
        let a = self.start.to_string();
        let b = self.end.to_string();
        proof {
            reveal_strlit("-");
        }
        s.append(a.as_str());
        s.append("-");
        s.append(b.as_str());
        assert(s@ =~= region_text(self@));
        s
    }
}

/// Every character of a point's text is a digit or the `,`.
pub proof fn lemma_point_text_chars(p: Point)
    ensures
        forall|j: int|
            0 <= j < point_text(p).len() ==> is_digit(#[trigger] point_text(p)[j]) || point_text(
                p,
            )[j] == ',',
{
    lemma_decimal_digits(p.x as nat);
    lemma_decimal_digits(p.y as nat);
    let dx = decimal_digits(p.x as nat);
    let dy = decimal_digits(p.y as nat);
    let t = point_text(p);
    assert forall|j: int| 0 <= j < t.len() implies is_digit(#[trigger] t[j]) || t[j] == ',' by {
        if j < dx.len() {
            assert(t[j] == dx[j]);
        } else if j > dx.len() {
            assert(t[j] == dy[j - dx.len() - 1]);
        }
    }
}

/// Reading the text of a point gives the point back.
pub proof fn lemma_point_text_parses(p: Point)
    ensures
        parse_point_spec(point_text(p)) == Ok::<Point, ParseError>(p),
{
    lemma_decimal_digits(p.x as nat);
    lemma_decimal_digits(p.y as nat);
    let dx = decimal_digits(p.x as nat);
    let dy = decimal_digits(p.y as nat);
    let t = point_text(p);
    assert forall|j: int| 0 <= j < dx.len() implies t[j] != ',' by {
        assert(t[j] == dx[j]);
    }
    lemma_first_index(t, ',', dx.len() as int);
    assert(t.subrange(0, dx.len() as int) =~= dx);
    assert(t.subrange(dx.len() as int + 1, t.len() as int) =~= dy);
    lemma_trim_digits(dx);
    lemma_trim_digits(dy);
}

/// A range's text holds no `=`, and its first `-` stands right after the
/// text of its first point.
pub proof fn lemma_range_text_parts(start: Point, end: Point)
    ensures
        first_index(range_text(start, end), '-') == point_text(start).len(),
        first_index(range_text(start, end), '=') == range_text(start, end).len(),
        range_text(start, end).subrange(0, point_text(start).len() as int) == point_text(start),
        range_text(start, end).subrange(
            point_text(start).len() as int + 1,
            range_text(start, end).len() as int,
        ) == point_text(end),
{
    let ps = point_text(start);
    let pe = point_text(end);
    let range = range_text(start, end);
    lemma_point_text_chars(start);
    lemma_point_text_chars(end);
    assert forall|j: int| 0 <= j < ps.len() implies range[j] != '-' by {
        assert(range[j] == ps[j]);
    }
    assert forall|j: int| 0 <= j < range.len() implies range[j] != '=' by {
        if j < ps.len() {
            assert(range[j] == ps[j]);
        } else if j > ps.len() {
            assert(range[j] == pe[j - ps.len() - 1]);
        }
    }
    lemma_first_index(range, '-', ps.len() as int);
    lemma_first_index(range, '=', range.len() as int);
    assert(range.subrange(0, ps.len() as int) =~= ps);
    assert(range.subrange(ps.len() as int + 1, range.len() as int) =~= pe);
}

/// A region's text falls apart into its label and its range's text, provided
/// that the label holds no `=`.
pub proof fn lemma_region_text_parts(r: RegionModel)
    requires
        r.label is Some ==> forall|j: int| 0 <= j < r.label->0.len() ==> r.label->0[j] != '=',
    ensures
        label_part(region_text(r)) == r.label,
        range_part(region_text(r)) == range_text(r.start, r.end),
{
    let range = range_text(r.start, r.end);
    let t = region_text(r);
    lemma_range_text_parts(r.start, r.end);
    match r.label {
        None => {},
        Some(l) => {
            assert forall|j: int| 0 <= j < l.len() implies t[j] != '=' by {
                assert(t[j] == l[j]);
            }
            lemma_first_index(t, '=', l.len() as int);
            assert(t.subrange(0, l.len() as int) =~= l);
            assert(t.subrange(l.len() as int + 1, t.len() as int) =~= range);
        },
    }
}

/// Reading the text of a region gives the region back, provided that its label
/// holds no `=`.
pub proof fn lemma_region_text_parses(r: RegionModel)
    requires
        r.label is Some ==> forall|j: int| 0 <= j < r.label->0.len() ==> r.label->0[j] != '=',
    ensures
        parse_region_spec(region_text(r)) == Ok::<RegionModel, ParseError>(r),
{
    lemma_region_text_parts(r);
    lemma_range_text_parts(r.start, r.end);
    lemma_point_text_parses(r.start);
    lemma_point_text_parses(r.end);
}

/// Round trip: whatever region a text is read as, writing that region and
/// reading it again gives the same label, start and end.
pub proof fn law_region_round_trip(s: Seq<char>, r: RegionModel)
    requires
        parse_region_spec(s) == Ok::<RegionModel, ParseError>(r),
    ensures
        parse_region_spec(region_text(r)) == Ok::<RegionModel, ParseError>(r),
{
    lemma_first_index_bounds(s, '=');
    assert(r.label == label_part(s));
    lemma_region_text_parses(r);
}

/// White space around either number of a point does not count: a text with a
/// `,` reads as the text does that is left when both sides are trimmed.
pub proof fn law_point_ignores_outer_space(s: Seq<char>)
    requires
        first_index(s, ',') < s.len(),
    ensures
        parse_point_spec(s) == parse_point_spec(
            trim(s.subrange(0, first_index(s, ',') as int)) + seq![','] + trim(
                s.subrange(first_index(s, ',') as int + 1, s.len() as int),
            ),
        ),
{
    let i = first_index(s, ',') as int;
    let a = s.subrange(0, i);
    let b = s.subrange(i + 1, s.len() as int);
    let t = trim(a) + seq![','] + trim(b);
    lemma_first_index_bounds(s, ',');
    lemma_trim_keeps_absent(a, ',');
    assert forall|j: int| 0 <= j < trim(a).len() implies t[j] != ',' by {
        assert(t[j] == trim(a)[j]);
    }
    lemma_first_index(t, ',', trim(a).len() as int);
    assert(t.subrange(0, trim(a).len() as int) =~= trim(a));
    assert(t.subrange(trim(a).len() as int + 1, t.len() as int) =~= trim(b));
    lemma_trim_idempotent(a);
    lemma_trim_idempotent(b);
}

} // verus!
