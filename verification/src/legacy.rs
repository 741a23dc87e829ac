//! The string-based polygon interchange format kept for older callers:
//! polygons as `"x1,y1 x2,y2"` point lists with hex colors, and the
//! conversions between them and shapes.

use vstd::prelude::*;

verus! {

use vstd::string::StringExecFns;

use crate::fixed::{FX_ONE, fx_ok};
use crate::geom::{Vec2, vec2_ok};
use crate::color::{Color, spec_from_hex, spec_to_hex};
use crate::shape::{Shape, ShapeGeometry, ShapeStyle, StrokeStyle, shape_ok};
use crate::transform::{Transform2D, transform_ok, spec_transform_point};
use crate::ids::IdAllocator;
use crate::points::{parse_svg_points, spec_svg_points};
use crate::text::{push_char, push_decimal, spec_dec_digits};

/// A polygon in the interchange format: the points as one string, hex
/// colors, and a stroke width.
#[derive(Clone, Debug, PartialEq)]
pub struct Polygon {
    pub points: String,
    pub fill: String,
    pub stroke: String,
    pub stroke_width: i64,
}

impl Polygon {
    pub fn new(points: String, fill: String, stroke: String, stroke_width: i64) -> (p: Polygon)
        ensures
            p.points@ == points@,
            p.fill@ == fill@,
            p.stroke@ == stroke@,
            p.stroke_width == stroke_width,
    {
        Polygon { points, fill, stroke, stroke_width }
    }

    /// The first of the three starter triangles.
    pub fn default_triangle_1() -> (p: Polygon)
        ensures
            p.points@ == "230,220 260,220 245,250"@,
            p.fill@ == "#ef4444"@,
            p.stroke@ == "#000000"@,
            p.stroke_width == FX_ONE,
    {
        Polygon {
            points: String::from_str("230,220 260,220 245,250"),
            fill: String::from_str("#ef4444"),
            stroke: String::from_str("#000000"),
            stroke_width: FX_ONE,
        }
    }

    /// The second starter triangle.
    pub fn default_triangle_2() -> (p: Polygon)
        ensures
            p.points@ == "270,230 300,230 285,260"@,
            p.fill@ == "#3b82f6"@,
            p.stroke@ == "#000000"@,
            p.stroke_width == FX_ONE,
    {
        Polygon {
            points: String::from_str("270,230 300,230 285,260"),
            fill: String::from_str("#3b82f6"),
            stroke: String::from_str("#000000"),
            stroke_width: FX_ONE,
        }
    }

    /// The third starter triangle.
    pub fn default_triangle_3() -> (p: Polygon)
        ensures
            p.points@ == "240,270 270,270 255,300"@,
            p.fill@ == "#22c55e"@,
            p.stroke@ == "#000000"@,
            p.stroke_width == FX_ONE,
    {
        Polygon {
            points: String::from_str("240,270 270,270 255,300"),
            fill: String::from_str("#22c55e"),
            stroke: String::from_str("#000000"),
            stroke_width: FX_ONE,
        }
    }
}

/// A shape built from an interchange polygon: its parsed points, its
/// parsed colors (an unparsable stroke color leaves the shape unstroked),
/// a fresh identifier and the identity transform.
pub fn shape_from_polygon(ids: &mut IdAllocator, polygon: &Polygon) -> (s: Shape)
    requires
        old(ids).next_id < u64::MAX,
        0 <= polygon.stroke_width <= crate::fixed::FX_MAX,
    ensures
        s.id == old(ids).next_id,
        final(ids).next_id == old(ids).next_id + 1,
        s.geometry == (ShapeGeometry::Polygon {
            points: s.geometry->Polygon_points,
        }),
        s.geometry->Polygon_points@ == spec_svg_points(polygon.points@, 0),
        s.style.fill == spec_from_hex(polygon.fill@),
        s.style.stroke == match spec_from_hex(polygon.stroke@) {
            Some(c) => Some(StrokeStyle { color: c, width: polygon.stroke_width }),
            None => None::<StrokeStyle>,
        },
        s.transform == crate::transform::spec_identity(),
        s.dirty,
{
    let points = parse_svg_points(polygon.points.as_str());
    let geometry = ShapeGeometry::Polygon { points };
    let fill = Color::from_hex(polygon.fill.as_str());
    let stroke = match Color::from_hex(polygon.stroke.as_str()) {
        Some(color) => Some(StrokeStyle { color, width: polygon.stroke_width }),
        None => None,
    };
    let style = ShapeStyle { fill, stroke };
    Shape::new(ids, geometry, style)
}

/// The value a coordinate prints as: rounded to whole units, half away
/// from zero.
pub open spec fn spec_round_units(v: int) -> int {
    if v >= 0 {
        (v + (FX_ONE as int) / 2) / (FX_ONE as int)
    } else {
        -((-v + (FX_ONE as int) / 2) / (FX_ONE as int))
    }
}

/// The decimal rendering of a whole-unit value, with a leading minus for
/// negative values.
pub open spec fn spec_units_chars(u: int) -> Seq<char> {
    if u >= 0 {
        spec_dec_digits(u)
    } else {
        seq!['-'] + spec_dec_digits(-u)
    }
}

/// The interchange rendering of a transformed point list: `"x,y"` pairs
/// joined by single spaces, each coordinate rounded to whole units.
pub open spec fn spec_stringify(points: Seq<Vec2>, t: Transform2D, i: int) -> Seq<char>
    decreases points.len() - i,
{
    if i < 0 || i >= points.len() {
        Seq::empty()
    } else {
        let tp = spec_transform_point(t, points[i]);
        let entry = spec_units_chars(spec_round_units(tp.x as int)) + seq![',']
            + spec_units_chars(spec_round_units(tp.y as int));
        let sep: Seq<char> = if i > 0 {
            seq![' ']
        } else {
            Seq::empty()
        };
        sep + entry + spec_stringify(points, t, i + 1)
    }
}

/// Round a coordinate to whole units, half away from zero.
fn round_units(v: i64) -> (r: i64)
    requires
        fx_ok(v as int),
    ensures
        r == spec_round_units(v as int),
{
    if v >= 0 {
        crate::fixed::fx_div_floor(v + FX_ONE / 2, FX_ONE)
    } else {
        -crate::fixed::fx_div_floor(-v + FX_ONE / 2, FX_ONE)
    }
}

/// Append the decimal rendering of a whole-unit value.
fn push_units(s: &mut String, u: i64)
    requires
        -4_700_000_000_000 <= u <= 4_700_000_000_000,
    ensures
        final(s)@ == old(s)@ + spec_units_chars(u as int),
{
    if u >= 0 {
        push_decimal(s, u as u64);
    } else {
        push_char(s, '-');
        push_decimal(s, (-u) as u64);
        proof {
            assert(final(s)@ =~= old(s)@ + spec_units_chars(u as int));
        }
    }
}

/// Render a point list in the interchange format, applying a transform
/// first.
pub fn stringify_points(points: &Vec<Vec2>, transform: &Transform2D) -> (s: String)
    requires
        forall|k: int| 0 <= k < points@.len() ==> vec2_ok(#[trigger] points@[k]),
        transform_ok(*transform),
    ensures
        s@ == spec_stringify(points@, *transform, 0),
{
    let mut s = String::new();
    let mut i: usize = 0;
    while i < points.len()
        invariant
            0 <= i <= points@.len(),
            forall|k: int| 0 <= k < points@.len() ==> vec2_ok(#[trigger] points@[k]),
            transform_ok(*transform),
            spec_stringify(points@, *transform, 0) == s@ + spec_stringify(
                points@,
                *transform,
                i as int,
            ),
        decreases points@.len() - i,
    {
        let ghost sb = s@;
        if i > 0 {
            push_char(&mut s, ' ');
        }
        let tp = transform.transform_point(points[i]);
        let ux = round_units(tp.x);
        let uy = round_units(tp.y);
        proof {
            crate::fixed::lemma_div_abs_bound(
                tp.x + (FX_ONE as int) / 2,
                FX_ONE as int,
                4_612_186_018_427_387_903,
            );
            crate::fixed::lemma_div_abs_bound(
                -(tp.x as int) + (FX_ONE as int) / 2,
                FX_ONE as int,
                4_612_186_018_427_387_903,
            );
            crate::fixed::lemma_div_abs_bound(
                tp.y + (FX_ONE as int) / 2,
                FX_ONE as int,
                4_612_186_018_427_387_903,
            );
            crate::fixed::lemma_div_abs_bound(
                -(tp.y as int) + (FX_ONE as int) / 2,
                FX_ONE as int,
                4_612_186_018_427_387_903,
            );
            assert(4_612_186_018_427_387_903int / 1_000_000 < 4_700_000_000_000)
                by (nonlinear_arith);
            crate::fixed::lemma_div_abs_bound(
                4_612_186_018_427_387_903,
                1_000_000,
                4_612_186_018_427_387_903,
            );
        }
        push_units(&mut s, ux);
        push_char(&mut s, ',');
        push_units(&mut s, uy);
        proof {
            assert(s@ =~= sb + (if i > 0 {
                seq![' ']
            } else {
                Seq::<char>::empty()
            }) + spec_units_chars(ux as int) + seq![','] + spec_units_chars(uy as int));
            assert(sb + spec_stringify(points@, *transform, i as int) =~= s@ + spec_stringify(
                points@,
                *transform,
                i + 1,
            ));
        }
        i = i + 1;
    }
    proof {
        assert(spec_stringify(points@, *transform, points@.len() as int) =~= Seq::<char>::empty());
        assert(s@ + Seq::<char>::empty() =~= s@);
    }
    s
}

/// An interchange polygon built back from a shape: only polygon geometry
/// converts; missing colors print as black.
pub fn shape_to_polygon(shape: &Shape) -> (r: Option<Polygon>)
    requires
        shape_ok(*shape),
    ensures
        r is Some <==> shape.geometry is Polygon,
        r is Some ==> ({
            let p = r->0;
            &&& p.points@ == spec_stringify(
                shape.geometry->Polygon_points@,
                shape.transform,
                0,
            )
            &&& p.fill@ == match shape.style.fill {
                Some(c) => spec_to_hex(c),
                None => "#000000"@,
            }
            &&& p.stroke@ == match shape.style.stroke {
                Some(st) => spec_to_hex(st.color),
                None => "#000000"@,
            }
            &&& p.stroke_width == match shape.style.stroke {
                Some(st) => st.width as int,
                None => FX_ONE as int,
            }
        }),
{
    match &shape.geometry {
        ShapeGeometry::Polygon { points } => {
            let points_str = stringify_points(points, &shape.transform);
            let fill = match shape.style.fill {
                Some(c) => c.to_hex(),
                None => String::from_str("#000000"),
            };
            let stroke = match shape.style.stroke {
                Some(st) => st.color.to_hex(),
                None => String::from_str("#000000"),
            };
            let stroke_width = match shape.style.stroke {
                Some(st) => st.width,
                None => FX_ONE,
            };
            Some(Polygon { points: points_str, fill, stroke, stroke_width })
        },
        _ => None,
    }
}

} // verus!
