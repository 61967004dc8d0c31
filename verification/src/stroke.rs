//! Reconstruction of stroke and line drawables from coordinate data.

use vstd::prelude::*;

use crate::style::{PipelineError, Style, StyleView};

verus! {

/// One point of a reconstructed stroke path. Coordinates and pressure
/// are opaque IEEE-754 bit patterns; the library never interprets them
/// numerically, and the application converts them at its boundary.
#[derive(Clone, Copy, Debug, PartialEq, Eq, Structural)]
pub struct PathPoint {
    pub x: u64,
    pub y: u64,
    pub pressure: u64,
}

/// The bit pattern encoding full pen pressure (the value one), used for
/// both endpoints of a line item.
pub const PRESSURE_MAX: u64 = 0x3FF0000000000000;

/// A reconstructed stroke or line drawable: an ordered point path, a
/// pen-width literal and a color. `None` means the document sink's
/// defaults apply.
pub struct StrokeDrawable {
    pub points: Vec<PathPoint>,
    pub width: Option<String>,
    pub color: Option<(u8, u8, u8, u8)>,
}

/// The mathematical view of a [`StrokeDrawable`].
pub struct StrokeDrawableView {
    pub points: Seq<PathPoint>,
    pub width: Option<Seq<char>>,
    pub color: Option<(u8, u8, u8, u8)>,
}

impl View for StrokeDrawable {
    type V = StrokeDrawableView;

    open spec fn view(&self) -> StrokeDrawableView {
        StrokeDrawableView {
            points: self.points@,
            width: match self.width {
                Some(w) => Some(w@),
                None => None,
            },
            color: self.color,
        }
    }
}

/// The view of an optional borrowed style.
pub open spec fn opt_style_view(st: Option<&Style>) -> Option<StyleView> {
    match st {
        Some(s) => Some(s@),
        None => None,
    }
}

/// The view of a stroke-building result.
pub open spec fn stroke_result_view(r: Result<StrokeDrawable, PipelineError>) -> Result<
    StrokeDrawableView,
    PipelineError,
> {
    match r {
        Ok(d) => Ok(d@),
        Err(e) => Err(e),
    }
}

/// What stroke reconstruction yields: equal-length non-empty X/Y/F
/// arrays zip, point by point, into a path of the same length with
/// pressure preserved; the resolved style supplies the width literal and
/// the color with its alpha forced to fully opaque; with no resolved
/// style the sink defaults apply. Empty or unequal arrays are a fatal
/// input error, never truncated.
pub open spec fn stroke_spec(
    x: Seq<u64>,
    y: Seq<u64>,
    f: Seq<u64>,
    st: Option<StyleView>,
) -> Result<StrokeDrawableView, PipelineError> {
    if x.len() == 0 || x.len() != y.len() || x.len() != f.len() {
        Err(PipelineError::EmptyOrMismatchedArrays)
    } else {
        Ok(
            StrokeDrawableView {
                points: Seq::new(
                    x.len(),
                    |i: int| PathPoint { x: x[i], y: y[i], pressure: f[i] },
                ),
                width: match st {
                    Some(s) => Some(s.pen_width),
                    None => None,
                },
                color: match st {
                    Some(s) => Some((s.color.0, s.color.1, s.color.2, 255u8)),
                    None => None,
                },
            },
        )
    }
}

/// What line building yields: the element's single style is required;
/// the two endpoints become a two-point path at full pressure, with the
/// style's width literal and its color kept as decoded, alpha included.
pub open spec fn line_spec(x1: u64, y1: u64, x2: u64, y2: u64, st: Option<StyleView>) -> Result<
    StrokeDrawableView,
    PipelineError,
> {
    match st {
        None => Err(PipelineError::MissingStyleForLine),
        Some(s) => Ok(
            StrokeDrawableView {
                points: seq![
                    PathPoint { x: x1, y: y1, pressure: PRESSURE_MAX },
                    PathPoint { x: x2, y: y2, pressure: PRESSURE_MAX },
                ],
                width: Some(s.pen_width),
                color: Some(s.color),
            },
        ),
    }
}

/// Rebuilds a stroke drawable from parallel coordinate arrays `x`, `y`
/// and pressure array `f`, with the style resolved for the item, if any.
pub fn build_stroke(x: &Vec<u64>, y: &Vec<u64>, f: &Vec<u64>, st: Option<&Style>) -> (r: Result<
    StrokeDrawable,
    PipelineError,
>)
    ensures
        stroke_result_view(r) == stroke_spec(x@, y@, f@, opt_style_view(st)),
{
    let n = x.len();
    if n == 0 || n != y.len() || n != f.len() {
        return Err(PipelineError::EmptyOrMismatchedArrays);
    }
    let mut points: Vec<PathPoint> = Vec::new();
    let mut i: usize = 0;
    while i < n
        invariant
            0 <= i <= n,
            n == x@.len() && n == y@.len() && n == f@.len(),
            points@.len() == i,
            forall|j: int|
                0 <= j < i ==> points@[j] == (PathPoint {
                    x: x@[j],
                    y: y@[j],
                    pressure: f@[j],
                }),
        decreases n - i,
    {
        points.push(PathPoint { x: x[i], y: y[i], pressure: f[i] });
        i = i + 1;
    }
    let (width, color) = match st {
        Some(s) => {
            let (cr, cg, cb, _ca) = s.color;
            (Some(s.pen_width.clone()), Some((cr, cg, cb, 255u8)))
        },
        None => (None, None),
    };
    let d = StrokeDrawable { points, width, color };
    proof {
        assert(d@.points =~= stroke_spec(x@, y@, f@, opt_style_view(st))->Ok_0.points);
    }
    Ok(d)
}

/// Builds a line drawable from two endpoints and the owning element's
/// single style.
pub fn build_line(x1: u64, y1: u64, x2: u64, y2: u64, st: Option<&Style>) -> (r: Result<
    StrokeDrawable,
    PipelineError,
>)
    ensures
        stroke_result_view(r) == line_spec(x1, y1, x2, y2, opt_style_view(st)),
{
    match st {
        None => Err(PipelineError::MissingStyleForLine),
        Some(s) => {
            let mut points: Vec<PathPoint> = Vec::new();
            points.push(PathPoint { x: x1, y: y1, pressure: PRESSURE_MAX });
            points.push(PathPoint { x: x2, y: y2, pressure: PRESSURE_MAX });
            let d = StrokeDrawable {
                points,
                width: Some(s.pen_width.clone()),
                color: Some(s.color),
            };
            proof {
                assert(d@.points =~= line_spec(x1, y1, x2, y2, opt_style_view(st))->Ok_0.points);
            }
            Ok(d)
        },
    }
}

} // verus!
