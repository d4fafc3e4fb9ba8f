//! Lengths, points, and the drawing operations a page is made of.
use crate::color::Color;
use vstd::prelude::*;

verus! {

/// Lengths are integers in units of 1/914400 inch, so that whole
/// millimetres and whole points both convert without loss.
pub const UNITS_PER_MM: i64 = 10 * UNITS_PER_TENTH_MM;

/// Units in a tenth of a millimetre.
pub const UNITS_PER_TENTH_MM: i64 = 10 * UNITS_PER_HUNDREDTH_MM;

/// Units in a hundredth of a millimetre.
pub const UNITS_PER_HUNDREDTH_MM: i64 = 360;

/// Units in one typographic point (1/72 inch).
pub const UNITS_PER_PT: i64 = 12700;

/// A position on the page, in units, from the bottom left corner.
#[derive(Clone, Copy, Debug, PartialEq, Eq, Structural)]
pub struct Point {
    pub x: i64,
    pub y: i64,
}

#[derive(Clone, Copy, Debug, PartialEq, Eq, Structural)]
pub enum Font {
    Regular,
    Bold,
    Thin,
}

/// One step of drawing a page. Shapes are closed and filled; coordinates
/// and sizes are in units, font sizes and line heights in points.
#[derive(Debug)]
pub enum DrawOp {
    SetFillColor(Color),
    SetOutlineColor(Color),
    BeginText,
    EndText,
    SetFont(Font, i64),
    SetTextCursor(Point),
    SetLineHeight(i64),
    WriteText(String, Font),
    LineBreak,
    /// A polygon through the points, without outline.
    Polygon(Vec<(Point, bool)>),
    /// A circle of the given radius around the point, filled and outlined.
    Circle(i64, Point),
    /// The profile picture, scaled to a square of the given side with its
    /// bottom left corner at the point.
    Picture(Point, i64),
    /// A square RGB image of `side` pixels a side, three bytes a pixel, row
    /// by row, placed at the page origin.
    Image(Vec<u8>, usize),
}

/// `ops` starts with `prefix`.
pub open spec fn extends(ops: Seq<DrawOp>, prefix: Seq<DrawOp>) -> bool {
    prefix.len() <= ops.len() && ops.subrange(0, prefix.len() as int) == prefix
}

pub broadcast proof fn lemma_extends_push(ops: Seq<DrawOp>, prefix: Seq<DrawOp>, op: DrawOp)
    requires
        extends(ops, prefix),
    ensures
        #[trigger] extends(ops.push(op), prefix),
{
    assert(ops.push(op).subrange(0, prefix.len() as int) =~= ops.subrange(0, prefix.len() as int));
}

pub broadcast proof fn lemma_extends_trans(a: Seq<DrawOp>, b: Seq<DrawOp>, c: Seq<DrawOp>)
    requires
        extends(a, b),
        extends(b, c),
    ensures
        #![trigger extends(a, b), extends(b, c)]
        extends(a, c),
{
    assert(a.subrange(0, c.len() as int) =~= a.subrange(0, b.len() as int).subrange(0, c.len() as int));
}

pub proof fn lemma_extends_refl(a: Seq<DrawOp>)
    ensures
        extends(a, a),
{
    assert(a.subrange(0, a.len() as int) =~= a);
}

/// From position `pos` on, `ops` writes each of `lines` in `font`, each
/// followed by a line break.
pub open spec fn lines_at(ops: Seq<DrawOp>, pos: int, lines: Seq<Seq<char>>, font: Font) -> bool {
    &&& 0 <= pos
    &&& pos + 2 * lines.len() <= ops.len()
    &&& forall|k: int|
        0 <= k < lines.len() ==> (#[trigger] ops[pos + 2 * k] matches DrawOp::WriteText(t, f) && t@ == lines[k]
            && f == font) && ops[pos + 2 * k + 1] == DrawOp::LineBreak
}

pub broadcast proof fn lemma_extends_index(ops: Seq<DrawOp>, prefix: Seq<DrawOp>, i: int)
    requires
        extends(ops, prefix),
        0 <= i < prefix.len(),
    ensures
        #![trigger extends(ops, prefix), prefix[i]]
        ops[i] == prefix[i],
{
    assert(ops.subrange(0, prefix.len() as int)[i] == ops[i]);
}

pub broadcast proof fn lemma_extends_lines(ops: Seq<DrawOp>, prefix: Seq<DrawOp>, pos: int, lines: Seq<Seq<char>>, font: Font)
    requires
        extends(ops, prefix),
        lines_at(prefix, pos, lines, font),
    ensures
        #![trigger extends(ops, prefix), lines_at(prefix, pos, lines, font)]
        lines_at(ops, pos, lines, font),
{
    assert forall|k: int| 0 <= k < lines.len() implies (#[trigger] ops[pos + 2 * k] matches DrawOp::WriteText(t, f)
        && t@ == lines[k] && f == font) && ops[pos + 2 * k + 1] == DrawOp::LineBreak by {
        lemma_extends_index(ops, prefix, pos + 2 * k);
        lemma_extends_index(ops, prefix, pos + 2 * k + 1);
    }
}

/// Somewhere from position `from` on, `ops` writes `text` in `font`.
pub open spec fn shows(ops: Seq<DrawOp>, from: int, text: Seq<char>, font: Font) -> bool {
    exists|q: int| 0 <= from <= q < ops.len() && writes(#[trigger] ops[q], text, font)
}

/// `op` writes `text` in `font`.
pub open spec fn writes(op: DrawOp, text: Seq<char>, font: Font) -> bool {
    op matches DrawOp::WriteText(t, f) && t@ == text && f == font
}

pub broadcast proof fn lemma_extends_shows(ops: Seq<DrawOp>, prefix: Seq<DrawOp>, from: int, text: Seq<char>, font: Font)
    requires
        extends(ops, prefix),
        shows(prefix, from, text, font),
    ensures
        #![trigger extends(ops, prefix), shows(prefix, from, text, font)]
        shows(ops, from, text, font),
{
    let q = choose|q: int| 0 <= from <= q < prefix.len() && writes(#[trigger] prefix[q], text, font);
    lemma_extends_index(ops, prefix, q);
}

pub proof fn lemma_shows_earlier(ops: Seq<DrawOp>, from: int, earlier: int, text: Seq<char>, font: Font)
    requires
        shows(ops, from, text, font),
        0 <= earlier <= from,
    ensures
        shows(ops, earlier, text, font),
{
    let q = choose|q: int| 0 <= from <= q < ops.len() && writes(#[trigger] ops[q], text, font);
    assert(0 <= earlier <= q < ops.len() && writes(ops[q], text, font));
}

/// The four corners of the rectangle with bottom left corner
/// `(offset_x, offset_y)`, clockwise from the top left, none a curve point.
pub open spec fn rectangle(offset_x: int, offset_y: int, width: int, height: int) -> Seq<(Point, bool)> {
    let top = offset_y + height;
    let right = offset_x + width;
    seq![
        (Point { x: offset_x as i64, y: top as i64 }, false),
        (Point { x: right as i64, y: top as i64 }, false),
        (Point { x: right as i64, y: offset_y as i64 }, false),
        (Point { x: offset_x as i64, y: offset_y as i64 }, false),
    ]
}

pub open spec fn fits(v: int) -> bool {
    i64::MIN <= v <= i64::MAX
}

pub fn rectangle_points(offset_x: i64, offset_y: i64, width: i64, height: i64) -> (r: Vec<(Point, bool)>)
    requires
        fits(offset_x + width),
        fits(offset_y + height),
    ensures
        r@ == rectangle(offset_x as int, offset_y as int, width as int, height as int),
{
    let top = offset_y + height;
    let right = offset_x + width;
    let r = vec![
        (Point { x: offset_x, y: top }, false),
        (Point { x: right, y: top }, false),
        (Point { x: right, y: offset_y }, false),
        (Point { x: offset_x, y: offset_y }, false),
    ];
    assert(r@ =~= rectangle(offset_x as int, offset_y as int, width as int, height as int));
    r
}

} // verus!
