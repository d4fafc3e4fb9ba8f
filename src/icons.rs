//! The icon font: symbolic names to glyphs, and the colors of social
//! networks.
use crate::color::{Color, Rgb};
use crate::draw::{DrawOp, Font};
use crate::text::{char_text, push_text, same_text};
use vstd::prelude::*;

verus! {

/// The glyph of a named icon, for the names the icon font covers.
pub open spec fn glyph_of(name: Seq<char>) -> Option<char> {
    if name == "cake"@ {
        Some('\u{f1fd}')
    } else if name == "envelope"@ {
        Some('\u{f0e0}')
    } else if name == "gitlab"@ {
        Some('\u{f296}')
    } else if name == "github"@ {
        Some('\u{f09b}')
    } else if name == "linkedin"@ {
        Some('\u{f08c}')
    } else if name == "twitter"@ {
        Some('\u{f099}')
    } else if name == "phone"@ {
        Some('\u{f095}')
    } else if name == "map-marker"@ {
        Some('\u{f041}')
    } else {
        None
    }
}

/// An icon name the icon font does not cover.
#[derive(Debug)]
pub struct UnkownFontError {
    font: String,
}

impl UnkownFontError {
    pub fn new(font: &str) -> (r: UnkownFontError)
        ensures
            r.font()@ == font@,
    {
        UnkownFontError { font: font.to_owned() }
    }

    pub closed spec fn font(&self) -> String {
        self.font
    }

    /// The name that was asked for.
    pub fn name(&self) -> (r: &str)
        ensures
            r@ == self.font()@,
    {
        self.font.as_str()
    }

    /// "Unknown font: " followed by the name.
    pub fn message(&self) -> (r: String)
        ensures
            r@ == "Unknown font: "@ + self.font()@,
    {
        let mut r = "Unknown font: ".to_owned();
        push_text(&mut r, self.font.as_str());
        proof {
            reveal_strlit("Unknown font: ");
        }
        r
    }
}

/// Looks up the glyph of a named icon.
pub fn glyph(name: &str) -> (r: Result<char, UnkownFontError>)
    ensures
        r matches Ok(c) ==> glyph_of(name@) == Some(c),
        r matches Err(e) ==> glyph_of(name@) is None && e.font()@ == name@,
        r is Ok <==> glyph_of(name@) is Some,
{
    proof {
        reveal_strlit("cake");
        reveal_strlit("envelope");
        reveal_strlit("gitlab");
        reveal_strlit("github");
        reveal_strlit("linkedin");
        reveal_strlit("twitter");
        reveal_strlit("phone");
        reveal_strlit("map-marker");
    }
    if same_text(name, "cake") {
        Ok('\u{f1fd}')
    } else if same_text(name, "envelope") {
        Ok('\u{f0e0}')
    } else if same_text(name, "gitlab") {
        Ok('\u{f296}')
    } else if same_text(name, "github") {
        Ok('\u{f09b}')
    } else if same_text(name, "linkedin") {
        Ok('\u{f08c}')
    } else if same_text(name, "twitter") {
        Ok('\u{f099}')
    } else if same_text(name, "phone") {
        Ok('\u{f095}')
    } else if same_text(name, "map-marker") {
        Ok('\u{f041}')
    } else {
        Err(UnkownFontError::new(name))
    }
}

/// The fill color of a social network's icon: the brand color of twitter,
/// linkedin and gitlab, `fallback` for any other network.
pub open spec fn social_color_of(name: Seq<char>, fallback: Color) -> Color {
    if name == "twitter"@ {
        Color::Rgb(Rgb { r: 1100, g: 6300, b: 9500 })
    } else if name == "linkedin"@ {
        Color::Rgb(Rgb { r: 0, g: 4600, b: 7000 })
    } else if name == "gitlab"@ {
        Color::Rgb(Rgb { r: 8800, g: 2600, b: 1600 })
    } else {
        fallback
    }
}

pub fn social_color(name: &str, fallback: Color) -> (r: Color)
    ensures
        r == social_color_of(name@, fallback),
{
    proof {
        reveal_strlit("twitter");
        reveal_strlit("linkedin");
        reveal_strlit("gitlab");
    }
    if same_text(name, "twitter") {
        Color::Rgb(Rgb::new(1100, 6300, 9500))
    } else if same_text(name, "linkedin") {
        Color::Rgb(Rgb::new(0, 4600, 7000))
    } else if same_text(name, "gitlab") {
        Color::Rgb(Rgb::new(8800, 2600, 1600))
    } else {
        fallback
    }
}

/// The icon font, held once and handed to whatever draws icons.
#[derive(Debug, Clone, Copy)]
pub struct FontAwesome {
    pub regular: Font,
}

impl FontAwesome {
    pub fn new(regular: Font) -> (r: FontAwesome)
        ensures
            r.regular == regular,
    {
        FontAwesome { regular }
    }

    /// Draws the named icon in `color`: sets the fill color and the font,
    /// then writes the glyph. An unknown name draws nothing.
    pub fn print_icon(&self, ops: &mut Vec<DrawOp>, name: &str, font_size: i64, color: Color) -> (r:
        Result<(), UnkownFontError>)
        ensures
            r is Ok <==> glyph_of(name@) is Some,
            r matches Err(e) ==> e.font()@ == name@ && final(ops)@ == old(ops)@,
            r is Ok ==> icon_drawn(final(ops)@, old(ops)@, glyph_of(name@)->0, font_size, color, self.regular),
    {
        let c = glyph(name)?;
        let ghost start = ops@;
        ops.push(DrawOp::SetFillColor(color));
        ops.push(DrawOp::SetFont(self.regular, font_size));
        ops.push(DrawOp::WriteText(char_text(c), self.regular));
        assert(ops@.subrange(0, start.len() as int) =~= start);
        Ok(())
    }
}

/// `ops` is `prefix` followed by setting the fill color and the font and
/// writing the glyph.
pub open spec fn icon_drawn(
    ops: Seq<DrawOp>,
    prefix: Seq<DrawOp>,
    glyph: char,
    font_size: i64,
    color: Color,
    font: Font,
) -> bool {
    &&& ops.len() == prefix.len() + 3
    &&& ops.subrange(0, prefix.len() as int) == prefix
    &&& ops[prefix.len() as int] == DrawOp::SetFillColor(color)
    &&& ops[prefix.len() + 1int] == DrawOp::SetFont(font, font_size)
    &&& ops[prefix.len() + 2int] matches DrawOp::WriteText(t, f) && t@ == seq![glyph] && f == font
}

} // verus!
