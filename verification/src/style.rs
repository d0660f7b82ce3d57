//! Text styling for axis labels and captions: font description, colour,
//! and alignment. These are plain immutable value objects; actual font
//! rasterisation lives with the drawing backends outside the library.
use vstd::prelude::*;

use crate::backend::RGBAColor;

verus! {

/// Anything that can name an RGBA colour.
pub trait Color {
    /// What `to_rgba` returns.
    spec fn spec_rgba(&self) -> RGBAColor;

    fn to_rgba(&self) -> (r: RGBAColor)
        ensures
            r == self.spec_rgba(),
    ;
}

impl Color for RGBAColor {
    open spec fn spec_rgba(&self) -> RGBAColor {
        *self
    }

    fn to_rgba(&self) -> RGBAColor {
        *self
    }
}

/// The horizontal anchoring of a piece of text.
#[derive(Clone, Copy, PartialEq, Eq, Structural, Debug)]
pub enum TextAlignment {
    Left,
    Right,
    Center,
}

/// A font family, by name.
#[derive(Clone, Copy, PartialEq, Eq, Structural, Debug)]
pub enum FontFamily {
    Serif,
    SansSerif,
    Monospace,
}

/// The weight and slant of a font.
#[derive(Clone, Copy, PartialEq, Eq, Structural, Debug)]
pub enum FontStyle {
    Normal,
    Oblique,
    Italic,
    Bold,
}

/// The rotation applied to drawn text.
#[derive(Clone, Copy, PartialEq, Eq, Structural, Debug)]
pub enum FontTransform {
    Rotate0,
    Rotate90,
    Rotate180,
    Rotate270,
}

/// A font to draw text with: family, size in pixels, style and rotation.
#[derive(Clone, Copy, PartialEq, Eq, Structural, Debug)]
pub struct FontDesc {
    pub family: FontFamily,
    pub size: u32,
    pub style: FontStyle,
    pub transform: FontTransform,
}

impl FontDesc {
    /// A font of the given family and pixel size, upright and unrotated.
    pub fn new(family: FontFamily, size: u32) -> (r: FontDesc)
        ensures
            r == (FontDesc { family, size, style: FontStyle::Normal, transform: FontTransform::Rotate0 }),
    {
        FontDesc { family, size, style: FontStyle::Normal, transform: FontTransform::Rotate0 }
    }

    /// The same font rotated by `trans`.
    pub fn transform(&self, trans: FontTransform) -> (r: FontDesc)
        ensures
            r == (FontDesc { transform: trans, ..*self }),
    {
        FontDesc { family: self.family, size: self.size, style: self.style, transform: trans }
    }
}

/// The style of a piece of text: its font, colour and alignment.
#[derive(Clone, Copy, PartialEq, Eq, Structural, Debug)]
pub struct TextStyle {
    pub font: FontDesc,
    pub color: RGBAColor,
    pub alignment: TextAlignment,
}

/// Anything that can serve as a text style, possibly by filling in the
/// default colour and alignment.
pub trait IntoTextStyle {
    /// What `into_text_style` returns.
    spec fn spec_text_style(self) -> TextStyle;

    fn into_text_style(self) -> (r: TextStyle)
        ensures
            r == self.spec_text_style(),
    ;
}

/// Black, fully opaque: the default text colour.
pub open spec fn spec_default_color() -> RGBAColor {
    RGBAColor(0, 0, 0, 255)
}

impl IntoTextStyle for TextStyle {
    open spec fn spec_text_style(self) -> TextStyle {
        self
    }

    fn into_text_style(self) -> TextStyle {
        self
    }
}

impl IntoTextStyle for FontDesc {
    open spec fn spec_text_style(self) -> TextStyle {
        TextStyle { font: self, color: spec_default_color(), alignment: TextAlignment::Left }
    }

    fn into_text_style(self) -> TextStyle {
        TextStyle {
            font: self,
            color: RGBAColor(0, 0, 0, 255),
            alignment: TextAlignment::Left,
        }
    }
}

impl IntoTextStyle for FontFamily {
    open spec fn spec_text_style(self) -> TextStyle {
        TextStyle {
            font: FontDesc {
                family: self,
                size: 12,
                style: FontStyle::Normal,
                transform: FontTransform::Rotate0,
            },
            color: spec_default_color(),
            alignment: TextAlignment::Left,
        }
    }

    fn into_text_style(self) -> TextStyle {
        TextStyle {
            font: FontDesc {
                family: self,
                size: 12,
                style: FontStyle::Normal,
                transform: FontTransform::Rotate0,
            },
            color: RGBAColor(0, 0, 0, 255),
            alignment: TextAlignment::Left,
        }
    }
}

impl TextStyle {
    /// The same style in another colour.
    pub fn color<C: Color>(&self, color: &C) -> (r: TextStyle)
        ensures
            r == (TextStyle { color: color.spec_rgba(), ..*self }),
    {
        TextStyle { font: self.font, color: color.to_rgba(), alignment: self.alignment }
    }

    /// The same style with its font rotated.
    pub fn transform(&self, trans: FontTransform) -> (r: TextStyle)
        ensures
            r.font == (FontDesc { transform: trans, ..self.font }),
            r.color == self.color,
            r.alignment == self.alignment,
    {
        TextStyle { font: self.font.transform(trans), color: self.color, alignment: self.alignment }
    }

    /// The same style anchored differently.
    pub fn alignment(&self, alignment: TextAlignment) -> (r: TextStyle)
        ensures
            r == (TextStyle { alignment, ..*self }),
    {
        TextStyle { font: self.font, color: self.color, alignment }
    }
}

/// The failure a font lookup can report.
#[derive(Clone, Copy, PartialEq, Eq, Structural, Debug)]
pub struct FontError;

/// The bounding box of a piece of laid-out text: its upper-left and
/// lower-right corners relative to the anchor.
pub type LayoutBox = ((i32, i32), (i32, i32));

/// A crude, backend-independent font: it remembers the family and style
/// names and estimates layout from the character count alone, as no glyph
/// metrics are available here.
#[derive(Clone, PartialEq, Eq)]
pub struct FontDataInternal(pub String, pub String);

impl FontDataInternal {
    /// Remember the family and style names.
    pub fn new(family: String, style: String) -> (r: Result<Self, FontError>)
        ensures
            r == Result::<FontDataInternal, FontError>::Ok(FontDataInternal(family, style)),
    {
        Ok(FontDataInternal(family, style))
    }

    /// A rough bounding box: eight tenths of the size above the baseline,
    /// two tenths below, and half the size per character across.
    pub fn estimate_layout(&self, size: u32, text: &str) -> (r: Result<LayoutBox, FontError>)
        requires
            size <= 10000,
            text@.len() <= 100000,
        ensures
            ({
                let sz = size as int;
                let ascent = (8 * sz + 5) / 10;
                let descent = (2 * sz + 5) / 10;
                let width = (sz * text@.len() as int + 1) / 2;
                r == Result::<LayoutBox, FontError>::Ok(
                    ((0, (-ascent) as i32), (width as i32, descent as i32)),
                )
            }),
    {
        let sz = size as u64;
        let ascent: u64 = (8 * sz + 5) / 10;
        let descent: u64 = (2 * sz + 5) / 10;
        let n = text.unicode_len() as u64;
        proof {
            assert(sz * n <= 10000 * 100000) by (nonlinear_arith)
                requires
                    0 <= sz <= 10000,
                    0 <= n <= 100000,
            ;
        }
        let width: u64 = (sz * n + 1) / 2;
        Ok(((0, -(ascent as i32)), (width as i32, descent as i32)))
    }
}

} // verus!
