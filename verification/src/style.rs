//! Vocabulary enums for the drawing backend: line styles, text layout,
//! compositing modes and canvas context kinds, each with its canonical
//! backend keyword.

use vstd::prelude::*;

verus! {

/// Line ending style for stroked paths.
#[derive(Clone, Copy, Debug, PartialEq, Eq, Structural)]
pub enum LineCap {
    Butt,
    Round,
    Square,
}

impl LineCap {
    /// The backend keyword for this cap style.
    pub fn as_str(&self) -> (r: &'static str)
        ensures
            r@ == self.keyword(),
    {
        proof {
            reveal_strlit("butt");
            reveal_strlit("round");
            reveal_strlit("square");
        }
        match self {
            LineCap::Butt => "butt",
            LineCap::Round => "round",
            LineCap::Square => "square",
        }
    }

    pub closed spec fn keyword(self) -> Seq<char> {
        match self {
            LineCap::Butt => "butt"@,
            LineCap::Round => "round"@,
            LineCap::Square => "square"@,
        }
    }
}

/// Corner style where two stroked segments meet.
#[derive(Clone, Copy, Debug, PartialEq, Eq, Structural)]
pub enum LineJoin {
    Miter,
    Round,
    Bevel,
}

impl LineJoin {
    /// The backend keyword for this value.
    pub closed spec fn keyword(self) -> Seq<char> {
        match self {
            LineJoin::Miter => "miter"@,
            LineJoin::Round => "round"@,
            LineJoin::Bevel => "bevel"@,
        }
    }

    /// The backend keyword as a string slice.
    pub fn as_str(&self) -> (r: &'static str)
        ensures
            r@ == self.keyword(),
    {
        match self {
            LineJoin::Miter => "miter",
            LineJoin::Round => "round",
            LineJoin::Bevel => "bevel",
        }
    }
}

/// Horizontal text alignment.
#[derive(Clone, Copy, Debug, PartialEq, Eq, Structural)]
pub enum TextAlign {
    Start,
    End,
    Left,
    Right,
    Center,
}

impl TextAlign {
    /// The backend keyword for this value.
    pub closed spec fn keyword(self) -> Seq<char> {
        match self {
            TextAlign::Start => "start"@,
            TextAlign::End => "end"@,
            TextAlign::Left => "left"@,
            TextAlign::Right => "right"@,
            TextAlign::Center => "center"@,
        }
    }

    /// The backend keyword as a string slice.
    pub fn as_str(&self) -> (r: &'static str)
        ensures
            r@ == self.keyword(),
    {
        match self {
            TextAlign::Start => "start",
            TextAlign::End => "end",
            TextAlign::Left => "left",
            TextAlign::Right => "right",
            TextAlign::Center => "center",
        }
    }
}

/// Vertical text baseline.
#[derive(Clone, Copy, Debug, PartialEq, Eq, Structural)]
pub enum TextBaseline {
    Top,
    Hanging,
    Middle,
    Alphabetic,
    Ideographic,
    Bottom,
}

impl TextBaseline {
    /// The backend keyword for this value.
    pub closed spec fn keyword(self) -> Seq<char> {
        match self {
            TextBaseline::Top => "top"@,
            TextBaseline::Hanging => "hanging"@,
            TextBaseline::Middle => "middle"@,
            TextBaseline::Alphabetic => "alphabetic"@,
            TextBaseline::Ideographic => "ideographic"@,
            TextBaseline::Bottom => "bottom"@,
        }
    }

    /// The backend keyword as a string slice.
    pub fn as_str(&self) -> (r: &'static str)
        ensures
            r@ == self.keyword(),
    {
        match self {
            TextBaseline::Top => "top",
            TextBaseline::Hanging => "hanging",
            TextBaseline::Middle => "middle",
            TextBaseline::Alphabetic => "alphabetic",
            TextBaseline::Ideographic => "ideographic",
            TextBaseline::Bottom => "bottom",
        }
    }
}

/// Pixel compositing mode for drawing operations.
#[derive(Clone, Copy, Debug, PartialEq, Eq, Structural)]
pub enum CompositeOperation {
    SourceOver,
    SourceIn,
    SourceOut,
    SourceAtop,
    DestinationOver,
    DestinationIn,
    DestinationOut,
    DestinationAtop,
    Lighter,
    Copy,
    Xor,
    Multiply,
    Screen,
    Overlay,
    Darken,
    Lighten,
    ColorDodge,
    ColorBurn,
    HardLight,
    SoftLight,
    Difference,
    Exclusion,
    Hue,
    Saturation,
    Color,
    Luminosity,
}

impl CompositeOperation {
    /// The backend keyword for this value.
    pub closed spec fn keyword(self) -> Seq<char> {
        match self {
            CompositeOperation::SourceOver => "source-over"@,
            CompositeOperation::SourceIn => "source-in"@,
            CompositeOperation::SourceOut => "source-out"@,
            CompositeOperation::SourceAtop => "source-atop"@,
            CompositeOperation::DestinationOver => "destination-over"@,
            CompositeOperation::DestinationIn => "destination-in"@,
            CompositeOperation::DestinationOut => "destination-out"@,
            CompositeOperation::DestinationAtop => "destination-atop"@,
            CompositeOperation::Lighter => "lighter"@,
            CompositeOperation::Copy => "copy"@,
            CompositeOperation::Xor => "xor"@,
            CompositeOperation::Multiply => "multiply"@,
            CompositeOperation::Screen => "screen"@,
            CompositeOperation::Overlay => "overlay"@,
            CompositeOperation::Darken => "darken"@,
            CompositeOperation::Lighten => "lighten"@,
            CompositeOperation::ColorDodge => "color-dodge"@,
            CompositeOperation::ColorBurn => "color-burn"@,
            CompositeOperation::HardLight => "hard-light"@,
            CompositeOperation::SoftLight => "soft-light"@,
            CompositeOperation::Difference => "difference"@,
            CompositeOperation::Exclusion => "exclusion"@,
            CompositeOperation::Hue => "hue"@,
            CompositeOperation::Saturation => "saturation"@,
            CompositeOperation::Color => "color"@,
            CompositeOperation::Luminosity => "luminosity"@,
        }
    }

    /// The backend keyword as a string slice.
    pub fn as_str(&self) -> (r: &'static str)
        ensures
            r@ == self.keyword(),
    {
        match self {
            CompositeOperation::SourceOver => "source-over",
            CompositeOperation::SourceIn => "source-in",
            CompositeOperation::SourceOut => "source-out",
            CompositeOperation::SourceAtop => "source-atop",
            CompositeOperation::DestinationOver => "destination-over",
            CompositeOperation::DestinationIn => "destination-in",
            CompositeOperation::DestinationOut => "destination-out",
            CompositeOperation::DestinationAtop => "destination-atop",
            CompositeOperation::Lighter => "lighter",
            CompositeOperation::Copy => "copy",
            CompositeOperation::Xor => "xor",
            CompositeOperation::Multiply => "multiply",
            CompositeOperation::Screen => "screen",
            CompositeOperation::Overlay => "overlay",
            CompositeOperation::Darken => "darken",
            CompositeOperation::Lighten => "lighten",
            CompositeOperation::ColorDodge => "color-dodge",
            CompositeOperation::ColorBurn => "color-burn",
            CompositeOperation::HardLight => "hard-light",
            CompositeOperation::SoftLight => "soft-light",
            CompositeOperation::Difference => "difference",
            CompositeOperation::Exclusion => "exclusion",
            CompositeOperation::Hue => "hue",
            CompositeOperation::Saturation => "saturation",
            CompositeOperation::Color => "color",
            CompositeOperation::Luminosity => "luminosity",
        }
    }
}

/// How a fill pattern tiles.
#[derive(Clone, Copy, Debug, PartialEq, Eq, Structural)]
pub enum PatternRepetition {
    Repeat,
    RepeatX,
    RepeatY,
    NoRepeat,
}

impl PatternRepetition {
    /// The backend keyword for this value.
    pub closed spec fn keyword(self) -> Seq<char> {
        match self {
            PatternRepetition::Repeat => "repeat"@,
            PatternRepetition::RepeatX => "repeat-x"@,
            PatternRepetition::RepeatY => "repeat-y"@,
            PatternRepetition::NoRepeat => "no-repeat"@,
        }
    }

    /// The backend keyword as a string slice.
    pub fn as_str(&self) -> (r: &'static str)
        ensures
            r@ == self.keyword(),
    {
        match self {
            PatternRepetition::Repeat => "repeat",
            PatternRepetition::RepeatX => "repeat-x",
            PatternRepetition::RepeatY => "repeat-y",
            PatternRepetition::NoRepeat => "no-repeat",
        }
    }
}

/// The kind of drawing context a surface provides.
#[derive(Clone, Copy, Debug, PartialEq, Eq, Structural)]
pub enum CanvasContextType {
    Canvas2d,
    WebGl2,
}

impl CanvasContextType {
    /// The backend keyword for this value.
    pub closed spec fn keyword(self) -> Seq<char> {
        match self {
            CanvasContextType::Canvas2d => "2d"@,
            CanvasContextType::WebGl2 => "webgl2"@,
        }
    }

    /// The backend keyword as a string slice.
    pub fn as_str(&self) -> (r: &'static str)
        ensures
            r@ == self.keyword(),
    {
        match self {
            CanvasContextType::Canvas2d => "2d",
            CanvasContextType::WebGl2 => "webgl2",
        }
    }
}

} // verus!
