//! Visual value types: easing curves, anchors, and blending parameters.

use vstd::prelude::*;

use vstd::string::StringSliceAdditionalSpecFns;

use crate::num::{u8_plain_ok, u8_plain_val};
use crate::text::bytes_eq;

verus! {

/// An interpolation curve applied between a command's start and end value.
#[derive(Copy, Clone, Debug, PartialEq, Eq, Structural)]
pub enum Easing {
    Linear,
    Out,
    In,
    InQuad,
    OutQuad,
    InOutQuad,
    InCubic,
    OutCubic,
    InOutCubic,
    InQuart,
    OutQuart,
    InOutQuart,
    InQuint,
    OutQuint,
    InOutQuint,
    InSine,
    OutSine,
    InOutSine,
    InExpo,
    OutExpo,
    InOutExpo,
    InCirc,
    OutCirc,
    InOutCirc,
    InElastic,
    OutElastic,
    OutElasticHalf,
    OutElasticQuarter,
    InOutElastic,
    InBack,
    OutBack,
    InOutBack,
    InBounce,
    OutBounce,
    InOutBounce,
    OutPow10,
}

/// The easing curve named by a wire-format code; unknown codes mean no easing.
pub open spec fn easing_from_code(c: int) -> Easing {
    if c == 1 {
        Easing::Out
    } else if c == 2 {
        Easing::In
    } else if c == 3 {
        Easing::InQuad
    } else if c == 4 {
        Easing::OutQuad
    } else if c == 5 {
        Easing::InOutQuad
    } else if c == 6 {
        Easing::InCubic
    } else if c == 7 {
        Easing::OutCubic
    } else if c == 8 {
        Easing::InOutCubic
    } else if c == 9 {
        Easing::InQuart
    } else if c == 10 {
        Easing::OutQuart
    } else if c == 11 {
        Easing::InOutQuart
    } else if c == 12 {
        Easing::InQuint
    } else if c == 13 {
        Easing::OutQuint
    } else if c == 14 {
        Easing::InOutQuint
    } else if c == 15 {
        Easing::InSine
    } else if c == 16 {
        Easing::OutSine
    } else if c == 17 {
        Easing::InOutSine
    } else if c == 18 {
        Easing::InExpo
    } else if c == 19 {
        Easing::OutExpo
    } else if c == 20 {
        Easing::InOutExpo
    } else if c == 21 {
        Easing::InCirc
    } else if c == 22 {
        Easing::OutCirc
    } else if c == 23 {
        Easing::InOutCirc
    } else if c == 24 {
        Easing::InElastic
    } else if c == 25 {
        Easing::OutElastic
    } else if c == 26 {
        Easing::OutElasticHalf
    } else if c == 27 {
        Easing::OutElasticQuarter
    } else if c == 28 {
        Easing::InOutElastic
    } else if c == 29 {
        Easing::InBack
    } else if c == 30 {
        Easing::OutBack
    } else if c == 31 {
        Easing::InOutBack
    } else if c == 32 {
        Easing::InBounce
    } else if c == 33 {
        Easing::OutBounce
    } else if c == 34 {
        Easing::InOutBounce
    } else if c == 35 {
        Easing::OutPow10
    } else {
        Easing::Linear
    }
}

/// The wire-format code of an easing curve.
pub open spec fn easing_code(e: Easing) -> int {
    match e {
        Easing::Linear => 0,
        Easing::Out => 1,
        Easing::In => 2,
        Easing::InQuad => 3,
        Easing::OutQuad => 4,
        Easing::InOutQuad => 5,
        Easing::InCubic => 6,
        Easing::OutCubic => 7,
        Easing::InOutCubic => 8,
        Easing::InQuart => 9,
        Easing::OutQuart => 10,
        Easing::InOutQuart => 11,
        Easing::InQuint => 12,
        Easing::OutQuint => 13,
        Easing::InOutQuint => 14,
        Easing::InSine => 15,
        Easing::OutSine => 16,
        Easing::InOutSine => 17,
        Easing::InExpo => 18,
        Easing::OutExpo => 19,
        Easing::InOutExpo => 20,
        Easing::InCirc => 21,
        Easing::OutCirc => 22,
        Easing::InOutCirc => 23,
        Easing::InElastic => 24,
        Easing::OutElastic => 25,
        Easing::OutElasticHalf => 26,
        Easing::OutElasticQuarter => 27,
        Easing::InOutElastic => 28,
        Easing::InBack => 29,
        Easing::OutBack => 30,
        Easing::InOutBack => 31,
        Easing::InBounce => 32,
        Easing::OutBounce => 33,
        Easing::InOutBounce => 34,
        Easing::OutPow10 => 35,
    }
}

impl Easing {
    /// The curve named by a wire-format code.
    pub fn from_code(c: i32) -> (r: Easing)
        ensures
            r == easing_from_code(c as int),
    {
        if c == 1 {
            Easing::Out
        } else if c == 2 {
            Easing::In
        } else if c == 3 {
            Easing::InQuad
        } else if c == 4 {
            Easing::OutQuad
        } else if c == 5 {
            Easing::InOutQuad
        } else if c == 6 {
            Easing::InCubic
        } else if c == 7 {
            Easing::OutCubic
        } else if c == 8 {
            Easing::InOutCubic
        } else if c == 9 {
            Easing::InQuart
        } else if c == 10 {
            Easing::OutQuart
        } else if c == 11 {
            Easing::InOutQuart
        } else if c == 12 {
            Easing::InQuint
        } else if c == 13 {
            Easing::OutQuint
        } else if c == 14 {
            Easing::InOutQuint
        } else if c == 15 {
            Easing::InSine
        } else if c == 16 {
            Easing::OutSine
        } else if c == 17 {
            Easing::InOutSine
        } else if c == 18 {
            Easing::InExpo
        } else if c == 19 {
            Easing::OutExpo
        } else if c == 20 {
            Easing::InOutExpo
        } else if c == 21 {
            Easing::InCirc
        } else if c == 22 {
            Easing::OutCirc
        } else if c == 23 {
            Easing::InOutCirc
        } else if c == 24 {
            Easing::InElastic
        } else if c == 25 {
            Easing::OutElastic
        } else if c == 26 {
            Easing::OutElasticHalf
        } else if c == 27 {
            Easing::OutElasticQuarter
        } else if c == 28 {
            Easing::InOutElastic
        } else if c == 29 {
            Easing::InBack
        } else if c == 30 {
            Easing::OutBack
        } else if c == 31 {
            Easing::InOutBack
        } else if c == 32 {
            Easing::InBounce
        } else if c == 33 {
            Easing::OutBounce
        } else if c == 34 {
            Easing::InOutBounce
        } else if c == 35 {
            Easing::OutPow10
        } else {
            Easing::Linear
        }
    }

    /// The wire-format code written for this curve.
    pub fn code(self) -> (r: u8)
        ensures
            r as int == easing_code(self),
    {
        match self {
            Easing::Linear => 0,
            Easing::Out => 1,
            Easing::In => 2,
            Easing::InQuad => 3,
            Easing::OutQuad => 4,
            Easing::InOutQuad => 5,
            Easing::InCubic => 6,
            Easing::OutCubic => 7,
            Easing::InOutCubic => 8,
            Easing::InQuart => 9,
            Easing::OutQuart => 10,
            Easing::InOutQuart => 11,
            Easing::InQuint => 12,
            Easing::OutQuint => 13,
            Easing::InOutQuint => 14,
            Easing::InSine => 15,
            Easing::OutSine => 16,
            Easing::InOutSine => 17,
            Easing::InExpo => 18,
            Easing::OutExpo => 19,
            Easing::InOutExpo => 20,
            Easing::InCirc => 21,
            Easing::OutCirc => 22,
            Easing::InOutCirc => 23,
            Easing::InElastic => 24,
            Easing::OutElastic => 25,
            Easing::OutElasticHalf => 26,
            Easing::OutElasticQuarter => 27,
            Easing::InOutElastic => 28,
            Easing::InBack => 29,
            Easing::OutBack => 30,
            Easing::InOutBack => 31,
            Easing::InBounce => 32,
            Easing::OutBounce => 33,
            Easing::InOutBounce => 34,
            Easing::OutPow10 => 35,
        }
    }
}

/// Writing a curve's code and reading it back names the same curve.
pub proof fn lemma_easing_code_round_trip(e: Easing)
    ensures
        easing_from_code(easing_code(e)) == e,
{
}

/// An anchor point on a drawable's rectangle, held as bit flags: one of the
/// `Y` rows combined with one of the `X` columns.
#[derive(Copy, Clone, Debug, PartialEq, Eq, Structural)]
pub struct Anchor(pub u8);

/// Flag for the top row.
pub const ANCHOR_Y0: u8 = 1;

/// Flag for the centre row.
pub const ANCHOR_Y1: u8 = 2;

/// Flag for the bottom row.
pub const ANCHOR_Y2: u8 = 4;

/// Flag for the left column.
pub const ANCHOR_X0: u8 = 8;

/// Flag for the centre column.
pub const ANCHOR_X1: u8 = 16;

/// Flag for the right column.
pub const ANCHOR_X2: u8 = 32;

/// Flag for a custom anchor.
pub const ANCHOR_CUSTOM: u8 = 64;

impl Anchor {
    pub fn top_left() -> (r: Self)
        ensures
            r.0 == 9,
    {
        Anchor(9)
    }

    pub fn top_center() -> (r: Self)
        ensures
            r.0 == 17,
    {
        Anchor(17)
    }

    pub fn top_right() -> (r: Self)
        ensures
            r.0 == 33,
    {
        Anchor(33)
    }

    pub fn center_left() -> (r: Self)
        ensures
            r.0 == 10,
    {
        Anchor(10)
    }

    pub fn center() -> (r: Self)
        ensures
            r.0 == 18,
    {
        Anchor(18)
    }

    pub fn center_right() -> (r: Self)
        ensures
            r.0 == 34,
    {
        Anchor(34)
    }

    pub fn bottom_left() -> (r: Self)
        ensures
            r.0 == 12,
    {
        Anchor(12)
    }

    pub fn bottom_center() -> (r: Self)
        ensures
            r.0 == 20,
    {
        Anchor(20)
    }

    pub fn bottom_right() -> (r: Self)
        ensures
            r.0 == 36,
    {
        Anchor(36)
    }
}

/// The named origin points of the wire format.
#[derive(Copy, Clone, Debug, PartialEq, Eq, Structural)]
pub enum Origins {
    TopLeft,
    Centre,
    CentreLeft,
    TopRight,
    BottomCentre,
    TopCentre,
    Custom,
    CentreRight,
    BottomLeft,
    BottomRight,
}

/// The origin named by a wire-format code; out-of-range codes are custom.
pub open spec fn origins_from_code(c: int) -> Origins {
    if c == 0 {
        Origins::TopLeft
    } else if c == 1 {
        Origins::Centre
    } else if c == 2 {
        Origins::CentreLeft
    } else if c == 3 {
        Origins::TopRight
    } else if c == 4 {
        Origins::BottomCentre
    } else if c == 5 {
        Origins::TopCentre
    } else if c == 6 {
        Origins::Custom
    } else if c == 7 {
        Origins::CentreRight
    } else if c == 8 {
        Origins::BottomLeft
    } else if c == 9 {
        Origins::BottomRight
    } else {
        Origins::Custom
    }
}

/// The origin named by its name; unknown names are custom.
pub open spec fn origins_from_name(s: Seq<u8>) -> Origins {
    if s == "TopLeft".spec_bytes() {
        Origins::TopLeft
    } else if s == "Centre".spec_bytes() {
        Origins::Centre
    } else if s == "CentreLeft".spec_bytes() {
        Origins::CentreLeft
    } else if s == "TopRight".spec_bytes() {
        Origins::TopRight
    } else if s == "BottomCentre".spec_bytes() {
        Origins::BottomCentre
    } else if s == "TopCentre".spec_bytes() {
        Origins::TopCentre
    } else if s == "Custom".spec_bytes() {
        Origins::Custom
    } else if s == "CentreRight".spec_bytes() {
        Origins::CentreRight
    } else if s == "BottomLeft".spec_bytes() {
        Origins::BottomLeft
    } else if s == "BottomRight".spec_bytes() {
        Origins::BottomRight
    } else {
        Origins::Custom
    }
}

/// The origin named by a field: a numeric code when the field is one, else
/// its name.
pub open spec fn origins_of_field(s: Seq<u8>) -> Origins {
    if u8_plain_ok(s) {
        origins_from_code(u8_plain_val(s))
    } else {
        origins_from_name(s)
    }
}

/// The anchor point an origin stands for; a custom origin falls back to the
/// top left.
pub open spec fn anchor_of_origins(o: Origins) -> Anchor {
    match o {
        Origins::TopLeft => Anchor(9),
        Origins::Centre => Anchor(18),
        Origins::CentreLeft => Anchor(10),
        Origins::TopRight => Anchor(33),
        Origins::BottomCentre => Anchor(20),
        Origins::TopCentre => Anchor(17),
        Origins::Custom => Anchor(9),
        Origins::CentreRight => Anchor(34),
        Origins::BottomLeft => Anchor(12),
        Origins::BottomRight => Anchor(36),
    }
}

/// The origin an anchor is written back as; unnamed anchors are custom.
pub open spec fn origins_of_anchor(a: Anchor) -> Origins {
    if a == Anchor(9) {
        Origins::TopLeft
    } else if a == Anchor(17) {
        Origins::TopCentre
    } else if a == Anchor(33) {
        Origins::TopRight
    } else if a == Anchor(10) {
        Origins::CentreLeft
    } else if a == Anchor(18) {
        Origins::Centre
    } else if a == Anchor(34) {
        Origins::CentreRight
    } else if a == Anchor(12) {
        Origins::BottomLeft
    } else if a == Anchor(20) {
        Origins::BottomCentre
    } else if a == Anchor(36) {
        Origins::BottomRight
    } else {
        Origins::Custom
    }
}

/// The wire-format code of an origin.
pub open spec fn origins_code(o: Origins) -> int {
    match o {
        Origins::TopLeft => 0,
        Origins::Centre => 1,
        Origins::CentreLeft => 2,
        Origins::TopRight => 3,
        Origins::BottomCentre => 4,
        Origins::TopCentre => 5,
        Origins::Custom => 6,
        Origins::CentreRight => 7,
        Origins::BottomLeft => 8,
        Origins::BottomRight => 9,
    }
}

impl Origins {
    /// Read an origin field and return the anchor point it stands for.
    pub fn parse(s: &[u8]) -> (r: Anchor)
        ensures
            r == anchor_of_origins(origins_of_field(s@)),
    {
        let origins = match crate::num::parse_u8_plain(s) {
            Some(0) => Origins::TopLeft,
            Some(1) => Origins::Centre,
            Some(2) => Origins::CentreLeft,
            Some(3) => Origins::TopRight,
            Some(4) => Origins::BottomCentre,
            Some(5) => Origins::TopCentre,
            Some(6) => Origins::Custom,
            Some(7) => Origins::CentreRight,
            Some(8) => Origins::BottomLeft,
            Some(9) => Origins::BottomRight,
            Some(_) => Origins::Custom,
            None => Self::parse_name(s),
        };
        match origins {
            Origins::TopLeft => Anchor::top_left(),
            Origins::Centre => Anchor::center(),
            Origins::CentreLeft => Anchor::center_left(),
            Origins::TopRight => Anchor::top_right(),
            Origins::BottomCentre => Anchor::bottom_center(),
            Origins::TopCentre => Anchor::top_center(),
            Origins::CentreRight => Anchor::center_right(),
            Origins::BottomLeft => Anchor::bottom_left(),
            Origins::BottomRight => Anchor::bottom_right(),
            Origins::Custom => Anchor::top_left(),
        }
    }

    /// Read an origin by its name.
    fn parse_name(s: &[u8]) -> (r: Origins)
        ensures
            r == origins_from_name(s@),
    {
        if bytes_eq(s, "TopLeft".as_bytes()) {
            Origins::TopLeft
        } else if bytes_eq(s, "Centre".as_bytes()) {
            Origins::Centre
        } else if bytes_eq(s, "CentreLeft".as_bytes()) {
            Origins::CentreLeft
        } else if bytes_eq(s, "TopRight".as_bytes()) {
            Origins::TopRight
        } else if bytes_eq(s, "BottomCentre".as_bytes()) {
            Origins::BottomCentre
        } else if bytes_eq(s, "TopCentre".as_bytes()) {
            Origins::TopCentre
        } else if bytes_eq(s, "Custom".as_bytes()) {
            Origins::Custom
        } else if bytes_eq(s, "CentreRight".as_bytes()) {
            Origins::CentreRight
        } else if bytes_eq(s, "BottomLeft".as_bytes()) {
            Origins::BottomLeft
        } else if bytes_eq(s, "BottomRight".as_bytes()) {
            Origins::BottomRight
        } else {
            Origins::Custom
        }
    }

    /// The origin an anchor point is written back as.
    pub fn from_anchor(a: Anchor) -> (r: Origins)
        ensures
            r == origins_of_anchor(a),
    {
        if a.0 == 9 {
            Origins::TopLeft
        } else if a.0 == 17 {
            Origins::TopCentre
        } else if a.0 == 33 {
            Origins::TopRight
        } else if a.0 == 10 {
            Origins::CentreLeft
        } else if a.0 == 18 {
            Origins::Centre
        } else if a.0 == 34 {
            Origins::CentreRight
        } else if a.0 == 12 {
            Origins::BottomLeft
        } else if a.0 == 20 {
            Origins::BottomCentre
        } else if a.0 == 36 {
            Origins::BottomRight
        } else {
            Origins::Custom
        }
    }

    /// The wire-format code written for this origin.
    pub fn code(self) -> (r: u8)
        ensures
            r as int == origins_code(self),
    {
        match self {
            Origins::TopLeft => 0,
            Origins::Centre => 1,
            Origins::CentreLeft => 2,
            Origins::TopRight => 3,
            Origins::BottomCentre => 4,
            Origins::TopCentre => 5,
            Origins::Custom => 6,
            Origins::CentreRight => 7,
            Origins::BottomLeft => 8,
            Origins::BottomRight => 9,
        }
    }
}

/// A two-dimensional position or vector scale.
#[derive(Copy, Clone, Debug, PartialEq, Eq, Structural)]
pub struct Pos {
    pub x: crate::num::Num,
    pub y: crate::num::Num,
}

/// An RGBA colour with eight bits per channel.
#[derive(Copy, Clone, Debug, PartialEq, Eq, Structural)]
pub struct Color {
    pub red: u8,
    pub green: u8,
    pub blue: u8,
    pub alpha: u8,
}

/// A blending factor for one component of a blend.
#[derive(Copy, Clone, Debug, PartialEq, Eq, Structural)]
pub enum Blending {
    Inherit,
    ConstantAlpha,
    ConstantColor,
    DstAlpha,
    DstColor,
    One,
    OneMinusConstantAlpha,
    OneMinusConstantColor,
    OneMinusDstAlpha,
    OneMinusDstColor,
    OneMinusSrcAlpha,
    OneMinusSrcColor,
    SrcAlpha,
    SrcAlphaSaturate,
    SrcColor,
    Zero,
}

/// A blending equation for one component of a blend.
#[derive(Copy, Clone, Debug, PartialEq, Eq, Structural)]
pub enum BlendingEquation {
    /// Inherits from the parent.
    Inherit,
    /// Adds the source and destination colours.
    Add,
    /// Chooses the minimum of each component.
    Min,
    /// Chooses the maximum of each component.
    Max,
    /// Subtracts the destination colour from the source colour.
    Subtract,
    /// Subtracts the source colour from the destination colour.
    ReverseSubtract,
}

/// How a drawable is blended into its destination.
#[derive(Copy, Clone, Debug, PartialEq, Eq, Structural)]
pub struct BlendingParameters {
    /// The blending factor for the source colour.
    pub src: Blending,
    /// The blending factor for the destination colour.
    pub dst: Blending,
    /// The blending factor for the source alpha.
    pub src_alpha: Blending,
    /// The blending factor for the destination alpha.
    pub dst_alpha: Blending,
    /// The blending equation for the colour components.
    pub rgb_equation: BlendingEquation,
    /// The blending equation for the alpha component.
    pub alpha_equation: BlendingEquation,
}

/// Additive blending, as applied by a parameter command.
pub open spec fn blending_additive() -> BlendingParameters {
    BlendingParameters {
        src: Blending::SrcAlpha,
        dst: Blending::One,
        src_alpha: Blending::One,
        dst_alpha: Blending::One,
        rgb_equation: BlendingEquation::Add,
        alpha_equation: BlendingEquation::Add,
    }
}

/// Blending inherited from the parent.
pub open spec fn blending_inherit() -> BlendingParameters {
    BlendingParameters {
        src: Blending::Inherit,
        dst: Blending::Inherit,
        src_alpha: Blending::Inherit,
        dst_alpha: Blending::Inherit,
        rgb_equation: BlendingEquation::Inherit,
        alpha_equation: BlendingEquation::Inherit,
    }
}

impl BlendingParameters {
    /// Additive blending.
    pub fn additive() -> (r: Self)
        ensures
            r == blending_additive(),
    {
        BlendingParameters {
            src: Blending::SrcAlpha,
            dst: Blending::One,
            src_alpha: Blending::One,
            dst_alpha: Blending::One,
            rgb_equation: BlendingEquation::Add,
            alpha_equation: BlendingEquation::Add,
        }
    }

    /// Blending inherited from the parent.
    pub fn inherit() -> (r: Self)
        ensures
            r == blending_inherit(),
    {
        BlendingParameters {
            src: Blending::Inherit,
            dst: Blending::Inherit,
            src_alpha: Blending::Inherit,
            dst_alpha: Blending::Inherit,
            rgb_equation: BlendingEquation::Inherit,
            alpha_equation: BlendingEquation::Inherit,
        }
    }
}

} // verus!
