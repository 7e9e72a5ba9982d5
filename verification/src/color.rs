//! The colour palette activators are drawn from.

use vstd::prelude::*;

verus! {

/// One colour channel quadruple in sRGB, each channel 0..=255.
#[derive(Clone, Copy, Debug, PartialEq, Eq, Structural)]
pub struct Rgba {
    pub red: u8,
    pub green: u8,
    pub blue: u8,
    pub alpha: u8,
}

/// The palette of colours used for activator circles.
#[derive(Clone, Copy, Debug, PartialEq, Eq, Structural)]
pub enum ColorPalette {
    BlueViolet,
    CornflowerBlue,
    DarkOrchid,
    Indigo,
    RebeccaPurple,
}

impl Default for ColorPalette {
    fn default() -> (r: Self)
        ensures
            r is BlueViolet,
    {
        ColorPalette::BlueViolet
    }
}

impl ColorPalette {
    /// The sRGB channel values of this palette entry (the CSS colours of the
    /// same names), fully opaque.
    pub fn to_rgba(&self) -> (r: Rgba)
        ensures
            r == self.rgba_spec(),
    {
        match self {
            ColorPalette::BlueViolet => Rgba { red: 138, green: 43, blue: 226, alpha: 255 },
            ColorPalette::CornflowerBlue => Rgba { red: 100, green: 149, blue: 237, alpha: 255 },
            ColorPalette::DarkOrchid => Rgba { red: 153, green: 50, blue: 204, alpha: 255 },
            ColorPalette::Indigo => Rgba { red: 75, green: 0, blue: 130, alpha: 255 },
            ColorPalette::RebeccaPurple => Rgba { red: 102, green: 51, blue: 153, alpha: 255 },
        }
    }

    pub open spec fn rgba_spec(self) -> Rgba {
        match self {
            ColorPalette::BlueViolet => Rgba { red: 138, green: 43, blue: 226, alpha: 255 },
            ColorPalette::CornflowerBlue => Rgba { red: 100, green: 149, blue: 237, alpha: 255 },
            ColorPalette::DarkOrchid => Rgba { red: 153, green: 50, blue: 204, alpha: 255 },
            ColorPalette::Indigo => Rgba { red: 75, green: 0, blue: 130, alpha: 255 },
            ColorPalette::RebeccaPurple => Rgba { red: 102, green: 51, blue: 153, alpha: 255 },
        }
    }

    /// The palette entry a position hash selects: hashes one to four pick
    /// the four non-default colours; anything else falls back to the
    /// default.
    pub fn palette_from_hash(hash: u8) -> (r: ColorPalette)
        ensures
            r == (if hash == 1 {
                ColorPalette::CornflowerBlue
            } else if hash == 2 {
                ColorPalette::DarkOrchid
            } else if hash == 3 {
                ColorPalette::Indigo
            } else if hash == 4 {
                ColorPalette::RebeccaPurple
            } else {
                ColorPalette::BlueViolet
            }),
    {
        match hash {
            1 => ColorPalette::CornflowerBlue,
            2 => ColorPalette::DarkOrchid,
            3 => ColorPalette::Indigo,
            4 => ColorPalette::RebeccaPurple,
            _ => ColorPalette::BlueViolet,
        }
    }

    /// Every palette entry, each exactly once.
    pub fn enumerate() -> (r: Vec<ColorPalette>)
        ensures
            r@ == seq![
                ColorPalette::BlueViolet,
                ColorPalette::CornflowerBlue,
                ColorPalette::DarkOrchid,
                ColorPalette::Indigo,
                ColorPalette::RebeccaPurple,
            ],
    {
        let mut v: Vec<ColorPalette> = Vec::new();
        v.push(ColorPalette::BlueViolet);
        v.push(ColorPalette::CornflowerBlue);
        v.push(ColorPalette::DarkOrchid);
        v.push(ColorPalette::Indigo);
        v.push(ColorPalette::RebeccaPurple);
        proof {
            assert(v@ =~= seq![
                ColorPalette::BlueViolet,
                ColorPalette::CornflowerBlue,
                ColorPalette::DarkOrchid,
                ColorPalette::Indigo,
                ColorPalette::RebeccaPurple,
            ]);
        }
        v
    }
}

} // verus!
