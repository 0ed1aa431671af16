//! Colormaps: mappings from a saturation ratio in [0, 1] to an RGBA color.

use vstd::prelude::*;
use crate::color::Color;

verus! {

/// Which colormap the height-stddev strategy uses.
#[derive(Clone, Copy, Debug, PartialEq, Eq, Structural)]
pub enum ColormapArgument {
    Jet,
    Purplish,
}

/// The fixed hue that the monochrome ramp of `ColormapArgument::Purplish`
/// runs toward.
pub open spec fn purplish_spec() -> Color {
    Color { red: 170u8, green: 100u8, blue: 255u8, alpha: 255u8 }
}

/// The fixed purplish hue of the monochrome colormap.
pub fn purplish() -> (c: Color)
    ensures
        c == purplish_spec(),
{
    Color { red: 170, green: 100, blue: 255, alpha: 255 }
}

/// One channel of the jet gradient: the classic tent function centered at
/// `k/4` of the range, scaled to bytes; `num/den` is the saturation.
pub open spec fn jet_channel_spec(k: int, num: int, den: int) -> u8 {
    let dev = if 4 * num >= k * den {
        4 * num - k * den
    } else {
        k * den - 4 * num
    };
    let t = 3 * den - 2 * dev;
    if t <= 0 {
        0u8
    } else if 255 * t / (2 * den) > 255 {
        255u8
    } else {
        (255 * t / (2 * den)) as u8
    }
}

/// One channel of the monochrome ramp: white at saturation 0, the `base`
/// channel at saturation 1, linearly in between with truncation.
pub open spec fn mono_channel_spec(base: int, num: int, den: int) -> u8 {
    (255 - (255 - base) * num / den) as u8
}

/// A colormap: the jet gradient or a monochrome ramp toward a base color.
#[derive(Clone, Copy, Debug)]
pub enum Colormap {
    Jet,
    Monochrome(Color),
}

/// What `for_value` returns on saturation `num/den`.
pub open spec fn colormap_value_spec(cm: Colormap, num: int, den: int) -> Color {
    match cm {
        Colormap::Jet => Color {
            red: jet_channel_spec(3, num, den),
            green: jet_channel_spec(2, num, den),
            blue: jet_channel_spec(1, num, den),
            alpha: 255u8,
        },
        Colormap::Monochrome(base) => Color {
            red: mono_channel_spec(base.red as int, num, den),
            green: mono_channel_spec(base.green as int, num, den),
            blue: mono_channel_spec(base.blue as int, num, den),
            alpha: mono_channel_spec(base.alpha as int, num, den),
        },
    }
}

/// One channel of the jet gradient, executable form.
fn jet_channel(k: i64, num: u64, den: u64) -> (r: u8)
    requires
        0 <= k <= 4,
        1 <= den <= 0x100000000,
        num <= den,
    ensures
        r == jet_channel_spec(k as int, num as int, den as int),
{
    proof {
        assert(0 <= (k as int) * (den as int) <= 4 * 0x100000000) by (nonlinear_arith)
            requires
                0 <= k <= 4,
                1 <= den <= 0x100000000,
        ;
    }
    let n4: i128 = 4 * (num as i128);
    let kd: i128 = (k as i128) * (den as i128);
    let dev: i128 = if n4 >= kd {
        n4 - kd
    } else {
        kd - n4
    };
    let t: i128 = 3 * (den as i128) - 2 * dev;
    if t <= 0 {
        0
    } else {
        let v = (255 * t) / (2 * (den as i128));
        if v > 255 {
            255
        } else {
            v as u8
        }
    }
}

/// One channel of the monochrome ramp, executable form.
fn mono_channel(base: u8, num: u64, den: u64) -> (r: u8)
    requires
        1 <= den <= 0x100000000,
        num <= den,
    ensures
        r == mono_channel_spec(base as int, num as int, den as int),
{
    proof {
        assert(0 <= (255 - base as int) * (num as int) <= 255 * 0x100000000) by (nonlinear_arith)
            requires
                0 <= base as int <= 255,
                0 <= num <= 0x100000000,
        ;
    }
    let scaled: u128 = ((255 - base as u64) as u128) * (num as u128);
    let drop: u128 = scaled / (den as u128);
    proof {
        assert(((255 - base as int)) * (num as int) <= 255 * (den as int)) by (nonlinear_arith)
            requires
                0 <= base as int <= 255,
                0 <= num <= den,
        ;
        vstd::arithmetic::div_mod::lemma_div_is_ordered(
            (255 - base as int) * (num as int),
            255 * (den as int),
            den as int,
        );
        vstd::arithmetic::div_mod::lemma_div_multiples_vanish(255, den as int);
        assert((255 * (den as int)) / (den as int) == 255) by {
            assert(255 * (den as int) == (den as int) * 255);
        }
    }
    255 - (drop as u8)
}

impl Colormap {
    /// The color for a saturation of `num/den`; the caller keeps the ratio
    /// within [0, 1].
    pub fn for_value(&self, num: u64, den: u64) -> (c: Color)
        requires
            1 <= den <= 0x100000000,
            num <= den,
        ensures
            c == colormap_value_spec(*self, num as int, den as int),
    {
        match self {
            Colormap::Jet => Color {
                red: jet_channel(3, num, den),
                green: jet_channel(2, num, den),
                blue: jet_channel(1, num, den),
                alpha: 255,
            },
            Colormap::Monochrome(base) => Color {
                red: mono_channel(base.red, num, den),
                green: mono_channel(base.green, num, den),
                blue: mono_channel(base.blue, num, den),
                alpha: mono_channel(base.alpha, num, den),
            },
        }
    }
}

} // verus!
