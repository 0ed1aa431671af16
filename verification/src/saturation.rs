//! The saturation curve of the X-ray strategy.
//!
//! A column that intersects `n` distinct z-buckets is drawn as the opaque
//! gray level `255 * (1 - ln(n) / ln(1024))`, truncated to an integer.  The
//! curve is represented by its level crossings: `xray_gray_thresholds()`
//! lists, for each of the 255 possible darkenings, the smallest bucket count
//! that reaches it, so the gray value is 255 minus the number of crossed
//! thresholds.  This form makes it evident that more buckets never brighten
//! a pixel.

use vstd::prelude::*;

verus! {

/// How many of the first `i` entries of `s` are `<= n`.
pub open spec fn count_le(s: Seq<u32>, n: u32, i: int) -> int
    decreases i,
{
    if i <= 0 {
        0
    } else {
        count_le(s, n, i - 1) + if s[i - 1] <= n {
            1int
        } else {
            0int
        }
    }
}

pub proof fn lemma_count_le_bounds(s: Seq<u32>, n: u32, i: int)
    requires
        0 <= i <= s.len(),
    ensures
        0 <= count_le(s, n, i) <= i,
    decreases i,
{
    if i > 0 {
        lemma_count_le_bounds(s, n, i - 1);
    }
}

pub proof fn lemma_count_le_monotone(s: Seq<u32>, n1: u32, n2: u32, i: int)
    requires
        n1 <= n2,
        0 <= i <= s.len(),
    ensures
        count_le(s, n1, i) <= count_le(s, n2, i),
    decreases i,
{
    if i > 0 {
        lemma_count_le_monotone(s, n1, n2, i - 1);
    }
}

/// For each gray darkening step, the smallest number of occupied z-buckets
/// that crosses it.  The entries sample the curve `n = 1024^(1 - g/255)`.
pub open spec fn xray_gray_thresholds() -> Seq<u32> {
    seq![2u32, 2u32, 2u32, 2u32, 2u32, 2u32, 2u32, 2u32, 2u32, 2u32, 2u32, 2u32, 2u32, 2u32, 2u32, 2u32, 2u32, 2u32, 2u32, 2u32, 2u32, 2u32, 2u32, 2u32, 2u32, 2u32, 3u32, 3u32, 3u32, 3u32, 3u32, 3u32, 3u32, 3u32, 3u32, 3u32, 3u32, 3u32, 3u32, 3u32, 3u32, 4u32, 4u32, 4u32, 4u32, 4u32, 4u32, 4u32, 4u32, 4u32, 4u32, 5u32, 5u32, 5u32, 5u32, 5u32, 5u32, 5u32, 5u32, 5u32, 6u32, 6u32, 6u32, 6u32, 6u32, 6u32, 7u32, 7u32, 7u32, 7u32, 7u32, 7u32, 8u32, 8u32, 8u32, 8u32, 8u32, 9u32, 9u32, 9u32, 9u32, 10u32, 10u32, 10u32, 10u32, 11u32, 11u32, 11u32, 11u32, 12u32, 12u32, 12u32, 13u32, 13u32, 13u32, 14u32, 14u32, 14u32, 15u32, 15u32, 16u32, 16u32, 17u32, 17u32, 17u32, 18u32, 18u32, 19u32, 19u32, 20u32, 20u32, 21u32, 21u32, 22u32, 23u32, 23u32, 24u32, 25u32, 25u32, 26u32, 27u32, 27u32, 28u32, 29u32, 30u32, 30u32, 31u32, 32u32, 33u32, 34u32, 35u32, 36u32, 37u32, 38u32, 39u32, 40u32, 41u32, 42u32, 43u32, 44u32, 45u32, 47u32, 48u32, 49u32, 51u32, 52u32, 53u32, 55u32, 56u32, 58u32, 59u32, 61u32, 63u32, 65u32, 66u32, 68u32, 70u32, 72u32, 74u32, 76u32, 78u32, 80u32, 82u32, 84u32, 87u32, 89u32, 92u32, 94u32, 97u32, 99u32, 102u32, 105u32, 108u32, 111u32, 114u32, 117u32, 120u32, 123u32, 127u32, 130u32, 134u32, 138u32, 141u32, 145u32, 149u32, 153u32, 157u32, 162u32, 166u32, 171u32, 175u32, 180u32, 185u32, 190u32, 196u32, 201u32, 206u32, 212u32, 218u32, 224u32, 230u32, 236u32, 243u32, 250u32, 257u32, 264u32, 271u32, 278u32, 286u32, 294u32, 302u32, 310u32, 319u32, 327u32, 336u32, 346u32, 355u32, 365u32, 375u32, 385u32, 396u32, 407u32, 418u32, 430u32, 441u32, 454u32, 466u32, 479u32, 492u32, 506u32, 520u32, 534u32, 549u32, 564u32, 579u32, 595u32, 611u32, 628u32, 646u32, 663u32, 682u32, 700u32, 720u32, 739u32, 760u32, 781u32, 802u32, 824u32, 847u32, 870u32, 894u32, 919u32, 944u32, 970u32, 997u32]
}

/// The gray level of a column with `n` distinct occupied z-buckets.
pub open spec fn xray_gray_spec(n: u32) -> int {
    255 - count_le(xray_gray_thresholds(), n, 255)
}

/// The gray level is always an 8-bit value.
pub proof fn lemma_xray_gray_in_range(n: u32)
    ensures
        0 <= xray_gray_spec(n) <= 255,
{
    lemma_count_le_bounds(xray_gray_thresholds(), n, 255);
}

/// Occupying more z-buckets never brightens a pixel.
pub proof fn lemma_xray_gray_antitone(n1: u32, n2: u32)
    requires
        n1 <= n2,
    ensures
        xray_gray_spec(n2) <= xray_gray_spec(n1),
{
    lemma_count_le_monotone(xray_gray_thresholds(), n1, n2, 255);
}

/// Builds the threshold table in its executable form.
pub fn xray_gray_thresholds_vec() -> (t: Vec<u32>)
    ensures
        t@ == xray_gray_thresholds(),
{
    let t: Vec<u32> = vec![2u32, 2u32, 2u32, 2u32, 2u32, 2u32, 2u32, 2u32, 2u32, 2u32, 2u32, 2u32, 2u32, 2u32, 2u32, 2u32, 2u32, 2u32, 2u32, 2u32, 2u32, 2u32, 2u32, 2u32, 2u32, 2u32, 3u32, 3u32, 3u32, 3u32, 3u32, 3u32, 3u32, 3u32, 3u32, 3u32, 3u32, 3u32, 3u32, 3u32, 3u32, 4u32, 4u32, 4u32, 4u32, 4u32, 4u32, 4u32, 4u32, 4u32, 4u32, 5u32, 5u32, 5u32, 5u32, 5u32, 5u32, 5u32, 5u32, 5u32, 6u32, 6u32, 6u32, 6u32, 6u32, 6u32, 7u32, 7u32, 7u32, 7u32, 7u32, 7u32, 8u32, 8u32, 8u32, 8u32, 8u32, 9u32, 9u32, 9u32, 9u32, 10u32, 10u32, 10u32, 10u32, 11u32, 11u32, 11u32, 11u32, 12u32, 12u32, 12u32, 13u32, 13u32, 13u32, 14u32, 14u32, 14u32, 15u32, 15u32, 16u32, 16u32, 17u32, 17u32, 17u32, 18u32, 18u32, 19u32, 19u32, 20u32, 20u32, 21u32, 21u32, 22u32, 23u32, 23u32, 24u32, 25u32, 25u32, 26u32, 27u32, 27u32, 28u32, 29u32, 30u32, 30u32, 31u32, 32u32, 33u32, 34u32, 35u32, 36u32, 37u32, 38u32, 39u32, 40u32, 41u32, 42u32, 43u32, 44u32, 45u32, 47u32, 48u32, 49u32, 51u32, 52u32, 53u32, 55u32, 56u32, 58u32, 59u32, 61u32, 63u32, 65u32, 66u32, 68u32, 70u32, 72u32, 74u32, 76u32, 78u32, 80u32, 82u32, 84u32, 87u32, 89u32, 92u32, 94u32, 97u32, 99u32, 102u32, 105u32, 108u32, 111u32, 114u32, 117u32, 120u32, 123u32, 127u32, 130u32, 134u32, 138u32, 141u32, 145u32, 149u32, 153u32, 157u32, 162u32, 166u32, 171u32, 175u32, 180u32, 185u32, 190u32, 196u32, 201u32, 206u32, 212u32, 218u32, 224u32, 230u32, 236u32, 243u32, 250u32, 257u32, 264u32, 271u32, 278u32, 286u32, 294u32, 302u32, 310u32, 319u32, 327u32, 336u32, 346u32, 355u32, 365u32, 375u32, 385u32, 396u32, 407u32, 418u32, 430u32, 441u32, 454u32, 466u32, 479u32, 492u32, 506u32, 520u32, 534u32, 549u32, 564u32, 579u32, 595u32, 611u32, 628u32, 646u32, 663u32, 682u32, 700u32, 720u32, 739u32, 760u32, 781u32, 802u32, 824u32, 847u32, 870u32, 894u32, 919u32, 944u32, 970u32, 997u32];
    proof {
        assert(t@ =~= xray_gray_thresholds());
    }
    t
}

/// Computes the gray level of a column with `n` distinct occupied z-buckets.
pub fn xray_gray(n: u32, thresholds: &Vec<u32>) -> (g: u8)
    requires
        thresholds@ == xray_gray_thresholds(),
    ensures
        g as int == xray_gray_spec(n),
{
    let mut crossed: usize = 0;
    let mut i: usize = 0;
    while i < thresholds.len()
        invariant
            0 <= i <= thresholds.len(),
            thresholds@ == xray_gray_thresholds(),
            crossed == count_le(thresholds@, n, i as int),
            0 <= crossed <= i,
        decreases thresholds.len() - i,
    {
        if thresholds[i] <= n {
            crossed = crossed + 1;
        }
        i = i + 1;
    }
    proof {
        lemma_count_le_bounds(thresholds@, n, 255);
    }
    (255 - crossed as u8) as u8
}

} // verus!

use vstd::arithmetic::power2::*;

verus! {

/// The integer part of the binary logarithm of a positive number.
pub open spec fn ilog2_spec(v: nat) -> nat
    decreases v,
{
    if v < 2 {
        0
    } else {
        1 + ilog2_spec(v / 2)
    }
}

/// The integer part of the binary logarithm of a positive number.
pub fn ilog2_exec(v: u64) -> (r: u32)
    requires
        v >= 1,
    ensures
        r == ilog2_spec(v as nat),
        r <= 63,
{
    proof {
        lemma_ilog2_bounds(v as nat);
        lemma2_to64();
        lemma2_to64_rest();
        if ilog2_spec(v as nat) >= 64 {
            if ilog2_spec(v as nat) > 64 {
                lemma_pow2_strictly_increases(64, ilog2_spec(v as nat));
            }
            assert(false);
        }
    }
    let mut x = v;
    let mut r: u32 = 0;
    while x >= 2
        invariant
            x >= 1,
            r + ilog2_spec(x as nat) == ilog2_spec(v as nat),
            x <= v,
            r <= 63,
            v < 0x10000000000000000,
            ilog2_spec(x as nat) <= 63 - r,
        decreases x,
    {
        proof {
            lemma_ilog2_halves(x as nat);
        }
        x = x / 2;
        r = r + 1;
    }
    r
}

proof fn lemma_ilog2_halves(v: nat)
    requires
        v >= 2,
    ensures
        ilog2_spec(v) == 1 + ilog2_spec(v / 2),
{
}

/// The fractional Q8 digits of the binary logarithm over one octave:
/// entry `t` is the integer part of `256 * log2(1 + t/256)`.
pub open spec fn log2_frac_table() -> Seq<u16> {
    seq![0u16, 1u16, 2u16, 4u16, 5u16, 7u16, 8u16, 9u16, 11u16, 12u16, 14u16, 15u16, 16u16, 18u16, 19u16, 21u16, 22u16, 23u16, 25u16, 26u16, 27u16, 29u16, 30u16, 31u16, 33u16, 34u16, 35u16, 37u16, 38u16, 39u16, 40u16, 42u16, 43u16, 44u16, 46u16, 47u16, 48u16, 49u16, 51u16, 52u16, 53u16, 54u16, 56u16, 57u16, 58u16, 59u16, 61u16, 62u16, 63u16, 64u16, 65u16, 67u16, 68u16, 69u16, 70u16, 71u16, 73u16, 74u16, 75u16, 76u16, 77u16, 78u16, 80u16, 81u16, 82u16, 83u16, 84u16, 85u16, 87u16, 88u16, 89u16, 90u16, 91u16, 92u16, 93u16, 94u16, 96u16, 97u16, 98u16, 99u16, 100u16, 101u16, 102u16, 103u16, 104u16, 105u16, 106u16, 108u16, 109u16, 110u16, 111u16, 112u16, 113u16, 114u16, 115u16, 116u16, 117u16, 118u16, 119u16, 120u16, 121u16, 122u16, 123u16, 124u16, 125u16, 126u16, 127u16, 128u16, 129u16, 131u16, 132u16, 133u16, 134u16, 135u16, 136u16, 137u16, 138u16, 139u16, 140u16, 140u16, 141u16, 142u16, 143u16, 144u16, 145u16, 146u16, 147u16, 148u16, 149u16, 150u16, 151u16, 152u16, 153u16, 154u16, 155u16, 156u16, 157u16, 158u16, 159u16, 160u16, 161u16, 162u16, 162u16, 163u16, 164u16, 165u16, 166u16, 167u16, 168u16, 169u16, 170u16, 171u16, 172u16, 173u16, 173u16, 174u16, 175u16, 176u16, 177u16, 178u16, 179u16, 180u16, 181u16, 181u16, 182u16, 183u16, 184u16, 185u16, 186u16, 187u16, 188u16, 188u16, 189u16, 190u16, 191u16, 192u16, 193u16, 194u16, 194u16, 195u16, 196u16, 197u16, 198u16, 199u16, 200u16, 200u16, 201u16, 202u16, 203u16, 204u16, 205u16, 205u16, 206u16, 207u16, 208u16, 209u16, 209u16, 210u16, 211u16, 212u16, 213u16, 214u16, 214u16, 215u16, 216u16, 217u16, 218u16, 218u16, 219u16, 220u16, 221u16, 222u16, 222u16, 223u16, 224u16, 225u16, 225u16, 226u16, 227u16, 228u16, 229u16, 229u16, 230u16, 231u16, 232u16, 232u16, 233u16, 234u16, 235u16, 235u16, 236u16, 237u16, 238u16, 239u16, 239u16, 240u16, 241u16, 242u16, 242u16, 243u16, 244u16, 245u16, 245u16, 246u16, 247u16, 247u16, 248u16, 249u16, 250u16, 250u16, 251u16, 252u16, 253u16, 253u16, 254u16, 255u16]
}

/// The fractional table in executable form.
pub fn log2_frac_table_vec() -> (t: Vec<u16>)
    ensures
        t@ == log2_frac_table(),
{
    let t: Vec<u16> = vec![0u16, 1u16, 2u16, 4u16, 5u16, 7u16, 8u16, 9u16, 11u16, 12u16, 14u16, 15u16, 16u16, 18u16, 19u16, 21u16, 22u16, 23u16, 25u16, 26u16, 27u16, 29u16, 30u16, 31u16, 33u16, 34u16, 35u16, 37u16, 38u16, 39u16, 40u16, 42u16, 43u16, 44u16, 46u16, 47u16, 48u16, 49u16, 51u16, 52u16, 53u16, 54u16, 56u16, 57u16, 58u16, 59u16, 61u16, 62u16, 63u16, 64u16, 65u16, 67u16, 68u16, 69u16, 70u16, 71u16, 73u16, 74u16, 75u16, 76u16, 77u16, 78u16, 80u16, 81u16, 82u16, 83u16, 84u16, 85u16, 87u16, 88u16, 89u16, 90u16, 91u16, 92u16, 93u16, 94u16, 96u16, 97u16, 98u16, 99u16, 100u16, 101u16, 102u16, 103u16, 104u16, 105u16, 106u16, 108u16, 109u16, 110u16, 111u16, 112u16, 113u16, 114u16, 115u16, 116u16, 117u16, 118u16, 119u16, 120u16, 121u16, 122u16, 123u16, 124u16, 125u16, 126u16, 127u16, 128u16, 129u16, 131u16, 132u16, 133u16, 134u16, 135u16, 136u16, 137u16, 138u16, 139u16, 140u16, 140u16, 141u16, 142u16, 143u16, 144u16, 145u16, 146u16, 147u16, 148u16, 149u16, 150u16, 151u16, 152u16, 153u16, 154u16, 155u16, 156u16, 157u16, 158u16, 159u16, 160u16, 161u16, 162u16, 162u16, 163u16, 164u16, 165u16, 166u16, 167u16, 168u16, 169u16, 170u16, 171u16, 172u16, 173u16, 173u16, 174u16, 175u16, 176u16, 177u16, 178u16, 179u16, 180u16, 181u16, 181u16, 182u16, 183u16, 184u16, 185u16, 186u16, 187u16, 188u16, 188u16, 189u16, 190u16, 191u16, 192u16, 193u16, 194u16, 194u16, 195u16, 196u16, 197u16, 198u16, 199u16, 200u16, 200u16, 201u16, 202u16, 203u16, 204u16, 205u16, 205u16, 206u16, 207u16, 208u16, 209u16, 209u16, 210u16, 211u16, 212u16, 213u16, 214u16, 214u16, 215u16, 216u16, 217u16, 218u16, 218u16, 219u16, 220u16, 221u16, 222u16, 222u16, 223u16, 224u16, 225u16, 225u16, 226u16, 227u16, 228u16, 229u16, 229u16, 230u16, 231u16, 232u16, 232u16, 233u16, 234u16, 235u16, 235u16, 236u16, 237u16, 238u16, 239u16, 239u16, 240u16, 241u16, 242u16, 242u16, 243u16, 244u16, 245u16, 245u16, 246u16, 247u16, 247u16, 248u16, 249u16, 250u16, 250u16, 251u16, 252u16, 253u16, 253u16, 254u16, 255u16];
    proof {
        assert(t@ =~= log2_frac_table());
    }
    t
}

/// The binary logarithm of `v` in Q8 fixed point: 256 times the integer
/// part plus the table digit of the leading eight mantissa bits.
pub open spec fn log2_q8_spec(v: nat) -> int {
    let e = ilog2_spec(v);
    let t = if e >= 8 {
        v / pow2((e - 8) as nat) - 256
    } else {
        v * pow2((8 - e) as nat) - 256
    };
    256 * e + log2_frac_table()[t as int]
}

/// The `t` mantissa index of `log2_q8_spec` stays within the table.
pub proof fn lemma_log2_q8_index(v: nat)
    requires
        v >= 1,
    ensures
        ({
            let e = ilog2_spec(v);
            let t = if e >= 8 {
                v / pow2((e - 8) as nat) - 256
            } else {
                v * pow2((8 - e) as nat) - 256
            };
            0 <= t < 256
        }),
{
    let e = ilog2_spec(v);
    lemma_ilog2_bounds(v);
    if e >= 8 {
        let d = pow2((e - 8) as nat) as int;
        lemma_pow2_pos((e - 8) as nat);
        lemma_pow2_adds((e - 8) as nat, 8);
        lemma_pow2_adds((e - 8) as nat, 9);
        lemma2_to64();
        assert(pow2(e) == d * 256);
        assert(pow2((e + 1) as nat) == pow2(e) * 2) by {
            lemma_pow2_unfold((e + 1) as nat);
        }
        assert(pow2((e - 8) as nat) * 512 == d * 512);
        vstd::arithmetic::div_mod::lemma_div_is_ordered(d * 256, v as int, d);
        vstd::arithmetic::div_mod::lemma_div_multiples_vanish(256, d);
        assert((v as int) / d >= 256);
        assert(v < d * 512) by (nonlinear_arith)
            requires
                (v as nat) < pow2((e + 1) as nat),
                pow2((e + 1) as nat) == 2 * pow2(e),
                pow2(e) == d * 256,
        ;
        vstd::arithmetic::div_mod::lemma_div_is_ordered(v as int, d * 512 - 1, d);
        assert((d * 512 - 1) / d == 511) by {
            vstd::arithmetic::div_mod::lemma_div_multiples_vanish_fancy(511, d - 1, d);
            assert(d * 511 + (d - 1) == d * 512 - 1) by (nonlinear_arith);
        }
        assert((v as int) / d <= 511);
    } else {
        let m = pow2((8 - e) as nat) as int;
        lemma_pow2_pos((8 - e) as nat);
        lemma_pow2_adds((8 - e) as nat, e);
        lemma2_to64();
        assert(pow2(e) * m == 256) by {
            assert(pow2((8 - e) as nat + e) == pow2(8));
        }
        assert(v * m >= 256) by (nonlinear_arith)
            requires
                (v as nat) >= pow2(e as nat),
                pow2(e as nat) * m == 256,
                m >= 1,
        ;
        assert(v * m < 512) by (nonlinear_arith)
            requires
                (v as nat) < pow2((e + 1) as nat),
                pow2((e + 1) as nat) == 2 * pow2(e as nat),
                pow2(e as nat) * m == 256,
                m >= 1,
        ;
    }
}

/// `2^ilog2(v) <= v < 2^(ilog2(v) + 1)`.
pub proof fn lemma_ilog2_bounds(v: nat)
    requires
        v >= 1,
    ensures
        pow2(ilog2_spec(v)) <= v,
        v < pow2((ilog2_spec(v) + 1) as nat),
        pow2((ilog2_spec(v) + 1) as nat) == 2 * pow2(ilog2_spec(v)),
    decreases v,
{
    lemma2_to64();
    lemma_pow2_unfold((ilog2_spec(v) + 1) as nat);
    if v >= 2 {
        lemma_ilog2_bounds(v / 2);
        lemma_pow2_unfold((ilog2_spec(v / 2) + 1) as nat);
        lemma_pow2_unfold((ilog2_spec(v / 2) + 2) as nat);
    }
}

} // verus!

verus! {

/// The binary logarithm of `v` in Q8 fixed point, executable form.
pub fn log2_q8(v: u64, frac_table: &Vec<u16>) -> (r: u64)
    requires
        v >= 1,
        frac_table@ == log2_frac_table(),
    ensures
        r == log2_q8_spec(v as nat),
        r <= 0x4100,
{
    let e = ilog2_exec(v);
    proof {
        lemma_log2_q8_index(v as nat);
        lemma2_to64();
    }
    let t: u64 = if e >= 8 {
        let k = e - 8;
        let mut t = v;
        let mut i: u32 = 0;
        while i < k
            invariant
                0 <= i <= k,
                k <= 55,
                t == (v as nat) / pow2(i as nat),
            decreases k - i,
        {
            proof {
                lemma_pow2_unfold((i + 1) as nat);
                lemma_pow2_pos(i as nat);
                vstd::arithmetic::div_mod::lemma_div_denominator(
                    v as int,
                    pow2(i as nat) as int,
                    2,
                );
            }
            t = t / 2;
            i = i + 1;
        }
        t - 256
    } else {
        let k = 8 - e;
        let mut t = v;
        let mut i: u32 = 0;
        proof {
            lemma_ilog2_bounds(v as nat);
            if ilog2_spec(v as nat) + 1 < 8 {
                lemma_pow2_strictly_increases(ilog2_spec(v as nat) + 1, 8);
            }
            lemma2_to64();
        }
        while i < k
            invariant
                0 <= i <= k,
                k <= 8,
                t == (v as nat) * pow2(i as nat),
                v < 256,
                t < 0x10000,
            decreases k - i,
        {
            proof {
                lemma2_to64();
                lemma_pow2_unfold((i + 1) as nat);
                if i + 1 < 8 {
                    lemma_pow2_strictly_increases((i + 1) as nat, 8);
                }
                assert(pow2((i + 1) as nat) <= 256);
                assert((v as nat) * pow2((i + 1) as nat) == ((v as nat) * pow2(i as nat)) * 2)
                    by (nonlinear_arith)
                    requires
                        pow2((i + 1) as nat) == 2 * pow2(i as nat),
                ;
                assert((v as int) * (pow2((i + 1) as nat) as int) < 0x10000) by (nonlinear_arith)
                    requires
                        0 <= v < 256,
                        0 <= pow2((i + 1) as nat) <= 256,
                ;
            }
            t = t * 2;
            i = i + 1;
        }
        t - 256
    };
    proof {
        lemma2_to64();
        assert(pow2(0) == 1);
        assert((v as nat) * pow2(0) == v) by (nonlinear_arith)
            requires
                pow2(0) == 1,
        ;
    }
    let digit = frac_table[t as usize];
    proof {
        assert(digit <= 255) by {
            assert(log2_frac_table()[t as int] == digit);
        }
    }
    256 * (e as u64) + (digit as u64)
}

/// The stored brightness of a clamped intensity mean: the ratio of the
/// binary logarithms of the mean and of the intensity range, both taken in
/// fixed-point units, scaled to the 8-bit channel range.  Means at or below
/// one unit are dark; a range of at most one unit degenerates to all-dark
/// below the range and all-bright at it.
pub open spec fn intensity_gray_spec(m: int, range: int) -> int {
    if m <= 0 {
        0
    } else {
        let num = log2_q8_spec(m as nat) - 4096;
        let den = log2_q8_spec(range as nat) - 4096;
        if den <= 0 {
            if m >= range {
                255
            } else {
                0
            }
        } else if num <= 0 {
            0
        } else if 255 * num / den > 255 {
            255
        } else {
            255 * num / den
        }
    }
}

/// Computes the brightness of a clamped intensity mean `m` within `range`.
pub fn intensity_gray(m: i64, range: i64, frac_table: &Vec<u16>) -> (g: u8)
    requires
        1 <= range,
        0 <= m <= range,
        frac_table@ == log2_frac_table(),
    ensures
        g as int == intensity_gray_spec(m as int, range as int),
{
    if m <= 0 {
        return 0;
    }
    let num_q = log2_q8(m as u64, frac_table);
    let den_q = log2_q8(range as u64, frac_table);
    let num: i64 = (num_q as i64) - 4096;
    let den: i64 = (den_q as i64) - 4096;
    if den <= 0 {
        if m >= range {
            255
        } else {
            0
        }
    } else if num <= 0 {
        0
    } else {
        let q = (255 * num) / den;
        if q > 255 {
            255
        } else {
            q as u8
        }
    }
}

/// The integer square root: the largest integer whose square is at most `x`.
pub fn isqrt(x: u128) -> (r: u128)
    ensures
        (r as int) * (r as int) <= x,
        x < (r + 1) * (r + 1),
{
    if x == 0 {
        proof {
            assert((0int + 1) * (0int + 1) == 1);
        }
        return 0;
    }
    let mut lo: u128 = 0;
    let mut hi: u128 = if x >= 0xFFFFFFFFFFFFFFFF {
        0x10000000000000000
    } else {
        x + 1
    };
    proof {
        if x >= 0xFFFFFFFFFFFFFFFF {
            assert((0x10000000000000000int) * (0x10000000000000000int) > x);
        } else {
            assert((x as int + 1) * (x as int + 1) > x) by (nonlinear_arith)
                requires
                    x >= 0,
            ;
        }
    }
    while lo + 1 < hi
        invariant
            0 <= lo < hi <= 0x10000000000000000,
            (lo as int) * (lo as int) <= x,
            x < (hi as int) * (hi as int),
        decreases hi - lo,
    {
        let mid = lo + (hi - lo) / 2;
        proof {
            assert(lo < mid < hi);
            assert((mid as int) * (mid as int) <= (0xFFFFFFFFFFFFFFFFint) * (0xFFFFFFFFFFFFFFFFint))
                by (nonlinear_arith)
                requires
                    0 <= mid <= 0xFFFFFFFFFFFFFFFF,
            ;
        }
        let sq = mid * mid;
        if sq <= x {
            lo = mid;
        } else {
            hi = mid;
        }
    }
    lo
}

} // verus!
