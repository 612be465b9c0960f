//! Picture processing unit: scanline renderer for every background mode,
//! sprites, windows and the colour special effects.

use crate::bits::{lemma_and_le_u16, lemma_and_le_u32, lemma_and_le_u8, lemma_and_le_usize};
use crate::state::{block_bytes, le16, le32, Reader, Snapshot, StateError, Writer};
use vstd::prelude::*;

verus! {

pub const WIDTH: usize = 240;

pub const HEIGHT: usize = 160;

pub const CYCLES_PER_LINE: u32 = 1232;

pub const HBLANK_CYCLES: u32 = 960;

pub const TOTAL_LINES: u16 = 228;

/// Marks a scanline slot no layer has written yet.
pub const TRANSPARENT: u16 = 0x8000;

/// Hblank on a visible line, which is when background DMA runs.
pub const EVENT_HBLANK: u8 = 1;

pub const EVENT_VBLANK: u8 = 2;

pub const EVENT_FRAME: u8 = 4;

/// Hblank on any line at all, including the ones below the screen.
pub const EVENT_HBLANK_ANY: u8 = 8;

#[derive(Clone, Copy)]
pub struct ObjPixel {
    pub color: u16,
    pub priority: u8,
    pub semi_transparent: bool,
}

pub struct Ppu {
    pub vram: Vec<u8>,
    pub palette: Vec<u8>,
    pub oam: Vec<u8>,
    pub dispcnt: u16,
    pub green_swap: u16,
    pub dispstat: u16,
    pub vcount: u16,
    pub bgcnt: [u16; 4],
    pub bghofs: [u16; 4],
    pub bgvofs: [u16; 4],
    /// Affine parameters for BG2 and BG3.
    pub bgpa: [i16; 2],
    pub bgpb: [i16; 2],
    pub bgpc: [i16; 2],
    pub bgpd: [i16; 2],
    pub bgx: [i32; 2],
    pub bgy: [i32; 2],
    pub bgx_internal: [i32; 2],
    pub bgy_internal: [i32; 2],
    pub winh: [u16; 2],
    pub winv: [u16; 2],
    pub winin: u16,
    pub winout: u16,
    pub mosaic: u16,
    pub bldcnt: u16,
    pub bldalpha: u16,
    pub bldy: u16,
    /// Dots into the current line, in CPU cycles.
    pub cycles: u32,
    /// The line the most recent hblank belonged to; `vcount` has moved on by
    /// the time the bus acts on the event.
    pub hblank_line: u16,
    pub framebuffer: Vec<u32>,
    /// The four background layers of the line being drawn, one after the other.
    pub bg_line: Vec<u16>,
    pub obj_line: Vec<ObjPixel>,
    pub obj_window: Vec<bool>,
}

// ------------------------------------------------------------ colour maths

/// Five bit channel `channel` (0 red, 1 green, 2 blue) of a BGR555 colour.
pub open spec fn channel_of(color: u16, channel: int) -> u32 {
    ((color >> (channel * 5) as u16) & 0x1f) as u32
}

/// A colour built from three five bit channels.
pub open spec fn bgr(red: u32, green: u32, blue: u32) -> u16 {
    (red as u16) | ((green as u16) << 5u16) | ((blue as u16) << 10u16)
}

pub open spec fn min31(value: int) -> u32 {
    if value > 31 {
        31
    } else if value < 0 {
        0
    } else {
        value as u32
    }
}

/// Alpha blending: each channel `min(31, (a * eva + b * evb) / 16)`.
pub open spec fn blend_spec(top: u16, bottom: u16, eva: u32, evb: u32) -> u16 {
    bgr(
        min31((channel_of(top, 0) * eva + channel_of(bottom, 0) * evb) / 16),
        min31((channel_of(top, 1) * eva + channel_of(bottom, 1) * evb) / 16),
        min31((channel_of(top, 2) * eva + channel_of(bottom, 2) * evb) / 16),
    )
}

/// Brightness increase: each channel moves `evy/16` of the way to 31.
pub open spec fn brighten_spec(color: u16, evy: u32) -> u16 {
    bgr(
        min31(channel_of(color, 0) + (31 - channel_of(color, 0)) * evy / 16),
        min31(channel_of(color, 1) + (31 - channel_of(color, 1)) * evy / 16),
        min31(channel_of(color, 2) + (31 - channel_of(color, 2)) * evy / 16),
    )
}

/// Brightness decrease: each channel loses `evy/16` of itself.
pub open spec fn darken_spec(color: u16, evy: u32) -> u16 {
    bgr(
        ((channel_of(color, 0) - channel_of(color, 0) * evy / 16) % 32) as u32,
        ((channel_of(color, 1) - channel_of(color, 1) * evy / 16) % 32) as u32,
        ((channel_of(color, 2) - channel_of(color, 2) * evy / 16) % 32) as u32,
    )
}

/// The three channels of a colour built from channels below 32 are those
/// channels.
proof fn lemma_bgr_channels(r: u32, g: u32, b: u32)
    requires
        r < 32,
        g < 32,
        b < 32,
    ensures
        channel_of(bgr(r, g, b), 0) == r,
        channel_of(bgr(r, g, b), 1) == g,
        channel_of(bgr(r, g, b), 2) == b,
{
    let c = bgr(r, g, b);
    assert(((c >> 0u16) & 0x1f) as u32 == r && ((c >> 5u16) & 0x1f) as u32 == g && ((c >> 10u16)
        & 0x1f) as u32 == b) by (bit_vector)
        requires
            r < 32,
            g < 32,
            b < 32,
            c == (r as u16) | ((g as u16) << 5u16) | ((b as u16) << 10u16),
    ;
}

/// Every channel of a colour is below 32.
proof fn lemma_channel_bound(color: u16, k: int)
    requires
        0 <= k < 3,
    ensures
        channel_of(color, k) <= 31,
{
    let shift = (k * 5) as u16;
    assert(((color >> shift) & 0x1f) <= 31) by (bit_vector);
}

/// Alpha blending weights the first target by EVA and the second by EVB:
/// with all the weight on the top colour it comes through unchanged, with
/// all of it on the bottom colour that one does, and with none on either
/// the result is black; swapping the layers and the weights together gives
/// the same colour.
pub proof fn law_blend_weights_the_layers(top: u16, bottom: u16, eva: u32, evb: u32)
    ensures
        forall|k: int| 0 <= k < 3 ==> #[trigger] channel_of(blend_spec(top, bottom, 16, 0), k) == channel_of(top, k),
        forall|k: int| 0 <= k < 3 ==> #[trigger] channel_of(blend_spec(top, bottom, 0, 16), k) == channel_of(bottom, k),
        forall|k: int| 0 <= k < 3 ==> #[trigger] channel_of(blend_spec(top, bottom, 0, 0), k) == 0,
        blend_spec(top, bottom, eva, evb) == blend_spec(bottom, top, evb, eva),
{
    lemma_channel_bound(top, 0);
    lemma_channel_bound(top, 1);
    lemma_channel_bound(top, 2);
    lemma_channel_bound(bottom, 0);
    lemma_channel_bound(bottom, 1);
    lemma_channel_bound(bottom, 2);
    lemma_bgr_channels(channel_of(top, 0), channel_of(top, 1), channel_of(top, 2));
    lemma_bgr_channels(channel_of(bottom, 0), channel_of(bottom, 1), channel_of(bottom, 2));
    lemma_bgr_channels(0, 0, 0);
    assert(blend_spec(top, bottom, 16, 0) == bgr(channel_of(top, 0), channel_of(top, 1), channel_of(top, 2)));
    assert(blend_spec(top, bottom, 0, 16) == bgr(channel_of(bottom, 0), channel_of(bottom, 1), channel_of(bottom, 2)));
    assert(blend_spec(top, bottom, 0, 0) == bgr(0, 0, 0));
    assert forall|k: int| 0 <= k < 3 implies (channel_of(top, k) * eva + channel_of(bottom, k) * evb)
        == (channel_of(bottom, k) * evb + channel_of(top, k) * eva) by {}
}

/// Brightness increase moves every channel toward white by EVY/16: none at
/// EVY 0, all the way at EVY 16; brightness decrease moves toward black the
/// same way.
pub proof fn law_brightness_moves_toward_white_and_black(color: u16)
    ensures
        forall|k: int| 0 <= k < 3 ==> #[trigger] channel_of(brighten_spec(color, 0), k) == channel_of(color, k),
        forall|k: int| 0 <= k < 3 ==> #[trigger] channel_of(brighten_spec(color, 16), k) == 31,
        forall|k: int| 0 <= k < 3 ==> #[trigger] channel_of(darken_spec(color, 0), k) == channel_of(color, k),
        forall|k: int| 0 <= k < 3 ==> #[trigger] channel_of(darken_spec(color, 16), k) == 0,
{
    lemma_channel_bound(color, 0);
    lemma_channel_bound(color, 1);
    lemma_channel_bound(color, 2);
    let (r, g, b) = (channel_of(color, 0), channel_of(color, 1), channel_of(color, 2));
    lemma_bgr_channels(r, g, b);
    lemma_bgr_channels(31, 31, 31);
    lemma_bgr_channels(0, 0, 0);
    assert(brighten_spec(color, 0) == bgr(r, g, b));
    assert(brighten_spec(color, 16) == bgr(31, 31, 31));
    assert(darken_spec(color, 0) == bgr(r, g, b));
    assert(darken_spec(color, 16) == bgr(0, 0, 0));
}

/// A five bit channel widened to eight bits by repeating its top bits.
pub open spec fn expand5(value: u32) -> u32 {
    (value << 3u32) | (value >> 2u32)
}

/// XRGB8888 of a BGR555 colour.
pub open spec fn rgb_spec(color: u16) -> u32 {
    (expand5(channel_of(color, 0)) << 16u32) | (expand5(channel_of(color, 1)) << 8u32) | expand5(
        channel_of(color, 2),
    )
}

fn channel(color: u16, index: u16) -> (value: u32)
    requires
        index < 3,
    ensures
        value == channel_of(color, index as int),
        value <= 31,
{
    let shift = index * 5;
    let value = ((color >> shift) & 0x1f) as u32;
    proof {
        lemma_and_le_u16(color >> shift, 0x1f);
    }
    value
}

fn compose_bgr(red: u32, green: u32, blue: u32) -> (color: u16)
    requires
        red <= 31,
        green <= 31,
        blue <= 31,
    ensures
        color == bgr(red, green, blue),
{
    (red as u16) | ((green as u16) << 5u16) | ((blue as u16) << 10u16)
}

fn blend(top: u16, bottom: u16, eva: u32, evb: u32) -> (color: u16)
    requires
        eva <= 16,
        evb <= 16,
    ensures
        color == blend_spec(top, bottom, eva, evb),
{
    let mut result: [u32; 3] = [0, 0, 0];
    let mut index: u16 = 0;
    while index < 3
        invariant
            index <= 3,
            eva <= 16,
            evb <= 16,
            forall|k: int|
                0 <= k < index ==> #[trigger] result@[k] == min31(
                    (channel_of(top, k) * eva + channel_of(bottom, k) * evb) / 16,
                ),
        decreases 3 - index,
    {
        let a = channel(top, index);
        let b = channel(bottom, index);
        proof {
            assert(a * eva <= 31 * 16) by (nonlinear_arith)
                requires
                    a <= 31,
                    eva <= 16,
            ;
            assert(b * evb <= 31 * 16) by (nonlinear_arith)
                requires
                    b <= 31,
                    evb <= 16,
            ;
        }
        let product = a * eva + b * evb;
        let sum = product >> 4u32;
        assert(sum == product / 16) by (bit_vector)
            requires
                sum == product >> 4u32,
        ;
        result[index as usize] = if sum > 31 {
            31
        } else {
            sum
        };
        index = index + 1;
    }
    assert(result@[0] <= 31 && result@[1] <= 31 && result@[2] <= 31);
    compose_bgr(result[0], result[1], result[2])
}

fn brighten(color: u16, evy: u32) -> (result: u16)
    requires
        evy <= 16,
    ensures
        result == brighten_spec(color, evy),
{
    let mut out: [u32; 3] = [0, 0, 0];
    let mut index: u16 = 0;
    while index < 3
        invariant
            index <= 3,
            evy <= 16,
            forall|k: int|
                0 <= k < index ==> #[trigger] out@[k] == min31(
                    channel_of(color, k) + (31 - channel_of(color, k)) * evy / 16,
                ),
        decreases 3 - index,
    {
        let value = channel(color, index);
        proof {
            assert((31 - value) * evy <= 31 * 16) by (nonlinear_arith)
                requires
                    value <= 31,
                    evy <= 16,
            ;
        }
        let product = (31 - value) * evy;
        let scaled = product >> 4u32;
        assert(scaled == product / 16) by (bit_vector)
            requires
                scaled == product >> 4u32,
        ;
        let sum = value + scaled;
        out[index as usize] = if sum > 31 {
            31
        } else {
            sum
        };
        index = index + 1;
    }
    assert(out@[0] <= 31 && out@[1] <= 31 && out@[2] <= 31);
    compose_bgr(out[0], out[1], out[2])
}

fn darken(color: u16, evy: u32) -> (result: u16)
    requires
        evy <= 16,
    ensures
        result == darken_spec(color, evy),
{
    let mut out: [u32; 3] = [0, 0, 0];
    let mut index: u16 = 0;
    while index < 3
        invariant
            index <= 3,
            evy <= 16,
            forall|k: int|
                0 <= k < index ==> #[trigger] out@[k] == ((channel_of(color, k) - channel_of(
                    color,
                    k,
                ) * evy / 16) % 32) as u32,
                forall|k: int| 0 <= k < index ==> #[trigger] out@[k] <= 31,
        decreases 3 - index,
    {
        let value = channel(color, index);
        proof {
            assert(value * evy <= 31 * 16) by (nonlinear_arith)
                requires
                    value <= 31,
                    evy <= 16,
            ;
            assert(value * evy / 16 <= value) by (nonlinear_arith)
                requires
                    evy <= 16,
            ;
        }
        let product = value * evy;
        let scaled = product >> 4u32;
        assert(scaled == product / 16) by (bit_vector)
            requires
                scaled == product >> 4u32,
        ;
        let kept = value - scaled;
        let masked = kept & 0x1f;
        assert(masked == kept % 32 && masked <= 31) by (bit_vector)
            requires
                masked == kept & 0x1f,
        ;
        out[index as usize] = masked;
        index = index + 1;
    }
    assert(out@[0] <= 31 && out@[1] <= 31 && out@[2] <= 31);
    compose_bgr(out[0], out[1], out[2])
}

/// Converts a BGR555 colour to XRGB8888.
pub fn to_rgb(color: u16) -> (rgb: u32)
    ensures
        rgb == rgb_spec(color),
{
    let r = channel(color, 0);
    let g = channel(color, 1);
    let b = channel(color, 2);
    let er = (r << 3u32) | (r >> 2u32);
    let eg = (g << 3u32) | (g >> 2u32);
    let eb = (b << 3u32) | (b >> 2u32);
    (er << 16u32) | (eg << 8u32) | eb
}

// ------------------------------------------------------------------- ppu

/// Enable bits a window leaves on for one pixel: bits 0-3 backgrounds,
/// bit 4 sprites, bit 5 colour effects. Window 0 wins over window 1,
/// both over the object window, and everything else is outside.
pub open spec fn window_mask_spec(
    dispcnt: u16,
    winh: Seq<u16>,
    winv: Seq<u16>,
    winin: u16,
    winout: u16,
    in_obj_window: bool,
    x: int,
    line: int,
) -> u16 {
    if dispcnt & 0xe000 == 0 {
        0x3f
    } else if inside_window(dispcnt, winh, winv, 0, x, line) {
        winin & 0x3f
    } else if inside_window(dispcnt, winh, winv, 1, x, line) {
        (winin >> 8u16) & 0x3f
    } else if dispcnt & 0x8000 != 0 && in_obj_window {
        (winout >> 8u16) & 0x3f
    } else {
        winout & 0x3f
    }
}

/// Whether window `window` is on and covers the pixel. A right or bottom
/// edge past the screen, or before the left or top one, reaches the edge
/// of the screen.
pub open spec fn inside_window(
    dispcnt: u16,
    winh: Seq<u16>,
    winv: Seq<u16>,
    window: int,
    x: int,
    line: int,
) -> bool {
    let left = (winh[window] >> 8u16) as int;
    let right0 = (winh[window] & 0xff) as int;
    let top = (winv[window] >> 8u16) as int;
    let bottom0 = (winv[window] & 0xff) as int;
    let right = if right0 > WIDTH || left > right0 {
        WIDTH as int
    } else {
        right0
    };
    let bottom = if bottom0 > HEIGHT || top > bottom0 {
        HEIGHT as int
    } else {
        bottom0
    };
    &&& dispcnt & (0x2000u16 << window as u16) != 0
    &&& left <= x < right
    &&& top <= line < bottom
}

/// Pixels `base` and `base + 1` have exchanged their green channels.
pub open spec fn green_swapped(before: Seq<u32>, after: Seq<u32>, base: int) -> bool {
    &&& after[base] == (before[base] & !0x0000_ff00u32) | (before[base + 1] & 0x0000_ff00u32)
    &&& after[base + 1] == (before[base + 1] & !0x0000_ff00u32) | (before[base] & 0x0000_ff00u32)
}

/// Palette entry `index`: a little-endian halfword with its top bit clear.
pub open spec fn palette_color(palette: Seq<u8>, index: int) -> u16 {
    let offset = ((index * 2) as usize & 0x3fe) as int;
    ((palette[offset] as u16) | ((palette[offset + 1] as u16) << 8u16)) & 0x7fff
}

/// A layer's pixel and the layer's number: 0-3 the backgrounds, 4 the
/// sprites, 5 the backdrop.
pub struct LayerPixel {
    pub color: u16,
    pub layer: u16,
}

/// Whether the sprite pixel at `x` shows at `priority` under `mask`.
pub open spec fn object_shown(p: &Ppu, mask: u16, x: int, priority: int) -> bool {
    &&& mask & 0x10 != 0
    &&& p.obj_line@[x].color != TRANSPARENT
    &&& p.obj_line@[x].priority == priority
}

/// Whether background `b` shows a pixel at `x` at `priority` under `mask`.
pub open spec fn background_shown(p: &Ppu, mask: u16, x: int, priority: int, b: int) -> bool {
    &&& mask & (1u16 << b as u16) != 0
    &&& p.dispcnt & (0x0100u16 << b as u16) != 0
    &&& (p.bgcnt[b] & 3) == priority
    &&& p.bg_line@[b * WIDTH + x] != TRANSPARENT
}

/// The backgrounds from `b` on that show at `x` and `priority`, in order.
pub open spec fn backgrounds_at(p: &Ppu, mask: u16, x: int, priority: int, b: int) -> Seq<
    LayerPixel,
>
    decreases 4 - b,
{
    if b >= 4 || b < 0 {
        Seq::empty()
    } else {
        (if background_shown(p, mask, x, priority, b) {
            seq![LayerPixel { color: p.bg_line@[b * WIDTH + x], layer: b as u16 }]
        } else {
            Seq::empty()
        }) + backgrounds_at(p, mask, x, priority, b + 1)
    }
}

/// The layers that show at `x` with priority `priority`: the sprite
/// first, then the backgrounds by number.
pub open spec fn layers_at(p: &Ppu, mask: u16, x: int, priority: int) -> Seq<LayerPixel> {
    (if object_shown(p, mask, x, priority) {
        seq![LayerPixel { color: p.obj_line@[x].color, layer: 4 }]
    } else {
        Seq::empty()
    }) + backgrounds_at(p, mask, x, priority, 0)
}

/// The layers that show at `x`, front-most first: by priority, and at
/// equal priority as `layers_at` orders them.
pub open spec fn layers_from(p: &Ppu, mask: u16, x: int, priority: int) -> Seq<LayerPixel>
    decreases 4 - priority,
{
    if priority >= 4 || priority < 0 {
        Seq::empty()
    } else {
        layers_at(p, mask, x, priority) + layers_from(p, mask, x, priority + 1)
    }
}

pub open spec fn min16(value: u16) -> u32 {
    if value > 16 {
        16
    } else {
        value as u32
    }
}

/// The colour a pixel gets: the two front-most layers (the backdrop where
/// there are fewer), and the window's colour effect on them.
pub open spec fn composed(p: &Ppu, x: int, line: int) -> u16 {
    let mask = window_mask_spec(
        p.dispcnt,
        p.winh@,
        p.winv@,
        p.winin,
        p.winout,
        p.obj_window@[x],
        x,
        line,
    );
    let backdrop = LayerPixel { color: palette_color(p.palette@, 0), layer: 5 };
    let layers = layers_from(p, mask, x, 0);
    let top = if layers.len() >= 1 {
        layers[0]
    } else {
        backdrop
    };
    let second = if layers.len() >= 2 {
        layers[1]
    } else {
        backdrop
    };
    let effect = (p.bldcnt >> 6u16) & 3;
    let first_target = p.bldcnt & 0x3f;
    let second_target = (p.bldcnt >> 8u16) & 0x3f;
    let eva = min16(p.bldalpha & 0x1f);
    let evb = min16((p.bldalpha >> 8u16) & 0x1f);
    let evy = min16(p.bldy & 0x1f);
    let top_bit = 1u16 << top.layer;
    let second_bit = 1u16 << second.layer;
    let semi = top.layer == 4 && p.obj_line@[x].semi_transparent;
    let effects = mask & 0x20 != 0;
    if semi && second_target & second_bit != 0 && effects {
        blend_spec(top.color, second.color, eva, evb)
    } else if !effects || effect == 0 || first_target & top_bit == 0 {
        top.color
    } else if effect == 1 {
        if second_target & second_bit != 0 && second.layer != top.layer {
            blend_spec(top.color, second.color, eva, evb)
        } else {
            top.color
        }
    } else if effect == 2 {
        brighten_spec(top.color, evy)
    } else {
        darken_spec(top.color, evy)
    }
}

/// The layers at a pixel depend only on the line buffers and the layer
/// registers, not on the picture drawn so far.
proof fn lemma_layers_ignore_picture(a: &Ppu, b: &Ppu, mask: u16, x: int, priority: int)
    requires
        *a == (Ppu { framebuffer: a.framebuffer, ..*b }),
    ensures
        layers_from(a, mask, x, priority) == layers_from(b, mask, x, priority),
    decreases 4 - priority,
{
    if 0 <= priority < 4 {
        lemma_backgrounds_ignore_picture(a, b, mask, x, priority, 0);
        lemma_layers_ignore_picture(a, b, mask, x, priority + 1);
    }
}

proof fn lemma_backgrounds_ignore_picture(
    a: &Ppu,
    b: &Ppu,
    mask: u16,
    x: int,
    priority: int,
    background: int,
)
    requires
        *a == (Ppu { framebuffer: a.framebuffer, ..*b }),
    ensures
        backgrounds_at(a, mask, x, priority, background) == backgrounds_at(
            b,
            mask,
            x,
            priority,
            background,
        ),
    decreases 4 - background,
{
    if 0 <= background < 4 {
        lemma_backgrounds_ignore_picture(a, b, mask, x, priority, background + 1);
    }
}

/// The column a background samples under its mosaic.
pub open spec fn mosaic_x_spec(p: &Ppu, background: int, x: int) -> int {
    if p.bgcnt[background] & 0x40 == 0 {
        x
    } else {
        x - x % ((p.mosaic & 0xf) + 1)
    }
}

/// The line a background samples under its mosaic.
pub open spec fn mosaic_y_spec(p: &Ppu, background: int, y: int) -> int {
    if p.bgcnt[background] & 0x40 == 0 {
        y
    } else {
        y - y % (((p.mosaic >> 4u16) & 0xf) + 1)
    }
}

/// A little-endian halfword of video memory; zero past its end.
pub open spec fn vram_half(vram: Seq<u8>, offset: int) -> u16 {
    if 0 <= offset && offset + 1 < vram.len() {
        (vram[offset] as u16) | ((vram[offset + 1] as u16) << 8u16)
    } else {
        0
    }
}

/// The palette index a text background shows at column `x` of `line`,
/// zero where it is transparent: the map entry under the scrolled pixel
/// names a tile, flipped as the entry says, of 16 or 256 colours.
pub open spec fn text_index(p: &Ppu, background: int, line: int, x: int) -> int {
    let control = p.bgcnt[background];
    let char_base = ((control >> 2u16) & 3) * 0x4000;
    let screen_base = ((control >> 8u16) & 0x1f) * 0x800;
    let size = (control >> 14u16) & 3;
    let width: int = if size & 1 != 0 {
        512
    } else {
        256
    };
    let height: int = if size & 2 != 0 {
        512
    } else {
        256
    };
    let scroll_x = (p.bghofs[background] as usize & 0x1ff) as int;
    let scroll_y = (p.bgvofs[background] as usize & 0x1ff) as int;
    let source_y = ((mosaic_y_spec(p, background, line) + scroll_y) as usize & (height - 1) as usize) as int;
    let source_x = ((mosaic_x_spec(p, background, x) + scroll_x) as usize & (width - 1) as usize) as int;
    let across: int = if source_x >= 256 {
        1
    } else {
        0
    };
    let down: int = if source_y >= 256 {
        width / 256
    } else {
        0
    };
    let map = screen_base + (across + down) * 0x800;
    let entry = vram_half(p.vram@, map + ((source_y % 256) / 8 * 32 + (source_x % 256) / 8) * 2);
    let tile = (entry & 0x3ff) as int;
    let inner_x = if entry & 0x0400 != 0 {
        7 - (source_x as usize & 7) as int
    } else {
        (source_x as usize & 7) as int
    };
    let inner_y = if entry & 0x0800 != 0 {
        7 - (source_y as usize & 7) as int
    } else {
        (source_y as usize & 7) as int
    };
    if control & 0x80 != 0 {
        let offset = char_base + tile * 64 + inner_y * 8 + inner_x;
        if offset >= 0x10000 {
            0
        } else {
            p.vram@[offset] as int
        }
    } else {
        let offset = char_base + tile * 32 + inner_y * 4 + inner_x / 2;
        if offset >= 0x10000 {
            0
        } else {
            let packed = p.vram@[offset];
            let nibble = if inner_x as usize & 1 == 0 {
                (packed & 0xf) as int
            } else {
                (packed >> 4u8) as int
            };
            if nibble == 0 {
                0
            } else {
                (entry >> 12u16) as int * 16 + nibble
            }
        }
    }
}

/// Where an affine walk stands after `k` pixels: the line's start moved
/// by `step` per pixel, wrapping as 32 bit values do.
pub open spec fn walk(start: i32, step: i32, k: int) -> i32
    decreases k,
{
    if k <= 0 {
        start
    } else {
        walk(start, step, k - 1).wrapping_add(step)
    }
}

/// The colour a bitmap mode shows at column `k`, where the sample lands on
/// the bitmap: mode 3 a full screen of direct colour, mode 4 a palette
/// index on the page shown (index 0 transparent), mode 5 a smaller page of
/// direct colour.
pub open spec fn bitmap_pixel(p: &Ppu, mode: int, k: int) -> Option<u16> {
    let sample_x = walk(p.bgx_internal[0], p.bgpa[0] as i32, k) >> 8u32;
    let sample_y = walk(p.bgy_internal[0], p.bgpc[0] as i32, k) >> 8u32;
    let width: int = if mode == 5 {
        160
    } else {
        240
    };
    let height: int = if mode == 5 {
        128
    } else {
        160
    };
    let page: int = if p.dispcnt & 0x10 != 0 {
        0xa000
    } else {
        0
    };
    if 0 <= sample_x < width && 0 <= sample_y < height {
        let position = sample_y * width + sample_x;
        if mode == 3 {
            Some(vram_half(p.vram@, position * 2) & 0x7fff)
        } else if mode == 4 {
            let index = p.vram@[page + position];
            if index != 0 {
                Some(palette_color(p.palette@, index as int))
            } else {
                None
            }
        } else {
            Some(vram_half(p.vram@, page + position * 2) & 0x7fff)
        }
    } else {
        None
    }
}

/// The palette index an affine background shows at column `k`, zero where
/// it is transparent: the rotated and scaled sample, wrapped or clipped to
/// the map, picks a 256 colour tile.
pub open spec fn affine_index(p: &Ppu, background: int, k: int) -> int {
    let set = background - 2;
    let control = p.bgcnt[background];
    let char_base = ((control >> 2u16) & 3) * 0x4000;
    let screen_base = ((control >> 8u16) & 0x1f) * 0x800;
    let size_select = (control >> 14u16) & 3;
    let size_tiles: int = if size_select == 0 {
        16
    } else if size_select == 1 {
        32
    } else if size_select == 2 {
        64
    } else {
        128
    };
    let size_pixels = size_tiles * 8;
    let raw_x = walk(p.bgx_internal[set], p.bgpa[set] as i32, k) >> 8u32;
    let raw_y = walk(p.bgy_internal[set], p.bgpc[set] as i32, k) >> 8u32;
    let inside = control & 0x2000 != 0 || (0 <= raw_x < size_pixels && 0 <= raw_y < size_pixels);
    if !inside {
        0
    } else {
        let mask = (size_pixels - 1) as u32;
        let sample_x = (raw_x as u32 & mask) as int;
        let sample_y = (raw_y as u32 & mask) as int;
        let map = screen_base + sample_y / 8 * size_tiles + sample_x / 8;
        if map >= p.vram@.len() {
            0
        } else {
            let tile = p.vram@[map] as int;
            let offset = char_base + tile * 64 + (sample_y as usize & 7) as int * 8 + (sample_x as usize
                & 7) as int;
            if offset >= 0x10000 {
                0
            } else {
                p.vram@[offset] as int
            }
        }
    }
}

/// What background `b` holds at column `x` of `line` once the layers are
/// drawn: each background the mode has and DISPCNT enables, transparent
/// where it shows nothing.
pub open spec fn background_line(p: &Ppu, line: int, b: int, x: int) -> u16 {
    let mode = p.dispcnt & 7;
    let enabled = p.dispcnt & (0x0100u16 << b as u16) != 0;
    let text = if text_index(p, b, line, x) != 0 {
        palette_color(p.palette@, text_index(p, b, line, x))
    } else {
        TRANSPARENT
    };
    let affine = if affine_index(p, b, x) != 0 {
        palette_color(p.palette@, affine_index(p, b, x))
    } else {
        TRANSPARENT
    };
    if !enabled {
        TRANSPARENT
    } else if mode == 0 {
        text
    } else if mode == 1 && b < 2 {
        text
    } else if mode == 1 && b == 2 {
        affine
    } else if mode == 2 && b >= 2 {
        affine
    } else if 3 <= mode <= 5 && b == 2 {
        match bitmap_pixel(p, mode as int, x) {
            Some(color) => color,
            None => TRANSPARENT,
        }
    } else {
        TRANSPARENT
    }
}

/// What a line of the picture shows at `x`, given the composed colours:
/// with green swap on, each pair of pixels trades its green channels.
pub open spec fn shown_pixel(p: &Ppu, drawn: &Ppu, line: int, x: int) -> u32 {
    let own = rgb_spec(composed(drawn, x, line));
    if p.green_swap & 1 == 0 {
        own
    } else {
        let neighbour = if x % 2 == 0 {
            rgb_spec(composed(drawn, x + 1, line))
        } else {
            rgb_spec(composed(drawn, x - 1, line))
        };
        (own & !0x0000_ff00u32) | (neighbour & 0x0000_ff00u32)
    }
}

/// The unit with its line buffers drawn for `line`: backgrounds as
/// `background_line` says, sprites as the sprite pass left them.
pub open spec fn lines_drawn(p: &Ppu, drawn: &Ppu, line: int) -> bool {
    &&& *drawn == (Ppu {
        bg_line: drawn.bg_line,
        obj_line: drawn.obj_line,
        obj_window: drawn.obj_window,
        ..*p
    })
    &&& drawn.wf()
    &&& forall|b: int, x: int|
        0 <= b < 4 && 0 <= x < WIDTH ==> #[trigger] drawn.bg_line@[b * WIDTH + x]
            == background_line(p, line, b, x)
    &&& p.dispcnt & 0x1000 == 0 ==> forall|x: int|
        0 <= x < WIDTH ==> #[trigger] drawn.obj_line@[x].color == TRANSPARENT && !drawn.obj_window@[x]
    &&& p.dispcnt & 0x1000 != 0 ==> forall|x: int|
        0 <= x < WIDTH ==> (#[trigger] drawn.obj_line@[x], drawn.obj_window@[x]) == sprites_over(
            p,
            line,
            x,
            128,
            (cleared_object(), false),
        )
}

/// The unit as a full redraw draws `line`: the registers and memories of
/// `p0`, with the affine reference points walked from their registers by
/// `line` lines.
pub open spec fn redraw_state(p0: &Ppu, p: &Ppu, line: int) -> bool {
    &&& *p == (Ppu {
        bgx_internal: p.bgx_internal,
        bgy_internal: p.bgy_internal,
        framebuffer: p.framebuffer,
        bg_line: p.bg_line,
        obj_line: p.obj_line,
        obj_window: p.obj_window,
        hblank_line: p.hblank_line,
        ..*p0
    })
    &&& p.wf()
    &&& forall|i: int|
        0 <= i < 2 ==> #[trigger] p.bgx_internal[i] == walk(p0.bgx[i], p0.bgpb[i] as i32, line)
            && p.bgy_internal[i] == walk(p0.bgy[i], p0.bgpd[i] as i32, line)
}

/// Line `line` of `framebuffer` as `render_scanline` draws it from `p`:
/// white in forced blank, else the composed picture.
pub open spec fn line_rendered(p: &Ppu, framebuffer: Seq<u32>, line: int) -> bool {
    if p.dispcnt & 0x0080 != 0 {
        forall|x: int| 0 <= x < WIDTH ==> #[trigger] framebuffer[line * WIDTH + x] == 0x00ff_ffff
    } else {
        exists|drawn: Ppu|
            #[trigger] lines_drawn(p, &drawn, line) && forall|x: int|
                0 <= x < WIDTH ==> #[trigger] framebuffer[line * WIDTH + x] == shown_pixel(
                    p,
                    &drawn,
                    line,
                    x,
                )
    }
}

/// Line `line` of `framebuffer` as a full redraw of `p0` draws it.
#[verifier::opaque]
pub open spec fn line_redrawn(p0: &Ppu, framebuffer: Seq<u32>, line: int) -> bool {
    exists|p: Ppu| #[trigger] redraw_state(p0, &p, line) && line_rendered(&p, framebuffer, line)
}

/// One more line of a full redraw: `here` is the unit as it draws `line`,
/// and `after` the frame buffer that `render_scanline` leaves.
proof fn lemma_redraw_step(p0: &Ppu, here: &Ppu, after: Seq<u32>, line: int)
    requires
        0 <= line < HEIGHT,
        here.wf(),
        here.same_state(p0),
        here.vcount == p0.vcount,
        here.cycles == p0.cycles,
        here.dispstat == p0.dispstat,
        here.hblank_line == p0.hblank_line,
        forall|i: int|
            0 <= i < 2 ==> #[trigger] here.bgx_internal[i] == walk(p0.bgx[i], p0.bgpb[i] as i32, line)
                && here.bgy_internal[i] == walk(p0.bgy[i], p0.bgpd[i] as i32, line),
        forall|l: int| 0 <= l < line ==> #[trigger] line_redrawn(p0, here.framebuffer@, l),
        forall|i: int|
            0 <= i < WIDTH * HEIGHT && !(line * WIDTH <= i < (line + 1) * WIDTH)
                ==> #[trigger] after[i] == here.framebuffer@[i],
        line_rendered(here, after, line),
    ensures
        forall|l: int| 0 <= l <= line ==> #[trigger] line_redrawn(p0, after, l),
{
    assert(redraw_state(p0, here, line));
    assert forall|l: int| 0 <= l <= line implies #[trigger] line_redrawn(p0, after, l) by {
        if l == line {
            reveal(line_redrawn);
        } else {
            assert forall|x: int| 0 <= x < WIDTH implies #[trigger] after[l * WIDTH + x]
                == here.framebuffer@[l * WIDTH + x] by {
                assert(l * WIDTH + x < line * WIDTH) by (nonlinear_arith)
                    requires
                        l < line,
                        x < WIDTH,
                ;
                assert(0 <= l * WIDTH + x < WIDTH * HEIGHT) by (nonlinear_arith)
                    requires
                        0 <= l < HEIGHT,
                        0 <= x < WIDTH,
                ;
            }
            lemma_line_redrawn_kept(p0, here.framebuffer@, after, l);
        }
    }
}

/// A redrawn line stays so while its pixels are left alone.
proof fn lemma_line_redrawn_kept(p0: &Ppu, before: Seq<u32>, after: Seq<u32>, line: int)
    requires
        line_redrawn(p0, before, line),
        forall|x: int| 0 <= x < WIDTH ==> #[trigger] after[line * WIDTH + x] == before[line * WIDTH + x],
    ensures
        line_redrawn(p0, after, line),
{
    reveal(line_redrawn);
    let p = choose|p: Ppu| #[trigger] redraw_state(p0, &p, line) && line_rendered(&p, before, line);
    if p.dispcnt & 0x0080 != 0 {
        assert forall|x: int| 0 <= x < WIDTH implies #[trigger] after[line * WIDTH + x] == 0x00ff_ffff by {
            assert(before[line * WIDTH + x] == 0x00ff_ffff);
        }
    } else {
        let drawn = choose|drawn: Ppu|
            #[trigger] lines_drawn(&p, &drawn, line) && forall|x: int|
                0 <= x < WIDTH ==> #[trigger] before[line * WIDTH + x] == shown_pixel(&p, &drawn, line, x);
        assert forall|x: int| 0 <= x < WIDTH implies #[trigger] after[line * WIDTH + x] == shown_pixel(
            &p,
            &drawn,
            line,
            x,
        ) by {
            assert(before[line * WIDTH + x] == shown_pixel(&p, &drawn, line, x));
        }
    }
    assert(line_rendered(&p, after, line));
}

/// The timing registers and what a stretch of the dot clock reports: the
/// status register, the line, the interrupts raised and the events seen.
pub struct Timing {
    pub dispstat: u16,
    pub vcount: u16,
    pub hblank_line: u16,
    pub irq: u16,
    pub events: u8,
}

/// Entering the horizontal blank: its flag goes up, a visible line is
/// drawn, and its interrupt fires when enabled.
pub open spec fn hblank_entered(t: Timing) -> Timing {
    Timing {
        dispstat: t.dispstat | 2,
        vcount: t.vcount,
        hblank_line: t.vcount,
        irq: if t.dispstat & 0x10 != 0 {
            t.irq | 2
        } else {
            t.irq
        },
        events: if (t.vcount as int) < HEIGHT {
            t.events | EVENT_HBLANK_ANY | EVENT_HBLANK
        } else {
            t.events | EVENT_HBLANK_ANY
        },
    }
}

/// Moving on to the next line: the hblank flag drops, the line counter
/// wraps at the end of the frame, the vblank flag rises at line 160 (with
/// its interrupt) and falls on the last line, and the line match flag
/// follows the compare value (with its interrupt).
pub open spec fn next_line(t: Timing) -> Timing {
    let cleared = t.dispstat & !2u16;
    let raw = t.vcount + 1;
    let wrapped = raw >= TOTAL_LINES;
    let vcount: u16 = if wrapped {
        0
    } else {
        raw as u16
    };
    let events = if wrapped {
        t.events | EVENT_FRAME
    } else {
        t.events
    };
    let (dispstat, irq, events) = if vcount == HEIGHT as u16 {
        let d = cleared | 1;
        (d, if d & 0x08 != 0 {
            t.irq | 1
        } else {
            t.irq
        }, events | EVENT_VBLANK)
    } else if vcount == TOTAL_LINES - 1 {
        (cleared & !1u16, t.irq, events)
    } else {
        (cleared, t.irq, events)
    };
    if vcount == (dispstat >> 8u16) & 0xff {
        let d = dispstat | 4;
        Timing {
            dispstat: d,
            vcount,
            hblank_line: t.hblank_line,
            irq: if d & 0x20 != 0 {
                irq | 4
            } else {
                irq
            },
            events,
        }
    } else {
        Timing { dispstat: dispstat & !4u16, vcount, hblank_line: t.hblank_line, irq, events }
    }
}

/// The dot clock run on from `now` cycles into the current line, whose
/// hblank has been dealt with.
pub open spec fn lines_run(t: Timing, now: int) -> Timing
    decreases now,
{
    if now < CYCLES_PER_LINE {
        t
    } else {
        let moved = next_line(t);
        let rest = now - CYCLES_PER_LINE;
        lines_run(
            if rest >= HBLANK_CYCLES {
                hblank_entered(moved)
            } else {
                moved
            },
            rest,
        )
    }
}

/// The affine reference points (x of backgrounds 2 and 3, then y of both)
/// after the dot clock runs on from `now` cycles into line `vcount`: each
/// visible line that ends moves them by the matrix's second column, and
/// the start of vblank reloads them from the registers a game wrote.
pub open spec fn references_walked(p: &Ppu, refs: (i32, i32, i32, i32), vcount: u16, now: int) -> (
    i32,
    i32,
    i32,
    i32,
)
    decreases now,
{
    if now < CYCLES_PER_LINE {
        refs
    } else {
        let stepped = if (vcount as int) < HEIGHT {
            (
                refs.0.wrapping_add(p.bgpb[0] as i32),
                refs.1.wrapping_add(p.bgpb[1] as i32),
                refs.2.wrapping_add(p.bgpd[0] as i32),
                refs.3.wrapping_add(p.bgpd[1] as i32),
            )
        } else {
            refs
        };
        let raw = vcount + 1;
        let next: u16 = if raw >= TOTAL_LINES {
            0
        } else {
            raw as u16
        };
        let restarted = if next == HEIGHT as u16 {
            (p.bgx[0], p.bgx[1], p.bgy[0], p.bgy[1])
        } else {
            stepped
        };
        references_walked(p, restarted, next, now - CYCLES_PER_LINE)
    }
}

/// The reference points of a unit, as `references_walked` orders them.
pub open spec fn references_of(p: &Ppu) -> (i32, i32, i32, i32) {
    (p.bgx_internal[0], p.bgx_internal[1], p.bgy_internal[0], p.bgy_internal[1])
}

/// The timing after `cycles` more cycles from `start` cycles into a line.
pub open spec fn timing_after(
    dispstat: u16,
    vcount: u16,
    hblank_line: u16,
    start: int,
    cycles: int,
) -> Timing {
    let now = start + cycles;
    let first = Timing { dispstat, vcount, hblank_line, irq: 0, events: 0 };
    lines_run(
        if dispstat & 2 == 0 && now >= HBLANK_CYCLES {
            hblank_entered(first)
        } else {
            first
        },
        now,
    )
}

/// The video unit advanced by `cycles`: the beam moved on, the status and
/// its interrupts and events as `timing_after` says, and the affine
/// reference points walked line by line.
pub open spec fn ppu_ticked(a: &Ppu, cycles: u32, result: (u16, u8), b: &Ppu) -> bool {
    &&& b.same_state(&*a)
    &&& b.cycles == (a.cycles + cycles) % (CYCLES_PER_LINE as int)
    &&& b.vcount == (a.vcount + (a.cycles + cycles) / (
        CYCLES_PER_LINE as int)) % (TOTAL_LINES as int)
    &&& b.cycles >= HBLANK_CYCLES ==> b.dispstat & 2 != 0
    &&& {
            let after = timing_after(
                a.dispstat,
                a.vcount,
                a.hblank_line,
                a.cycles as int,
                cycles as int,
            );
            &&& b.dispstat == after.dispstat
            &&& b.hblank_line == after.hblank_line
            &&& result.0 == after.irq
            &&& result.1 == after.events
        }
    &&& references_of(&*b) == references_walked(
            &*a,
            references_of(&*a),
            a.vcount,
            a.cycles + cycles,
        )
}

impl Ppu {
    /// Every buffer has its hardware size and the dot clock is within a line.
    pub open spec fn wf(&self) -> bool {
        &&& self.vram@.len() == 0x18000
        &&& self.palette@.len() == 0x400
        &&& self.oam@.len() == 0x400
        &&& self.framebuffer@.len() == WIDTH * HEIGHT
        &&& self.bg_line@.len() == 4 * WIDTH
        &&& self.obj_line@.len() == WIDTH
        &&& self.obj_window@.len() == WIDTH
        &&& self.vcount < TOTAL_LINES
        &&& self.cycles < CYCLES_PER_LINE
    }

    /// The registers a game writes, and the three memories, are the same.
    pub open spec fn same_state(&self, other: &Ppu) -> bool {
        &&& self.vram == other.vram
        &&& self.palette == other.palette
        &&& self.oam == other.oam
        &&& self.dispcnt == other.dispcnt
        &&& self.green_swap == other.green_swap
        &&& self.bgcnt == other.bgcnt
        &&& self.bghofs == other.bghofs
        &&& self.bgvofs == other.bgvofs
        &&& self.bgpa == other.bgpa
        &&& self.bgpb == other.bgpb
        &&& self.bgpc == other.bgpc
        &&& self.bgpd == other.bgpd
        &&& self.bgx == other.bgx
        &&& self.bgy == other.bgy
        &&& self.winh == other.winh
        &&& self.winv == other.winv
        &&& self.winin == other.winin
        &&& self.winout == other.winout
        &&& self.mosaic == other.mosaic
        &&& self.bldcnt == other.bldcnt
        &&& self.bldalpha == other.bldalpha
        &&& self.bldy == other.bldy
    }

    pub fn new() -> (ppu: Self)
        ensures
            ppu.wf(),
            ppu.dispcnt == 0x0080,
            ppu.vcount == 0,
            ppu.cycles == 0,
            ppu.dispstat == 0,
            ppu.hblank_line == 0,
            ppu.vram@ == Seq::new(0x18000, |i: int| 0u8),
            ppu.palette@ == Seq::new(0x400, |i: int| 0u8),
            ppu.oam@ == Seq::new(0x400, |i: int| 0u8),
            ppu.framebuffer@ == Seq::new(38400, |i: int| 0u32),
    {
        Ppu {
            vram: vec![0; 0x18000],
            palette: vec![0; 0x400],
            oam: vec![0; 0x400],
            dispcnt: 0x0080,
            green_swap: 0,
            dispstat: 0,
            vcount: 0,
            bgcnt: [0; 4],
            bghofs: [0; 4],
            bgvofs: [0; 4],
            bgpa: [0x100; 2],
            bgpb: [0; 2],
            bgpc: [0; 2],
            bgpd: [0x100; 2],
            bgx: [0; 2],
            bgy: [0; 2],
            bgx_internal: [0; 2],
            bgy_internal: [0; 2],
            winh: [0; 2],
            winv: [0; 2],
            winin: 0,
            winout: 0,
            mosaic: 0,
            bldcnt: 0,
            bldalpha: 0,
            bldy: 0,
            cycles: 0,
            hblank_line: 0,
            framebuffer: vec![0; 38400],
            bg_line: vec![TRANSPARENT; 960],
            obj_line: vec![ObjPixel { color: TRANSPARENT, priority: 4, semi_transparent: false }; 240],
            obj_window: vec![false; 240],
        }
    }

    pub fn in_hblank(&self) -> (r: bool)
        ensures
            r == (self.cycles >= HBLANK_CYCLES),
    {
        self.cycles >= HBLANK_CYCLES
    }

    /// Enters hblank on the current line: sets the flag, draws a visible
    /// line and reports the events and interrupt it causes.
    fn enter_hblank(&mut self, irq: &mut u16, events: &mut u8)
        requires
            old(self).wf(),
        ensures
            final(self).wf(),
            final(self).same_state(&*old(self)),
            final(self).vcount == old(self).vcount,
            final(self).cycles == old(self).cycles,
            final(self).dispstat == old(self).dispstat | 2,
            final(self).dispstat & 2 != 0,
            final(self).hblank_line == old(self).vcount,
            final(self).bgx_internal == old(self).bgx_internal,
            final(self).bgy_internal == old(self).bgy_internal,
            ({
                let t = hblank_entered(
                    Timing {
                        dispstat: old(self).dispstat,
                        vcount: old(self).vcount,
                        hblank_line: old(self).hblank_line,
                        irq: *old(irq),
                        events: *old(events),
                    },
                );
                &&& *final(irq) == t.irq
                &&& *final(events) == t.events
            }),
    {
        proof {
            crate::bits::lemma_or_sets_u16(self.dispstat, 2);
            let d = self.dispstat;
            assert((d | 2u16) & 0x10u16 == d & 0x10u16) by (bit_vector);
        }
        self.dispstat = self.dispstat | 2;
        self.hblank_line = self.vcount;
        *events = *events | EVENT_HBLANK_ANY;
        if (self.vcount as usize) < HEIGHT {
            let line = self.vcount as usize;
            self.render_scanline(line);
            *events = *events | EVENT_HBLANK;
        }
        if self.dispstat & 0x10 != 0 {
            *irq = *irq | 2;
        }
    }

    /// Advances the dot clock. Returns (IRQ mask, event flags).
    pub fn tick(&mut self, cycles: u32) -> (result: (u16, u8))
        requires
            old(self).wf(),
        ensures
            final(self).wf(),
            ppu_ticked(&*old(self), cycles, result, &*final(self)),
    {
        let mut irq: u16 = 0;
        let mut events: u8 = 0;
        let mut now: u64 = self.cycles as u64 + cycles as u64;
        let ghost total = self.cycles + cycles;
        let ghost start_line = self.vcount;

        let ghost goal = timing_after(
            self.dispstat,
            self.vcount,
            self.hblank_line,
            self.cycles as int,
            cycles as int,
        );
        if self.dispstat & 2 == 0 && now >= HBLANK_CYCLES as u64 {
            self.enter_hblank(&mut irq, &mut events);
        }
        assert(lines_run(
            Timing {
                dispstat: self.dispstat,
                vcount: self.vcount,
                hblank_line: self.hblank_line,
                irq,
                events,
            },
            now as int,
        ) == goal);
        let ghost mut lines: int = 0;
        while now >= CYCLES_PER_LINE as u64
            invariant
                self.wf(),
                self.same_state(&*old(self)),
                now + lines * CYCLES_PER_LINE == total,
                lines >= 0,
                self.vcount == (start_line + lines) % (TOTAL_LINES as int),
                start_line == old(self).vcount,
                start_line < TOTAL_LINES,
                total == old(self).cycles + cycles,
                now >= HBLANK_CYCLES ==> self.dispstat & 2 != 0,
                goal == timing_after(
                    old(self).dispstat,
                    old(self).vcount,
                    old(self).hblank_line,
                    old(self).cycles as int,
                    cycles as int,
                ),
                lines_run(
                    Timing {
                        dispstat: self.dispstat,
                        vcount: self.vcount,
                        hblank_line: self.hblank_line,
                        irq,
                        events,
                    },
                    now as int,
                ) == goal,
                references_walked(&*old(self), references_of(&*self), self.vcount, now as int)
                    == references_walked(
                    &*old(self),
                    references_of(&*old(self)),
                    old(self).vcount,
                    old(self).cycles + cycles,
                ),
            decreases now,
        {
            let ghost here = Timing {
                dispstat: self.dispstat,
                vcount: self.vcount,
                hblank_line: self.hblank_line,
                irq,
                events,
            };
            let ghost here_references = references_of(&*self);
            let ghost here_line = self.vcount;
            now = now - CYCLES_PER_LINE as u64;
            proof {
                lines = lines + 1;
            }
            let ghost before = self.vcount;
            let cleared = self.dispstat & !2u16;
            self.dispstat = cleared;
            if (self.vcount as usize) < HEIGHT {
                // Affine backgrounds walk their reference point every line.
                self.bgx_internal[0] = self.bgx_internal[0].wrapping_add(self.bgpb[0] as i32);
                self.bgy_internal[0] = self.bgy_internal[0].wrapping_add(self.bgpd[0] as i32);
                self.bgx_internal[1] = self.bgx_internal[1].wrapping_add(self.bgpb[1] as i32);
                self.bgy_internal[1] = self.bgy_internal[1].wrapping_add(self.bgpd[1] as i32);
            }
            self.vcount = self.vcount + 1;
            if self.vcount >= TOTAL_LINES {
                self.vcount = 0;
                events = events | EVENT_FRAME;
            }
            proof {
                vstd::arithmetic::div_mod::lemma_add_mod_noop(start_line + lines - 1, 1, TOTAL_LINES as int);
                assert(1int % (TOTAL_LINES as int) == 1);
                assert(self.vcount == (before + 1) % (TOTAL_LINES as int));
            }
            if self.vcount == HEIGHT as u16 {
                self.dispstat = self.dispstat | 1;
                events = events | EVENT_VBLANK;
                if self.dispstat & 0x08 != 0 {
                    irq = irq | 1;
                }
                self.bgx_internal = self.bgx;
                self.bgy_internal = self.bgy;
            } else if self.vcount == TOTAL_LINES - 1 {
                // The vblank flag drops on the last line, not at line zero.
                self.dispstat = self.dispstat & !1u16;
            }
            let compare = (self.dispstat >> 8u16) & 0xff;
            if self.vcount == compare {
                self.dispstat = self.dispstat | 4;
                if self.dispstat & 0x20 != 0 {
                    irq = irq | 4;
                }
            } else {
                self.dispstat = self.dispstat & !4u16;
            }
            assert(Timing {
                dispstat: self.dispstat,
                vcount: self.vcount,
                hblank_line: self.hblank_line,
                irq,
                events,
            } == next_line(here));
            assert(references_walked(&*old(self), here_references, here_line, now + CYCLES_PER_LINE)
                == references_walked(&*old(self), references_of(&*self), self.vcount, now as int));
            if now >= HBLANK_CYCLES as u64 {
                self.enter_hblank(&mut irq, &mut events);
            }
        }
        proof {
            vstd::arithmetic::div_mod::lemma_fundamental_div_mod_converse(
                total,
                CYCLES_PER_LINE as int,
                lines,
                now as int,
            );
        }
        self.cycles = now as u32;
        (irq, events)
    }

    /// Cycles left before the next PPU state change.
    pub fn cycles_until_event(&self) -> (cycles: u32)
        requires
            self.wf(),
        ensures
            cycles == if self.cycles < HBLANK_CYCLES {
                HBLANK_CYCLES - self.cycles
            } else {
                CYCLES_PER_LINE - self.cycles
            },
            cycles >= 1,
    {
        if self.cycles < HBLANK_CYCLES {
            HBLANK_CYCLES - self.cycles
        } else {
            CYCLES_PER_LINE - self.cycles
        }
    }

    /// Re-renders the whole screen from the current register state. Only
    /// used by the debugging tools, since it ignores mid-frame register
    /// changes.
    /// Draws `line` for a full redraw, as `line_rendered` says.
    #[verifier::spinoff_prover]
    fn redraw_line(&mut self, line: usize)
        requires
            old(self).wf(),
            line < HEIGHT,
        ensures
            final(self).wf(),
            *final(self) == (Ppu {
                framebuffer: final(self).framebuffer,
                bg_line: final(self).bg_line,
                obj_line: final(self).obj_line,
                obj_window: final(self).obj_window,
                ..*old(self)
            }),
            forall|i: int|
                0 <= i < WIDTH * HEIGHT && !(line * WIDTH <= i < (line + 1) * WIDTH)
                    ==> #[trigger] final(self).framebuffer@[i] == old(self).framebuffer@[i],
            line_rendered(&*old(self), final(self).framebuffer@, line as int),
    {
        self.render_scanline(line);
    }

    #[verifier::spinoff_prover]
    #[verifier::rlimit(100)]
    pub fn render_all(&mut self)
        requires
            old(self).wf(),
        ensures
            final(self).wf(),
            final(self).same_state(&*old(self)),
            final(self).vcount == old(self).vcount,
            final(self).cycles == old(self).cycles,
            final(self).dispstat == old(self).dispstat,
            forall|line: int|
                0 <= line < HEIGHT ==> #[trigger] line_redrawn(&*old(self), final(self).framebuffer@, line),
    {
        let saved = self.vcount;
        self.bgx_internal = self.bgx;
        self.bgy_internal = self.bgy;
        let mut line: usize = 0;
        while line < HEIGHT
            invariant
                self.wf(),
                self.same_state(&*old(self)),
                self.vcount == old(self).vcount,
                self.cycles == old(self).cycles,
                self.dispstat == old(self).dispstat,
                self.hblank_line == old(self).hblank_line,
                line <= HEIGHT,
                forall|i: int|
                    0 <= i < 2 ==> #[trigger] self.bgx_internal[i] == walk(
                        old(self).bgx[i],
                        old(self).bgpb[i] as i32,
                        line as int,
                    ) && self.bgy_internal[i] == walk(old(self).bgy[i], old(self).bgpd[i] as i32, line as int),
                forall|l: int| 0 <= l < line ==> #[trigger] line_redrawn(&*old(self), self.framebuffer@, l),
            decreases HEIGHT - line,
        {
            let ghost here = *self;
            self.redraw_line(line);
            proof {
                lemma_redraw_step(&*old(self), &here, self.framebuffer@, line as int);
            }
            self.bgx_internal[0] = self.bgx_internal[0].wrapping_add(self.bgpb[0] as i32);
            self.bgy_internal[0] = self.bgy_internal[0].wrapping_add(self.bgpd[0] as i32);
            self.bgx_internal[1] = self.bgx_internal[1].wrapping_add(self.bgpb[1] as i32);
            self.bgy_internal[1] = self.bgy_internal[1].wrapping_add(self.bgpd[1] as i32);
            line = line + 1;
        }
        self.vcount = saved;
    }

    pub fn set_bgx(&mut self, index: usize, value: i32)
        requires
            index < 2,
        ensures
            final(self).bgx@ == old(self).bgx@.update(index as int, value),
            final(self).bgx_internal@ == old(self).bgx_internal@.update(index as int, value),
            *final(self) == (Ppu { bgx: final(self).bgx, bgx_internal: final(self).bgx_internal, ..*old(self) }),
            final(self).bgy == old(self).bgy,
            final(self).bgy_internal == old(self).bgy_internal,
            final(self).vram == old(self).vram,
            final(self).palette == old(self).palette,
            final(self).oam == old(self).oam,
            final(self).framebuffer == old(self).framebuffer,
            final(self).bg_line == old(self).bg_line,
            final(self).obj_line == old(self).obj_line,
            final(self).obj_window == old(self).obj_window,
            final(self).vcount == old(self).vcount,
            final(self).cycles == old(self).cycles,
    {
        self.bgx[index] = value;
        self.bgx_internal[index] = value;
    }

    pub fn set_bgy(&mut self, index: usize, value: i32)
        requires
            index < 2,
        ensures
            final(self).bgy@ == old(self).bgy@.update(index as int, value),
            final(self).bgy_internal@ == old(self).bgy_internal@.update(index as int, value),
            *final(self) == (Ppu { bgy: final(self).bgy, bgy_internal: final(self).bgy_internal, ..*old(self) }),
            final(self).bgx == old(self).bgx,
            final(self).bgx_internal == old(self).bgx_internal,
            final(self).vram == old(self).vram,
            final(self).palette == old(self).palette,
            final(self).oam == old(self).oam,
            final(self).framebuffer == old(self).framebuffer,
            final(self).bg_line == old(self).bg_line,
            final(self).obj_line == old(self).obj_line,
            final(self).obj_window == old(self).obj_window,
            final(self).vcount == old(self).vcount,
            final(self).cycles == old(self).cycles,
    {
        self.bgy[index] = value;
        self.bgy_internal[index] = value;
    }

    /// Palette entry `index` as a 15 bit colour.
    fn palette16(&self, index: usize) -> (color: u16)
        requires
            self.wf(),
            index < 0x1000,
        ensures
            color < 0x8000,
            color == palette_color(self.palette@, index as int),
    {
        let offset = (index * 2) & 0x3fe;
        proof {
            lemma_and_le_usize((index * 2) as usize, 0x3fe);
        }
        let value = (self.palette[offset] as u16) | ((self.palette[offset + 1] as u16) << 8u16);
        let color = value & 0x7fff;
        proof {
            lemma_and_le_u16(value, 0x7fff);
        }
        color
    }

    /// The halfword at a VRAM offset, or zero past its end.
    fn vram16(&self, offset: usize) -> (value: u16)
        requires
            self.wf(),
        ensures
            offset + 1 < self.vram@.len() ==> value == (self.vram@[offset as int] as u16) | ((
            self.vram@[offset + 1] as u16) << 8u16),
            value == vram_half(self.vram@, offset as int),
    {
        if offset >= self.vram.len() || offset + 1 >= self.vram.len() {
            return 0;
        }
        (self.vram[offset] as u16) | ((self.vram[offset + 1] as u16) << 8u16)
    }

    fn clear_lines(&mut self)
        requires
            old(self).wf(),
        ensures
            final(self).wf(),
            final(self).same_state(&*old(self)),
            final(self).vcount == old(self).vcount,
            final(self).cycles == old(self).cycles,
            final(self).dispstat == old(self).dispstat,
            final(self).hblank_line == old(self).hblank_line,
            final(self).framebuffer == old(self).framebuffer,
            final(self).bgx_internal == old(self).bgx_internal,
            final(self).bgy_internal == old(self).bgy_internal,
            forall|i: int| 0 <= i < 4 * WIDTH ==> #[trigger] final(self).bg_line@[i] == TRANSPARENT,
            forall|i: int| 0 <= i < WIDTH ==> #[trigger] final(self).obj_line@[i] == cleared_object(),
            forall|i: int| 0 <= i < WIDTH ==> !#[trigger] final(self).obj_window@[i],
    {
        let mut index: usize = 0;
        while index < 4 * WIDTH
            invariant
                self.wf(),
                self.same_state(&*old(self)),
                self.vcount == old(self).vcount,
                self.cycles == old(self).cycles,
                self.dispstat == old(self).dispstat,
                self.hblank_line == old(self).hblank_line,
                self.framebuffer == old(self).framebuffer,
                self.bgx_internal == old(self).bgx_internal,
                self.bgy_internal == old(self).bgy_internal,
                index <= 4 * WIDTH,
                forall|i: int| 0 <= i < index ==> #[trigger] self.bg_line@[i] == TRANSPARENT,
            decreases 4 * WIDTH - index,
        {
            self.bg_line[index] = TRANSPARENT;
            index = index + 1;
        }
        let mut x: usize = 0;
        while x < WIDTH
            invariant
                self.wf(),
                self.same_state(&*old(self)),
                self.vcount == old(self).vcount,
                self.cycles == old(self).cycles,
                self.dispstat == old(self).dispstat,
                self.hblank_line == old(self).hblank_line,
                self.framebuffer == old(self).framebuffer,
                self.bgx_internal == old(self).bgx_internal,
                self.bgy_internal == old(self).bgy_internal,
                x <= WIDTH,
                forall|i: int| 0 <= i < 4 * WIDTH ==> #[trigger] self.bg_line@[i] == TRANSPARENT,
                forall|i: int| 0 <= i < x ==> #[trigger] self.obj_line@[i] == cleared_object(),
                forall|i: int| 0 <= i < x ==> !#[trigger] self.obj_window@[i],
            decreases WIDTH - x,
        {
            self.obj_line[x] = ObjPixel { color: TRANSPARENT, priority: 4, semi_transparent: false };
            self.obj_window[x] = false;
            x = x + 1;
        }
    }

    /// Draws line `line` of the framebuffer; nothing else on screen changes.
    #[verifier::spinoff_prover]
    #[verifier::rlimit(100)]
    fn render_scanline(&mut self, line: usize)
        requires
            old(self).wf(),
            line < HEIGHT,
        ensures
            final(self).wf(),
            final(self).same_state(&*old(self)),
            final(self).vcount == old(self).vcount,
            final(self).cycles == old(self).cycles,
            final(self).dispstat == old(self).dispstat,
            final(self).hblank_line == old(self).hblank_line,
            final(self).bgx_internal == old(self).bgx_internal,
            final(self).bgy_internal == old(self).bgy_internal,
            forall|i: int|
                0 <= i < WIDTH * HEIGHT && !(line * WIDTH <= i < (line + 1) * WIDTH)
                    ==> #[trigger] final(self).framebuffer@[i] == old(self).framebuffer@[i],
            old(self).dispcnt & 0x0080 != 0 ==> forall|i: int|
                line * WIDTH <= i < (line + 1) * WIDTH ==> #[trigger] final(self).framebuffer@[i]
                    == 0x00ff_ffff,
            old(self).dispcnt & 0x0080 == 0 ==> exists|drawn: Ppu|
                #[trigger] lines_drawn(&*old(self), &drawn, line as int) && forall|x: int|
                    0 <= x < WIDTH ==> #[trigger] final(self).framebuffer@[line * WIDTH + x]
                        == shown_pixel(&*old(self), &drawn, line as int, x),
    {
        if self.dispcnt & 0x0080 != 0 {
            // Forced blank shows white.
            let mut x: usize = 0;
            while x < WIDTH
                invariant
                    self.wf(),
                    self.same_state(&*old(self)),
                    self.vcount == old(self).vcount,
                    self.cycles == old(self).cycles,
                    self.dispstat == old(self).dispstat,
                    self.hblank_line == old(self).hblank_line,
                    self.bgx_internal == old(self).bgx_internal,
                    self.bgy_internal == old(self).bgy_internal,
                    line < HEIGHT,
                    x <= WIDTH,
                    forall|i: int|
                        0 <= i < WIDTH * HEIGHT && !(line * WIDTH <= i < line * WIDTH + x)
                            ==> #[trigger] self.framebuffer@[i] == old(self).framebuffer@[i],
                    forall|i: int|
                        line * WIDTH <= i < line * WIDTH + x ==> #[trigger] self.framebuffer@[i]
                            == 0x00ff_ffff,
                decreases WIDTH - x,
            {
                self.framebuffer[line * WIDTH + x] = 0x00ff_ffff;
                x = x + 1;
            }
            return;
        }
        self.clear_lines();
        self.draw_backgrounds(line);
        let ghost backgrounds = *self;
        if self.dispcnt & 0x1000 != 0 {
            self.render_sprites(line);
        }
        let ghost drawn = *self;
        assert(lines_drawn(&*old(self), &drawn, line as int)) by {
            assert forall|x: int| 0 <= x < WIDTH implies #[trigger] backgrounds.obj_line@[x].color
                == TRANSPARENT by {}
            if old(self).dispcnt & 0x1000 != 0 {
                assert forall|x: int| 0 <= x < WIDTH implies (#[trigger] drawn.obj_line@[x],
                    drawn.obj_window@[x]) == sprites_over(
                    &*old(self),
                    line as int,
                    x,
                    128,
                    (cleared_object(), false),
                ) by {
                    assert(backgrounds.obj_line@[x] == cleared_object());
                    lemma_sprites_read_memory(&backgrounds, &*old(self), line as int, x, 128, (cleared_object(), false));
                }
            }
        }
        self.compose(line);
        let ghost composed_line = self.framebuffer@;
        if self.green_swap & 1 != 0 {
            self.swap_green(line);
        }
        proof {
            assert forall|x: int| 0 <= x < WIDTH implies #[trigger] self.framebuffer@[line * WIDTH + x]
                == shown_pixel(&*old(self), &drawn, line as int, x) by {
                if old(self).green_swap & 1 != 0 {
                    let k = x / 2;
                    assert(green_swapped(composed_line, self.framebuffer@, line * WIDTH + 2 * k));
                    assert(composed_line[line * WIDTH + 2 * k] == rgb_spec(
                        composed(&drawn, 2 * k, line as int),
                    ));
                    let odd = 2 * k + 1;
                    assert(composed_line[line * WIDTH + odd] == rgb_spec(
                        composed(&drawn, odd, line as int),
                    ));
                    assert(line * WIDTH + 2 * k + 1 == line * WIDTH + odd);
                }
            }
        }
    }

    /// Draws every background the mode has and DISPCNT enables into the
    /// cleared line buffers.
    #[verifier::spinoff_prover]
    #[verifier::rlimit(60)]
    fn draw_backgrounds(&mut self, line: usize)
        requires
            old(self).wf(),
            line < HEIGHT,
            forall|i: int| 0 <= i < 4 * WIDTH ==> #[trigger] old(self).bg_line@[i] == TRANSPARENT,
        ensures
            final(self).wf(),
            *final(self) == (Ppu { bg_line: final(self).bg_line, ..*old(self) }),
            forall|b: int, x: int|
                0 <= b < 4 && 0 <= x < WIDTH ==> #[trigger] final(self).bg_line@[b * WIDTH + x]
                    == background_line(&*old(self), line as int, b, x),
    {
        let mode = self.dispcnt & 7;
        let mut background: usize = 0;
        while background < 4
            invariant
                self.wf(),
                background <= 4,
                line < HEIGHT,
                mode == old(self).dispcnt & 7,
                *self == (Ppu { bg_line: self.bg_line, ..*old(self) }),
                forall|b: int, x: int|
                    0 <= b < 4 && 0 <= x < WIDTH ==> #[trigger] self.bg_line@[b * WIDTH + x]
                        == if b < background {
                        background_line(&*old(self), line as int, b, x)
                    } else {
                        TRANSPARENT
                    },
            decreases 4 - background,
        {
            let ghost before = *self;
            if self.dispcnt & (0x0100u16 << background as u16) != 0 {
                if mode == 0 || (mode == 1 && background < 2) {
                    self.render_text_bg(background, line);
                } else if (mode == 1 && background == 2) || (mode == 2 && background >= 2) {
                    self.render_affine_bg(background);
                } else if 3 <= mode && mode <= 5 && background == 2 {
                    self.render_bitmap_bg(mode);
                }
            }
            assert forall|b: int, x: int| 0 <= b < 4 && 0 <= x < WIDTH implies #[trigger] self.bg_line@[b
                * WIDTH + x] == if b < background + 1 {
                background_line(&*old(self), line as int, b, x)
            } else {
                TRANSPARENT
            } by {
                assert(before.bg_line@[b * WIDTH + x] == if b < background {
                    background_line(&*old(self), line as int, b, x)
                } else {
                    TRANSPARENT
                });
                if b == background {
                    assert(self.bg_line@[background * WIDTH + x] == self.bg_line@[b * WIDTH + x]);
                    if background == 2 {
                        assert(self.bg_line@[2 * WIDTH + x] == self.bg_line@[b * WIDTH + x]);
                    }
                }
            }
            background = background + 1;
        }
    }

    /// Exchanges the green channel between each pair of neighbouring pixels.
    fn swap_green(&mut self, line: usize)
        requires
            old(self).wf(),
            line < HEIGHT,
        ensures
            final(self).wf(),
            final(self).same_state(&*old(self)),
            final(self).vcount == old(self).vcount,
            final(self).cycles == old(self).cycles,
            final(self).dispstat == old(self).dispstat,
            final(self).hblank_line == old(self).hblank_line,
            final(self).bgx_internal == old(self).bgx_internal,
            final(self).bgy_internal == old(self).bgy_internal,
            forall|i: int|
                0 <= i < WIDTH * HEIGHT && !(line * WIDTH <= i < (line + 1) * WIDTH)
                    ==> #[trigger] final(self).framebuffer@[i] == old(self).framebuffer@[i],
            forall|k: int|
                0 <= k < WIDTH / 2 ==> #[trigger] green_swapped(
                    old(self).framebuffer@,
                    final(self).framebuffer@,
                    line * WIDTH + 2 * k,
                ),
    {
        let mut pair: usize = 0;
        while pair < WIDTH / 2
            invariant
                self.wf(),
                self.same_state(&*old(self)),
                self.vcount == old(self).vcount,
                self.cycles == old(self).cycles,
                self.dispstat == old(self).dispstat,
                self.hblank_line == old(self).hblank_line,
                self.bgx_internal == old(self).bgx_internal,
                self.bgy_internal == old(self).bgy_internal,
                line < HEIGHT,
                pair <= WIDTH / 2,
                forall|i: int|
                    0 <= i < WIDTH * HEIGHT && !(line * WIDTH <= i < line * WIDTH + 2 * pair)
                        ==> #[trigger] self.framebuffer@[i] == old(self).framebuffer@[i],
                forall|k: int|
                    0 <= k < pair ==> #[trigger] green_swapped(
                        old(self).framebuffer@,
                        self.framebuffer@,
                        line * WIDTH + 2 * k,
                    ),
            decreases WIDTH / 2 - pair,
        {
            let base = line * WIDTH + 2 * pair;
            let ghost before = self.framebuffer@;
            let left = self.framebuffer[base];
            let right = self.framebuffer[base + 1];
            self.framebuffer[base] = (left & !0x0000_ff00u32) | (right & 0x0000_ff00);
            self.framebuffer[base + 1] = (right & !0x0000_ff00u32) | (left & 0x0000_ff00);
            assert forall|k: int| 0 <= k < pair + 1 implies #[trigger] green_swapped(
                old(self).framebuffer@,
                self.framebuffer@,
                line * WIDTH + 2 * k,
            ) by {
                if k < pair {
                    assert(green_swapped(old(self).framebuffer@, before, line * WIDTH + 2 * k));
                }
            }
            pair = pair + 1;
        }
    }

    /// The coordinate a background samples under mosaic.
    fn mosaic_x(&self, background: usize, x: usize) -> (r: usize)
        requires
            background < 4,
        ensures
            r <= x,
            r == mosaic_x_spec(self, background as int, x as int),
    {
        if self.bgcnt[background] & 0x40 == 0 {
            return x;
        }
        let size = (self.mosaic & 0xf) as usize + 1;
        assert(x % size <= x) by (nonlinear_arith)
            requires
                size > 0,
        ;
        x - x % size
    }

    fn mosaic_y(&self, background: usize, y: usize) -> (r: usize)
        requires
            background < 4,
        ensures
            r <= y,
            r == mosaic_y_spec(self, background as int, y as int),
    {
        if self.bgcnt[background] & 0x40 == 0 {
            return y;
        }
        let size = ((self.mosaic >> 4u16) & 0xf) as usize + 1;
        assert(y % size <= y) by (nonlinear_arith)
            requires
                size > 0,
        ;
        y - y % size
    }

    #[verifier::rlimit(80)]
    #[verifier::spinoff_prover]
    fn render_text_bg(&mut self, background: usize, line: usize)
        requires
            old(self).wf(),
            background < 4,
            line < HEIGHT,
        ensures
            final(self).wf(),
            final(self).same_state(&*old(self)),
            final(self).vcount == old(self).vcount,
            final(self).cycles == old(self).cycles,
            final(self).dispstat == old(self).dispstat,
            final(self).hblank_line == old(self).hblank_line,
            final(self).bgx_internal == old(self).bgx_internal,
            final(self).bgy_internal == old(self).bgy_internal,
            final(self).framebuffer == old(self).framebuffer,
            *final(self) == (Ppu { bg_line: final(self).bg_line, ..*old(self) }),
            forall|i: int|
                0 <= i < 4 * WIDTH && !(background * WIDTH <= i < background * WIDTH + WIDTH)
                    ==> #[trigger] final(self).bg_line@[i] == old(self).bg_line@[i],
            forall|x: int|
                0 <= x < WIDTH ==> #[trigger] final(self).bg_line@[background * WIDTH + x] == if text_index(
                    &*old(self),
                    background as int,
                    line as int,
                    x,
                ) != 0 {
                    palette_color(
                        old(self).palette@,
                        text_index(&*old(self), background as int, line as int, x),
                    )
                } else {
                    old(self).bg_line@[background * WIDTH + x]
                },
    {
        let control = self.bgcnt[background];
        let char_base = ((control >> 2u16) & 3) as usize * 0x4000;
        let screen_base = ((control >> 8u16) & 0x1f) as usize * 0x800;
        let color256 = control & 0x80 != 0;
        let size = (control >> 14u16) & 3;
        let width: usize = if size & 1 != 0 {
            512
        } else {
            256
        };
        let height: usize = if size & 2 != 0 {
            512
        } else {
            256
        };
        proof {
            lemma_and_le_u16(control >> 2u16, 3);
            lemma_and_le_u16(control >> 8u16, 0x1f);
        }
        let scroll_x = self.bghofs[background] as usize & 0x1ff;
        let scroll_y = self.bgvofs[background] as usize & 0x1ff;
        proof {
            lemma_and_le_usize(self.bghofs[background as int] as usize, 0x1ff);
            lemma_and_le_usize(self.bgvofs[background as int] as usize, 0x1ff);
        }
        let mosaic_line = self.mosaic_y(background, line);
        let source_y = (mosaic_line + scroll_y) & (height - 1);
        proof {
            lemma_and_le_usize((mosaic_line + scroll_y) as usize, (height - 1) as usize);
        }
        let mut x: usize = 0;
        while x < WIDTH
            invariant
                self.wf(),
                self.same_state(&*old(self)),
                self.vcount == old(self).vcount,
                self.cycles == old(self).cycles,
                self.dispstat == old(self).dispstat,
                self.hblank_line == old(self).hblank_line,
                self.bgx_internal == old(self).bgx_internal,
                self.bgy_internal == old(self).bgy_internal,
                self.framebuffer == old(self).framebuffer,
                background < 4,
                char_base <= 3 * 0x4000,
                screen_base <= 0x1f * 0x800,
                width == 256 || width == 512,
                source_y < 512,
                scroll_x <= 0x1ff,
                x <= WIDTH,
                line < HEIGHT,
                *self == (Ppu { bg_line: self.bg_line, ..*old(self) }),
                char_base == ((self.bgcnt[background as int] >> 2u16) & 3) * 0x4000,
                screen_base == ((self.bgcnt[background as int] >> 8u16) & 0x1f) * 0x800,
                color256 == (self.bgcnt[background as int] & 0x80 != 0),
                width == (if (self.bgcnt[background as int] >> 14u16) & 3 & 1 != 0 {
                    512int
                } else {
                    256int
                }),
                scroll_x == (self.bghofs[background as int] as usize & 0x1ff),
                source_y == ((mosaic_y_spec(self, background as int, line as int) + (
                self.bgvofs[background as int] as usize & 0x1ff)) as usize & (if (self.bgcnt[background as int]
                    >> 14u16) & 3 & 2 != 0 {
                    512int
                } else {
                    256int
                } - 1) as usize),
                forall|i: int|
                    0 <= i < 4 * WIDTH && !(background * WIDTH <= i < background * WIDTH + x)
                        ==> #[trigger] self.bg_line@[i] == old(self).bg_line@[i],
                forall|j: int|
                    0 <= j < x ==> #[trigger] self.bg_line@[background * WIDTH + j] == if text_index(
                        &*old(self),
                        background as int,
                        line as int,
                        j,
                    ) != 0 {
                        palette_color(
                            old(self).palette@,
                            text_index(&*old(self), background as int, line as int, j),
                        )
                    } else {
                        old(self).bg_line@[background * WIDTH + j]
                    },
            decreases WIDTH - x,
        {
            let mosaic_column = self.mosaic_x(background, x);
            let source_x = (mosaic_column + scroll_x) & (width - 1);
            proof {
                lemma_and_le_usize((mosaic_column + scroll_x) as usize, (width - 1) as usize);
            }
            let across: usize = if source_x >= 256 {
                1
            } else {
                0
            };
            let down: usize = if source_y >= 256 {
                width / 256
            } else {
                0
            };
            let block = across + down;
            let map = screen_base + block * 0x800;
            let tile_x = (source_x % 256) / 8;
            let tile_y = (source_y % 256) / 8;
            let entry = self.vram16(map + (tile_y * 32 + tile_x) * 2);
            let tile = (entry & 0x3ff) as usize;
            proof {
                lemma_and_le_u16(entry, 0x3ff);
            }
            let mut inner_x = source_x & 7;
            let mut inner_y = source_y & 7;
            proof {
                lemma_and_le_usize(source_x, 7);
                lemma_and_le_usize(source_y, 7);
            }
            if entry & 0x0400 != 0 {
                inner_x = 7 - inner_x;
            }
            if entry & 0x0800 != 0 {
                inner_y = 7 - inner_y;
            }
            let index: usize = if color256 {
                let offset = char_base + tile * 64 + inner_y * 8 + inner_x;
                if offset >= 0x10000 {
                    0
                } else {
                    self.vram[offset] as usize
                }
            } else {
                let offset = char_base + tile * 32 + inner_y * 4 + inner_x / 2;
                if offset >= 0x10000 {
                    0
                } else {
                    let packed = self.vram[offset];
                    let nibble = if inner_x & 1 == 0 {
                        packed & 0xf
                    } else {
                        packed >> 4u8
                    } as usize;
                    proof {
                        lemma_and_le_u8(packed, 0xf);
                        crate::bits::lemma_high_nibble_u8(packed);
                        crate::bits::lemma_top_nibble_u16(entry);
                    }
                    if nibble == 0 {
                        0
                    } else {
                        ((entry >> 12u16) as usize) * 16 + nibble
                    }
                }
            };
            assert(index as int == text_index(&*old(self), background as int, line as int, x as int));
            let ghost before = self.bg_line@;
            if index != 0 {
                let color = self.palette16(index);
                self.bg_line[background * WIDTH + x] = color;
            }
            assert forall|j: int| 0 <= j < x + 1 implies #[trigger] self.bg_line@[background * WIDTH
                + j] == if text_index(&*old(self), background as int, line as int, j) != 0 {
                palette_color(
                    old(self).palette@,
                    text_index(&*old(self), background as int, line as int, j),
                )
            } else {
                old(self).bg_line@[background * WIDTH + j]
            } by {
                if j < x {
                    assert(before[background * WIDTH + j] == if text_index(
                        &*old(self),
                        background as int,
                        line as int,
                        j,
                    ) != 0 {
                        palette_color(
                            old(self).palette@,
                            text_index(&*old(self), background as int, line as int, j),
                        )
                    } else {
                        old(self).bg_line@[background * WIDTH + j]
                    });
                }
            }
            x = x + 1;
        }
    }

    fn render_affine_bg(&mut self, background: usize)
        requires
            old(self).wf(),
            background == 2 || background == 3,
        ensures
            final(self).wf(),
            final(self).same_state(&*old(self)),
            final(self).vcount == old(self).vcount,
            final(self).cycles == old(self).cycles,
            final(self).dispstat == old(self).dispstat,
            final(self).hblank_line == old(self).hblank_line,
            final(self).bgx_internal == old(self).bgx_internal,
            final(self).bgy_internal == old(self).bgy_internal,
            final(self).framebuffer == old(self).framebuffer,
            *final(self) == (Ppu { bg_line: final(self).bg_line, ..*old(self) }),
            forall|i: int|
                0 <= i < 4 * WIDTH && !(background * WIDTH <= i < background * WIDTH + WIDTH)
                    ==> #[trigger] final(self).bg_line@[i] == old(self).bg_line@[i],
            forall|k: int|
                0 <= k < WIDTH ==> #[trigger] final(self).bg_line@[background * WIDTH + k] == if affine_index(
                    &*old(self),
                    background as int,
                    k,
                ) != 0 {
                    palette_color(old(self).palette@, affine_index(&*old(self), background as int, k))
                } else {
                    old(self).bg_line@[background * WIDTH + k]
                },
    {
        let index = background - 2;
        let control = self.bgcnt[background];
        let char_base = ((control >> 2u16) & 3) as usize * 0x4000;
        let screen_base = ((control >> 8u16) & 0x1f) as usize * 0x800;
        let size_select = (control >> 14u16) & 3;
        proof {
            lemma_and_le_u16(control >> 2u16, 3);
            lemma_and_le_u16(control >> 8u16, 0x1f);
            lemma_and_le_u16(control >> 14u16, 3);
        }
        let size_tiles: usize = if size_select == 0 {
            16
        } else if size_select == 1 {
            32
        } else if size_select == 2 {
            64
        } else {
            128
        };
        let size_pixels = (size_tiles * 8) as i32;
        let wrap = control & 0x2000 != 0;
        let pa = self.bgpa[index] as i32;
        let pc = self.bgpc[index] as i32;
        let mut x = self.bgx_internal[index];
        let mut y = self.bgy_internal[index];
        let mut screen_x: usize = 0;
        while screen_x < WIDTH
            invariant
                self.wf(),
                self.same_state(&*old(self)),
                self.vcount == old(self).vcount,
                self.cycles == old(self).cycles,
                self.dispstat == old(self).dispstat,
                self.hblank_line == old(self).hblank_line,
                self.bgx_internal == old(self).bgx_internal,
                self.bgy_internal == old(self).bgy_internal,
                self.framebuffer == old(self).framebuffer,
                background == 2 || background == 3,
                char_base <= 3 * 0x4000,
                screen_base <= 0x1f * 0x800,
                size_tiles == 16 || size_tiles == 32 || size_tiles == 64 || size_tiles == 128,
                size_pixels == size_tiles * 8,
                screen_x <= WIDTH,
                index == background - 2,
                *self == (Ppu { bg_line: self.bg_line, ..*old(self) }),
                char_base == ((self.bgcnt[background as int] >> 2u16) & 3) * 0x4000,
                screen_base == ((self.bgcnt[background as int] >> 8u16) & 0x1f) * 0x800,
                size_tiles == (if (self.bgcnt[background as int] >> 14u16) & 3 == 0 {
                    16int
                } else if (self.bgcnt[background as int] >> 14u16) & 3 == 1 {
                    32int
                } else if (self.bgcnt[background as int] >> 14u16) & 3 == 2 {
                    64int
                } else {
                    128int
                }),
                wrap == (self.bgcnt[background as int] & 0x2000 != 0),
                pa == self.bgpa[index as int] as i32,
                pc == self.bgpc[index as int] as i32,
                x == walk(self.bgx_internal[index as int], pa, screen_x as int),
                y == walk(self.bgy_internal[index as int], pc, screen_x as int),
                forall|i: int|
                    0 <= i < 4 * WIDTH && !(background * WIDTH <= i < background * WIDTH + screen_x)
                        ==> #[trigger] self.bg_line@[i] == old(self).bg_line@[i],
                forall|j: int|
                    0 <= j < screen_x ==> #[trigger] self.bg_line@[background * WIDTH + j] == if affine_index(
                        &*old(self),
                        background as int,
                        j,
                    ) != 0 {
                        palette_color(old(self).palette@, affine_index(&*old(self), background as int, j))
                    } else {
                        old(self).bg_line@[background * WIDTH + j]
                    },
            decreases WIDTH - screen_x,
        {
            let ghost before = self.bg_line@;
            let raw_x = x >> 8u32;
            let raw_y = y >> 8u32;
            x = x.wrapping_add(pa);
            y = y.wrapping_add(pc);
            let inside = wrap || (raw_x >= 0 && raw_x < size_pixels && raw_y >= 0 && raw_y
                < size_pixels);
            if inside {
                let mask = (size_pixels - 1) as u32;
                let sample_x = (raw_x as u32 & mask) as usize;
                let sample_y = (raw_y as u32 & mask) as usize;
                proof {
                    lemma_and_le_u32(raw_x as u32, mask);
                    lemma_and_le_u32(raw_y as u32, mask);
                }
                let tile_x = sample_x / 8;
                let tile_y = sample_y / 8;
                let map = screen_base + tile_y * size_tiles + tile_x;
                if map < self.vram.len() {
                    let tile = self.vram[map] as usize;
                    proof {
                        lemma_and_le_usize(sample_y, 7);
                        lemma_and_le_usize(sample_x, 7);
                    }
                    let offset = char_base + tile * 64 + (sample_y & 7) * 8 + (sample_x & 7);
                    if offset < 0x10000 {
                        let color_index = self.vram[offset] as usize;
                        if color_index != 0 {
                            let color = self.palette16(color_index);
                            self.bg_line[background * WIDTH + screen_x] = color;
                        }
                    }
                }
            }
            proof {
                assert forall|j: int| 0 <= j < screen_x + 1 implies #[trigger] self.bg_line@[background
                    * WIDTH + j] == if affine_index(&*old(self), background as int, j) != 0 {
                    palette_color(old(self).palette@, affine_index(&*old(self), background as int, j))
                } else {
                    old(self).bg_line@[background * WIDTH + j]
                } by {
                    if j < screen_x {
                        assert(before[background * WIDTH + j] == if affine_index(
                            &*old(self),
                            background as int,
                            j,
                        ) != 0 {
                            palette_color(old(self).palette@, affine_index(&*old(self), background as int, j))
                        } else {
                            old(self).bg_line@[background * WIDTH + j]
                        });
                    }
                }
            }
            screen_x = screen_x + 1;
        }
    }

    fn render_bitmap_bg(&mut self, mode: u16)
        requires
            old(self).wf(),
            3 <= mode <= 5,
        ensures
            final(self).wf(),
            final(self).same_state(&*old(self)),
            final(self).vcount == old(self).vcount,
            final(self).cycles == old(self).cycles,
            final(self).dispstat == old(self).dispstat,
            final(self).hblank_line == old(self).hblank_line,
            final(self).bgx_internal == old(self).bgx_internal,
            final(self).bgy_internal == old(self).bgy_internal,
            final(self).framebuffer == old(self).framebuffer,
            *final(self) == (Ppu { bg_line: final(self).bg_line, ..*old(self) }),
            forall|i: int|
                0 <= i < 4 * WIDTH && !(2 * WIDTH <= i < 3 * WIDTH)
                    ==> #[trigger] final(self).bg_line@[i] == old(self).bg_line@[i],
            forall|k: int|
                0 <= k < WIDTH ==> #[trigger] final(self).bg_line@[2 * WIDTH + k] == match bitmap_pixel(
                    &*old(self),
                    mode as int,
                    k,
                ) {
                    Some(color) => color,
                    None => old(self).bg_line@[2 * WIDTH + k],
                },
    {
        let pa = self.bgpa[0] as i32;
        let pc = self.bgpc[0] as i32;
        let mut x = self.bgx_internal[0];
        let mut y = self.bgy_internal[0];
        let bitmap_width: i32 = if mode == 5 {
            160
        } else {
            240
        };
        let bitmap_height: i32 = if mode == 5 {
            128
        } else {
            160
        };
        let page: usize = if self.dispcnt & 0x10 != 0 {
            0xa000
        } else {
            0
        };
        let mut screen_x: usize = 0;
        while screen_x < WIDTH
            invariant
                self.wf(),
                self.same_state(&*old(self)),
                self.vcount == old(self).vcount,
                self.cycles == old(self).cycles,
                self.dispstat == old(self).dispstat,
                self.hblank_line == old(self).hblank_line,
                self.bgx_internal == old(self).bgx_internal,
                self.bgy_internal == old(self).bgy_internal,
                self.framebuffer == old(self).framebuffer,
                bitmap_width == 160 || bitmap_width == 240,
                bitmap_height == 128 || bitmap_height == 160,
                page == 0 || page == 0xa000,
                3 <= mode <= 5,
                screen_x <= WIDTH,
                *self == (Ppu { bg_line: self.bg_line, ..*old(self) }),
                pa == self.bgpa[0] as i32,
                pc == self.bgpc[0] as i32,
                x == walk(self.bgx_internal[0], pa, screen_x as int),
                y == walk(self.bgy_internal[0], pc, screen_x as int),
                bitmap_width == (if mode == 5 {
                    160int
                } else {
                    240int
                }),
                bitmap_height == (if mode == 5 {
                    128int
                } else {
                    160int
                }),
                page == (if self.dispcnt & 0x10 != 0 {
                    0xa000int
                } else {
                    0int
                }),
                forall|i: int|
                    0 <= i < 4 * WIDTH && !(2 * WIDTH <= i < 2 * WIDTH + screen_x) ==> #[trigger] self.bg_line@[i]
                        == old(self).bg_line@[i],
                forall|k: int|
                    0 <= k < screen_x ==> #[trigger] self.bg_line@[2 * WIDTH + k] == match bitmap_pixel(
                        &*old(self),
                        mode as int,
                        k,
                    ) {
                        Some(color) => color,
                        None => old(self).bg_line@[2 * WIDTH + k],
                    },
            decreases WIDTH - screen_x,
        {
            let ghost before = self.bg_line@;
            let sample_x = x >> 8u32;
            let sample_y = y >> 8u32;
            x = x.wrapping_add(pa);
            y = y.wrapping_add(pc);
            if sample_x >= 0 && sample_x < bitmap_width && sample_y >= 0 && sample_y
                < bitmap_height {
                proof {
                    assert(sample_y * bitmap_width + sample_x < 240 * 160) by (nonlinear_arith)
                        requires
                            0 <= sample_y < bitmap_height,
                            0 <= sample_x < bitmap_width,
                            bitmap_width <= 240,
                            bitmap_height <= 160,
                    ;
                    assert(sample_y * bitmap_width >= 0) by (nonlinear_arith)
                        requires
                            0 <= sample_y,
                            0 <= bitmap_width,
                    ;
                }
                let position = (sample_y * bitmap_width + sample_x) as usize;
                if mode == 3 {
                    let value = self.vram16(position * 2);
                    let color = value & 0x7fff;
                    self.bg_line[2 * WIDTH + screen_x] = color;
                } else if mode == 4 {
                    let index = self.vram[page + position] as usize;
                    if index != 0 {
                        let color = self.palette16(index);
                        self.bg_line[2 * WIDTH + screen_x] = color;
                    }
                } else {
                    let value = self.vram16(page + position * 2);
                    let color = value & 0x7fff;
                    self.bg_line[2 * WIDTH + screen_x] = color;
                }
            }
            proof {
                assert forall|k: int| 0 <= k < screen_x + 1 implies #[trigger] self.bg_line@[2 * WIDTH
                    + k] == match bitmap_pixel(&*old(self), mode as int, k) {
                    Some(color) => color,
                    None => old(self).bg_line@[2 * WIDTH + k],
                } by {
                    if k < screen_x {
                        assert(before[2 * WIDTH + k] == match bitmap_pixel(&*old(self), mode as int, k) {
                            Some(color) => color,
                            None => old(self).bg_line@[2 * WIDTH + k],
                        });
                    }
                }
            }
            screen_x = screen_x + 1;
        }
    }

    /// A little-endian halfword of OAM.
    fn oam16(&self, offset: usize) -> (value: u16)
        requires
            self.wf(),
            offset + 1 < 0x400,
        ensures
            value == (self.oam@[offset as int] as u16) | ((self.oam@[offset + 1] as u16) << 8u16),
    {
        (self.oam[offset] as u16) | ((self.oam[offset + 1] as u16) << 8u16)
    }

    /// Lays the 128 sprites, in order, over the sprite line and window.
    fn render_sprites(&mut self, line: usize)
        requires
            old(self).wf(),
            line < HEIGHT,
        ensures
            final(self).wf(),
            *final(self) == (Ppu {
                obj_line: final(self).obj_line,
                obj_window: final(self).obj_window,
                ..*old(self)
            }),
            forall|x: int|
                0 <= x < WIDTH ==> (#[trigger] final(self).obj_line@[x], final(self).obj_window@[x])
                    == sprites_over(
                    &*old(self),
                    line as int,
                    x,
                    128,
                    (old(self).obj_line@[x], old(self).obj_window@[x]),
                ),
    {
        let one_dimensional = self.dispcnt & 0x40 != 0;
        let bitmap_mode = (self.dispcnt & 7) >= 3;
        let mosaic_x_size = ((self.mosaic >> 8u16) & 0xf) as usize + 1;
        let mosaic_y_size = ((self.mosaic >> 12u16) & 0xf) as usize + 1;
        proof {
            lemma_and_le_u16(self.mosaic >> 8u16, 0xf);
            lemma_and_le_u16(self.mosaic >> 12u16, 0xf);
        }
        let mut sprite: usize = 0;
        while sprite < 128
            invariant
                self.wf(),
                *self == (Ppu { obj_line: self.obj_line, obj_window: self.obj_window, ..*old(self) }),
                line < HEIGHT,
                sprite <= 128,
                one_dimensional == (old(self).dispcnt & 0x40 != 0),
                bitmap_mode == ((old(self).dispcnt & 7) >= 3),
                mosaic_x_size == ((old(self).mosaic >> 8u16) & 0xf) + 1,
                mosaic_y_size == ((old(self).mosaic >> 12u16) & 0xf) + 1,
                1 <= mosaic_x_size <= 16,
                1 <= mosaic_y_size <= 16,
                forall|x: int|
                    0 <= x < WIDTH ==> (#[trigger] self.obj_line@[x], self.obj_window@[x])
                        == sprites_over(
                        &*old(self),
                        line as int,
                        x,
                        sprite as int,
                        (old(self).obj_line@[x], old(self).obj_window@[x]),
                    ),
            decreases 128 - sprite,
        {
            let ghost before = *self;
            self.render_sprite(sprite, line, one_dimensional, bitmap_mode, mosaic_x_size, mosaic_y_size);
            assert forall|x: int| 0 <= x < WIDTH implies (#[trigger] self.obj_line@[x], self.obj_window@[x])
                == sprites_over(
                &*old(self),
                line as int,
                x,
                sprite + 1,
                (old(self).obj_line@[x], old(self).obj_window@[x]),
            ) by {
                assert((before.obj_line@[x], before.obj_window@[x]) == sprites_over(
                    &*old(self),
                    line as int,
                    x,
                    sprite as int,
                    (old(self).obj_line@[x], old(self).obj_window@[x]),
                ));
            }
            sprite = sprite + 1;
        }
    }

    /// Lays one sprite over the sprite line and window, column by column of
    /// its box.
    #[verifier::spinoff_prover]
    #[verifier::rlimit(100)]
    fn render_sprite(
        &mut self,
        sprite: usize,
        line: usize,
        one_dimensional: bool,
        bitmap_mode: bool,
        mosaic_x_size: usize,
        mosaic_y_size: usize,
    )
        requires
            old(self).wf(),
            line < HEIGHT,
            sprite < 128,
            one_dimensional == (old(self).dispcnt & 0x40 != 0),
            bitmap_mode == ((old(self).dispcnt & 7) >= 3),
            mosaic_x_size == ((old(self).mosaic >> 8u16) & 0xf) + 1,
            mosaic_y_size == ((old(self).mosaic >> 12u16) & 0xf) + 1,
            1 <= mosaic_x_size <= 16,
            1 <= mosaic_y_size <= 16,
        ensures
            final(self).wf(),
            *final(self) == (Ppu {
                obj_line: final(self).obj_line,
                obj_window: final(self).obj_window,
                ..*old(self)
            }),
            forall|x: int|
                0 <= x < WIDTH ==> (#[trigger] final(self).obj_line@[x], final(self).obj_window@[x])
                    == sprite_over(
                    old(self).palette@,
                    (old(self).obj_line@[x], old(self).obj_window@[x]),
                    sprite_texel(
                        old(self).vram@,
                        old(self).oam@,
                        old(self).dispcnt,
                        old(self).mosaic,
                        sprite as int,
                        line as int,
                        x,
                    ),
                ),
    {
        let ghost vram = self.vram@;
        let ghost oam = self.oam@;
        let ghost dispcnt = self.dispcnt;
        let ghost mosaic_register = self.mosaic;
        let base = sprite * 8;
        let attr0 = self.oam16(base);
        let attr1 = self.oam16(base + 2);
        let attr2 = self.oam16(base + 4);
        let affine = attr0 & 0x100 != 0;
        let double = attr0 & 0x200 != 0;
        let shape = (attr0 >> 14u16) & 3;
        let size = (attr1 >> 14u16) & 3;
        let sprite_y = (attr0 & 0xff) as usize;
        proof {
            lemma_and_le_u16(attr1 >> 14u16, 3);
            lemma_and_le_u16(attr0 >> 14u16, 3);
            lemma_and_le_u16(attr0, 0xff);
            lemma_and_le_usize((line + 256 - sprite_y) as usize, 0xff);
        }
        let row = (line + 256 - sprite_y) & 0xff;
        let tile_number = (attr2 & 0x3ff) as usize;
        proof {
            lemma_and_le_u16(attr2, 0x3ff);
        }
        let (width, height) = sprite_size(shape, size);
        let (box_width, box_height) = if affine && double {
            (width * 2, height * 2)
        } else {
            (width, height)
        };
        if (!affine && double) || shape == 3 || row >= box_height || (bitmap_mode && tile_number
            < 512) {
            // A disabled sprite, a missed line or frame buffer tiles: nothing shows.
            assert forall|x: int| 0 <= x < WIDTH implies sprite_texel(
                vram,
                oam,
                dispcnt,
                mosaic_register,
                sprite as int,
                line as int,
                x,
            ) is None by {}
            return;
        }
        let sprite_x = ((((attr1 & 0x1ff) as u32) << 23u32) as i32) >> 23u32;
        proof {
            let a = attr1;
            assert(-256 <= ((((a & 0x1ff) as u32) << 23u32) as i32) >> 23u32 <= 255) by (bit_vector);
        }
        let mode = (attr0 >> 10u16) & 3;
        let mosaic = attr0 & 0x1000 != 0;
        let color256 = attr0 & 0x2000 != 0;
        let priority = ((attr2 >> 10u16) & 3) as u8;
        let palette_bank = ((attr2 >> 12u16) & 0xf) as usize;
        proof {
            lemma_and_le_u16(attr2 >> 10u16, 3);
            lemma_and_le_u16(attr2 >> 12u16, 0xf);
        }
        let (pa, pb, pc, pd): (i32, i32, i32, i32) = if affine {
            let group = ((attr1 >> 9u16) & 0x1f) as usize * 32;
            proof {
                lemma_and_le_u16(attr1 >> 9u16, 0x1f);
            }
            (
                self.oam16(group + 6) as i16 as i32,
                self.oam16(group + 14) as i16 as i32,
                self.oam16(group + 22) as i16 as i32,
                self.oam16(group + 30) as i16 as i32,
            )
        } else {
            (0x100, 0, 0, 0x100)
        };
        let flip_x = !affine && attr1 & 0x1000 != 0;
        let flip_y = !affine && attr1 & 0x2000 != 0;
        let ghost raw_row = row as int;
        assert(row % mosaic_y_size <= row) by (nonlinear_arith)
            requires
                mosaic_y_size > 0,
        ;
        let row = if mosaic {
            row - row % mosaic_y_size
        } else {
            row
        };
        let half_width = (box_width / 2) as i32;
        let half_height = (box_height / 2) as i32;
        let offset_y = row as i32 - half_height;
        let ghost start_line = self.obj_line@;
        let ghost start_window = self.obj_window@;
        let mut column: usize = 0;
        while column < box_width
            invariant
                self.wf(),
                *self == (Ppu { obj_line: self.obj_line, obj_window: self.obj_window, ..*old(self) }),
                vram == old(self).vram@,
                oam == old(self).oam@,
                dispcnt == old(self).dispcnt,
                mosaic_register == old(self).mosaic,
                start_line == old(self).obj_line@,
                start_window == old(self).obj_window@,
                line < HEIGHT,
                sprite < 128,
                one_dimensional == (dispcnt & 0x40 != 0),
                mosaic_x_size == ((mosaic_register >> 8u16) & 0xf) + 1,
                mosaic_y_size == ((mosaic_register >> 12u16) & 0xf) + 1,
                1 <= mosaic_x_size <= 16,
                attr0 == oam_half(oam, sprite * 8),
                attr1 == oam_half(oam, sprite * 8 + 2),
                attr2 == oam_half(oam, sprite * 8 + 4),
                affine == (attr0 & 0x100 != 0),
                !(!affine && attr0 & 0x200 != 0),
                (width, height) == sprite_size_spec((attr0 >> 14u16) & 3, (attr1 >> 14u16) & 3),
                (attr0 >> 14u16) & 3 != 3,
                box_width == if affine && attr0 & 0x200 != 0 {
                    width * 2
                } else {
                    width as int
                },
                box_height == if affine && attr0 & 0x200 != 0 {
                    height * 2
                } else {
                    height as int
                },
                raw_row == (((line + 256 - (attr0 & 0xff)) as usize) & 0xff) as int,
                raw_row < box_height,
                mosaic == (attr0 & 0x1000 != 0),
                row == if mosaic {
                    raw_row - raw_row % (mosaic_y_size as int)
                } else {
                    raw_row
                },
                sprite_x == ((((attr1 & 0x1ff) as u32) << 23u32) as i32) >> 23u32,
                tile_number == (attr2 & 0x3ff) as usize,
                !((dispcnt & 7) >= 3 && tile_number < 512),
                mode == (attr0 >> 10u16) & 3,
                color256 == (attr0 & 0x2000 != 0),
                priority == ((attr2 >> 10u16) & 3) as u8,
                palette_bank == ((attr2 >> 12u16) & 0xf) as usize,
                flip_x == (!affine && attr1 & 0x1000 != 0),
                flip_y == (!affine && attr1 & 0x2000 != 0),
                affine ==> pa == oam_half(oam, (((attr1 >> 9u16) & 0x1f) as int) * 32 + 6) as i16 as i32
                    && pb == oam_half(oam, (((attr1 >> 9u16) & 0x1f) as int) * 32 + 14) as i16 as i32
                    && pc == oam_half(oam, (((attr1 >> 9u16) & 0x1f) as int) * 32 + 22) as i16 as i32
                    && pd == oam_half(oam, (((attr1 >> 9u16) & 0x1f) as int) * 32 + 30) as i16 as i32,
                8 <= width <= 64,
                8 <= height <= 64,
                box_width <= 128,
                box_height <= 128,
                half_width == box_width / 2,
                half_height == box_height / 2,
                row < box_height,
                offset_y == row - half_height,
                -256 <= sprite_x <= 255,
                -0x8000 <= pa <= 0x8000,
                -0x8000 <= pb <= 0x8000,
                -0x8000 <= pc <= 0x8000,
                -0x8000 <= pd <= 0x8000,
                palette_bank <= 15,
                tile_number <= 0x3ff,
                priority <= 3,
                column <= box_width,
                forall|x: int|
                    0 <= x < WIDTH ==> (#[trigger] self.obj_line@[x], self.obj_window@[x]) == if sprite_x
                        <= x < sprite_x + column {
                        sprite_over(
                            old(self).palette@,
                            (start_line[x], start_window[x]),
                            sprite_texel(vram, oam, dispcnt, mosaic_register, sprite as int, line as int, x),
                        )
                    } else {
                        (start_line[x], start_window[x])
                    },
            decreases box_width - column,
        {
            let screen_x = sprite_x + column as i32;
            let ghost before_line = self.obj_line@;
            let ghost before_window = self.obj_window@;
            if screen_x >= 0 && screen_x < WIDTH as i32 {
                let screen_x = screen_x as usize;
                assert(column % mosaic_x_size <= column) by (nonlinear_arith)
                    requires
                        mosaic_x_size > 0,
                ;
                let sampled = if mosaic {
                    column - column % mosaic_x_size
                } else {
                    column
                };
                let offset_x = sampled as i32 - half_width;
                proof {
                    assert(-0x8000 * 128 <= pa * offset_x <= 0x8000 * 128) by (nonlinear_arith)
                        requires
                            -0x8000 <= pa <= 0x8000,
                            -128 <= offset_x <= 128,
                    ;
                    assert(-0x8000 * 128 <= pb * offset_y <= 0x8000 * 128) by (nonlinear_arith)
                        requires
                            -0x8000 <= pb <= 0x8000,
                            -128 <= offset_y <= 128,
                    ;
                    assert(-0x8000 * 128 <= pc * offset_x <= 0x8000 * 128) by (nonlinear_arith)
                        requires
                            -0x8000 <= pc <= 0x8000,
                            -128 <= offset_x <= 128,
                    ;
                    assert(-0x8000 * 128 <= pd * offset_y <= 0x8000 * 128) by (nonlinear_arith)
                        requires
                            -0x8000 <= pd <= 0x8000,
                            -128 <= offset_y <= 128,
                    ;
                }
                let (texture_x, texture_y) = if affine {
                    let sum_x = pa * offset_x + pb * offset_y;
                    let sum_y = pc * offset_x + pd * offset_y;
                    proof {
                        crate::bits::lemma_shr8_bound_i32(sum_x);
                        crate::bits::lemma_shr8_bound_i32(sum_y);
                    }
                    ((sum_x >> 8u32) + (width / 2) as i32, (sum_y >> 8u32) + (height / 2) as i32)
                } else {
                    (offset_x + half_width, offset_y + half_height)
                };
                assert((texture_x as int, texture_y as int) == sprite_texture(
                    oam,
                    attr0,
                    attr1,
                    mosaic_register,
                    width as int,
                    height as int,
                    box_width as int,
                    box_height as int,
                    raw_row,
                    column as int,
                ));
                if texture_x >= 0 && texture_x < width as i32 && texture_y >= 0 && texture_y
                    < height as i32 {
                    let texture_x = if flip_x {
                        width as i32 - 1 - texture_x
                    } else {
                        texture_x
                    } as usize;
                    let texture_y = if flip_y {
                        height as i32 - 1 - texture_y
                    } else {
                        texture_y
                    } as usize;
                    self.plot_sprite_pixel(
                        screen_x,
                        texture_x,
                        texture_y,
                        width,
                        one_dimensional,
                        color256,
                        tile_number,
                        palette_bank,
                        mode,
                        priority,
                    );
                }
                assert(self.obj_line@ == before_line.update(
                    screen_x as int,
                    sprite_over(
                        old(self).palette@,
                        (before_line[screen_x as int], before_window[screen_x as int]),
                        sprite_texel(vram, oam, dispcnt, mosaic_register, sprite as int, line as int, screen_x as int),
                    ).0,
                ));
                assert(self.obj_window@ == before_window.update(
                    screen_x as int,
                    sprite_over(
                        old(self).palette@,
                        (before_line[screen_x as int], before_window[screen_x as int]),
                        sprite_texel(vram, oam, dispcnt, mosaic_register, sprite as int, line as int, screen_x as int),
                    ).1,
                ));
            }
            column = column + 1;
        }
    }

    /// Lays one texel of a sprite over the sprite line at `screen_x`.
    fn plot_sprite_pixel(
        &mut self,
        screen_x: usize,
        texture_x: usize,
        texture_y: usize,
        width: usize,
        one_dimensional: bool,
        color256: bool,
        tile_number: usize,
        palette_bank: usize,
        mode: u16,
        priority: u8,
    )
        requires
            old(self).wf(),
            screen_x < WIDTH,
            texture_x < 64,
            texture_y < 64,
            width <= 64,
            tile_number <= 0x3ff,
            palette_bank <= 15,
        ensures
            final(self).wf(),
            *final(self) == (Ppu {
                obj_line: final(self).obj_line,
                obj_window: final(self).obj_window,
                ..*old(self)
            }),
            ({
                let index = sprite_texel_index(
                    old(self).vram@,
                    texture_x,
                    texture_y,
                    width,
                    one_dimensional,
                    color256,
                    tile_number,
                    palette_bank,
                );
                let after = sprite_over(
                    old(self).palette@,
                    (old(self).obj_line@[screen_x as int], old(self).obj_window@[screen_x as int]),
                    if index == 0 {
                        None
                    } else {
                        Some((index, mode, priority))
                    },
                );
                &&& final(self).obj_line@ == old(self).obj_line@.update(screen_x as int, after.0)
                &&& final(self).obj_window@ == old(self).obj_window@.update(
                    screen_x as int,
                    after.1,
                )
            }),
    {
        let blocks: usize = if color256 {
            2
        } else {
            1
        };
        let tile_row = texture_y / 8;
        let tile_column = texture_x / 8;
        proof {
            assert(tile_row * (width / 8) * blocks <= 128) by (nonlinear_arith)
                requires
                    tile_row < 8,
                    width / 8 <= 8,
                    blocks <= 2,
            ;
            assert(tile_column * blocks <= 16) by (nonlinear_arith)
                requires
                    tile_column < 8,
                    blocks <= 2,
            ;
            lemma_and_le_usize(tile_number, !((blocks - 1) as usize));
        }
        let block = if one_dimensional {
            tile_number + tile_row * (width / 8) * blocks + tile_column * blocks
        } else {
            (tile_number & !(blocks - 1)) + tile_row * 32 + tile_column * blocks
        };
        let inner_y = texture_y & 7;
        let inner_x = texture_x & 7;
        proof {
            lemma_and_le_usize(texture_y, 7);
            lemma_and_le_usize(texture_x, 7);
            lemma_and_le_usize(block, 0x3ff);
        }
        let index: usize = if color256 {
            let address = 0x10000 + (block & 0x3ff) * 32 + inner_y * 8 + inner_x;
            if address >= self.vram.len() {
                0
            } else {
                self.vram[address] as usize
            }
        } else {
            let address = 0x10000 + (block & 0x3ff) * 32 + inner_y * 4 + inner_x / 2;
            if address >= self.vram.len() {
                0
            } else {
                let packed = self.vram[address];
                let nibble = if inner_x & 1 == 0 {
                    packed & 0xf
                } else {
                    packed >> 4u8
                } as usize;
                proof {
                    lemma_and_le_u8(packed, 0xf);
                    crate::bits::lemma_high_nibble_u8(packed);
                }
                if nibble == 0 {
                    0
                } else {
                    palette_bank * 16 + nibble
                }
            }
        };
        if index == 0 {
            return;
        }
        if mode == 2 {
            self.obj_window[screen_x] = true;
            return;
        }
        let existing = self.obj_line[screen_x];
        if existing.color != TRANSPARENT && existing.priority <= priority {
            return;
        }
        let color = self.palette16(256 + index);
        self.obj_line[screen_x] = ObjPixel { color, priority, semi_transparent: mode == 1 };
    }

    /// The enable bits that apply to pixel `x` of `line`.
    fn window_mask(&self, x: usize, line: usize) -> (mask: u16)
        requires
            self.wf(),
            x < WIDTH,
        ensures
            mask == window_mask_spec(
                self.dispcnt,
                self.winh@,
                self.winv@,
                self.winin,
                self.winout,
                self.obj_window@[x as int],
                x as int,
                line as int,
            ),
    {
        if self.dispcnt & 0xe000 == 0 {
            return 0x3f;
        }
        if self.inside(0, x, line) {
            return self.winin & 0x3f;
        }
        if self.inside(1, x, line) {
            return (self.winin >> 8u16) & 0x3f;
        }
        if self.dispcnt & 0x8000 != 0 && self.obj_window[x] {
            return (self.winout >> 8u16) & 0x3f;
        }
        self.winout & 0x3f
    }

    fn inside(&self, window: usize, x: usize, line: usize) -> (r: bool)
        requires
            window < 2,
        ensures
            r == inside_window(self.dispcnt, self.winh@, self.winv@, window as int, x as int, line as int),
    {
        let left = (self.winh[window] >> 8u16) as usize;
        let mut right = (self.winh[window] & 0xff) as usize;
        let top = (self.winv[window] >> 8u16) as usize;
        let mut bottom = (self.winv[window] & 0xff) as usize;
        if right > WIDTH || left > right {
            right = WIDTH;
        }
        if bottom > HEIGHT || top > bottom {
            bottom = HEIGHT;
        }
        self.dispcnt & (0x2000u16 << window as u16) != 0 && x >= left && x < right && line >= top
            && line < bottom
    }

    fn compose(&mut self, line: usize)
        requires
            old(self).wf(),
            line < HEIGHT,
        ensures
            final(self).wf(),
            final(self).same_state(&*old(self)),
            final(self).vcount == old(self).vcount,
            final(self).cycles == old(self).cycles,
            final(self).dispstat == old(self).dispstat,
            final(self).hblank_line == old(self).hblank_line,
            final(self).bgx_internal == old(self).bgx_internal,
            final(self).bgy_internal == old(self).bgy_internal,
            forall|i: int|
                0 <= i < WIDTH * HEIGHT && !(line * WIDTH <= i < (line + 1) * WIDTH)
                    ==> #[trigger] final(self).framebuffer@[i] == old(self).framebuffer@[i],
            *final(self) == (Ppu { framebuffer: final(self).framebuffer, ..*old(self) }),
            forall|x: int|
                0 <= x < WIDTH ==> #[trigger] final(self).framebuffer@[line * WIDTH + x] == rgb_spec(
                    composed(&*old(self), x, line as int),
                ),
    {
        let backdrop = self.palette16(0);
        let effect = (self.bldcnt >> 6u16) & 3;
        let first_target = self.bldcnt & 0x3f;
        let second_target = (self.bldcnt >> 8u16) & 0x3f;
        let raw_eva = (self.bldalpha & 0x1f) as u32;
        let raw_evb = ((self.bldalpha >> 8u16) & 0x1f) as u32;
        let raw_evy = (self.bldy & 0x1f) as u32;
        let eva = if raw_eva > 16 {
            16
        } else {
            raw_eva
        };
        let evb = if raw_evb > 16 {
            16
        } else {
            raw_evb
        };
        let evy = if raw_evy > 16 {
            16
        } else {
            raw_evy
        };
        let mut x: usize = 0;
        while x < WIDTH
            invariant
                self.wf(),
                self.same_state(&*old(self)),
                self.vcount == old(self).vcount,
                self.cycles == old(self).cycles,
                self.dispstat == old(self).dispstat,
                self.hblank_line == old(self).hblank_line,
                self.bgx_internal == old(self).bgx_internal,
                self.bgy_internal == old(self).bgy_internal,
                line < HEIGHT,
                x <= WIDTH,
                eva <= 16,
                evb <= 16,
                evy <= 16,
                forall|i: int|
                    0 <= i < WIDTH * HEIGHT && !(line * WIDTH <= i < (line + 1) * WIDTH)
                        ==> #[trigger] self.framebuffer@[i] == old(self).framebuffer@[i],
                *self == (Ppu { framebuffer: self.framebuffer, ..*old(self) }),
                backdrop == palette_color(self.palette@, 0),
                effect == (self.bldcnt >> 6u16) & 3,
                first_target == self.bldcnt & 0x3f,
                second_target == (self.bldcnt >> 8u16) & 0x3f,
                eva == min16(self.bldalpha & 0x1f),
                evb == min16((self.bldalpha >> 8u16) & 0x1f),
                evy == min16(self.bldy & 0x1f),
                forall|j: int|
                    0 <= j < x ==> #[trigger] self.framebuffer@[line * WIDTH + j] == rgb_spec(
                        composed(&*old(self), j, line as int),
                    ),
            decreases WIDTH - x,
        {
            let color = self.compose_pixel(
                x,
                line,
                backdrop,
                effect,
                first_target,
                second_target,
                eva,
                evb,
                evy,
            );
            let ghost before = self.framebuffer@;
            proof {
                let mask = window_mask_spec(
                    self.dispcnt,
                    self.winh@,
                    self.winv@,
                    self.winin,
                    self.winout,
                    self.obj_window@[x as int],
                    x as int,
                    line as int,
                );
                lemma_layers_ignore_picture(&*self, &*old(self), mask, x as int, 0);
            }
            self.framebuffer[line * WIDTH + x] = to_rgb(color);
            assert forall|j: int| 0 <= j < x + 1 implies #[trigger] self.framebuffer@[line * WIDTH
                + j] == rgb_spec(composed(&*old(self), j, line as int)) by {
                if j < x {
                    assert(before[line * WIDTH + j] == rgb_spec(composed(&*old(self), j, line as int)));
                }
            }
            x = x + 1;
        }
    }

    /// The colour of one pixel: the two front-most layers the window lets
    /// through, then the colour effect.
    fn compose_pixel(
        &self,
        x: usize,
        line: usize,
        backdrop: u16,
        effect: u16,
        first_target: u16,
        second_target: u16,
        eva: u32,
        evb: u32,
        evy: u32,
    ) -> (color: u16)
        requires
            self.wf(),
            x < WIDTH,
            backdrop == palette_color(self.palette@, 0),
            effect == (self.bldcnt >> 6u16) & 3,
            first_target == self.bldcnt & 0x3f,
            second_target == (self.bldcnt >> 8u16) & 0x3f,
            eva == min16(self.bldalpha & 0x1f),
            evb == min16((self.bldalpha >> 8u16) & 0x1f),
            evy == min16(self.bldy & 0x1f),
        ensures
            color == composed(self, x as int, line as int),
    {
        let mask = self.window_mask(x, line);
        let ghost full = layers_from(self, mask, x as int, 0);
        let ghost mut seen: Seq<LayerPixel> = Seq::empty();
        // Find the two front-most layers. Layer 5 is the backdrop.
        let mut top_color = backdrop;
        let mut top_layer: u16 = 5;
        let mut second_color = backdrop;
        let mut second_layer: u16 = 5;
        let mut found = false;
        let object = self.obj_line[x];
        let mut priority: u8 = 0;
        let mut done = false;
        while priority < 4 && !done
            invariant
                self.wf(),
                x < WIDTH,
                priority <= 4,
                object == self.obj_line@[x as int],
                full == layers_from(self, mask, x as int, 0),
                seen.len() <= 2,
                found == (seen.len() >= 1),
                done == (seen.len() == 2),
                seen.len() <= full.len(),
                full.subrange(0, seen.len() as int) == seen,
                !done ==> full == seen + layers_from(self, mask, x as int, priority as int),
                found ==> top_color == seen[0].color && top_layer == seen[0].layer,
                !found ==> top_color == backdrop && top_layer == 5,
                done ==> second_color == seen[1].color && second_layer == seen[1].layer,
                !done ==> second_color == backdrop && second_layer == 5,
                top_layer <= 5,
                second_layer <= 5,
            decreases 4 - priority,
        {
            let ghost p = priority as int;
            assert(full == seen + (layers_at(self, mask, x as int, p) + layers_from(
                self,
                mask,
                x as int,
                p + 1,
            )));
            if mask & 0x10 != 0 && object.color != TRANSPARENT && object.priority == priority {
                let ghost entry = LayerPixel { color: object.color, layer: 4 };
                assert(full =~= (seen + seq![entry]) + backgrounds_at(self, mask, x as int, p, 0)
                    + layers_from(self, mask, x as int, p + 1));
                proof {
                    seen = seen.push(entry);
                }
                assert(full.subrange(0, seen.len() as int) =~= seen);
                if !found {
                    top_color = object.color;
                    top_layer = 4;
                    found = true;
                } else {
                    second_color = object.color;
                    second_layer = 4;
                    done = true;
                }
            } else {
                assert(full =~= seen + backgrounds_at(self, mask, x as int, p, 0) + layers_from(
                    self,
                    mask,
                    x as int,
                    p + 1,
                ));
            }
            let mut background: usize = 0;
            while background < 4 && !done
                invariant
                    self.wf(),
                    x < WIDTH,
                    priority < 4,
                    background <= 4,
                    full == layers_from(self, mask, x as int, 0),
                    seen.len() <= 2,
                    found == (seen.len() >= 1),
                    done == (seen.len() == 2),
                    seen.len() <= full.len(),
                    full.subrange(0, seen.len() as int) == seen,
                    !done ==> full == seen + backgrounds_at(
                        self,
                        mask,
                        x as int,
                        priority as int,
                        background as int,
                    ) + layers_from(self, mask, x as int, priority + 1),
                    found ==> top_color == seen[0].color && top_layer == seen[0].layer,
                    !found ==> top_color == backdrop && top_layer == 5,
                    done ==> second_color == seen[1].color && second_layer == seen[1].layer,
                    !done ==> second_color == backdrop && second_layer == 5,
                    top_layer <= 5,
                    second_layer <= 5,
                decreases 4 - background,
            {
                let ghost b = background as int;
                let ghost rest = backgrounds_at(self, mask, x as int, priority as int, b + 1)
                    + layers_from(self, mask, x as int, priority + 1);
                let pixel = self.bg_line[background * WIDTH + x];
                proof {
                    lemma_and_le_u16(self.bgcnt[background as int], 3);
                }
                let shown = mask & (1u16 << background as u16) != 0 && self.dispcnt & (0x0100u16
                    << background as u16) != 0 && (self.bgcnt[background] & 3) as u8 == priority
                    && pixel != TRANSPARENT;
                assert(shown == background_shown(self, mask, x as int, priority as int, b));
                if shown {
                    let ghost entry = LayerPixel { color: pixel, layer: background as u16 };
                    assert(full =~= (seen + seq![entry]) + rest);
                    proof {
                        seen = seen.push(entry);
                    }
                    assert(full.subrange(0, seen.len() as int) =~= seen);
                    if !found {
                        top_color = pixel;
                        top_layer = background as u16;
                        found = true;
                    } else {
                        second_color = pixel;
                        second_layer = background as u16;
                        done = true;
                    }
                } else {
                    assert(full =~= seen + rest);
                }
                background = background + 1;
            }
            if !done {
                assert(full =~= seen + layers_from(self, mask, x as int, priority + 1));
            }
            priority = priority + 1;
        }
        proof {
            if !done {
                assert(full =~= seen);
            }
            if seen.len() >= 1 {
                assert(full[0] == seen[0]);
            }
            if seen.len() == 2 {
                assert(full[1] == seen[1]);
            }
        }
        let top_bit = 1u16 << top_layer;
        let second_bit = 1u16 << second_layer;
        let semi = top_layer == 4 && object.semi_transparent;
        let effects_allowed = mask & 0x20 != 0;
        if semi && second_target & second_bit != 0 && effects_allowed {
            blend(top_color, second_color, eva, evb)
        } else if !effects_allowed || effect == 0 || first_target & top_bit == 0 {
            top_color
        } else if effect == 1 {
            if second_target & second_bit != 0 && second_layer != top_layer {
                blend(top_color, second_color, eva, evb)
            } else {
                top_color
            }
        } else if effect == 2 {
            brighten(top_color, evy)
        } else {
            darken(top_color, evy)
        }
    }

}

/// Width and height in pixels of a sprite's shape and size.
pub open spec fn sprite_size_spec(shape: u16, size: u16) -> (usize, usize) {
    if shape == 0 {
        if size == 0 {
            (8, 8)
        } else if size == 1 {
            (16, 16)
        } else if size == 2 {
            (32, 32)
        } else {
            (64, 64)
        }
    } else if shape == 1 {
        if size == 0 {
            (16, 8)
        } else if size == 1 {
            (32, 8)
        } else if size == 2 {
            (32, 16)
        } else {
            (64, 32)
        }
    } else if size == 0 {
        (8, 16)
    } else if size == 1 {
        (8, 32)
    } else if size == 2 {
        (16, 32)
    } else {
        (32, 64)
    }
}

/// The pixel a sprite line starts from: transparent, behind everything.
pub open spec fn cleared_object() -> ObjPixel {
    ObjPixel { color: TRANSPARENT, priority: 4, semi_transparent: false }
}

/// A little-endian halfword of object attribute memory.
pub open spec fn oam_half(oam: Seq<u8>, offset: int) -> u16 {
    (oam[offset] as u16) | ((oam[offset + 1] as u16) << 8u16)
}

/// The palette index of texel (`tx`, `ty`) of a sprite `width` pixels wide
/// whose first tile is `tile_number`, zero where it is transparent. Tiles of
/// a row follow each other in one-dimensional mapping, and sit 32 tiles
/// apart per row in the two-dimensional one; 256-colour tiles take two
/// blocks each.
pub open spec fn sprite_texel_index(
    vram: Seq<u8>,
    tx: usize,
    ty: usize,
    width: usize,
    one_dimensional: bool,
    color256: bool,
    tile_number: usize,
    palette_bank: usize,
) -> usize {
    let blocks: usize = if color256 {
        2
    } else {
        1
    };
    let tile_row = ty / 8;
    let tile_column = tx / 8;
    let block = if one_dimensional {
        tile_number + tile_row * (width / 8) * blocks + tile_column * blocks
    } else {
        (tile_number & !((blocks - 1) as usize)) + tile_row * 32 + tile_column * blocks
    };
    let tile_base = 0x10000 + ((block as usize) & 0x3ff) * 32;
    let inner_y = ty & 7;
    let inner_x = tx & 7;
    if color256 {
        let address = tile_base + inner_y * 8 + inner_x;
        if address >= vram.len() {
            0
        } else {
            vram[address] as usize
        }
    } else {
        let address = tile_base + inner_y * 4 + inner_x / 2;
        if address >= vram.len() {
            0
        } else {
            let packed = vram[address];
            let nibble = (if inner_x & 1 == 0 {
                packed & 0xf
            } else {
                packed >> 4u8
            }) as usize;
            if nibble == 0 {
                0
            } else {
                (palette_bank * 16 + nibble) as usize
            }
        }
    }
}

/// The texture coordinates a sprite samples at `column` of its box on box
/// row `row`: mosaic snaps both to the grid, an affine sprite maps them
/// through its matrix about the centre, a plain one reads them directly.
pub open spec fn sprite_texture(
    oam: Seq<u8>,
    attr0: u16,
    attr1: u16,
    mosaic: u16,
    width: int,
    height: int,
    box_width: int,
    box_height: int,
    row: int,
    column: int,
) -> (int, int) {
    let snapped = attr0 & 0x1000 != 0;
    let mosaic_x = ((mosaic >> 8u16) & 0xf) + 1;
    let mosaic_y = ((mosaic >> 12u16) & 0xf) + 1;
    let row = if snapped {
        row - row % mosaic_y
    } else {
        row
    };
    let sampled = if snapped {
        column - column % mosaic_x
    } else {
        column
    };
    let offset_x = sampled - box_width / 2;
    let offset_y = row - box_height / 2;
    if attr0 & 0x100 != 0 {
        let group = (((attr1 >> 9u16) & 0x1f) as int) * 32;
        let pa = oam_half(oam, group + 6) as i16 as i32;
        let pb = oam_half(oam, group + 14) as i16 as i32;
        let pc = oam_half(oam, group + 22) as i16 as i32;
        let pd = oam_half(oam, group + 30) as i16 as i32;
        (
            (((pa * offset_x + pb * offset_y) as i32) >> 8u32) + width / 2,
            (((pc * offset_x + pd * offset_y) as i32) >> 8u32) + height / 2,
        )
    } else {
        (offset_x + box_width / 2, offset_y + box_height / 2)
    }
}

/// What sprite `sprite` puts at column `x` of `line`: its palette index,
/// its mode and its priority where one of its opaque texels lands there,
/// nothing where it is disabled, misses the pixel, samples outside its
/// texture or is transparent. In the bitmap modes the tiles below 512 are
/// frame buffer and show nothing.
pub open spec fn sprite_texel(
    vram: Seq<u8>,
    oam: Seq<u8>,
    dispcnt: u16,
    mosaic: u16,
    sprite: int,
    line: int,
    x: int,
) -> Option<(usize, u16, u8)> {
    let attr0 = oam_half(oam, sprite * 8);
    let attr1 = oam_half(oam, sprite * 8 + 2);
    let attr2 = oam_half(oam, sprite * 8 + 4);
    let affine = attr0 & 0x100 != 0;
    let double = affine && attr0 & 0x200 != 0;
    let shape = (attr0 >> 14u16) & 3;
    let (width, height) = sprite_size_spec(shape, (attr1 >> 14u16) & 3);
    let box_width: int = if double {
        width * 2
    } else {
        width as int
    };
    let box_height: int = if double {
        height * 2
    } else {
        height as int
    };
    let row = (((line + 256 - (attr0 & 0xff)) as usize) & 0xff) as int;
    let sprite_x = ((((attr1 & 0x1ff) as u32) << 23u32) as i32) >> 23u32;
    let column = x - sprite_x;
    let tile_number = (attr2 & 0x3ff) as usize;
    if (!affine && attr0 & 0x200 != 0) || shape == 3 || row >= box_height || column < 0
        || column >= box_width || ((dispcnt & 7) >= 3 && tile_number < 512) {
        None
    } else {
        let (tx, ty) = sprite_texture(
            oam,
            attr0,
            attr1,
            mosaic,
            width as int,
            height as int,
            box_width,
            box_height,
            row,
            column,
        );
        if 0 <= tx < width && 0 <= ty < height {
            let fx = if !affine && attr1 & 0x1000 != 0 {
                width - 1 - tx
            } else {
                tx
            };
            let fy = if !affine && attr1 & 0x2000 != 0 {
                height - 1 - ty
            } else {
                ty
            };
            let index = sprite_texel_index(
                vram,
                fx as usize,
                fy as usize,
                width,
                dispcnt & 0x40 != 0,
                attr0 & 0x2000 != 0,
                tile_number,
                ((attr2 >> 12u16) & 0xf) as usize,
            );
            if index == 0 {
                None
            } else {
                Some((index, (attr0 >> 10u16) & 3, ((attr2 >> 10u16) & 3) as u8))
            }
        } else {
            None
        }
    }
}

/// One sprite's texel laid over a sprite pixel and window bit: a window
/// sprite sets the bit, another replaces the pixel unless an opaque pixel
/// of no greater priority value is already there.
pub open spec fn sprite_over(
    palette: Seq<u8>,
    below: (ObjPixel, bool),
    texel: Option<(usize, u16, u8)>,
) -> (ObjPixel, bool) {
    match texel {
        None => below,
        Some((index, mode, priority)) => {
            if mode == 2 {
                (below.0, true)
            } else if below.0.color != TRANSPARENT && below.0.priority <= priority {
                below
            } else {
                (
                    ObjPixel {
                        color: palette_color(palette, 256 + index),
                        priority,
                        semi_transparent: mode == 1,
                    },
                    below.1,
                )
            }
        },
    }
}

/// The sprite pixel and window bit at column `x` of `line` once sprites
/// `0..count` are laid, in order, over `start`.
pub open spec fn sprites_over(p: &Ppu, line: int, x: int, count: int, start: (ObjPixel, bool)) -> (
    ObjPixel,
    bool,
)
    decreases count,
{
    if count <= 0 {
        start
    } else {
        sprite_over(
            p.palette@,
            sprites_over(p, line, x, count - 1, start),
            sprite_texel(p.vram@, p.oam@, p.dispcnt, p.mosaic, count - 1, line, x),
        )
    }
}

/// The sprite pass reads only the three memories, the display control and
/// the mosaic register.
proof fn lemma_sprites_read_memory(
    a: &Ppu,
    b: &Ppu,
    line: int,
    x: int,
    count: int,
    start: (ObjPixel, bool),
)
    requires
        a.palette@ == b.palette@,
        a.vram@ == b.vram@,
        a.oam@ == b.oam@,
        a.dispcnt == b.dispcnt,
        a.mosaic == b.mosaic,
    ensures
        sprites_over(a, line, x, count, start) == sprites_over(b, line, x, count, start),
    decreases count,
{
    if count > 0 {
        lemma_sprites_read_memory(a, b, line, x, count - 1, start);
    }
}

fn sprite_size(shape: u16, size: u16) -> (dimensions: (usize, usize))
    ensures
        dimensions == sprite_size_spec(shape, size),
        8 <= dimensions.0 <= 64,
        8 <= dimensions.1 <= 64,
{
    if shape == 0 {
        if size == 0 {
            (8, 8)
        } else if size == 1 {
            (16, 16)
        } else if size == 2 {
            (32, 32)
        } else {
            (64, 64)
        }
    } else if shape == 1 {
        if size == 0 {
            (16, 8)
        } else if size == 1 {
            (32, 8)
        } else if size == 2 {
            (32, 16)
        } else {
            (64, 32)
        }
    } else if size == 0 {
        (8, 16)
    } else if size == 1 {
        (8, 32)
    } else if size == 2 {
        (16, 32)
    } else {
        (32, 64)
    }
}

/// The bytes a picture unit is saved as, followed by `rest`: the three
/// memories, the registers, the dot clock and the last picture.
pub open spec fn ppu_then(x: &Ppu, rest: Seq<u8>) -> Seq<u8> {
    block_bytes(x.vram@) + (block_bytes(x.palette@) + (block_bytes(x.oam@) + (le16(x.dispcnt) + (
    le16(x.green_swap) + (le16(x.dispstat) + (le16(x.vcount) + backgrounds_then(
        x,
        0,
        affine_then(x, 0, registers_then(x, rest)),
    )))))))
}

/// The scroll registers of backgrounds `i` to 3.
pub open spec fn backgrounds_then(x: &Ppu, i: int, rest: Seq<u8>) -> Seq<u8>
    decreases 4 - i,
{
    if i >= 4 || i < 0 {
        rest
    } else {
        le16(x.bgcnt[i]) + (le16(x.bghofs[i]) + (le16(x.bgvofs[i]) + backgrounds_then(
            x,
            i + 1,
            rest,
        )))
    }
}

/// The affine parameters and windows of sets `i` to 1.
pub open spec fn affine_then(x: &Ppu, i: int, rest: Seq<u8>) -> Seq<u8>
    decreases 2 - i,
{
    if i >= 2 || i < 0 {
        rest
    } else {
        le16(x.bgpa[i] as u16) + (le16(x.bgpb[i] as u16) + (le16(x.bgpc[i] as u16) + (le16(
            x.bgpd[i] as u16,
        ) + (le32(x.bgx[i] as u32) + (le32(x.bgy[i] as u32) + (le32(x.bgx_internal[i] as u32) + (
        le32(x.bgy_internal[i] as u32) + (le16(x.winh[i]) + (le16(x.winv[i]) + affine_then(
            x,
            i + 1,
            rest,
        ))))))))))
    }
}

/// Windows, effects, the dot clock and the picture.
pub open spec fn registers_then(x: &Ppu, rest: Seq<u8>) -> Seq<u8> {
    le16(x.winin) + (le16(x.winout) + (le16(x.mosaic) + (le16(x.bldcnt) + (le16(x.bldalpha) + (
    le16(x.bldy) + (le32(x.cycles) + (le16(x.hblank_line) + pixels_then(x.framebuffer@, rest))))))))
}

/// A picture: the pixel count, then the pixels.
pub open spec fn pixels_then(words: Seq<u32>, rest: Seq<u8>) -> Seq<u8> {
    le32(words.len() as u32) + words_then(words, 0, rest)
}

/// Words `i` onwards, little-endian.
pub open spec fn words_then(words: Seq<u32>, i: int, rest: Seq<u8>) -> Seq<u8>
    decreases words.len() - i,
{
    if i >= words.len() || i < 0 {
        rest
    } else {
        le32(words[i]) + words_then(words, i + 1, rest)
    }
}

impl Ppu {
    /// Every field a state holds is the one `saved` has; only the layer
    /// buffers of the line being drawn are not part of a state.
    pub open spec fn restored(&self, saved: &Ppu) -> bool {
        &&& self.vram@ == saved.vram@
        &&& self.palette@ == saved.palette@
        &&& self.oam@ == saved.oam@
        &&& self.dispcnt == saved.dispcnt
        &&& self.green_swap == saved.green_swap
        &&& self.dispstat == saved.dispstat
        &&& self.vcount == saved.vcount
        &&& self.bgcnt == saved.bgcnt
        &&& self.bghofs == saved.bghofs
        &&& self.bgvofs == saved.bgvofs
        &&& self.bgpa == saved.bgpa
        &&& self.bgpb == saved.bgpb
        &&& self.bgpc == saved.bgpc
        &&& self.bgpd == saved.bgpd
        &&& self.bgx == saved.bgx
        &&& self.bgy == saved.bgy
        &&& self.bgx_internal == saved.bgx_internal
        &&& self.bgy_internal == saved.bgy_internal
        &&& self.winh == saved.winh
        &&& self.winv == saved.winv
        &&& self.winin == saved.winin
        &&& self.winout == saved.winout
        &&& self.mosaic == saved.mosaic
        &&& self.bldcnt == saved.bldcnt
        &&& self.bldalpha == saved.bldalpha
        &&& self.bldy == saved.bldy
        &&& self.cycles == saved.cycles
        &&& self.hblank_line == saved.hblank_line
        &&& self.framebuffer@ == saved.framebuffer@
    }
}

impl Snapshot for Ppu {
    fn save(&self, writer: &mut Writer)
        ensures
            forall|rest: Seq<u8>|
                old(writer).data@ + #[trigger] ppu_then(self, rest) == final(writer).data@ + rest,
    {
        let ghost d = writer.data@;
        writer.bytes(self.vram.as_slice());
        writer.bytes(self.palette.as_slice());
        writer.bytes(self.oam.as_slice());
        writer.u16(self.dispcnt);
        writer.u16(self.green_swap);
        writer.u16(self.dispstat);
        writer.u16(self.vcount);
        assert forall|rest: Seq<u8>|
            d + #[trigger] ppu_then(self, rest) == writer.data@ + backgrounds_then(
                self,
                0,
                affine_then(self, 0, registers_then(self, rest)),
            ) by {}
        let mut index: usize = 0;
        while index < 4
            invariant
                index <= 4,
                forall|rest: Seq<u8>|
                    d + #[trigger] ppu_then(self, rest) == writer.data@ + backgrounds_then(
                        self,
                        index as int,
                        affine_then(self, 0, registers_then(self, rest)),
                    ),
            decreases 4 - index,
        {
            let ghost before = writer.data@;
            writer.u16(self.bgcnt[index]);
            writer.u16(self.bghofs[index]);
            writer.u16(self.bgvofs[index]);
            assert forall|rest: Seq<u8>|
                d + #[trigger] ppu_then(self, rest) == writer.data@ + backgrounds_then(
                    self,
                    index + 1,
                    affine_then(self, 0, registers_then(self, rest)),
                ) by {
                let tail = affine_then(self, 0, registers_then(self, rest));
                assert(d + ppu_then(self, rest) == before + backgrounds_then(self, index as int, tail));
            }
            index = index + 1;
        }
        let mut index: usize = 0;
        while index < 2
            invariant
                index <= 2,
                forall|rest: Seq<u8>|
                    d + #[trigger] ppu_then(self, rest) == writer.data@ + affine_then(
                        self,
                        index as int,
                        registers_then(self, rest),
                    ),
            decreases 2 - index,
        {
            let ghost before = writer.data@;
            writer.i16(self.bgpa[index]);
            writer.i16(self.bgpb[index]);
            writer.i16(self.bgpc[index]);
            writer.i16(self.bgpd[index]);
            writer.i32(self.bgx[index]);
            writer.i32(self.bgy[index]);
            writer.i32(self.bgx_internal[index]);
            writer.i32(self.bgy_internal[index]);
            writer.u16(self.winh[index]);
            writer.u16(self.winv[index]);
            assert forall|rest: Seq<u8>|
                d + #[trigger] ppu_then(self, rest) == writer.data@ + affine_then(
                    self,
                    index + 1,
                    registers_then(self, rest),
                ) by {
                assert(d + ppu_then(self, rest) == before + affine_then(
                    self,
                    index as int,
                    registers_then(self, rest),
                ));
            }
            index = index + 1;
        }
        let ghost before = writer.data@;
        writer.u16(self.winin);
        writer.u16(self.winout);
        writer.u16(self.mosaic);
        writer.u16(self.bldcnt);
        writer.u16(self.bldalpha);
        writer.u16(self.bldy);
        writer.u32(self.cycles);
        writer.u16(self.hblank_line);
        writer.usize(self.framebuffer.len());
        assert forall|rest: Seq<u8>|
            d + #[trigger] ppu_then(self, rest) == writer.data@ + words_then(
                self.framebuffer@,
                0,
                rest,
            ) by {
            assert(d + ppu_then(self, rest) == before + affine_then(
                self,
                2,
                registers_then(self, rest),
            ));
        }
        let mut index: usize = 0;
        while index < self.framebuffer.len()
            invariant
                index <= self.framebuffer@.len(),
                forall|rest: Seq<u8>|
                    d + #[trigger] ppu_then(self, rest) == writer.data@ + words_then(
                        self.framebuffer@,
                        index as int,
                        rest,
                    ),
            decreases self.framebuffer@.len() - index,
        {
            let ghost before = writer.data@;
            writer.u32(self.framebuffer[index]);
            assert forall|rest: Seq<u8>|
                d + #[trigger] ppu_then(self, rest) == writer.data@ + words_then(
                    self.framebuffer@,
                    index + 1,
                    rest,
                ) by {
                assert(d + ppu_then(self, rest) == before + words_then(
                    self.framebuffer@,
                    index as int,
                    rest,
                ));
            }
            index = index + 1;
        }
    }

    /// Loads the picture unit; a state whose dot clock is off the end of a
    /// line or frame is refused.
    #[verifier::spinoff_prover]
    #[verifier::rlimit(100)]
    fn load(&mut self, reader: &mut Reader) -> (result: Result<(), StateError>)
        ensures
            old(self).wf() ==> final(self).wf(),
            forall|saved: Ppu, rest: Seq<u8>| #[trigger]
                old(reader).expects(ppu_then(&saved, rest)) && saved.wf() && old(self).wf()
                    ==> result is Ok && final(self).restored(&saved) && final(reader).expects(rest),
    {
        let ghost r0 = *reader;
        let ghost start = *self;
        let vram = reader.into_bytes(self.vram.as_mut_slice());
        let ghost r1 = *reader;
        proof {
            assert forall|saved: Ppu, rest: Seq<u8>| #[trigger]
                r0.expects(ppu_then(&saved, rest)) && saved.wf() && start.wf() implies vram is Ok
                && self.vram@ == saved.vram@ && r1.expects(
                block_bytes(saved.palette@) + (block_bytes(saved.oam@) + display_then(&saved, rest)),
            ) by {
                assert(r0.expects(block_bytes(saved.vram@) + (block_bytes(saved.palette@) + (
                block_bytes(saved.oam@) + display_then(&saved, rest)))));
            }
        }
        vram?;
        let palette = reader.into_bytes(self.palette.as_mut_slice());
        let ghost r2 = *reader;
        proof {
            assert forall|saved: Ppu, rest: Seq<u8>| #[trigger]
                r0.expects(ppu_then(&saved, rest)) && saved.wf() && start.wf() implies palette is Ok
                && self.palette@ == saved.palette@ && r2.expects(
                block_bytes(saved.oam@) + display_then(&saved, rest),
            ) by {
                assert(r1.expects(
                    block_bytes(saved.palette@) + (block_bytes(saved.oam@) + display_then(&saved, rest)),
                ));
            }
        }
        palette?;
        let oam = reader.into_bytes(self.oam.as_mut_slice());
        let ghost r3 = *reader;
        proof {
            assert forall|saved: Ppu, rest: Seq<u8>| #[trigger]
                r0.expects(ppu_then(&saved, rest)) && saved.wf() && start.wf() implies oam is Ok
                && self.oam@ == saved.oam@ && r3.expects(display_then(&saved, rest)) by {
                assert(r2.expects(block_bytes(saved.oam@) + display_then(&saved, rest)));
            }
        }
        oam?;
        let display = read_display(reader);
        let ghost r4 = *reader;
        proof {
            assert forall|saved: Ppu, rest: Seq<u8>| #[trigger]
                r0.expects(ppu_then(&saved, rest)) && saved.wf() && start.wf() implies display
                == Ok::<(u16, u16, u16, u16), StateError>(
                (saved.dispcnt, saved.green_swap, saved.dispstat, saved.vcount),
            ) && r4.expects(backgrounds_then(&saved, 0, affine_then(&saved, 0, registers_then(&saved, rest)))) by {
                assert(r3.expects(display_then(&saved, rest)));
            }
        }
        let (dispcnt, green_swap, dispstat, vcount) = display?;
        let ghost r4b = *reader;
        let ghost loaded = *self;
        let backgrounds = self.load_backgrounds(reader);
        proof {
            assert forall|saved: Ppu, rest: Seq<u8>| #[trigger]
                r0.expects(ppu_then(&saved, rest)) && saved.wf() && start.wf() implies backgrounds
                is Ok && self.bgcnt == saved.bgcnt && self.bghofs == saved.bghofs && self.bgvofs
                == saved.bgvofs && reader.expects(
                backgrounds_then(&saved, 4, affine_then(&saved, 0, registers_then(&saved, rest))),
            ) && self.vram@ == saved.vram@ && self.palette@ == saved.palette@ && self.oam@
                == saved.oam@ by {
                assert(r4b.expects(
                    backgrounds_then(&saved, 0, affine_then(&saved, 0, registers_then(&saved, rest))),
                ));
                assert(loaded.vram@ == saved.vram@);
            }
        }
        backgrounds?;
        let ghost r5 = *reader;
        let first = read_affine_set(reader);
        let ghost r6 = *reader;
        proof {
            assert forall|saved: Ppu, rest: Seq<u8>| #[trigger]
                r0.expects(ppu_then(&saved, rest)) && saved.wf() && start.wf() implies first
                == Ok::<AffineSet, StateError>(affine_set(&saved, 0)) && r6.expects(
                affine_then(&saved, 1, registers_then(&saved, rest)),
            ) by {
                assert(r5.expects(backgrounds_then(&saved, 4, affine_then(&saved, 0, registers_then(&saved, rest)))));
                assert(r5.expects(affine_then(&saved, 0, registers_then(&saved, rest))));
            }
        }
        let first = first?;
        let second = read_affine_set(reader);
        let ghost r7 = *reader;
        proof {
            assert forall|saved: Ppu, rest: Seq<u8>| #[trigger]
                r0.expects(ppu_then(&saved, rest)) && saved.wf() && start.wf() implies second
                == Ok::<AffineSet, StateError>(affine_set(&saved, 1)) && r7.expects(
                registers_then(&saved, rest),
            ) by {
                assert(r6.expects(affine_then(&saved, 1, registers_then(&saved, rest))));
                assert(affine_then(&saved, 2, registers_then(&saved, rest)) == registers_then(&saved, rest));
            }
        }
        let second = second?;
        let registers = read_registers(reader);
        let ghost r8 = *reader;
        proof {
            assert forall|saved: Ppu, rest: Seq<u8>| #[trigger]
                r0.expects(ppu_then(&saved, rest)) && saved.wf() && start.wf() implies registers
                == Ok::<[u16; 6], StateError>(registers_of(&saved)) && r8.expects(
                le32(saved.cycles) + (le16(saved.hblank_line) + pixels_then(saved.framebuffer@, rest)),
            ) by {
                assert(r7.expects(registers_then(&saved, rest)));
            }
        }
        let cycles = read_cycles(reader);
        proof {
            assert forall|saved: Ppu, rest: Seq<u8>| #[trigger]
                r0.expects(ppu_then(&saved, rest)) && saved.wf() && start.wf() implies registers is Ok
                && cycles == Ok::<(u32, u16), StateError>((saved.cycles, saved.hblank_line))
                && reader.expects(pixels_then(saved.framebuffer@, rest)) by {
                assert(r8.expects(
                    le32(saved.cycles) + (le16(saved.hblank_line) + pixels_then(saved.framebuffer@, rest)),
                ));
            }
        }
        let registers = registers?;
        let (cycles, hblank_line) = cycles?;
        if vcount >= TOTAL_LINES || cycles >= CYCLES_PER_LINE {
            return Err(StateError::NotAState);
        }
        self.dispcnt = dispcnt;
        self.green_swap = green_swap;
        self.dispstat = dispstat;
        self.vcount = vcount;
        self.bgpa = [first.pa, second.pa];
        self.bgpb = [first.pb, second.pb];
        self.bgpc = [first.pc, second.pc];
        self.bgpd = [first.pd, second.pd];
        self.bgx = [first.x, second.x];
        self.bgy = [first.y, second.y];
        self.bgx_internal = [first.x_internal, second.x_internal];
        self.bgy_internal = [first.y_internal, second.y_internal];
        self.winh = [first.winh, second.winh];
        self.winv = [first.winv, second.winv];
        self.winin = registers[0];
        self.winout = registers[1];
        self.mosaic = registers[2];
        self.bldcnt = registers[3];
        self.bldalpha = registers[4];
        self.bldy = registers[5];
        self.cycles = cycles;
        self.hblank_line = hblank_line;
        let ghost r9 = *reader;
        let ghost fields = *self;
        let pixels = self.load_pixels(reader);
        proof {
            assert forall|saved: Ppu, rest: Seq<u8>| #[trigger]
                r0.expects(ppu_then(&saved, rest)) && saved.wf() && start.wf() implies pixels is Ok
                && self.restored(&saved) && reader.expects(rest) by {
                assert(r9.expects(pixels_then(saved.framebuffer@, rest)));
                assert(self.bgpa =~= saved.bgpa);
                assert(self.bgpb =~= saved.bgpb);
                assert(self.bgpc =~= saved.bgpc);
                assert(self.bgpd =~= saved.bgpd);
                assert(self.bgx =~= saved.bgx);
                assert(self.bgy =~= saved.bgy);
                assert(self.bgx_internal =~= saved.bgx_internal);
                assert(self.bgy_internal =~= saved.bgy_internal);
                assert(self.winh =~= saved.winh);
                assert(self.winv =~= saved.winv);
            }
        }
        pixels
    }
}

/// The display registers ahead of the backgrounds.
pub open spec fn display_then(x: &Ppu, rest: Seq<u8>) -> Seq<u8> {
    le16(x.dispcnt) + (le16(x.green_swap) + (le16(x.dispstat) + (le16(x.vcount) + backgrounds_then(
        x,
        0,
        affine_then(x, 0, registers_then(x, rest)),
    ))))
}

/// One set of affine parameters and its window.
pub struct AffineSet {
    pub pa: i16,
    pub pb: i16,
    pub pc: i16,
    pub pd: i16,
    pub x: i32,
    pub y: i32,
    pub x_internal: i32,
    pub y_internal: i32,
    pub winh: u16,
    pub winv: u16,
}

pub open spec fn affine_set(x: &Ppu, i: int) -> AffineSet {
    AffineSet {
        pa: x.bgpa[i],
        pb: x.bgpb[i],
        pc: x.bgpc[i],
        pd: x.bgpd[i],
        x: x.bgx[i],
        y: x.bgy[i],
        x_internal: x.bgx_internal[i],
        y_internal: x.bgy_internal[i],
        winh: x.winh[i],
        winv: x.winv[i],
    }
}

pub open spec fn registers_of(x: &Ppu) -> [u16; 6] {
    [x.winin, x.winout, x.mosaic, x.bldcnt, x.bldalpha, x.bldy]
}

#[verifier::spinoff_prover]
#[verifier::rlimit(50)]
fn read_display(reader: &mut Reader) -> (result: Result<(u16, u16, u16, u16), StateError>)
    requires
        old(reader).wf(),
    ensures
        final(reader).wf(),
        forall|saved: Ppu, rest: Seq<u8>| #[trigger]
            old(reader).expects(display_then(&saved, rest)) ==> result == Ok::<
                (u16, u16, u16, u16),
                StateError,
            >((saved.dispcnt, saved.green_swap, saved.dispstat, saved.vcount)) && final(reader).expects(
                backgrounds_then(&saved, 0, affine_then(&saved, 0, registers_then(&saved, rest))),
            ),
{
    let ghost r0 = *reader;
    let a = reader.u16()?;
    let ghost r1 = *reader;
    let b = reader.u16()?;
    let ghost r2 = *reader;
    let c = reader.u16()?;
    let ghost r3 = *reader;
    let d = reader.u16()?;
    proof {
        assert forall|saved: Ppu, rest: Seq<u8>| #[trigger]
            r0.expects(display_then(&saved, rest)) implies (a, b, c, d) == (
            saved.dispcnt,
            saved.green_swap,
            saved.dispstat,
            saved.vcount,
        ) && reader.expects(
            backgrounds_then(&saved, 0, affine_then(&saved, 0, registers_then(&saved, rest))),
        ) by {
            let tail = backgrounds_then(&saved, 0, affine_then(&saved, 0, registers_then(&saved, rest)));
            assert(r0.expects(le16(saved.dispcnt) + (le16(saved.green_swap) + (le16(saved.dispstat) + (le16(saved.vcount) + tail)))));
            assert(r1.expects(le16(saved.green_swap) + (le16(saved.dispstat) + (le16(saved.vcount) + tail))));
            assert(r2.expects(le16(saved.dispstat) + (le16(saved.vcount) + tail)));
            assert(r3.expects(le16(saved.vcount) + tail));
        }
    }
    Ok((a, b, c, d))
}

#[verifier::spinoff_prover]
#[verifier::rlimit(50)]
fn read_background(reader: &mut Reader) -> (result: Result<(u16, u16, u16), StateError>)
    requires
        old(reader).wf(),
    ensures
        final(reader).wf(),
        forall|saved: Ppu, i: int, rest: Seq<u8>| #[trigger]
            old(reader).expects(backgrounds_then(&saved, i, rest)) && 0 <= i < 4 ==> result == Ok::<
                (u16, u16, u16),
                StateError,
            >((saved.bgcnt[i], saved.bghofs[i], saved.bgvofs[i])) && final(reader).expects(
                backgrounds_then(&saved, i + 1, rest),
            ),
{
    let ghost r0 = *reader;
    let a = reader.u16()?;
    let ghost r1 = *reader;
    let b = reader.u16()?;
    let ghost r2 = *reader;
    let c = reader.u16()?;
    proof {
        assert forall|saved: Ppu, i: int, rest: Seq<u8>| #[trigger]
            r0.expects(backgrounds_then(&saved, i, rest)) && 0 <= i < 4 implies (a, b, c) == (
            saved.bgcnt[i],
            saved.bghofs[i],
            saved.bgvofs[i],
        ) && reader.expects(backgrounds_then(&saved, i + 1, rest)) by {
            let tail = backgrounds_then(&saved, i + 1, rest);
            assert(r0.expects(le16(saved.bgcnt[i]) + (le16(saved.bghofs[i]) + (le16(saved.bgvofs[i]) + tail))));
            assert(r1.expects(le16(saved.bghofs[i]) + (le16(saved.bgvofs[i]) + tail)));
            assert(r2.expects(le16(saved.bgvofs[i]) + tail));
        }
    }
    Ok((a, b, c))
}

#[verifier::spinoff_prover]
#[verifier::rlimit(50)]
fn read_affine_set(reader: &mut Reader) -> (result: Result<AffineSet, StateError>)
    requires
        old(reader).wf(),
    ensures
        final(reader).wf(),
        forall|saved: Ppu, i: int, rest: Seq<u8>| #[trigger]
            old(reader).expects(affine_then(&saved, i, rest)) && 0 <= i < 2 ==> result == Ok::<
                AffineSet,
                StateError,
            >(affine_set(&saved, i)) && final(reader).expects(affine_then(&saved, i + 1, rest)),
{
    let ghost r0 = *reader;
    let pa = reader.i16()?;
    let ghost r1 = *reader;
    let pb = reader.i16()?;
    let ghost r2 = *reader;
    let pc = reader.i16()?;
    let ghost r3 = *reader;
    let pd = reader.i16()?;
    let ghost r4 = *reader;
    let x = reader.i32()?;
    let ghost r5 = *reader;
    let y = reader.i32()?;
    let ghost r6 = *reader;
    let x_internal = reader.i32()?;
    let ghost r7 = *reader;
    let y_internal = reader.i32()?;
    let ghost r8 = *reader;
    let winh = reader.u16()?;
    let ghost r9 = *reader;
    let winv = reader.u16()?;
    let set = AffineSet { pa, pb, pc, pd, x, y, x_internal, y_internal, winh, winv };
    proof {
        assert forall|saved: Ppu, i: int, rest: Seq<u8>| #[trigger]
            r0.expects(affine_then(&saved, i, rest)) && 0 <= i < 2 implies set == affine_set(
            &saved,
            i,
        ) && reader.expects(affine_then(&saved, i + 1, rest)) by {
            let tail = affine_then(&saved, i + 1, rest);
            let s9 = le16(saved.winv[i]) + tail;
            let s8 = le16(saved.winh[i]) + s9;
            let s7 = le32(saved.bgy_internal[i] as u32) + s8;
            let s6 = le32(saved.bgx_internal[i] as u32) + s7;
            let s5 = le32(saved.bgy[i] as u32) + s6;
            let s4 = le32(saved.bgx[i] as u32) + s5;
            let s3 = le16(saved.bgpd[i] as u16) + s4;
            let s2 = le16(saved.bgpc[i] as u16) + s3;
            let s1 = le16(saved.bgpb[i] as u16) + s2;
            assert(r0.expects(le16(saved.bgpa[i] as u16) + s1));
            assert(r1.expects(s1));
            assert(r2.expects(s2));
            assert(r3.expects(s3));
            assert(r4.expects(s4));
            assert(r5.expects(s5));
            assert(r6.expects(s6));
            assert(r7.expects(s7));
            assert(r8.expects(s8));
            assert(r9.expects(s9));
        }
    }
    Ok(set)
}

/// Windows and effects.
#[verifier::spinoff_prover]
#[verifier::rlimit(50)]
fn read_registers(reader: &mut Reader) -> (result: Result<[u16; 6], StateError>)
    requires
        old(reader).wf(),
    ensures
        final(reader).wf(),
        forall|saved: Ppu, rest: Seq<u8>| #[trigger]
            old(reader).expects(registers_then(&saved, rest)) ==> result == Ok::<[u16; 6], StateError>(
                registers_of(&saved),
            ) && final(reader).expects(
                le32(saved.cycles) + (le16(saved.hblank_line) + pixels_then(saved.framebuffer@, rest)),
            ),
{
    let ghost r0 = *reader;
    let a = reader.u16()?;
    let ghost r1 = *reader;
    let b = reader.u16()?;
    let ghost r2 = *reader;
    let c = reader.u16()?;
    let ghost r3 = *reader;
    let d = reader.u16()?;
    let ghost r4 = *reader;
    let e = reader.u16()?;
    let ghost r5 = *reader;
    let f = reader.u16()?;
    let values = [a, b, c, d, e, f];
    proof {
        assert forall|saved: Ppu, rest: Seq<u8>| #[trigger]
            r0.expects(registers_then(&saved, rest)) implies values == registers_of(&saved)
            && reader.expects(
            le32(saved.cycles) + (le16(saved.hblank_line) + pixels_then(saved.framebuffer@, rest)),
        ) by {
            let tail = le32(saved.cycles) + (le16(saved.hblank_line) + pixels_then(
                saved.framebuffer@,
                rest,
            ));
            let s5 = le16(saved.bldy) + tail;
            let s4 = le16(saved.bldalpha) + s5;
            let s3 = le16(saved.bldcnt) + s4;
            let s2 = le16(saved.mosaic) + s3;
            let s1 = le16(saved.winout) + s2;
            assert(r0.expects(le16(saved.winin) + s1));
            assert(r1.expects(s1));
            assert(r2.expects(s2));
            assert(r3.expects(s3));
            assert(r4.expects(s4));
            assert(r5.expects(s5));
            assert(values =~= registers_of(&saved));
        }
    }
    Ok(values)
}

/// The dot clock and the line of the last hblank.
#[verifier::spinoff_prover]
#[verifier::rlimit(50)]
fn read_cycles(reader: &mut Reader) -> (result: Result<(u32, u16), StateError>)
    requires
        old(reader).wf(),
    ensures
        final(reader).wf(),
        forall|cycles: u32, line: u16, rest: Seq<u8>| #[trigger]
            old(reader).expects(le32(cycles) + (le16(line) + rest)) ==> result == Ok::<
                (u32, u16),
                StateError,
            >((cycles, line)) && final(reader).expects(rest),
{
    let ghost r0 = *reader;
    let cycles = reader.u32()?;
    let ghost r1 = *reader;
    let line = reader.u16()?;
    proof {
        assert forall|c: u32, l: u16, rest: Seq<u8>| #[trigger]
            r0.expects(le32(c) + (le16(l) + rest)) implies (cycles, line) == (c, l)
            && reader.expects(rest) by {
            assert(r1.expects(le16(l) + rest));
        }
    }
    Ok((cycles, line))
}

impl Ppu {
    /// The scroll registers of the four backgrounds.
    fn load_backgrounds(&mut self, reader: &mut Reader) -> (result: Result<(), StateError>)
        requires
            old(reader).wf(),
        ensures
            final(reader).wf(),
            old(self).wf() ==> final(self).wf(),
            *final(self) == (Ppu {
                bgcnt: final(self).bgcnt,
                bghofs: final(self).bghofs,
                bgvofs: final(self).bgvofs,
                ..*old(self)
            }),
            forall|saved: Ppu, rest: Seq<u8>| #[trigger]
                old(reader).expects(backgrounds_then(&saved, 0, rest)) ==> result is Ok
                    && final(self).bgcnt == saved.bgcnt && final(self).bghofs == saved.bghofs
                    && final(self).bgvofs == saved.bgvofs && final(reader).expects(
                    backgrounds_then(&saved, 4, rest),
                ),
    {
        let ghost r0 = *reader;
        let mut index: usize = 0;
        while index < 4
            invariant
                index <= 4,
                reader.wf(),
                r0 == *old(reader),
                old(self).wf() ==> self.wf(),
                *self == (Ppu {
                    bgcnt: self.bgcnt,
                    bghofs: self.bghofs,
                    bgvofs: self.bgvofs,
                    ..*old(self)
                }),
                forall|saved: Ppu, rest: Seq<u8>| #[trigger]
                    r0.expects(backgrounds_then(&saved, 0, rest)) ==> {
                        &&& reader.expects(backgrounds_then(&saved, index as int, rest))
                        &&& forall|j: int|
                            0 <= j < index ==> #[trigger] self.bgcnt[j] == saved.bgcnt[j]
                                && self.bghofs[j] == saved.bghofs[j] && self.bgvofs[j]
                                == saved.bgvofs[j]
                    },
            decreases 4 - index,
        {
            let ghost before = *self;
            let ghost r = *reader;
            let (control, horizontal, vertical) = read_background(reader)?;
            self.bgcnt[index] = control;
            self.bghofs[index] = horizontal;
            self.bgvofs[index] = vertical;
            proof {
                assert forall|saved: Ppu, rest: Seq<u8>| #[trigger]
                    r0.expects(backgrounds_then(&saved, 0, rest)) implies {
                    &&& reader.expects(backgrounds_then(&saved, index + 1, rest))
                    &&& forall|j: int|
                        0 <= j < index + 1 ==> #[trigger] self.bgcnt[j] == saved.bgcnt[j]
                            && self.bghofs[j] == saved.bghofs[j] && self.bgvofs[j]
                            == saved.bgvofs[j]
                } by {
                    assert(r.expects(backgrounds_then(&saved, index as int, rest)));
                    assert forall|j: int| 0 <= j < index + 1 implies #[trigger] self.bgcnt[j]
                        == saved.bgcnt[j] && self.bghofs[j] == saved.bghofs[j] && self.bgvofs[j]
                        == saved.bgvofs[j] by {
                        if j < index {
                            assert(before.bgcnt[j] == saved.bgcnt[j]);
                        }
                    }
                }
            }
            index = index + 1;
        }
        proof {
            assert forall|saved: Ppu, rest: Seq<u8>| #[trigger]
                r0.expects(backgrounds_then(&saved, 0, rest)) implies self.bgcnt == saved.bgcnt
                && self.bghofs == saved.bghofs && self.bgvofs == saved.bgvofs by {
                assert(self.bgcnt[0] == saved.bgcnt[0]);
                assert(self.bgcnt[1] == saved.bgcnt[1]);
                assert(self.bgcnt[2] == saved.bgcnt[2]);
                assert(self.bgcnt[3] == saved.bgcnt[3]);
                assert(self.bgcnt =~= saved.bgcnt);
                assert(self.bghofs =~= saved.bghofs);
                assert(self.bgvofs =~= saved.bgvofs);
            }
        }
        Ok(())
    }

    /// The last picture: as many pixels as the state holds, of which those
    /// that fit the screen are kept.
    fn load_pixels(&mut self, reader: &mut Reader) -> (result: Result<(), StateError>)
        requires
            old(reader).wf(),
        ensures
            final(reader).wf(),
            *final(self) == (Ppu { framebuffer: final(self).framebuffer, ..*old(self) }),
            final(self).framebuffer@.len() == old(self).framebuffer@.len(),
            forall|pixels: Seq<u32>, rest: Seq<u8>| #[trigger]
                old(reader).expects(pixels_then(pixels, rest)) && pixels.len()
                    == old(self).framebuffer@.len() && pixels.len() <= 0xffff_ffff ==> result is Ok
                    && final(self).framebuffer@ == pixels && final(reader).expects(rest),
    {
        let ghost r0 = *reader;
        let count = reader.u32()?;
        let count = count as usize;
        let mut index: usize = 0;
        proof {
            assert forall|pixels: Seq<u32>, rest: Seq<u8>| #[trigger]
                r0.expects(pixels_then(pixels, rest)) && pixels.len()
                    == old(self).framebuffer@.len() && pixels.len() <= 0xffff_ffff implies reader.expects(
                words_then(pixels, 0, rest),
            ) && count == pixels.len() by {
                assert(r0.expects(le32(pixels.len() as u32) + words_then(pixels, 0, rest)));
            }
        }
        while index < count
            invariant
                index <= count,
                reader.wf(),
                *self == (Ppu { framebuffer: self.framebuffer, ..*old(self) }),
                self.framebuffer@.len() == old(self).framebuffer@.len(),
                r0 == *old(reader),
                forall|pixels: Seq<u32>, rest: Seq<u8>| #[trigger]
                    r0.expects(pixels_then(pixels, rest)) && pixels.len()
                        == old(self).framebuffer@.len() && pixels.len() <= 0xffff_ffff ==> {
                        &&& reader.expects(words_then(pixels, index as int, rest))
                        &&& count == pixels.len()
                        &&& forall|j: int| 0 <= j < index ==> #[trigger] self.framebuffer@[j] == pixels[j]
                    },
            decreases count - index,
        {
            let ghost r = *reader;
            let ghost before = self.framebuffer@;
            let value = reader.u32()?;
            if index < self.framebuffer.len() {
                self.framebuffer[index] = value;
            }
            proof {
                assert forall|pixels: Seq<u32>, rest: Seq<u8>| #[trigger]
                    r0.expects(pixels_then(pixels, rest)) && pixels.len()
                        == old(self).framebuffer@.len() && pixels.len() <= 0xffff_ffff implies {
                    &&& reader.expects(words_then(pixels, index + 1, rest))
                    &&& forall|j: int| 0 <= j < index + 1 ==> #[trigger] self.framebuffer@[j] == pixels[j]
                } by {
                    assert(r.expects(words_then(pixels, index as int, rest)));
                    assert(r.expects(le32(pixels[index as int]) + words_then(pixels, index + 1, rest)));
                    assert forall|j: int| 0 <= j < index + 1 implies #[trigger] self.framebuffer@[j]
                        == pixels[j] by {
                        if j < index {
                            assert(before[j] == pixels[j]);
                        }
                    }
                }
            }
            index = index + 1;
        }
        proof {
            assert forall|pixels: Seq<u32>, rest: Seq<u8>| #[trigger]
                r0.expects(pixels_then(pixels, rest)) && pixels.len()
                    == old(self).framebuffer@.len() && pixels.len() <= 0xffff_ffff implies self.framebuffer@ == pixels
                && reader.expects(rest) by {
                assert(r0.expects(le32(pixels.len() as u32) + words_then(pixels, 0, rest)));
                assert(self.framebuffer@ =~= pixels);
            }
        }
        Ok(())
    }
}

} // verus!
