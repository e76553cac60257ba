//! GBA PPU: 240x160, scanline renderer. Supports text backgrounds (modes
//! 0-1), affine backgrounds (modes 1-2), bitmap modes 3-5, and sprites
//! (regular + affine). Blending and window effects are not implemented.

use vstd::prelude::*;
use crate::bitfacts::{lemma_u32_masks, lemma_u8_bits, lemma_sign_casts, lemma_i32_bits};
use crate::bits::{le16, seq_le16};

verus! {

pub const WIDTH: usize = 240;
pub const HEIGHT: usize = 160;

/// A 5-bit color channel widened to 8 bits by repeating its top bits.
pub open spec fn expand5(c: int) -> int {
    c * 8 + c / 4
}

/// The 0x00RRGGBB color of a BGR555 palette entry.
pub open spec fn rgb(c: u16) -> u32 {
    let r = c as int % 32;
    let g = (c as int / 32) % 32;
    let b = (c as int / 1024) % 32;
    (expand5(r) * 0x10000 + expand5(g) * 0x100 + expand5(b)) as u32
}

pub fn rgb555(c: u16) -> (r: u32)
    ensures
        r == rgb(c),
{
    let rr = (c & 0x1F) as u32;
    let g = (c >> 5 & 0x1F) as u32;
    let b = (c >> 10 & 0x1F) as u32;
    let out = (rr << 19 | rr >> 2 << 16) | (g << 11 | g >> 2 << 8) | (b << 3 | b >> 2);
    assert(rr == c as int % 32 && g == (c as int / 32) % 32 && b == (c as int / 1024) % 32)
        by (bit_vector)
        requires
            rr == (c & 0x1F) as u32,
            g == (c >> 5 & 0x1F) as u32,
            b == (c >> 10 & 0x1F) as u32,
    ;
    assert(out == (rr * 8 + rr / 4) * 0x10000 + (g * 8 + g / 4) * 0x100 + (b * 8 + b / 4))
        by (bit_vector)
        requires
            rr < 32,
            g < 32,
            b < 32,
            out == (rr << 19 | rr >> 2 << 16) | (g << 11 | g >> 2 << 8) | (b << 3 | b >> 2),
    ;
    out
}

/// Color `idx` of 16-color palette `bank`, in the background half of palette
/// RAM or (for `obj`) the sprite half.
pub open spec fn pal16_color(palette: Seq<u8>, bank: u32, idx: u32, obj: bool) -> u16 {
    seq_le16(palette, (if obj { 0x200int } else { 0 }) + bank * 32 + idx * 2)
}

/// Color `idx` of the 256-color background or sprite palette.
pub open spec fn pal256_color(palette: Seq<u8>, idx: u32, obj: bool) -> u16 {
    seq_le16(palette, (if obj { 0x200int } else { 0 }) + idx * 2)
}

fn pal16(palette: &[u8], bank: u32, idx: u32, obj: bool) -> (r: u16)
    requires
        palette.len() >= 0x400,
        bank < 16,
        idx < 16,
    ensures
        r == pal16_color(palette@, bank, idx, obj),
{
    let base: usize = if obj { 0x200 } else { 0 };
    let off = base + bank as usize * 32 + idx as usize * 2;
    crate::bits::pack16(palette[off], palette[off + 1])
}

fn pal256(palette: &[u8], idx: u32, obj: bool) -> (r: u16)
    requires
        palette.len() >= 0x400,
        idx < 256,
    ensures
        r == pal256_color(palette@, idx, obj),
{
    let base: usize = if obj { 0x200 } else { 0 };
    crate::bits::pack16(palette[base + idx as usize * 2], palette[base + idx as usize * 2 + 1])
}

/// The memories a scanline is rendered from have their hardware sizes.
pub open spec fn video_inputs(io: Seq<u8>, palette: Seq<u8>, vram: Seq<u8>, oam: Seq<u8>) -> bool {
    &&& io.len() >= 0x40
    &&& palette.len() >= 0x400
    &&& vram.len() >= 0x18000
    &&& oam.len() >= 0x400
}

/// 16-bit I/O register at `off` as a word-sized value.
pub open spec fn reg(io: Seq<u8>, off: int) -> u32 {
    seq_le16(io, off) as u32
}

/// Map width and height in tiles for a text background size code.
pub open spec fn text_map_tiles(size: u32) -> (int, int) {
    if size == 0 {
        (32int, 32int)
    } else if size == 1 {
        (64int, 32int)
    } else if size == 2 {
        (32int, 64int)
    } else {
        (64int, 64int)
    }
}

/// Which 32x32-tile screen block of a larger map holds pixel (px, py).
pub open spec fn text_screen_block(size: u32, px: int, py: int) -> int {
    if size == 0 {
        0
    } else if size == 1 {
        px / 256
    } else if size == 2 {
        py / 256
    } else {
        px / 256 + (py / 256) * 2
    }
}

/// Map coordinates (px, py) of screen pixel `x` of line `y` on text
/// background `bg`, after scrolling and wrapping at the map size.
pub open spec fn text_coords(y: u32, x: u32, bg: u32, io: Seq<u8>) -> (int, int) {
    let bgcnt = reg(io, 8 + bg * 2);
    let size = (bgcnt >> 14) & 3;
    let hofs: int = (reg(io, 0x10 + bg * 4) & 0x1FF) as int;
    let vofs: int = (reg(io, 0x12 + bg * 4) & 0x1FF) as int;
    let (w_tiles, h_tiles) = text_map_tiles(size);
    ((x + hofs) % (w_tiles * 8), (y + vofs) % (h_tiles * 8))
}

/// VRAM offset of the map entry covering map pixel (px, py).
pub open spec fn text_entry_offset(bgcnt: u32, px: int, py: int) -> int {
    let screen_base: int = ((bgcnt >> 8) & 0x1F) * 0x800;
    let size = (bgcnt >> 14) & 3;
    let sbb = text_screen_block(size, px, py);
    let tx = (px / 8) % 32;
    let ty = (py / 8) % 32;
    screen_base + sbb * 0x800 + (ty * 32 + tx) * 2
}

/// Color index of pixel (fx, fy) of character `tile` in the block at
/// `char_base`; character data past the background area reads as 0.
pub open spec fn tile_color(vram: Seq<u8>, char_base: int, tile: int, fx: int, fy: int, eight_bpp: bool) -> u32 {
    if eight_bpp {
        let off = char_base + tile * 64 + fy * 8 + fx;
        if off >= 0x10000 { 0 } else { vram[off] as u32 }
    } else {
        let off = char_base + tile * 32 + fy * 4 + fx / 2;
        if off >= 0x10000 {
            0
        } else if fx % 2 == 0 {
            (vram[off] % 16) as u32
        } else {
            (vram[off] / 16) as u32
        }
    }
}

/// The palette color index (0 = transparent) and palette bank of pixel `x`
/// of text background `bg` on line `y`.
pub open spec fn text_bg_index(y: u32, x: u32, bg: u32, io: Seq<u8>, vram: Seq<u8>) -> (u32, u32) {
    let bgcnt = reg(io, 8 + bg * 2);
    let char_base: int = ((bgcnt >> 2) & 3) * 0x4000;
    let (px, py) = text_coords(y, x, bg, io);
    let entry = seq_le16(vram, text_entry_offset(bgcnt, px, py)) as u32;
    let tile: int = (entry & 0x3FF) as int;
    let fx: int = if entry & 0x400 != 0 { 7 - px % 8 } else { px % 8 };
    let fy: int = if entry & 0x800 != 0 { 7 - py % 8 } else { py % 8 };
    (tile_color(vram, char_base, tile, fx, fy, bgcnt & 0x80 != 0), entry >> 12)
}

/// The color text background `bg` draws at pixel `x` of line `y`, if the
/// pixel is not transparent.
pub open spec fn text_bg_pixel(
    y: u32,
    x: u32,
    bg: u32,
    io: Seq<u8>,
    palette: Seq<u8>,
    vram: Seq<u8>,
) -> Option<u32> {
    let (color, bank) = text_bg_index(y, x, bg, io, vram);
    let eight_bpp = reg(io, 8 + bg * 2) & 0x80 != 0;
    if color == 0 {
        None
    } else if eight_bpp {
        Some(rgb(pal256_color(palette, color, false)))
    } else {
        Some(rgb(pal16_color(palette, bank, color, false)))
    }
}

/// A layer drawn over `row`: opaque pixels replace what was there.
pub open spec fn layered(under: u32, px: Option<u32>) -> u32 {
    match px {
        Some(c) => c,
        None => under,
    }
}

fn io16(io: &[u8], off: usize) -> (r: u32)
    requires
        off + 1 < io.len(),
    ensures
        r == seq_le16(io@, off as int) as u32,
        r < 0x10000,
{
    crate::bits::pack16(io[off], io[off + 1]) as u32
}

fn text_coords_exec(y: u32, x: u32, bg: u32, io: &[u8]) -> (r: (u32, u32))
    requires
        io@.len() >= 0x40,
        bg < 4,
        y < 256,
        x < 256,
    ensures
        (r.0 as int, r.1 as int) == text_coords(y, x, bg, io@),
        r.0 < 512,
        r.1 < 512,
{
    let bgcnt = io16(io, 8 + bg as usize * 2);
    let size = (bgcnt >> 14) & 3;
    let hr = io16(io, 0x10 + bg as usize * 4);
    let vr = io16(io, 0x12 + bg as usize * 4);
    let hofs = hr & 0x1FF;
    let vofs = vr & 0x1FF;
    proof { lemma_u32_masks(hr); lemma_u32_masks(vr); lemma_u32_masks(bgcnt); }
    let (w_tiles, h_tiles): (u32, u32) = if size == 0 {
        (32, 32)
    } else if size == 1 {
        (64, 32)
    } else if size == 2 {
        (32, 64)
    } else {
        (64, 64)
    };
    ((x + hofs) % (w_tiles * 8), (y + vofs) % (h_tiles * 8))
}

fn text_entry_offset_exec(bgcnt: u32, px: u32, py: u32) -> (r: usize)
    requires
        px < 512,
        py < 512,
    ensures
        r == text_entry_offset(bgcnt, px as int, py as int),
        r + 1 < 0x18000,
{
    let sb = (bgcnt >> 8) & 0x1F;
    let size = (bgcnt >> 14) & 3;
    proof { lemma_u32_masks(bgcnt); }
    let screen_base = sb as usize * 0x800;
    let sbb: u32 = if size == 0 {
        0
    } else if size == 1 {
        px / 256
    } else if size == 2 {
        py / 256
    } else {
        px / 256 + (py / 256) * 2
    };
    let tx = (px / 8) % 32;
    let ty = (py / 8) % 32;
    screen_base + sbb as usize * 0x800 + (ty * 32 + tx) as usize * 2
}

fn tile_color_exec(vram: &[u8], char_base: usize, tile: u32, fx: u32, fy: u32, eight_bpp: bool) -> (r: u32)
    requires
        vram@.len() >= 0x18000,
        char_base <= 0xC000,
        tile <= 0x3FF,
        fx < 8,
        fy < 8,
    ensures
        r == tile_color(vram@, char_base as int, tile as int, fx as int, fy as int, eight_bpp),
        r < 256,
{
    if eight_bpp {
        let off = char_base + tile as usize * 64 + (fy * 8 + fx) as usize;
        if off >= 0x10000 { 0 } else { vram[off] as u32 }
    } else {
        let off = char_base + tile as usize * 32 + (fy * 4 + fx / 2) as usize;
        if off >= 0x10000 {
            0
        } else {
            let b = vram[off];
            let lo = b & 0xF;
            let hi = b >> 4;
            proof { lemma_u8_bits(b); }
            if fx & 1 == 0 {
                proof { lemma_u32_masks(fx); }
                lo as u32
            } else {
                proof { lemma_u32_masks(fx); }
                hi as u32
            }
        }
    }
}

fn text_bg_color(y: u32, x: u32, bg: u32, io: &[u8], palette: &[u8], vram: &[u8]) -> (r: Option<u32>)
    requires
        io@.len() >= 0x40,
        palette@.len() >= 0x400,
        vram@.len() >= 0x18000,
        bg < 4,
        y < 256,
        x < 256,
    ensures
        r == text_bg_pixel(y, x, bg, io@, palette@, vram@),
{
    let bgcnt = io16(io, 8 + bg as usize * 2);
    let cb = (bgcnt >> 2) & 3;
    proof { lemma_u32_masks(bgcnt); }
    let char_base = cb as usize * 0x4000;
    let eight_bpp = bgcnt & 0x80 != 0;
    let (px, py) = text_coords_exec(y, x, bg, io);
    let entry_off = text_entry_offset_exec(bgcnt, px, py);
    let entry = crate::bits::pack16(vram[entry_off], vram[entry_off + 1]) as u32;
    let tile = entry & 0x3FF;
    proof { lemma_u32_masks(entry); }
    let fx = if entry & 0x400 != 0 { 7 - px % 8 } else { px % 8 };
    let fy = if entry & 0x800 != 0 { 7 - py % 8 } else { py % 8 };
    let color = tile_color_exec(vram, char_base, tile, fx, fy, eight_bpp);
    if color != 0 {
        let c = if eight_bpp {
            pal256(palette, color, false)
        } else {
            proof { lemma_u32_masks(entry); }
            pal16(palette, entry >> 12, color, false)
        };
        Some(rgb555(c))
    } else {
        None
    }
}


/// The row of the framebuffer at `base` becomes `layered` with `px` at every
/// column; the rest of the framebuffer is unchanged.
pub open spec fn row_layered(
    old_fb: Seq<u32>,
    new_fb: Seq<u32>,
    base: int,
    px: spec_fn(int) -> Option<u32>,
) -> bool {
    &&& new_fb.len() == old_fb.len()
    &&& forall|x: int| 0 <= x < WIDTH ==> #[trigger] new_fb[base + x] == layered(old_fb[base + x], px(x))
    &&& forall|i: int| 0 <= i < old_fb.len() && !(base <= i < base + WIDTH) ==> #[trigger] new_fb[i] == old_fb[i]
}

fn draw_text_bg(y: u32, bg: u32, io: &[u8], palette: &[u8], vram: &[u8], fb: &mut Vec<u32>, base: usize)
    requires
        io@.len() >= 0x40,
        palette@.len() >= 0x400,
        vram@.len() >= 0x18000,
        bg < 4,
        y < 256,
        base + WIDTH <= old(fb).len(),
    ensures
        row_layered(old(fb)@, final(fb)@, base as int, |x: int| text_bg_pixel(y, x as u32, bg, io@, palette@, vram@)),
{
    let mut x: usize = 0;
    while x < WIDTH
        invariant
            io@.len() >= 0x40,
            palette@.len() >= 0x400,
            vram@.len() >= 0x18000,
            bg < 4,
            y < 256,
            base + WIDTH <= fb.len(),
            x <= WIDTH,
            fb@.len() == old(fb)@.len(),
            forall|j: int| 0 <= j < x ==> #[trigger] fb@[base + j] == layered(old(fb)@[base + j], text_bg_pixel(y, j as u32, bg, io@, palette@, vram@)),
            forall|i: int| 0 <= i < fb@.len() && !(base <= i < base + x) ==> #[trigger] fb@[i] == old(fb)@[i],
        decreases WIDTH - x,
    {
        match text_bg_color(y, x as u32, bg, io, palette, vram) {
            Some(c) => {
                fb.set(base + x, c);
            }
            None => {}
        }
        x = x + 1;
    }
}


/// A 16-bit register value read as a signed 8.8 fixed-point parameter.
pub open spec fn as_i16(v: u32) -> int {
    let h = (v % 0x10000) as int;
    if h >= 0x8000 { h - 0x10000 } else { h }
}

/// The affine reference points leave room for a line's 240 steps of -0x8000
/// to 0x7FFF each, so that stepping along the line never overflows.
pub open spec fn refs_bounded(bg_ref: [(i32, i32); 2]) -> bool {
    forall|k: int| 0 <= k < 2 ==> -0x7F88_0000 <= #[trigger] bg_ref[k].0 <= 0x7F88_00EF
        && -0x7F88_0000 <= bg_ref[k].1 <= 0x7F88_00EF
}

/// One affine reference point leaves room for a line's 240 steps.
pub open spec fn ref_bounded(r: (i32, i32)) -> bool {
    -0x7F88_0000 <= r.0 <= 0x7F88_00EF && -0x7F88_0000 <= r.1 <= 0x7F88_00EF
}

/// Whether affine background `bg` (2 or 3) is displayed, so that drawing a
/// line reads its reference point: BG2 in mode 1, BG2 and BG3 in mode 2,
/// each when its enable bit is set.
pub open spec fn affine_shown(io: Seq<u8>, bg: u32) -> bool {
    let dispcnt = reg(io, 0);
    let mode = dispcnt & 7;
    &&& (mode == 1 && bg == 2) || (mode == 2 && (bg == 2 || bg == 3))
    &&& dispcnt & (1u32 << (8 + bg) as u32) != 0
}

/// The reference points that drawing a line reads leave room for its
/// 240 steps; the others may hold anything.
pub open spec fn shown_refs_bounded(io: Seq<u8>, bg_ref: [(i32, i32); 2]) -> bool {
    &&& affine_shown(io, 2) ==> ref_bounded(bg_ref[0])
    &&& affine_shown(io, 3) ==> ref_bounded(bg_ref[1])
}

/// The color affine background `bg` (2 or 3) draws at pixel `x` of the
/// current line: the texture point is the line's reference point plus `x`
/// steps of (PA, PC), in 8.8 fixed point; it wraps at the map size when
/// the wrap bit is set (power-of-two sizes, so the wrap is a mask) and is
/// transparent outside the map otherwise.
pub open spec fn affine_bg_pixel(
    x: int,
    bg: u32,
    io: Seq<u8>,
    palette: Seq<u8>,
    vram: Seq<u8>,
    bg_ref: [(i32, i32); 2],
) -> Option<u32> {
    let bgcnt = reg(io, 8 + bg * 2);
    let char_base: int = ((bgcnt >> 2) & 3) * 0x4000;
    let screen_base: int = ((bgcnt >> 8) & 0x1F) * 0x800;
    let wrap = bgcnt & 0x2000 != 0;
    let size_tiles: int = 16 * (if (bgcnt >> 14) & 3 == 0 { 1int } else if (bgcnt >> 14) & 3 == 1 { 2 } else if (bgcnt >> 14) & 3 == 2 { 4 } else { 8 });
    let size_px: int = size_tiles * 8;
    let regs: int = 0x20 + (bg - 2) * 0x10;
    let pa = as_i16(reg(io, regs));
    let pc = as_i16(reg(io, regs + 4));
    let (rx0, ry0) = bg_ref[bg - 2];
    let sx0 = ((rx0 + x * pa) as i32 >> 8) as int;
    let sy0 = ((ry0 + x * pc) as i32 >> 8) as int;
    let inside = 0 <= sx0 < size_px && 0 <= sy0 < size_px;
    if !wrap && !inside {
        None
    } else {
        let sx: int = if wrap { ((sx0 as i32) & ((size_px - 1) as i32)) as int } else { sx0 };
        let sy: int = if wrap { ((sy0 as i32) & ((size_px - 1) as i32)) as int } else { sy0 };
        let tile = vram[screen_base + (sy / 8 * size_tiles + sx / 8)] as int;
        let off = char_base + tile * 64 + (sy % 8) * 8 + sx % 8;
        if off < 0x10000 && vram[off] != 0 {
            Some(rgb(pal256_color(palette, vram[off] as u32, false)))
        } else {
            None
        }
    }
}

pub(crate) fn signed16(v: u32) -> (r: i32)
    requires
        v < 0x10000,
    ensures
        r == as_i16(v),
{
    let r = v as u16 as i16 as i32;
    proof { lemma_sign_casts(v); }
    r
}

fn affine_texel(sx: i32, sy: i32, screen_base: usize, char_base: usize, size_tiles: u32, vram: &[u8]) -> (r: u8)
    requires
        vram@.len() >= 0x18000,
        screen_base <= 0xF800,
        char_base <= 0xC000,
        16 <= size_tiles <= 128,
        0 <= sx < size_tiles * 8,
        0 <= sy < size_tiles * 8,
    ensures
        ({
            let tile = vram@[screen_base + (sy / 8 * size_tiles + sx / 8)] as int;
            let off = char_base + tile * 64 + (sy % 8) * 8 + sx % 8;
            r == (if off < 0x10000 { vram@[off] } else { 0u8 })
        }),
{
    let qy = sy as u32 / 8;
    let qx = sx as u32 / 8;
    assert(qy < size_tiles && qx < size_tiles);
    assert(qy * size_tiles + qx <= 127 * 128 + 127) by (nonlinear_arith)
        requires qy < size_tiles, qx < size_tiles, size_tiles <= 128;
    let ti = screen_base + (qy * size_tiles + qx) as usize;
    let tile = vram[ti] as usize;
    let off = char_base + tile * 64 + (sy as usize % 8) * 8 + sx as usize % 8;
    if off < 0x10000 { vram[off] } else { 0 }
}

fn draw_affine_bg(
    bg: u32,
    io: &[u8],
    palette: &[u8],
    vram: &[u8],
    fb: &mut Vec<u32>,
    base: usize,
    bg_ref: &[(i32, i32); 2],
)
    requires
        io@.len() >= 0x40,
        palette@.len() >= 0x400,
        vram@.len() >= 0x18000,
        2 <= bg < 4,
        base + WIDTH <= old(fb).len(),
        ref_bounded(bg_ref[bg - 2]),
    ensures
        row_layered(old(fb)@, final(fb)@, base as int, |x: int| affine_bg_pixel(x, bg, io@, palette@, vram@, *bg_ref)),
{
    let bgcnt = io16(io, 8 + bg as usize * 2);
    let cb = (bgcnt >> 2) & 3;
    let sb = (bgcnt >> 8) & 0x1F;
    let sz = (bgcnt >> 14) & 3;
    proof { lemma_u32_masks(bgcnt); }
    let char_base = cb as usize * 0x4000;
    let screen_base = sb as usize * 0x800;
    let wrap = bgcnt & 0x2000 != 0;
    let size_tiles: u32 = if sz == 0 { 16 } else if sz == 1 { 32 } else if sz == 2 { 64 } else { 128 };
    let size_px = (size_tiles * 8) as i32;
    let regs = 0x20 + (bg as usize - 2) * 0x10;
    let pa = signed16(io16(io, regs));
    let pc = signed16(io16(io, regs + 4));
    let (rx0, ry0) = bg_ref[bg as usize - 2];
    let mut rx = rx0;
    let mut ry = ry0;
    let mut x: usize = 0;
    while x < WIDTH
        invariant
            io@.len() >= 0x40,
            palette@.len() >= 0x400,
            vram@.len() >= 0x18000,
            2 <= bg < 4,
            base + WIDTH <= fb.len(),
            ref_bounded(bg_ref[bg - 2]),
            (rx0, ry0) == bg_ref[bg - 2],
            bgcnt == reg(io@, 8 + bg * 2),
            char_base == ((bgcnt >> 2) & 3) * 0x4000,
            screen_base == ((bgcnt >> 8) & 0x1F) * 0x800,
            char_base <= 0xC000,
            screen_base <= 0xF800,
            wrap == (bgcnt & 0x2000 != 0),
            size_tiles == 16 * (if (bgcnt >> 14) & 3 == 0 { 1int } else if (bgcnt >> 14) & 3 == 1 { 2 } else if (bgcnt >> 14) & 3 == 2 { 4 } else { 8 }),
            size_px == size_tiles * 8,
            16 <= size_tiles <= 128,
            pa == as_i16(reg(io@, 0x20 + (bg - 2) * 0x10)),
            pc == as_i16(reg(io@, 0x20 + (bg - 2) * 0x10 + 4)),
            -0x8000 <= pa < 0x8000,
            -0x8000 <= pc < 0x8000,
            x <= WIDTH,
            rx == rx0 + x * pa,
            ry == ry0 + x * pc,
            fb@.len() == old(fb)@.len(),
            forall|j: int| 0 <= j < x ==> #[trigger] fb@[base + j] == layered(old(fb)@[base + j], affine_bg_pixel(j, bg, io@, palette@, vram@, *bg_ref)),
            forall|i: int| 0 <= i < fb@.len() && !(base <= i < base + x) ==> #[trigger] fb@[i] == old(fb)@[i],
        decreases WIDTH - x,
    {
        let sx = rx >> 8;
        let sy = ry >> 8;
        proof {
            assert(-0x0078_0000 <= x * pa <= 0x0077_FF10) by (nonlinear_arith)
                requires 0 <= x <= 240, -0x8000 <= pa < 0x8000;
            assert(-0x0078_0000 <= x * pc <= 0x0077_FF10) by (nonlinear_arith)
                requires 0 <= x <= 240, -0x8000 <= pc < 0x8000;
            assert((x + 1) * pa == x * pa + pa && (x + 1) * pc == x * pc + pc) by (nonlinear_arith);
            assert(-0x0078_0000 <= (x + 1) * pa <= 0x0077_FF10) by (nonlinear_arith)
                requires 0 <= x < 240, -0x8000 <= pa < 0x8000;
            assert(-0x0078_0000 <= (x + 1) * pc <= 0x0077_FF10) by (nonlinear_arith)
                requires 0 <= x < 240, -0x8000 <= pc < 0x8000;
        }
        rx += pa;
        ry += pc;
        let inside = 0 <= sx && 0 <= sy && sx < size_px && sy < size_px;
        if wrap || inside {
            let (wx, wy) = if wrap { (sx & (size_px - 1), sy & (size_px - 1)) } else { (sx, sy) };
            if wrap {
                let m = size_px - 1;
                proof { lemma_i32_bits(sx, m, 0); lemma_i32_bits(sy, m, 0); }
            }
            let ci = affine_texel(wx, wy, screen_base, char_base, size_tiles, vram);
            if ci != 0 {
                let c = rgb555(pal256(palette, ci as u32, false));
                fb.set(base + x, c);
            }
        }
        x = x + 1;
    }
}


/// Width and height in pixels of a sprite of the given shape and size code.
pub open spec fn obj_dims(shape: u32, size: u32) -> (int, int) {
    if shape == 0 {
        if size == 0 { (8int, 8int) } else if size == 1 { (16int, 16int) } else if size == 2 { (32int, 32int) } else { (64int, 64int) }
    } else if shape == 1 {
        if size == 0 { (16int, 8int) } else if size == 1 { (32int, 8int) } else if size == 2 { (32int, 16int) } else { (64int, 32int) }
    } else if shape == 2 {
        if size == 0 { (8int, 16int) } else if size == 1 { (8int, 32int) } else if size == 2 { (16int, 32int) } else { (32int, 64int) }
    } else {
        (32int, 64int)
    }
}

/// Attribute halfword `k` of OAM entry `i`.
pub open spec fn obj_attr(oam: Seq<u8>, i: int, k: int) -> u32 {
    seq_le16(oam, i * 8 + k * 2) as u32
}

/// Color index of texel (tx, ty) of a sprite whose first tile is `tile`,
/// with `row_tiles` tiles between rows of its character data.
pub open spec fn obj_texel(vram: Seq<u8>, tile: int, row_tiles: int, eight_bpp: bool, tx: int, ty: int) -> u32 {
    let t = tile + (ty / 8) * row_tiles + (tx / 8) * (if eight_bpp { 2int } else { 1 });
    let base = 0x10000 + (t % 0x400) * 32;
    if eight_bpp {
        let off = base + (ty % 8) * 8 + tx % 8;
        if off >= 0x18000 { 0 } else { vram[off] as u32 }
    } else {
        let off = base + (ty % 8) * 4 + (tx % 8) / 2;
        if off >= 0x18000 {
            0
        } else if tx % 2 == 0 {
            (vram[off] % 16) as u32
        } else {
            (vram[off] / 16) as u32
        }
    }
}

/// Signed affine parameter `n` (PA, PB, PC, PD) of parameter group `idx`.
pub open spec fn obj_param(oam: Seq<u8>, idx: int, n: int) -> int {
    as_i16(seq_le16(oam, idx * 32 + 6 + n * 8) as u32)
}

/// The texel a sprite shows at offset `dx` of its bounding box on line
/// `line` of it, if that falls inside the sprite.
pub open spec fn obj_texel_coords(oam: Seq<u8>, a0: u32, a1: u32, w: int, h: int, bw: int, bh: int, dx: int, line: int) -> Option<(int, int)> {
    if a0 & 0x100 != 0 {
        let idx = ((a1 >> 9) & 0x1F) as int;
        let pa = obj_param(oam, idx, 0);
        let pb = obj_param(oam, idx, 1);
        let pc = obj_param(oam, idx, 2);
        let pd = obj_param(oam, idx, 3);
        let cx = bw / 2;
        let cy = bh / 2;
        let tx = ((pa * (dx - cx) + pb * (line - cy)) as i32 >> 8) as int + w / 2;
        let ty = ((pc * (dx - cx) + pd * (line - cy)) as i32 >> 8) as int + h / 2;
        if tx < 0 || ty < 0 || tx >= w || ty >= h { None } else { Some((tx, ty)) }
    } else {
        let tx = if a1 & 0x1000 != 0 { w - 1 - dx } else { dx };
        let ty = if a1 & 0x2000 != 0 { h - 1 - line } else { line };
        Some((tx, ty))
    }
}

/// What OAM entry `i` draws at pixel `x` of line `y`: its color and
/// priority, or nothing (disabled, off this line or pixel, transparent, or
/// a tile that overlaps the bitmap in modes 3-5).
pub open spec fn sprite_pixel(i: int, y: u32, x: int, dispcnt: u32, palette: Seq<u8>, vram: Seq<u8>, oam: Seq<u8>) -> Option<(u32, u8)> {
    let a0 = obj_attr(oam, i, 0);
    let a1 = obj_attr(oam, i, 1);
    let a2 = obj_attr(oam, i, 2);
    let affine = a0 & 0x100 != 0;
    let (w, h) = obj_dims((a0 >> 14) & 3, (a1 >> 14) & 3);
    let double = affine && a0 & 0x200 != 0;
    let bw = if double { w * 2 } else { w };
    let bh = if double { h * 2 } else { h };
    let sy = (a0 & 0xFF) as int;
    let sx = (a1 & 0x1FF) as int;
    let oy = if sy + bh > 256 { sy - 256 } else { sy };
    let ox = if sx + bw > 512 { sx - 512 } else { sx };
    let line = y - oy;
    let dx = x - ox;
    let eight_bpp = a0 & 0x2000 != 0;
    let tile = (a2 & 0x3FF) as int;
    let one_dim = dispcnt & 0x40 != 0;
    let row_tiles = if one_dim { w / 8 * (if eight_bpp { 2int } else { 1 }) } else { 32 };
    if !affine && a0 & 0x200 != 0 {
        None
    } else if line < 0 || line >= bh {
        None
    } else if dispcnt & 7 >= 3 && tile < 512 {
        None
    } else if dx < 0 || dx >= bw {
        None
    } else {
        match obj_texel_coords(oam, a0, a1, w, h, bw, bh, dx, line) {
            None => None,
            Some((tx, ty)) => {
                let ci = obj_texel(vram, tile, row_tiles, eight_bpp, tx, ty);
                if ci == 0 {
                    None
                } else {
                    let c = if eight_bpp {
                        pal256_color(palette, ci, true)
                    } else {
                        pal16_color(palette, a2 >> 12, ci, true)
                    };
                    Some((rgb(c), ((a2 >> 10) & 3) as u8))
                }
            }
        }
    }
}

/// The sprite pixel shown at `x` among OAM entries `i..128`: the lowest
/// numbered entry that draws there wins.
pub open spec fn sprites_from(i: int, y: u32, x: int, dispcnt: u32, palette: Seq<u8>, vram: Seq<u8>, oam: Seq<u8>) -> Option<(u32, u8)>
    decreases 128 - i,
{
    if i >= 128 || i < 0 {
        None
    } else {
        match sprite_pixel(i, y, x, dispcnt, palette, vram, oam) {
            Some(p) => Some(p),
            None => sprites_from(i + 1, y, x, dispcnt, palette, vram, oam),
        }
    }
}

/// The sprite line buffer holds, per pixel, the winning sprite's color and
/// priority or nothing.
pub open spec fn obj_line_holds(color: Seq<u32>, prio: Seq<u8>, opaque: Seq<bool>, x: int, v: Option<(u32, u8)>) -> bool {
    match v {
        Some((c, p)) => opaque[x] && color[x] == c && prio[x] == p,
        None => !opaque[x],
    }
}

fn obj_texel_exec(vram: &[u8], tile: u32, row_tiles: u32, eight_bpp: bool, tx: u32, ty: u32) -> (r: u32)
    requires
        vram@.len() >= 0x18000,
        tile <= 0x3FF,
        row_tiles <= 32,
        tx < 64,
        ty < 64,
    ensures
        r == obj_texel(vram@, tile as int, row_tiles as int, eight_bpp, tx as int, ty as int),
{
    let qy = ty / 8;
    let qx = tx / 8;
    let step: u32 = if eight_bpp { 2 } else { 1 };
    assert(qy * row_tiles <= 7 * 32 && qx * step <= 16) by (nonlinear_arith)
        requires qy < 8, row_tiles <= 32, qx < 8, step <= 2;
    let t = tile + qy * row_tiles + qx * step;
    let tm = t & 0x3FF;
    proof { lemma_u32_masks(t); }
    let base = 0x10000 + tm as usize * 32;
    if eight_bpp {
        let off = base + (ty as usize % 8) * 8 + tx as usize % 8;
        if off >= 0x18000 { 0 } else { vram[off] as u32 }
    } else {
        let off = base + (ty as usize % 8) * 4 + (tx as usize % 8) / 2;
        if off >= 0x18000 {
            0
        } else {
            let b = vram[off];
            let lo = b & 0xF;
            let hi = b >> 4;
            proof { lemma_u8_bits(b); }
            if tx & 1 == 0 {
                proof { lemma_u32_masks(tx); }
                lo as u32
            } else {
                proof { lemma_u32_masks(tx); }
                hi as u32
            }
        }
    }
}

fn oam16(oam: &[u8], off: usize) -> (r: u32)
    requires
        off + 1 < oam.len(),
    ensures
        r == seq_le16(oam@, off as int) as u32,
        r < 0x10000,
{
    crate::bits::pack16(oam[off], oam[off + 1]) as u32
}


/// The three per-pixel sprite line buffers (color, priority, opaque).
pub open spec fn obj_bufs_ok(color: Seq<u32>, prio: Seq<u8>, opaque: Seq<bool>) -> bool {
    color.len() == WIDTH && prio.len() == WIDTH && opaque.len() == WIDTH
}

fn oam_param(oam: &[u8], idx: usize, n: usize) -> (r: i32)
    requires
        oam@.len() >= 0x400,
        idx < 32,
        n < 4,
    ensures
        r == obj_param(oam@, idx as int, n as int),
        -0x8000 <= r < 0x8000,
{
    signed16(oam16(oam, idx * 32 + 6 + n * 8))
}

/// The decoded attributes of one OAM entry that is visible on a line.
pub struct SpriteGeom {
    pub a0: u32,
    pub a1: u32,
    pub a2: u32,
    pub w: u32,
    pub h: u32,
    pub bw: u32,
    pub bh: u32,
    pub ox: i32,
    pub line: i32,
    pub eight_bpp: bool,
    pub tile: u32,
    pub prio: u8,
    pub pal_bank: u32,
    pub row_tiles: u32,
    pub pa: i32,
    pub pb: i32,
    pub pc: i32,
    pub pd: i32,
}

/// `g` is the decoding of OAM entry `i`, which is enabled and crosses line
/// `y` with drawable tiles.
pub open spec fn geom_of(g: SpriteGeom, i: int, y: u32, dispcnt: u32, oam: Seq<u8>) -> bool {
    let a0 = g.a0;
    let a1 = g.a1;
    let affine = a0 & 0x100 != 0;
    let double = affine && a0 & 0x200 != 0;
    let sy = (a0 & 0xFF) as int;
    let sx = (a1 & 0x1FF) as int;
    let oy = if sy + g.bh > 256 { sy - 256 } else { sy };
    let idx = ((a1 >> 9) & 0x1F) as int;
    &&& a0 == obj_attr(oam, i, 0)
    &&& a1 == obj_attr(oam, i, 1)
    &&& g.a2 == obj_attr(oam, i, 2)
    &&& !(!affine && a0 & 0x200 != 0)
    &&& (g.w as int, g.h as int) == obj_dims((a0 >> 14) & 3, (a1 >> 14) & 3)
    &&& 8 <= g.w <= 64
    &&& 8 <= g.h <= 64
    &&& g.bw == (if double { g.w * 2 } else { g.w as int })
    &&& g.bh == (if double { g.h * 2 } else { g.h as int })
    &&& g.ox == (if sx + g.bw > 512 { sx - 512 } else { sx })
    &&& g.line == y - oy
    &&& 0 <= g.line < g.bh
    &&& -512 <= g.ox <= 511
    &&& 8 <= g.bw <= 128
    &&& 8 <= g.bh <= 128
    &&& g.eight_bpp == (a0 & 0x2000 != 0)
    &&& g.tile == (g.a2 & 0x3FF)
    &&& g.tile <= 0x3FF
    &&& !(dispcnt & 7 >= 3 && g.tile < 512)
    &&& g.prio == ((g.a2 >> 10) & 3) as u8
    &&& g.pal_bank == g.a2 >> 12
    &&& g.pal_bank < 16
    &&& g.row_tiles == (if dispcnt & 0x40 != 0 { g.w / 8 * (if g.eight_bpp { 2int } else { 1 }) } else { 32 })
    &&& g.row_tiles <= 32
    &&& (affine ==> g.pa == obj_param(oam, idx, 0) && g.pb == obj_param(oam, idx, 1)
            && g.pc == obj_param(oam, idx, 2) && g.pd == obj_param(oam, idx, 3))
    &&& -0x8000 <= g.pa < 0x8000
    &&& -0x8000 <= g.pb < 0x8000
    &&& -0x8000 <= g.pc < 0x8000
    &&& -0x8000 <= g.pd < 0x8000
}

/// Decode OAM entry `i` for line `y`; `None` when it draws nothing there.
fn decode_sprite(i: usize, y: u32, dispcnt: u32, oam: &[u8]) -> (r: Option<SpriteGeom>)
    requires
        i < 128,
        y < 256,
        oam@.len() >= 0x400,
    ensures
        match r {
            Some(g) => geom_of(g, i as int, y, dispcnt, oam@),
            None => forall|x: int, pal: Seq<u8>, vram: Seq<u8>| #[trigger] sprite_pixel(i as int, y, x, dispcnt, pal, vram, oam@) is None,
        },
{
    let a0 = oam16(oam, i * 8);
    let a1 = oam16(oam, i * 8 + 2);
    let a2 = oam16(oam, i * 8 + 4);
    let affine = a0 & 0x100 != 0;
    if !affine && a0 & 0x200 != 0 {
        return None;  // disabled
    }
    let shape = a0 >> 14 & 3;
    let size = a1 >> 14 & 3;
    proof { lemma_u32_masks(a0); lemma_u32_masks(a1); }
    let (w, h): (u32, u32) = if shape == 0 {
        if size == 0 { (8, 8) } else if size == 1 { (16, 16) } else if size == 2 { (32, 32) } else { (64, 64) }
    } else if shape == 1 {
        if size == 0 { (16, 8) } else if size == 1 { (32, 8) } else if size == 2 { (32, 16) } else { (64, 32) }
    } else if shape == 2 {
        if size == 0 { (8, 16) } else if size == 1 { (8, 32) } else if size == 2 { (16, 32) } else { (32, 64) }
    } else {
        (32, 64)
    };
    let double = affine && a0 & 0x200 != 0;
    let (bw, bh) = if double { (w * 2, h * 2) } else { (w, h) };
    let sy = a0 & 0xFF;
    let sx = a1 & 0x1FF;
    proof { lemma_u32_masks(a0); lemma_u32_masks(a1); }
    let oy = if sy + bh > 256 { sy as i32 - 256 } else { sy as i32 };
    let ox = if sx + bw > 512 { sx as i32 - 512 } else { sx as i32 };
    let line = y as i32 - oy;
    if line < 0 || line >= bh as i32 {
        return None;
    }
    let eight_bpp = a0 & 0x2000 != 0;
    let tile = a2 & 0x3FF;
    let pr = (a2 >> 10 & 3) as u8;
    let pal_bank = a2 >> 12;
    proof { lemma_u32_masks(a2); }
    // In bitmap modes tiles 0-511 overlap the framebuffer; skip them.
    if dispcnt & 7 >= 3 && tile < 512 {
        return None;
    }
    let one_dim = dispcnt & 0x40 != 0;
    let row_tiles = if one_dim { w / 8 * if eight_bpp { 2 } else { 1 } } else { 32 };
    let (pa, pb, pc, pd) = if affine {
        let idx = (a1 >> 9 & 0x1F) as usize;
        proof { lemma_u32_masks(a1); }
        (oam_param(oam, idx, 0), oam_param(oam, idx, 1), oam_param(oam, idx, 2), oam_param(oam, idx, 3))
    } else {
        (0, 0, 0, 0)
    };
    Some(SpriteGeom {
        a0, a1, a2, w, h, bw, bh, ox, line, eight_bpp, tile, prio: pr, pal_bank, row_tiles, pa, pb, pc, pd,
    })
}

/// What a decoded sprite draws at screen pixel `x`.
fn sprite_color_at(g: &SpriteGeom, i: usize, y: u32, x: i32, dispcnt: u32, palette: &[u8], vram: &[u8], oam: &[u8]) -> (r: Option<(u32, u8)>)
    requires
        geom_of(*g, i as int, y, dispcnt, oam@),
        0 <= x < WIDTH,
        g.ox <= x < g.ox + g.bw,
        palette@.len() >= 0x400,
        vram@.len() >= 0x18000,
        oam@.len() >= 0x400,
    ensures
        r == sprite_pixel(i as int, y, x as int, dispcnt, palette@, vram@, oam@),
{
    let dx = (x - g.ox) as u32;
    let affine = g.a0 & 0x100 != 0;
    let coords: Option<(u32, u32)> = if affine {
        let ddx = dx as i32 - g.bw as i32 / 2;
        let ddy = g.line - g.bh as i32 / 2;
        let (pa, pb, pc, pd) = (g.pa, g.pb, g.pc, g.pd);
        assert(-0x0080_0000 <= pa * ddx <= 0x0080_0000) by (nonlinear_arith)
            requires -0x8000 <= pa < 0x8000, -64 <= ddx <= 128;
        assert(-0x0080_0000 <= pb * ddy <= 0x0080_0000) by (nonlinear_arith)
            requires -0x8000 <= pb < 0x8000, -64 <= ddy <= 128;
        assert(-0x0080_0000 <= pc * ddx <= 0x0080_0000) by (nonlinear_arith)
            requires -0x8000 <= pc < 0x8000, -64 <= ddx <= 128;
        assert(-0x0080_0000 <= pd * ddy <= 0x0080_0000) by (nonlinear_arith)
            requires -0x8000 <= pd < 0x8000, -64 <= ddy <= 128;
        let ux = pa * ddx + pb * ddy;
        let uy = pc * ddx + pd * ddy;
        let qx = ux >> 8;
        let qy = uy >> 8;
        proof { lemma_i32_bits(0, 0, ux); lemma_i32_bits(0, 0, uy); }
        let tx = qx + g.w as i32 / 2;
        let ty = qy + g.h as i32 / 2;
        if tx < 0 || ty < 0 || tx >= g.w as i32 || ty >= g.h as i32 {
            None
        } else {
            Some((tx as u32, ty as u32))
        }
    } else {
        let hflip = g.a1 & 0x1000 != 0;
        let vflip = g.a1 & 0x2000 != 0;
        let ty = if vflip { g.h - 1 - g.line as u32 } else { g.line as u32 };
        let tx = if hflip { g.w - 1 - dx } else { dx };
        Some((tx, ty))
    };
    match coords {
        Some((tx, ty)) => {
            let ci = obj_texel_exec(vram, g.tile, g.row_tiles, g.eight_bpp, tx, ty);
            if ci != 0 {
                let c = if g.eight_bpp {
                    pal256(palette, ci, true)
                } else {
                    pal16(palette, g.pal_bank, ci, true)
                };
                Some((rgb555(c), g.prio))
            } else {
                None
            }
        }
        None => None,
    }
}

/// Draw OAM entry `i` into the sprite line buffers, over what is there.
fn draw_sprite(
    i: usize,
    y: u32,
    dispcnt: u32,
    palette: &[u8],
    vram: &[u8],
    oam: &[u8],
    color: &mut Vec<u32>,
    prio: &mut Vec<u8>,
    opaque: &mut Vec<bool>,
)
    requires
        i < 128,
        y < 256,
        palette@.len() >= 0x400,
        vram@.len() >= 0x18000,
        oam@.len() >= 0x400,
        obj_bufs_ok(old(color)@, old(prio)@, old(opaque)@),
    ensures
        obj_bufs_ok(final(color)@, final(prio)@, final(opaque)@),
        forall|x: int| 0 <= x < WIDTH ==> {
            match #[trigger] sprite_pixel(i as int, y, x, dispcnt, palette@, vram@, oam@) {
                Some(p) => obj_line_holds(final(color)@, final(prio)@, final(opaque)@, x, Some(p)),
                None => final(color)@[x] == old(color)@[x] && final(prio)@[x] == old(prio)@[x]
                    && final(opaque)@[x] == old(opaque)@[x],
            }
        },
{
    let g = match decode_sprite(i, y, dispcnt, oam) {
        Some(g) => g,
        None => return,
    };
    let mut dx: u32 = 0;
    while dx < g.bw
        invariant
            i < 128,
            palette@.len() >= 0x400,
            vram@.len() >= 0x18000,
            oam@.len() >= 0x400,
            obj_bufs_ok(color@, prio@, opaque@),
            geom_of(g, i as int, y, dispcnt, oam@),
            dx <= g.bw,
            forall|x: int| 0 <= x < WIDTH ==> {
                if g.ox <= x < g.ox + dx {
                    match #[trigger] sprite_pixel(i as int, y, x, dispcnt, palette@, vram@, oam@) {
                        Some(p) => obj_line_holds(color@, prio@, opaque@, x, Some(p)),
                        None => color@[x] == old(color)@[x] && prio@[x] == old(prio)@[x]
                            && opaque@[x] == old(opaque)@[x],
                    }
                } else {
                    color@[x] == old(color)@[x] && prio@[x] == old(prio)@[x] && opaque@[x] == old(opaque)@[x]
                }
            },
        decreases g.bw - dx,
    {
        let x = g.ox + dx as i32;
        if 0 <= x && x < WIDTH as i32 {
            match sprite_color_at(&g, i, y, x, dispcnt, palette, vram, oam) {
                Some((c, p)) => {
                    let xi = x as usize;
                    color.set(xi, c);
                    prio.set(xi, p);
                    opaque.set(xi, true);
                }
                None => {}
            }
        }
        dx = dx + 1;
    }
    proof {
        assert forall|x: int| 0 <= x < WIDTH && !(g.ox <= x < g.ox + g.bw)
            implies #[trigger] sprite_pixel(i as int, y, x, dispcnt, palette@, vram@, oam@) is None by {}
    }
}


/// Fill the sprite line buffers for line `y`: every OAM entry is drawn
/// from the last to the first, so at each pixel the lowest numbered sprite
/// that is opaque there wins.
fn render_sprites(
    y: u32,
    dispcnt: u32,
    palette: &[u8],
    vram: &[u8],
    oam: &[u8],
    color: &mut Vec<u32>,
    prio: &mut Vec<u8>,
    opaque: &mut Vec<bool>,
)
    requires
        y < 256,
        palette@.len() >= 0x400,
        vram@.len() >= 0x18000,
        oam@.len() >= 0x400,
        obj_bufs_ok(old(color)@, old(prio)@, old(opaque)@),
        forall|x: int| 0 <= x < WIDTH ==> !old(opaque)@[x],
    ensures
        obj_bufs_ok(final(color)@, final(prio)@, final(opaque)@),
        forall|x: int| 0 <= x < WIDTH ==> obj_line_holds(final(color)@, final(prio)@, final(opaque)@, x,
            #[trigger] sprites_from(0, y, x, dispcnt, palette@, vram@, oam@)),
        forall|x: int| 0 <= x < WIDTH && #[trigger] sprites_from(0, y, x, dispcnt, palette@, vram@, oam@) is None
            ==> final(color)@[x] == old(color)@[x] && final(prio)@[x] == old(prio)@[x],
{
    let mut i: usize = 128;
    while i > 0
        invariant
            i <= 128,
            y < 256,
            palette@.len() >= 0x400,
            vram@.len() >= 0x18000,
            oam@.len() >= 0x400,
            obj_bufs_ok(color@, prio@, opaque@),
            forall|x: int| 0 <= x < WIDTH ==> obj_line_holds(color@, prio@, opaque@, x,
                #[trigger] sprites_from(i as int, y, x, dispcnt, palette@, vram@, oam@)),
            forall|x: int| 0 <= x < WIDTH && #[trigger] sprites_from(i as int, y, x, dispcnt, palette@, vram@, oam@) is None
                ==> color@[x] == old(color)@[x] && prio@[x] == old(prio)@[x],
        decreases i,
    {
        i = i - 1;
        let ghost pc = color@;
        let ghost pp = prio@;
        let ghost po = opaque@;
        draw_sprite(i, y, dispcnt, palette, vram, oam, color, prio, opaque);
        proof {
            assert forall|x: int| 0 <= x < WIDTH implies obj_line_holds(color@, prio@, opaque@, x,
                #[trigger] sprites_from(i as int, y, x, dispcnt, palette@, vram@, oam@)) by {
                assert(obj_line_holds(pc, pp, po, x, sprites_from(i + 1, y, x, dispcnt, palette@, vram@, oam@)));
                match sprite_pixel(i as int, y, x, dispcnt, palette@, vram@, oam@) {
                    Some(p) => {}
                    None => {}
                }
            }
            assert forall|x: int| 0 <= x < WIDTH && #[trigger] sprites_from(i as int, y, x, dispcnt, palette@, vram@, oam@)
                is None implies color@[x] == old(color)@[x] && prio@[x] == old(prio)@[x] by {
                assert(sprite_pixel(i as int, y, x, dispcnt, palette@, vram@, oam@) is None);
                assert(sprites_from(i + 1, y, x, dispcnt, palette@, vram@, oam@) is None);
            }
        }
    }
}

/// What background `bg` shows at pixel `x` of line `y` in display `mode`,
/// before enable bits and priorities are considered.
pub open spec fn bg_layer(
    mode: u32,
    bg: u32,
    y: u32,
    x: int,
    dispcnt: u32,
    io: Seq<u8>,
    palette: Seq<u8>,
    vram: Seq<u8>,
    bg_ref: [(i32, i32); 2],
) -> Option<u32> {
    if mode == 0 || (mode == 1 && bg < 2) {
        text_bg_pixel(y, x as u32, bg, io, palette, vram)
    } else if (mode == 1 && bg == 2) || (mode == 2 && bg >= 2) {
        affine_bg_pixel(x, bg, io, palette, vram, bg_ref)
    } else if 3 <= mode <= 5 && bg == 2 {
        bitmap_pixel(mode, y, x, dispcnt, palette, vram)
    } else {
        None
    }
}

/// Pixel `x` of line `y` of the bitmap modes: direct 15-bit color (mode 3,
/// 240x160; mode 5, 160x128 in two frames) or 8-bit palette indices (mode
/// 4, two frames); DISPCNT bit 4 selects the frame.
pub open spec fn bitmap_pixel(mode: u32, y: u32, x: int, dispcnt: u32, palette: Seq<u8>, vram: Seq<u8>) -> Option<u32> {
    let frame: int = if dispcnt & 0x10 != 0 { 0xA000 } else { 0 };
    if mode == 3 {
        Some(rgb(seq_le16(vram, (y * 240 + x) * 2)))
    } else if mode == 4 {
        let pi = vram[frame + y * 240 + x];
        if pi != 0 { Some(rgb(pal256_color(palette, pi as u32, false))) } else { None }
    } else {
        if y < 128 && x < 160 { Some(rgb(seq_le16(vram, frame + (y * 160 + x) * 2))) } else { None }
    }
}

/// Layer `k` of the front-to-back stack of a line: for each priority `p`
/// from 0 (front) to 3, first the sprites of priority `p`, then backgrounds
/// 0 to 3 of priority `p`. A layer that is disabled, of another priority or
/// transparent at `x` shows nothing.
pub open spec fn layer_pixel(
    k: int,
    y: u32,
    x: int,
    io: Seq<u8>,
    palette: Seq<u8>,
    vram: Seq<u8>,
    oam: Seq<u8>,
    bg_ref: [(i32, i32); 2],
) -> Option<u32> {
    let dispcnt = reg(io, 0);
    let p = k / 5;
    let j = k % 5;
    if j == 0 {
        if dispcnt & 0x1000 == 0 {
            None
        } else {
            match sprites_from(0, y, x, dispcnt, palette, vram, oam) {
                Some((c, pr)) => if pr == p { Some(c) } else { None },
                None => None,
            }
        }
    } else {
        let bg = (j - 1) as u32;
        if dispcnt & (1u32 << (8 + bg) as u32) == 0 || reg(io, 8 + bg * 2) & 3 != p {
            None
        } else {
            bg_layer(dispcnt & 7, bg, y, x, dispcnt, io, palette, vram, bg_ref)
        }
    }
}

/// The color of pixel `x` as seen through layers `k..20` over the backdrop
/// (palette color 0).
pub open spec fn composed(
    k: int,
    y: u32,
    x: int,
    io: Seq<u8>,
    palette: Seq<u8>,
    vram: Seq<u8>,
    oam: Seq<u8>,
    bg_ref: [(i32, i32); 2],
) -> u32
    decreases 20 - k,
{
    if k >= 20 {
        rgb(seq_le16(palette, 0))
    } else {
        layered(composed(k + 1, y, x, io, palette, vram, oam, bg_ref), layer_pixel(k, y, x, io, palette, vram, oam, bg_ref))
    }
}

/// The color of pixel `x` on line `y`: white during forced blank, else the
/// frontmost opaque layer over the backdrop.
pub open spec fn scanline_pixel(
    y: u32,
    x: int,
    io: Seq<u8>,
    palette: Seq<u8>,
    vram: Seq<u8>,
    oam: Seq<u8>,
    bg_ref: [(i32, i32); 2],
) -> u32 {
    if reg(io, 0) & 0x80 != 0 {
        rgb(0x7FFF)
    } else {
        composed(0, y, x, io, palette, vram, oam, bg_ref)
    }
}


fn draw_bitmap_bg(mode: u32, y: u32, dispcnt: u32, palette: &[u8], vram: &[u8], fb: &mut Vec<u32>, base: usize)
    requires
        3 <= mode <= 5,
        y < 160,
        palette@.len() >= 0x400,
        vram@.len() >= 0x18000,
        base + WIDTH <= old(fb).len(),
    ensures
        row_layered(old(fb)@, final(fb)@, base as int, |x: int| bitmap_pixel(mode, y, x, dispcnt, palette@, vram@)),
{
    let frame: usize = if dispcnt & 0x10 != 0 { 0xA000 } else { 0 };
    let mut x: usize = 0;
    while x < WIDTH
        invariant
            3 <= mode <= 5,
            y < 160,
            palette@.len() >= 0x400,
            vram@.len() >= 0x18000,
            base + WIDTH <= fb.len(),
            frame == (if dispcnt & 0x10 != 0 { 0xA000int } else { 0 }),
            x <= WIDTH,
            fb@.len() == old(fb)@.len(),
            forall|j: int| 0 <= j < x ==> #[trigger] fb@[base + j] == layered(old(fb)@[base + j],
                bitmap_pixel(mode, y, j, dispcnt, palette@, vram@)),
            forall|i: int| 0 <= i < fb@.len() && !(base <= i < base + x) ==> #[trigger] fb@[i] == old(fb)@[i],
        decreases WIDTH - x,
    {
        let yy = y as usize;
        if mode == 3 {
            let off = (yy * WIDTH + x) * 2;
            fb.set(base + x, rgb555(crate::bits::pack16(vram[off], vram[off + 1])));
        } else if mode == 4 {
            let pi = vram[frame + yy * WIDTH + x] as u32;
            if pi != 0 {
                fb.set(base + x, rgb555(pal256(palette, pi, false)));
            }
        } else {
            if yy < 128 && x < 160 {
                let off = frame + (yy * 160 + x) * 2;
                fb.set(base + x, rgb555(crate::bits::pack16(vram[off], vram[off + 1])));
            }
        }
        x = x + 1;
    }
}

fn draw_bg_layer(
    mode: u32,
    bg: u32,
    y: u32,
    dispcnt: u32,
    io: &[u8],
    palette: &[u8],
    vram: &[u8],
    fb: &mut Vec<u32>,
    base: usize,
    bg_ref: &[(i32, i32); 2],
)
    requires
        bg < 4,
        y < 160,
        io@.len() >= 0x40,
        palette@.len() >= 0x400,
        vram@.len() >= 0x18000,
        base + WIDTH <= old(fb).len(),
        dispcnt == reg(io@, 0),
        mode == dispcnt & 7,
        dispcnt & (1u32 << (8 + bg) as u32) != 0,
        shown_refs_bounded(io@, *bg_ref),
    ensures
        row_layered(old(fb)@, final(fb)@, base as int,
            |x: int| bg_layer(mode, bg, y, x, dispcnt, io@, palette@, vram@, *bg_ref)),
{
    if mode == 0 || (mode == 1 && bg < 2) {
        draw_text_bg(y, bg, io, palette, vram, fb, base);
    } else if (mode == 1 && bg == 2) || (mode == 2 && bg >= 2) {
        assert(affine_shown(io@, bg));
        draw_affine_bg(bg, io, palette, vram, fb, base, bg_ref);
    } else if 3 <= mode && mode <= 5 && bg == 2 {
        draw_bitmap_bg(mode, y, dispcnt, palette, vram, fb, base);
        assert(row_layered(old(fb)@, fb@, base as int,
            |x: int| bg_layer(mode, bg, y, x, dispcnt, io@, palette@, vram@, *bg_ref)));
    } else {
        assert forall|x: int| 0 <= x < WIDTH implies #[trigger] fb@[base + x] == layered(old(fb)@[base + x],
            bg_layer(mode, bg, y, x, dispcnt, io@, palette@, vram@, *bg_ref)) by {}
    }
}

/// The line's frame buffer row equals layers `k..20` composed.
pub open spec fn row_composed(
    fb: Seq<u32>,
    base: int,
    k: int,
    y: u32,
    io: Seq<u8>,
    palette: Seq<u8>,
    vram: Seq<u8>,
    oam: Seq<u8>,
    bg_ref: [(i32, i32); 2],
) -> bool {
    forall|x: int| 0 <= x < WIDTH ==> #[trigger] fb[base + x] == composed(k, y, x, io, palette, vram, oam, bg_ref)
}

/// The scanline-rendering pixel processor and its 240x160 0x00RRGGBB
/// framebuffer (row-major).
pub struct Ppu {
    pub framebuffer: Vec<u32>,
}

impl Ppu {
    pub open spec fn wf(&self) -> bool {
        self.framebuffer@.len() == WIDTH * HEIGHT
    }

    pub fn new() -> (p: Ppu)
        ensures
            p.wf(),
            forall|i: int| 0 <= i < WIDTH * HEIGHT ==> p.framebuffer@[i] == 0,
    {
        let mut fb: Vec<u32> = Vec::new();
        let mut i: usize = 0;
        while i < WIDTH * HEIGHT
            invariant
                i <= WIDTH * HEIGHT,
                fb@.len() == i,
                forall|j: int| 0 <= j < i ==> fb@[j] == 0,
            decreases WIDTH * HEIGHT - i,
        {
            fb.push(0);
            i = i + 1;
        }
        Ppu { framebuffer: fb }
    }

    /// Render line `y` from the current register/VRAM state: every pixel of
    /// row `y` becomes `scanline_pixel`, other rows are untouched. `io` is the
    /// raw I/O register block; `bg_ref` the per-frame affine reference point
    /// accumulators (updated by the caller each line).
    pub fn render_scanline(
        &mut self,
        y: u32,
        io: &[u8],
        palette: &[u8],
        vram: &[u8],
        oam: &[u8],
        bg_ref: &[(i32, i32); 2],
    )
        requires
            old(self).wf(),
            y < HEIGHT,
            video_inputs(io@, palette@, vram@, oam@),
            shown_refs_bounded(io@, *bg_ref),
        ensures
            final(self).wf(),
            forall|x: int| 0 <= x < WIDTH ==> #[trigger] final(self).framebuffer@[y * WIDTH + x]
                == scanline_pixel(y, x, io@, palette@, vram@, oam@, *bg_ref),
            forall|i: int| 0 <= i < WIDTH * HEIGHT && !(y * WIDTH <= i < y * WIDTH + WIDTH)
                ==> #[trigger] final(self).framebuffer@[i] == old(self).framebuffer@[i],
    {
        let dispcnt = io16(io, 0);
        let mode = dispcnt & 7;
        let backdrop = rgb555(crate::bits::pack16(palette[0], palette[1]));
        let base = y as usize * WIDTH;
        let forced = dispcnt & 0x80 != 0;
        let fill = if forced { rgb555(0x7FFF) } else { backdrop };
        let mut x: usize = 0;
        while x < WIDTH
            invariant
                base == y * WIDTH,
                y < HEIGHT,
                self.wf(),
                x <= WIDTH,
                forall|j: int| 0 <= j < x ==> #[trigger] self.framebuffer@[base + j] == fill,
                forall|i: int| 0 <= i < WIDTH * HEIGHT && !(base <= i < base + x)
                    ==> #[trigger] self.framebuffer@[i] == old(self).framebuffer@[i],
            decreases WIDTH - x,
        {
            self.framebuffer.set(base + x, fill);
            x = x + 1;
        }
        if forced {
            return;  // forced blank: white
        }
        assert(row_composed(self.framebuffer@, base as int, 20, y, io@, palette@, vram@, oam@, *bg_ref));

        // Sprite line buffer: (color, priority, opaque) per pixel, drawn
        // first into a side buffer honoring OAM order.
        let mut color: Vec<u32> = Vec::new();
        let mut prio: Vec<u8> = Vec::new();
        let mut opaque: Vec<bool> = Vec::new();
        let mut k: usize = 0;
        while k < WIDTH
            invariant
                k <= WIDTH,
                color@.len() == k,
                prio@.len() == k,
                opaque@.len() == k,
                forall|j: int| 0 <= j < k ==> !opaque@[j],
            decreases WIDTH - k,
        {
            color.push(0);
            prio.push(255);
            opaque.push(false);
            k = k + 1;
        }
        let objs = dispcnt & 0x1000 != 0;
        if objs {
            render_sprites(y, dispcnt, palette, vram, oam, &mut color, &mut prio, &mut opaque);
        }

        // Compose: priorities 3 (back) to 0 (front); BGs 3..0 then sprites.
        let mut p: u32 = 4;
        while p > 0
            invariant
                p <= 4,
                base == y * WIDTH,
                y < HEIGHT,
                self.wf(),
                video_inputs(io@, palette@, vram@, oam@),
                shown_refs_bounded(io@, *bg_ref),
                dispcnt == reg(io@, 0),
                mode == dispcnt & 7,
                objs == (dispcnt & 0x1000 != 0),
                obj_bufs_ok(color@, prio@, opaque@),
                objs ==> forall|x: int| 0 <= x < WIDTH ==> obj_line_holds(color@, prio@, opaque@, x,
                    #[trigger] sprites_from(0, y, x, dispcnt, palette@, vram@, oam@)),
                row_composed(self.framebuffer@, base as int, 5 * p as int, y, io@, palette@, vram@, oam@, *bg_ref),
                forall|i: int| 0 <= i < WIDTH * HEIGHT && !(base <= i < base + WIDTH)
                    ==> #[trigger] self.framebuffer@[i] == old(self).framebuffer@[i],
            decreases p,
        {
            p = p - 1;
            let mut bg: u32 = 4;
            while bg > 0
                invariant
                    p < 4,
                    bg <= 4,
                    base == y * WIDTH,
                    y < HEIGHT,
                    self.wf(),
                    video_inputs(io@, palette@, vram@, oam@),
                    shown_refs_bounded(io@, *bg_ref),
                    dispcnt == reg(io@, 0),
                    mode == dispcnt & 7,
                    row_composed(self.framebuffer@, base as int, 5 * p + 1 + bg, y, io@, palette@, vram@, oam@, *bg_ref),
                    forall|i: int| 0 <= i < WIDTH * HEIGHT && !(base <= i < base + WIDTH)
                        ==> #[trigger] self.framebuffer@[i] == old(self).framebuffer@[i],
                decreases bg,
            {
                bg = bg - 1;
                let bgcnt = io16(io, 8 + bg as usize * 2);
                let ghost prev = self.framebuffer@;
                let ghost kk = 5 * p + 1 + bg;
                if dispcnt & (1 << (8 + bg)) != 0 && bgcnt & 3 == p {
                    draw_bg_layer(mode, bg, y, dispcnt, io, palette, vram, &mut self.framebuffer, base, bg_ref);
                    proof {
                        assert forall|x: int| 0 <= x < WIDTH implies #[trigger] self.framebuffer@[base + x]
                            == composed(kk, y, x, io@, palette@, vram@, oam@, *bg_ref) by {
                            assert(prev[base + x] == composed(kk + 1, y, x, io@, palette@, vram@, oam@, *bg_ref));
                            assert(kk / 5 == p && kk % 5 == bg + 1);
                            assert(layer_pixel(kk, y, x, io@, palette@, vram@, oam@, *bg_ref)
                                == bg_layer(mode, bg, y, x, dispcnt, io@, palette@, vram@, *bg_ref));
                        }
                    }
                } else {
                    proof {
                        assert forall|x: int| 0 <= x < WIDTH implies #[trigger] self.framebuffer@[base + x]
                            == composed(kk, y, x, io@, palette@, vram@, oam@, *bg_ref) by {
                            assert(prev[base + x] == composed(kk + 1, y, x, io@, palette@, vram@, oam@, *bg_ref));
                            assert(kk / 5 == p && kk % 5 == bg + 1);
                            assert(layer_pixel(kk, y, x, io@, palette@, vram@, oam@, *bg_ref) is None);
                        }
                    }
                }
            }
            // Sprites of this priority go over the backgrounds of it.
            let ghost prev = self.framebuffer@;
            let mut x: usize = 0;
            while x < WIDTH
                invariant
                    p < 4,
                    x <= WIDTH,
                    base == y * WIDTH,
                    y < HEIGHT,
                    self.wf(),
                    dispcnt == reg(io@, 0),
                    objs == (dispcnt & 0x1000 != 0),
                    obj_bufs_ok(color@, prio@, opaque@),
                    objs ==> forall|x: int| 0 <= x < WIDTH ==> obj_line_holds(color@, prio@, opaque@, x,
                        #[trigger] sprites_from(0, y, x, dispcnt, palette@, vram@, oam@)),
                    row_composed(prev, base as int, 5 * p + 1, y, io@, palette@, vram@, oam@, *bg_ref),
                    prev.len() == WIDTH * HEIGHT,
                    forall|j: int| 0 <= j < x ==> #[trigger] self.framebuffer@[base + j]
                        == composed(5 * p, y, j, io@, palette@, vram@, oam@, *bg_ref),
                    forall|i: int| 0 <= i < WIDTH * HEIGHT && !(base <= i < base + x)
                        ==> #[trigger] self.framebuffer@[i] == prev[i],
                decreases WIDTH - x,
            {
                proof {
                    let kk = 5 * p;
                    assert(kk / 5 == p && kk % 5 == 0);
                    assert(prev[base + x] == composed(kk + 1, y, x as int, io@, palette@, vram@, oam@, *bg_ref));
                    if objs {
                        assert(obj_line_holds(color@, prio@, opaque@, x as int, sprites_from(0, y, x as int, dispcnt, palette@, vram@, oam@)));
                    }
                }
                if objs && opaque[x] && prio[x] as u32 == p {
                    self.framebuffer.set(base + x, color[x]);
                }
                x = x + 1;
            }
        }
    }
}

} // verus!
