use vstd::prelude::*;
use crate::framebuffer::{col_of, in_rect, row_of, Framebuffer};
use crate::grid::{GridMap, UNITS_PER_CELL};
use crate::player::Player;
use crate::render::{column_segment, column_shows, ScreenSegment};
use vstd::string::StringSliceAdditionalSpecFns;

verus! {

/// Background colour of the overhead map.
pub const COLOR_FLOOR: u32 = 0xADD8E6;

/// Wall colour of the overhead map.
pub const COLOR_WALL: u32 = 0x000000;

pub open spec fn tile_color(m: GridMap, x: int, y: int, wall: u32, floor: u32) -> u32 {
    if m.wall(x, y) {
        wall
    } else {
        floor
    }
}

/// Whether pixel `(px, py)` falls in the tile area of a map drawn with `cw` by `ch`
/// pixel tiles from `(x0, y0)`.
pub open spec fn on_tile(m: GridMap, x0: int, y0: int, cw: int, ch: int, px: int, py: int) -> bool {
    &&& cw >= 1 && ch >= 1
    &&& px >= x0 && py >= y0
    &&& (px - x0) / cw < m.width && (py - y0) / ch < m.height
}

/// The 5 by 5 glyph `index` packed in a word: row `r`, column `c` is bit
/// `24 - 5 r - c`. Glyphs 0 to 9 are the digits, then come F, P and S; an index
/// past the last glyph is blank.
pub open spec fn font_glyph(index: int) -> u32 {
    if index == 0 {
        0xe8c62e
    } else if index == 1 {
        0x46108e
    } else if index == 2 {
        0xe8991f
    } else if index == 3 {
        0xe89a2e
    } else if index == 4 {
        0x232be2
    } else if index == 5 {
        0x1f8783e
    } else if index == 6 {
        0xe87a2e
    } else if index == 7 {
        0x1f11110
    } else if index == 8 {
        0xe8ba2e
    } else if index == 9 {
        0xe8bc2e
    } else if index == 10 {
        0x1f87a10
    } else if index == 11 {
        0x1e8fa10
    } else if index == 12 {
        0xf8383e
    } else {
        0
    }
}

/// Whether glyph `index` lights its pixel in row `row`, column `col`.
pub open spec fn glyph_bit(index: int, row: int, col: int) -> bool {
    (font_glyph(index) >> ((24 - 5 * row - col) as u32)) & 1u32 == 1u32
}

/// Whether glyph `index`, drawn with its top left corner at `(x, y)`, lights pixel
/// `(px, py)`.
pub open spec fn digit_covers(index: int, x: int, y: int, px: int, py: int) -> bool {
    x <= px < x + 5 && y <= py < y + 5 && glyph_bit(index, py - y, px - x)
}

/// The packed glyph `index`.
fn glyph(index: usize) -> (r: u32)
    ensures
        r == font_glyph(index as int),
{
    match index {
        0 => 0xe8c62e,
        1 => 0x46108e,
        2 => 0xe8991f,
        3 => 0xe89a2e,
        4 => 0x232be2,
        5 => 0x1f8783e,
        6 => 0xe87a2e,
        7 => 0x1f11110,
        8 => 0xe8ba2e,
        9 => 0xe8bc2e,
        10 => 0x1f87a10,
        11 => 0x1e8fa10,
        12 => 0xf8383e,
        _ => 0,
    }
}

/// `k` is the quotient of `p` by `c` exactly when `p` lies in `[k c, k c + c)`.
pub proof fn lemma_div_band(p: int, c: int, k: int)
    requires
        p >= 0,
        c >= 1,
    ensures
        (k * c <= p < k * c + c) == (p / c == k),
{
    vstd::arithmetic::div_mod::lemma_fundamental_div_mod(p, c);
    vstd::arithmetic::div_mod::lemma_mod_bound(p, c);
    if k * c <= p < k * c + c {
        assert(c * k == k * c) by (nonlinear_arith);
        vstd::arithmetic::div_mod::lemma_fundamental_div_mod_converse(p, c, k, p - k * c);
    }
    if p / c == k {
        assert(c * k == k * c) by (nonlinear_arith);
    }
}

/// Draws the map from above with `cw` by `ch` pixel tiles from `(x0, y0)`, each in
/// the `wall` or the `floor` colour.
pub fn draw_tiles(
    map: &GridMap,
    framebuffer: &mut Framebuffer,
    x0: usize,
    y0: usize,
    cw: usize,
    ch: usize,
    wall: u32,
    floor: u32,
)
    requires
        map.wf(),
        old(framebuffer).wf(),
        1 <= cw <= 4096,
        1 <= ch <= 4096,
        x0 <= 16777216,
        y0 <= 16777216,
    ensures
        final(framebuffer).wf(),
        final(framebuffer).width == old(framebuffer).width,
        final(framebuffer).height == old(framebuffer).height,
        ({
            let w = old(framebuffer).width as int;
            forall|i: int|
                0 <= i < final(framebuffer).buffer@.len() ==> #[trigger] final(framebuffer).buffer@[i]
                    == if on_tile(*map, x0 as int, y0 as int, cw as int, ch as int, col_of(i, w), row_of(i, w)) {
                    tile_color(*map, (col_of(i, w) - x0) / (cw as int), (row_of(i, w) - y0) / (ch as int), wall, floor)
                } else {
                    old(framebuffer).buffer@[i]
                }
        }),
{
    let ghost w = framebuffer.width as int;
    let ghost start = framebuffer.buffer@;
    assert(map.width * cw <= 1024 * 4096 && map.height * ch <= 1024 * 4096) by (nonlinear_arith)
        requires
            map.width <= 1024,
            map.height <= 1024,
            cw <= 4096,
            ch <= 4096,
    ;
    let mut y: usize = 0;
    while y < map.height
        invariant
            map.wf(),
            framebuffer.wf(),
            framebuffer.width == old(framebuffer).width,
            framebuffer.height == old(framebuffer).height,
            start == old(framebuffer).buffer@,
            w == framebuffer.width,
            1 <= cw <= 4096,
            1 <= ch <= 4096,
            x0 <= 16777216,
            y0 <= 16777216,
            map.width * cw <= 1024 * 4096,
            map.height * ch <= 1024 * 4096,
            y <= map.height,
            forall|i: int|
                0 <= i < framebuffer.buffer@.len() ==> #[trigger] framebuffer.buffer@[i] == if on_tile(*map, x0 as int, y0 as int, cw as int, ch as int, col_of(i, w), row_of(i, w))
                    && (row_of(i, w) - y0) / (ch as int) < y {
                    tile_color(*map, (col_of(i, w) - x0) / (cw as int), (row_of(i, w) - y0) / (ch as int), wall, floor)
                } else {
                    start[i]
                },
        decreases map.height - y,
    {
        let mut x: usize = 0;
        while x < map.width
            invariant
                map.wf(),
                framebuffer.wf(),
                framebuffer.width == old(framebuffer).width,
                framebuffer.height == old(framebuffer).height,
                start == old(framebuffer).buffer@,
                w == framebuffer.width,
                1 <= cw <= 4096,
                1 <= ch <= 4096,
                x0 <= 16777216,
                y0 <= 16777216,
                map.width * cw <= 1024 * 4096,
                map.height * ch <= 1024 * 4096,
                y < map.height,
                x <= map.width,
                forall|i: int|
                    0 <= i < framebuffer.buffer@.len() ==> #[trigger] framebuffer.buffer@[i] == if on_tile(*map, x0 as int, y0 as int, cw as int, ch as int, col_of(i, w), row_of(i, w))
                        && ((row_of(i, w) - y0) / (ch as int) < y || ((row_of(i, w) - y0) / (ch as int) == y && (col_of(i, w) - x0) / (cw as int)
                        < x)) {
                        tile_color(*map, (col_of(i, w) - x0) / (cw as int), (row_of(i, w) - y0) / (ch as int), wall, floor)
                    } else {
                        start[i]
                    },
            decreases map.width - x,
        {
            let color = if map.cell(x, y) != 0 {
                wall
            } else {
                floor
            };
            assert(x * cw + cw <= map.width * cw) by (nonlinear_arith)
                requires
                    x < map.width,
            ;
            assert(y * ch + ch <= map.height * ch) by (nonlinear_arith)
                requires
                    y < map.height,
            ;
            let ghost before = framebuffer.buffer@;
            framebuffer.fill_rect(x0 + x * cw, y0 + y * ch, cw, ch, color);
            proof {
                assert forall|i: int| 0 <= i < framebuffer.buffer@.len() implies #[trigger] framebuffer.buffer@[i] == if on_tile(*map, x0 as int, y0 as int, cw as int, ch as int, col_of(i, w), row_of(i, w))
                    && ((row_of(i, w) - y0) / (ch as int) < y || ((row_of(i, w) - y0) / (ch as int) == y && (col_of(i, w) - x0) / (cw as int)
                    < x + 1)) {
                    tile_color(*map, (col_of(i, w) - x0) / (cw as int), (row_of(i, w) - y0) / (ch as int), wall, floor)
                } else {
                    start[i]
                } by {
                    let px = col_of(i, w);
                    let py = row_of(i, w);
                    vstd::arithmetic::div_mod::lemma_mod_bound(i, w);
                    vstd::arithmetic::div_mod::lemma_div_pos_is_pos(i, w);
                    if px >= x0 && py >= y0 {
                        lemma_div_band(px - x0, cw as int, x as int);
                        lemma_div_band(py - y0, ch as int, y as int);
                    }
                    assert(before[i] == framebuffer.buffer@[i] || in_rect(px, py, x0 + x * cw, y0 + y * ch, cw as int, ch as int));
                }
            }
            x = x + 1;
        }
        y = y + 1;
    }
}

/// Draws the map from above, scaled to fill the framebuffer from its top left
/// corner: each cell becomes a tile of `width / map.width` by `height / map.height`
/// pixels, in the wall or the floor colour.
pub fn draw_2d_map(map: &GridMap, framebuffer: &mut Framebuffer)
    requires
        map.wf(),
        old(framebuffer).wf(),
    ensures
        final(framebuffer).wf(),
        final(framebuffer).width == old(framebuffer).width,
        final(framebuffer).height == old(framebuffer).height,
        ({
            let w = old(framebuffer).width as int;
            let cw = w / map.width as int;
            let ch = old(framebuffer).height as int / map.height as int;
            forall|i: int|
                0 <= i < final(framebuffer).buffer@.len() ==> #[trigger] final(framebuffer).buffer@[i]
                    == if on_tile(*map, 0, 0, cw, ch, col_of(i, w), row_of(i, w)) {
                    tile_color(*map, col_of(i, w) / cw, row_of(i, w) / ch, COLOR_WALL, COLOR_FLOOR)
                } else {
                    old(framebuffer).buffer@[i]
                }
        }),
{
    let cell_width = framebuffer.width / map.width;
    let cell_height = framebuffer.height / map.height;
    if cell_width == 0 || cell_height == 0 {
        return;
    }
    draw_tiles(map, framebuffer, 0, 0, cell_width, cell_height, COLOR_WALL, COLOR_FLOOR);
}

/// Pixels per cell on the minimap.
pub const MINIMAP_SCALE: usize = 4;

/// Pixels between the minimap and the bottom right corner of the screen.
pub const MINIMAP_MARGIN: usize = 10;

/// Wall colour of the minimap.
pub const MINIMAP_WALL: u32 = 0xFFFFFF;

/// Floor colour of the minimap.
pub const MINIMAP_FLOOR: u32 = 0x000000;

/// Colour of the player's mark on the minimap.
pub const MINIMAP_PLAYER: u32 = 0xFF0000;

/// Whether a minimap of `m` fits in the bottom right corner of the screen.
pub open spec fn minimap_fits(m: GridMap, fb: Framebuffer) -> bool {
    &&& fb.width >= m.width * MINIMAP_SCALE + MINIMAP_MARGIN
    &&& fb.height >= m.height * MINIMAP_SCALE + MINIMAP_MARGIN
}

/// Draws a small map, 4 pixels a cell, 10 pixels from the bottom right corner, with
/// the player as a 4 by 4 red square at its place on it.
pub fn draw_minimap(map: &GridMap, player: &Player, framebuffer: &mut Framebuffer)
    requires
        map.wf(),
        player.stands_in(*map),
        old(framebuffer).wf(),
        minimap_fits(*map, *old(framebuffer)),
    ensures
        final(framebuffer).wf(),
        final(framebuffer).width == old(framebuffer).width,
        final(framebuffer).height == old(framebuffer).height,
        ({
            let w = old(framebuffer).width as int;
            let sx = w - map.width * MINIMAP_SCALE - MINIMAP_MARGIN;
            let sy = old(framebuffer).height - map.height * MINIMAP_SCALE - MINIMAP_MARGIN;
            let mx = sx + player.x * MINIMAP_SCALE / UNITS_PER_CELL as int;
            let my = sy + player.y * MINIMAP_SCALE / UNITS_PER_CELL as int;
            forall|i: int|
                0 <= i < final(framebuffer).buffer@.len() ==> #[trigger] final(framebuffer).buffer@[i]
                    == if in_rect(col_of(i, w), row_of(i, w), mx, my, 4, 4) {
                    MINIMAP_PLAYER
                } else if on_tile(*map, sx, sy, 4, 4, col_of(i, w), row_of(i, w)) {
                    tile_color(*map, (col_of(i, w) - sx) / 4, (row_of(i, w) - sy) / 4, MINIMAP_WALL, MINIMAP_FLOOR)
                } else {
                    old(framebuffer).buffer@[i]
                }
        }),
{
    let start_x = framebuffer.width - map.width * MINIMAP_SCALE - MINIMAP_MARGIN;
    let start_y = framebuffer.height - map.height * MINIMAP_SCALE - MINIMAP_MARGIN;
    draw_tiles(map, framebuffer, start_x, start_y, MINIMAP_SCALE, MINIMAP_SCALE, MINIMAP_WALL, MINIMAP_FLOOR);
    assert(player.x < 1024 * 1024 && player.y < 1024 * 1024);
    let player_x = (player.x * MINIMAP_SCALE as u64 / UNITS_PER_CELL) as usize;
    let player_y = (player.y * MINIMAP_SCALE as u64 / UNITS_PER_CELL) as usize;
    framebuffer.fill_rect(start_x + player_x, start_y + player_y, MINIMAP_SCALE, MINIMAP_SCALE, MINIMAP_PLAYER);
}

/// Draws glyph `index` of the screen font with its top left corner at `(x, y)`;
/// an index past the last glyph draws nothing.
pub fn draw_digit(framebuffer: &mut Framebuffer, x: usize, y: usize, index: usize, color: u32)
    requires
        old(framebuffer).wf(),
        x + 5 <= usize::MAX,
        y + 5 <= usize::MAX,
    ensures
        final(framebuffer).wf(),
        final(framebuffer).width == old(framebuffer).width,
        final(framebuffer).height == old(framebuffer).height,
        ({
            let w = old(framebuffer).width as int;
            forall|i: int|
                0 <= i < final(framebuffer).buffer@.len() ==> #[trigger] final(framebuffer).buffer@[i]
                    == if digit_covers(index as int, x as int, y as int, col_of(i, w), row_of(i, w)) {
                    color
                } else {
                    old(framebuffer).buffer@[i]
                }
        }),
{
    let ghost w = framebuffer.width as int;
    let ghost start = framebuffer.buffer@;
    let word = glyph(index);
    let mut row: usize = 0;
    while row < 5
        invariant
            framebuffer.wf(),
            framebuffer.width == old(framebuffer).width,
            framebuffer.height == old(framebuffer).height,
            start == old(framebuffer).buffer@,
            w == framebuffer.width,
            word == font_glyph(index as int),
            x + 5 <= usize::MAX,
            y + 5 <= usize::MAX,
            row <= 5,
            forall|i: int|
                0 <= i < framebuffer.buffer@.len() ==> #[trigger] framebuffer.buffer@[i] == if digit_covers(index as int, x as int, y as int, col_of(i, w), row_of(i, w))
                    && row_of(i, w) < y + row {
                    color
                } else {
                    start[i]
                },
        decreases 5 - row,
    {
        let mut col: usize = 0;
        while col < 5
            invariant
                framebuffer.wf(),
                framebuffer.width == old(framebuffer).width,
                framebuffer.height == old(framebuffer).height,
                start == old(framebuffer).buffer@,
                w == framebuffer.width,
                word == font_glyph(index as int),
                x + 5 <= usize::MAX,
                y + 5 <= usize::MAX,
                row < 5,
                col <= 5,
                forall|i: int|
                    0 <= i < framebuffer.buffer@.len() ==> #[trigger] framebuffer.buffer@[i] == if digit_covers(index as int, x as int, y as int, col_of(i, w), row_of(i, w))
                        && (row_of(i, w) < y + row || (row_of(i, w) == y + row && col_of(i, w) < x + col)) {
                        color
                    } else {
                        start[i]
                    },
            decreases 5 - col,
        {
            let shift = (24 - 5 * row - col) as u32;
            if (word >> shift) & 1 == 1 {
                framebuffer.point(x + col, y + row, color);
            }
            col = col + 1;
        }
        row = row + 1;
    }
}

/// The glyph that byte `b` draws, or -1 for a byte the font does not have.
pub open spec fn glyph_index(b: u8) -> int {
    if 48 <= b <= 57 {
        b - 48
    } else if b == 70 {
        10
    } else if b == 80 {
        11
    } else if b == 83 {
        12
    } else {
        -1
    }
}

/// The glyphs a text draws, in order: one for each byte the font has.
pub open spec fn text_glyphs(b: Seq<u8>) -> Seq<int>
    decreases b.len(),
{
    if b.len() == 0 {
        Seq::empty()
    } else {
        let g = glyph_index(b.last());
        text_glyphs(b.drop_last()) + if g >= 0 {
            seq![g]
        } else {
            Seq::empty()
        }
    }
}

/// Whether text with glyphs `g`, drawn from `(x, y)` with a glyph every 6 pixels,
/// lights pixel `(px, py)`.
pub open spec fn text_covers(g: Seq<int>, x: int, y: int, px: int, py: int) -> bool {
    exists|k: int| 0 <= k < g.len() && #[trigger] digit_covers(g[k], x + 6 * k, y, px, py)
}

proof fn lemma_text_glyphs_len(b: Seq<u8>)
    ensures
        text_glyphs(b).len() <= b.len(),
    decreases b.len(),
{
    if b.len() > 0 {
        lemma_text_glyphs_len(b.drop_last());
    }
}

/// The glyphs of two texts joined are the glyphs of the first, then of the second.
pub proof fn lemma_text_glyphs_concat(a: Seq<u8>, b: Seq<u8>)
    ensures
        text_glyphs(a + b) == text_glyphs(a) + text_glyphs(b),
    decreases b.len(),
{
    if b.len() == 0 {
        assert(a + b =~= a);
        assert(text_glyphs(a) + text_glyphs(b) =~= text_glyphs(a));
    } else {
        assert((a + b).drop_last() =~= a + b.drop_last());
        assert((a + b).last() == b.last());
        lemma_text_glyphs_concat(a, b.drop_last());
        let g = glyph_index(b.last());
        let tail: Seq<int> = if g >= 0 {
            seq![g]
        } else {
            Seq::empty()
        };
        assert(text_glyphs(a) + text_glyphs(b.drop_last()) + tail =~= text_glyphs(a) + (text_glyphs(
            b.drop_last(),
        ) + tail));
    }
}

/// Drawing two texts joined lights the same pixels as drawing the first, then the
/// second from where the first one's glyphs end.
pub proof fn lemma_text_covers_concat(a: Seq<u8>, b: Seq<u8>, x: int, y: int, px: int, py: int)
    ensures
        text_covers(text_glyphs(a + b), x, y, px, py) == (text_covers(text_glyphs(a), x, y, px, py)
            || text_covers(text_glyphs(b), x + 6 * text_glyphs(a).len(), y, px, py)),
{
    lemma_text_glyphs_concat(a, b);
    let ga = text_glyphs(a);
    let gb = text_glyphs(b);
    let g = text_glyphs(a + b);
    let n = ga.len() as int;
    if text_covers(g, x, y, px, py) {
        let k = choose|k: int| 0 <= k < g.len() && #[trigger] digit_covers(g[k], x + 6 * k, y, px, py);
        if k < n {
            assert(digit_covers(ga[k], x + 6 * k, y, px, py));
        } else {
            assert(gb[k - n] == g[k]);
            assert(x + 6 * k == x + 6 * n + 6 * (k - n));
            assert(digit_covers(gb[k - n], x + 6 * n + 6 * (k - n), y, px, py));
        }
    }
    if text_covers(ga, x, y, px, py) {
        let k = choose|k: int| 0 <= k < ga.len() && #[trigger] digit_covers(ga[k], x + 6 * k, y, px, py);
        assert(g[k] == ga[k]);
        assert(digit_covers(g[k], x + 6 * k, y, px, py));
    }
    if text_covers(gb, x + 6 * n, y, px, py) {
        let k = choose|k: int| 0 <= k < gb.len() && #[trigger] digit_covers(gb[k], x + 6 * n + 6 * k, y, px, py);
        assert(g[n + k] == gb[k]);
        assert(x + 6 * (n + k) == x + 6 * n + 6 * k);
        assert(digit_covers(g[n + k], x + 6 * (n + k), y, px, py));
    }
}

/// Draws the digits and the letters F, P and S of `text` from `(x, y)` rightward,
/// one glyph every 6 pixels; other characters are skipped and take no room.
pub fn draw_text(framebuffer: &mut Framebuffer, x: usize, y: usize, text: &str, color: u32)
    requires
        old(framebuffer).wf(),
        x + 6 * text.spec_bytes().len() + 5 <= usize::MAX,
        y + 5 <= usize::MAX,
    ensures
        final(framebuffer).wf(),
        final(framebuffer).width == old(framebuffer).width,
        final(framebuffer).height == old(framebuffer).height,
        ({
            let w = old(framebuffer).width as int;
            forall|i: int|
                0 <= i < final(framebuffer).buffer@.len() ==> #[trigger] final(framebuffer).buffer@[i]
                    == if text_covers(text_glyphs(text.spec_bytes()), x as int, y as int, col_of(i, w), row_of(i, w)) {
                    color
                } else {
                    old(framebuffer).buffer@[i]
                }
        }),
{
    let ghost w = framebuffer.width as int;
    let ghost start = framebuffer.buffer@;
    let bytes = text.as_bytes();
    let mut x_offset: usize = 0;
    let mut j: usize = 0;
    while j < bytes.len()
        invariant
            framebuffer.wf(),
            framebuffer.width == old(framebuffer).width,
            framebuffer.height == old(framebuffer).height,
            start == old(framebuffer).buffer@,
            w == framebuffer.width,
            bytes@ == text.spec_bytes(),
            x + 6 * bytes@.len() + 5 <= usize::MAX,
            y + 5 <= usize::MAX,
            j <= bytes@.len(),
            x_offset == 6 * text_glyphs(bytes@.take(j as int)).len(),
            forall|i: int|
                0 <= i < framebuffer.buffer@.len() ==> #[trigger] framebuffer.buffer@[i] == if text_covers(text_glyphs(bytes@.take(j as int)), x as int, y as int, col_of(i, w), row_of(i, w)) {
                    color
                } else {
                    start[i]
                },
        decreases bytes@.len() - j,
    {
        let ghost g = text_glyphs(bytes@.take(j as int));
        let b = bytes[j];
        assert(bytes@.take(j + 1).drop_last() =~= bytes@.take(j as int));
        proof {
            lemma_text_glyphs_len(bytes@.take(j as int));
        }
        let index: usize = if b >= 48 && b <= 57 {
            (b - 48) as usize
        } else if b == 70 {
            10
        } else if b == 80 {
            11
        } else if b == 83 {
            12
        } else {
            j = j + 1;
            assert(text_glyphs(bytes@.take(j as int)) =~= g);
            continue;
        };
        let ghost before = framebuffer.buffer@;
        draw_digit(framebuffer, x + x_offset, y, index, color);
        let ghost g2 = text_glyphs(bytes@.take(j + 1));
        assert(g2 =~= g.push(index as int));
        proof {
            assert forall|i: int| 0 <= i < framebuffer.buffer@.len() implies #[trigger] framebuffer.buffer@[i] == if text_covers(g2, x as int, y as int, col_of(i, w), row_of(i, w)) {
                color
            } else {
                start[i]
            } by {
                let px = col_of(i, w);
                let py = row_of(i, w);
                if text_covers(g, x as int, y as int, px, py) {
                    let k = choose|k: int| 0 <= k < g.len() && #[trigger] digit_covers(g[k], x + 6 * k, y as int, px, py);
                    assert(g2[k] == g[k]);
                }
                if digit_covers(index as int, x + x_offset, y as int, px, py) {
                    assert(g2[g.len() as int] == index);
                    assert(digit_covers(g2[g.len() as int], x + 6 * g.len(), y as int, px, py));
                }
                if text_covers(g2, x as int, y as int, px, py) {
                    let k = choose|k: int| 0 <= k < g2.len() && #[trigger] digit_covers(g2[k], x + 6 * k, y as int, px, py);
                    if k < g.len() {
                        assert(g[k] == g2[k]);
                    }
                }
            }
        }
        x_offset = x_offset + 6;
        j = j + 1;
    }
    assert(bytes@.take(j as int) =~= bytes@);
}

/// Whether `after` is `before` with the wall segments `segs` drawn, one per column:
/// each segment of the columns of the screen that a player in map `m` sees.
pub open spec fn scene_drawn(
    m: GridMap,
    p: Player,
    before: Framebuffer,
    after: Framebuffer,
    segs: Seq<ScreenSegment>,
) -> bool {
    let w = before.width as int;
    &&& segs.len() == w
    &&& forall|c: int| 0 <= c < w ==> column_shows(m, p, w, before.height as int, c, #[trigger] segs[c])
    &&& forall|i: int|
        0 <= i < after.buffer@.len() ==> #[trigger] after.buffer@[i] == if segs[col_of(i, w)].start <= row_of(i, w)
            <= segs[col_of(i, w)].end {
            segs[col_of(i, w)].color
        } else {
            before.buffer@[i]
        }
}

/// Draws the first-person view: for every column, the vertical span of the wall
/// that the column's ray meets, shaded by the side it was entered from.
pub fn render_scene(map: &GridMap, player: &Player, framebuffer: &mut Framebuffer)
    requires
        map.wf(),
        player.stands_in(*map),
        old(framebuffer).wf(),
    ensures
        final(framebuffer).wf(),
        final(framebuffer).width == old(framebuffer).width,
        final(framebuffer).height == old(framebuffer).height,
        exists|segs: Seq<ScreenSegment>| scene_drawn(*map, *player, *old(framebuffer), *final(framebuffer), segs),
{
    let ghost w = framebuffer.width as int;
    let ghost start = framebuffer.buffer@;
    let ghost mut segs: Seq<ScreenSegment> = Seq::empty();
    let width = framebuffer.width;
    let height = framebuffer.height;
    let mut x: usize = 0;
    while x < width
        invariant
            map.wf(),
            player.stands_in(*map),
            framebuffer.wf(),
            framebuffer.width == old(framebuffer).width,
            framebuffer.height == old(framebuffer).height,
            start == old(framebuffer).buffer@,
            w == framebuffer.width,
            width == framebuffer.width,
            height == framebuffer.height,
            x <= width,
            segs.len() == x,
            forall|c: int| 0 <= c < x ==> column_shows(*map, *player, w, height as int, c, #[trigger] segs[c]),
            forall|i: int|
                0 <= i < framebuffer.buffer@.len() ==> #[trigger] framebuffer.buffer@[i] == if col_of(i, w) < x
                    && segs[col_of(i, w)].start <= row_of(i, w) <= segs[col_of(i, w)].end {
                    segs[col_of(i, w)].color
                } else {
                    start[i]
                },
        decreases width - x,
    {
        let seg = column_segment(map, player, width as u64, height as u64, x as u64);
        let ghost before = framebuffer.buffer@;
        let ghost old_segs = segs;
        framebuffer.fill_rect(x, seg.start as usize, 1, (seg.end - seg.start + 1) as usize, seg.color);
        proof {
            segs = segs.push(seg);
            assert forall|i: int| 0 <= i < framebuffer.buffer@.len() implies #[trigger] framebuffer.buffer@[i] == if col_of(i, w) < x + 1
                && segs[col_of(i, w)].start <= row_of(i, w) <= segs[col_of(i, w)].end {
                segs[col_of(i, w)].color
            } else {
                start[i]
            } by {
                vstd::arithmetic::div_mod::lemma_mod_bound(i, w);
                if col_of(i, w) < x {
                    assert(segs[col_of(i, w)] == old_segs[col_of(i, w)]);
                }
            }
            assert forall|c: int| 0 <= c < x + 1 implies column_shows(*map, *player, w, height as int, c, #[trigger] segs[c]) by {
                if c < x {
                    assert(segs[c] == old_segs[c]);
                }
            }
        }
        x = x + 1;
    }
    proof {
        assert forall|i: int| 0 <= i < framebuffer.buffer@.len() implies col_of(i, w) < x by {
            vstd::arithmetic::div_mod::lemma_mod_bound(i, w);
        }
        assert(scene_drawn(*map, *player, *old(framebuffer), *framebuffer, segs));
    }
}

} // verus!
