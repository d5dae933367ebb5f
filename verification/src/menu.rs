use vstd::prelude::*;
use crate::fb::{
    bit_clear, on_screen, is_lit, in_rect, in_block, bit_on, column_covers, columns_cover,
    lemma_bit_and_not, lemma_bit_or, lemma_bit_xor, lemma_all_ones, lemma_split_index,
    lemma_pixel_distinct,
};
use crate::font::{FONT, font_index, find_glyph};

verus! {

pub const W: isize = 128;
pub const H: isize = 128;
pub const LED_N: usize = 10;
pub const LED_PIN: u8 = 15;

/// Sets pixel `(x, y)` lit (its bit cleared) or dark (its bit set); a pixel
/// off the panel is ignored.
pub fn px(fb: &mut [u32; 512], x: isize, y: isize, lit: bool)
    ensures
        forall|a: int, b: int| on_screen(a, b) ==> #[trigger] is_lit(final(fb)@, a, b) == (
            if a == x && b == y { lit } else { is_lit(old(fb)@, a, b) }),
{
    if x < 0 || x >= W || y < 0 || y >= H {
        return;
    }
    let bn = (x + y * W) as usize;
    proof { lemma_split_index(bn); }
    let i = bn >> 5;
    let k = (bn & 31) as u32;
    let ghost old_fb = fb@;
    if lit {
        fb[i] = fb[i] & !(1u32 << k);
    } else {
        fb[i] = fb[i] | (1u32 << k);
    }
    assert forall|a: int, b: int| on_screen(a, b) implies #[trigger] is_lit(fb@, a, b) == (
        if a == x && b == y { lit } else { is_lit(old_fb, a, b) }) by {
        let bn2 = a + b * 128;
        if bn2 / 32 == i as int {
            if lit {
                lemma_bit_and_not(old_fb[i as int], k, (bn2 % 32) as u32);
            } else {
                lemma_bit_or(old_fb[i as int], k, (bn2 % 32) as u32);
            }
            if bn2 % 32 == k as int {
                lemma_pixel_distinct(x as int, y as int, a, b);
            }
        }
    }
}


/// Fills the buffer dark: every bit set.
pub fn clear(fb: &mut [u32; 512])
    ensures
        forall|i: int| 0 <= i < 512 ==> final(fb)@[i] == 0xFFFF_FFFFu32,
        forall|a: int, b: int| on_screen(a, b) ==> !#[trigger] is_lit(final(fb)@, a, b),
{
    let mut i: usize = 0;
    while i < 512
        invariant
            i <= 512,
            forall|j: int| 0 <= j < i ==> fb@[j] == 0xFFFF_FFFFu32,
        decreases 512 - i,
    {
        fb[i] = 0xFFFF_FFFF;
        i += 1;
    }
    assert forall|a: int, b: int| on_screen(a, b) implies !#[trigger] is_lit(fb@, a, b) by {
        lemma_all_ones(((a + b * 128) % 32) as u32);
    }
}

/// Toggles pixel `(x, y)`, which lies on the panel.
fn flip(fb: &mut [u32; 512], x: isize, y: isize)
    requires
        on_screen(x as int, y as int),
    ensures
        forall|a: int, b: int| on_screen(a, b) ==> #[trigger] is_lit(final(fb)@, a, b) == (
            if a == x && b == y { !is_lit(old(fb)@, a, b) } else { is_lit(old(fb)@, a, b) }),
{
    let bn = (x + y * W) as usize;
    proof { lemma_split_index(bn); }
    let i = bn >> 5;
    let k = (bn & 31) as u32;
    let ghost old_fb = fb@;
    fb[i] = fb[i] ^ (1u32 << k);
    assert forall|a: int, b: int| on_screen(a, b) implies #[trigger] is_lit(fb@, a, b) == (
        if a == x && b == y { !is_lit(old_fb, a, b) } else { is_lit(old_fb, a, b) }) by {
        let bn2 = a + b * 128;
        if bn2 / 32 == i as int {
            lemma_bit_xor(old_fb[i as int], k, (bn2 % 32) as u32);
            if bn2 % 32 == k as int {
                lemma_pixel_distinct(x as int, y as int, a, b);
            }
        }
    }
}

/// Inverts the rectangle `[x0, x1) x [y0, y1)`, clipped to the panel -- used
/// to highlight the selected menu row.
pub fn invert(fb: &mut [u32; 512], x0: isize, y0: isize, x1: isize, y1: isize)
    ensures
        forall|a: int, b: int| on_screen(a, b) ==> #[trigger] is_lit(final(fb)@, a, b) == (
            is_lit(old(fb)@, a, b) != in_rect(x0 as int, y0 as int, x1 as int, y1 as int, a, b)),
{
    let ghost start = fb@;
    let mut y = y0;
    while y < y1
        invariant
            y0 <= y,
            y <= y1 || y == y0,
            forall|a: int, b: int| on_screen(a, b) ==> #[trigger] is_lit(fb@, a, b) == (
                is_lit(start, a, b) != in_rect(x0 as int, y0 as int, x1 as int, y as int, a, b)),
        decreases y1 - y,
    {
        let ghost row_start = fb@;
        let mut x = x0;
        while x < x1
            invariant
                y0 <= y < y1,
                x0 <= x,
                x <= x1 || x == x0,
                forall|a: int, b: int| on_screen(a, b) ==> #[trigger] is_lit(fb@, a, b) == (
                    is_lit(row_start, a, b) != (b == y && x0 <= a < x)),
            decreases x1 - x,
        {
            if !(x < 0 || x >= W || y < 0 || y >= H) {
                flip(fb, x, y);
            }
            x += 1;
        }
        y += 1;
    }
}

/// Lights the `s` by `s` block whose top left corner is `(x, y)`, clipped to
/// the panel.
fn fill_block(fb: &mut [u32; 512], x: isize, y: isize, s: isize)
    requires
        s > 0 ==> x + s <= isize::MAX + 1 && y + s <= isize::MAX + 1,
    ensures
        forall|a: int, b: int| on_screen(a, b) ==> #[trigger] is_lit(final(fb)@, a, b) == (
            is_lit(old(fb)@, a, b) || in_block(x as int, y as int, s as int, a, b)),
{
    let ghost start = fb@;
    let mut dy: isize = 0;
    while dy < s
        invariant
            s > 0 ==> x + s <= isize::MAX + 1 && y + s <= isize::MAX + 1,
            0 <= dy,
            s > 0 ==> dy <= s,
            forall|a: int, b: int| on_screen(a, b) ==> #[trigger] is_lit(fb@, a, b) == (
                is_lit(start, a, b) || in_rect(x as int, y as int, x + s, y + dy, a, b)),
        decreases s - dy,
    {
        let ghost row_start = fb@;
        let mut dx: isize = 0;
        while dx < s
            invariant
                s > 0 ==> x + s <= isize::MAX + 1 && y + s <= isize::MAX + 1,
                0 <= dx <= s,
                0 <= dy < s,
                forall|a: int, b: int| on_screen(a, b) ==> #[trigger] is_lit(fb@, a, b) == (
                    is_lit(row_start, a, b) || (b == y + dy && x <= a < x + dx)),
            decreases s - dx,
        {
            px(fb, x + dx, y + dy, true);
            dx += 1;
        }
        dy += 1;
    }
}

/// The pixels that glyph `ch` covers, drawn `s` times over from `(x, y)`.
pub open spec fn glyph_covers(ch: char, x: int, y: int, s: int, a: int, b: int) -> bool {
    match font_index(ch) {
        Some(i) => columns_cover(FONT@[i]@, 5, x, y, s, a, b),
        None => false,
    }
}

/// Every coordinate that drawing a glyph at `(x, y)` scaled `s` computes fits in an `isize`.
pub open spec fn glyph_fits(x: int, y: int, s: int) -> bool {
    s <= 0 || (x + 5 * s <= isize::MAX + 1 && y + 7 * s <= isize::MAX + 1 && 7 * s <= isize::MAX)
}

/// Draws one 5x7 glyph, `scale` times over; a character without a glyph
/// draws nothing.
pub fn glyph(fb: &mut [u32; 512], ch: char, x: isize, y: isize, scale: isize)
    requires
        font_index(ch) is Some ==> glyph_fits(x as int, y as int, scale as int),
    ensures
        font_index(ch) is None || scale <= 0 ==> *final(fb) == *old(fb),
        forall|a: int, b: int| on_screen(a, b) ==> #[trigger] is_lit(final(fb)@, a, b) == (
            is_lit(old(fb)@, a, b) || glyph_covers(ch, x as int, y as int, scale as int, a, b)),
{
    let idx = match find_glyph(ch) {
        Some(i) => i,
        None => return,
    };
    let ghost start = fb@;
    let ghost cols_seq = FONT@[idx as int]@;
    let cols = &FONT[idx];
    if scale <= 0 {
        assert forall|a: int, b: int| on_screen(a, b) implies !columns_cover(cols_seq, 5, x as int, y as int, scale as int, a, b) by {
            lemma_empty_scale_columns(cols_seq, 5, x as int, y as int, scale as int, a, b);
        }
        return;
    }
    let mut cx: usize = 0;
    while cx < 5
        invariant
            cx <= 5,
            scale > 0,
            glyph_fits(x as int, y as int, scale as int),
            cols@ == cols_seq,
            forall|a: int, b: int| on_screen(a, b) ==> #[trigger] is_lit(fb@, a, b) == (
                is_lit(start, a, b) || columns_cover(cols_seq, cx as int, x as int, y as int, scale as int, a, b)),
        decreases 5 - cx,
    {
        let col = cols[cx];
        let ghost col_start = fb@;
        assert(0 <= cx * scale <= 4 * scale) by (nonlinear_arith)
            requires
                cx < 5,
                scale > 0,
        ;
        let bx = x + cx as isize * scale;
        let mut row: usize = 0;
        while row < 7
            invariant
                row <= 7,
                cx < 5,
                scale > 0,
                glyph_fits(x as int, y as int, scale as int),
                bx == x + cx * scale,
                forall|a: int, b: int| on_screen(a, b) ==> #[trigger] is_lit(fb@, a, b) == (
                    is_lit(col_start, a, b) || column_covers(col, row as int, bx as int, y as int, scale as int, a, b)),
            decreases 7 - row,
        {
            if (col >> row as u8) & 1 == 1 {
                assert(0 <= row * scale <= 6 * scale) by (nonlinear_arith)
                    requires
                        row < 7,
                        scale > 0,
                ;
                fill_block(fb, bx, y + row as isize * scale, scale);
            }
            row += 1;
        }
        cx += 1;
    }
}

/// The pixels that the first `n` characters of `s` cover, glyphs `6 scale`
/// apart going right from `(x, y)`.
pub open spec fn text_covers(s: Seq<char>, n: int, x: int, y: int, scale: int, a: int, b: int) -> bool
    decreases n,
{
    if n <= 0 {
        false
    } else {
        text_covers(s, n - 1, x, y, scale, a, b) || glyph_covers(
            s[n - 1],
            x + 6 * scale * (n - 1),
            y,
            scale,
            a,
            b,
        )
    }
}

/// Every coordinate that drawing `len` characters at `(x, y)` scaled `scale`
/// computes fits in an `isize`.
pub open spec fn text_fits(len: int, x: int, y: int, scale: int) -> bool {
    &&& isize::MIN <= 6 * scale <= isize::MAX
    &&& isize::MIN <= x + 6 * scale * len <= isize::MAX
    &&& scale > 0 ==> y + 7 * scale <= isize::MAX + 1 && 7 * scale <= isize::MAX
}

/// Draws the characters of `s` left to right from `(x, y)`, `6 scale` apart.
pub fn text(fb: &mut [u32; 512], s: &str, x: isize, y: isize, scale: isize)
    requires
        text_fits(s@.len() as int, x as int, y as int, scale as int),
    ensures
        forall|a: int, b: int| on_screen(a, b) ==> #[trigger] is_lit(final(fb)@, a, b) == (
            is_lit(old(fb)@, a, b) || text_covers(s@, s@.len() as int, x as int, y as int, scale as int, a, b)),
{
    broadcast use vstd::string::axiom_spec_iter;
    let ghost start = fb@;
    let ghost len = s@.len() as int;
    let mut cx = x;
    for ch in it: s.chars()
        invariant
            it.seq() == s@,
            len == s@.len(),
            text_fits(len, x as int, y as int, scale as int),
            0 <= it.index() <= len,
            cx == x + 6 * scale * it.index(),
            forall|a: int, b: int| on_screen(a, b) ==> #[trigger] is_lit(fb@, a, b) == (
                is_lit(start, a, b) || text_covers(s@, it.index(), x as int, y as int, scale as int, a, b)),
    {
        let ghost k = it.index();
        proof { lemma_text_step(len, k, x as int, y as int, scale as int); }
        glyph(fb, ch, cx, y, scale);
        cx += 6 * scale;
    }
}

proof fn lemma_text_step(len: int, k: int, x: int, y: int, s: int)
    requires
        text_fits(len, x, y, s),
        0 <= k < len,
        isize::MIN <= x <= isize::MAX,
    ensures
        glyph_fits(x + 6 * s * k, y, s),
        isize::MIN <= x + 6 * s * (k + 1) <= isize::MAX,
        x + 6 * s * k + 6 * s == x + 6 * s * (k + 1),
{
    assert(6 * s * (k + 1) == 6 * s * k + 6 * s) by (nonlinear_arith);
    if s > 0 {
        assert(0 <= 6 * s * k <= 6 * s * (len - 1)) by (nonlinear_arith)
            requires
                s > 0,
                0 <= k < len,
        ;
        assert(0 <= 6 * s * (k + 1) <= 6 * s * len) by (nonlinear_arith)
            requires
                s > 0,
                0 <= k < len,
        ;
        assert(6 * s * (len - 1) + 6 * s == 6 * s * len) by (nonlinear_arith);
    } else {
        assert(6 * s * len <= 6 * s * (k + 1) <= 0) by (nonlinear_arith)
            requires
                s <= 0,
                0 <= k < len,
        ;
    }
}

// ---------------------------------------------------------------------- LEDs

#[derive(Clone, Copy, PartialEq, Eq, Debug, Structural)]
pub enum LedMode {
    GameReactive,
    Rainbow,
    Chase,
    Blink,
    Sos,
    Random,
    Off,
}

/// The mode that `next` steps to from `m`.
pub open spec fn led_mode_after(m: LedMode) -> LedMode {
    match m {
        LedMode::GameReactive => LedMode::Rainbow,
        LedMode::Rainbow => LedMode::Chase,
        LedMode::Chase => LedMode::Blink,
        LedMode::Blink => LedMode::Sos,
        LedMode::Sos => LedMode::Random,
        LedMode::Random => LedMode::Off,
        LedMode::Off => LedMode::GameReactive,
    }
}

/// The menu label of `m`.
pub open spec fn led_mode_label(m: LedMode) -> Seq<char> {
    match m {
        LedMode::GameReactive => "LEDS: GAME"@,
        LedMode::Rainbow => "LEDS: RAINBOW"@,
        LedMode::Chase => "LEDS: CHASE"@,
        LedMode::Blink => "LEDS: BLINK"@,
        LedMode::Sos => "LEDS: SOS"@,
        LedMode::Random => "LEDS: RANDOM"@,
        LedMode::Off => "LEDS: OFF"@,
    }
}

impl LedMode {
    pub fn label(&self) -> (r: &'static str)
        ensures
            r@ == led_mode_label(*self),
    {
        match self {
            LedMode::GameReactive => "LEDS: GAME",
            LedMode::Rainbow => "LEDS: RAINBOW",
            LedMode::Chase => "LEDS: CHASE",
            LedMode::Blink => "LEDS: BLINK",
            LedMode::Sos => "LEDS: SOS",
            LedMode::Random => "LEDS: RANDOM",
            LedMode::Off => "LEDS: OFF",
        }
    }

    pub fn next(&self) -> (r: LedMode)
        ensures
            r == led_mode_after(*self),
    {
        match self {
            LedMode::GameReactive => LedMode::Rainbow,
            LedMode::Rainbow => LedMode::Chase,
            LedMode::Chase => LedMode::Blink,
            LedMode::Blink => LedMode::Sos,
            LedMode::Sos => LedMode::Random,
            LedMode::Random => LedMode::Off,
            LedMode::Off => LedMode::GameReactive,
        }
    }
}

/// Stepping through the LED modes seven times comes back to where it started,
/// and no fewer steps do.
pub proof fn law_led_mode_cycle(m: LedMode)
    ensures
        led_mode_after(led_mode_after(led_mode_after(led_mode_after(led_mode_after(led_mode_after(led_mode_after(m))))))) == m,
        led_mode_after(m) != m,
        led_mode_after(led_mode_after(m)) != m,
        led_mode_after(led_mode_after(led_mode_after(m))) != m,
        led_mode_after(led_mode_after(led_mode_after(led_mode_after(m)))) != m,
        led_mode_after(led_mode_after(led_mode_after(led_mode_after(led_mode_after(m))))) != m,
        led_mode_after(led_mode_after(led_mode_after(led_mode_after(led_mode_after(led_mode_after(m)))))) != m,
{
}

/// Integer HSV to RGB at full saturation: `h` picks one of six hue regions of
/// 43 steps, `v` is the brightness.
pub open spec fn hsv_spec(h: u8, v: u8) -> (u8, u8, u8) {
    let f = (h as int % 43) * 6;
    let t = (v as int * f / 255) as u8;
    let q = (v - t) as u8;
    let region = h / 43;
    if region == 0 {
        (v, t, 0)
    } else if region == 1 {
        (q, v, 0)
    } else if region == 2 {
        (0, v, t)
    } else if region == 3 {
        (0, q, v)
    } else if region == 4 {
        (t, 0, v)
    } else {
        (v, 0, q)
    }
}

/// Integer HSV -> RGB, value scaled down: these sit under your chin and run
/// from two AA cells.
pub fn hsv(h: u8, v: u8) -> (r: (u8, u8, u8))
    ensures
        r == hsv_spec(h, v),
        r.0 <= v && r.1 <= v && r.2 <= v,
        r.0 == v || r.1 == v || r.2 == v,
        r.0 == 0 || r.1 == 0 || r.2 == 0,
{
    let region = h / 43;
    let f = ((h as u16 % 43) * 6) as u8;
    assert(v as int * f as int <= 255 * 252) by (nonlinear_arith)
        requires
            f <= 252,
    ;
    assert(v as int * f as int / 255 <= v) by (nonlinear_arith)
        requires
            f <= 252,
    ;
    let q = v.saturating_sub((v as u16 * f as u16 / 255) as u8);
    let t = (v as u16 * f as u16 / 255) as u8;
    match region {
        0 => (v, t, 0),
        1 => (q, v, 0),
        2 => (0, v, t),
        3 => (0, q, v),
        4 => (t, 0, v),
        _ => (v, 0, q),
    }
}

/// The SOS timeline in frames: pairs of (length, lit).
const SOS_TIMELINE: [(u32, bool); 18] = [
    (3, true), (3, false), (3, true), (3, false), (3, true), (9, false),
    (9, true), (3, false), (9, true), (3, false), (9, true), (9, false),
    (3, true), (3, false), (3, true), (3, false), (3, true), (21, false),
];

/// Frame `p` of the 102-frame SOS cycle is lit: three 3-frame dots, three
/// 9-frame dashes, three dots, each followed by a dark gap of one unit, with
/// three units between letters and a 21-frame gap before the cycle repeats.
pub open spec fn sos_lit_at(p: int) -> bool {
    ||| 0 <= p < 3
    ||| 6 <= p < 9
    ||| 12 <= p < 15
    ||| 24 <= p < 33
    ||| 36 <= p < 45
    ||| 48 <= p < 57
    ||| 66 <= p < 69
    ||| 72 <= p < 75
    ||| 78 <= p < 81
}

/// The frame at which entry `k` of the SOS timeline starts.
spec fn sos_start(k: int) -> int
    decreases k,
{
    if k <= 0 {
        0
    } else {
        sos_start(k - 1) + SOS_TIMELINE@[k - 1].0
    }
}

proof fn lemma_sos_entry(k: int)
    requires
        0 <= k < 18,
    ensures
        sos_start(k + 1) == sos_start(k) + SOS_TIMELINE@[k].0,
        forall|p: int| sos_start(k) <= p < sos_start(k + 1) ==> sos_lit_at(p) == SOS_TIMELINE@[k].1,
{
    reveal_with_fuel(sos_start, 19);
    if k == 0 {} else if k == 1 {} else if k == 2 {} else if k == 3 {} else if k == 4 {}
    else if k == 5 {} else if k == 6 {} else if k == 7 {} else if k == 8 {} else if k == 9 {}
    else if k == 10 {} else if k == 11 {} else if k == 12 {} else if k == 13 {} else if k == 14 {}
    else if k == 15 {} else if k == 16 {} else {}
}

/// The colour wheel: the hue runs round six regions of 43 steps, red to
/// yellow to green to cyan to blue to magenta, with the leading channel at
/// full value `v` and the trailing one dark; each region starts on its pure
/// colour.
pub proof fn law_hsv_wheel(h: u8, v: u8)
    ensures
        h < 43 ==> hsv_spec(h, v).0 == v && hsv_spec(h, v).2 == 0,
        43 <= h < 86 ==> hsv_spec(h, v).1 == v && hsv_spec(h, v).2 == 0,
        86 <= h < 129 ==> hsv_spec(h, v).1 == v && hsv_spec(h, v).0 == 0,
        129 <= h < 172 ==> hsv_spec(h, v).2 == v && hsv_spec(h, v).0 == 0,
        172 <= h < 215 ==> hsv_spec(h, v).2 == v && hsv_spec(h, v).1 == 0,
        215 <= h ==> hsv_spec(h, v).0 == v && hsv_spec(h, v).1 == 0,
        hsv_spec(0, v) == (v, 0u8, 0u8),
        hsv_spec(43, v) == (v, v, 0u8),
        hsv_spec(86, v) == (0u8, v, 0u8),
        hsv_spec(129, v) == (0u8, v, v),
        hsv_spec(172, v) == (0u8, 0u8, v),
        hsv_spec(215, v) == (v, 0u8, v),
        hsv_spec(h, v).0 <= v && hsv_spec(h, v).1 <= v && hsv_spec(h, v).2 <= v,
{
    let f = (h as int % 43) * 6;
    assert(v as int * f / 255 <= v) by (nonlinear_arith)
        requires
            0 <= f <= 252,
            0 <= v <= 255,
    ;
    assert(v as int * 0 / 255 == 0);
    assert(0u8 % 43 == 0 && 43u8 % 43 == 0 && 86u8 % 43 == 0 && 129u8 % 43 == 0 && 172u8 % 43 == 0 && 215u8 % 43 == 0);
}

/// In the game-reactive mode the whole strip shows one colour: orange after
/// a hit, else the wheel's colour at half the frame count, at value 30 (one
/// channel at 30, none above). RAINBOW runs at value 60.
pub proof fn law_game_reactive_and_rainbow(t: u32, f: bool, i: int, j: int)
    ensures
        led_pixel(LedMode::GameReactive, t, true, i) == (255u8, 40u8, 0u8),
        led_pixel(LedMode::GameReactive, t, false, i) == hsv_spec((t / 2) as u8, 30),
        led_pixel(LedMode::GameReactive, t, f, i) == led_pixel(LedMode::GameReactive, t, f, j),
        ({
            let c = led_pixel(LedMode::GameReactive, t, false, i);
            (c.0 == 30 || c.1 == 30 || c.2 == 30) && c.0 <= 30 && c.1 <= 30 && c.2 <= 30
        }),
        ({
            let c = led_pixel(LedMode::Rainbow, t, f, i);
            (c.0 == 60 || c.1 == 60 || c.2 == 60) && c.0 <= 60 && c.1 <= 60 && c.2 <= 60
        }),
{
    law_hsv_wheel((t / 2) as u8, 30);
    law_hsv_wheel((t * 2 + i * 25) as u8, 60);
}

/// SOS in morse: 3 short, 3 long, 3 short, then a gap. `t` counts frames.
pub fn sos_on(t: u32) -> (r: bool)
    ensures
        r == sos_lit_at(t as int % 102),
{
    let seq = SOS_TIMELINE;
    let mut total: u32 = 0;
    let mut k: usize = 0;
    while k < 18
        invariant
            k <= 18,
            seq@ == SOS_TIMELINE@,
            total == sos_start(k as int),
            total <= 102,
        decreases 18 - k,
    {
        proof {
            lemma_sos_entry(k as int);
            reveal_with_fuel(sos_start, 19);
        }
        total = total + seq[k].0;
        k += 1;
    }
    proof {
        reveal_with_fuel(sos_start, 19);
        assert(sos_start(18) == 102);
    }
    let ghost p = t as int % 102;
    let mut pos = t % total;
    let mut k: usize = 0;
    while k < 18
        invariant
            k <= 18,
            seq@ == SOS_TIMELINE@,
            total == 102,
            p == t as int % 102,
            sos_start(k as int) <= p,
            pos == p - sos_start(k as int),
        decreases 18 - k,
    {
        proof { lemma_sos_entry(k as int); }
        let (d, on) = seq[k];
        if pos < d {
            return on;
        }
        pos -= d;
        k += 1;
    }
    proof { reveal_with_fuel(sos_start, 19); }
    false
}

/// SOS in units of 3 frames over its 34-unit cycle: three one-unit dots at
/// units 0, 2 and 4, three three-unit dashes from units 8, 12 and 16, three
/// dots at 22, 24 and 26, one dark unit between the symbols of a letter,
/// three between letters and seven before the cycle repeats; every frame of
/// a unit shows the same.
pub proof fn law_sos_units(p: int)
    requires
        0 <= p < 102,
    ensures
        sos_lit_at(p) == {
            let u = p / 3;
            ||| u == 0 || u == 2 || u == 4
            ||| 8 <= u < 11 || 12 <= u < 15 || 16 <= u < 19
            ||| u == 22 || u == 24 || u == 26
        },
        sos_lit_at(p) == sos_lit_at(3 * (p / 3)),
{
}

/// Thirty-four-unit period: the SOS pattern repeats every 102 frames.
pub proof fn law_sos_period(t: int)
    requires
        0 <= t,
    ensures
        sos_lit_at((t + 102) % 102) == sos_lit_at(t % 102),
{
}

/// The integer hash behind the sparkle patterns.
pub open spec fn hash32_spec(x: u32) -> u32 {
    let x1 = x ^ (x >> 16u32);
    let x2 = x1.wrapping_mul(0x7feb_352d);
    let x3 = x2 ^ (x2 >> 15u32);
    let x4 = x3.wrapping_mul(0x846c_a68b);
    x4 ^ (x4 >> 16u32)
}

/// Cheap integer hash -- good enough for sparkle, and deterministic so the
/// pattern is a pure function of the frame counter.
fn hash32(x: u32) -> (r: u32)
    ensures
        r == hash32_spec(x),
{
    let mut x = x;
    x ^= x >> 16;
    x = x.wrapping_mul(0x7feb_352d);
    x ^= x >> 15;
    x = x.wrapping_mul(0x846c_a68b);
    x ^= x >> 16;
    x
}

/// The random draw that picks the scene shown around frame `t`; it changes
/// every 30 frames.
pub open spec fn scene_roll(t: u32) -> u32 {
    hash32_spec(t / 30)
}

/// The speed, 1 to 4, that the roll `r` gives the scene.
pub open spec fn scene_speed(r: u32) -> u32 {
    (1 + (r >> 16u32) % 4) as u32
}

/// The direction, 1 or -1, that the roll `r` gives the scene.
pub open spec fn scene_dir(r: u32) -> int {
    if (r >> 20u32) & 1 == 0 { 1 } else { -1 }
}

/// The wave scene's phase at frame `t` before the per-pixel offset, with the
/// frame counter read as a signed number.
pub open spec fn wave_phase(t: u32) -> int {
    (t as i32) * scene_dir(scene_roll(t)) * scene_speed(scene_roll(t))
}

/// Frame `t` of the RANDOM pattern computes without overflow: only the wave
/// scene multiplies the frame counter in `i32`.
pub open spec fn random_frame_ok(t: u32) -> bool {
    scene_roll(t) % 4 == 1 ==> {
        &&& i32::MIN <= (t as i32) * scene_dir(scene_roll(t)) <= i32::MAX
        &&& i32::MIN <= wave_phase(t)
        &&& wave_phase(t) + 225 <= i32::MAX
    }
}

/// Pixel `i` of the RANDOM pattern at frame `t`. The roll of the current
/// 30-frame epoch picks scene (low two bits), base hue (bits 8..16), speed and
/// direction. Scene 0 is sparkle: a dim base wash with bright pops wherever a
/// per-pixel hash is a multiple of 11; scene 1 is a wave of hue round the
/// strip; scene 2 strobes the whole strip; scene 3 twinkles each pixel on its
/// own 64-frame triangle cycle.
pub open spec fn random_pixel(t: u32, i: int) -> (u8, u8, u8) {
    let r = scene_roll(t);
    if r % 4 == 0 {
        sparkle_pixel(t, i)
    } else if r % 4 == 1 {
        wave_pixel(t, i)
    } else if r % 4 == 2 {
        strobe_pixel(t)
    } else {
        twinkle_pixel(t, i)
    }
}

/// Sparkle: pixel `i` pops bright when its hash for frame `t` is a multiple
/// of 11, else shows the dim base hue.
pub open spec fn sparkle_pixel(t: u32, i: int) -> (u8, u8, u8) {
    let h = hash32_spec(t.wrapping_mul(31).wrapping_add(i as u32));
    if h % 11 == 0 {
        hsv_spec((h >> 8u32) as u8, 140)
    } else {
        hsv_spec((scene_roll(t) >> 8u32) as u8, 18)
    }
}

/// Wave: a hue gradient 25 steps per pixel, moving with the frame.
pub open spec fn wave_pixel(t: u32, i: int) -> (u8, u8, u8) {
    let base = (scene_roll(t) >> 8u32) as u8;
    hsv_spec((base as i32).wrapping_add((wave_phase(t) + i * 25) as i32) as u8, 70)
}

/// Strobe: the whole strip on in alternate periods of `6 - speed` frames.
pub open spec fn strobe_pixel(t: u32) -> (u8, u8, u8) {
    let r = scene_roll(t);
    if (t / (6 - scene_speed(r)) as u32) % 2 == 0 {
        hsv_spec((r >> 8u32) as u8, 120)
    } else {
        (0, 0, 0)
    }
}

/// Twinkle: pixel `i` follows its own 64-frame triangle of brightness.
pub open spec fn twinkle_pixel(t: u32, i: int) -> (u8, u8, u8) {
    let epoch = t / 30;
    let r = scene_roll(t);
    let off = hash32_spec(epoch.wrapping_add((i * 7) as u32)) % 64;
    let ph = t.wrapping_mul(scene_speed(r)).wrapping_add(off) % 64;
    let v = if ph < 32 { ph * 3 } else { (64 - ph) * 3 };
    hsv_spec(((r >> 8u32) as u8).wrapping_add((i * 12) as u8), if v < 110 { v as u8 } else { 110 })
}

/// RANDOM mode: re-rolls scene, palette and speed every few seconds so the
/// badge never looks like it is doing the same thing twice.
fn random_frame(t: u32) -> (s: [(u8, u8, u8); LED_N])
    requires
        random_frame_ok(t),
    ensures
        forall|i: int| 0 <= i < 10 ==> #[trigger] s@[i] == random_pixel(t, i),
{
    let epoch = t / 30;
    let r = hash32(epoch);
    let scene = r % 4;
    let base_hue = (r >> 8) as u8;
    let speed = 1 + ((r >> 16) % 4);
    let dir: i32 = if (r >> 20) & 1 == 0 { 1 } else { -1 };
    let mut s = [(0u8, 0u8, 0u8); LED_N];
    if scene == 0 {
        // sparkle: a couple of bright pops over a dim wash
        let (br, bg, bb) = hsv(base_hue, 18);
        let mut i: usize = 0;
        while i < LED_N
            invariant
                i <= 10,
                r == hash32_spec(epoch),
                epoch == t / 30,
                r % 4 == 0,
                base_hue == (r >> 8u32) as u8,
                (br, bg, bb) == hsv_spec(base_hue, 18),
                forall|j: int| 0 <= j < i ==> #[trigger] s@[j] == random_pixel(t, j),
            decreases 10 - i,
        {
            let h = hash32(t.wrapping_mul(31).wrapping_add(i as u32));
            if h % 11 == 0 {
                s[i] = hsv((h >> 8) as u8, 140);
            } else {
                s[i] = (br, bg, bb);
            }
            assert(s@[i as int] == sparkle_pixel(t, i as int));
            i += 1;
        }
    } else if scene == 1 {
        // wave: hue gradient rotating around the strip
        let ti = t as i32;
        assert(ti as int * dir as int == (t as i32) * scene_dir(scene_roll(t)));
        let td = ti * dir;
        let tds = td * speed as i32;
        assert(tds as int == wave_phase(t));
        let mut i: usize = 0;
        while i < LED_N
            invariant
                i <= 10,
                random_frame_ok(t),
                r == scene_roll(t),
                r % 4 == 1,
                base_hue == (r >> 8u32) as u8,
                speed == scene_speed(r),
                dir == scene_dir(r),
                tds == wave_phase(t),
                forall|j: int| 0 <= j < i ==> #[trigger] s@[j] == random_pixel(t, j),
            decreases 10 - i,
        {
            let phase = tds + (i as i32 * (256 / LED_N as i32));
            s[i] = hsv((base_hue as i32).wrapping_add(phase) as u8, 70);
            assert(s@[i as int] == wave_pixel(t, i as int));
            i += 1;
        }
    } else if scene == 2 {
        // strobe: whole strip pulses, rate from `speed`
        let div = if 6 - speed > 1 { 6 - speed } else { 1 };
        let on = (t / div) % 2 == 0;
        if on {
            let (r2, g2, b2) = hsv(base_hue, 120);
            s = [(r2, g2, b2); LED_N];
        }
    } else {
        // twinkle: independent slow cycles, offset per pixel
        let mut i: usize = 0;
        while i < LED_N
            invariant
                i <= 10,
                r == hash32_spec(epoch),
                epoch == t / 30,
                r % 4 == 3,
                base_hue == (r >> 8u32) as u8,
                speed == scene_speed(r),
                forall|j: int| 0 <= j < i ==> #[trigger] s@[j] == random_pixel(t, j),
            decreases 10 - i,
        {
            let off = hash32(epoch.wrapping_add(i as u32 * 7)) % 64;
            let ph = (t.wrapping_mul(speed).wrapping_add(off)) % 64;
            let v = if ph < 32 { ph * 3 } else { (64 - ph) * 3 } as u8;
            let (r2, g2, b2) = hsv(base_hue.wrapping_add((i as u32 * 12) as u8), if v < 110 { v } else { 110 });
            assert((r2, g2, b2) == twinkle_pixel(t, i as int));
            s[i] = (r2, g2, b2);
            i += 1;
        }
    }
    s
}

/// Frame `t` of `mode` computes without overflow.
pub open spec fn led_frame_ok(mode: LedMode, t: u32) -> bool {
    &&& mode == LedMode::Rainbow ==> t as int * 2 + 225 <= usize::MAX && t as int * 2 <= u32::MAX
    &&& mode == LedMode::Random ==> random_frame_ok(t)
}

/// The brightness of ring position `d` behind the CHASE head.
pub open spec fn chase_level(d: int) -> u8 {
    if d == 0 { 120 } else if d == 1 { 40 } else if d == 2 { 12 } else { 0 }
}

/// Pixel `i` of the strip at frame `t` in `mode`; `flash` marks a recent hit.
pub open spec fn led_pixel(mode: LedMode, t: u32, flash: bool, i: int) -> (u8, u8, u8) {
    match mode {
        LedMode::Off => (0, 0, 0),
        LedMode::GameReactive => if flash { (255, 40, 0) } else { hsv_spec((t / 2) as u8, 30) },
        LedMode::Rainbow => hsv_spec((t * 2 + i * 25) as u8, 60),
        LedMode::Chase => if i < 2 {
            (10, 10, 10)
        } else {
            let v = chase_level((i - 2 - (t / 2) as int % 8) % 8);
            (v, 0, v / 3)
        },
        LedMode::Blink => if (t / 5) % 2 == 0 { (90, 90, 90) } else { (0, 0, 0) },
        LedMode::Sos => if sos_lit_at(t as int % 102) { (160, 160, 160) } else { (0, 0, 0) },
        LedMode::Random => random_pixel(t, i),
    }
}

/// Build the 10-pixel strip for the current mode.
pub fn led_frame(mode: LedMode, t: u32, flash: bool) -> (s: [(u8, u8, u8); LED_N])
    requires
        led_frame_ok(mode, t),
    ensures
        forall|i: int| 0 <= i < 10 ==> #[trigger] s@[i] == led_pixel(mode, t, flash, i),
{
    let mut s = [(0u8, 0u8, 0u8); LED_N];
    match mode {
        LedMode::Off => {},
        LedMode::GameReactive => {
            if flash {
                s = [(255, 40, 0); LED_N];
            } else {
                let (r, g, b) = hsv((t / 2) as u8, 30);
                s = [(r, g, b); LED_N];
            }
        },
        LedMode::Rainbow => {
            let mut i: usize = 0;
            while i < LED_N
                invariant
                    i <= 10,
                    t as int * 2 + 225 <= usize::MAX,
                    t as int * 2 <= u32::MAX,
                    mode == LedMode::Rainbow,
                    forall|j: int| 0 <= j < i ==> #[trigger] s@[j] == led_pixel(mode, t, flash, j),
                decreases 10 - i,
            {
                let h = ((t * 2) as usize + i * (256 / LED_N)) as u8;
                s[i] = hsv(h, 60);
                i += 1;
            }
        },
        LedMode::Chase => {
            // eyes stay dim, a bright dot runs around the 8-LED ring
            let head = ((t / 2) as usize) % (LED_N - 2);
            s[0] = (10, 10, 10);
            s[1] = (10, 10, 10);
            let mut i: usize = 0;
            while i < LED_N - 2
                invariant
                    i <= 8,
                    head == (t / 2) as int % 8,
                    mode == LedMode::Chase,
                    forall|j: int| 0 <= j < i + 2 ==> #[trigger] s@[j] == led_pixel(mode, t, flash, j),
                decreases 8 - i,
            {
                let d = if i >= head { i - head } else { (LED_N - 2) - head + i };
                let v = match d {
                    0 => 120u8,
                    1 => 40,
                    2 => 12,
                    _ => 0,
                };
                s[i + 2] = (v, 0, v / 3);
                i += 1;
            }
        },
        LedMode::Blink => {
            let on = (t / 5) % 2 == 0;
            if on {
                s = [(90, 90, 90); LED_N];
            }
        },
        LedMode::Random => {
            s = random_frame(t);
        },
        LedMode::Sos => {
            if sos_on(t) {
                s = [(160, 160, 160); LED_N];
            }
        },
    }
    s
}

/// Builds the LED driver once. Without the BIO driver compiled in there is no
/// driver to build.
pub fn led_open() -> (r: Option<()>)
    ensures
        r is None,
{
    None
}

/// Pushes a strip to the LED driver; without the BIO driver compiled in this
/// does nothing.
pub fn led_push(_ws: &mut Option<()>, _strip: &[(u8, u8, u8); LED_N])
    ensures
        *final(_ws) == *old(_ws),
{
}

// ---------------------------------------------------------------------- menu

#[derive(Clone, Copy, PartialEq, Eq, Debug, Structural)]
pub enum Item {
    Resume,
    Game,
    Leds,
    Bright,
    Sleep,
}

pub const ITEMS: [Item; 5] = [Item::Resume, Item::Game, Item::Leds, Item::Bright, Item::Sleep];

#[derive(Clone, Copy, PartialEq, Eq, Debug, Structural)]
pub enum GameKind {
    Invaders,
    AirSea,
}

/// The menu label of `g`.
pub open spec fn game_kind_label(g: GameKind) -> Seq<char> {
    match g {
        GameKind::Invaders => "GAME: INVADERS"@,
        GameKind::AirSea => "GAME: AIR-SEA"@,
    }
}

/// The game that `next` switches to from `g`.
pub open spec fn game_kind_after(g: GameKind) -> GameKind {
    match g {
        GameKind::Invaders => GameKind::AirSea,
        GameKind::AirSea => GameKind::Invaders,
    }
}

impl GameKind {
    pub fn label(&self) -> (r: &'static str)
        ensures
            r@ == game_kind_label(*self),
    {
        match self {
            GameKind::Invaders => "GAME: INVADERS",
            GameKind::AirSea => "GAME: AIR-SEA",
        }
    }

    pub fn next(&self) -> (r: GameKind)
        ensures
            r == game_kind_after(*self),
            r != *self,
    {
        match self {
            GameKind::Invaders => GameKind::AirSea,
            GameKind::AirSea => GameKind::Invaders,
        }
    }
}

/// Switching the game twice comes back to the same game.
pub proof fn law_game_kind_toggle(g: GameKind)
    ensures
        game_kind_after(game_kind_after(g)) == g,
{
}

/// `bright` as a whole percentage of full scale, rounded down.
pub open spec fn bright_percent(bright: u8) -> int {
    bright as int * 100 / 255
}

/// The decimal digits of `n`, which is at most 100, without leading zeros.
pub open spec fn decimal(n: int) -> Seq<char> {
    if n >= 100 {
        seq!['1', '0', '0']
    } else if n >= 10 {
        seq![(48 + n / 10) as char, (48 + n % 10) as char]
    } else {
        seq![(48 + n) as char]
    }
}

/// The BRIGHT row's label, such as "BRIGHT: 78%".
pub open spec fn bright_label(bright: u8) -> Seq<char> {
    "BRIGHT: "@ + decimal(bright_percent(bright)) + "%"@
}

/// The label of menu row `k`.
pub open spec fn item_label(k: int, game: GameKind, leds: LedMode, bright: u8) -> Seq<char> {
    if k == 0 {
        "RESUME"@
    } else if k == 1 {
        game_kind_label(game)
    } else if k == 2 {
        led_mode_label(leds)
    } else if k == 3 {
        bright_label(bright)
    } else {
        "SLEEP"@
    }
}

/// The top edge of menu row `k`'s text.
pub open spec fn item_y(k: int) -> int {
    34 + 14 * k
}

/// The pixels that the first `n` menu rows light before highlighting: each
/// row's label at x = 16, and a '>' cursor at x = 6 on the selected row.
pub open spec fn items_cover(n: int, sel: int, game: GameKind, leds: LedMode, bright: u8, a: int, b: int) -> bool
    decreases n,
{
    if n <= 0 {
        false
    } else {
        let k = n - 1;
        let label = item_label(k, game, leds, bright);
        ||| items_cover(n - 1, sel, game, leds, bright, a, b)
        ||| text_covers(label, label.len() as int, 16, item_y(k), 1, a, b)
        ||| (k == sel && text_covers(">"@, 1, 6, item_y(k), 1, a, b))
    }
}

/// The pixels that the menu screen lights: the title, the rule under it, the
/// rows and the key hint at the foot, with the selected row's band inverted.
pub open spec fn menu_lit(sel: int, game: GameKind, leds: LedMode, bright: u8, a: int, b: int) -> bool {
    let lit = text_covers("DC34 BADGE"@, 10, 20, 6, 2, a, b) || (b == 24 && 6 <= a < 122)
        || items_cover(5, sel, game, leds, bright, a, b);
    let band = 0 <= sel < 5 && in_rect(4, item_y(sel) - 2, 124, item_y(sel) + 9, a, b);
    (lit != band) || text_covers("SEL:OPEN  FIRE:PICK"@, 19, 6, 116, 1, a, b)
}

/// Draws the characters `buf[..n]` as `text` draws a string.
fn text_buf(fb: &mut [u32; 512], buf: &[char; 12], n: usize, x: isize, y: isize, scale: isize)
    requires
        n <= 12,
        text_fits(n as int, x as int, y as int, scale as int),
    ensures
        forall|a: int, b: int| on_screen(a, b) ==> #[trigger] is_lit(final(fb)@, a, b) == (
            is_lit(old(fb)@, a, b) || text_covers(buf@.take(n as int), n as int, x as int, y as int, scale as int, a, b)),
{
    let ghost start = fb@;
    let ghost s = buf@.take(n as int);
    let mut cx = x;
    let mut k: usize = 0;
    while k < n
        invariant
            n <= 12,
            k <= n,
            s == buf@.take(n as int),
            text_fits(n as int, x as int, y as int, scale as int),
            cx == x + 6 * scale * k,
            forall|a: int, b: int| on_screen(a, b) ==> #[trigger] is_lit(fb@, a, b) == (
                is_lit(start, a, b) || text_covers(s, k as int, x as int, y as int, scale as int, a, b)),
        decreases n - k,
    {
        proof { lemma_text_step(n as int, k as int, x as int, y as int, scale as int); }
        glyph(fb, buf[k], cx, y, scale);
        cx += 6 * scale;
        k += 1;
    }
}

/// Writes the BRIGHT row's label into `buf`, returning its length.
fn bright_text(bright: u8, buf: &mut [char; 12]) -> (n: usize)
    ensures
        n <= 12,
        final(buf)@.take(n as int) == bright_label(bright),
{
    let pct = (bright as u16 * 100 / 255) as u8;
    proof {
        reveal_strlit("BRIGHT: ");
        reveal_strlit("%");
    }
    let s: [char; 8] = ['B', 'R', 'I', 'G', 'H', 'T', ':', ' '];
    let mut n: usize = 0;
    while n < 8
        invariant
            n <= 8,
            forall|j: int| 0 <= j < n ==> buf@[j] == s@[j],
        decreases 8 - n,
    {
        buf[n] = s[n];
        n += 1;
    }
    if pct >= 100 {
        buf[n] = '1';
        n += 1;
        buf[n] = '0';
        n += 1;
        buf[n] = '0';
        n += 1;
    } else {
        if pct >= 10 {
            buf[n] = char_digit(pct / 10);
            n += 1;
        }
        buf[n] = char_digit(pct % 10);
        n += 1;
    }
    buf[n] = '%';
    n += 1;
    assert(buf@.take(n as int) =~= bright_label(bright));
    n
}

/// The character of the decimal digit `d`.
fn char_digit(d: u8) -> (c: char)
    requires
        d < 10,
    ensures
        c == (48 + d) as char,
{
    match d {
        0 => '0',
        1 => '1',
        2 => '2',
        3 => '3',
        4 => '4',
        5 => '5',
        6 => '6',
        7 => '7',
        8 => '8',
        _ => '9',
    }
}

/// The menu screen: title, rule, the five rows with the selected one
/// highlighted, and the key hint at the foot.
pub fn draw_menu(fb: &mut [u32; 512], sel: usize, game: GameKind, leds: LedMode, bright: u8)
    ensures
        forall|a: int, b: int| on_screen(a, b) ==> #[trigger] is_lit(final(fb)@, a, b) == menu_lit(
            sel as int, game, leds, bright, a, b),
{
    proof {
        reveal_strlit("DC34 BADGE");
        reveal_strlit(">");
        reveal_strlit("SEL:OPEN  FIRE:PICK");
    }
    clear(fb);
    text(fb, "DC34 BADGE", 20, 6, 2);
    let ghost after_title = fb@;
    let mut x: isize = 6;
    while x < 122
        invariant
            6 <= x <= 122,
            forall|a: int, b: int| on_screen(a, b) ==> #[trigger] is_lit(fb@, a, b) == (
                is_lit(after_title, a, b) || (b == 24 && 6 <= a < x)),
        decreases 122 - x,
    {
        px(fb, x, 24, true);
        x += 1;
    }
    let mut y: isize = 34;
    let mut i: usize = 0;
    while i < 5
        invariant
            i <= 5,
            y == item_y(i as int),
            forall|a: int, b: int| on_screen(a, b) ==> #[trigger] is_lit(fb@, a, b) == ((
                text_covers("DC34 BADGE"@, 10, 20, 6, 2, a, b) || (b == 24 && 6 <= a < 122)
                || items_cover(i as int, sel as int, game, leds, bright, a, b)) != (sel < i
                && in_rect(4, item_y(sel as int) - 2, 124, item_y(sel as int) + 9, a, b))),
        decreases 5 - i,
    {
        proof {
            reveal_strlit(">");
            reveal_strlit("RESUME");
            reveal_strlit("SLEEP");
            reveal_strlit("GAME: INVADERS");
            reveal_strlit("GAME: AIR-SEA");
            reveal_strlit("LEDS: GAME");
            reveal_strlit("LEDS: RAINBOW");
            reveal_strlit("LEDS: CHASE");
            reveal_strlit("LEDS: BLINK");
            reveal_strlit("LEDS: SOS");
            reveal_strlit("LEDS: RANDOM");
            reveal_strlit("LEDS: OFF");
        }
        let ghost before = fb@;
        let it = ITEMS[i];
        if i == sel {
            text(fb, ">", 6, y, 1);
        }
        let ghost label = item_label(i as int, game, leds, bright);
        match it {
            Item::Bright => {
                let mut buf = [' '; 12];
                let n = bright_text(bright, &mut buf);
                text_buf(fb, &buf, n, 16, y, 1);
            },
            _ => {
                let l: &str = match it {
                    Item::Resume => "RESUME",
                    Item::Game => game.label(),
                    Item::Leds => leds.label(),
                    _ => "SLEEP",
                };
                assert(l@ == label);
                text(fb, l, 16, y, 1);
            },
        }
        let ghost after_text = fb@;
        assert forall|a: int, b: int| on_screen(a, b) implies #[trigger] is_lit(after_text, a, b) == (
            is_lit(before, a, b) || text_covers(label, label.len() as int, 16, y as int, 1, a, b)
            || (i == sel && text_covers(">"@, 1, 6, y as int, 1, a, b))) by {
        }
        if i == sel {
            invert(fb, 4, y - 2, 124, y + 9);
        }
        assert forall|a: int, b: int| on_screen(a, b) implies #[trigger] is_lit(fb@, a, b) == ((
            text_covers("DC34 BADGE"@, 10, 20, 6, 2, a, b) || (b == 24 && 6 <= a < 122)
            || items_cover(i + 1, sel as int, game, leds, bright, a, b)) != (sel < i + 1
            && in_rect(4, item_y(sel as int) - 2, 124, item_y(sel as int) + 9, a, b))) by {
            if text_covers(label, label.len() as int, 16, y as int, 1, a, b) {
                lemma_text_rows(label, label.len() as int, 16, y as int, 1, a, b);
            }
            if i == sel && text_covers(">"@, 1, 6, y as int, 1, a, b) {
                lemma_text_rows(">"@, 1, 6, y as int, 1, a, b);
            }
        }
        y += 14;
        i += 1;
    }
    let ghost before_foot = fb@;
    text(fb, "SEL:OPEN  FIRE:PICK", 6, 116, 1);
    assert forall|a: int, b: int| on_screen(a, b) implies #[trigger] is_lit(fb@, a, b) == menu_lit(
        sel as int, game, leds, bright, a, b) by {
        if text_covers("SEL:OPEN  FIRE:PICK"@, 19, 6, 116, 1, a, b) {
            lemma_text_rows("SEL:OPEN  FIRE:PICK"@, 19, 6, 116, 1, a, b);
        }
    }
}

/// The pixels lit after clearing the panel and drawing, in order, the title,
/// the rule under it, and the first `n` menu rows: each row draws the '>'
/// cursor if it is the selected one, then its label, then, if selected,
/// inverts its band.
pub open spec fn menu_drawn(n: int, sel: int, game: GameKind, leds: LedMode, bright: u8, a: int, b: int) -> bool
    decreases n,
{
    if n <= 0 {
        text_covers("DC34 BADGE"@, 10, 20, 6, 2, a, b) || (b == 24 && 6 <= a < 122)
    } else {
        let k = n - 1;
        let label = item_label(k, game, leds, bright);
        let drawn = menu_drawn(n - 1, sel, game, leds, bright, a, b)
            || (k == sel && text_covers(">"@, 1, 6, item_y(k), 1, a, b))
            || text_covers(label, label.len() as int, 16, item_y(k), 1, a, b);
        if k == sel {
            drawn != in_rect(4, item_y(k) - 2, 124, item_y(k) + 9, a, b)
        } else {
            drawn
        }
    }
}

proof fn lemma_menu_drawn(n: int, sel: int, game: GameKind, leds: LedMode, bright: u8, a: int, b: int)
    requires
        0 <= n <= 5,
    ensures
        menu_drawn(n, sel, game, leds, bright, a, b) == (
            (text_covers("DC34 BADGE"@, 10, 20, 6, 2, a, b) || (b == 24 && 6 <= a < 122)
                || items_cover(n, sel, game, leds, bright, a, b))
            != (0 <= sel < n && in_rect(4, item_y(sel) - 2, 124, item_y(sel) + 9, a, b))),
    decreases n,
{
    if n > 0 {
        lemma_menu_drawn(n - 1, sel, game, leds, bright, a, b);
        let k = n - 1;
        let label = item_label(k, game, leds, bright);
        if text_covers(label, label.len() as int, 16, item_y(k), 1, a, b) {
            lemma_text_rows(label, label.len() as int, 16, item_y(k), 1, a, b);
        }
        if text_covers(">"@, 1, 6, item_y(k), 1, a, b) {
            lemma_text_rows(">"@, 1, 6, item_y(k), 1, a, b);
        }
        if text_covers("DC34 BADGE"@, 10, 20, 6, 2, a, b) {
            lemma_text_rows("DC34 BADGE"@, 10, 20, 6, 2, a, b);
        }
        if items_cover(n - 1, sel, game, leds, bright, a, b) {
            lemma_items_rows(n - 1, sel, game, leds, bright, a, b);
        }
    }
}

proof fn lemma_items_rows(n: int, sel: int, game: GameKind, leds: LedMode, bright: u8, a: int, b: int)
    requires
        items_cover(n, sel, game, leds, bright, a, b),
    ensures
        34 <= b < item_y(n - 1) + 7,
    decreases n,
{
    if n > 0 {
        let k = n - 1;
        let label = item_label(k, game, leds, bright);
        if items_cover(n - 1, sel, game, leds, bright, a, b) {
            lemma_items_rows(n - 1, sel, game, leds, bright, a, b);
        } else if text_covers(label, label.len() as int, 16, item_y(k), 1, a, b) {
            lemma_text_rows(label, label.len() as int, 16, item_y(k), 1, a, b);
        } else {
            lemma_text_rows(">"@, 1, 6, item_y(k), 1, a, b);
        }
    }
}

/// The menu screen is what clearing the panel and then drawing its parts in
/// order lights: the title, the rule, the five rows (the selected one with
/// its cursor and its band inverted), and the key hint at the foot.
pub proof fn law_menu_drawn_in_order(sel: int, game: GameKind, leds: LedMode, bright: u8, a: int, b: int)
    ensures
        menu_lit(sel, game, leds, bright, a, b) == (menu_drawn(5, sel, game, leds, bright, a, b)
            || text_covers("SEL:OPEN  FIRE:PICK"@, 19, 6, 116, 1, a, b)),
{
    lemma_menu_drawn(5, sel, game, leds, bright, a, b);
}

/// A selection past the last row highlights nothing: every such selection
/// draws the same screen, and a row's selection only adds its cursor and
/// inverts its band.
pub proof fn law_menu_selection(s1: int, s2: int, sel: int, game: GameKind, leds: LedMode, bright: u8, a: int, b: int)
    requires
        s1 >= 5,
        s2 >= 5,
        0 <= sel < 5,
    ensures
        menu_lit(s1, game, leds, bright, a, b) == menu_lit(s2, game, leds, bright, a, b),
        menu_lit(sel, game, leds, bright, a, b) == (
            ((menu_lit(5, game, leds, bright, a, b) || text_covers(">"@, 1, 6, item_y(sel), 1, a, b))
                != in_rect(4, item_y(sel) - 2, 124, item_y(sel) + 9, a, b))
            || text_covers("SEL:OPEN  FIRE:PICK"@, 19, 6, 116, 1, a, b)),
{
    lemma_items_sel(5, s1, s2, game, leds, bright, a, b);
    lemma_items_cursor(5, sel, game, leds, bright, a, b);
    if text_covers("SEL:OPEN  FIRE:PICK"@, 19, 6, 116, 1, a, b) {
        lemma_text_rows("SEL:OPEN  FIRE:PICK"@, 19, 6, 116, 1, a, b);
    }
}

proof fn lemma_items_sel(n: int, s1: int, s2: int, game: GameKind, leds: LedMode, bright: u8, a: int, b: int)
    requires
        0 <= n <= 5,
        s1 >= n,
        s2 >= n,
    ensures
        items_cover(n, s1, game, leds, bright, a, b) == items_cover(n, s2, game, leds, bright, a, b),
    decreases n,
{
    if n > 0 {
        lemma_items_sel(n - 1, s1, s2, game, leds, bright, a, b);
    }
}

proof fn lemma_items_cursor(n: int, sel: int, game: GameKind, leds: LedMode, bright: u8, a: int, b: int)
    requires
        0 <= n <= 5,
        0 <= sel < 5,
    ensures
        items_cover(n, sel, game, leds, bright, a, b) == (items_cover(n, 5, game, leds, bright, a, b)
            || (sel < n && text_covers(">"@, 1, 6, item_y(sel), 1, a, b))),
    decreases n,
{
    if n > 0 {
        lemma_items_cursor(n - 1, sel, game, leds, bright, a, b);
    }
}

/// Text drawn at `y` with scale `s` stays in the rows `[y, y + 7 s)`.
pub proof fn lemma_text_rows(t: Seq<char>, n: int, x: int, y: int, s: int, a: int, b: int)
    requires
        text_covers(t, n, x, y, s, a, b),
    ensures
        s > 0 && y <= b < y + 7 * s,
    decreases n,
{
    if n > 0 {
        if text_covers(t, n - 1, x, y, s, a, b) {
            lemma_text_rows(t, n - 1, x, y, s, a, b);
        } else {
            let i = font_index(t[n - 1]).unwrap();
            lemma_columns_rows(FONT@[i]@, 5, x + 6 * s * (n - 1), y, s, a, b);
        }
    }
}

proof fn lemma_columns_rows(cols: Seq<u8>, n: int, x: int, y: int, s: int, a: int, b: int)
    requires
        columns_cover(cols, n, x, y, s, a, b),
    ensures
        s > 0 && y <= b < y + 7 * s,
    decreases n,
{
    if n > 0 {
        if columns_cover(cols, n - 1, x, y, s, a, b) {
            lemma_columns_rows(cols, n - 1, x, y, s, a, b);
        } else {
            lemma_column_rows(cols[n - 1], 7, x + (n - 1) * s, y, s, a, b);
        }
    }
}

proof fn lemma_column_rows(bits: u8, n: int, x: int, y: int, s: int, a: int, b: int)
    requires
        column_covers(bits, n, x, y, s, a, b),
        n <= 7,
    ensures
        s > 0 && y <= b < y + 7 * s,
    decreases n,
{
    if n > 0 {
        if column_covers(bits, n - 1, x, y, s, a, b) {
            lemma_column_rows(bits, n - 1, x, y, s, a, b);
        } else {
            assert(s > 0 && 0 <= (n - 1) * s && (n - 1) * s + s <= 7 * s) by (nonlinear_arith)
                requires
                    in_block(x, y + (n - 1) * s, s, a, b),
                    0 < n <= 7,
            ;
        }
    }
}

/// Inverting the same rectangle twice restores every pixel.
pub proof fn law_invert_twice(f0: Seq<u32>, f1: Seq<u32>, f2: Seq<u32>, x0: int, y0: int, x1: int, y1: int)
    requires
        forall|a: int, b: int| on_screen(a, b) ==> #[trigger] is_lit(f1, a, b) == (is_lit(f0, a, b) != in_rect(x0, y0, x1, y1, a, b)),
        forall|a: int, b: int| on_screen(a, b) ==> #[trigger] is_lit(f2, a, b) == (is_lit(f1, a, b) != in_rect(x0, y0, x1, y1, a, b)),
    ensures
        forall|a: int, b: int| on_screen(a, b) ==> #[trigger] is_lit(f2, a, b) == is_lit(f0, a, b),
{
    assert forall|a: int, b: int| on_screen(a, b) implies #[trigger] is_lit(f2, a, b) == is_lit(f0, a, b) by {
        assert(is_lit(f1, a, b) == (is_lit(f0, a, b) != in_rect(x0, y0, x1, y1, a, b)));
    }
}

/// BLINK repeats every 10 frames: 5 lit, 5 dark.
pub proof fn law_blink_period(t: u32, flash: bool, i: int)
    requires
        t as int + 10 <= u32::MAX,
    ensures
        led_pixel(LedMode::Blink, t, flash, i) == led_pixel(LedMode::Blink, (t + 10) as u32, flash, i),
        led_pixel(LedMode::Blink, t, flash, i) == if t % 10 < 5 { (90u8, 90u8, 90u8) } else { (0u8, 0u8, 0u8) },
{
}

/// In CHASE the eyes stay dim and exactly one ring LED is at full chase brightness.
pub proof fn law_chase_one_head(t: u32, flash: bool)
    ensures
        led_pixel(LedMode::Chase, t, flash, 0) == (10u8, 10u8, 10u8),
        led_pixel(LedMode::Chase, t, flash, 1) == (10u8, 10u8, 10u8),
        led_pixel(LedMode::Chase, t, flash, 2 + (t / 2) as int % 8).0 == 120,
        forall|i: int| 2 <= i < 10 && i != 2 + (t / 2) as int % 8 ==> #[trigger] led_pixel(LedMode::Chase, t, flash, i).0 < 120,
{
}

/// Text is its glyphs drawn one after another: the first `n` characters of
/// `s` light exactly what glyph `k` drawn at `x + 6 scale k` lights, for
/// some `k < n`; no characters light nothing.
pub proof fn law_text_is_glyphs(s: Seq<char>, n: int, x: int, y: int, scale: int, a: int, b: int)
    requires
        0 <= n <= s.len(),
    ensures
        text_covers(s, n, x, y, scale, a, b) == exists|k: int| 0 <= k < n && #[trigger] glyph_covers(
            s[k], x + 6 * scale * k, y, scale, a, b),
        text_covers(s, 0, x, y, scale, a, b) == false,
    decreases n,
{
    if n > 0 {
        law_text_is_glyphs(s, n - 1, x, y, scale, a, b);
        if glyph_covers(s[n - 1], x + 6 * scale * (n - 1), y, scale, a, b) {
            assert(0 <= n - 1 < n);
        }
    }
}

/// RANDOM is a pure function of the frame counter: a recent hit does not
/// change it, and the scene, base hue, speed and direction hold for each
/// 30-frame epoch.
pub proof fn law_random_epochs(t: u32, u: u32, f: bool, g: bool, i: int)
    ensures
        led_pixel(LedMode::Random, t, f, i) == led_pixel(LedMode::Random, t, g, i),
        t / 30 == u / 30 ==> {
            &&& scene_roll(t) % 4 == scene_roll(u) % 4
            &&& (scene_roll(t) >> 8u32) as u8 == (scene_roll(u) >> 8u32) as u8
            &&& scene_speed(scene_roll(t)) == scene_speed(scene_roll(u))
            &&& scene_dir(scene_roll(t)) == scene_dir(scene_roll(u))
        },
{
}

/// Only the game-reactive mode flashes on a hit: every other mode shows the
/// same strip with or without one.
pub proof fn law_flash_only_game_reactive(mode: LedMode, t: u32, i: int)
    requires
        mode != LedMode::GameReactive,
    ensures
        led_pixel(mode, t, true, i) == led_pixel(mode, t, false, i),
{
}

/// OFF lights nothing, whatever the frame.
pub proof fn law_off_dark(t: u32, flash: bool, i: int)
    ensures
        led_pixel(LedMode::Off, t, flash, i) == (0u8, 0u8, 0u8),
{
}

proof fn lemma_empty_scale_columns(cols: Seq<u8>, n: int, x: int, y: int, s: int, a: int, b: int)
    requires
        s <= 0,
    ensures
        !columns_cover(cols, n, x, y, s, a, b),
    decreases n,
{
    if n > 0 {
        lemma_empty_scale_columns(cols, n - 1, x, y, s, a, b);
        lemma_empty_scale_column(cols[n - 1], 7, x + (n - 1) * s, y, s, a, b);
    }
}

proof fn lemma_empty_scale_column(bits: u8, n: int, x: int, y: int, s: int, a: int, b: int)
    requires
        s <= 0,
    ensures
        !column_covers(bits, n, x, y, s, a, b),
    decreases n,
{
    if n > 0 {
        lemma_empty_scale_column(bits, n - 1, x, y, s, a, b);
    }
}

} // verus!

