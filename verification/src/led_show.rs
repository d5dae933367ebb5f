//! Light shows for the DEF CON 34 badge's on-board RGB LEDs: the colours of
//! each pattern's frames, and the on/off timeline of a morse message. The
//! caller packs each colour for the BIO WS2812 driver and sends the strip.
use vstd::prelude::*;

verus! {

/// Badge LED count: 2 "eyes" + an 8-LED ring.
pub const N_LEDS: usize = 10;

/// Keep this low. These are bright, they sit right under your chin on a
/// lanyard, and the badge runs from two AA cells.
pub const BRIGHTNESS: u8 = 40;

/// `c` scaled down to `BRIGHTNESS` out of 255.
pub open spec fn scale_spec(c: u8) -> u8 {
    (c as int * 40 / 255) as u8
}

pub fn scale(c: u8) -> (r: u8)
    ensures
        r == scale_spec(c),
        r <= 40,
{
    assert(c as int * 40 / 255 <= 40) by (nonlinear_arith)
        requires
            c <= 255,
    ;
    ((c as u16 * BRIGHTNESS as u16) / 255) as u8
}

/// HSV to RGB with hue in 0..=255, saturation `s` and value `v`, in integers.
pub open spec fn hsv3_spec(h: u8, s: u8, v: u8) -> (u8, u8, u8) {
    if s == 0 {
        (v, v, v)
    } else {
        let region = h / 43;
        let rem = (h as int % 43) * 6;
        let p = (v as int * (255 - s as int) / 255) as u8;
        let q = (v as int * (255 - (s as int * rem) / 255) / 255) as u8;
        let t = (v as int * (255 - (s as int * (255 - rem)) / 255) / 255) as u8;
        if region == 0 {
            (v, t, p)
        } else if region == 1 {
            (q, v, p)
        } else if region == 2 {
            (p, v, t)
        } else if region == 3 {
            (p, q, v)
        } else if region == 4 {
            (t, p, v)
        } else {
            (v, p, q)
        }
    }
}

/// HSV→RGB with hue in 0..=255. Integer only: the VexRiscv has no FPU, and a
/// float sin() per LED per frame would dominate the frame budget.
pub fn hsv(h: u8, s: u8, v: u8) -> (r: (u8, u8, u8))
    ensures
        r == hsv3_spec(h, s, v),
{
    if s == 0 {
        return (v, v, v);
    }
    let region = h / 43;
    let rem = (h as u16 % 43) * 6;
    assert(v as int * (255 - s as int) <= 65025) by (nonlinear_arith)
        requires
            v <= 255,
            s <= 255,
    ;
    assert(s as int * rem as int <= 64260 && s as int * (255 - rem as int) <= 65025) by (nonlinear_arith)
        requires
            s <= 255,
            rem <= 252,
    ;
    assert(v as int * (255 - s as int * rem as int / 255) <= 65025 && v as int * (255 - s as int * (255 - rem as int) / 255) <= 65025) by (nonlinear_arith)
        requires
            s <= 255,
            v <= 255,
            rem <= 252,
    ;
    assert(v as int * (255 - s as int) / 255 <= 255 && v as int * (255 - s as int * rem as int / 255) / 255 <= 255
        && v as int * (255 - s as int * (255 - rem as int) / 255) / 255 <= 255) by (nonlinear_arith)
        requires
            s <= 255,
            v <= 255,
            rem <= 252,
    ;
    let p = ((v as u16 * (255 - s as u16)) / 255) as u8;
    let q = ((v as u16 * (255 - ((s as u16 * rem) / 255))) / 255) as u8;
    let t = ((v as u16 * (255 - ((s as u16 * (255 - rem)) / 255))) / 255) as u8;
    match region {
        0 => (v, t, p),
        1 => (q, v, p),
        2 => (p, v, t),
        3 => (p, q, v),
        4 => (t, p, v),
        _ => (v, p, q),
    }
}

/// A colour scaled down to `BRIGHTNESS`, channel by channel.
pub open spec fn dimmed(c: (u8, u8, u8)) -> (u8, u8, u8) {
    (scale_spec(c.0), scale_spec(c.1), scale_spec(c.2))
}

/// LED `i` of the spinning rainbow at `frame`: hue `frame + 25 i`, full
/// saturation and value, dimmed.
pub open spec fn rainbow_pixel(frame: u32, i: int) -> (u8, u8, u8) {
    dimmed(hsv3_spec((frame.wrapping_add((i * 25) as u32) & 0xFF) as u8, 255, 255))
}

/// Rainbow spinning around the ring.
pub fn rainbow(frame: u32) -> (strip: [(u8, u8, u8); N_LEDS])
    ensures
        forall|i: int| 0 <= i < 10 ==> #[trigger] strip@[i] == rainbow_pixel(frame, i),
{
    let mut strip = [(0u8, 0u8, 0u8); N_LEDS];
    let step = 256 / N_LEDS as u32;
    assert(N_LEDS as u32 == 10);
    assert(256u32 / 10u32 == 25) by (nonlinear_arith);
    let mut i: usize = 0;
    while i < N_LEDS
        invariant
            i <= 10,
            step == 25,
            forall|j: int| 0 <= j < i ==> #[trigger] strip@[j] == rainbow_pixel(frame, j),
        decreases 10 - i,
    {
        let h = (frame.wrapping_add((i as u32) * step) & 0xFF) as u8;
        let (r, g, b) = hsv(h, 255, 255);
        strip[i] = (scale(r), scale(g), scale(b));
        i += 1;
    }
    strip
}

/// The LED that the Larson scanner's head is on at `frame`: it bounces
/// 0, 1, ..., 9, 8, ..., 1 and round again.
pub open spec fn larson_head(frame: u32) -> int {
    let pos = frame as int % 18;
    if pos < 10 { pos } else { 18 - pos }
}

/// LED `i` of the Larson scanner at `frame`: red, full at the head and
/// fading over the two LEDs either side, dimmed.
pub open spec fn larson_pixel(frame: u32, i: int) -> (u8, u8, u8) {
    let d = if i >= larson_head(frame) { i - larson_head(frame) } else { larson_head(frame) - i };
    let v: u8 = if d == 0 { 255 } else if d == 1 { 80 } else if d == 2 { 20 } else { 0 };
    dimmed((v, 0, 0))
}

/// Larson scanner (Knight Rider). Bounces with a fading tail.
pub fn larson(frame: u32) -> (strip: [(u8, u8, u8); N_LEDS])
    ensures
        forall|i: int| 0 <= i < 10 ==> #[trigger] strip@[i] == larson_pixel(frame, i),
{
    let mut strip = [(0u8, 0u8, 0u8); N_LEDS];
    let span = (N_LEDS * 2 - 2) as u32;
    let pos = frame % span;
    let head = if pos < N_LEDS as u32 { pos } else { span - pos } as i32;
    let mut i: usize = 0;
    while i < N_LEDS
        invariant
            i <= 10,
            head == larson_head(frame),
            forall|j: int| 0 <= j < i ==> #[trigger] strip@[j] == larson_pixel(frame, j),
        decreases 10 - i,
    {
        let d = if i as i32 >= head { i as i32 - head } else { head - i as i32 };
        let v = match d {
            0 => 255u8,
            1 => 80,
            2 => 20,
            _ => 0,
        };
        strip[i] = (scale(v), scale(0), scale(0));
        i += 1;
    }
    strip
}

/// All LEDs one colour, dimmed — the primitive the morse blinker uses.
pub fn solid(r: u8, g: u8, b: u8) -> (strip: [(u8, u8, u8); N_LEDS])
    ensures
        forall|i: int| 0 <= i < 10 ==> #[trigger] strip@[i] == dimmed((r, g, b)),
{
    let c = (scale(r), scale(g), scale(b));
    [c; N_LEDS]
}

/// All LEDs dark.
pub fn off() -> (strip: [(u8, u8, u8); N_LEDS])
    ensures
        forall|i: int| 0 <= i < 10 ==> #[trigger] strip@[i] == (0u8, 0u8, 0u8),
{
    solid(0, 0, 0)
}


/// The morse code of `ch` (either case): dots and dashes for a letter, a
/// single space for a space, nothing for anything else.
pub open spec fn morse_code(ch: char) -> Seq<char> {
    match ch {
        'A' | 'a' => ".-"@,
        'B' | 'b' => "-..."@,
        'C' | 'c' => "-.-."@,
        'D' | 'd' => "-.."@,
        'E' | 'e' => "."@,
        'F' | 'f' => "..-."@,
        'G' | 'g' => "--."@,
        'H' | 'h' => "...."@,
        'I' | 'i' => ".."@,
        'J' | 'j' => ".---"@,
        'K' | 'k' => "-.-"@,
        'L' | 'l' => ".-.."@,
        'M' | 'm' => "--"@,
        'N' | 'n' => "-."@,
        'O' | 'o' => "---"@,
        'P' | 'p' => ".--."@,
        'Q' | 'q' => "--.-"@,
        'R' | 'r' => ".-."@,
        'S' | 's' => "..."@,
        'T' | 't' => "-"@,
        'U' | 'u' => "..-"@,
        'V' | 'v' => "...-"@,
        'W' | 'w' => ".--"@,
        'X' | 'x' => "-..-"@,
        'Y' | 'y' => "-.--"@,
        'Z' | 'z' => "--.."@,
        ' ' => " "@,
        _ => ""@,
    }
}

/// Dimming scales a channel to 40 out of 255, rounding down: full is 40,
/// off stays off, and a brighter channel never dims darker.
pub proof fn law_scale(c: u8, d: u8)
    ensures
        scale_spec(255) == 40,
        scale_spec(0) == 0,
        scale_spec(c) == c as int * 40 / 255,
        c <= d ==> scale_spec(c) <= scale_spec(d),
{
    assert(c as int * 40 / 255 <= 40) by (nonlinear_arith)
        requires
            c <= 255,
    ;
    assert(c <= d ==> c as int * 40 / 255 <= d as int * 40 / 255) by (nonlinear_arith);
}

/// The colour wheel at full saturation: the hue runs round six regions of 43
/// steps with the leading channel at full value `v` and the trailing one
/// dark, each region starting on its pure colour; with no saturation every
/// channel is `v`.
pub proof fn law_hsv3_wheel(h: u8, v: u8)
    ensures
        hsv3_spec(h, 0, v) == (v, v, v),
        h < 43 ==> hsv3_spec(h, 255, v).0 == v && hsv3_spec(h, 255, v).2 == 0,
        43 <= h < 86 ==> hsv3_spec(h, 255, v).1 == v && hsv3_spec(h, 255, v).2 == 0,
        86 <= h < 129 ==> hsv3_spec(h, 255, v).1 == v && hsv3_spec(h, 255, v).0 == 0,
        129 <= h < 172 ==> hsv3_spec(h, 255, v).2 == v && hsv3_spec(h, 255, v).0 == 0,
        172 <= h < 215 ==> hsv3_spec(h, 255, v).2 == v && hsv3_spec(h, 255, v).1 == 0,
        215 <= h ==> hsv3_spec(h, 255, v).0 == v && hsv3_spec(h, 255, v).1 == 0,
        hsv3_spec(0, 255, v) == (v, 0u8, 0u8),
        hsv3_spec(86, 255, v) == (0u8, v, 0u8),
        hsv3_spec(172, 255, v) == (0u8, 0u8, v),
{
    let rem = (h as int % 43) * 6;
    assert(255 * rem / 255 == rem) by (nonlinear_arith);
    assert(255 * (255 - rem) / 255 == 255 - rem) by (nonlinear_arith);
    assert(v as int * 0 / 255 == 0);
    assert(v as int * 255 / 255 == v) by (nonlinear_arith);
}

/// The Larson scanner: its head runs 0 to 9 and back over 18 frames, lit
/// full (40 after dimming) in red, 12 beside it, 3 two away, dark elsewhere.
pub proof fn law_larson(frame: u32, i: int)
    requires
        0 <= i < 10,
    ensures
        0 <= larson_head(frame) <= 9,
        frame % 18 < 10 ==> larson_head(frame) == frame % 18,
        frame % 18 >= 10 ==> larson_head(frame) == 18 - frame % 18,
        larson_pixel(frame, i) == if i == larson_head(frame) {
            (40u8, 0u8, 0u8)
        } else if i == larson_head(frame) + 1 || i == larson_head(frame) - 1 {
            (12u8, 0u8, 0u8)
        } else if i == larson_head(frame) + 2 || i == larson_head(frame) - 2 {
            (3u8, 0u8, 0u8)
        } else {
            (0u8, 0u8, 0u8)
        },
{
}

/// The rainbow is full colour dimmed: at every LED one channel is at 40,
/// none above it.
pub proof fn law_rainbow_dimmed(frame: u32, i: int)
    ensures
        ({
            let c = rainbow_pixel(frame, i);
            (c.0 == 40 || c.1 == 40 || c.2 == 40) && c.0 <= 40 && c.1 <= 40 && c.2 <= 40
        }),
{
    let h = (frame.wrapping_add((i * 25) as u32) & 0xFF) as u8;
    law_hsv3_wheel(h, 255);
    let c = hsv3_spec(h, 255, 255);
    law_scale(c.0, 255);
    law_scale(c.1, 255);
    law_scale(c.2, 255);
}

/// The blinks of a code: each symbol lights the LEDs for one unit if a dot or
/// three if a dash, then darkens them for one unit.
pub proof fn law_symbol_blinks(code: Seq<char>, unit: u32, n: int, j: int)
    requires
        0 <= j < n <= code.len(),
        unit as int * 3 <= u32::MAX,
    ensures
        symbol_steps(code, unit, n).len() == 4 * n,
        symbol_steps(code, unit, n)[4 * j] == Blink::On,
        symbol_steps(code, unit, n)[4 * j + 1] == Blink::Wait(if code[j] == '-' { (3 * unit as int) as u32 } else { unit }),
        symbol_steps(code, unit, n)[4 * j + 2] == Blink::Off,
        symbol_steps(code, unit, n)[4 * j + 3] == Blink::Wait(unit),
    decreases n,
{
    if j < n - 1 {
        law_symbol_blinks(code, unit, n - 1, j);
    } else if n > 1 {
        law_symbol_blinks(code, unit, n - 1, 0);
    }
}

/// The blinks of a character: a space waits seven units; anything else
/// blinks its code and then waits two units more, three in all after its
/// last symbol.
pub proof fn law_char_blinks(ch: char, unit: u32)
    requires
        unit as int * 7 <= u32::MAX,
    ensures
        ch == ' ' ==> char_steps(ch, unit) == seq![Blink::Wait((7 * unit as int) as u32)],
        ch != ' ' ==> char_steps(ch, unit).len() == 4 * morse_code(ch).len() + 1,
        ch != ' ' ==> char_steps(ch, unit).last() == Blink::Wait((2 * unit as int) as u32),
{
    if ch != ' ' {
        let n = morse_code(ch).len() as int;
        if n > 0 {
            law_symbol_blinks(morse_code(ch), unit, n, 0);
        }
    }
}

/// Each letter, in either case, blinks its international morse code, a
/// space is a word gap, and any other character has no code.
#[verifier::rlimit(30)]
pub proof fn law_morse_codes(c: char)
    ensures
        morse_code('A') == seq!['.', '-'] && morse_code('a') == seq!['.', '-'],
        morse_code('B') == seq!['-', '.', '.', '.'] && morse_code('b') == seq!['-', '.', '.', '.'],
        morse_code('C') == seq!['-', '.', '-', '.'] && morse_code('c') == seq!['-', '.', '-', '.'],
        morse_code('D') == seq!['-', '.', '.'] && morse_code('d') == seq!['-', '.', '.'],
        morse_code('E') == seq!['.'] && morse_code('e') == seq!['.'],
        morse_code('F') == seq!['.', '.', '-', '.'] && morse_code('f') == seq!['.', '.', '-', '.'],
        morse_code('G') == seq!['-', '-', '.'] && morse_code('g') == seq!['-', '-', '.'],
        morse_code('H') == seq!['.', '.', '.', '.'] && morse_code('h') == seq!['.', '.', '.', '.'],
        morse_code('I') == seq!['.', '.'] && morse_code('i') == seq!['.', '.'],
        morse_code('J') == seq!['.', '-', '-', '-'] && morse_code('j') == seq!['.', '-', '-', '-'],
        morse_code('K') == seq!['-', '.', '-'] && morse_code('k') == seq!['-', '.', '-'],
        morse_code('L') == seq!['.', '-', '.', '.'] && morse_code('l') == seq!['.', '-', '.', '.'],
        morse_code('M') == seq!['-', '-'] && morse_code('m') == seq!['-', '-'],
        morse_code('N') == seq!['-', '.'] && morse_code('n') == seq!['-', '.'],
        morse_code('O') == seq!['-', '-', '-'] && morse_code('o') == seq!['-', '-', '-'],
        morse_code('P') == seq!['.', '-', '-', '.'] && morse_code('p') == seq!['.', '-', '-', '.'],
        morse_code('Q') == seq!['-', '-', '.', '-'] && morse_code('q') == seq!['-', '-', '.', '-'],
        morse_code('R') == seq!['.', '-', '.'] && morse_code('r') == seq!['.', '-', '.'],
        morse_code('S') == seq!['.', '.', '.'] && morse_code('s') == seq!['.', '.', '.'],
        morse_code('T') == seq!['-'] && morse_code('t') == seq!['-'],
        morse_code('U') == seq!['.', '.', '-'] && morse_code('u') == seq!['.', '.', '-'],
        morse_code('V') == seq!['.', '.', '.', '-'] && morse_code('v') == seq!['.', '.', '.', '-'],
        morse_code('W') == seq!['.', '-', '-'] && morse_code('w') == seq!['.', '-', '-'],
        morse_code('X') == seq!['-', '.', '.', '-'] && morse_code('x') == seq!['-', '.', '.', '-'],
        morse_code('Y') == seq!['-', '.', '-', '-'] && morse_code('y') == seq!['-', '.', '-', '-'],
        morse_code('Z') == seq!['-', '-', '.', '.'] && morse_code('z') == seq!['-', '-', '.', '.'],
        morse_code(' ') == seq![' '],
        !('A' <= c <= 'Z' || 'a' <= c <= 'z' || c == ' ') ==> morse_code(c).len() == 0,
{
    reveal_strlit("-");
    reveal_strlit("--");
    reveal_strlit("---");
    reveal_strlit("--.");
    reveal_strlit("--.-");
    reveal_strlit("--..");
    reveal_strlit("-.");
    reveal_strlit("-.-");
    reveal_strlit("-.--");
    reveal_strlit("-.-.");
    reveal_strlit("-..");
    reveal_strlit("-..-");
    reveal_strlit("-...");
    reveal_strlit(".");
    reveal_strlit(".-");
    reveal_strlit(".--");
    reveal_strlit(".---");
    reveal_strlit(".--.");
    reveal_strlit(".-.");
    reveal_strlit(".-..");
    reveal_strlit("..");
    reveal_strlit("..-");
    reveal_strlit("..-.");
    reveal_strlit("...");
    reveal_strlit("...-");
    reveal_strlit("....");
    reveal_strlit(" ");
    reveal_strlit("");
    assert(".-"@ =~= seq!['.', '-']);
    assert("-..."@ =~= seq!['-', '.', '.', '.']);
    assert("-.-."@ =~= seq!['-', '.', '-', '.']);
    assert("-.."@ =~= seq!['-', '.', '.']);
    assert("."@ =~= seq!['.']);
    assert("..-."@ =~= seq!['.', '.', '-', '.']);
    assert("--."@ =~= seq!['-', '-', '.']);
    assert("...."@ =~= seq!['.', '.', '.', '.']);
    assert(".."@ =~= seq!['.', '.']);
    assert(".---"@ =~= seq!['.', '-', '-', '-']);
    assert("-.-"@ =~= seq!['-', '.', '-']);
    assert(".-.."@ =~= seq!['.', '-', '.', '.']);
    assert("--"@ =~= seq!['-', '-']);
    assert("-."@ =~= seq!['-', '.']);
    assert("---"@ =~= seq!['-', '-', '-']);
    assert(".--."@ =~= seq!['.', '-', '-', '.']);
    assert("--.-"@ =~= seq!['-', '-', '.', '-']);
    assert(".-."@ =~= seq!['.', '-', '.']);
    assert("..."@ =~= seq!['.', '.', '.']);
    assert("-"@ =~= seq!['-']);
    assert("..-"@ =~= seq!['.', '.', '-']);
    assert("...-"@ =~= seq!['.', '.', '.', '-']);
    assert(".--"@ =~= seq!['.', '-', '-']);
    assert("-..-"@ =~= seq!['-', '.', '.', '-']);
    assert("-.--"@ =~= seq!['-', '.', '-', '-']);
    assert("--.."@ =~= seq!['-', '-', '.', '.']);
    assert(" "@ =~= seq![' ']);
}

fn code_for(ch: char) -> (r: &'static str)
    ensures
        r@ == morse_code(ch),
{
    match ch {
        'A' | 'a' => ".-",
        'B' | 'b' => "-...",
        'C' | 'c' => "-.-.",
        'D' | 'd' => "-..",
        'E' | 'e' => ".",
        'F' | 'f' => "..-.",
        'G' | 'g' => "--.",
        'H' | 'h' => "....",
        'I' | 'i' => "..",
        'J' | 'j' => ".---",
        'K' | 'k' => "-.-",
        'L' | 'l' => ".-..",
        'M' | 'm' => "--",
        'N' | 'n' => "-.",
        'O' | 'o' => "---",
        'P' | 'p' => ".--.",
        'Q' | 'q' => "--.-",
        'R' | 'r' => ".-.",
        'S' | 's' => "...",
        'T' | 't' => "-",
        'U' | 'u' => "..-",
        'V' | 'v' => "...-",
        'W' | 'w' => ".--",
        'X' | 'x' => "-..-",
        'Y' | 'y' => "-.--",
        'Z' | 'z' => "--..",
        ' ' => " ",
        _ => "",
    }
}

/// One step of a morse blink timeline.
#[derive(Clone, Copy, PartialEq, Eq, Debug, Structural)]
pub enum Blink {
    /// All LEDs full white.
    On,
    /// All LEDs dark.
    Off,
    /// Hold for this many milliseconds.
    Wait(u32),
}

/// The steps for the first `n` symbols of a letter's code: each lights the
/// LEDs for a dot (one unit) or a dash (three), then darkens them for one unit.
pub open spec fn symbol_steps(code: Seq<char>, unit: u32, n: int) -> Seq<Blink>
    decreases n,
{
    if n <= 0 {
        Seq::empty()
    } else {
        symbol_steps(code, unit, n - 1) + seq![
            Blink::On,
            Blink::Wait(if code[n - 1] == '-' { (unit * 3) as u32 } else { unit }),
            Blink::Off,
            Blink::Wait(unit),
        ]
    }
}

/// The steps for one character: a space waits seven units; anything else
/// blinks its code and then waits two more units, three in all between letters.
pub open spec fn char_steps(ch: char, unit: u32) -> Seq<Blink> {
    if ch == ' ' {
        seq![Blink::Wait((unit * 7) as u32)]
    } else {
        symbol_steps(morse_code(ch), unit, morse_code(ch).len() as int) + seq![Blink::Wait((unit * 2) as u32)]
    }
}

/// The steps for the first `n` characters of `msg`.
pub open spec fn morse_steps(msg: Seq<char>, unit: u32, n: int) -> Seq<Blink>
    decreases n,
{
    if n <= 0 {
        Seq::empty()
    } else {
        morse_steps(msg, unit, n - 1) + char_steps(msg[n - 1], unit)
    }
}

/// The waits of `msg` fit a `u32`: seven units if it has a space, two if it
/// has anything else, three if a letter of it has a dash.
pub open spec fn morse_ok(msg: Seq<char>, unit: u32) -> bool {
    &&& (exists|i: int| 0 <= i < msg.len() && msg[i] == ' ') ==> unit * 7 <= u32::MAX
    &&& (exists|i: int| 0 <= i < msg.len() && msg[i] != ' ') ==> unit * 2 <= u32::MAX
    &&& (exists|i: int| 0 <= i < msg.len() && morse_code(msg[i]).contains('-')) ==> unit * 3 <= u32::MAX
}

/// The blink timeline of a morse message. `unit_ms` is one dot. A dash is 3
/// units, the gap between elements 1 unit, and between letters 3 units.
pub fn morse(msg: &str, unit_ms: u32) -> (steps: Vec<Blink>)
    requires
        morse_ok(msg@, unit_ms),
    ensures
        steps@ == morse_steps(msg@, unit_ms, msg@.len() as int),
{
    broadcast use vstd::string::axiom_spec_iter;
    proof {
        reveal_strlit("-");
        reveal_strlit("--");
        reveal_strlit("---");
        reveal_strlit("--.");
        reveal_strlit("--.-");
        reveal_strlit("--..");
        reveal_strlit("-.");
        reveal_strlit("-.-");
        reveal_strlit("-.--");
        reveal_strlit("-.-.");
        reveal_strlit("-..");
        reveal_strlit("-..-");
        reveal_strlit("-...");
        reveal_strlit(".");
        reveal_strlit(".-");
        reveal_strlit(".--");
        reveal_strlit(".---");
        reveal_strlit(".--.");
        reveal_strlit(".-.");
        reveal_strlit(".-..");
        reveal_strlit("..");
        reveal_strlit("..-");
        reveal_strlit("..-.");
        reveal_strlit("...");
        reveal_strlit("...-");
        reveal_strlit("....");
        reveal_strlit(" ");
        reveal_strlit("");
    }
    let mut steps: Vec<Blink> = Vec::new();
    for ch in it: msg.chars()
        invariant
            it.seq() == msg@,
            0 <= it.index() <= msg@.len(),
            morse_ok(msg@, unit_ms),
            steps@ == morse_steps(msg@, unit_ms, it.index()),
    {
        let ghost k = it.index();
        let code = code_for(ch);
        if ch == ' ' {
            assert(msg@[k] == ' ');
            steps.push(Blink::Wait(unit_ms * 7));
            assert(steps@ =~= morse_steps(msg@, unit_ms, k + 1));
        } else {
            assert(msg@[k] != ' ');
            let ghost start = steps@;
            for sym in jt: code.chars()
                invariant
                    jt.seq() == code@,
                    0 <= jt.index() <= code@.len(),
                    code@ == morse_code(ch),
                    morse_code(ch).contains('-') ==> unit_ms * 3 <= u32::MAX,
                    steps@ == start + symbol_steps(code@, unit_ms, jt.index()),
            {
                let ghost j = jt.index();
                steps.push(Blink::On);
                if sym == '-' {
                    assert(code@.contains('-'));
                    steps.push(Blink::Wait(unit_ms * 3));
                } else {
                    steps.push(Blink::Wait(unit_ms));
                }
                steps.push(Blink::Off);
                steps.push(Blink::Wait(unit_ms));
                assert(steps@ =~= start + symbol_steps(code@, unit_ms, j + 1));
            }
            steps.push(Blink::Wait(unit_ms * 2)); // 3 total between letters, 1 already spent
            assert(steps@ =~= morse_steps(msg@, unit_ms, k + 1));
        }
    }
    steps
}

/// The BIO pins that the LED pin scan tries, in order: all 32 but GPIO4, the
/// open-drain wake interrupt, which driving has side effects you do not want
/// mid-scan.
pub fn scan_pins() -> (pins: Vec<u8>)
    ensures
        pins@ == Seq::new(31, |i: int| if i < 4 { i as u8 } else { (i + 1) as u8 }),
{
    let mut pins: Vec<u8> = Vec::new();
    let mut pin: u8 = 0;
    while pin < 32
        invariant
            pin <= 32,
            pins@ == Seq::new(if pin <= 4 { pin as nat } else { (pin - 1) as nat }, |i: int| if i < 4 { i as u8 } else { (i + 1) as u8 }),
        decreases 32 - pin,
    {
        if pin != 4 {
            pins.push(pin);
        }
        proof {
            assert(pins@ =~= Seq::new(if pin + 1 <= 4 { (pin + 1) as nat } else { pin as nat }, |i: int| if i < 4 { i as u8 } else { (i + 1) as u8 }));
        }
        pin += 1;
    }
    pins
}

} // verus!
