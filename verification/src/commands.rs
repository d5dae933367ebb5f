//! The console commands `led` and `screen`: what their argument lines ask for.
//! Carrying the request out (the BIO pin mux, the LED driver, the graphics
//! server) is the caller's part.
use vstd::prelude::*;

verus! {

/// LED control for the badge's on-board RGB ring.
#[derive(Debug)]
pub struct Led {}

/// Drawing to the badge's 128x128 OLED.
#[derive(Debug)]
pub struct Screen {}

/// `c` has the Unicode White_Space property, as `char::is_whitespace` tests.
pub open spec fn is_white_space(c: char) -> bool {
    ||| '\u{9}' <= c <= '\u{d}'
    ||| c == ' '
    ||| c == '\u{85}'
    ||| c == '\u{a0}'
    ||| c == '\u{1680}'
    ||| '\u{2000}' <= c <= '\u{200a}'
    ||| c == '\u{2028}'
    ||| c == '\u{2029}'
    ||| c == '\u{202f}'
    ||| c == '\u{205f}'
    ||| c == '\u{3000}'
}

/// The words of `s[i..]` when the word `cur` is being read: the maximal runs
/// of characters that are not white space, in order.
pub open spec fn words_from(s: Seq<char>, i: int, cur: Seq<char>) -> Seq<Seq<char>>
    decreases s.len() - i,
{
    if i >= s.len() {
        if cur.len() > 0 { seq![cur] } else { Seq::empty() }
    } else if is_white_space(s[i]) {
        (if cur.len() > 0 { seq![cur] } else { Seq::empty() }) + words_from(s, i + 1, Seq::empty())
    } else {
        words_from(s, i + 1, cur.push(s[i]))
    }
}

/// The whitespace-separated words of `s`: its maximal runs of characters
/// that are not white space, in order.
pub open spec fn words(s: Seq<char>) -> Seq<Seq<char>> {
    words_from(s, 0, Seq::empty())
}

/// `str::split_whitespace`, collected: the sub-slices of `s` separated by
/// any amount of white space, in order, with no empty ones.
#[verifier::external_body]
fn split_words(s: &str) -> (w: Vec<&str>)
    ensures
        w@.len() == words(s@).len(),
        forall|i: int| 0 <= i < w@.len() ==> #[trigger] w@[i]@ == words(s@)[i],
{
    s.split_whitespace().collect()
}

/// `c` is an ASCII decimal digit.
pub open spec fn is_digit(c: char) -> bool {
    '0' <= c <= '9'
}

/// The value of the decimal digits `d`.
pub open spec fn decimal_value(d: Seq<char>) -> int
    decreases d.len(),
{
    if d.len() == 0 {
        0
    } else {
        decimal_value(d.drop_last()) * 10 + (d.last() as int - '0' as int)
    }
}

/// Every character of `d` is a decimal digit.
pub open spec fn all_digits(d: Seq<char>) -> bool {
    forall|i: int| 0 <= i < d.len() ==> #[trigger] is_digit(d[i])
}

/// `s` without a leading `+`.
pub open spec fn unsigned_digits(s: Seq<char>) -> Seq<char> {
    if s.len() > 0 && s[0] == '+' { s.drop_first() } else { s }
}

/// `u8::from_str`: an optional `+` and then one or more decimal digits whose
/// value is at most 255.
pub open spec fn parse_u8(s: Seq<char>) -> Option<u8> {
    let d = unsigned_digits(s);
    if d.len() > 0 && all_digits(d) && decimal_value(d) <= 255 {
        Some(decimal_value(d) as u8)
    } else {
        None
    }
}

/// The ASCII digit of `d`.
pub open spec fn digit_char(d: int) -> char {
    (48 + d) as char
}

/// Reading a `u8`: one to three decimal digits read as their value when it
/// is at most 255, with leading zeros allowed and one leading `+` ignored;
/// nothing, a lone `+`, a second sign, or any other character is no number.
pub proof fn law_parse_u8(a: int, b: int, c: int, s: Seq<char>, i: int)
    requires
        0 <= a < 10,
        0 <= b < 10,
        0 <= c < 10,
    ensures
        parse_u8(Seq::empty()) is None,
        parse_u8(seq!['+']) is None,
        parse_u8(seq![digit_char(a)]) == Some(a as u8),
        parse_u8(seq![digit_char(a), digit_char(b)]) == Some((10 * a + b) as u8),
        parse_u8(seq![digit_char(a), digit_char(b), digit_char(c)]) == if 100 * a + 10 * b + c <= 255 {
            Some((100 * a + 10 * b + c) as u8)
        } else {
            None
        },
        s.len() > 0 && s[0] != '+' ==> parse_u8(seq!['+'] + s) == parse_u8(s),
        0 <= i < s.len() && !('0' <= s[i] <= '9') && !(i == 0 && s[i] == '+') ==> parse_u8(s) is None,
{
    let d1 = seq![digit_char(a)];
    let d2 = seq![digit_char(a), digit_char(b)];
    let d3 = seq![digit_char(a), digit_char(b), digit_char(c)];
    assert(d2.drop_last() =~= d1);
    assert(d3.drop_last() =~= d2);
    assert(decimal_value(d1.drop_last()) == 0) by {
        assert(d1.drop_last() =~= Seq::<char>::empty());
    }
    assert(is_digit(digit_char(a)) && is_digit(digit_char(b)) && is_digit(digit_char(c)));
    assert(all_digits(d1));
    assert(all_digits(d2));
    assert(all_digits(d3));
    assert((seq!['+'] + s).drop_first() =~= s);
    if 0 <= i < s.len() && !('0' <= s[i] <= '9') && !(i == 0 && s[i] == '+') {
        let d = unsigned_digits(s);
        if s.len() > 0 && s[0] == '+' {
            assert(d[i - 1] == s[i]);
            assert(!is_digit(d[i - 1]));
        } else {
            assert(!is_digit(d[i]));
        }
    }
}

/// Reads `s` as a `u8` as `u8::from_str` does, or gives `default` when it is
/// not one.
pub fn parse_u8_or(s: &str, default: u8) -> (r: u8)
    ensures
        r == match parse_u8(s@) {
            Some(v) => v,
            None => default,
        },
{
    broadcast use vstd::string::axiom_spec_iter;
    let mut chars: Vec<char> = Vec::new();
    for c in it: s.chars()
        invariant
            it.seq() == s@,
            chars@ == s@.take(it.index()),
    {
        chars.push(c);
    }
    assert(chars@ =~= s@);
    let n = chars.len();
    let mut i: usize = 0;
    if n > 0 && chars[0] == '+' {
        i = 1;
    }
    let ghost d = unsigned_digits(s@);
    assert(d =~= s@.skip(i as int));
    if i >= n {
        return default;
    }
    let mut value: u16 = 0;
    let start = i;
    while i < n
        invariant
            start <= i <= n,
            start < n,
            n == chars@.len(),
            chars@ == s@,
            d =~= s@.skip(start as int),
            d == unsigned_digits(s@),
            forall|j: int| start <= j < i ==> #[trigger] is_digit(chars@[j]),
            value as int == decimal_value(s@.subrange(start as int, i as int)),
            value <= 255,
        decreases n - i,
    {
        let c = chars[i];
        if !('0' <= c && c <= '9') {
            assert(!is_digit(d[i - start]));
            assert(!all_digits(d));
            return default;
        }
        let digit = (c as u32 - '0' as u32) as u16;
        assert(s@.subrange(start as int, i + 1).drop_last() =~= s@.subrange(start as int, i as int));
        if value * 10 + digit > 255 {
            proof {
                let p = s@.subrange(start as int, i + 1);
                assert(is_digit(chars@[i as int]));
                assert forall|j: int| 0 <= j < p.len() implies p[j] == d[j] by {}
                assert forall|j: int| 0 <= j < d.len() implies #[trigger] is_digit(d[j]) || j >= p.len() by {
                    if j < p.len() {
                        assert(d[j] == chars@[start + j]);
                    }
                }
                lemma_decimal_grows(p, d);
            }
            return default;
        }
        value = value * 10 + digit;
        i += 1;
    }
    assert(s@.subrange(start as int, n as int) =~= d);
    value as u8
}

proof fn lemma_decimal_grows(p: Seq<char>, d: Seq<char>)
    requires
        p.len() <= d.len(),
        forall|i: int| 0 <= i < p.len() ==> p[i] == d[i],
        forall|i: int| 0 <= i < d.len() ==> #[trigger] is_digit(d[i]) || i >= p.len(),
        decimal_value(p) > 255,
    ensures
        all_digits(d) ==> decimal_value(d) > 255,
    decreases d.len() - p.len(),
{
    if d.len() > p.len() && all_digits(d) {
        let q = d.subrange(0, p.len() as int + 1);
        assert(q.drop_last() =~= p);
        assert(is_digit(d[p.len() as int]));
        lemma_decimal_grows(q, d);
    } else if d.len() == p.len() {
        assert(d =~= p);
    }
}


/// Whether `s` and `t` hold the same characters.
fn same_text(s: &str, t: &str) -> (r: bool)
    ensures
        r == (s@ == t@),
{
    let a = text_chars(s);
    let b = text_chars(t);
    if a.len() != b.len() {
        return false;
    }
    let mut i: usize = 0;
    while i < a.len()
        invariant
            a@ == s@,
            b@ == t@,
            a.len() == b.len(),
            i <= a.len(),
            forall|j: int| 0 <= j < i ==> a@[j] == b@[j],
        decreases a.len() - i,
    {
        if a[i] != b[i] {
            return false;
        }
        i += 1;
    }
    assert(a@ =~= b@);
    true
}

/// The characters of `s`.
fn text_chars(s: &str) -> (v: Vec<char>)
    ensures
        v@ == s@,
{
    broadcast use vstd::string::axiom_spec_iter;
    let mut v: Vec<char> = Vec::new();
    for c in it: s.chars()
        invariant
            it.seq() == s@,
            v@ == s@.take(it.index()),
    {
        v.push(c);
    }
    assert(v@ =~= s@);
    v
}

/// The two BIO-mappable GPIO ports.
#[derive(Clone, Copy, PartialEq, Eq, Debug, Structural)]
pub enum Port {
    PB,
    PC,
}

/// What an `led` command line asks for.
#[derive(Clone, Copy, PartialEq, Eq, Debug, Structural)]
pub enum LedCommand {
    /// Map each PB/PC pin to BIO and flash it.
    Scan,
    /// Light the ring through `port` pin `pin` in the colour `(r, g, b)`.
    Drive { port: Port, pin: u8, r: u8, g: u8, b: u8 },
    /// Print the usage.
    Help,
}

/// What a `screen` command line asks for.
#[derive(Clone, Copy, PartialEq, Eq, Debug, Structural)]
pub enum ScreenCommand {
    /// Draw the Space Invaders frame.
    Invaders,
    /// Clear to background.
    Clear,
    /// A filled test rectangle.
    Box,
    /// Set the panel brightness.
    Bright(u8),
    /// Switch the panel on.
    On,
    /// Switch the panel off.
    Off,
    /// Print the usage.
    Help,
}

/// The port that the word `w` names: `pb` or `PB`, `pc` or `PC`.
pub open spec fn port_named(w: Seq<char>) -> Option<Port> {
    if w == "pb"@ || w == "PB"@ {
        Some(Port::PB)
    } else if w == "pc"@ || w == "PC"@ {
        Some(Port::PC)
    } else {
        None
    }
}

/// Word `i` of `ws` read as a `u8`, or `default` when it is missing or not a number.
pub open spec fn word_u8(ws: Seq<Seq<char>>, i: int, default: u8) -> u8 {
    if 0 <= i < ws.len() {
        match parse_u8(ws[i]) {
            Some(v) => v,
            None => default,
        }
    } else {
        default
    }
}

/// The `led` command that the words `ws` make: `scan`; a port then pin, red,
/// green and blue, each 0 when missing or not a number; anything else asks
/// for the usage.
pub open spec fn led_command(ws: Seq<Seq<char>>) -> LedCommand {
    if ws.len() == 0 {
        LedCommand::Help
    } else if ws[0] == "scan"@ {
        LedCommand::Scan
    } else {
        match port_named(ws[0]) {
            Some(p) => LedCommand::Drive {
                port: p,
                pin: word_u8(ws, 1, 0),
                r: word_u8(ws, 2, 0),
                g: word_u8(ws, 3, 0),
                b: word_u8(ws, 4, 0),
            },
            None => LedCommand::Help,
        }
    }
}

/// The `screen` command that the words `ws` make; `bright` takes a level,
/// 200 when missing or not a number.
pub open spec fn screen_command(ws: Seq<Seq<char>>) -> ScreenCommand {
    if ws.len() == 0 {
        ScreenCommand::Help
    } else if ws[0] == "invaders"@ {
        ScreenCommand::Invaders
    } else if ws[0] == "clear"@ {
        ScreenCommand::Clear
    } else if ws[0] == "box"@ {
        ScreenCommand::Box
    } else if ws[0] == "bright"@ {
        ScreenCommand::Bright(word_u8(ws, 1, 200))
    } else if ws[0] == "on"@ {
        ScreenCommand::On
    } else if ws[0] == "off"@ {
        ScreenCommand::Off
    } else {
        ScreenCommand::Help
    }
}

/// The `led` command line: no words asks for the usage; `scan` scans; `pb`
/// or `PB`, `pc` or `PC` drives that port with the next four words as pin,
/// red, green and blue, each 0 when missing or not a number; any other first
/// word asks for the usage. The `screen` command's `bright` takes the next
/// word as the level, 200 when missing or not a number.
pub proof fn law_command_words(ws: Seq<Seq<char>>)
    ensures
        led_command(Seq::empty()) == LedCommand::Help,
        screen_command(Seq::empty()) == ScreenCommand::Help,
        ws.len() > 0 && ws[0] == "scan"@ ==> led_command(ws) == LedCommand::Scan,
        ws.len() > 0 && (ws[0] == "pb"@ || ws[0] == "PB"@ || ws[0] == "pc"@ || ws[0] == "PC"@) ==> led_command(ws)
            == (LedCommand::Drive {
            port: if ws[0] == "pb"@ || ws[0] == "PB"@ { Port::PB } else { Port::PC },
            pin: if ws.len() > 1 && parse_u8(ws[1]) is Some { parse_u8(ws[1]).unwrap() } else { 0 },
            r: if ws.len() > 2 && parse_u8(ws[2]) is Some { parse_u8(ws[2]).unwrap() } else { 0 },
            g: if ws.len() > 3 && parse_u8(ws[3]) is Some { parse_u8(ws[3]).unwrap() } else { 0 },
            b: if ws.len() > 4 && parse_u8(ws[4]) is Some { parse_u8(ws[4]).unwrap() } else { 0 },
        }),
        ws.len() > 0 && ws[0] != "scan"@ && ws[0] != "pb"@ && ws[0] != "PB"@ && ws[0] != "pc"@ && ws[0] != "PC"@
            ==> led_command(ws) == LedCommand::Help,
        ws.len() > 0 && ws[0] == "bright"@ ==> screen_command(ws) == ScreenCommand::Bright(
            if ws.len() > 1 && parse_u8(ws[1]) is Some { parse_u8(ws[1]).unwrap() } else { 200 },
        ),
{
    reveal_strlit("scan");
    reveal_strlit("pb");
    reveal_strlit("PB");
    reveal_strlit("pc");
    reveal_strlit("PC");
    reveal_strlit("bright");
    reveal_strlit("invaders");
    reveal_strlit("clear");
    reveal_strlit("box");
    lemma_word_u8(ws, 1, 0);
    lemma_word_u8(ws, 2, 0);
    lemma_word_u8(ws, 3, 0);
    lemma_word_u8(ws, 4, 0);
    lemma_word_u8(ws, 1, 200);
    if ws.len() > 0 && ws[0] == "bright"@ {
        assert("bright"@.len() == 6 && "invaders"@.len() == 8 && "clear"@.len() == 5 && "box"@.len() == 3);
    }
    if ws.len() > 0 && (ws[0] == "pb"@ || ws[0] == "PB"@ || ws[0] == "pc"@ || ws[0] == "PC"@) {
        assert("scan"@.len() == 4 && "pb"@.len() == 2 && "PB"@.len() == 2 && "pc"@.len() == 2 && "PC"@.len() == 2);
    }
}

proof fn lemma_word_u8(ws: Seq<Seq<char>>, i: int, d: u8)
    requires
        0 <= i,
    ensures
        word_u8(ws, i, d) == if i < ws.len() && parse_u8(ws[i]) is Some { parse_u8(ws[i]).unwrap() } else { d },
{
}

/// The words as character sequences.
pub open spec fn word_texts(ws: Seq<&str>) -> Seq<Seq<char>> {
    ws.map_values(|w: &str| w@)
}

/// Word `i` of `ws` read as a `u8`, or `default`.
fn word_u8_or(ws: &Vec<&str>, i: usize, default: u8) -> (r: u8)
    ensures
        r == word_u8(word_texts(ws@), i as int, default),
{
    if i < ws.len() {
        parse_u8_or(ws[i], default)
    } else {
        default
    }
}

impl LedCommand {
    /// The `led` command that the words `ws` make.
    pub fn from_words(ws: &Vec<&str>) -> (c: LedCommand)
        ensures
            c == led_command(word_texts(ws@)),
    {
        proof {
            reveal_strlit("scan");
            reveal_strlit("pb");
            reveal_strlit("PB");
            reveal_strlit("pc");
            reveal_strlit("PC");
        }
        if ws.len() == 0 {
            return LedCommand::Help;
        }
        let w = ws[0];
        if same_text(w, "scan") {
            return LedCommand::Scan;
        }
        let port = if same_text(w, "pb") || same_text(w, "PB") {
            Port::PB
        } else if same_text(w, "pc") || same_text(w, "PC") {
            Port::PC
        } else {
            return LedCommand::Help;
        };
        let pin = word_u8_or(ws, 1, 0);
        let r = word_u8_or(ws, 2, 0);
        let g = word_u8_or(ws, 3, 0);
        let b = word_u8_or(ws, 4, 0);
        LedCommand::Drive { port, pin, r, g, b }
    }

    /// The `led` command that the argument line `args` makes.
    pub fn parse(args: &str) -> (c: LedCommand)
        ensures
            c == led_command(words(args@)),
    {
        let ws = split_words(args);
        assert(word_texts(ws@) =~= words(args@));
        LedCommand::from_words(&ws)
    }
}

impl ScreenCommand {
    /// The `screen` command that the words `ws` make.
    pub fn from_words(ws: &Vec<&str>) -> (c: ScreenCommand)
        ensures
            c == screen_command(word_texts(ws@)),
    {
        proof {
            reveal_strlit("invaders");
            reveal_strlit("clear");
            reveal_strlit("box");
            reveal_strlit("bright");
            reveal_strlit("on");
            reveal_strlit("off");
        }
        if ws.len() == 0 {
            return ScreenCommand::Help;
        }
        let w = ws[0];
        if same_text(w, "invaders") {
            ScreenCommand::Invaders
        } else if same_text(w, "clear") {
            ScreenCommand::Clear
        } else if same_text(w, "box") {
            ScreenCommand::Box
        } else if same_text(w, "bright") {
            ScreenCommand::Bright(word_u8_or(ws, 1, 200))
        } else if same_text(w, "on") {
            ScreenCommand::On
        } else if same_text(w, "off") {
            ScreenCommand::Off
        } else {
            ScreenCommand::Help
        }
    }

    /// The `screen` command that the argument line `args` makes.
    pub fn parse(args: &str) -> (c: ScreenCommand)
        ensures
            c == screen_command(words(args@)),
    {
        let ws = split_words(args);
        assert(word_texts(ws@) =~= words(args@));
        ScreenCommand::from_words(&ws)
    }
}
} // verus!
