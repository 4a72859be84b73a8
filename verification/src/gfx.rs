//! Terminal rendering of the display buffer: each character cell shows two
//! vertically adjacent pixels with an upper-half-block glyph, the foreground
//! color carrying the top pixel and the background color the bottom one,
//! both written as 24-bit true-color escape sequences.

use vstd::prelude::*;
use vstd::string::StringExecFns;

verus! {

/// A 24-bit color: red, green and blue bytes.
#[derive(Clone, Copy, Debug, PartialEq, Eq, Structural)]
pub struct Color(pub u8, pub u8, pub u8);

impl Color {
    /// The color packed into the low 24 bits of `val`: red in bits 16..24,
    /// green in bits 8..16, blue in bits 0..8.
    pub fn from_u32(val: u32) -> (c: Color)
        ensures
            c.0 == (val as int / 0x10000) % 0x100,
            c.1 == (val as int / 0x100) % 0x100,
            c.2 == val as int % 0x100,
    {
        Color(
            ((val / 0x10000) % 0x100) as u8,
            ((val / 0x100) % 0x100) as u8,
            (val % 0x100) as u8,
        )
    }
}

/// The character for one decimal digit.
pub open spec fn digit_char(d: int) -> char {
    if d == 0 { '0' }
    else if d == 1 { '1' }
    else if d == 2 { '2' }
    else if d == 3 { '3' }
    else if d == 4 { '4' }
    else if d == 5 { '5' }
    else if d == 6 { '6' }
    else if d == 7 { '7' }
    else if d == 8 { '8' }
    else { '9' }
}

/// The decimal rendering of a byte value, without leading zeroes.
pub open spec fn dec_u8(n: int) -> Seq<char> {
    if n < 10 {
        seq![digit_char(n)]
    } else if n < 100 {
        seq![digit_char(n / 10), digit_char(n % 10)]
    } else {
        seq![digit_char(n / 100), digit_char((n / 10) % 10), digit_char(n % 10)]
    }
}

/// The escape sequence selecting `c` as the foreground color.
pub open spec fn sgr_foreground(c: Color) -> Seq<char> {
    seq!['\u{1b}', '[', '3', '8', ';', '2', ';']
        + dec_u8(c.0 as int) + seq![';'] + dec_u8(c.1 as int) + seq![';'] + dec_u8(c.2 as int)
        + seq!['m']
}

/// The escape sequence selecting `c` as the background color.
pub open spec fn sgr_background(c: Color) -> Seq<char> {
    seq!['\u{1b}', '[', '4', '8', ';', '2', ';']
        + dec_u8(c.0 as int) + seq![';'] + dec_u8(c.1 as int) + seq![';'] + dec_u8(c.2 as int)
        + seq!['m']
}

/// One rendered character cell: both colors, the upper-half-block glyph,
/// and a formatting reset.
pub open spec fn cell_chars(fg: Color, bg: Color) -> Seq<char> {
    sgr_foreground(fg) + sgr_background(bg) + seq!['\u{2580}'] + seq!['\u{1b}', '[', '0', 'm']
}

/// Append one decimal digit.
fn push_digit(s: &mut String, d: u8)
    requires
        d < 10,
    ensures
        final(s)@ == old(s)@ + seq![digit_char(d as int)],
{
    proof {
        reveal_strlit("0");
        reveal_strlit("1");
        reveal_strlit("2");
        reveal_strlit("3");
        reveal_strlit("4");
        reveal_strlit("5");
        reveal_strlit("6");
        reveal_strlit("7");
        reveal_strlit("8");
        reveal_strlit("9");
    }
    if d == 0 { s.append("0"); }
    else if d == 1 { s.append("1"); }
    else if d == 2 { s.append("2"); }
    else if d == 3 { s.append("3"); }
    else if d == 4 { s.append("4"); }
    else if d == 5 { s.append("5"); }
    else if d == 6 { s.append("6"); }
    else if d == 7 { s.append("7"); }
    else if d == 8 { s.append("8"); }
    else { s.append("9"); }
    proof {
        assert(s@ =~= old(s)@ + seq![digit_char(d as int)]);
    }
}

/// Append the decimal rendering of a byte.
fn push_dec(s: &mut String, n: u8)
    ensures
        final(s)@ == old(s)@ + dec_u8(n as int),
{
    if n >= 100 {
        push_digit(s, n / 100);
        push_digit(s, (n / 10) % 10);
        push_digit(s, n % 10);
    } else if n >= 10 {
        push_digit(s, n / 10);
        push_digit(s, n % 10);
    } else {
        push_digit(s, n);
    }
    proof {
        assert(s@ =~= old(s)@ + dec_u8(n as int));
    }
}

/// Append the full color escape sequence: the given introducer, the three
/// color bytes separated by semicolons, and the final `m`.
fn push_color(s: &mut String, c: Color, background: bool)
    ensures
        final(s)@ == old(s)@ + (if background { sgr_background(c) } else { sgr_foreground(c) }),
{
    proof {
        reveal_strlit("\u{1b}[38;2;");
        reveal_strlit("\u{1b}[48;2;");
        reveal_strlit(";");
        reveal_strlit("m");
    }
    if background {
        s.append("\u{1b}[48;2;");
        proof {
            assert(s@ =~= old(s)@ + seq!['\u{1b}', '[', '4', '8', ';', '2', ';']);
        }
    } else {
        s.append("\u{1b}[38;2;");
        proof {
            assert(s@ =~= old(s)@ + seq!['\u{1b}', '[', '3', '8', ';', '2', ';']);
        }
    }
    push_dec(s, c.0);
    s.append(";");
    proof {
        assert(";"@ =~= seq![';']);
    }
    push_dec(s, c.1);
    s.append(";");
    push_dec(s, c.2);
    s.append("m");
    proof {
        assert("m"@ =~= seq!['m']);
        assert(s@ =~= old(s)@ + (if background { sgr_background(c) } else { sgr_foreground(c) }));
    }
}

/// One character cell showing the pixel pair (`foreground` on top,
/// `background` below) as a colored upper-half-block glyph followed by a
/// formatting reset.
pub fn draw(foreground: Color, background: Color) -> (s: String)
    ensures
        s@ == cell_chars(foreground, background),
{
    let mut s = String::new();
    push_color(&mut s, foreground, false);
    push_color(&mut s, background, true);
    proof {
        reveal_strlit("\u{2580}");
        reveal_strlit("\u{1b}[0m");
    }
    s.append("\u{2580}");
    s.append("\u{1b}[0m");
    proof {
        assert(s@ =~= cell_chars(foreground, background));
    }
    s
}

/// The canvas as a sequence of pixel rows.
pub open spec fn canvas_view(canvas: Seq<Vec<Color>>) -> Seq<Seq<Color>> {
    canvas.map_values(|row: Vec<Color>| row@)
}

/// The first `x` cells of one rendered character row, pairing `top[m]`
/// above `bottom[m]`.
pub open spec fn row_prefix(top: Seq<Color>, bottom: Seq<Color>, x: int) -> Seq<char>
    decreases x,
{
    if x <= 0 {
        Seq::empty()
    } else {
        row_prefix(top, bottom, x - 1) + cell_chars(top[x - 1], bottom[x - 1])
    }
}

/// One rendered character row: every cell of the pixel-row pair, then a
/// newline.
pub open spec fn row_chars(top: Seq<Color>, bottom: Seq<Color>) -> Seq<char> {
    row_prefix(top, bottom, top.len() as int) + seq!['\n']
}

/// The rendered rows built from the first `y` pixel rows of the canvas,
/// taken two at a time.
pub open spec fn frame_prefix(canvas: Seq<Seq<Color>>, y: int) -> Seq<char>
    decreases y,
{
    if y <= 1 {
        Seq::empty()
    } else {
        frame_prefix(canvas, y - 2) + row_chars(canvas[y - 2], canvas[y - 1])
    }
}

/// The whole rendered frame: each pair of vertically adjacent pixel rows
/// packed into one character row.
pub open spec fn frame_chars(canvas: Seq<Seq<Color>>) -> Seq<char> {
    frame_prefix(canvas, canvas.len() as int)
}

/// Render a whole canvas of pixel colors into one string, two pixel rows
/// per character row. Rows come in pairs, the lower row at least as long as
/// the upper, of which only the upper row's width is shown.
pub fn render_frame(canvas: &Vec<Vec<Color>>) -> (s: String)
    requires
        canvas@.len() % 2 == 0,
        forall|y: int| 0 <= y < canvas@.len() && y % 2 == 0
            ==> (#[trigger] canvas@[y + 1])@.len() == canvas@[y]@.len(),
    ensures
        s@ == frame_chars(canvas_view(canvas@)),
{
    let ghost cv = canvas_view(canvas@);
    let mut s = String::new();
    let mut y: usize = 0;
    proof {
        reveal_strlit("\n");
    }
    while y < canvas.len()
        invariant
            y % 2 == 0,
            y <= canvas@.len(),
            canvas@.len() % 2 == 0,
            cv == canvas_view(canvas@),
            forall|m: int| 0 <= m < canvas@.len() && m % 2 == 0
                ==> (#[trigger] canvas@[m + 1])@.len() == canvas@[m]@.len(),
            s@ == frame_prefix(cv, y as int),
        decreases canvas@.len() - y,
    {
        let top_len = canvas[y].len();
        let mut x: usize = 0;
        while x < top_len
            invariant
                x <= top_len,
                y % 2 == 0,
                y + 1 < canvas@.len(),
                cv == canvas_view(canvas@),
                top_len == canvas@[y as int]@.len(),
                canvas@[y as int + 1]@.len() == top_len,
                s@ == frame_prefix(cv, y as int) + row_prefix(cv[y as int], cv[y as int + 1], x as int),
            decreases top_len - x,
        {
            let cell = draw(canvas[y][x], canvas[y + 1][x]);
            s.append(cell.as_str());
            x += 1;
        }
        s.append("\n");
        proof {
            reveal_strlit("\n");
            assert("\n"@ =~= seq!['\n']);
            assert(cv[y as int] == canvas@[y as int]@);
            assert(cv[y as int + 1] == canvas@[y as int + 1]@);
            assert(row_chars(cv[y as int], cv[y as int + 1])
                == row_prefix(cv[y as int], cv[y as int + 1], top_len as int) + seq!['\n']);
            assert(frame_prefix(cv, y as int + 2)
                == frame_prefix(cv, y as int) + row_chars(cv[y as int], cv[y as int + 1]));
            assert(s@ =~= frame_prefix(cv, y as int + 2));
        }
        y += 2;
    }
    proof {
        assert(s@ == frame_prefix(cv, canvas@.len() as int));
    }
    s
}

} // verus!
