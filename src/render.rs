use vstd::prelude::*;

use crate::score::Mark;

verus! {

/// The terminal decoration of one displayed character.
#[derive(Clone, Copy, Debug, PartialEq, Eq, Structural)]
pub enum Tint {
    /// A colour of the 256-colour palette.
    Fixed(u8),
    Green,
    Yellow,
    White,
    /// No decoration.
    Plain,
}

/// The decoration of each symbol and mark character.
pub open spec fn tint_spec(c: char) -> Tint {
    if c == 'r' {
        Tint::Fixed(9)
    } else if c == 'g' {
        Tint::Green
    } else if c == 'b' {
        Tint::Fixed(12)
    } else if c == 'y' {
        Tint::Yellow
    } else if c == 'k' || c == 'X' {
        Tint::Fixed(242)
    } else if c == 'w' || c == 'O' {
        Tint::White
    } else if c == 'c' {
        Tint::Fixed(14)
    } else if c == 'p' || c == '-' {
        Tint::Fixed(13)
    } else {
        Tint::Plain
    }
}

/// The decoration of `c`.
pub fn tint_of(c: char) -> (r: Tint)
    ensures
        r == tint_spec(c),
{
    match c {
        'r' => Tint::Fixed(9),
        'g' => Tint::Green,
        'b' => Tint::Fixed(12),
        'y' => Tint::Yellow,
        'k' | 'X' => Tint::Fixed(242),
        'w' | 'O' => Tint::White,
        'c' => Tint::Fixed(14),
        'p' | '-' => Tint::Fixed(13),
        _ => Tint::Plain,
    }
}

/// The character that shows a mark.
pub open spec fn mark_char_spec(m: Mark) -> char {
    match m {
        Mark::Exact => 'X',
        Mark::Present => 'O',
        Mark::Absent => '-',
    }
}

/// The character that shows `m`: `X` exact, `O` present, `-` absent.
pub fn mark_char(m: Mark) -> (r: char)
    ensures
        r == mark_char_spec(m),
{
    match m {
        Mark::Exact => 'X',
        Mark::Present => 'O',
        Mark::Absent => '-',
    }
}

/// The characters that show a score.
pub fn marks_to_chars(marks: &Vec<Mark>) -> (r: Vec<char>)
    ensures
        r@ == marks@.map_values(|m: Mark| mark_char_spec(m)),
{
    let mut r: Vec<char> = Vec::new();
    let mut i: usize = 0;
    while i < marks.len()
        invariant
            i <= marks@.len(),
            r@ == marks@.take(i as int).map_values(|m: Mark| mark_char_spec(m)),
        decreases marks@.len() - i,
    {
        r.push(mark_char(marks[i]));
        i += 1;
        assert(r@ =~= marks@.take(i as int).map_values(|m: Mark| mark_char_spec(m)));
    }
    assert(marks@.take(marks@.len() as int) =~= marks@);
    r
}

/// What ansi_term's `ANSIStrings` prints for characters painted in the
/// given decorations.
pub uninterp spec fn ansi_rendering(items: Seq<(Tint, char)>) -> Seq<char>;

/// Relies on ansi_term: `Colour::normal` and `Style::default` give each
/// decoration's style, `Style::paint` paints one character, and
/// `ANSIStrings` prints the painted parts in order.
#[verifier::external_body]
fn render(items: &Vec<(Tint, char)>) -> (r: String)
    ensures
        r@ == ansi_rendering(items@),
{
    let mut painted: Vec<ansi_term::ANSIString<'static>> = Vec::new();
    for (tint, c) in items.iter() {
        let style = match tint {
            Tint::Fixed(n) => ansi_term::Colour::Fixed(*n).normal(),
            Tint::Green => ansi_term::Colour::Green.normal(),
            Tint::Yellow => ansi_term::Colour::Yellow.normal(),
            Tint::White => ansi_term::Colour::White.normal(),
            Tint::Plain => ansi_term::Style::default(),
        };
        painted.push(style.paint(c.to_string()));
    }
    ansi_term::ANSIStrings(&painted).to_string()
}

/// Each character of `s` with its decoration.
pub open spec fn tinted(s: Seq<char>) -> Seq<(Tint, char)> {
    s.map_values(|c: char| (tint_spec(c), c))
}

/// Paints each symbol or mark character in its decoration.
pub fn colorize(s: &Vec<char>) -> (r: String)
    ensures
        r@ == ansi_rendering(tinted(s@)),
{
    let mut items: Vec<(Tint, char)> = Vec::new();
    let mut i: usize = 0;
    while i < s.len()
        invariant
            i <= s@.len(),
            items@ == tinted(s@.take(i as int)),
        decreases s@.len() - i,
    {
        let c = s[i];
        items.push((tint_of(c), c));
        i += 1;
        assert(items@ =~= tinted(s@.take(i as int)));
    }
    assert(s@.take(s@.len() as int) =~= s@);
    render(&items)
}

} // verus!
