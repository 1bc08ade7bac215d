//! Coloured marks for terminal output.
use vstd::prelude::*;

verus! {

/// The foreground colours that the output uses.
#[derive(Debug, Clone, Copy, PartialEq, Eq, Structural)]
pub enum TermColor {
    Green,
    Red,
    BrightBlack,
}

/// The SGR parameter that selects a foreground colour.
pub open spec fn color_code(color: TermColor) -> Seq<char> {
    match color {
        TermColor::Green => seq!['3', '2'],
        TermColor::Red => seq!['3', '1'],
        TermColor::BrightBlack => seq!['9', '0'],
    }
}

/// The escape sequence that sets a foreground colour.
pub open spec fn color_on(color: TermColor) -> Seq<char> {
    seq!['\x1b', '['] + color_code(color) + seq!['m']
}

/// The escape sequence that resets all attributes.
pub open spec fn color_off() -> Seq<char> {
    seq!['\x1b', '[', '0', 'm']
}

/// A text between the codes that colour it and reset the colour.
pub open spec fn painted(text: Seq<char>, color: TermColor) -> Seq<char> {
    color_on(color) + text + color_off()
}

/// Renders `text` with an `anstyle::Style` whose foreground is `color`:
/// the style's `Display` writes the colour's code, and its alternate form
/// writes the reset code.
#[verifier::external_body]
fn paint(text: &str, color: TermColor) -> (res: String)
    ensures
        res@ == painted(text@, color),
{
    let ansi = match color {
        TermColor::Green => anstyle::AnsiColor::Green,
        TermColor::Red => anstyle::AnsiColor::Red,
        TermColor::BrightBlack => anstyle::AnsiColor::BrightBlack,
    };
    let style = anstyle::Style::new().fg_color(Some(ansi.into()));
    format!("{style}{text}{style:#}")
}

/// A green check mark.
pub fn success_icon() -> (res: String)
    ensures
        res@ == painted(seq!['✓'], TermColor::Green),
{
    let mark = "✓";
    proof {
        reveal_strlit("✓");
    }
    paint(mark, TermColor::Green)
}

/// A red cross.
pub fn error_icon() -> (res: String)
    ensures
        res@ == painted(seq!['X'], TermColor::Red),
{
    let mark = "X";
    proof {
        reveal_strlit("X");
    }
    paint(mark, TermColor::Red)
}

/// The grey text shown for a null value.
pub fn null_value() -> (res: String)
    ensures
        res@ == painted(seq!['N', 'U', 'L', 'L'], TermColor::BrightBlack),
{
    let text = "NULL";
    proof {
        reveal_strlit("NULL");
    }
    paint(text, TermColor::BrightBlack)
}

} // verus!
