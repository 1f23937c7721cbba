//! Colours and the marks that messages begin with.

use vstd::prelude::*;

verus! {

/// The colours of messages.
#[derive(Clone, Copy, Debug, PartialEq, Eq, Structural)]
pub enum Colour {
    Green,
    Cyan,
    Yellow,
    Red,
}

/// The terminal sequence that switches to a colour.
pub open spec fn colour_code(colour: Colour) -> Seq<char> {
    match colour {
        Colour::Green => "\x1b[32m"@,
        Colour::Cyan => "\x1b[36m"@,
        Colour::Yellow => "\x1b[33m"@,
        Colour::Red => "\x1b[31m"@,
    }
}

/// `text` in a colour.
pub open spec fn painted(colour: Colour, text: Seq<char>) -> Seq<char> {
    colour_code(colour) + text + "\x1b[0m"@
}

/// A message behind a coloured arrow.
pub open spec fn notice(colour: Colour, message: Seq<char>) -> Seq<char> {
    painted(colour, "==>"@) + " "@ + message
}

/// A message that something failed.
pub open spec fn error_text(message: Seq<char>) -> Seq<char> {
    painted(Colour::Red, "error:"@) + " "@ + message
}

/// Writes `text` in a colour.
pub fn paint(colour: Colour, text: &str) -> (r: String)
    ensures
        r@ == painted(colour, text@),
{
    let code = match colour {
        Colour::Green => "\x1b[32m",
        Colour::Cyan => "\x1b[36m",
        Colour::Yellow => "\x1b[33m",
        Colour::Red => "\x1b[31m",
    };
    String::from_str(code).concat(text).concat("\x1b[0m")
}

/// Writes a message behind a coloured arrow.
pub fn note(colour: Colour, message: &str) -> (r: String)
    ensures
        r@ == notice(colour, message@),
{
    paint(colour, "==>").concat(" ").concat(message)
}

/// Writes a message that something failed.
pub fn error_line(message: &str) -> (r: String)
    ensures
        r@ == error_text(message@),
{
    paint(Colour::Red, "error:").concat(" ").concat(message)
}

/// A coloured text is the text between the sequence that switches to the colour and the one that
/// switches back. No two colours are written alike.
pub proof fn colours_stand_around_the_text(text: Seq<char>, a: Colour, b: Colour)
    ensures
        painted(Colour::Red, text) == "\x1b[31m"@ + text + "\x1b[0m"@,
        painted(Colour::Green, text) == "\x1b[32m"@ + text + "\x1b[0m"@,
        painted(Colour::Yellow, text) == "\x1b[33m"@ + text + "\x1b[0m"@,
        painted(Colour::Cyan, text) == "\x1b[36m"@ + text + "\x1b[0m"@,
        painted(a, text) == painted(b, text) ==> a == b,
        notice(a, text) == painted(a, "==>"@) + " "@ + text,
        error_text(text) == painted(Colour::Red, "error:"@) + " "@ + text,
{
    reveal_strlit("\x1b[31m");
    reveal_strlit("\x1b[32m");
    reveal_strlit("\x1b[33m");
    reveal_strlit("\x1b[36m");
    if painted(a, text) == painted(b, text) {
        assert(painted(a, text)[3] == colour_code(a)[3]);
        assert(painted(b, text)[3] == colour_code(b)[3]);
    }
}

} // verus!
