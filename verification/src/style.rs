use vstd::prelude::*;
use crate::engine::push_char;

verus! {

/// How a piece of text is drawn: the foreground colour, if any, as an index into the
/// terminal's colour palette.
#[derive(Debug, Default, Clone, Copy)]
pub struct Style {
    pub fg: Option<u8>,
}

impl Style {
    /// The plain style: no colour.
    pub fn new() -> (r: Style)
        ensures
            r == (Style { fg: None }),
    {
        Style { fg: None }
    }

    /// Whether this is the plain style.
    pub fn is_empty(&self) -> (r: bool)
        ensures
            r == (self.fg is None),
    {
        self.fg.is_none()
    }

    /// This style with foreground colour `color`.
    pub fn fg(self, color: u8) -> (r: Style)
        ensures
            r == (Style { fg: Some(color) }),
    {
        Style { fg: Some(color) }
    }
}

/// The digit character for `d`, which is below ten.
pub open spec fn digit_char(d: nat) -> char {
    if d == 0 {
        '0'
    } else if d == 1 {
        '1'
    } else if d == 2 {
        '2'
    } else if d == 3 {
        '3'
    } else if d == 4 {
        '4'
    } else if d == 5 {
        '5'
    } else if d == 6 {
        '6'
    } else if d == 7 {
        '7'
    } else if d == 8 {
        '8'
    } else {
        '9'
    }
}

/// `n` written in decimal, without leading zeros.
pub open spec fn decimal(n: nat) -> Seq<char>
    decreases n,
{
    if n < 10 {
        seq![digit_char(n)]
    } else {
        decimal(n / 10) + seq![digit_char(n % 10)]
    }
}

/// The escape sequence that ends a styled run: `ESC [ 0 m`.
pub open spec fn ansi_reset() -> Seq<char> {
    seq!['\x1b', '[', '0', 'm']
}

impl Style {
    /// The escape sequence that starts text in this style: nothing for the plain style,
    /// otherwise `ESC [ 3 8 ; 5 ; n m`, which selects colour `n` of the 256-colour
    /// palette as the foreground.
    pub open spec fn ansi_prefix(self) -> Seq<char> {
        match self.fg {
            None => Seq::empty(),
            Some(n) => seq!['\x1b', '[', '3', '8', ';', '5', ';'] + decimal(n as nat) + seq!['m'],
        }
    }

    /// Appends [`Style::ansi_prefix`] to `out`.
    pub fn write_ansi_prefix(&self, out: &mut String)
        ensures
            final(out)@ == old(out)@ + self.ansi_prefix(),
    {
        match self.fg {
            None => {
                assert(out@ =~= old(out)@ + self.ansi_prefix());
            },
            Some(n) => {
                push_char(out, '\x1b');
                push_char(out, '[');
                push_char(out, '3');
                push_char(out, '8');
                push_char(out, ';');
                push_char(out, '5');
                push_char(out, ';');
                write_decimal(n, out);
                push_char(out, 'm');
                assert(out@ =~= old(out)@ + self.ansi_prefix());
            },
        }
    }
}

fn digit_of(d: u8) -> (r: char)
    requires
        d < 10,
    ensures
        r == digit_char(d as nat),
{
    if d == 0 {
        '0'
    } else if d == 1 {
        '1'
    } else if d == 2 {
        '2'
    } else if d == 3 {
        '3'
    } else if d == 4 {
        '4'
    } else if d == 5 {
        '5'
    } else if d == 6 {
        '6'
    } else if d == 7 {
        '7'
    } else if d == 8 {
        '8'
    } else {
        '9'
    }
}

/// Appends `n` in decimal to `out`.
fn write_decimal(n: u8, out: &mut String)
    ensures
        final(out)@ == old(out)@ + decimal(n as nat),
{
    if n >= 100 {
        assert(decimal(n as nat) =~= seq![digit_char((n / 100) as nat), digit_char((n / 10 % 10) as nat),
            digit_char((n % 10) as nat)]) by {
            assert(decimal((n / 10) as nat) == decimal((n / 100) as nat) + seq![digit_char((n / 10 % 10) as nat)]);
        }
        push_char(out, digit_of(n / 100));
        push_char(out, digit_of(n / 10 % 10));
        push_char(out, digit_of(n % 10));
    } else if n >= 10 {
        assert(decimal(n as nat) =~= seq![digit_char((n / 10) as nat), digit_char((n % 10) as nat)]) by {
            assert(decimal((n / 10) as nat) == seq![digit_char((n / 10) as nat)]);
        }
        push_char(out, digit_of(n / 10));
        push_char(out, digit_of(n % 10));
    } else {
        push_char(out, digit_of(n));
    }
    assert(out@ =~= old(out)@ + decimal(n as nat));
}

/// An error with a message for the user.
#[derive(Debug)]
pub struct ParseError(pub String);

} // verus!
