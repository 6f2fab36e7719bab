//! Character classes of the lexical grammar.
//!
//! The Unicode classes are std's.  Within ASCII each is written out here;
//! beyond ASCII each is known only by name.

use vstd::prelude::*;

verus! {

/// A character of the ASCII range, U+0000 to U+007F.
pub open spec fn ascii(c: char) -> bool {
    c <= '\x7f'
}

/// An ASCII decimal digit, `0` to `9`.
pub open spec fn ascii_digit(c: char) -> bool {
    '0' <= c <= '9'
}

/// An ASCII letter, `a` to `z` or `A` to `Z`.
pub open spec fn ascii_letter(c: char) -> bool {
    'a' <= c <= 'z' || 'A' <= c <= 'Z'
}

/// ASCII white space: the space, and the controls from the tab to the
/// carriage return (tab, line feed, vertical tab, form feed, carriage
/// return).
pub open spec fn ascii_whitespace(c: char) -> bool {
    c == ' ' || '\t' <= c <= '\r'
}

/// What `char::is_whitespace` says of `c`, a character beyond ASCII:
/// whether it has the Unicode property `White_Space`.
pub uninterp spec fn whitespace_beyond_ascii(c: char) -> bool;

/// What `char::is_alphabetic` says of `c`, a character beyond ASCII:
/// whether it has the Unicode property `Alphabetic`.
pub uninterp spec fn alphabetic_beyond_ascii(c: char) -> bool;

/// What `char::is_alphanumeric` says of `c`, a character beyond ASCII:
/// whether it is alphabetic or numeric in Unicode's sense.
pub uninterp spec fn alphanumeric_beyond_ascii(c: char) -> bool;

/// Whether `c` is white space in Unicode's sense: what
/// `char::is_whitespace` says of it.
pub open spec fn unicode_whitespace(c: char) -> bool {
    if ascii(c) {
        ascii_whitespace(c)
    } else {
        whitespace_beyond_ascii(c)
    }
}

/// Whether `c` is alphabetic in Unicode's sense: what
/// `char::is_alphabetic` says of it.
pub open spec fn unicode_alphabetic(c: char) -> bool {
    if ascii(c) {
        ascii_letter(c)
    } else {
        alphabetic_beyond_ascii(c)
    }
}

/// Whether `c` is alphabetic or numeric in Unicode's sense: what
/// `char::is_alphanumeric` says of it.
pub open spec fn unicode_alphanumeric(c: char) -> bool {
    if ascii(c) {
        ascii_letter(c) || ascii_digit(c)
    } else {
        alphanumeric_beyond_ascii(c)
    }
}

/// `char::is_whitespace`, which tells whether a character has the
/// Unicode property `White_Space`.  Claimed: within ASCII these are the
/// space and the five controls from tab to carriage return; beyond
/// ASCII the answer depends on the character alone.
pub assume_specification[ char::is_whitespace ](c: char) -> (r: bool)
    ensures
        ascii(c) ==> r == ascii_whitespace(c),
        !ascii(c) ==> r == whitespace_beyond_ascii(c),
;

/// `char::is_alphabetic`, which tells whether a character has the
/// Unicode property `Alphabetic`.  Claimed: within ASCII these are the
/// letters; beyond ASCII the answer depends on the character alone; and
/// no alphabetic character is white space.
pub assume_specification[ char::is_alphabetic ](c: char) -> (r: bool)
    ensures
        ascii(c) ==> r == ascii_letter(c),
        !ascii(c) ==> r == alphabetic_beyond_ascii(c),
        r ==> !unicode_whitespace(c),
;

/// `char::is_alphanumeric`, which std documents as "either
/// `is_alphabetic()` or `is_numeric()`".  Claimed: within ASCII these
/// are the letters and the decimal digits; beyond ASCII the answer
/// depends on the character alone; and it is true of every alphabetic
/// character.
pub assume_specification[ char::is_alphanumeric ](c: char) -> (r: bool)
    ensures
        ascii(c) ==> r == (ascii_letter(c) || ascii_digit(c)),
        !ascii(c) ==> r == alphanumeric_beyond_ascii(c),
        unicode_alphabetic(c) ==> r,
;

/// A character that may begin an identifier.
pub open spec fn ident_start(c: char) -> bool {
    unicode_alphabetic(c) || c == '_'
}

/// A character that may continue an identifier.  Every alphabetic
/// character is alphanumeric; beyond ASCII that is known only where
/// `char::is_alphanumeric` is called, so both are named here.
pub open spec fn ident_part(c: char) -> bool {
    unicode_alphabetic(c) || unicode_alphanumeric(c) || c == '_'
}

/// The classes of characters that the scanner consumes in runs.
#[derive(Debug, Clone, Copy, PartialEq, Eq, Structural)]
pub enum CharClass {
    /// Unicode white space.
    Whitespace,
    /// Anything but a line feed: the body of a line comment.
    LineBody,
    /// ASCII decimal digits.
    Digit,
    /// Characters that continue an identifier.
    IdentPart,
}

impl CharClass {
    /// Whether `c` belongs to the class.
    pub open spec fn holds(self, c: char) -> bool {
        match self {
            CharClass::Whitespace => unicode_whitespace(c),
            CharClass::LineBody => c != '\n',
            CharClass::Digit => ascii_digit(c),
            CharClass::IdentPart => ident_part(c),
        }
    }

    /// Decides membership of `c` in the class.
    pub fn contains(self, c: char) -> (r: bool)
        ensures
            r == self.holds(c),
    {
        match self {
            CharClass::Whitespace => c.is_whitespace(),
            CharClass::LineBody => c != '\n',
            CharClass::Digit => is_ascii_digit(c),
            CharClass::IdentPart => c.is_alphanumeric() || c == '_',
        }
    }
}

/// Decides [`ascii_digit`].
pub fn is_ascii_digit(c: char) -> (r: bool)
    ensures
        r == ascii_digit(c),
{
    '0' <= c && c <= '9'
}

/// Decides [`ascii`].
pub fn is_ascii(c: char) -> (r: bool)
    ensures
        r == ascii(c),
{
    c <= '\x7f'
}

/// Decides [`ident_start`].  A character that begins an identifier is
/// never white space.
pub fn is_ident_start(c: char) -> (r: bool)
    ensures
        r == ident_start(c),
        r ==> !unicode_whitespace(c),
{
    c.is_alphabetic() || c == '_'
}

/// The end of the run of characters of `class` that starts at `i`: the first
/// index from `i` on that holds a character outside the class, or the length
/// of `s`.
pub open spec fn run_end(s: Seq<char>, i: int, class: CharClass) -> int
    decreases s.len() - i,
{
    if 0 <= i < s.len() && class.holds(s[i]) {
        run_end(s, i + 1, class)
    } else {
        i
    }
}

/// A run ends at or after its start, within the text, on a character
/// outside the class, and holds only characters of the class.
pub proof fn lemma_run_end(s: Seq<char>, i: int, class: CharClass)
    requires
        0 <= i <= s.len(),
    ensures
        i <= run_end(s, i, class) <= s.len(),
        run_end(s, i, class) < s.len() ==> !class.holds(s[run_end(s, i, class)]),
        forall|k: int| i <= k < run_end(s, i, class) ==> class.holds(#[trigger] s[k]),
    decreases s.len() - i,
{
    if i < s.len() && class.holds(s[i]) {
        lemma_run_end(s, i + 1, class);
    }
}

} // verus!
