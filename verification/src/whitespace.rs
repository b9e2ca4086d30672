//! Classification of characters as whitespace.

use vstd::prelude::*;

verus! {

/// Whether `c` carries the Unicode `White_Space` property.
///
/// The property holds of the controls U+0009 to U+000D, the space U+0020,
/// the next-line control U+0085, the no-break space U+00A0, the Ogham space
/// mark U+1680, the typographic spaces U+2000 to U+200A, the line and
/// paragraph separators U+2028 and U+2029, the narrow no-break space U+202F,
/// the medium mathematical space U+205F and the ideographic space U+3000.
/// The null character U+0000 is not among them.
pub open spec fn is_whitespace(c: char) -> bool {
    let code = c as u32;
    ||| 0x0009 <= code <= 0x000D
    ||| code == 0x0020
    ||| code == 0x0085
    ||| code == 0x00A0
    ||| code == 0x1680
    ||| 0x2000 <= code <= 0x200A
    ||| code == 0x2028
    ||| code == 0x2029
    ||| code == 0x202F
    ||| code == 0x205F
    ||| code == 0x3000
}

/// Decides [`is_whitespace`] for one character.
#[verifier::when_used_as_spec(is_whitespace)]
pub fn char_is_whitespace(c: char) -> (result: bool)
    ensures
        result == is_whitespace(c),
{
    let code: u32 = c as u32;
    (0x0009 <= code && code <= 0x000D) || code == 0x0020 || code == 0x0085 || code == 0x00A0
        || code == 0x1680 || (0x2000 <= code && code <= 0x200A) || code == 0x2028 || code
        == 0x2029 || code == 0x202F || code == 0x205F || code == 0x3000
}

} // verus!
