//! Character classes and case mappings.
use vstd::prelude::*;

use crate::text::{from_chars, to_chars};

verus! {

pub open spec fn is_ascii_char(c: char) -> bool {
    c <= '\x7f'
}

pub open spec fn is_ascii_text(s: Seq<char>) -> bool {
    forall|i: int| 0 <= i < s.len() ==> is_ascii_char(#[trigger] s[i])
}

/// The Unicode `White_Space` property.
pub open spec fn is_space(c: char) -> bool {
    ||| c == ' '
    ||| '\u{9}' <= c <= '\u{d}'
    ||| c == '\u{85}'
    ||| c == '\u{a0}'
    ||| c == '\u{1680}'
    ||| '\u{2000}' <= c <= '\u{200a}'
    ||| c == '\u{2028}'
    ||| c == '\u{2029}'
    ||| c == '\u{202f}'
    ||| c == '\u{205f}'
    ||| c == '\u{3000}'
}

/// Whether `c` is white space.
pub fn char_is_space(c: char) -> (res: bool)
    ensures
        res == is_space(c),
{
    c == ' ' || ('\u{9}' <= c && c <= '\u{d}') || c == '\u{85}' || c == '\u{a0}' || c == '\u{1680}'
        || ('\u{2000}' <= c && c <= '\u{200a}') || c == '\u{2028}' || c == '\u{2029}' || c
        == '\u{202f}' || c == '\u{205f}' || c == '\u{3000}'
}

pub open spec fn is_ascii_upper(c: char) -> bool {
    'A' <= c <= 'Z'
}

pub open spec fn is_ascii_lower(c: char) -> bool {
    'a' <= c <= 'z'
}

pub open spec fn is_digit(c: char) -> bool {
    '0' <= c <= '9'
}

/// What `char::is_alphanumeric` answers beyond ASCII.
pub uninterp spec fn unicode_alphanumeric(c: char) -> bool;

/// What `char::is_uppercase` answers beyond ASCII.
pub uninterp spec fn unicode_uppercase(c: char) -> bool;

/// What `char::is_lowercase` answers beyond ASCII.
pub uninterp spec fn unicode_lowercase(c: char) -> bool;

/// What `char::to_uppercase` yields beyond ASCII.
pub uninterp spec fn unicode_upper_chars(c: char) -> Seq<char>;

/// What `str::to_lowercase` yields for a text that is not all ASCII.
pub uninterp spec fn unicode_lower_text(s: Seq<char>) -> Seq<char>;

pub open spec fn is_alphanumeric(c: char) -> bool {
    if is_ascii_char(c) {
        is_ascii_upper(c) || is_ascii_lower(c) || is_digit(c)
    } else {
        unicode_alphanumeric(c)
    }
}

pub open spec fn is_uppercase(c: char) -> bool {
    if is_ascii_char(c) {
        is_ascii_upper(c)
    } else {
        unicode_uppercase(c)
    }
}

pub open spec fn is_lowercase(c: char) -> bool {
    if is_ascii_char(c) {
        is_ascii_lower(c)
    } else {
        unicode_lowercase(c)
    }
}

/// `char::is_alphanumeric`: letters and digits among the ASCII characters;
/// beyond ASCII the answer is only given a name.
pub assume_specification[ char::is_alphanumeric ](c: char) -> (res: bool)
    ensures
        res == (if is_ascii_char(c) {
            is_ascii_upper(c) || is_ascii_lower(c) || is_digit(c)
        } else {
            unicode_alphanumeric(c)
        }),
;

/// `char::is_uppercase`: `A` to `Z` among the ASCII characters; beyond ASCII
/// the answer is only given a name.
pub assume_specification[ char::is_uppercase ](c: char) -> (res: bool)
    ensures
        res == (if is_ascii_char(c) {
            is_ascii_upper(c)
        } else {
            unicode_uppercase(c)
        }),
;

/// `char::is_lowercase`: `a` to `z` among the ASCII characters; beyond ASCII
/// the answer is only given a name.
pub assume_specification[ char::is_lowercase ](c: char) -> (res: bool)
    ensures
        res == (if is_ascii_char(c) {
            is_ascii_lower(c)
        } else {
            unicode_lowercase(c)
        }),
;

/// The lower-case letter of an ASCII capital; every other character itself.
pub open spec fn ascii_lower(c: char) -> char {
    if is_ascii_upper(c) {
        ((c as u8) + 32) as u8 as char
    } else {
        c
    }
}

/// The capital of an ASCII lower-case letter; every other character itself.
pub open spec fn ascii_upper(c: char) -> char {
    if is_ascii_lower(c) {
        ((c as u8) - 32) as u8 as char
    } else {
        c
    }
}

pub open spec fn ascii_lower_text(s: Seq<char>) -> Seq<char> {
    s.map_values(|c: char| ascii_lower(c))
}

/// The capital form of one character, which may be several characters.
pub open spec fn upper_chars(c: char) -> Seq<char> {
    if is_ascii_char(c) {
        seq![ascii_upper(c)]
    } else {
        unicode_upper_chars(c)
    }
}

/// The lower-case form of a text.
pub open spec fn lower_text(s: Seq<char>) -> Seq<char> {
    if is_ascii_text(s) {
        ascii_lower_text(s)
    } else {
        unicode_lower_text(s)
    }
}

/// `char::to_uppercase`: the ASCII capital of an ASCII character, as one
/// character; beyond ASCII the characters are only given a name.
#[verifier::external_body]
fn to_uppercase(c: char) -> (res: Vec<char>)
    ensures
        res@ == (if is_ascii_char(c) {
            seq![ascii_upper(c)]
        } else {
            unicode_upper_chars(c)
        }),
{
    c.to_uppercase().collect()
}

/// `str::to_lowercase`: character by character on an ASCII text; on any other
/// text, where the mapping looks at neighbours, the result is only given a name.
#[verifier::external_body]
fn to_lowercase(s: &str) -> (res: String)
    ensures
        res@ == (if is_ascii_text(s@) {
            ascii_lower_text(s@)
        } else {
            unicode_lower_text(s@)
        }),
{
    s.to_lowercase()
}

/// Lower-cases one ASCII capital.
pub fn lower_ascii_char(c: char) -> (res: char)
    ensures
        res == ascii_lower(c),
{
    if 'A' <= c && c <= 'Z' {
        ((c as u8) + 32) as char
    } else {
        c
    }
}

/// Lower-cases the ASCII capitals of a text.
pub fn lower_ascii(s: &str) -> (res: String)
    ensures
        res@ == ascii_lower_text(s@),
{
    let mut out = String::new();
    let chars = to_chars(s);
    let mut i: usize = 0;
    while i < chars.len()
        invariant
            chars@ == s@,
            i <= chars.len(),
            out@ == ascii_lower_text(s@.take(i as int)),
        decreases chars.len() - i,
    {
        out.push(lower_ascii_char(chars[i]));
        i += 1;
        assert(s@.take(i as int) =~= s@.take(i - 1).push(s@[i - 1]));
    }
    assert(s@.take(s@.len() as int) =~= s@);
    out
}

/// Lower-cases a text.
pub fn lower(s: &str) -> (res: String)
    ensures
        res@ == lower_text(s@),
{
    to_lowercase(s)
}

/// A word with its first character capitalised and the others lower-cased.
pub open spec fn capitalized(w: Seq<char>) -> Seq<char> {
    if w.len() == 0 {
        w
    } else {
        upper_chars(w[0]) + lower_text(w.skip(1))
    }
}

/// Capitalises the first character of a word and lower-cases the rest.
pub fn capitalize(w: &str) -> (res: String)
    ensures
        res@ == capitalized(w@),
{
    let chars = to_chars(w);
    if chars.len() == 0 {
        return String::new();
    }
    let first = to_uppercase(chars[0]);
    let rest = from_chars(&chars, 1, chars.len());
    let mut out = from_chars(&first, 0, first.len());
    out.append(lower(rest.as_str()).as_str());
    assert(first@.subrange(0, first@.len() as int) =~= first@);
    assert(chars@.subrange(1, chars@.len() as int) =~= w@.skip(1));
    out
}

/// A set of characters that the text operations split at or trim.
pub enum CharSet {
    /// White space.
    Space,
    /// The blank alone.
    Blank,
    /// The full stop alone.
    Dot,
    /// Brackets, dashes, dots and blanks around a title.
    Padding,
    /// Whatever is neither a letter nor a digit.
    NotAlphanumeric,
    /// The directory separator.
    Slash,
}

impl CharSet {
    pub open spec fn contains(&self, c: char) -> bool {
        match self {
            CharSet::Space => is_space(c),
            CharSet::Blank => c == ' ',
            CharSet::Dot => c == '.',
            CharSet::Padding => is_padding(c),
            CharSet::NotAlphanumeric => !is_alphanumeric(c),
            CharSet::Slash => c == '/',
        }
    }

    /// Whether `c` belongs to the set.
    pub fn has(&self, c: char) -> (res: bool)
        ensures
            res == self.contains(c),
    {
        match self {
            CharSet::Space => char_is_space(c),
            CharSet::Blank => c == ' ',
            CharSet::Dot => c == '.',
            CharSet::Padding => c == '-' || c == ' ' || c == '.' || c == '(' || c == ')' || c == '['
                || c == ']' || c == '{' || c == '}',
            CharSet::NotAlphanumeric => !c.is_alphanumeric(),
            CharSet::Slash => c == '/',
        }
    }
}

/// Brackets, dashes, dots and blanks.
pub open spec fn is_padding(c: char) -> bool {
    c == '-' || c == ' ' || c == '.' || c == '(' || c == ')' || c == '[' || c == ']' || c == '{'
        || c == '}'
}

/// Lower-casing ASCII turns each capital into the letter thirty-two places
/// behind it and leaves every other character; raising it undoes that.
pub proof fn law_letters_have_two_cases(c: char)
    ensures
        'A' <= c <= 'Z' ==> ascii_lower(c) as int == c as int + 32 && ascii_upper(ascii_lower(c))
            == c,
        'a' <= c <= 'z' ==> ascii_upper(c) as int == c as int - 32 && ascii_lower(ascii_upper(c))
            == c,
        !('A' <= c <= 'Z') ==> ascii_lower(c) == c,
        !('a' <= c <= 'z') ==> ascii_upper(c) == c,
        ascii_lower(ascii_lower(c)) == ascii_lower(c),
{
}

/// On ASCII text, lower-casing a text lower-cases each of its characters, and a
/// word is capitalised by its first letter alone.
pub proof fn law_ascii_texts_are_mapped_letter_by_letter(s: Seq<char>, i: int)
    requires
        is_ascii_text(s),
        0 <= i < s.len(),
    ensures
        lower_text(s).len() == s.len(),
        'A' <= s[i] <= 'Z' ==> lower_text(s)[i] as int == s[i] as int + 32,
        !('A' <= s[i] <= 'Z') ==> lower_text(s)[i] == s[i],
        capitalized(s).len() == s.len(),
        'a' <= s[0] <= 'z' ==> capitalized(s)[0] as int == s[0] as int - 32,
        !('a' <= s[0] <= 'z') ==> capitalized(s)[0] == s[0],
        i > 0 ==> capitalized(s)[i] == lower_text(s)[i],
{
    let rest = s.skip(1);
    assert(is_ascii_text(rest)) by {
        assert forall|k: int| 0 <= k < rest.len() implies is_ascii_char(#[trigger] rest[k]) by {
            assert(rest[k] == s[k + 1]);
        }
    }
    assert(is_ascii_char(s[0]));
    if i > 0 {
        assert(rest[i - 1] == s[i]);
        assert(capitalized(s)[i] == lower_text(rest)[i - 1]);
    }
}

/// The characters of each set.
pub proof fn law_sets_hold_their_characters(c: char)
    ensures
        CharSet::Blank.contains(c) <==> c == ' ',
        CharSet::Dot.contains(c) <==> c == '.',
        CharSet::Slash.contains(c) <==> c == '/',
        CharSet::Padding.contains(c) <==> seq!['-', ' ', '.', '(', ')', '[', ']', '{', '}'].contains(
            c,
        ),
        c <= '\x7f' ==> (CharSet::Space.contains(c) <==> seq![
            ' ',
            '\u{9}',
            '\u{a}',
            '\u{b}',
            '\u{c}',
            '\u{d}',
        ].contains(c)),
        c <= '\x7f' ==> (CharSet::NotAlphanumeric.contains(c) <==> !('0' <= c <= '9') && !('A' <= c
            <= 'Z') && !('a' <= c <= 'z')),
        'a' <= c <= 'z' || 'A' <= c <= 'Z' || '0' <= c <= '9' ==> !CharSet::Space.contains(c)
            && !CharSet::Padding.contains(c),
{
    let padding = seq!['-', ' ', '.', '(', ')', '[', ']', '{', '}'];
    if is_padding(c) {
        let k: int = if c == '-' {
            0
        } else if c == ' ' {
            1
        } else if c == '.' {
            2
        } else if c == '(' {
            3
        } else if c == ')' {
            4
        } else if c == '[' {
            5
        } else if c == ']' {
            6
        } else if c == '{' {
            7
        } else {
            8
        };
        assert(padding[k] == c);
    }
    let space = seq![' ', '\u{9}', '\u{a}', '\u{b}', '\u{c}', '\u{d}'];
    if c <= '\x7f' && is_space(c) {
        let k: int = if c == ' ' {
            0
        } else {
            c as int - 8
        };
        assert(space[k] == c);
    }
}

/// Beyond ASCII, white space is what Unicode counts as such, and letters, digits
/// and case are what the standard library says they are.
pub proof fn law_other_scripts_are_left_to_unicode(c: char, s: Seq<char>)
    requires
        c > '\x7f',
    ensures
        CharSet::Space.contains(c) <==> c == '\u{85}' || c == '\u{a0}' || c == '\u{1680}' || (
        '\u{2000}' <= c && c <= '\u{200a}') || c == '\u{2028}' || c == '\u{2029}' || c == '\u{202f}'
            || c == '\u{205f}' || c == '\u{3000}',
        CharSet::NotAlphanumeric.contains(c) <==> !unicode_alphanumeric(c),
        is_uppercase(c) == unicode_uppercase(c),
        is_lowercase(c) == unicode_lowercase(c),
        upper_chars(c) == unicode_upper_chars(c),
        s.contains(c) ==> lower_text(s) == unicode_lower_text(s),
        ascii_lower(c) == c,
{
    if s.contains(c) {
        let i = choose|i: int| 0 <= i < s.len() && s[i] == c;
        assert(!is_ascii_char(s[i]));
    }
}

} // verus!
