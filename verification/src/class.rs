//! The four classes of bytes, by what each needs in order to pass through a shell.

use vstd::prelude::*;

verus! {

/// What a byte needs in order to reach a command unchanged.
#[derive(Clone, Copy, Debug, PartialEq, Eq, Structural)]
pub enum ByteClass {
    /// Stands for itself anywhere, quoted or not.
    BareSafe,
    /// A control character, DEL, or a byte with the high bit set: written as an octal
    /// escape.
    ControlOrHighBit,
    /// A single quote or a backslash: written with a backslash before it.
    SpecialEscape,
    /// Any other byte: stands for itself, but only between quotes.
    NeedsSingleQuote,
}

impl ByteClass {
    /// Whether a byte of this class is written as a backslash escape, which only an
    /// ANSI-C quoted word can hold.
    pub open spec fn is_escaped(self) -> bool {
        self is ControlOrHighBit || self is SpecialEscape
    }
}

/// The bytes that a shell never treats specially: letters, digits and `+,-./:=@_`.
pub open spec fn is_bare_safe(b: u8) -> bool {
    let c = b as char;
    ||| 'a' <= c <= 'z'
    ||| 'A' <= c <= 'Z'
    ||| '0' <= c <= '9'
    ||| c == '+'
    ||| c == ','
    ||| c == '-'
    ||| c == '.'
    ||| c == '/'
    ||| c == ':'
    ||| c == '='
    ||| c == '@'
    ||| c == '_'
}

/// The class of a byte.
pub open spec fn class_of(b: u8) -> ByteClass {
    if is_bare_safe(b) {
        ByteClass::BareSafe
    } else if b <= 31 || b >= 127 {
        ByteClass::ControlOrHighBit
    } else if b as char == '\'' || b as char == '\\' {
        ByteClass::SpecialEscape
    } else {
        ByteClass::NeedsSingleQuote
    }
}

/// The four classes by the values of their bytes: no byte is left out, and none falls
/// under two classes.
pub proof fn lemma_classes_by_value(b: u8)
    ensures
        class_of(b) is BareSafe <==> is_bare_safe(b),
        class_of(b) is ControlOrHighBit <==> b <= 31 || b >= 127,
        class_of(b) is SpecialEscape <==> b == 39 || b == 92,
        class_of(b) is NeedsSingleQuote <==> 32 <= b <= 126 && b != 39 && b != 92 && !is_bare_safe(
            b,
        ),
{
}

/// Classifies one byte.
pub fn classify(b: u8) -> (class: ByteClass)
    ensures
        class == class_of(b),
{
    match b as char {
        '+' | ',' | '-' | '.' | '/' | '0'..='9' | ':' | '=' | '@' | 'A'..='Z' | '_' | 'a'..='z' => {
            ByteClass::BareSafe
        },
        '\0'..='\x1f' | '\x7f'..='\u{ff}' => ByteClass::ControlOrHighBit,
        '\'' | '\\' => ByteClass::SpecialEscape,
        _ => ByteClass::NeedsSingleQuote,
    }
}

} // verus!
