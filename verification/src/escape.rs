//! The text that stands for each byte, and for a whole byte string, before any quotes are
//! put around it.

use crate::class::{class_of, classify, ByteClass};
use vstd::prelude::*;

verus! {

/// Taken from the standard library's documentation, not proved: `String::push` appends
/// `ch` to the end of the string, and the characters that were there stay as they were.
pub assume_specification[ String::push ](s: &mut String, ch: char)
    ensures
        final(s)@ == old(s)@.push(ch),
;

/// The character that shows the octal digit `d`, for `0 <= d <= 7`.
pub open spec fn octal_digit(d: int) -> char {
    ('0' as int + d) as char
}

/// The text that stands for one byte: the byte itself as a character, a backslash and the
/// byte itself for a quote or a backslash, and a backslash and exactly three octal digits
/// for a control character or a byte above 126.
pub open spec fn fragment(b: u8) -> Seq<char> {
    match class_of(b) {
        ByteClass::BareSafe | ByteClass::NeedsSingleQuote => seq![b as char],
        ByteClass::SpecialEscape => seq!['\\', b as char],
        ByteClass::ControlOrHighBit => seq![
            '\\',
            octal_digit(b as int / 64),
            octal_digit(b as int / 8 % 8),
            octal_digit(b as int % 8),
        ],
    }
}

/// The fragments of the bytes of `s`, one for each byte, in order.
pub open spec fn fragments(s: Seq<u8>) -> Seq<Seq<char>> {
    Seq::new(s.len(), |i: int| fragment(s[i]))
}

/// The fragments of the bytes of `s` joined in order: what stands between the quotes.
pub open spec fn escaped(s: Seq<u8>) -> Seq<char> {
    fragments(s).flatten()
}

/// The bytes of `s` read as characters, one for one.
pub open spec fn literal(s: Seq<u8>) -> Seq<char> {
    Seq::new(s.len(), |i: int| s[i] as char)
}

/// Escaping works byte by byte: the text for `a` followed by `b` is the text for `a`
/// followed by the text for `b`.
pub proof fn lemma_escaped_concat(a: Seq<u8>, b: Seq<u8>)
    ensures
        escaped(a + b) == escaped(a) + escaped(b),
{
    assert(fragments(a + b) =~= fragments(a) + fragments(b));
    vstd::seq_lib::lemma_flatten_concat(fragments(a), fragments(b));
}

/// The text for a single byte is its fragment.
pub proof fn lemma_escaped_one(b: u8)
    ensures
        escaped(seq![b]) == fragment(b),
{
    assert(fragments(seq![b]) =~= seq![fragment(b)]);
    seq![fragment(b)].lemma_flatten_one_element();
}

/// Where no byte of `s` needs an escape, the text for `s` is `s` itself.
pub proof fn lemma_escaped_literal(s: Seq<u8>)
    requires
        forall|i: int| 0 <= i < s.len() ==> !class_of(#[trigger] s[i]).is_escaped(),
    ensures
        escaped(s) == literal(s),
    decreases s.len(),
{
    if s.len() > 0 {
        let head = s.drop_last();
        lemma_escaped_literal(head);
        lemma_escaped_one(s.last());
        lemma_escaped_concat(head, seq![s.last()]);
        assert(s =~= head + seq![s.last()]);
    }
}

fn octal_digit_char(d: u8) -> (c: char)
    requires
        d < 8,
    ensures
        c == octal_digit(d as int),
{
    ('0' as u8 + d) as char
}

/// Appends the fragment of `b` to `out` and returns the class of `b`.
pub fn push_fragment(out: &mut String, b: u8) -> (class: ByteClass)
    ensures
        final(out)@ == old(out)@ + fragment(b),
        class == class_of(b),
{
    let class = classify(b);
    match class {
        ByteClass::BareSafe | ByteClass::NeedsSingleQuote => {
            out.push(b as char);
        },
        ByteClass::SpecialEscape => {
            out.push('\\');
            out.push(b as char);
        },
        ByteClass::ControlOrHighBit => {
            out.push('\\');
            out.push(octal_digit_char(b / 64));
            out.push(octal_digit_char(b / 8 % 8));
            out.push(octal_digit_char(b % 8));
        },
    }
    class
}

} // verus!
