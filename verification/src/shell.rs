//! A model of how a shell reads one word of a command line, and the proof that it reads
//! the quoted text of a byte string back as that byte string.
//!
//! The model covers three forms of a word made of ASCII characters: a bare word, a word
//! between single quotes, and an ANSI-C quoted word (`$'...'`). It says `None` of any
//! other text, and of any escape other than an octal number, `\'` and `\\`.
//!
//! The model is about the grammar of a word alone. What lies beyond the grammar is not
//! in it: a shell takes an empty text for no word at all, and an operating system
//! passes no zero byte inside an argument.

use crate::class::{class_of, is_bare_safe, ByteClass};
use crate::escape::{
    escaped, fragment, lemma_escaped_concat, lemma_escaped_literal, lemma_escaped_one, literal,
};
use crate::quote::{quoted, quoting, Quoting};
use vstd::prelude::*;

verus! {

/// Whether `c` is an octal digit.
pub open spec fn is_octal(c: char) -> bool {
    '0' <= c <= '7'
}

/// The number that the octal digit `c` shows.
pub open spec fn octal_value(c: char) -> int {
    c as int - '0' as int
}

/// The number of octal digits that a shell takes after the backslash at `t[0]`: as many
/// as there are, up to three.
pub open spec fn octal_run(t: Seq<char>) -> int {
    if t.len() > 1 && is_octal(t[1]) {
        if t.len() > 2 && is_octal(t[2]) {
            if t.len() > 3 && is_octal(t[3]) {
                3
            } else {
                2
            }
        } else {
            1
        }
    } else {
        0
    }
}

/// The number written by the first `n` octal digits after `t[0]`, for `n` from 1 to 3.
pub open spec fn octal_number(t: Seq<char>, n: int) -> int {
    if n == 1 {
        octal_value(t[1])
    } else if n == 2 {
        8 * octal_value(t[1]) + octal_value(t[2])
    } else {
        64 * octal_value(t[1]) + 8 * octal_value(t[2]) + octal_value(t[3])
    }
}

/// The byte `b` followed by what the rest of the text was read as.
pub open spec fn prepend(b: u8, rest: Option<Seq<u8>>) -> Option<Seq<u8>> {
    match rest {
        Some(bytes) => Some(seq![b] + bytes),
        None => None,
    }
}

/// Reads what stands between `$'` and the closing `'` of an ANSI-C quoted word.
///
/// A backslash followed by octal digits stands for the byte with that number, where the
/// number is below 256; a backslash followed by a single quote or a backslash stands for
/// that character; a single quote without a backslash would end the word, so it cannot
/// occur; any other ASCII character stands for itself.
pub open spec fn read_ansi_c(t: Seq<char>) -> Option<Seq<u8>>
    decreases t.len(),
{
    if t.len() == 0 {
        Some(Seq::empty())
    } else if t[0] == '\\' {
        let n = octal_run(t);
        if n > 0 {
            if octal_number(t, n) < 256 {
                prepend(octal_number(t, n) as u8, read_ansi_c(t.skip(1 + n)))
            } else {
                None
            }
        } else if t.len() > 1 && (t[1] == '\'' || t[1] == '\\') {
            prepend(t[1] as u8, read_ansi_c(t.skip(2)))
        } else {
            None
        }
    } else if t[0] == '\'' || t[0] > '\x7f' {
        None
    } else {
        prepend(t[0] as u8, read_ansi_c(t.skip(1)))
    }
}

/// Reads what stands between two single quotes: every character stands for itself, and
/// there is no way to write a single quote.
pub open spec fn read_single_quoted(t: Seq<char>) -> Option<Seq<u8>> {
    if forall|i: int| 0 <= i < t.len() ==> #[trigger] t[i] != '\'' && t[i] <= '\x7f' {
        Some(Seq::new(t.len(), |i: int| t[i] as u8))
    } else {
        None
    }
}

/// Reads a word without quotes. The model covers the words made of bare-safe characters.
pub open spec fn read_bare(t: Seq<char>) -> Option<Seq<u8>> {
    if forall|i: int| 0 <= i < t.len() ==> #[trigger] t[i] <= '\x7f' && is_bare_safe(t[i] as u8) {
        Some(Seq::new(t.len(), |i: int| t[i] as u8))
    } else {
        None
    }
}

/// The bytes that the word `w` hands to a command, or `None` where the model does not
/// cover `w`.
pub open spec fn read_word(w: Seq<char>) -> Option<Seq<u8>> {
    if w.len() >= 3 && w[0] == '$' && w[1] == '\'' && w.last() == '\'' {
        read_ansi_c(w.subrange(2, w.len() - 1))
    } else if w.len() >= 2 && w[0] == '\'' && w.last() == '\'' {
        read_single_quoted(w.subrange(1, w.len() - 1))
    } else {
        read_bare(w)
    }
}

/// Between `$'` and `'`, the escaped text of `s` is read as `s`.
///
/// An octal escape always has three digits, so the reader takes all of them and none of
/// what follows, even where a digit follows.
pub proof fn lemma_read_escaped(s: Seq<u8>)
    ensures
        read_ansi_c(escaped(s)) == Some(s),
    decreases s.len(),
{
    if s.len() > 0 {
        let b = s[0];
        let tail = s.drop_first();
        let t = escaped(s);
        assert(s =~= seq![b] + tail);
        assert(t == fragment(b) + escaped(tail)) by {
            lemma_escaped_concat(seq![b], tail);
            lemma_escaped_one(b);
        }
        lemma_read_escaped(tail);
        match class_of(b) {
            ByteClass::ControlOrHighBit => {
                assert(octal_run(t) == 3 && octal_number(t, 3) == b);
                assert(t.skip(4) =~= escaped(tail));
            },
            ByteClass::SpecialEscape => {
                assert(octal_run(t) == 0);
                assert(t.skip(2) =~= escaped(tail));
            },
            ByteClass::BareSafe | ByteClass::NeedsSingleQuote => {
                assert(t.skip(1) =~= escaped(tail));
            },
        }
    }
}

/// The word that stands for a byte string is read back as that byte string.
pub proof fn lemma_read_quoted(s: Seq<u8>)
    ensures
        read_word(quoted(s)) == Some(s),
{
    let w = quoted(s);
    match quoting(s) {
        Quoting::AnsiC => {
            assert(w.subrange(2, w.len() - 1) =~= escaped(s));
            lemma_read_escaped(s);
        },
        Quoting::Single => {
            lemma_escaped_literal(s);
            assert(w.subrange(1, w.len() - 1) =~= literal(s));
        },
        Quoting::Bare => {
            lemma_escaped_literal(s);
            assert(w == literal(s));
        },
    }
}

/// Two byte strings with the same quoted text are the same byte string.
pub proof fn lemma_quoted_injective(a: Seq<u8>, b: Seq<u8>)
    requires
        quoted(a) == quoted(b),
    ensures
        a == b,
{
    lemma_read_quoted(a);
    lemma_read_quoted(b);
}

} // verus!
