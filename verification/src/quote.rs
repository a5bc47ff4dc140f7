//! The choice of quoting and the quoted text of a byte string.

use crate::class::{class_of, is_bare_safe, ByteClass};
use crate::escape::{
    escaped, fragment, lemma_escaped_concat, lemma_escaped_literal, lemma_escaped_one, literal,
    push_fragment,
};
use crate::shell::{lemma_read_quoted, read_word};
use vstd::prelude::*;
use vstd::utf8::{encode_utf8, is_ascii_chars, is_ascii_chars_encode_utf8};

verus! {

/// The three ways in which a byte string is written for the shell.
pub enum Quoting {
    /// The text as it is.
    Bare,
    /// The text between single quotes.
    Single,
    /// The text, with its escapes, between `$'` and `'`.
    AnsiC,
}

/// Whether some byte of `s` is written as an escape, so that only ANSI-C quoting will do.
pub open spec fn needs_ansi_c(s: Seq<u8>) -> bool {
    exists|i: int| 0 <= i < s.len() && class_of(#[trigger] s[i]).is_escaped()
}

/// Whether some byte of `s` stands for itself only between quotes.
pub open spec fn needs_single_quotes(s: Seq<u8>) -> bool {
    exists|i: int| 0 <= i < s.len() && class_of(#[trigger] s[i]) is NeedsSingleQuote
}

/// The quoting that `s` gets: ANSI-C quoting as soon as one byte is written as an escape,
/// whatever the other bytes are; otherwise single quotes as soon as one byte needs
/// them; otherwise none.
pub open spec fn quoting(s: Seq<u8>) -> Quoting {
    if needs_ansi_c(s) {
        Quoting::AnsiC
    } else if needs_single_quotes(s) {
        Quoting::Single
    } else {
        Quoting::Bare
    }
}

/// The quoted text of `s`.
pub open spec fn quoted(s: Seq<u8>) -> Seq<char> {
    match quoting(s) {
        Quoting::AnsiC => seq!['$', '\''] + escaped(s) + seq!['\''],
        Quoting::Single => seq!['\''] + escaped(s) + seq!['\''],
        Quoting::Bare => escaped(s),
    }
}

/// What one more byte at the end of `s` adds to the escaped text and to the need for
/// quotes.
proof fn lemma_push(s: Seq<u8>, b: u8)
    ensures
        escaped(s.push(b)) == escaped(s) + fragment(b),
        needs_ansi_c(s.push(b)) == (needs_ansi_c(s) || class_of(b).is_escaped()),
        needs_single_quotes(s.push(b)) == (needs_single_quotes(s) || class_of(
            b,
        ) is NeedsSingleQuote),
{
    let t = s.push(b);
    assert(t =~= s + seq![b]);
    lemma_escaped_concat(s, seq![b]);
    lemma_escaped_one(b);
    assert(t[s.len() as int] == b);
    assert(forall|i: int| 0 <= i < s.len() ==> s[i] == t[i]);
}

/// Writes the fragments of the bytes of `s` in one pass, noting on the way which quoting
/// they call for, and puts the quotes around the result.
fn quotemeta_inner(s: &[u8]) -> (text: String)
    ensures
        text@ == quoted(s@),
{
    let mut body = String::new();
    let mut single_quoted = false;
    let mut c_quoted = false;
    let mut i: usize = 0;
    while i < s.len()
        invariant
            i <= s.len(),
            body@ == escaped(s@.take(i as int)),
            c_quoted == needs_ansi_c(s@.take(i as int)),
            single_quoted == needs_single_quotes(s@.take(i as int)),
        decreases s.len() - i,
    {
        let ghost before = s@.take(i as int);
        let b: u8 = s[i];
        let class = push_fragment(&mut body, b);
        match class {
            ByteClass::BareSafe => {},
            ByteClass::NeedsSingleQuote => {
                single_quoted = true;
            },
            ByteClass::SpecialEscape | ByteClass::ControlOrHighBit => {
                c_quoted = true;
            },
        }
        i += 1;
        proof {
            assert(s@.take(i as int) =~= before.push(b));
            lemma_push(before, b);
        }
    }
    assert(s@.take(i as int) =~= s@);
    if c_quoted {
        let mut text = String::new();
        text.push('$');
        text.push('\'');
        text.append(body.as_str());
        text.push('\'');
        text
    } else if single_quoted {
        let mut text = String::new();
        text.push('\'');
        text.append(body.as_str());
        text.push('\'');
        text
    } else {
        body
    }
}

/// Quotes `s` for the shell.
///
/// The result is `s` itself where every byte is bare-safe, `s` between single quotes
/// where that is enough, and an ANSI-C quoted word otherwise; in each case a shell reads
/// it as one word made of the bytes of `s`. Every byte string is accepted, whether or
/// not it is valid UTF-8.
pub fn quotemeta(s: &[u8]) -> (text: String)
    ensures
        text@ == quoted(s@),
        read_word(text@) == Some(s@),
{
    proof {
        lemma_read_quoted(s@);
    }
    quotemeta_inner(s)
}

/// An input made of bare-safe bytes only is its own quoted text.
pub proof fn lemma_bare_safe_unchanged(s: Seq<u8>)
    requires
        forall|i: int| 0 <= i < s.len() ==> is_bare_safe(#[trigger] s[i]),
    ensures
        quoted(s) == literal(s),
{
    lemma_escaped_literal(s);
}

/// As soon as one byte is written as an escape, the text is ANSI-C quoted and never
/// merely single-quoted, whether or not other bytes of the input would have been
/// content with single quotes.
pub proof fn lemma_escape_forces_ansi_c(s: Seq<u8>)
    requires
        needs_ansi_c(s),
    ensures
        quoted(s) == seq!['$', '\''] + escaped(s) + seq!['\''],
        quoted(s).first() == '$',
        quoted(s).last() == '\'',
{
}

/// The quoted text is made of printable ASCII characters only.
pub proof fn lemma_quoted_printable(s: Seq<u8>)
    ensures
        forall|i: int| 0 <= i < quoted(s).len() ==> ' ' <= #[trigger] quoted(s)[i] <= '~',
        is_ascii_chars(quoted(s)),
{
    lemma_escaped_printable(s);
}

proof fn lemma_escaped_printable(s: Seq<u8>)
    ensures
        forall|i: int| 0 <= i < escaped(s).len() ==> ' ' <= #[trigger] escaped(s)[i] <= '~',
    decreases s.len(),
{
    if s.len() > 0 {
        let head = s.drop_last();
        lemma_escaped_printable(head);
        lemma_escaped_one(s.last());
        lemma_escaped_concat(head, seq![s.last()]);
        assert(s =~= head + seq![s.last()]);
    }
}

/// Quoting the quoted text of a bare-safe input once more gives the same text: the
/// bytes of that text are the input again.
pub proof fn lemma_bare_safe_idempotent(s: Seq<u8>)
    requires
        forall|i: int| 0 <= i < s.len() ==> is_bare_safe(#[trigger] s[i]),
    ensures
        encode_utf8(quoted(s)) == s,
        quoted(encode_utf8(quoted(s))) == quoted(s),
{
    lemma_bare_safe_unchanged(s);
    is_ascii_chars_encode_utf8(quoted(s));
}

} // verus!
