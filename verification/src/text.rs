//! Text assembly: concatenation, block indentation and terminal emphasis.

use colored::Colorize;
use indenter::indented;
use std::fmt::Write;
use vstd::prelude::*;
use vstd::string::*;

verus! {

/// The pieces written one after the other.
pub open spec fn flatten(pieces: Seq<Seq<char>>) -> Seq<char>
    decreases pieces.len(),
{
    if pieces.len() == 0 {
        Seq::empty()
    } else {
        flatten(pieces.drop_last()) + pieces.last()
    }
}

/// Writing one more piece appends it to what the earlier pieces gave.
pub proof fn lemma_flatten_step(pieces: Seq<Seq<char>>, i: int)
    requires
        0 <= i < pieces.len(),
    ensures
        flatten(pieces.take(i + 1)) == flatten(pieces.take(i)) + pieces[i],
{
    assert(pieces.take(i + 1).drop_last() =~= pieces.take(i));
}

/// `text` with `prefix` put in front of the first character of every line that
/// has one. `fresh` tells whether the text starts at the beginning of a line.
pub open spec fn indent_from(text: Seq<char>, prefix: Seq<char>, fresh: bool) -> Seq<char>
    decreases text.len(),
{
    if text.len() == 0 {
        Seq::empty()
    } else if text[0] == '\n' {
        seq!['\n'] + indent_from(text.skip(1), prefix, true)
    } else if fresh {
        prefix + seq![text[0]] + indent_from(text.skip(1), prefix, false)
    } else {
        seq![text[0]] + indent_from(text.skip(1), prefix, false)
    }
}

/// A block of lines, each non-empty line moved right by `prefix`. Line breaks
/// stay where they are and empty lines stay empty.
pub open spec fn indented_block(text: Seq<char>, prefix: Seq<char>) -> Seq<char> {
    indent_from(text, prefix, true)
}

/// `indenter::indented(..).with_str(prefix)`, written to once with `text`.
///
/// Trusted: the writer splits what it is given at every `'\n'`, passes the line
/// breaks through, and inserts `prefix` before the first non-empty piece of each
/// line; a line without characters gets no prefix.
#[verifier::external_body]
pub(crate) fn indent(text: &str, prefix: &'static str) -> (out: String)
    ensures
        out@ == indented_block(text@, prefix@),
{
    let mut out = String::new();
    let _ = indented(&mut out).with_str(prefix).write_str(text);
    out
}

/// Whether a text holds no line break.
pub open spec fn line_free(text: Seq<char>) -> bool {
    forall|i: int| 0 <= i < text.len() ==> #[trigger] text[i] != '\n'
}

/// Whether `shown` is `text` with characters other than line breaks put in
/// between: the text can be read off what is shown, line by line.
pub open spec fn carries(shown: Seq<char>, text: Seq<char>) -> bool
    decreases shown.len(),
{
    if shown.len() == 0 {
        text.len() == 0
    } else {
        ||| text.len() > 0 && shown[0] == text[0] && carries(shown.skip(1), text.skip(1))
        ||| shown[0] != '\n' && carries(shown.skip(1), text)
    }
}

/// The escape code that ends every emphasis.
pub open spec fn reset_code() -> Seq<char> {
    seq!['\u{1b}', '[', '0', 'm']
}

/// `text` with `style` put behind every reset code in it, so that an emphasis
/// around the text goes on after an emphasis within it has ended.
pub open spec fn resumed(text: Seq<char>, style: Seq<char>) -> Seq<char>
    decreases text.len(),
{
    if text.len() == 0 {
        Seq::empty()
    } else if reset_code().is_prefix_of(text) {
        reset_code() + style + resumed(text.skip(4), style)
    } else {
        seq![text[0]] + resumed(text.skip(1), style)
    }
}

/// What an emphasised text may be: the text itself, or the text between an
/// escape code without line break and the reset code, the escape code repeated
/// behind every reset code within the text.
pub open spec fn emphasised(shown: Seq<char>, text: Seq<char>) -> bool {
    shown == text || exists|style: Seq<char>|
        line_free(style) && shown == #[trigger] (style + resumed(text, style)) + reset_code()
}

/// `Colorize::color` of the `colored` crate, rendered to a string.
///
/// Trusted: where the environment of the process switches colours off, the
/// result is the text; else it is the text between the escape code of the
/// colour and the reset code, with the escape code repeated behind every reset
/// code in the text.
#[verifier::external_body]
pub(crate) fn paint(text: &str, color: &str) -> (out: String)
    ensures
        emphasised(out@, text@),
{
    text.color(color).to_string()
}

/// `Colorize::bold` of the `colored` crate, rendered to a string.
///
/// Trusted: as for `paint`, with the escape code of bold type.
#[verifier::external_body]
pub(crate) fn embolden(text: &str) -> (out: String)
    ensures
        emphasised(out@, text@),
{
    text.bold().to_string()
}

/// Every text carries itself.
pub proof fn lemma_carries_itself(text: Seq<char>)
    ensures
        carries(text, text),
    decreases text.len(),
{
    if text.len() > 0 {
        lemma_carries_itself(text.skip(1));
    }
}

/// A text without line break carries the empty text.
pub proof fn lemma_carries_nothing(shown: Seq<char>)
    requires
        line_free(shown),
    ensures
        carries(shown, Seq::empty()),
    decreases shown.len(),
{
    if shown.len() > 0 {
        assert(shown[0] != '\n');
        assert forall|i: int| 0 <= i < shown.skip(1).len() implies #[trigger] shown.skip(1)[i]
            != '\n' by {
            assert(shown.skip(1)[i] == shown[i + 1]);
        }
        lemma_carries_nothing(shown.skip(1));
    }
}

/// What two shown texts carry one after the other, they carry together.
pub proof fn lemma_carries_in_sequence(
    shown: Seq<char>,
    text: Seq<char>,
    more_shown: Seq<char>,
    more_text: Seq<char>,
)
    requires
        carries(shown, text),
        carries(more_shown, more_text),
    ensures
        carries(shown + more_shown, text + more_text),
    decreases shown.len(),
{
    if shown.len() == 0 {
        assert(shown + more_shown =~= more_shown);
        assert(text + more_text =~= more_text);
    } else {
        assert((shown + more_shown)[0] == shown[0]);
        assert((shown + more_shown).skip(1) =~= shown.skip(1) + more_shown);
        if text.len() > 0 && shown[0] == text[0] && carries(shown.skip(1), text.skip(1)) {
            lemma_carries_in_sequence(shown.skip(1), text.skip(1), more_shown, more_text);
            assert((text + more_text)[0] == text[0]);
            assert((text + more_text).skip(1) =~= text.skip(1) + more_text);
        } else {
            lemma_carries_in_sequence(shown.skip(1), text, more_shown, more_text);
        }
    }
}

/// What is shown of a shown text carries what that text carries.
pub proof fn lemma_carries_through(shown: Seq<char>, between: Seq<char>, text: Seq<char>)
    requires
        carries(shown, between),
        carries(between, text),
    ensures
        carries(shown, text),
    decreases shown.len(),
{
    if shown.len() > 0 {
        if between.len() > 0 && shown[0] == between[0] && carries(
            shown.skip(1),
            between.skip(1),
        ) {
            if text.len() > 0 && between[0] == text[0] && carries(between.skip(1), text.skip(1)) {
                lemma_carries_through(shown.skip(1), between.skip(1), text.skip(1));
            } else {
                lemma_carries_through(shown.skip(1), between.skip(1), text);
            }
        } else {
            lemma_carries_through(shown.skip(1), between, text);
        }
    }
}

/// Characters other than line breaks may be put anywhere into what is shown.
pub proof fn lemma_carries_with_more_between(
    front: Seq<char>,
    between: Seq<char>,
    back: Seq<char>,
    text: Seq<char>,
)
    requires
        carries(front + back, text),
        line_free(between),
    ensures
        carries(front + between + back, text),
    decreases front.len(),
{
    if front.len() == 0 {
        assert(front + back =~= back);
        assert(front + between + back =~= between + back);
        lemma_carries_nothing(between);
        lemma_carries_in_sequence(between, Seq::empty(), back, text);
        assert(Seq::<char>::empty() + text =~= text);
    } else {
        let whole = front + back;
        let more = front + between + back;
        assert(whole[0] == front[0] && more[0] == front[0]);
        assert(whole.skip(1) =~= front.skip(1) + back);
        assert(more.skip(1) =~= front.skip(1) + between + back);
        if text.len() > 0 && whole[0] == text[0] && carries(whole.skip(1), text.skip(1)) {
            lemma_carries_with_more_between(front.skip(1), between, back, text.skip(1));
        } else {
            lemma_carries_with_more_between(front.skip(1), between, back, text);
        }
    }
}

/// Repeating an escape code behind the reset codes of a text leaves the text
/// to be read.
pub proof fn lemma_resumed_carries(text: Seq<char>, style: Seq<char>)
    requires
        line_free(style),
    ensures
        carries(resumed(text, style), text),
    decreases text.len(),
{
    if text.len() > 0 {
        if reset_code().is_prefix_of(text) {
            let rest = text.skip(4);
            lemma_resumed_carries(rest, style);
            lemma_carries_nothing(style);
            lemma_carries_in_sequence(style, Seq::empty(), resumed(rest, style), rest);
            assert(Seq::<char>::empty() + rest =~= rest);
            lemma_carries_itself(reset_code());
            lemma_carries_in_sequence(
                reset_code(),
                reset_code(),
                style + resumed(rest, style),
                rest,
            );
            assert(reset_code() + rest =~= text);
            assert(reset_code() + (style + resumed(rest, style)) =~= reset_code() + style
                + resumed(rest, style));
        } else {
            let rest = text.skip(1);
            lemma_resumed_carries(rest, style);
            lemma_carries_itself(seq![text[0]]);
            lemma_carries_in_sequence(seq![text[0]], seq![text[0]], resumed(rest, style), rest);
            assert(seq![text[0]] + rest =~= text);
        }
    }
}

/// An emphasised text carries the text.
pub proof fn lemma_emphasised_carries(shown: Seq<char>, text: Seq<char>)
    requires
        emphasised(shown, text),
    ensures
        carries(shown, text),
{
    if shown == text {
        lemma_carries_itself(text);
    } else {
        let style = choose|style: Seq<char>|
            line_free(style) && shown == #[trigger] (style + resumed(text, style)) + reset_code();
        lemma_resumed_carries(text, style);
        lemma_carries_nothing(style);
        lemma_carries_in_sequence(style, Seq::empty(), resumed(text, style), text);
        assert(Seq::<char>::empty() + text =~= text);
        assert(line_free(reset_code()));
        lemma_carries_nothing(reset_code());
        lemma_carries_in_sequence(
            style + resumed(text, style),
            text,
            reset_code(),
            Seq::empty(),
        );
        assert(text + Seq::<char>::empty() =~= text);
    }
}

/// Pieces that carry texts one by one carry them written one after the other.
pub proof fn lemma_flatten_carries(shown: Seq<Seq<char>>, texts: Seq<Seq<char>>)
    requires
        shown.len() == texts.len(),
        forall|i: int| 0 <= i < shown.len() ==> carries(#[trigger] shown[i], texts[i]),
    ensures
        carries(flatten(shown), flatten(texts)),
    decreases shown.len(),
{
    if shown.len() > 0 {
        lemma_flatten_carries(shown.drop_last(), texts.drop_last());
        lemma_carries_in_sequence(
            flatten(shown.drop_last()),
            flatten(texts.drop_last()),
            shown.last(),
            texts.last(),
        );
    }
}

/// Moving a block right leaves what it carries to be read, moved right as
/// well: whether the block starts a line or goes on in one, and also where the
/// prefix of the line that goes on has been shown already.
pub proof fn lemma_indentation_carries(shown: Seq<char>, text: Seq<char>, prefix: Seq<char>)
    requires
        carries(shown, text),
        line_free(prefix),
    ensures
        carries(indent_from(shown, prefix, true), indent_from(text, prefix, true)),
        carries(indent_from(shown, prefix, false), indent_from(text, prefix, false)),
        carries(prefix + indent_from(shown, prefix, false), indent_from(text, prefix, true)),
    decreases shown.len(),
{
    if shown.len() == 0 {
        assert(prefix + Seq::<char>::empty() =~= prefix);
        lemma_carries_nothing(prefix);
    } else {
        let c = shown[0];
        let rest_shown = shown.skip(1);
        let first = seq![c];
        lemma_carries_itself(first);
        lemma_carries_itself(prefix);
        lemma_carries_nothing(prefix);
        if text.len() > 0 && c == text[0] && carries(rest_shown, text.skip(1)) {
            let rest = text.skip(1);
            lemma_indentation_carries(rest_shown, rest, prefix);
            if c == '\n' {
                let shown_tail = indent_from(rest_shown, prefix, true);
                let tail = indent_from(rest, prefix, true);
                lemma_carries_in_sequence(first, first, shown_tail, tail);
                lemma_carries_in_sequence(prefix, Seq::empty(), first + shown_tail, first + tail);
                assert(Seq::<char>::empty() + (first + tail) =~= first + tail);
            } else {
                let shown_tail = indent_from(rest_shown, prefix, false);
                let tail = indent_from(rest, prefix, false);
                lemma_carries_in_sequence(first, first, shown_tail, tail);
                lemma_carries_in_sequence(prefix, prefix, first + shown_tail, first + tail);
                assert(prefix + (first + shown_tail) =~= prefix + first + shown_tail);
                assert(prefix + (first + tail) =~= prefix + first + tail);
            }
        } else {
            lemma_indentation_carries(rest_shown, text, prefix);
            let shown_tail = indent_from(rest_shown, prefix, false);
            assert(line_free(first));
            lemma_carries_with_more_between(prefix, first, shown_tail, indent_from(text, prefix, true));
            assert(Seq::<char>::empty() + shown_tail =~= shown_tail);
            lemma_carries_with_more_between(
                Seq::empty(),
                first,
                shown_tail,
                indent_from(text, prefix, false),
            );
            assert(Seq::<char>::empty() + first + shown_tail =~= first + shown_tail);
            assert(prefix + (first + shown_tail) =~= prefix + first + shown_tail);
        }
    }
}

/// `str::eq` of the standard library.
///
/// Trusted: two string slices compare equal exactly when they hold the same
/// characters.
#[verifier::external_body]
pub(crate) fn same_text(a: &str, b: &str) -> (same: bool)
    ensures
        same == (a@ == b@),
{
    a == b
}

/// What `str::trim` leaves of a text.
pub uninterp spec fn trimmed(text: Seq<char>) -> Seq<char>;

/// `str::trim` of the standard library.
///
/// Trusted: the result is the text without the white space at its beginning and
/// at its end, which depends on the text alone.
#[verifier::external_body]
pub(crate) fn trim(text: &str) -> (out: &str)
    ensures
        out@ == trimmed(text@),
{
    text.trim()
}

/// `str::starts_with` of the standard library, for a prefix that is a string.
///
/// Trusted: the result tells whether the text begins with the characters of
/// `prefix`.
#[verifier::external_body]
pub(crate) fn starts_with(text: &str, prefix: &str) -> (begins: bool)
    ensures
        begins == prefix@.is_prefix_of(text@),
{
    text.starts_with(prefix)
}

/// The character that writes a digit.
pub open spec fn digit_char(digit: nat) -> char {
    if digit == 0 {
        '0'
    } else if digit == 1 {
        '1'
    } else if digit == 2 {
        '2'
    } else if digit == 3 {
        '3'
    } else if digit == 4 {
        '4'
    } else if digit == 5 {
        '5'
    } else if digit == 6 {
        '6'
    } else if digit == 7 {
        '7'
    } else if digit == 8 {
        '8'
    } else {
        '9'
    }
}

/// A number as it is written in decimal digits, without zeros in front.
pub open spec fn decimal_digits(number: nat) -> Seq<char>
    decreases number,
{
    if number < 10 {
        seq![digit_char(number)]
    } else {
        decimal_digits(number / 10) + seq![digit_char(number % 10)]
    }
}

/// The text of one digit.
fn digit_text(digit: usize) -> (out: &'static str)
    requires
        digit < 10,
    ensures
        out@ == seq![digit_char(digit as nat)],
{
    proof {
        reveal_strlit("0");
        assert("0"@ =~= seq!['0']);
        reveal_strlit("1");
        assert("1"@ =~= seq!['1']);
        reveal_strlit("2");
        assert("2"@ =~= seq!['2']);
        reveal_strlit("3");
        assert("3"@ =~= seq!['3']);
        reveal_strlit("4");
        assert("4"@ =~= seq!['4']);
        reveal_strlit("5");
        assert("5"@ =~= seq!['5']);
        reveal_strlit("6");
        assert("6"@ =~= seq!['6']);
        reveal_strlit("7");
        assert("7"@ =~= seq!['7']);
        reveal_strlit("8");
        assert("8"@ =~= seq!['8']);
        reveal_strlit("9");
        assert("9"@ =~= seq!['9']);
    }
    if digit == 0 {
        "0"
    } else if digit == 1 {
        "1"
    } else if digit == 2 {
        "2"
    } else if digit == 3 {
        "3"
    } else if digit == 4 {
        "4"
    } else if digit == 5 {
        "5"
    } else if digit == 6 {
        "6"
    } else if digit == 7 {
        "7"
    } else if digit == 8 {
        "8"
    } else {
        "9"
    }
}

/// Writes a number in decimal digits.
pub fn decimal(number: usize) -> (out: String)
    ensures
        out@ == decimal_digits(number as nat),
    decreases number,
{
    if number < 10 {
        String::from_str(digit_text(number))
    } else {
        let mut out = decimal(number / 10);
        out.append(digit_text(number % 10));
        out
    }
}

/// `text` as it is, or emphasised with `color` when `colorize` is set.
pub(crate) fn tint(text: &str, color: &str, colorize: bool) -> (out: String)
    ensures
        !colorize ==> out@ == text@,
        carries(out@, text@),
{
    if colorize {
        let out = paint(text, color);
        proof {
            lemma_emphasised_carries(out@, text@);
        }
        out
    } else {
        proof {
            lemma_carries_itself(text@);
        }
        String::from_str(text)
    }
}

/// `text` as it is, or emphasised with `color` in bold when `colorize` is set.
pub(crate) fn tint_bold(text: &str, color: &str, colorize: bool) -> (out: String)
    ensures
        !colorize ==> out@ == text@,
        carries(out@, text@),
{
    if colorize {
        let colored = paint(text, color);
        let out = embolden(colored.as_str());
        proof {
            lemma_emphasised_carries(colored@, text@);
            lemma_emphasised_carries(out@, colored@);
            lemma_carries_through(out@, colored@, text@);
        }
        out
    } else {
        proof {
            lemma_carries_itself(text@);
        }
        String::from_str(text)
    }
}

} // verus!
