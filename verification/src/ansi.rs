//! The terminal escape sequences that compilers colour their output with.

use crate::grammar::is_gap;
use crate::text::{is_digit, white_space};
use vstd::prelude::*;

verus! {

/// A character that may stand between `ESC [` and the final letter.
pub open spec fn is_parameter(c: char) -> bool {
    is_digit(c) || c == ';'
}

/// A letter that ends an escape sequence.
pub open spec fn is_final(c: char) -> bool {
    c == 'm' || c == 'G' || c == 'K' || c == 'H' || c == 'F'
}

/// `ESC [`, then digits and semicolons, then a final letter.
pub open spec fn is_escape(s: Seq<char>) -> bool {
    &&& s.len() >= 3
    &&& s[0] == '\u{1b}'
    &&& s[1] == '['
    &&& forall|i: int| 2 <= i < s.len() - 1 ==> is_parameter(#[trigger] s[i])
    &&& is_final(s.last())
}

/// How many parameter characters `s` starts with.
pub open spec fn parameters_len(s: Seq<char>) -> nat
    decreases s.len(),
{
    if s.len() > 0 && is_parameter(s[0]) {
        1 + parameters_len(s.skip(1))
    } else {
        0
    }
}

/// The length of the escape sequence that `s` starts with, or zero.
pub open spec fn escape_len(s: Seq<char>) -> nat {
    let end = 2 + parameters_len(s.skip(2));
    if s.len() > end && s[0] == '\u{1b}' && s[1] == '[' && is_final(s[end as int]) {
        end + 1
    } else {
        0
    }
}

/// `s` with every escape sequence taken out, from left to right.
pub open spec fn without_escapes(s: Seq<char>) -> Seq<char>
    decreases s.len(),
{
    if s.len() == 0 {
        Seq::empty()
    } else if escape_len(s) > 0 {
        without_escapes(s.skip(escape_len(s) as int))
    } else {
        seq![s[0]] + without_escapes(s.skip(1))
    }
}

/// `s` holds no escape character.
pub open spec fn is_plain(s: Seq<char>) -> bool {
    forall|i: int| 0 <= i < s.len() ==> #[trigger] s[i] != '\u{1b}'
}

proof fn lemma_parameters_len(params: Seq<char>, rest: Seq<char>)
    requires
        forall|i: int| 0 <= i < params.len() ==> is_parameter(#[trigger] params[i]),
        rest.len() > 0,
        !is_parameter(rest[0]),
    ensures
        parameters_len(params + rest) == params.len(),
    decreases params.len(),
{
    if params.len() == 0 {
        assert(params + rest =~= rest);
    } else {
        assert((params + rest).skip(1) =~= params.skip(1) + rest);
        assert((params + rest)[0] == params[0]);
        lemma_parameters_len(params.skip(1), rest);
    }
}

/// An escape sequence is recognised whatever follows it.
proof fn lemma_escape_len(escape: Seq<char>, rest: Seq<char>)
    requires
        is_escape(escape),
    ensures
        escape_len(escape + rest) == escape.len(),
{
    let params = escape.subrange(2, escape.len() - 1);
    let tail = seq![escape.last()] + rest;
    assert((escape + rest).skip(2) =~= params + tail);
    lemma_parameters_len(params, tail);
    assert((escape + rest)[escape.len() - 1] == escape.last());
}

/// Nothing but escape sequences is ever taken out.
pub proof fn law_only_escapes_vanish(s: Seq<char>)
    requires
        escape_len(s) > 0,
    ensures
        escape_len(s) <= s.len(),
        is_escape(s.take(escape_len(s) as int)),
{
    lemma_parameters_len_sound(s.skip(2));
    let escape = s.take(escape_len(s) as int);
    assert forall|i: int| 2 <= i < escape.len() - 1 implies is_parameter(#[trigger] escape[i]) by {
        assert(escape[i] == s.skip(2)[i - 2]);
    }
}

proof fn lemma_parameters_len_sound(s: Seq<char>)
    ensures
        parameters_len(s) <= s.len(),
        forall|i: int| 0 <= i < parameters_len(s) ==> is_parameter(#[trigger] s[i]),
    decreases s.len(),
{
    if s.len() > 0 && is_parameter(s[0]) {
        lemma_parameters_len_sound(s.skip(1));
        assert forall|i: int| 0 <= i < parameters_len(s) implies is_parameter(#[trigger] s[i]) by {
            if i > 0 {
                assert(s[i] == s.skip(1)[i - 1]);
            }
        }
    }
}

/// Text before the first escape character stays as it is, and what follows is
/// stripped by itself.
pub proof fn law_plain_prefix_is_kept(plain: Seq<char>, rest: Seq<char>)
    requires
        is_plain(plain),
    ensures
        without_escapes(plain + rest) == plain + without_escapes(rest),
    decreases plain.len(),
{
    if plain.len() == 0 {
        assert(plain + rest =~= rest);
        assert(plain + without_escapes(rest) =~= without_escapes(rest));
    } else {
        let s = plain + rest;
        assert(s[0] == plain[0]);
        assert(s.skip(1) =~= plain.skip(1) + rest);
        law_plain_prefix_is_kept(plain.skip(1), rest);
        assert(seq![plain[0]] + (plain.skip(1) + without_escapes(rest)) =~= plain
            + without_escapes(rest));
    }
}

/// Text without an escape character is left unchanged.
pub proof fn law_plain_text_is_kept(plain: Seq<char>)
    requires
        is_plain(plain),
    ensures
        without_escapes(plain) == plain,
{
    law_plain_prefix_is_kept(plain, Seq::empty());
    assert(plain + Seq::<char>::empty() =~= plain);
}

/// An escape sequence at the start vanishes.
pub proof fn law_escape_vanishes(escape: Seq<char>, rest: Seq<char>)
    requires
        is_escape(escape),
    ensures
        without_escapes(escape + rest) == without_escapes(rest),
{
    lemma_escape_len(escape, rest);
    assert((escape + rest).skip(escape.len() as int) =~= rest);
}

/// A run of text and the escape sequence in front of it.
pub struct Painted {
    pub escape: Seq<char>,
    pub text: Seq<char>,
}

pub open spec fn is_painted(runs: Seq<Painted>) -> bool {
    forall|i: int|
        0 <= i < runs.len() ==> is_escape((#[trigger] runs[i]).escape) && is_plain(runs[i].text)
}

/// Coloured text as the terminal receives it.
pub open spec fn painted_text(runs: Seq<Painted>) -> Seq<char>
    decreases runs.len(),
{
    if runs.len() == 0 {
        Seq::empty()
    } else {
        runs[0].escape + (runs[0].text + painted_text(runs.skip(1)))
    }
}

/// The same text without the colours.
pub open spec fn unpainted_text(runs: Seq<Painted>) -> Seq<char>
    decreases runs.len(),
{
    if runs.len() == 0 {
        Seq::empty()
    } else {
        runs[0].text + unpainted_text(runs.skip(1))
    }
}

proof fn lemma_rest_is_painted(runs: Seq<Painted>)
    requires
        is_painted(runs),
        runs.len() > 0,
    ensures
        is_painted(runs.skip(1)),
{
    assert forall|i: int| 0 <= i < runs.skip(1).len() implies is_escape(
        (#[trigger] runs.skip(1)[i]).escape,
    ) && is_plain(runs.skip(1)[i].text) by {
        assert(runs.skip(1)[i] == runs[i + 1]);
    }
}

/// Stripping coloured text gives the text, wherever the colours change.
pub proof fn law_colours_are_stripped(start: Seq<char>, runs: Seq<Painted>)
    requires
        is_plain(start),
        is_painted(runs),
    ensures
        without_escapes(start + painted_text(runs)) == start + unpainted_text(runs),
    decreases runs.len(),
{
    law_plain_prefix_is_kept(start, painted_text(runs));
    if runs.len() == 0 {
        assert(without_escapes(painted_text(runs)) =~= unpainted_text(runs));
    } else {
        lemma_rest_is_painted(runs);
        law_escape_vanishes(runs[0].escape, runs[0].text + painted_text(runs.skip(1)));
        law_colours_are_stripped(runs[0].text, runs.skip(1));
    }
}

/// Coloured text without its colours holds no escape character.
pub proof fn lemma_unpainted_is_plain(runs: Seq<Painted>)
    requires
        is_painted(runs),
    ensures
        is_plain(unpainted_text(runs)),
    decreases runs.len(),
{
    if runs.len() > 0 {
        lemma_rest_is_painted(runs);
        lemma_unpainted_is_plain(runs.skip(1));
        assert(is_plain(runs[0].text));
    }
}

/// `s` starts with a character that neither goes on with an escape sequence nor
/// ends one.
spec fn breaks_escape(s: Seq<char>) -> bool {
    s.len() > 0 && s[0] != '[' && !is_parameter(s[0]) && !is_final(s[0])
}

proof fn lemma_no_more_parameters(s: Seq<char>, rest: Seq<char>)
    requires
        breaks_escape(rest),
    ensures
        parameters_len(s + rest) == parameters_len(s),
    decreases s.len(),
{
    if s.len() == 0 {
        assert(s + rest =~= rest);
    } else {
        assert((s + rest).skip(1) =~= s.skip(1) + rest);
        assert((s + rest)[0] == s[0]);
        lemma_no_more_parameters(s.skip(1), rest);
    }
}

proof fn lemma_no_longer_escape(s: Seq<char>, rest: Seq<char>)
    requires
        breaks_escape(rest),
        s.len() > 0,
    ensures
        escape_len(s + rest) == escape_len(s),
{
    if s.len() == 1 {
        assert((s + rest)[1] == rest[0]);
    } else {
        assert((s + rest).skip(2) =~= s.skip(2) + rest);
        lemma_no_more_parameters(s.skip(2), rest);
        lemma_parameters_len_sound(s.skip(2));
        let end = 2 + parameters_len(s.skip(2));
        if end == s.len() {
            assert((s + rest)[end as int] == rest[0]);
        } else {
            assert((s + rest)[end as int] == s[end as int]);
        }
    }
}

/// Where an escape sequence cannot go on, both sides are stripped by themselves.
proof fn lemma_stripped_apart(s: Seq<char>, rest: Seq<char>)
    requires
        breaks_escape(rest),
    ensures
        without_escapes(s + rest) == without_escapes(s) + without_escapes(rest),
    decreases s.len(),
{
    if s.len() == 0 {
        assert(s + rest =~= rest);
        assert(without_escapes(s) + without_escapes(rest) =~= without_escapes(rest));
    } else {
        lemma_no_longer_escape(s, rest);
        let n = escape_len(s) as int;
        if n > 0 {
            assert((s + rest).skip(n) =~= s.skip(n) + rest);
            lemma_stripped_apart(s.skip(n), rest);
        } else {
            assert((s + rest).skip(1) =~= s.skip(1) + rest);
            lemma_stripped_apart(s.skip(1), rest);
            assert(without_escapes(s + rest) =~= without_escapes(s) + without_escapes(rest));
        }
    }
}

/// An escape sequence vanishes wherever it stands, and what is in front of it
/// and behind it is stripped by itself.
pub proof fn law_escape_parts_text(before: Seq<char>, escape: Seq<char>, behind: Seq<char>)
    requires
        is_escape(escape),
    ensures
        without_escapes(before + escape + behind) == without_escapes(before) + without_escapes(
            behind,
        ),
{
    assert(before + escape + behind =~= before + (escape + behind));
    lemma_stripped_apart(before, escape + behind);
    law_escape_vanishes(escape, behind);
}

/// White space at the end is no part of an escape sequence.
pub proof fn lemma_gap_at_end_is_kept(s: Seq<char>, gap: Seq<char>)
    requires
        is_gap(gap),
    ensures
        without_escapes(s + gap) == without_escapes(s) + gap,
{
    assert(white_space(gap[0]));
    lemma_stripped_apart(s, gap);
    assert forall|i: int| 0 <= i < gap.len() implies #[trigger] gap[i] != '\u{1b}' by {
        assert(white_space(gap[i]));
    }
    law_plain_text_is_kept(gap);
}

/// What counts as an escape sequence: the escape character, a bracket, any
/// number of digits and semicolons, and one of five letters.
pub proof fn law_escapes_are_those_of_colours(params: Seq<char>, end: char)
    requires
        forall|i: int|
            0 <= i < params.len() ==> '0' <= #[trigger] params[i] <= '9' || params[i] == ';',
    ensures
        is_escape(seq!['\u{1b}', '['] + params + seq![end]) == (end == 'm' || end == 'G' || end
            == 'K' || end == 'H' || end == 'F'),
{
    let s = seq!['\u{1b}', '['] + params + seq![end];
    assert(s.last() == end);
    assert forall|i: int| 2 <= i < s.len() - 1 implies is_parameter(#[trigger] s[i]) by {
        assert(s[i] == params[i - 2]);
    }
}

/// No other text counts as one.
pub proof fn law_escapes_have_that_form(s: Seq<char>)
    requires
        is_escape(s),
    ensures
        s.len() >= 3 && s[0] == '\u{1b}' && s[1] == '[',
        forall|i: int| 2 <= i < s.len() - 1 ==> '0' <= #[trigger] s[i] <= '9' || s[i] == ';',
        s.last() == 'm' || s.last() == 'G' || s.last() == 'K' || s.last() == 'H' || s.last() == 'F',
{
    assert forall|i: int| 2 <= i < s.len() - 1 implies '0' <= #[trigger] s[i] <= '9' || s[i]
        == ';' by {
        assert(is_parameter(s[i]));
    }
}

/// A character stays where no escape sequence starts with it.
pub proof fn law_other_characters_are_kept(s: Seq<char>)
    requires
        s.len() > 0,
        forall|n: int| 0 <= n <= s.len() ==> !is_escape(#[trigger] s.take(n)),
    ensures
        without_escapes(s) == seq![s[0]] + without_escapes(s.skip(1)),
{
    if escape_len(s) > 0 {
        law_only_escapes_vanish(s);
    }
}

/// Text of any length without an escape character is left unchanged.
pub proof fn law_stripping_leaves_text(text: Seq<char>)
    requires
        forall|i: int| 0 <= i < text.len() ==> #[trigger] text[i] != '\u{1b}',
    ensures
        without_escapes(text) == text,
{
    law_plain_text_is_kept(text);
}

} // verus!
