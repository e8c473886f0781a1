//! Characters, numerals and padding: the small vocabulary of text that the
//! rest of the crate is stated in.

use std::borrow::Cow;
use vstd::prelude::*;

verus! {

/// The characters with the Unicode property `White_Space`.
pub open spec fn white_space(c: char) -> bool {
    ||| '\t' <= c <= '\r'
    ||| c == ' '
    ||| c == '\u{85}'
    ||| c == '\u{a0}'
    ||| c == '\u{1680}'
    ||| '\u{2000}' <= c <= '\u{200a}'
    ||| '\u{2028}' <= c <= '\u{2029}'
    ||| c == '\u{202f}'
    ||| c == '\u{205f}'
    ||| c == '\u{3000}'
}

/// `s` without the white space at its end.
pub open spec fn trimmed_end(s: Seq<char>) -> Seq<char>
    decreases s.len(),
{
    if s.len() > 0 && white_space(s.last()) {
        trimmed_end(s.drop_last())
    } else {
        s
    }
}

/// `s` without the white space at its start.
pub open spec fn trimmed_start(s: Seq<char>) -> Seq<char>
    decreases s.len(),
{
    if s.len() > 0 && white_space(s.first()) {
        trimmed_start(s.drop_first())
    } else {
        s
    }
}

/// `s` without the white space at either end.
pub open spec fn trimmed(s: Seq<char>) -> Seq<char> {
    trimmed_start(trimmed_end(s))
}

/// `s` holds text, with no white space at either end.
pub open spec fn is_trimmed(s: Seq<char>) -> bool {
    s.len() > 0 && !white_space(s.first()) && !white_space(s.last())
}

proof fn lemma_trimmed_end(s: Seq<char>)
    ensures
        trimmed_end(s).len() > 0 ==> !white_space(trimmed_end(s).last()),
    decreases s.len(),
{
    if s.len() > 0 && white_space(s.last()) {
        lemma_trimmed_end(s.drop_last());
    }
}

proof fn lemma_trimmed_start(s: Seq<char>)
    ensures
        trimmed_start(s).len() > 0 ==> !white_space(trimmed_start(s).first())
            && trimmed_start(s).last() == s.last(),
    decreases s.len(),
{
    if s.len() > 0 && white_space(s.first()) {
        lemma_trimmed_start(s.drop_first());
    }
}

/// What trimming leaves has no white space at either end.
pub proof fn law_trimmed_text_is_trimmed(s: Seq<char>)
    ensures
        trimmed(s).len() > 0 ==> is_trimmed(trimmed(s)),
{
    lemma_trimmed_end(s);
    lemma_trimmed_start(trimmed_end(s));
}

/// `str::trim_end` removes the trailing characters that have the property
/// `White_Space`, and nothing else.
pub assume_specification[ str::trim_end ](s: &str) -> (res: &str)
    ensures
        res@ == trimmed_end(s@),
;

/// `str::trim` removes the leading and the trailing characters that have the
/// property `White_Space`, and nothing else.
pub assume_specification[ str::trim ](s: &str) -> (res: &str)
    ensures
        res@ == trimmed(s@),
;

/// `String::push` appends one character.
pub assume_specification[ String::push ](s: &mut String, c: char)
    ensures
        final(s)@ == old(s)@.push(c),
;

/// The text that a `Cow` borrows or owns.
pub(crate) fn text_of<'a>(text: &'a Cow<'_, str>) -> (res: &'a str)
    ensures
        res@ == text@,
{
    match text {
        Cow::Borrowed(s) => s,
        Cow::Owned(s) => s.as_str(),
    }
}

/// The characters of `s`, in order.
pub fn chars_of(s: &str) -> (res: Vec<char>)
    ensures
        res@ == s@,
{
    let mut res: Vec<char> = Vec::new();
    for c in it: s.chars()
        invariant
            res@ == it.seq().take(it.index() as int),
            it.seq() == s@,
    {
        res.push(c);
    }
    res
}

/// Whether `a` and `b` are the same text.
pub fn same_text(a: &str, b: &str) -> (res: bool)
    ensures
        res == (a@ == b@),
{
    let a_chars: Vec<char> = chars_of(a);
    let b_chars: Vec<char> = chars_of(b);
    if a_chars.len() != b_chars.len() {
        return false;
    }
    for i in 0..a_chars.len()
        invariant
            a_chars@ == a@,
            b_chars@ == b@,
            a_chars.len() == b_chars.len(),
            forall|j: int| 0 <= j < i ==> a_chars@[j] == b_chars@[j],
    {
        if a_chars[i] != b_chars[i] {
            return false;
        }
    }
    assert(a@ =~= b@);
    true
}

pub open spec fn is_digit(c: char) -> bool {
    '0' <= c <= '9'
}

/// One or more of the digits `0` to `9`.
pub open spec fn is_numeral(s: Seq<char>) -> bool {
    s.len() > 0 && forall|i: int| 0 <= i < s.len() ==> is_digit(#[trigger] s[i])
}

pub open spec fn digit_value(c: char) -> nat {
    (c as u32 - '0' as u32) as nat
}

/// The number that a numeral stands for.
pub open spec fn number(s: Seq<char>) -> nat
    decreases s.len(),
{
    if s.len() == 0 {
        0
    } else {
        number(s.drop_last()) * 10 + digit_value(s.last())
    }
}

/// The numeral of `s`, after the plus sign where it has one.
pub open spec fn unsigned_part(s: Seq<char>) -> Seq<char> {
    if s.len() > 0 && s[0] == '+' {
        s.skip(1)
    } else {
        s
    }
}

/// The value of `s` as a `u32`: digits with an optional plus sign in front,
/// and no larger than `u32::MAX`.
pub open spec fn u32_value(s: Seq<char>) -> Option<u32> {
    if is_numeral(unsigned_part(s)) && number(unsigned_part(s)) <= u32::MAX {
        Some(number(unsigned_part(s)) as u32)
    } else {
        None
    }
}

/// A number never shrinks when digits are put behind it.
proof fn lemma_number_prefix(s: Seq<char>, i: int)
    requires
        0 <= i <= s.len(),
    ensures
        number(s.take(i)) <= number(s),
    decreases s.len(),
{
    if i < s.len() {
        lemma_number_prefix(s.drop_last(), i);
        assert(s.drop_last().take(i) =~= s.take(i));
    } else {
        assert(s.take(i) =~= s);
    }
}

/// Reads `s` as a `u32`.
pub fn parse_u32(s: &str) -> (res: Option<u32>)
    ensures
        res == u32_value(s@),
{
    let chars: Vec<char> = chars_of(s);
    let start: usize = if chars.len() > 0 && chars[0] == '+' {
        1
    } else {
        0
    };
    let ghost part = unsigned_part(s@);
    assert(part =~= chars@.skip(start as int));
    if start == chars.len() {
        return None;
    }
    let mut value: u32 = 0;
    for i in start..chars.len()
        invariant
            start <= i <= chars.len(),
            part == chars@.skip(start as int),
            part == unsigned_part(s@),
            part.len() == chars.len() - start,
            forall|j: int| 0 <= j < i - start ==> is_digit(#[trigger] part[j]),
            value == number(part.take(i - start)),
    {
        let c: char = chars[i];
        assert(c == part[i - start]);
        if c < '0' || '9' < c {
            return None;
        }
        let digit: u32 = c as u32 - '0' as u32;
        proof {
            lemma_number_prefix(part, i - start + 1);
            assert(part.take(i - start + 1).drop_last() =~= part.take(i - start));
        }
        if value > (u32::MAX - digit) / 10 {
            return None;
        }
        value = value * 10 + digit;
    }
    assert(part.take(part.len() as int) =~= part);
    Some(value)
}

pub open spec fn digit_char(d: nat) -> char
    recommends
        d < 10,
{
    ('0' as u32 + d) as char
}

/// `n` in decimal, without leading zeros.
pub open spec fn decimal(n: nat) -> Seq<char>
    decreases n,
{
    if n < 10 {
        seq![digit_char(n)]
    } else {
        decimal(n / 10).push(digit_char(n % 10))
    }
}

/// Writes `n` in decimal.
pub fn to_decimal(n: u64) -> (res: String)
    ensures
        res@ == decimal(n as nat),
    decreases n,
{
    let mut res: String = if n < 10 {
        String::new()
    } else {
        to_decimal(n / 10)
    };
    let digit: u8 = 48 + (n % 10) as u8;
    res.push(digit as char);
    assert(res@ =~= decimal(n as nat));
    res
}

/// The decimal form of a number is a numeral that reads back as the number.
pub proof fn law_decimal_reads_back(n: nat)
    ensures
        is_numeral(decimal(n)),
        number(decimal(n)) == n,
        n <= u32::MAX ==> u32_value(decimal(n)) == Some(n as u32),
    decreases n,
{
    if n < 10 {
        assert(decimal(n).drop_last() =~= Seq::<char>::empty());
        assert(number(decimal(n).drop_last()) == 0);
    } else {
        law_decimal_reads_back(n / 10);
        assert(decimal(n).drop_last() =~= decimal(n / 10));
    }
    assert(is_digit(decimal(n)[0]));
    assert(unsigned_part(decimal(n)) == decimal(n));
}

/// `count` spaces.
pub open spec fn spaces(count: nat) -> Seq<char> {
    Seq::new(count, |i: int| ' ')
}

/// `s`, followed by as many spaces as it is short of `width` characters.
pub open spec fn padded(s: Seq<char>, width: nat) -> Seq<char> {
    if s.len() < width {
        s + spaces((width - s.len()) as nat)
    } else {
        s
    }
}

/// Left-aligns `s` in a field of `width` characters.
pub fn pad_right(s: &str, width: usize) -> (res: String)
    ensures
        res@ == padded(s@, width as nat),
{
    let mut res: String = s.to_owned();
    let mut len: usize = s.unicode_len();
    assert(res@ =~= s@ + spaces(0));
    while len < width
        invariant
            s@.len() <= len,
            s@.len() < width ==> len <= width,
            s@.len() >= width ==> len == s@.len(),
            res@ == s@ + spaces((len - s@.len()) as nat),
        decreases width - len,
    {
        res.push(' ');
        len = len + 1;
        assert(res@ =~= s@ + spaces((len - s@.len()) as nat));
    }
    assert(res@ =~= padded(s@, width as nat));
    res
}

/// A line of output without the line break that ends it: a line feed, or a
/// carriage return and a line feed.
pub open spec fn line_bytes(bytes: Seq<u8>) -> Seq<u8> {
    if bytes.len() > 0 && bytes.last() == 10 {
        let rest = bytes.drop_last();
        if rest.len() > 0 && rest.last() == 13 {
            rest.drop_last()
        } else {
            rest
        }
    } else {
        bytes
    }
}

/// Takes the line break off the end of a line.
pub fn without_line_break(bytes: &Vec<u8>) -> (res: Vec<u8>)
    ensures
        res@ == line_bytes(bytes@),
{
    let mut len: usize = bytes.len();
    if len > 0 && bytes[len - 1] == 10 {
        len = len - 1;
        if len > 0 && bytes[len - 1] == 13 {
            len = len - 1;
        }
    }
    let mut res: Vec<u8> = Vec::new();
    for i in 0..len
        invariant
            len <= bytes.len(),
            res@ == bytes@.take(i as int),
    {
        res.push(bytes[i]);
        assert(bytes@.take(i + 1) =~= bytes@.take(i as int).push(bytes@[i as int]));
    }
    assert(bytes@.take(len as int) =~= line_bytes(bytes@));
    res
}

/// The texts of a list of strings.
pub open spec fn texts(strings: Seq<String>) -> Seq<Seq<char>> {
    strings.map_values(|s: String| s@)
}

pub proof fn lemma_texts_push(strings: Seq<String>, s: String)
    ensures
        texts(strings.push(s)) == texts(strings).push(s@),
{
    assert(texts(strings.push(s)) =~= texts(strings).push(s@));
}

/// A copy of a list of strings.
pub fn clone_texts(strings: &Vec<String>) -> (res: Vec<String>)
    ensures
        texts(res@) == texts(strings@),
        res@.len() == strings@.len(),
        forall|i: int| 0 <= i < strings@.len() ==> (#[trigger] res@[i])@ == strings@[i]@,
{
    let mut res: Vec<String> = Vec::new();
    for i in 0..strings.len()
        invariant
            texts(res@) == texts(strings@).take(i as int),
    {
        let copy: String = strings[i].clone();
        proof {
            lemma_texts_push(res@, copy);
            assert(texts(strings@).take(i + 1) =~= texts(strings@).take(i as int).push(copy@));
        }
        res.push(copy);
    }
    assert(texts(strings@).take(strings@.len() as int) =~= texts(strings@));
    proof {
        assert(res@.len() == texts(res@).len());
        assert forall|i: int| 0 <= i < strings@.len() implies (#[trigger] res@[i])@
            == strings@[i]@ by {
            assert(texts(res@)[i] == texts(strings@)[i]);
        }
    }
    res
}

/// What is cut off at the end is white space, and what is left does not end in
/// any: `s` is its trimmed form and the white space that is handed back.
pub proof fn law_end_is_trimmed(s: Seq<char>) -> (tail: Seq<char>)
    ensures
        s == trimmed_end(s) + tail,
        forall|i: int| 0 <= i < tail.len() ==> white_space(#[trigger] tail[i]),
        trimmed_end(s).len() > 0 ==> !white_space(trimmed_end(s).last()),
    decreases s.len(),
{
    if s.len() > 0 && white_space(s.last()) {
        let tail = law_end_is_trimmed(s.drop_last());
        assert(s =~= s.drop_last().push(s.last()));
        assert(s =~= trimmed_end(s) + tail.push(s.last()));
        tail.push(s.last())
    } else {
        assert(s =~= trimmed_end(s) + Seq::<char>::empty());
        Seq::empty()
    }
}

proof fn lemma_start_is_trimmed(s: Seq<char>) -> (lead: Seq<char>)
    ensures
        s == lead + trimmed_start(s),
        forall|i: int| 0 <= i < lead.len() ==> white_space(#[trigger] lead[i]),
    decreases s.len(),
{
    if s.len() > 0 && white_space(s.first()) {
        let lead = lemma_start_is_trimmed(s.drop_first());
        assert(s =~= seq![s.first()] + s.drop_first());
        assert(s =~= (seq![s.first()] + lead) + trimmed_start(s));
        seq![s.first()] + lead
    } else {
        assert(s =~= Seq::<char>::empty() + trimmed_start(s));
        Seq::empty()
    }
}

/// `s` is white space, its trimmed form, and white space again; the trimmed form
/// neither starts nor ends with any.
pub proof fn law_both_ends_are_trimmed(s: Seq<char>) -> (cut: (Seq<char>, Seq<char>))
    ensures
        s == cut.0 + trimmed(s) + cut.1,
        forall|i: int| 0 <= i < cut.0.len() ==> white_space(#[trigger] cut.0[i]),
        forall|i: int| 0 <= i < cut.1.len() ==> white_space(#[trigger] cut.1[i]),
        trimmed(s).len() > 0 ==> !white_space(trimmed(s).first()) && !white_space(
            trimmed(s).last(),
        ),
{
    let tail = law_end_is_trimmed(s);
    let lead = lemma_start_is_trimmed(trimmed_end(s));
    law_trimmed_text_is_trimmed(s);
    assert(s =~= lead + trimmed(s) + tail);
    (lead, tail)
}

proof fn lemma_tail_is_cut(s: Seq<char>, tail: Seq<char>)
    requires
        forall|i: int| 0 <= i < tail.len() ==> white_space(#[trigger] tail[i]),
    ensures
        trimmed_end(s + tail) == trimmed_end(s),
    decreases tail.len(),
{
    if tail.len() == 0 {
        assert(s + tail =~= s);
    } else {
        assert((s + tail).last() == tail.last());
        assert((s + tail).drop_last() =~= s + tail.drop_last());
        lemma_tail_is_cut(s, tail.drop_last());
    }
}

proof fn lemma_lead_is_cut(lead: Seq<char>, s: Seq<char>)
    requires
        forall|i: int| 0 <= i < lead.len() ==> white_space(#[trigger] lead[i]),
    ensures
        trimmed_start(lead + s) == trimmed_start(s),
    decreases lead.len(),
{
    if lead.len() == 0 {
        assert(lead + s =~= s);
    } else {
        assert((lead + s).first() == lead.first());
        assert((lead + s).drop_first() =~= lead.drop_first() + s);
        lemma_lead_is_cut(lead.drop_first(), s);
    }
}

/// Trimming undoes any indentation: white space put around a text is taken off
/// again, and nothing of the text is, however long it is.
pub proof fn law_trimming_undoes_indentation(lead: Seq<char>, text: Seq<char>, tail: Seq<char>)
    requires
        forall|i: int| 0 <= i < lead.len() ==> white_space(#[trigger] lead[i]),
        forall|i: int| 0 <= i < tail.len() ==> white_space(#[trigger] tail[i]),
        text.len() > 0 ==> !white_space(text.first()) && !white_space(text.last()),
    ensures
        trimmed(lead + text + tail) == text,
        text.len() > 0 ==> trimmed_end(lead + text + tail) == lead + text,
{
    lemma_tail_is_cut(lead + text, tail);
    if text.len() > 0 {
        assert((lead + text).last() == text.last());
    } else {
        assert(lead + text =~= Seq::<char>::empty() + lead);
        lemma_tail_is_cut(Seq::empty(), lead);
    }
    lemma_lead_is_cut(lead, text);
}

/// A numeral is read digit by digit: one more digit behind it multiplies its
/// number by ten and adds the digit.
pub proof fn law_digits_count_by_tens(s: Seq<char>, c: char)
    requires
        '0' <= c <= '9',
    ensures
        number(Seq::<char>::empty()) == 0,
        number(s.push(c)) == 10 * number(s) + (c as int - '0' as int),
{
    assert(s.push(c).drop_last() =~= s);
}

/// Digits alone, or behind a plus sign, have a value as long as it fits; how
/// many there are makes no difference. Nothing else has one.
pub proof fn law_values_are_those_of_digits(s: Seq<char>)
    ensures
        s.len() > 0 && (forall|i: int| 0 <= i < s.len() ==> '0' <= #[trigger] s[i] <= '9') ==> {
            &&& number(s) <= u32::MAX ==> u32_value(s) == Some(number(s) as u32)
            &&& number(s) > u32::MAX ==> u32_value(s) is None
            &&& u32_value(seq!['+'] + s) == u32_value(s)
        },
        s.len() == 0 ==> u32_value(s) is None && u32_value(seq!['+'] + s) is None,
        forall|i: int|
            0 <= i < s.len() && !('0' <= #[trigger] s[i] <= '9') && (i > 0 || s[i] != '+')
                ==> u32_value(s) is None,
{
    assert((seq!['+'] + s).skip(1) =~= s);
    if s.len() > 0 {
        assert(s[0] == '+' || '0' <= s[0] <= '9' || !is_digit(s[0]));
    }
    assert forall|i: int|
        0 <= i < s.len() && !('0' <= #[trigger] s[i] <= '9') && (i > 0 || s[i]
            != '+') implies u32_value(s) is None by {
        if s[0] == '+' {
            assert(s.skip(1)[i - 1] == s[i]);
        }
    }
}

/// Leading zeros do not count.
pub proof fn law_leading_zero_is_nothing(s: Seq<char>)
    ensures
        number(seq!['0'] + s) == number(s),
    decreases s.len(),
{
    if s.len() == 0 {
        assert((seq!['0'] + s).drop_last() =~= Seq::<char>::empty());
        assert(number(Seq::<char>::empty()) == 0);
        assert((seq!['0'] + s).last() == '0');
    } else {
        law_leading_zero_is_nothing(s.drop_last());
        assert((seq!['0'] + s).drop_last() =~= seq!['0'] + s.drop_last());
        assert((seq!['0'] + s).last() == s.last());
    }
}

/// A number is written with the digits `0` to `9` alone, and with no zero in
/// front unless it is zero; the digits count up to it.
pub proof fn law_decimal_is_shortest(n: nat)
    ensures
        decimal(n).len() > 0,
        forall|i: int| 0 <= i < decimal(n).len() ==> '0' <= #[trigger] decimal(n)[i] <= '9',
        decimal(n)[0] == '0' ==> n == 0 && decimal(n).len() == 1,
        number(decimal(n)) == n,
    decreases n,
{
    law_decimal_reads_back(n);
    if n >= 10 {
        law_decimal_is_shortest(n / 10);
        assert(decimal(n)[0] == decimal(n / 10)[0]);
    }
    assert forall|i: int| 0 <= i < decimal(n).len() implies '0' <= #[trigger] decimal(n)[i]
        <= '9' by {
        assert(is_digit(decimal(n)[i]));
    }
}

/// Padding starts with the text itself, adds nothing but spaces, and reaches the
/// width exactly, unless the text is wider.
pub proof fn law_padding_adds_spaces(s: Seq<char>, width: nat)
    ensures
        s.is_prefix_of(padded(s, width)),
        padded(s, width).len() == if s.len() < width {
            width
        } else {
            s.len()
        },
        forall|i: int| s.len() <= i < padded(s, width).len() ==> #[trigger] padded(s, width)[i] == ' ',
{
}

/// A line reads the same with a line feed behind it, with a carriage return and
/// a line feed, and with nothing.
pub proof fn law_line_breaks_do_not_matter(line: Seq<u8>)
    ensures
        line_bytes(line + seq![13u8, 10u8]) == line,
        line.len() == 0 || line.last() != 13 ==> line_bytes(line + seq![10u8]) == line,
        line.len() == 0 || line.last() != 10 ==> line_bytes(line) == line,
{
    assert((line + seq![13u8, 10u8]).drop_last() =~= line + seq![13u8]);
    assert((line + seq![13u8]).drop_last() =~= line);
    assert((line + seq![10u8]).drop_last() =~= line);
}

/// The texts of a list are those of its strings, one by one.
pub proof fn law_texts_are_whole(strings: Seq<String>)
    ensures
        texts(strings).len() == strings.len(),
        forall|i: int| 0 <= i < strings.len() ==> #[trigger] texts(strings)[i] == strings[i]@,
{
}

/// White space is what Unicode calls so: twenty-five characters, and no others.
pub proof fn law_white_space_is_that_of_unicode(c: char)
    ensures
        white_space(c) <==> {
            let code = c as u32;
            9 <= code <= 13 || code == 32 || code == 0x85 || code == 0xa0 || code == 0x1680 || 0x2000
                <= code <= 0x200a || code == 0x2028 || code == 0x2029 || code == 0x202f || code
                == 0x205f || code == 0x3000
        },
{
}

} // verus!
