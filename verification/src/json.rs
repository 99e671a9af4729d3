//! JSON text of parameters and strings, as `serde_json` writes it.

use serde_json::Value;
use vstd::prelude::*;

verus! {

/// Declares `serde_json::Value`, a JSON value. It is carried, cloned and printed, never taken
/// apart.
#[verifier::external_type_specification]
#[verifier::external_body]
pub struct ExValue(serde_json::Value);

/// Declares `serde_json::Error`, the error of a failed encoding.
#[verifier::external_type_specification]
#[verifier::external_body]
pub struct ExError(serde_json::Error);

/// What a JSON value holds, as its compact JSON text.
pub uninterp spec fn value_text(value: Value) -> Seq<char>;

/// Trusted: `serde_json::Value` derives `Clone`, so a clone is the same JSON value.
pub assume_specification[ <serde_json::Value as std::clone::Clone>::clone ](
    value: &serde_json::Value,
) -> (copy: serde_json::Value)
    ensures
        copy == *value,
;

/// The compact JSON text of `value`.
///
/// Trusted: the `Display` impl of `serde_json::Value`, without the alternate flag, writes the
/// compact JSON text of the value. That text has no line feed: the compact form puts no white
/// space between tokens, and inside strings control characters are escaped.
#[verifier::external_body]
pub(crate) fn value_string(value: &Value) -> (text: String)
    ensures
        text@ == value_text(*value),
        !text@.contains('\n'),
{
    value.to_string()
}

/// The lower-case hexadecimal digit of value `d`.
pub open spec fn hex_digit(d: int) -> char {
    if d < 10 {
        ('0' as int + d) as char
    } else {
        ('a' as int + d - 10) as char
    }
}

/// One character of a JSON string.
pub open spec fn json_escape(c: char) -> Seq<char> {
    if c == '"' || c == '\\' {
        seq!['\\', c]
    } else if c == '\u{8}' {
        seq!['\\', 'b']
    } else if c == '\t' {
        seq!['\\', 't']
    } else if c == '\n' {
        seq!['\\', 'n']
    } else if c == '\u{c}' {
        seq!['\\', 'f']
    } else if c == '\r' {
        seq!['\\', 'r']
    } else if ' ' > c {
        seq!['\\', 'u', '0', '0', hex_digit(c as int / 16), hex_digit(c as int % 16)]
    } else {
        seq![c]
    }
}

/// The characters of `s`, each as it stands in a JSON string, and the closing quote.
pub open spec fn json_string_tail(s: Seq<char>) -> Seq<char>
    decreases s.len(),
{
    if s.len() == 0 {
        seq!['"']
    } else {
        json_escape(s.first()) + json_string_tail(s.drop_first())
    }
}

/// `s` as a JSON string.
pub open spec fn json_string(s: Seq<char>) -> Seq<char> {
    seq!['"'] + json_string_tail(s)
}

/// `s` as a JSON string.
///
/// Trusted: `serde_json::to_string` on a `str` succeeds and writes the string between quotes,
/// with `"`, `\` and the control characters below U+0020 escaped and every other character as it
/// is.
#[verifier::external_body]
pub(crate) fn quoted(s: &str) -> (text: Result<String, serde_json::Error>)
    ensures
        text is Ok,
        text->Ok_0@ == json_string(s@),
{
    serde_json::to_string(s)
}

proof fn lemma_escape(c: char)
    ensures
        1 <= json_escape(c).len() <= 6,
        json_escape(c)[0] != '"',
        forall|i: int| 0 <= i < json_escape(c).len() ==> json_escape(c)[i] != '\n',
{
    assert(0 <= c as int);
}

/// The value of a hexadecimal digit.
pub open spec fn hex_value(c: char) -> Option<int> {
    if '0' <= c <= '9' {
        Some(c as int - '0' as int)
    } else if 'a' <= c <= 'f' {
        Some(c as int - 'a' as int + 10)
    } else if 'A' <= c <= 'F' {
        Some(c as int - 'A' as int + 10)
    } else {
        None
    }
}

/// The character that a four-digit escape stands for, where it stands for one by itself.
pub open spec fn hex_char(digits: Seq<char>) -> Option<char> {
    match (
        hex_value(digits[0]),
        hex_value(digits[1]),
        hex_value(digits[2]),
        hex_value(digits[3]),
    ) {
        (Some(a), Some(b), Some(c), Some(d)) => {
            let code = 4096 * a + 256 * b + 16 * c + d;
            if 0xd800 <= code <= 0xdfff {
                None
            } else {
                Some(code as char)
            }
        },
        _ => None,
    }
}

/// Reads the next character inside a JSON string: the character, and the text behind it. There is
/// none at the closing quote or where the text is not JSON. A pair of four-digit escapes for one
/// character is not read.
pub open spec fn read_char(text: Seq<char>) -> Option<(char, Seq<char>)> {
    if text.len() == 0 || text[0] == '"' || ' ' > text[0] {
        None
    } else if text[0] != '\\' {
        Some((text[0], text.skip(1)))
    } else if text.len() < 2 {
        None
    } else if text[1] == '"' || text[1] == '\\' || text[1] == '/' {
        Some((text[1], text.skip(2)))
    } else if text[1] == 'b' {
        Some(('\u{8}', text.skip(2)))
    } else if text[1] == 'f' {
        Some(('\u{c}', text.skip(2)))
    } else if text[1] == 'n' {
        Some(('\n', text.skip(2)))
    } else if text[1] == 'r' {
        Some(('\r', text.skip(2)))
    } else if text[1] == 't' {
        Some(('\t', text.skip(2)))
    } else if text[1] == 'u' && text.len() >= 6 {
        match hex_char(text.subrange(2, 6)) {
            Some(c) => Some((c, text.skip(6))),
            None => None,
        }
    } else {
        None
    }
}

/// Reads the characters of a JSON string up to its closing quote: what the string holds, and the
/// text behind the quote.
pub open spec fn read_tail(text: Seq<char>) -> Option<(Seq<char>, Seq<char>)>
    decreases text.len(),
{
    if text.len() > 0 && text[0] == '"' {
        Some((seq![], text.skip(1)))
    } else {
        match read_char(text) {
            Some((c, rest)) => match read_tail(rest) {
                Some((s, end)) => Some((seq![c] + s, end)),
                None => None,
            },
            None => None,
        }
    }
}

/// Reads a JSON string at the beginning of `text`: what the string holds, and the text behind it.
pub open spec fn read_string(text: Seq<char>) -> Option<(Seq<char>, Seq<char>)> {
    if text.len() > 0 && text[0] == '"' {
        read_tail(text.skip(1))
    } else {
        None
    }
}

proof fn lemma_escape_is_read(c: char, rest: Seq<char>)
    ensures
        read_char(json_escape(c) + rest) == Some((c, rest)),
{
    let escape = json_escape(c);
    let text = escape + rest;
    assert(0 <= c as int);
    assert(forall|i: int| 0 <= i < escape.len() ==> text[i] == escape[i]);
    assert(text.skip(escape.len() as int) =~= rest);
    if escape.len() == 6 {
        let digits = text.subrange(2, 6);
        assert(digits =~= escape.subrange(2, 6));
        assert(digits[2] == hex_digit(c as int / 16) && digits[3] == hex_digit(c as int % 16));
        assert(hex_char(digits) == Some(c));
    }
}

proof fn lemma_tail_is_read(s: Seq<char>, rest: Seq<char>)
    ensures
        read_tail(json_string_tail(s) + rest) == Some((s, rest)),
    decreases s.len(),
{
    let text = json_string_tail(s) + rest;
    if s.len() == 0 {
        assert(text[0] == '"');
        assert(text.skip(1) =~= rest);
        assert(s =~= seq![]);
    } else {
        let escape = json_escape(s.first());
        let tail = json_string_tail(s.drop_first());
        lemma_escape(s.first());
        assert(text =~= escape + (tail + rest));
        assert(text[0] == escape[0]);
        lemma_escape_is_read(s.first(), tail + rest);
        lemma_tail_is_read(s.drop_first(), rest);
        assert(seq![s.first()] + s.drop_first() =~= s);
    }
}

/// Reading a JSON string gives back what was written, whatever follows it.
pub proof fn law_json_string_is_read(s: Seq<char>, rest: Seq<char>)
    ensures
        read_string(json_string(s) + rest) == Some((s, rest)),
{
    assert((json_string(s) + rest).skip(1) =~= json_string_tail(s) + rest);
    lemma_tail_is_read(s, rest);
}

proof fn lemma_tail_has_no_line_feed(s: Seq<char>)
    ensures
        !json_string_tail(s).contains('\n'),
    decreases s.len(),
{
    if s.len() > 0 {
        lemma_tail_has_no_line_feed(s.drop_first());
        let head = json_escape(s.first());
        let tail = json_string_tail(s.drop_first());
        lemma_escape(s.first());
        assert forall|i: int| 0 <= i < head.len() + tail.len() implies (head + tail)[i] != '\n' by {
            if i >= head.len() {
                assert(tail.contains(tail[i - head.len()]));
            }
        }
    }
}

/// A JSON string stands on one line, whatever text it holds.
pub proof fn law_json_string_is_one_line(s: Seq<char>)
    ensures
        !json_string(s).contains('\n'),
{
    lemma_tail_has_no_line_feed(s);
    let tail = json_string_tail(s);
    assert forall|i: int| 0 <= i < json_string(s).len() implies json_string(s)[i] != '\n' by {
        if i > 0 {
            assert(tail.contains(tail[i - 1]));
        }
    }
}

/// A JSON string can be read in one way only: where a text begins with a JSON string, the text
/// fixes both what that string holds and what follows it.
pub proof fn law_json_string_reads_back(a: Seq<char>, x: Seq<char>, b: Seq<char>, y: Seq<char>)
    requires
        json_string(a) + x == json_string(b) + y,
    ensures
        a == b,
        x == y,
{
    law_json_string_is_read(a, x);
    law_json_string_is_read(b, y);
}

proof fn lemma_tail_grows(s: Seq<char>, c: char)
    ensures
        json_string_tail(s).len() > 0,
        json_string_tail(s).last() == '"',
        json_string_tail(s.push(c)) == json_string_tail(s).drop_last() + json_escape(c).push('"'),
    decreases s.len(),
{
    if s.len() == 0 {
        assert(s.push(c).drop_first() =~= seq![]);
        assert(s.push(c).first() == c);
        assert(json_string_tail(s.push(c).drop_first()) =~= seq!['"']);
        assert(json_string_tail(s.push(c)) =~= json_escape(c) + seq!['"']);
        assert(json_string_tail(s).drop_last() =~= seq![]);
        assert(json_escape(c) + seq!['"'] =~= json_escape(c).push('"'));
    } else {
        lemma_tail_grows(s.drop_first(), c);
        assert(s.push(c).drop_first() =~= s.drop_first().push(c));
        assert(s.push(c).first() == s.first());
        let head = json_escape(s.first());
        let tail = json_string_tail(s.drop_first());
        assert((head + tail).drop_last() =~= head + tail.drop_last());
        assert(json_string_tail(s.push(c)) =~= head + (tail.drop_last() + json_escape(c).push('"')));
    }
}

/// A JSON string is the text between two quotes, where a backslash stands in front of every quote
/// and backslash, control characters stand as their short escape or by their number, and every
/// other character is as it is.
pub proof fn law_json_string_grows_by_a_character(s: Seq<char>, c: char)
    ensures
        json_string(seq![]) == seq!['"', '"'],
        json_string(s).len() >= 2,
        c == '"' || c == '\\' ==> json_string(s.push(c)) == json_string(s).drop_last() + seq![
            '\\',
            c,
            '"',
        ],
        c as int == 8 ==> json_string(s.push(c)) == json_string(s).drop_last() + seq![
            '\\',
            'b',
            '"',
        ],
        c as int == 9 ==> json_string(s.push(c)) == json_string(s).drop_last() + seq![
            '\\',
            't',
            '"',
        ],
        c as int == 10 ==> json_string(s.push(c)) == json_string(s).drop_last() + seq![
            '\\',
            'n',
            '"',
        ],
        c as int == 12 ==> json_string(s.push(c)) == json_string(s).drop_last() + seq![
            '\\',
            'f',
            '"',
        ],
        c as int == 13 ==> json_string(s.push(c)) == json_string(s).drop_last() + seq![
            '\\',
            'r',
            '"',
        ],
        c as int >= 32 && c != '"' && c != '\\' ==> json_string(s.push(c)) == json_string(
            s,
        ).drop_last() + seq![c, '"'],
        c as int <= 31 && !(8 <= c as int <= 10) && !(12 <= c as int <= 13) ==> {
            let low = c as int % 16;
            json_string(s.push(c)) == json_string(s).drop_last() + seq![
                '\\',
                'u',
                '0',
                '0',
                if c as int >= 16 {
                    '1'
                } else {
                    '0'
                },
                if low < 10 {
                    (48 + low) as char
                } else {
                    (87 + low) as char
                },
                '"',
            ]
        },
{
    lemma_tail_grows(s, c);
    let tail = json_string_tail(s);
    assert(0 <= c as int);
    assert(json_string(seq![]) =~= seq!['"', '"']);
    assert(json_string(s).drop_last() =~= seq!['"'] + tail.drop_last());
    assert(json_string(s.push(c)) =~= json_string(s).drop_last() + json_escape(c).push('"'));
    assert(c as int <= 31 ==> hex_digit(c as int / 16) == if c as int >= 16 {
        '1'
    } else {
        '0'
    });
}

} // verus!
