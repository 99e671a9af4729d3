//! Text primitives: white space, lines, case folding, substring search and decimal numbers.
//!
//! Every executable function here works on the characters of a string and is specified over the
//! sequence of those characters.

use vstd::prelude::*;
use vstd::utf8::*;

verus! {

/// Appends one character to a `String`.
///
/// Trusted: `String::push` appends the given character to the end of the string.
pub assume_specification[ String::push ](s: &mut String, c: char)
    ensures
        final(s)@ == old(s)@.push(c),
;

/// The characters with the Unicode property `White_Space`.
pub open spec fn is_white_space(c: char) -> bool {
    ||| '\u{9}' <= c <= '\u{d}'
    ||| c == ' '
    ||| c == '\u{85}'
    ||| c == '\u{a0}'
    ||| c == '\u{1680}'
    ||| '\u{2000}' <= c <= '\u{200a}'
    ||| c == '\u{2028}'
    ||| c == '\u{2029}'
    ||| c == '\u{202f}'
    ||| c == '\u{205f}'
    ||| c == '\u{3000}'
}

/// `s` without its leading white space.
pub open spec fn trimmed_start(s: Seq<char>) -> Seq<char>
    decreases s.len(),
{
    if s.len() > 0 && is_white_space(s.first()) {
        trimmed_start(s.drop_first())
    } else {
        s
    }
}

/// `s` without its trailing white space.
pub open spec fn trimmed_end(s: Seq<char>) -> Seq<char>
    decreases s.len(),
{
    if s.len() > 0 && is_white_space(s.last()) {
        trimmed_end(s.drop_last())
    } else {
        s
    }
}

/// `s` without white space at either end.
pub open spec fn trimmed(s: Seq<char>) -> Seq<char> {
    trimmed_end(trimmed_start(s))
}

/// The lines of `s`, where every line ends with `end`, which is not part of it; the last `end`
/// is optional.
pub open spec fn lines_of<T>(s: Seq<T>, end: T) -> Seq<Seq<T>>
    decreases s.len(),
{
    match s.index_of_first(end) {
        Some(at) => {
            proof {
                s.index_of_first_ensures(end);
            }
            seq![s.take(at)] + lines_of(s.skip(at + 1), end)
        },
        None => if s.len() == 0 {
            seq![]
        } else {
            seq![s]
        },
    }
}

/// Whether `s` is a sequence of complete lines.
pub open spec fn ends_a_line<T>(s: Seq<T>, end: T) -> bool {
    s.len() == 0 || s.last() == end
}

/// A line that is appended to complete lines becomes the last line, and nothing before it
/// changes.
pub proof fn law_appended_line_is_last<T>(done: Seq<T>, line: Seq<T>, end: T)
    requires
        ends_a_line(done, end),
        !line.contains(end),
    ensures
        lines_of(done + line.push(end), end) == lines_of(done, end).push(line),
        ends_a_line(done + line.push(end), end),
{
    let s = line.push(end);
    law_lines_compose(done, s, end);
    s.index_of_first_ensures(end);
    assert(s[s.len() - 1] == end);
    let at = s.index_of_first(end)->0;
    assert forall|j: int| 0 <= j < line.len() implies s[j] != end by {
        assert(line.contains(line[j]));
    }
    assert(s.take(at) =~= line);
    assert(s.skip(at + 1) =~= seq![]);
    Seq::<T>::empty().index_of_first_ensures(end);
    assert(lines_of(s.skip(at + 1), end) =~= seq![]);
    assert(lines_of(s, end) =~= seq![line]);
}

/// What is appended to complete lines, whatever it is, adds its own lines behind them.
pub proof fn law_lines_compose<T>(done: Seq<T>, more: Seq<T>, end: T)
    requires
        ends_a_line(done, end),
    ensures
        lines_of(done + more, end) == lines_of(done, end) + lines_of(more, end),
    decreases done.len(),
{
    let s = done + more;
    s.index_of_first_ensures(end);
    done.index_of_first_ensures(end);
    if done.len() == 0 {
        assert(s =~= more);
        assert(lines_of(done, end) =~= seq![]);
    } else {
        assert(done[done.len() - 1] == end);
        assert(s[done.len() - 1] == end);
        let first = done.index_of_first(end)->0;
        let at = s.index_of_first(end)->0;
        assert(s[first] == done[first]);
        assert(at == first) by {
            if at < first {
                assert(s[at] == done[at]);
            }
        }
        assert(s.take(at) =~= done.take(at));
        assert(s.skip(at + 1) =~= done.skip(at + 1) + more);
        let rest = done.skip(at + 1);
        assert(rest.len() > 0 ==> rest.last() == done.last());
        law_lines_compose(rest, more, end);
    }
}

/// A last line without a line ending is still a line.
pub proof fn law_unfinished_line_is_last<T>(done: Seq<T>, line: Seq<T>, end: T)
    requires
        ends_a_line(done, end),
        !line.contains(end),
        line.len() > 0,
    ensures
        lines_of(done + line, end) == lines_of(done, end).push(line),
{
    law_lines_compose(done, line, end);
    line.index_of_first_ensures(end);
    assert(lines_of(line, end) =~= seq![line]);
}

/// Whether `c` is white space.
pub fn white_space(c: char) -> (white: bool)
    ensures
        white == is_white_space(c),
{
    ('\u{9}' <= c && c <= '\u{d}') || c == ' ' || c == '\u{85}' || c == '\u{a0}' || c == '\u{1680}'
        || ('\u{2000}' <= c && c <= '\u{200a}') || c == '\u{2028}' || c == '\u{2029}'
        || c == '\u{202f}' || c == '\u{205f}' || c == '\u{3000}'
}

/// The characters of `s`.
pub fn chars_of(s: &str) -> (chars: Vec<char>)
    ensures
        chars@ == s@,
{
    let mut chars: Vec<char> = Vec::new();
    for c in it: s.chars()
        invariant
            it.seq() == s@,
            chars@ == s@.take(it.index()),
    {
        chars.push(c);
    }
    chars
}

/// The string made of `chars[from..to]`.
fn string_of(chars: &Vec<char>, from: usize, to: usize) -> (s: String)
    requires
        from <= to <= chars.len(),
    ensures
        s@ == chars@.subrange(from as int, to as int),
{
    let mut s: String = String::new();
    let mut i: usize = from;
    while i < to
        invariant
            from <= i <= to <= chars.len(),
            s@ == chars@.subrange(from as int, i as int),
        decreases to - i,
    {
        s.push(chars[i]);
        i += 1;
    }
    s
}

/// `chars` as a string, without white space at either end.
fn trimmed_string(chars: &Vec<char>) -> (s: String)
    ensures
        s@ == trimmed(chars@),
{
    let mut from: usize = 0;
    assert(chars@.skip(0) =~= chars@);
    while from < chars.len() && white_space(chars[from])
        invariant
            from <= chars.len(),
            trimmed_start(chars@) == trimmed_start(chars@.skip(from as int)),
        decreases chars.len() - from,
    {
        assert(chars@.skip(from as int).drop_first() =~= chars@.skip(from + 1));
        from += 1;
    }
    let ghost body = chars@.skip(from as int);
    assert(trimmed_start(chars@) == body);
    let mut to: usize = chars.len();
    assert(body =~= chars@.subrange(from as int, to as int));
    while from < to && white_space(chars[to - 1])
        invariant
            from <= to <= chars.len(),
            trimmed_end(body) == trimmed_end(chars@.subrange(from as int, to as int)),
        decreases to - from,
    {
        assert(chars@.subrange(from as int, to as int).drop_last() =~= chars@.subrange(
            from as int,
            to - 1,
        ));
        to -= 1;
    }
    string_of(chars, from, to)
}

/// `s` without white space at either end.
pub fn trim(s: &str) -> (t: String)
    ensures
        t@ == trimmed(s@),
{
    trimmed_string(&chars_of(s))
}

proof fn lemma_trimmed_end_of(t: Seq<char>, b: Seq<char>)
    requires
        forall|i: int| 0 <= i < b.len() ==> is_white_space(#[trigger] b[i]),
        t.len() == 0 || !is_white_space(t.last()),
    ensures
        trimmed_end(t + b) == t,
    decreases b.len(),
{
    if b.len() == 0 {
        assert(t + b =~= t);
    } else {
        assert((t + b).last() == b[b.len() - 1]);
        assert((t + b).drop_last() =~= t + b.drop_last());
        lemma_trimmed_end_of(t, b.drop_last());
    }
}

proof fn lemma_trimmed_start_of(a: Seq<char>, t: Seq<char>)
    requires
        forall|i: int| 0 <= i < a.len() ==> is_white_space(#[trigger] a[i]),
        t.len() == 0 || !is_white_space(t.first()),
    ensures
        trimmed_start(a + t) == t,
    decreases a.len(),
{
    if a.len() == 0 {
        assert(a + t =~= t);
    } else {
        assert((a + t).first() == a[0]);
        assert((a + t).drop_first() =~= a.drop_first() + t);
        lemma_trimmed_start_of(a.drop_first(), t);
    }
}

pub(crate) proof fn lemma_trimmed_of(a: Seq<char>, t: Seq<char>, b: Seq<char>)
    requires
        forall|i: int| 0 <= i < a.len() ==> is_white_space(#[trigger] a[i]),
        forall|i: int| 0 <= i < b.len() ==> is_white_space(#[trigger] b[i]),
        t.len() == 0 || (!is_white_space(t.first()) && !is_white_space(t.last())),
    ensures
        trimmed(a + t + b) == t,
{
    if t.len() == 0 {
        let s = a + t + b;
        assert forall|i: int| 0 <= i < s.len() implies is_white_space(#[trigger] s[i]) by {
            if i < a.len() {
                assert(s[i] == a[i]);
            } else {
                assert(s[i] == b[i - a.len()]);
            }
        }
        assert(s =~= s + t);
        lemma_trimmed_start_of(s, t);
    } else {
        assert(a + t + b =~= a + (t + b));
        lemma_trimmed_start_of(a, t + b);
        lemma_trimmed_end_of(t, b);
    }
}

proof fn lemma_trimmed_start_splits(s: Seq<char>) -> (a: Seq<char>)
    ensures
        s == a + trimmed_start(s),
        forall|i: int| 0 <= i < a.len() ==> is_white_space(#[trigger] a[i]),
        trimmed_start(s).len() > 0 ==> !is_white_space(trimmed_start(s).first()),
    decreases s.len(),
{
    if s.len() > 0 && is_white_space(s.first()) {
        let rest = lemma_trimmed_start_splits(s.drop_first());
        let a = seq![s.first()] + rest;
        assert(s =~= seq![s.first()] + s.drop_first());
        assert(seq![s.first()] + (rest + trimmed_start(s)) =~= a + trimmed_start(s));
        a
    } else {
        assert(s =~= Seq::<char>::empty() + s);
        seq![]
    }
}

proof fn lemma_trimmed_end_splits(s: Seq<char>) -> (b: Seq<char>)
    ensures
        s == trimmed_end(s) + b,
        forall|i: int| 0 <= i < b.len() ==> is_white_space(#[trigger] b[i]),
        trimmed_end(s).len() > 0 ==> !is_white_space(trimmed_end(s).last()) && trimmed_end(
            s,
        ).first() == s.first(),
    decreases s.len(),
{
    if s.len() > 0 && is_white_space(s.last()) {
        let rest = lemma_trimmed_end_splits(s.drop_last());
        let b = rest.push(s.last());
        assert(s =~= s.drop_last().push(s.last()));
        assert((trimmed_end(s) + rest).push(s.last()) =~= trimmed_end(s) + b);
        b
    } else {
        assert(s =~= s + Seq::<char>::empty());
        seq![]
    }
}

pub(crate) proof fn lemma_trimmed_splits(s: Seq<char>) -> (around: (Seq<char>, Seq<char>))
    ensures
        s == around.0 + trimmed(s) + around.1,
        forall|i: int| 0 <= i < around.0.len() ==> is_white_space(#[trigger] around.0[i]),
        forall|i: int| 0 <= i < around.1.len() ==> is_white_space(#[trigger] around.1[i]),
        trimmed(s).len() > 0 ==> !is_white_space(trimmed(s).first()) && !is_white_space(
            trimmed(s).last(),
        ),
{
    let a = lemma_trimmed_start_splits(s);
    let b = lemma_trimmed_end_splits(trimmed_start(s));
    assert(s =~= a + trimmed(s) + b);
    (a, b)
}

/// White space is these characters and no others: tab to carriage return, space, next line,
/// no-break space, and the Unicode spaces and separators.
pub proof fn law_white_space_characters(c: char, white: bool)
    requires
        call_ensures(white_space, (c,), white),
    ensures
        white == (9 <= c as int <= 13 || c as int == 32 || c as int == 0x85 || c as int == 0xa0
            || c as int == 0x1680 || 0x2000 <= c as int <= 0x200a || c as int == 0x2028
            || c as int == 0x2029 || c as int == 0x202f || c as int == 0x205f || c as int
            == 0x3000),
        white == is_white_space(c),
{
}

/// What [`trim`] takes away is white space only, and it leaves none at either end: the text is
/// the result with white space in front of it and behind it.
pub proof fn law_trim_takes_white_space_only(s: &str, t: String) -> (around: (
    Seq<char>,
    Seq<char>,
))
    requires
        call_ensures(trim, (s,), t),
    ensures
        s@ == around.0 + t@ + around.1,
        forall|i: int| 0 <= i < around.0.len() ==> is_white_space(#[trigger] around.0[i]),
        forall|i: int| 0 <= i < around.1.len() ==> is_white_space(#[trigger] around.1[i]),
        t@.len() > 0 ==> !is_white_space(t@.first()) && !is_white_space(t@.last()),
{
    lemma_trimmed_splits(s@)
}

/// However a text is split into white space, a middle that is empty or has none at its ends, and
/// white space, [`trim`] gives the middle, whatever its length.
pub proof fn law_trim_gives_the_middle(
    s: &str,
    t: String,
    a: Seq<char>,
    middle: Seq<char>,
    b: Seq<char>,
)
    requires
        call_ensures(trim, (s,), t),
        s@ == a + middle + b,
        forall|i: int| 0 <= i < a.len() ==> is_white_space(#[trigger] a[i]),
        forall|i: int| 0 <= i < b.len() ==> is_white_space(#[trigger] b[i]),
        middle.len() == 0 || (!is_white_space(middle.first()) && !is_white_space(middle.last())),
    ensures
        t@ == middle,
{
    lemma_trimmed_of(a, middle, b);
}

/// The byte that ends a line.
pub const LINE_FEED: u8 = 10;

/// What a line of bytes says: its text without white space at either end. A line that is not
/// UTF-8, and one that holds only white space, says nothing. A carriage return in front of the
/// line ending is white space like any other.
pub open spec fn entry_of(line: Seq<u8>) -> Option<Seq<char>> {
    if valid_utf8(line) && trimmed(decode_utf8(line)).len() > 0 {
        Some(trimmed(decode_utf8(line)))
    } else {
        None
    }
}

/// What the lines say that say something, in order.
pub open spec fn entries_of(lines: Seq<Seq<u8>>) -> Seq<Seq<char>>
    decreases lines.len(),
{
    if lines.len() == 0 {
        seq![]
    } else {
        match entry_of(lines.last()) {
            Some(entry) => entries_of(lines.drop_last()).push(entry),
            None => entries_of(lines.drop_last()),
        }
    }
}

/// The text of `bytes`, if they are UTF-8.
///
/// Trusted: `std::str::from_utf8` succeeds exactly on valid UTF-8, and then gives the text that
/// the bytes encode.
#[verifier::external_body]
fn line_text(bytes: &[u8]) -> (text: Option<&str>)
    ensures
        text is Some <==> valid_utf8(bytes@),
        text matches Some(t) ==> t@ == decode_utf8(bytes@),
{
    std::str::from_utf8(bytes).ok()
}

/// What a line of bytes says, if it says something.
fn entry(line: &Vec<u8>) -> (said: Option<String>)
    ensures
        said is Some <==> entry_of(line@) is Some,
        said matches Some(s) ==> s@ == entry_of(line@)->0,
{
    match line_text(line.as_slice()) {
        Some(text) => {
            let said = trim(text);
            if said.as_str().is_empty() {
                None
            } else {
                Some(said)
            }
        },
        None => None,
    }
}

/// The views of the strings in `v`.
pub open spec fn views(v: Seq<String>) -> Seq<Seq<char>> {
    v.map_values(|s: String| s@)
}

/// What the lines of `bytes` say that say something, in order.
pub fn entries(bytes: &[u8]) -> (found: Vec<String>)
    ensures
        views(found@) == entries_of(lines_of(bytes@, LINE_FEED)),
{
    let mut found: Vec<String> = Vec::new();
    let mut line: Vec<u8> = Vec::new();
    let ghost mut done: Seq<u8> = seq![];
    let mut i: usize = 0;
    proof {
        done.index_of_first_ensures(LINE_FEED);
        assert(lines_of(done, LINE_FEED) =~= seq![]);
        assert(views(found@) =~= entries_of(lines_of(done, LINE_FEED)));
        assert(bytes@.take(0) =~= done + line@);
    }
    while i < bytes.len()
        invariant
            i <= bytes.len(),
            bytes@.take(i as int) == done + line@,
            ends_a_line(done, LINE_FEED),
            !line@.contains(LINE_FEED),
            views(found@) == entries_of(lines_of(done, LINE_FEED)),
        decreases bytes.len() - i,
    {
        let b = bytes[i];
        proof {
            assert(bytes@.take(i + 1) =~= bytes@.take(i as int).push(b));
            assert((done + line@).push(b) =~= done + line@.push(b));
        }
        if b == LINE_FEED {
            proof {
                law_appended_line_is_last(done, line@, LINE_FEED);
                let lines = lines_of(done, LINE_FEED).push(line@);
                assert(lines.drop_last() =~= lines_of(done, LINE_FEED));
                done = done + line@.push(LINE_FEED);
            }
            if let Some(said) = entry(&line) {
                assert(views(found@.push(said)) =~= views(found@).push(said@));
                found.push(said);
            }
            line = Vec::new();
            proof {
                assert(done + line@ =~= done);
            }
        } else {
            proof {
                assert forall|j: int| 0 <= j < line@.len() + 1 implies line@.push(b)[j]
                    != LINE_FEED by {
                    if j < line@.len() {
                        assert(line@.contains(line@[j]));
                    }
                }
            }
            line.push(b);
        }
        i += 1;
    }
    proof {
        assert(bytes@.take(i as int) =~= bytes@);
    }
    if line.len() > 0 {
        proof {
            law_unfinished_line_is_last(done, line@, LINE_FEED);
            let lines = lines_of(done, LINE_FEED).push(line@);
            assert(lines.drop_last() =~= lines_of(done, LINE_FEED));
        }
        if let Some(said) = entry(&line) {
            assert(views(found@.push(said)) =~= views(found@).push(said@));
            found.push(said);
        }
    } else {
        proof {
            assert(done + line@ =~= done);
        }
    }
    found
}

proof fn lemma_encode_concat(a: Seq<char>, b: Seq<char>)
    ensures
        encode_utf8(a + b) == encode_utf8(a) + encode_utf8(b),
    decreases a.len(),
{
    if a.len() == 0 {
        assert(a + b =~= b);
        assert(encode_utf8(a) + encode_utf8(b) =~= encode_utf8(b));
    } else {
        lemma_encode_concat(a.drop_first(), b);
        assert((a + b).drop_first() =~= a.drop_first() + b);
        assert(encode_utf8(a + b) =~= encode_utf8(a) + encode_utf8(b));
    }
}

proof fn lemma_encode_char(c: char)
    requires
        c != '\n',
    ensures
        !encode_scalar(c as u32).contains(LINE_FEED),
{
    char_is_scalar(c);
    let s = c as u32;
    assert(has_width_1_encoding(s) ==> leading_byte_width_1(s) as u32 == s) by (bit_vector);
    assert(leading_byte_width_2(s) >= 0x80 && leading_byte_width_3(s) >= 0x80
        && leading_byte_width_4(s) >= 0x80 && last_continuation_byte(s) >= 0x80
        && second_last_continuation_byte(s) >= 0x80 && third_last_continuation_byte(s) >= 0x80)
        by (bit_vector);
}

proof fn lemma_encode_has_no_line_feed(s: Seq<char>)
    requires
        !s.contains('\n'),
    ensures
        !encode_utf8(s).contains(LINE_FEED),
    decreases s.len(),
{
    if s.len() > 0 {
        let rest = s.drop_first();
        assert(s.contains(s[0]));
        assert forall|i: int| 0 <= i < rest.len() implies rest[i] != '\n' by {
            assert(s.contains(s[i + 1]));
        }
        lemma_encode_has_no_line_feed(rest);
        lemma_encode_char(s[0]);
        let head = encode_scalar(s[0] as u32);
        let tail = encode_utf8(rest);
        assert forall|i: int| 0 <= i < (head + tail).len() implies (head + tail)[i] != LINE_FEED by {
            if i < head.len() {
                assert(head.contains(head[i]));
            } else {
                assert(tail.contains(tail[i - head.len()]));
            }
        }
    }
}

/// The bytes of a text have the lines of the text: line for line, what is read is what the text
/// says there.
pub proof fn law_lines_of_text(text: Seq<char>)
    ensures
        lines_of(encode_utf8(text), LINE_FEED) == lines_of(text, '\n').map_values(
            |line: Seq<char>| encode_utf8(line),
        ),
        forall|line: Seq<char>| #[trigger]
            entry_of(encode_utf8(line)) == (if trimmed(line).len() > 0 {
                Some(trimmed(line))
            } else {
                None
            }),
    decreases text.len(),
{
    broadcast use encode_utf8_valid_utf8, encode_utf8_decode_utf8;

    let bytes = encode_utf8(text);
    let encode = |line: Seq<char>| encode_utf8(line);
    text.index_of_first_ensures('\n');
    bytes.index_of_first_ensures(LINE_FEED);
    match text.index_of_first('\n') {
        Some(at) => {
            let line = text.take(at);
            let rest = text.skip(at + 1);
            assert forall|i: int| 0 <= i < line.len() implies line[i] != '\n' by {}
            lemma_encode_has_no_line_feed(line);
            assert(text =~= line + (seq!['\n'] + rest));
            lemma_encode_concat(line, seq!['\n'] + rest);
            lemma_encode_concat(seq!['\n'], rest);
            assert(encode_utf8(seq!['\n']) =~= seq![LINE_FEED]) by {
                assert(10u32 & 0x7f == 10u32) by (bit_vector);
                assert(seq!['\n'].drop_first() =~= seq![]);
                reveal_with_fuel(encode_utf8, 2);
            }
            let head = encode_utf8(line);
            let tail = encode_utf8(rest);
            assert(bytes =~= head + (seq![LINE_FEED] + tail));
            assert(bytes[head.len() as int] == LINE_FEED);
            let cut = bytes.index_of_first(LINE_FEED)->0;
            assert(cut == head.len()) by {
                if cut < head.len() {
                    assert(head.contains(head[cut]));
                }
            }
            assert(bytes.take(cut) =~= head);
            assert(bytes.skip(cut + 1) =~= tail);
            law_lines_of_text(rest);
            assert(lines_of(bytes, LINE_FEED) =~= lines_of(text, '\n').map_values(encode));
        },
        None => {
            lemma_encode_has_no_line_feed(text);
            if text.len() > 0 {
                encode_utf8_first_scalar(text);
                assert(bytes.len() > 0);
            }
            assert(lines_of(bytes, LINE_FEED) =~= lines_of(text, '\n').map_values(encode));
        },
    }
}

proof fn lemma_entry_of_text(a: Seq<char>, t: Seq<char>, b: Seq<char>)
    requires
        forall|i: int| 0 <= i < a.len() ==> is_white_space(#[trigger] a[i]),
        forall|i: int| 0 <= i < b.len() ==> is_white_space(#[trigger] b[i]),
        t.len() == 0 || (!is_white_space(t.first()) && !is_white_space(t.last())),
    ensures
        entry_of(encode_utf8(a + t + b)) == if t.len() > 0 {
            Some(t)
        } else {
            None
        },
{
    broadcast use encode_utf8_valid_utf8, encode_utf8_decode_utf8;

    lemma_trimmed_of(a, t, b);
}

/// A line of text says exactly its own text without the white space around it, whatever its
/// length; a line of white space says nothing.
pub proof fn law_line_says_its_text(line: Seq<u8>, a: Seq<char>, t: Seq<char>, b: Seq<char>)
    requires
        line == encode_utf8(a + t + b),
        forall|i: int| 0 <= i < a.len() ==> is_white_space(#[trigger] a[i]),
        forall|i: int| 0 <= i < b.len() ==> is_white_space(#[trigger] b[i]),
        t.len() == 0 || (!is_white_space(t.first()) && !is_white_space(t.last())),
    ensures
        t.len() > 0 ==> entry_of(line) == Some(t),
        t.len() == 0 ==> entry_of(line) is None,
{
    lemma_entry_of_text(a, t, b);
}

/// A line that is not UTF-8 says nothing.
pub proof fn law_line_that_is_not_text_says_nothing(line: Seq<u8>)
    requires
        !valid_utf8(line),
    ensures
        entry_of(line) is None,
{
}

/// Nothing has no lines, and nothing is said in it.
pub proof fn law_nothing_says_nothing(bytes: &[u8], found: Vec<String>)
    requires
        call_ensures(entries, (bytes,), found),
        bytes@.len() == 0,
    ensures
        found@.len() == 0,
{
    assert(bytes@ =~= Seq::<u8>::empty());
    Seq::<u8>::empty().index_of_first_ensures(LINE_FEED);
    assert(views(found@).len() == 0);
}

/// Appending a line to complete lines, with its line feed or without, adds at most one entry
/// behind those that were there, and changes none of them: the text of the line without the white
/// space around it, or nothing if the line is white space or not UTF-8.
pub proof fn law_entries_of_appended_line(
    bytes: &[u8],
    found: Vec<String>,
    more: &[u8],
    after: Vec<String>,
    line: Seq<u8>,
    a: Seq<char>,
    t: Seq<char>,
    b: Seq<char>,
)
    requires
        call_ensures(entries, (bytes,), found),
        call_ensures(entries, (more,), after),
        bytes@.len() == 0 || bytes@.last() == 10,
        !line.contains(10u8),
        more@ == bytes@ + line || more@ == bytes@ + line + seq![10u8],
        line == encode_utf8(a + t + b) || (!valid_utf8(line) && t.len() == 0),
        forall|i: int| 0 <= i < a.len() ==> is_white_space(#[trigger] a[i]),
        forall|i: int| 0 <= i < b.len() ==> is_white_space(#[trigger] b[i]),
        t.len() == 0 || (!is_white_space(t.first()) && !is_white_space(t.last())),
    ensures
        after@.len() == found@.len() + if t.len() > 0 {
            1int
        } else {
            0int
        },
        forall|i: int| 0 <= i < found@.len() ==> (#[trigger] after@[i])@ == found@[i]@,
        t.len() > 0 ==> after@.last()@ == t,
{
    if line == encode_utf8(a + t + b) {
        lemma_entry_of_text(a, t, b);
    }
    let lines = lines_of(bytes@, LINE_FEED);
    assert(entry_of(line) == if t.len() > 0 {
        Some(t)
    } else {
        None
    });
    if more@ == bytes@ + line + seq![10u8] {
        assert(more@ =~= bytes@ + line.push(LINE_FEED));
        law_appended_line_is_last(bytes@, line, LINE_FEED);
    } else if line.len() == 0 {
        assert(more@ =~= bytes@);
        assert(entry_of(line) is None) by {
            assert(line =~= seq![]);
            reveal_with_fuel(decode_utf8, 1);
        }
    } else {
        law_unfinished_line_is_last(bytes@, line, LINE_FEED);
    }
    assert(lines.push(line).drop_last() =~= lines);
    assert(views(found@).len() == found@.len());
    assert(views(after@).len() == after@.len());
    assert forall|i: int| 0 <= i < found@.len() implies (#[trigger] after@[i])@ == found@[i]@ by {
        assert(views(after@)[i] == after@[i]@);
        assert(views(found@)[i] == found@[i]@);
    }
    if t.len() > 0 {
        assert(views(after@).last() == after@.last()@);
    }
}

/// `c` with `A` to `Z` mapped to `a` to `z`.
pub open spec fn ascii_lower(c: char) -> char {
    if 'A' <= c <= 'Z' {
        (c as int + 32) as char
    } else {
        c
    }
}

/// `s` with `A` to `Z` mapped to `a` to `z`.
pub open spec fn lowered(s: Seq<char>) -> Seq<char> {
    s.map_values(|c: char| ascii_lower(c))
}

/// `c` with `A` to `Z` mapped to `a` to `z`.
fn lower(c: char) -> (l: char)
    ensures
        l == ascii_lower(c),
{
    if 'A' <= c && c <= 'Z' {
        (c as u8 + 32) as char
    } else {
        c
    }
}

/// Whether two strings are equal when ASCII letters are compared without regard to case.
pub fn eq_ignore_ascii_case(a: &str, b: &str) -> (same: bool)
    ensures
        same == (lowered(a@) == lowered(b@)),
{
    let left = chars_of(a);
    let right = chars_of(b);
    if left.len() != right.len() {
        assert(lowered(a@).len() != lowered(b@).len());
        return false;
    }
    let mut i: usize = 0;
    while i < left.len()
        invariant
            i <= left.len(),
            left@ == a@,
            right@ == b@,
            left.len() == right.len(),
            forall|j: int| 0 <= j < i ==> ascii_lower(left@[j]) == ascii_lower(right@[j]),
        decreases left.len() - i,
    {
        if lower(left[i]) != lower(right[i]) {
            assert(lowered(a@)[i as int] != lowered(b@)[i as int]);
            return false;
        }
        i += 1;
    }
    assert(lowered(a@) =~= lowered(b@));
    true
}

/// Two texts are equal without regard to case exactly where they are equally long and differ at no
/// place but in the case of a letter from A to Z.
pub proof fn law_case_of_letters_is_ignored(a: &str, b: &str, same: bool)
    requires
        call_ensures(eq_ignore_ascii_case, (a, b), same),
    ensures
        same <==> a@.len() == b@.len() && forall|i: int|
            #![trigger a@[i]]
            0 <= i < a@.len() ==> {
                ||| a@[i] == b@[i]
                ||| 65 <= a@[i] as int <= 90 && b@[i] as int == a@[i] as int + 32
                ||| 65 <= b@[i] as int <= 90 && a@[i] as int == b@[i] as int + 32
            },
{
    if same {
        assert(lowered(a@).len() == lowered(b@).len());
        assert forall|i: int| 0 <= i < a@.len() implies {
            ||| #[trigger] a@[i] == b@[i]
            ||| 65 <= a@[i] as int <= 90 && b@[i] as int == a@[i] as int + 32
            ||| 65 <= b@[i] as int <= 90 && a@[i] as int == b@[i] as int + 32
        } by {
            assert(lowered(a@)[i] == ascii_lower(a@[i]));
            assert(lowered(b@)[i] == ascii_lower(b@[i]));
            lemma_same_letter(a@[i], b@[i]);
        }
    } else if a@.len() == b@.len() && forall|i: int|
        #![trigger a@[i]]
        0 <= i < a@.len() ==> {
            ||| a@[i] == b@[i]
            ||| 65 <= a@[i] as int <= 90 && b@[i] as int == a@[i] as int + 32
            ||| 65 <= b@[i] as int <= 90 && a@[i] as int == b@[i] as int + 32
        } {
        assert forall|i: int| 0 <= i < a@.len() implies lowered(a@)[i] == lowered(b@)[i] by {
            lemma_same_letter(a@[i], b@[i]);
        }
        assert(lowered(a@) =~= lowered(b@));
    }
}

proof fn lemma_same_letter(x: char, y: char)
    ensures
        ascii_lower(x) == ascii_lower(y) <==> {
            ||| x == y
            ||| 65 <= x as int <= 90 && y as int == x as int + 32
            ||| 65 <= y as int <= 90 && x as int == y as int + 32
        },
{
    assert(0 <= x as int <= 0x10ffff);
    assert(0 <= y as int <= 0x10ffff);
    if 'A' <= x <= 'Z' {
        assert(ascii_lower(x) as int == x as int + 32);
    }
    if 'A' <= y <= 'Z' {
        assert(ascii_lower(y) as int == y as int + 32);
    }
}

/// Whether `needle` stands in `hay` at position `at`.
pub open spec fn stands_at(hay: Seq<char>, needle: Seq<char>, at: int) -> bool {
    &&& 0 <= at
    &&& at + needle.len() <= hay.len()
    &&& hay.subrange(at, at + needle.len()) == needle
}

/// Whether `needle` occurs anywhere in `hay`.
pub open spec fn occurs_in(hay: Seq<char>, needle: Seq<char>) -> bool {
    exists|at: int| stands_at(hay, needle, at)
}

/// Whether `needle` occurs anywhere in `hay`.
pub fn contains(hay: &str, needle: &str) -> (found: bool)
    ensures
        found == occurs_in(hay@, needle@),
{
    let text = chars_of(hay);
    let pattern = chars_of(needle);
    if pattern.len() > text.len() {
        return false;
    }
    let last: usize = text.len() - pattern.len();
    let mut at: usize = 0;
    loop
        invariant
            text@ == hay@,
            pattern@ == needle@,
            at <= last,
            last + pattern.len() == text.len(),
            forall|k: int| 0 <= k < at ==> !stands_at(text@, pattern@, k),
        decreases last - at,
    {
        let mut n: usize = 0;
        while n < pattern.len() && text[at + n] == pattern[n]
            invariant
                n <= pattern.len(),
                at <= last,
                last + pattern.len() == text.len(),
                forall|j: int| 0 <= j < n ==> text@[at + j] == pattern@[j],
            decreases pattern.len() - n,
        {
            n += 1;
        }
        if n == pattern.len() {
            assert(text@.subrange(at as int, at + pattern.len()) =~= pattern@);
            assert(stands_at(hay@, needle@, at as int));
            return true;
        }
        proof {
            assert(!stands_at(text@, pattern@, at as int)) by {
                assert(text@.subrange(at as int, at + pattern.len())[n as int] == text@[at + n]);
            }
        }
        if at == last {
            return false;
        }
        at += 1;
    }
}

pub(crate) proof fn lemma_occurs_splits(hay: Seq<char>, needle: Seq<char>) -> (around: (
    Seq<char>,
    Seq<char>,
))
    requires
        occurs_in(hay, needle),
    ensures
        hay == around.0 + needle + around.1,
{
    let at = choose|at: int| stands_at(hay, needle, at);
    let around = (hay.take(at), hay.skip(at + needle.len()));
    assert(hay =~= around.0 + hay.subrange(at, at + needle.len()) + around.1);
    around
}

pub(crate) proof fn lemma_occurs_between(a: Seq<char>, needle: Seq<char>, b: Seq<char>)
    ensures
        occurs_in(a + needle + b, needle),
{
    let at = a.len() as int;
    assert((a + needle + b).subrange(at, at + needle.len()) =~= needle);
    assert(stands_at(a + needle + b, needle, at));
}

/// Where [`contains`] finds a text, it stands there, with something in front of it and behind it.
pub proof fn law_found_text_is_there(hay: &str, needle: &str) -> (around: (Seq<char>, Seq<char>))
    requires
        call_ensures(contains, (hay, needle), true),
    ensures
        hay@ == around.0 + needle@ + around.1,
{
    lemma_occurs_splits(hay@, needle@)
}

/// [`contains`] finds a text wherever it stands.
pub proof fn law_text_is_found_anywhere(
    hay: &str,
    needle: &str,
    found: bool,
    a: Seq<char>,
    b: Seq<char>,
)
    requires
        call_ensures(contains, (hay, needle), found),
        hay@ == a + needle@ + b,
    ensures
        found,
{
    lemma_occurs_between(a, needle@, b);
}

/// The decimal digit of value `d`.
pub open spec fn digit(d: nat) -> char {
    ('0' as int + d) as char
}

/// `n` in decimal, without leading zeros.
pub open spec fn decimal(n: nat) -> Seq<char>
    decreases n,
{
    if n < 10 {
        seq![digit(n)]
    } else {
        decimal(n / 10).push(digit(n % 10))
    }
}

/// `n` in decimal, without leading zeros.
pub fn decimal_string(n: u64) -> (s: String)
    ensures
        s@ == decimal(n as nat),
    decreases n,
{
    let mut s: String = if n < 10 {
        String::new()
    } else {
        decimal_string(n / 10)
    };
    let d: u8 = (n % 10) as u8;
    s.push(('0' as u8 + d) as char);
    assert(n < 10 ==> s@ =~= seq![digit(n as nat)]);
    s
}

/// The number that decimal digits stand for.
pub open spec fn decimal_value(s: Seq<char>) -> int
    decreases s.len(),
{
    if s.len() == 0 {
        0
    } else {
        10 * decimal_value(s.drop_last()) + (s.last() as int - 48)
    }
}

proof fn lemma_decimal_has_the_value(n: nat)
    ensures
        decimal(n).len() > 0,
        forall|i: int| 0 <= i < decimal(n).len() ==> 48 <= #[trigger] decimal(n)[i] as int <= 57,
        decimal_value(decimal(n)) == n,
        n > 0 ==> decimal(n)[0] as int != 48,
        n == 0 ==> decimal(n).len() == 1,
    decreases n,
{
    reveal_with_fuel(decimal_value, 2);
    let last = digit(n % 10);
    assert(last as int == 48 + n % 10);
    if n < 10 {
        assert(decimal(n) =~= seq![last]);
        assert(decimal(n).drop_last() =~= seq![]);
    } else {
        lemma_decimal_has_the_value(n / 10);
        assert(decimal(n).drop_last() =~= decimal(n / 10));
        assert(decimal(n)[0] == decimal(n / 10)[0]);
    }
}

/// A number is written with decimal digits only, at least one, with no zero in front of another
/// digit, and they stand for the number.
pub proof fn law_decimal_stands_for_the_number(n: u64, s: String)
    requires
        call_ensures(decimal_string, (n,), s),
    ensures
        s@.len() > 0,
        forall|i: int| 0 <= i < s@.len() ==> 48 <= #[trigger] s@[i] as int <= 57,
        decimal_value(s@) == n,
        s@.len() > 1 ==> s@[0] as int != 48,
{
    lemma_decimal_has_the_value(n as nat);
}

/// A digit is written as itself, and a number of several digits as the number without its last
/// digit, followed by that digit.
pub proof fn law_decimal_grows_by_a_digit(n: u64, s: String, d: u64, longer: u64, t: String)
    requires
        call_ensures(decimal_string, (n,), s),
        call_ensures(decimal_string, (longer,), t),
        d < 10,
        longer == 10 * n + d,
    ensures
        n == 0 ==> t@ == seq![(48 + d) as char],
        n > 0 ==> t@ == s@.push((48 + d) as char),
{
}

} // verus!
