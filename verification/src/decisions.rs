//! Answers: the lines of `decisions.jsonl`.
//!
//! The file only ever grows. A line that is not a decision is skipped, a decision for another
//! request is none for this one, and of several decisions for one request the last one counts.

use crate::text;
use vstd::prelude::*;

verus! {

/// File name that answers are appended to.
pub const DECISIONS_FILE: &'static str = "decisions.jsonl";

/// One line of [`DECISIONS_FILE`]: the answer to the request with the same `id`.
#[derive(Debug, Clone)]
pub struct ApprovalDecision {
    /// The `id` of the request that this answers.
    pub id: String,
    /// `true` approves, `false` denies. The only field that decides the outcome.
    pub approved: bool,
    /// When the decision was made, in milliseconds since the Unix epoch; 0 where the line does
    /// not say.
    pub decided_at_ms: u64,
}

/// What an [`ApprovalDecision`] says.
pub struct DecisionView {
    pub id: Seq<char>,
    pub approved: bool,
    pub decided_at_ms: u64,
}

impl View for ApprovalDecision {
    type V = DecisionView;

    open spec fn view(&self) -> DecisionView {
        DecisionView {
            id: self.id@,
            approved: self.approved,
            decided_at_ms: self.decided_at_ms,
        }
    }
}

/// What a parsed line says; `None` stands for a line that is not a decision.
pub open spec fn line_view(line: Option<ApprovalDecision>) -> Option<DecisionView> {
    match line {
        Some(decision) => Some(decision@),
        None => None,
    }
}

/// What parsed lines say.
pub open spec fn line_views(lines: Seq<Option<ApprovalDecision>>) -> Seq<Option<DecisionView>> {
    lines.map_values(|line: Option<ApprovalDecision>| line_view(line))
}

/// Whether `line` is a decision on the request `id`.
pub open spec fn answers(line: Option<DecisionView>, id: Seq<char>) -> bool {
    line matches Some(decision) && decision.id == id
}

/// The answer to the request `id`: what the last decision on it says.
pub open spec fn answer_to(lines: Seq<Option<DecisionView>>, id: Seq<char>) -> Option<bool>
    decreases lines.len(),
{
    if lines.len() == 0 {
        None
    } else if answers(lines.last(), id) {
        Some(lines.last()->0.approved)
    } else {
        answer_to(lines.drop_last(), id)
    }
}

/// The answer to the request `id` in parsed lines, where `None` stands for a line that is not a
/// decision.
pub fn last_decision(lines: &Vec<Option<ApprovalDecision>>, id: &str) -> (answer: Option<bool>)
    ensures
        answer == answer_to(line_views(lines@), id@),
{
    let wanted: String = id.to_owned();
    let mut found: Option<bool> = None;
    let mut i: usize = 0;
    while i < lines.len()
        invariant
            i <= lines.len(),
            wanted@ == id@,
            found == answer_to(line_views(lines@).take(i as int), id@),
        decreases lines.len() - i,
    {
        proof {
            let views = line_views(lines@);
            assert(views.take(i + 1).drop_last() =~= views.take(i as int));
            assert(views.take(i + 1).last() == line_view(lines@[i as int]));
        }
        if let Some(decision) = &lines[i] {
            if decision.id == wanted {
                found = Some(decision.approved);
            }
        }
        i += 1;
    }
    assert(line_views(lines@).take(i as int) =~= line_views(lines@));
    found
}

/// Whether `parse` may return `line` for the text `entry`.
pub open spec fn parses_to<F: Fn(&str) -> Option<ApprovalDecision>>(
    parse: F,
    entry: Seq<char>,
    line: Option<ApprovalDecision>,
) -> bool {
    exists|s: &str| s@ == entry && #[trigger] call_ensures(parse, (s,), line)
}

/// Whether `parse` may return `lines` for the texts `entries`, one for one.
pub open spec fn all_parse_to<F: Fn(&str) -> Option<ApprovalDecision>>(
    parse: F,
    entries: Seq<Seq<char>>,
    lines: Seq<Option<ApprovalDecision>>,
) -> bool {
    &&& lines.len() == entries.len()
    &&& forall|i: int| 0 <= i < lines.len() ==> parses_to(parse, entries[i], #[trigger] lines[i])
}

/// Whether `answer` may be the answer to the request `id` in the texts `entries`, which `parse`
/// reads.
pub open spec fn may_find<F: Fn(&str) -> Option<ApprovalDecision>>(
    parse: F,
    entries: Seq<Seq<char>>,
    id: Seq<char>,
    answer: Option<bool>,
) -> bool {
    exists|lines: Seq<Option<ApprovalDecision>>|
        #[trigger] all_parse_to(parse, entries, lines) && answer == answer_to(
            line_views(lines),
            id,
        )
}

/// What the lines of a file say that say something.
pub open spec fn file_entries(bytes: Seq<u8>) -> Seq<Seq<char>> {
    text::entries_of(text::lines_of(bytes, text::LINE_FEED))
}

/// Whether `answer` may be the answer to the request `id` in the bytes of [`DECISIONS_FILE`],
/// where `parse` reads its lines. A file that is absent or cannot be read holds no answer yet.
pub open spec fn may_answer<F: Fn(&str) -> Option<ApprovalDecision>>(
    parse: F,
    bytes: Option<Seq<u8>>,
    id: Seq<char>,
    answer: Option<bool>,
) -> bool {
    match bytes {
        Some(b) => may_find(parse, file_entries(b), id, answer),
        None => answer is None,
    }
}

/// The view of optional bytes.
pub open spec fn bytes_view(bytes: Option<&[u8]>) -> Option<Seq<u8>> {
    match bytes {
        Some(b) => Some(b@),
        None => None,
    }
}

/// The answer to the request `id` in the bytes of [`DECISIONS_FILE`], or `None` if there is none
/// yet. `bytes` is `None` where the file is absent or cannot be read. `parse` reads one line; a
/// line that is not UTF-8 is skipped like any other line that is not a decision.
pub fn scan_decision<F: Fn(&str) -> Option<ApprovalDecision>>(
    bytes: Option<&[u8]>,
    id: &str,
    parse: F,
) -> (answer: Option<bool>)
    requires
        forall|s: &str| call_requires(parse, (s,)),
    ensures
        may_answer(parse, bytes_view(bytes), id@, answer),
{
    let b = match bytes {
        Some(b) => b,
        None => return None,
    };
    let entries = text::entries(b);
    let mut lines: Vec<Option<ApprovalDecision>> = Vec::new();
    let mut i: usize = 0;
    while i < entries.len()
        invariant
            i <= entries.len(),
            lines.len() == i,
            forall|s: &str| call_requires(parse, (s,)),
            forall|j: int| 0 <= j < i ==> parses_to(parse, entries@[j]@, #[trigger] lines@[j]),
        decreases entries.len() - i,
    {
        let entry: &str = entries[i].as_str();
        let line = parse(entry);
        assert(parses_to(parse, entry@, line));
        lines.push(line);
        i += 1;
    }
    let answer = last_decision(&lines, id);
    proof {
        let texts = text::views(entries@);
        assert(all_parse_to(parse, texts, lines@)) by {
            assert forall|j: int| 0 <= j < lines@.len() implies parses_to(
                parse,
                texts[j],
                #[trigger] lines@[j],
            ) by {
                assert(texts[j] == entries@[j]@);
            }
        }
        assert(may_find(parse, texts, id@, answer));
    }
    answer
}

/// What the lines of a file say, as `parser` reads them.
pub open spec fn parsed(
    bytes: Seq<u8>,
    parser: spec_fn(Seq<char>) -> Option<DecisionView>,
) -> Seq<Option<DecisionView>> {
    file_entries(bytes).map_values(parser)
}

/// The answer to the request `id` in the bytes of [`DECISIONS_FILE`], where every line is read by
/// `parser`.
pub open spec fn scan(
    bytes: Seq<u8>,
    id: Seq<char>,
    parser: spec_fn(Seq<char>) -> Option<DecisionView>,
) -> Option<bool> {
    answer_to(parsed(bytes, parser), id)
}

/// Whether two lines agree in what decides: that they are decisions, for which request, and
/// whether they approve.
pub open spec fn agree(a: Option<DecisionView>, b: Option<DecisionView>) -> bool {
    match (a, b) {
        (Some(d), Some(e)) => d.id == e.id && d.approved == e.approved,
        (None, None) => true,
        _ => false,
    }
}

/// Only `id` and `approved` count: lines that agree in those give the same answer, whenever the
/// decisions were made.
pub proof fn law_only_approved_decides(
    a: Seq<Option<DecisionView>>,
    b: Seq<Option<DecisionView>>,
    id: Seq<char>,
)
    requires
        a.len() == b.len(),
        forall|i: int| 0 <= i < a.len() ==> agree(#[trigger] a[i], b[i]),
    ensures
        answer_to(a, id) == answer_to(b, id),
    decreases a.len(),
{
    if a.len() > 0 {
        assert(agree(a[a.len() - 1], b[a.len() - 1]));
        assert forall|i: int| 0 <= i < a.drop_last().len() implies agree(
            #[trigger] a.drop_last()[i],
            b.drop_last()[i],
        ) by {
            assert(agree(a[i], b[i]));
        }
        law_only_approved_decides(a.drop_last(), b.drop_last(), id);
    }
}

/// Where `parse` agrees with `parser` on every text, [`scan_decision`] can return nothing but
/// [`scan`].
pub proof fn law_scan_follows_the_parser<F: Fn(&str) -> Option<ApprovalDecision>>(
    parse: F,
    parser: spec_fn(Seq<char>) -> Option<DecisionView>,
    bytes: Seq<u8>,
    id: Seq<char>,
    answer: Option<bool>,
)
    requires
        forall|entry: Seq<char>, line: Option<ApprovalDecision>| #[trigger]
            parses_to(parse, entry, line) ==> agree(line_view(line), parser(entry)),
        may_answer(parse, Some(bytes), id, answer),
    ensures
        answer == scan(bytes, id, parser),
{
    let entries = file_entries(bytes);
    let lines = choose|lines: Seq<Option<ApprovalDecision>>|
        #[trigger] all_parse_to(parse, entries, lines) && answer == answer_to(
            line_views(lines),
            id,
        );
    assert forall|i: int| 0 <= i < lines.len() implies agree(
        #[trigger] line_views(lines)[i],
        parsed(bytes, parser)[i],
    ) by {
        assert(parses_to(parse, entries[i], lines[i]));
    }
    law_only_approved_decides(line_views(lines), parsed(bytes, parser), id);
}

/// An answer is what some decision on the request says, and no later line decides on it; there is
/// no answer exactly where no line decides on it.
pub proof fn law_answer_is_the_last_decision(lines: Seq<Option<DecisionView>>, id: Seq<char>)
    ensures
        answer_to(lines, id) matches Some(approved) ==> exists|i: int|
            0 <= i < lines.len() && #[trigger] answers(lines[i], id) && lines[i]->0.approved
                == approved && forall|j: int| i < j < lines.len() ==> !answers(lines[j], id),
        answer_to(lines, id) is None <==> forall|i: int|
            0 <= i < lines.len() ==> !answers(#[trigger] lines[i], id),
    decreases lines.len(),
{
    if lines.len() > 0 {
        let front = lines.drop_last();
        if answers(lines.last(), id) {
            assert(answers(lines[lines.len() - 1], id));
        } else {
            law_answer_is_the_last_decision(front, id);
            assert forall|i: int| 0 <= i < front.len() implies front[i] == lines[i] by {}
            if answer_to(front, id) is Some {
                let i = choose|i: int|
                    0 <= i < front.len() && #[trigger] answers(front[i], id)
                        && front[i]->0.approved == answer_to(front, id)->0 && forall|j: int|
                        i < j < front.len() ==> !answers(front[j], id);
                assert(answers(lines[i], id));
                assert forall|j: int| i < j < lines.len() implies !answers(lines[j], id) by {
                    if j < front.len() {
                        assert(!answers(front[j], id));
                    }
                }
            } else {
                assert forall|i: int| 0 <= i < lines.len() implies !answers(
                    #[trigger] lines[i],
                    id,
                ) by {
                    if i < front.len() {
                        assert(!answers(front[i], id));
                    }
                }
            }
        }
    }
}

/// What `line` says, as `parser` reads it; `None` if it says nothing.
pub open spec fn line_says(
    line: Seq<u8>,
    parser: spec_fn(Seq<char>) -> Option<DecisionView>,
) -> Option<DecisionView> {
    match text::entry_of(line) {
        Some(entry) => parser(entry),
        None => None,
    }
}

/// The answer after `line` was appended to complete lines: what `line` decides, or else the
/// answer that stood before.
pub open spec fn answer_after(
    before: Option<bool>,
    line: Seq<u8>,
    id: Seq<char>,
    parser: spec_fn(Seq<char>) -> Option<DecisionView>,
) -> Option<bool> {
    if answers(line_says(line, parser), id) {
        Some(line_says(line, parser)->0.approved)
    } else {
        before
    }
}

proof fn lemma_scan_of_pushed_line(
    lines: Seq<Seq<u8>>,
    line: Seq<u8>,
    id: Seq<char>,
    parser: spec_fn(Seq<char>) -> Option<DecisionView>,
)
    ensures
        answer_to(text::entries_of(lines.push(line)).map_values(parser), id) == answer_after(
            answer_to(text::entries_of(lines).map_values(parser), id),
            line,
            id,
            parser,
        ),
{
    assert(lines.push(line).drop_last() =~= lines);
    let before = text::entries_of(lines);
    if let Some(entry) = text::entry_of(line) {
        let after = before.push(entry).map_values(parser);
        assert(after.drop_last() =~= before.map_values(parser));
        assert(after.last() == parser(entry));
    }
}

/// Appending a line decides the request if the line is a decision on it, whatever stood before:
/// the last decision wins. Any other line, malformed, not even UTF-8, blank or for another
/// request, leaves the answer as it was.
pub proof fn law_last_decision_wins(
    bytes: Seq<u8>,
    line: Seq<u8>,
    id: Seq<char>,
    parser: spec_fn(Seq<char>) -> Option<DecisionView>,
)
    requires
        text::ends_a_line(bytes, text::LINE_FEED),
        !line.contains(text::LINE_FEED),
    ensures
        scan(bytes + line.push(text::LINE_FEED), id, parser) == answer_after(
            scan(bytes, id, parser),
            line,
            id,
            parser,
        ),
        text::ends_a_line(bytes + line.push(text::LINE_FEED), text::LINE_FEED),
{
    text::law_appended_line_is_last(bytes, line, text::LINE_FEED);
    lemma_scan_of_pushed_line(text::lines_of(bytes, text::LINE_FEED), line, id, parser);
}

/// The same holds of a last line without a line ending.
pub proof fn law_last_decision_wins_unfinished(
    bytes: Seq<u8>,
    line: Seq<u8>,
    id: Seq<char>,
    parser: spec_fn(Seq<char>) -> Option<DecisionView>,
)
    requires
        text::ends_a_line(bytes, text::LINE_FEED),
        !line.contains(text::LINE_FEED),
    ensures
        scan(bytes + line, id, parser) == answer_after(scan(bytes, id, parser), line, id, parser),
{
    if line.len() == 0 {
        assert(bytes + line =~= bytes);
        assert(line =~= seq![]);
        assert(text::entry_of(line) is None) by {
            reveal_with_fuel(vstd::utf8::decode_utf8, 1);
        }
    } else {
        text::law_unfinished_line_is_last(bytes, line, text::LINE_FEED);
        lemma_scan_of_pushed_line(text::lines_of(bytes, text::LINE_FEED), line, id, parser);
    }
}

proof fn lemma_entries_compose(a: Seq<Seq<u8>>, b: Seq<Seq<u8>>)
    ensures
        text::entries_of(a + b) == text::entries_of(a) + text::entries_of(b),
    decreases b.len(),
{
    if b.len() == 0 {
        assert(a + b =~= a);
    } else {
        assert((a + b).drop_last() =~= a + b.drop_last());
        lemma_entries_compose(a, b.drop_last());
    }
    assert(text::entries_of(a + b) =~= text::entries_of(a) + text::entries_of(b));
}

proof fn lemma_answers_compose(
    a: Seq<Option<DecisionView>>,
    b: Seq<Option<DecisionView>>,
    id: Seq<char>,
)
    ensures
        answer_to(a + b, id) == if answer_to(b, id) is Some {
            answer_to(b, id)
        } else {
            answer_to(a, id)
        },
    decreases b.len(),
{
    if b.len() == 0 {
        assert(a + b =~= a);
    } else {
        assert((a + b).drop_last() =~= a + b.drop_last());
        lemma_answers_compose(a, b.drop_last(), id);
    }
}

/// What is appended to complete lines decides the request if it decides on it at all; else the
/// answer stays as it was.
pub proof fn law_later_lines_win(
    bytes: Seq<u8>,
    more: Seq<u8>,
    id: Seq<char>,
    parser: spec_fn(Seq<char>) -> Option<DecisionView>,
)
    requires
        text::ends_a_line(bytes, text::LINE_FEED),
    ensures
        scan(bytes + more, id, parser) == if scan(more, id, parser) is Some {
            scan(more, id, parser)
        } else {
            scan(bytes, id, parser)
        },
{
    text::law_lines_compose(bytes, more, text::LINE_FEED);
    lemma_entries_compose(
        text::lines_of(bytes, text::LINE_FEED),
        text::lines_of(more, text::LINE_FEED),
    );
    assert(parsed(bytes + more, parser) =~= parsed(bytes, parser) + parsed(more, parser));
    lemma_answers_compose(parsed(bytes, parser), parsed(more, parser), id);
}

/// A line that is not a decision on the request, be it malformed, not even UTF-8, blank or for
/// another request, counts for nothing wherever it stands in the file: without it the answer is
/// the same.
pub proof fn law_other_lines_do_not_count(
    before: Seq<u8>,
    line: Seq<u8>,
    after: Seq<u8>,
    id: Seq<char>,
    parser: spec_fn(Seq<char>) -> Option<DecisionView>,
)
    requires
        text::ends_a_line(before, text::LINE_FEED),
        !line.contains(text::LINE_FEED),
        !answers(line_says(line, parser), id),
    ensures
        scan(before + line.push(text::LINE_FEED) + after, id, parser) == scan(
            before + after,
            id,
            parser,
        ),
{
    law_last_decision_wins(before, line, id, parser);
    law_later_lines_win(before + line.push(text::LINE_FEED), after, id, parser);
    law_later_lines_win(before, after, id, parser);
}

/// Two requests can wait in one mailbox: each gets the decision for its own id, in whichever
/// order the two decisions are appended and whatever stood in the file before.
pub proof fn law_each_request_gets_its_own_decision(
    bytes: Seq<u8>,
    first: Seq<u8>,
    second: Seq<u8>,
    a: Seq<char>,
    b: Seq<char>,
    parser: spec_fn(Seq<char>) -> Option<DecisionView>,
)
    requires
        a != b,
        text::ends_a_line(bytes, text::LINE_FEED),
        !first.contains(text::LINE_FEED),
        !second.contains(text::LINE_FEED),
        answers(line_says(first, parser), a),
        answers(line_says(second, parser), b),
    ensures
        ({
            let both = bytes + first.push(text::LINE_FEED) + second.push(text::LINE_FEED);
            let swapped = bytes + second.push(text::LINE_FEED) + first.push(text::LINE_FEED);
            let to_a = Some(line_says(first, parser)->0.approved);
            let to_b = Some(line_says(second, parser)->0.approved);
            &&& scan(both, a, parser) == to_a
            &&& scan(both, b, parser) == to_b
            &&& scan(swapped, a, parser) == to_a
            &&& scan(swapped, b, parser) == to_b
        }),
{
    let after_first = bytes + first.push(text::LINE_FEED);
    let after_second = bytes + second.push(text::LINE_FEED);
    law_last_decision_wins(bytes, first, a, parser);
    law_last_decision_wins(bytes, second, b, parser);
    law_last_decision_wins(after_first, second, a, parser);
    law_last_decision_wins(after_first, second, b, parser);
    law_last_decision_wins(after_second, first, a, parser);
    law_last_decision_wins(after_second, first, b, parser);
}

/// An empty file holds no answer.
pub proof fn law_empty_file_has_no_answer(
    id: Seq<char>,
    parser: spec_fn(Seq<char>) -> Option<DecisionView>,
)
    ensures
        scan(Seq::empty(), id, parser) is None,
{
    Seq::<u8>::empty().index_of_first_ensures(text::LINE_FEED);
}

/// The answer in parsed lines is what the last line for the request says, and there is none
/// exactly where no line is for the request.
pub proof fn law_last_line_for_the_request_counts(
    lines: &Vec<Option<ApprovalDecision>>,
    id: &str,
    answer: Option<bool>,
)
    requires
        call_ensures(last_decision, (lines, id), answer),
    ensures
        answer is None ==> forall|i: int|
            0 <= i < lines@.len() ==> (#[trigger] lines@[i] matches Some(d) ==> d.id@ != id@),
        answer matches Some(approved) ==> exists|i: int|
            0 <= i < lines@.len() && (#[trigger] lines@[i] matches Some(d) && d.id@ == id@
                && d.approved == approved) && forall|j: int|
                i < j < lines@.len() ==> (#[trigger] lines@[j] matches Some(d) ==> d.id@ != id@),
{
    let views = line_views(lines@);
    law_answer_is_the_last_decision(views, id@);
    if let Some(approved) = answer {
        let i = choose|i: int|
            0 <= i < views.len() && #[trigger] answers(views[i], id@) && views[i]->0.approved
                == approved && forall|j: int| i < j < views.len() ==> !answers(views[j], id@);
        assert(views[i] == line_view(lines@[i]));
        assert forall|j: int| i < j < lines@.len() implies (#[trigger] lines@[j] matches Some(
            d,
        ) ==> d.id@ != id@) by {
            assert(!answers(views[j], id@));
        }
        assert(lines@[i] is Some);
    } else {
        assert forall|i: int| 0 <= i < lines@.len() implies (#[trigger] lines@[i] matches Some(
            d,
        ) ==> d.id@ != id@) by {
            assert(!answers(views[i], id@));
        }
    }
}

/// Whether `parse` reads every text as `parser` does, in what decides: whether it is a decision,
/// for which request, and whether it approves.
pub open spec fn reads_as<F: Fn(&str) -> Option<ApprovalDecision>>(
    parse: F,
    parser: spec_fn(Seq<char>) -> Option<DecisionView>,
) -> bool {
    forall|s: &str, line: Option<ApprovalDecision>| #[trigger]
        call_ensures(parse, (s,), line) ==> {
            &&& line is Some <==> parser(s@) is Some
            &&& line matches Some(d) ==> d.id@ == parser(s@)->0.id && d.approved == parser(
                s@,
            )->0.approved
        }
}

pub(crate) proof fn lemma_scan_is_read<F: Fn(&str) -> Option<ApprovalDecision>>(
    bytes: Seq<u8>,
    id: Seq<char>,
    parse: F,
    parser: spec_fn(Seq<char>) -> Option<DecisionView>,
    answer: Option<bool>,
)
    requires
        reads_as(parse, parser),
        may_answer(parse, Some(bytes), id, answer),
    ensures
        answer == scan(bytes, id, parser),
{
    assert forall|entry: Seq<char>, line: Option<ApprovalDecision>| #[trigger]
        parses_to(parse, entry, line) implies agree(line_view(line), parser(entry)) by {
        let s = choose|s: &str| s@ == entry && #[trigger] call_ensures(parse, (s,), line);
        assert(call_ensures(parse, (s,), line));
    }
    law_scan_follows_the_parser(parse, parser, bytes, id, answer);
}

/// An absent or unreadable file holds no answer, and neither does an empty one.
pub proof fn law_no_file_no_answer<F: Fn(&str) -> Option<ApprovalDecision>>(
    bytes: Option<&[u8]>,
    id: &str,
    parse: F,
    parser: spec_fn(Seq<char>) -> Option<DecisionView>,
    answer: Option<bool>,
)
    requires
        call_ensures(scan_decision::<F>, (bytes, id, parse), answer),
        reads_as(parse, parser),
        bytes matches Some(b) ==> b@.len() == 0,
    ensures
        answer is None,
{
    if let Some(b) = bytes {
        assert(b@ =~= Seq::<u8>::empty());
        lemma_scan_is_read(b@, id@, parse, parser, answer);
        law_empty_file_has_no_answer(id@, parser);
    }
}

/// Appending a line to complete lines, with its line feed or without, decides the request if the
/// text of the line, without the white space around it, is a decision that names its id, whatever
/// the length of the line and whatever stood before. Any other line, malformed, white space, not
/// UTF-8 or for another request, leaves the answer as it was.
pub proof fn law_appended_decision_decides<F: Fn(&str) -> Option<ApprovalDecision>>(
    bytes: &[u8],
    before: Option<bool>,
    more: &[u8],
    after: Option<bool>,
    id: &str,
    parse: F,
    parser: spec_fn(Seq<char>) -> Option<DecisionView>,
    line: Seq<u8>,
    a: Seq<char>,
    t: Seq<char>,
    b: Seq<char>,
)
    requires
        call_ensures(scan_decision::<F>, (Some(bytes), id, parse), before),
        call_ensures(scan_decision::<F>, (Some(more), id, parse), after),
        reads_as(parse, parser),
        bytes@.len() == 0 || bytes@.last() == 10,
        !line.contains(10u8),
        more@ == bytes@ + line || more@ == bytes@ + line + seq![10u8],
        line == vstd::utf8::encode_utf8(a + t + b) || (!vstd::utf8::valid_utf8(line) && t.len()
            == 0),
        forall|i: int| 0 <= i < a.len() ==> text::is_white_space(#[trigger] a[i]),
        forall|i: int| 0 <= i < b.len() ==> text::is_white_space(#[trigger] b[i]),
        t.len() == 0 || (!text::is_white_space(t.first()) && !text::is_white_space(t.last())),
    ensures
        t.len() > 0 && parser(t) is Some && parser(t)->0.id == id@ ==> after == Some(
            parser(t)->0.approved,
        ),
        t.len() == 0 || parser(t) is None || parser(t)->0.id != id@ ==> after == before,
{
    lemma_scan_is_read(bytes@, id@, parse, parser, before);
    lemma_scan_is_read(more@, id@, parse, parser, after);
    if line == vstd::utf8::encode_utf8(a + t + b) {
        text::law_line_says_its_text(line, a, t, b);
    } else {
        text::law_line_that_is_not_text_says_nothing(line);
    }
    if more@ == bytes@ + line + seq![10u8] {
        assert(more@ =~= bytes@ + line.push(text::LINE_FEED));
        law_last_decision_wins(bytes@, line, id@, parser);
    } else {
        law_last_decision_wins_unfinished(bytes@, line, id@, parser);
    }
}

} // verus!
