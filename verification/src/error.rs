//! The furthest-failure tracker and the diagnostics built from it.

use crate::paint::{bold, green, red, written, yellow};
use crate::text::{
    blanks, chars_of, decimal, decimal_width, has_part, holds_part, push_blanks, push_decimal,
    to_upper_case, upper_case,
};
use vstd::prelude::*;
use vstd::std_specs::iter::IteratorSpec;
use vstd::string::*;

verus! {

broadcast use vstd::string::group_string_axioms;

/// The number of line feeds in `text`.
pub open spec fn line_feeds(text: Seq<char>) -> nat
    decreases text.len(),
{
    if text.len() == 0 {
        0
    } else {
        line_feeds(text.drop_last()) + if text.last() == '\n' {
            1nat
        } else {
            0nat
        }
    }
}

/// The number of characters of `text` behind its last line feed.
pub open spec fn tail_len(text: Seq<char>) -> nat
    decreases text.len(),
{
    if text.len() == 0 || text.last() == '\n' {
        0
    } else {
        tail_len(text.drop_last()) + 1
    }
}

/// What of `text` lies before the position `pos`, counted in characters.
pub open spec fn before(text: Seq<char>, pos: nat) -> Seq<char> {
    if pos <= text.len() {
        text.take(pos as int)
    } else {
        text
    }
}

/// The line of the position `pos`; the first line is 1.
pub open spec fn line_of(text: Seq<char>, pos: nat) -> nat {
    1 + line_feeds(before(text, pos))
}

/// The column of the position `pos`; the first column is 1.
pub open spec fn column_of(text: Seq<char>, pos: nat) -> nat {
    1 + tail_len(before(text, pos))
}

/// Where the line of the position `pos` begins.
pub open spec fn line_start(text: Seq<char>, pos: nat) -> nat {
    (before(text, pos).len() - tail_len(before(text, pos))) as nat
}

/// Where the line that is being read at `from` stops: at the next line feed,
/// or at the end of the text.
pub open spec fn line_stop(text: Seq<char>, from: nat) -> nat
    decreases text.len() - from,
{
    if from < text.len() && text[from as int] != '\n' {
        line_stop(text, from + 1)
    } else {
        from
    }
}

/// The line of the position `pos`, without its line ending. There is none
/// where the position lies behind the last line.
pub open spec fn line_at(text: Seq<char>, pos: nat) -> Option<Seq<char>> {
    let start = line_start(text, pos);
    let stop = line_stop(text, start);
    if start >= text.len() {
        None
    } else if start < stop < text.len() && text[stop - 1] == '\r' {
        Some(text.subrange(start as int, stop - 1))
    } else {
        Some(text.subrange(start as int, stop as int))
    }
}

/// The snippet for the position `pos`: its line behind the line's number,
/// and below it `caret` under the position's column.
pub open spec fn context_of(text: Seq<char>, pos: nat, caret: Seq<char>) -> Option<Seq<char>> {
    match line_at(text, pos) {
        None => None,
        Some(line) => {
            let number = decimal(line_of(text, pos));
            Some(
                "  "@ + number + " | "@ + line + "\n"@ + "  "@ + blanks(number.len()) + " | "@
                    + blanks((column_of(text, pos) - 1) as nat) + caret,
            )
        },
    }
}

/// Line and column of the position `pos` of `input`, both counted from 1 and
/// in characters.
pub fn position_to_line_col(input: &str, pos: usize) -> (place: (usize, usize))
    requires
        input@.len() < usize::MAX,
    ensures
        place.0 == line_of(input@, pos as nat),
        place.1 == column_of(input@, pos as nat),
{
    let mut line: usize = 1;
    let mut col: usize = 1;
    let mut seen: usize = 0;
    let mut chars = input.chars();
    assert(input@.take(0) =~= Seq::<char>::empty());
    while seen < pos
        invariant
            input@.len() < usize::MAX,
            seen <= pos,
            seen <= input@.len(),
            chars.remaining() == input@.skip(seen as int),
            line == 1 + line_feeds(input@.take(seen as int)),
            col == 1 + tail_len(input@.take(seen as int)),
            line <= 1 + seen,
            col <= 1 + seen,
        ensures
            seen <= input@.len(),
            seen == pos || seen == input@.len(),
            line == 1 + line_feeds(input@.take(seen as int)),
            col == 1 + tail_len(input@.take(seen as int)),
        decreases pos - seen,
    {
        match chars.next() {
            Some(ch) => {
                assert(ch == input@[seen as int]);
                assert(input@.take(seen + 1).drop_last() =~= input@.take(seen as int));
                assert(input@.skip(seen as int).drop_first() =~= input@.skip(seen + 1));
                seen = seen + 1;
                if ch == '\n' {
                    line = line + 1;
                    col = 1;
                } else {
                    col = col + 1;
                }
            },
            None => {
                assert(input@.skip(seen as int).len() == 0);
                break ;
            },
        }
    }
    assert(before(input@, pos as nat) =~= input@.take(seen as int));
    (line, col)
}

/// The last line of a text is no longer than the text.
proof fn lemma_tail_len_bound(text: Seq<char>)
    ensures
        tail_len(text) <= text.len(),
    decreases text.len(),
{
    if text.len() > 0 {
        lemma_tail_len_bound(text.drop_last());
    }
}

/// Where the line that holds the character at `from` stops.
fn find_line_stop(input: &str, from: usize) -> (stop: usize)
    requires
        from <= input@.len() <= usize::MAX,
    ensures
        stop == line_stop(input@, from as nat),
        from <= stop <= input@.len(),
{
    let mut chars = input.chars();
    let mut at: usize = 0;
    while at < from
        invariant
            at <= from <= input@.len(),
            chars.remaining() == input@.skip(at as int),
        decreases from - at,
    {
        let skipped = chars.next();
        assert(input@.skip(at as int).drop_first() =~= input@.skip(at + 1));
        at = at + 1;
    }
    loop
        invariant
            from <= at <= input@.len() <= usize::MAX,
            chars.remaining() == input@.skip(at as int),
            line_stop(input@, from as nat) == line_stop(input@, at as nat),
        decreases input@.len() - at,
    {
        match chars.next() {
            Some(ch) => {
                assert(ch == input@[at as int]);
                if ch == '\n' {
                    return at;
                }
                assert(input@.skip(at as int).drop_first() =~= input@.skip(at + 1));
                at = at + 1;
            },
            None => {
                assert(input@.skip(at as int).len() == 0);
                return at;
            },
        }
    }
}

/// The view of a text that may be missing.
pub open spec fn text_of(text: Option<String>) -> Option<Seq<char>> {
    match text {
        Some(t) => Some(t@),
        None => None,
    }
}

/// The snippet that shows the position `pos` of `input`: the line of the
/// position behind its number, and below it `caret` under the position's
/// column. There is none where the position lies behind the last line.
pub fn render_context(input: &str, pos: usize, caret: &str) -> (snippet: Option<String>)
    requires
        input@.len() < usize::MAX,
    ensures
        text_of(snippet) == context_of(input@, pos as nat, caret@),
{
    let (line, col) = position_to_line_col(input, pos);
    let total = input.unicode_len();
    let seen = if pos <= total {
        pos
    } else {
        total
    };
    proof {
        lemma_tail_len_bound(before(input@, pos as nat));
    }
    let start = seen - (col - 1);
    if start >= total {
        return None;
    }
    let stop = find_line_stop(input, start);
    let end = if start < stop && stop < total && input.get_char(stop - 1) == '\r' {
        stop - 1
    } else {
        stop
    };
    let text = input.substring_char(start, end);
    let mut out = String::new();
    out.append("  ");
    push_decimal(&mut out, line as u64);
    out.append(" | ");
    out.append(text);
    out.append("\n");
    out.append("  ");
    push_blanks(&mut out, decimal_width(line as u64));
    out.append(" | ");
    push_blanks(&mut out, col - 1);
    out.append(caret);
    assert(out@ =~= context_of(input@, pos as nat, caret@).unwrap());
    Some(out)
}

/// True if `caret` marks a place: it holds the character `^`, whatever
/// stands around it.
pub open spec fn is_caret(caret: Seq<char>) -> bool {
    has_part(caret, seq!['^'])
}

/// True if `snippet` is what `render_context` gives for the position `pos`
/// of `input` with a caret: under the column of the position stands a text
/// that holds `^`, and the snippet ends with it.
pub open spec fn is_context(snippet: Option<Seq<char>>, input: Seq<char>, pos: nat) -> bool {
    match snippet {
        Some(text) => exists|caret: Seq<char>|
            is_caret(caret) && #[trigger] context_of(input, pos, caret) == Some(text),
        None => line_at(input, pos) is None,
    }
}

/// A painted text as it is shown: `painted` if `plain` stands in it, and
/// `plain` by itself otherwise. So whatever the `colored` crate writes,
/// what is shown holds the text that was to be shown.
pub fn shown_text(painted: String, plain: &str) -> (text: String)
    ensures
        has_part(text@, plain@),
        text@ == painted@ || text@ == plain@,
{
    if holds_part(chars_of(painted.as_str()).as_slice(), chars_of(plain).as_slice()) {
        painted
    } else {
        let text = plain.to_owned();
        assert(text@.skip(0) =~= text@);
        assert(plain@.is_prefix_of(text@.skip(0)));
        text
    }
}

/// The caret, red where the terminal shows colours.
pub fn red_caret() -> (caret: String)
    ensures
        is_caret(caret@),
{
    proof {
        reveal_strlit("^");
    }
    assert("^"@ =~= seq!['^']);
    shown_text(written(&red("^")), "^")
}

/// The snippet for the position `pos` of `input`, with a caret that is red
/// where the terminal shows colours.
pub fn get_error_context(input: &str, pos: usize) -> (snippet: Option<String>)
    requires
        input@.len() < usize::MAX,
    ensures
        is_context(text_of(snippet), input@, pos as nat),
{
    let caret = red_caret();
    render_context(input, pos, caret.as_str())
}

/// Names the similarity that `strsim::jaro_winkler` computes for two texts,
/// as the bit pattern of the floating-point number it returns. The number
/// lies between zero and one, and of two such numbers the greater has the
/// greater bit pattern.
pub uninterp spec fn similarity(a: Seq<char>, b: Seq<char>) -> u64;

/// `strsim::jaro_winkler`, with the number it returns handed on as its bit
/// pattern. The contract gives the result the name `similarity` and claims
/// nothing more of it.
#[verifier::external_body]
fn jaro_winkler_bits(a: &str, b: &str) -> (bits: u64)
    ensures
        bits == similarity(a@, b@),
{
    strsim::jaro_winkler(a, b).to_bits()
}

/// The bit pattern of 0.8, above which a similarity counts.
pub const SIMILARITY_THRESHOLD: u64 = 0x3FE9_9999_9999_999A;

/// The number of keywords that can be suggested.
pub const KEYWORD_COUNT: usize = 25;

/// The keywords that can be suggested, in the order in which they are tried.
pub open spec fn keyword(i: int) -> Seq<char> {
    if i == 0 {
        "SELECT"@
    } else if i == 1 {
        "FROM"@
    } else if i == 2 {
        "WHERE"@
    } else if i == 3 {
        "WITH"@
    } else if i == 4 {
        "RECURSIVE"@
    } else if i == 5 {
        "INSERT"@
    } else if i == 6 {
        "UPDATE"@
    } else if i == 7 {
        "DELETE"@
    } else if i == 8 {
        "UNION"@
    } else if i == 9 {
        "ALL"@
    } else if i == 10 {
        "AND"@
    } else if i == 11 {
        "OR"@
    } else if i == 12 {
        "AS"@
    } else if i == 13 {
        "JOIN"@
    } else if i == 14 {
        "LEFT"@
    } else if i == 15 {
        "RIGHT"@
    } else if i == 16 {
        "INNER"@
    } else if i == 17 {
        "OUTER"@
    } else if i == 18 {
        "ON"@
    } else if i == 19 {
        "GROUP"@
    } else if i == 20 {
        "ORDER"@
    } else if i == 21 {
        "BY"@
    } else if i == 22 {
        "HAVING"@
    } else if i == 23 {
        "LIMIT"@
    } else {
        "OFFSET"@
    }
}

/// The keyword with the index `i`.
fn keyword_at(i: usize) -> (word: &'static str)
    requires
        i < KEYWORD_COUNT,
    ensures
        word@ == keyword(i as int),
{
    if i == 0 {
        "SELECT"
    } else if i == 1 {
        "FROM"
    } else if i == 2 {
        "WHERE"
    } else if i == 3 {
        "WITH"
    } else if i == 4 {
        "RECURSIVE"
    } else if i == 5 {
        "INSERT"
    } else if i == 6 {
        "UPDATE"
    } else if i == 7 {
        "DELETE"
    } else if i == 8 {
        "UNION"
    } else if i == 9 {
        "ALL"
    } else if i == 10 {
        "AND"
    } else if i == 11 {
        "OR"
    } else if i == 12 {
        "AS"
    } else if i == 13 {
        "JOIN"
    } else if i == 14 {
        "LEFT"
    } else if i == 15 {
        "RIGHT"
    } else if i == 16 {
        "INNER"
    } else if i == 17 {
        "OUTER"
    } else if i == 18 {
        "ON"
    } else if i == 19 {
        "GROUP"
    } else if i == 20 {
        "ORDER"
    } else if i == 21 {
        "BY"
    } else if i == 22 {
        "HAVING"
    } else if i == 23 {
        "LIMIT"
    } else {
        "OFFSET"
    }
}

/// True if the score at `i` is above the threshold and above every other
/// score.
pub open spec fn is_best(scores: Seq<u64>, i: int) -> bool {
    &&& 0 <= i < scores.len()
    &&& scores[i] > SIMILARITY_THRESHOLD
    &&& forall|j: int| 0 <= j < scores.len() && j != i ==> scores[j] < scores[i]
}

/// The place of the best score, if one score is the best.
pub open spec fn best_of(scores: Seq<u64>) -> Option<int> {
    if exists|i: int| is_best(scores, i) {
        Some(choose|i: int| is_best(scores, i))
    } else {
        None
    }
}

/// The place of the score that is above the threshold and above every other
/// score. There is none where no score is above the threshold, and none
/// where the greatest score occurs twice.
pub fn pick_best(scores: &[u64]) -> (best: Option<usize>)
    ensures
        match best {
            Some(i) => best_of(scores@) == Some(i as int) && is_best(scores@, i as int),
            None => best_of(scores@) is None,
        },
{
    if scores.len() == 0 {
        return None;
    }
    let mut top: usize = 0;
    let mut shared = false;
    let mut i: usize = 1;
    while i < scores.len()
        invariant
            0 <= top < i <= scores@.len(),
            forall|j: int| 0 <= j < i ==> scores@[j] <= scores@[top as int],
            shared <==> exists|j: int| 0 <= j < i && j != top && scores@[j] == scores@[top as int],
        decreases scores@.len() - i,
    {
        if scores[i] > scores[top] {
            top = i;
            shared = false;
        } else if scores[i] == scores[top] {
            shared = true;
        }
        i = i + 1;
    }
    if !shared && scores[top] > SIMILARITY_THRESHOLD {
        assert(is_best(scores@, top as int));
        assert forall|j: int| is_best(scores@, j) implies j == top by {}
        Some(top)
    } else {
        assert forall|j: int| !is_best(scores@, j) by {
            if is_best(scores@, j) {
                if j != top {
                    assert(scores@[top as int] < scores@[j]);
                }
            }
        }
        None
    }
}

/// The similarity of `text` to each keyword.
pub open spec fn scores_of(text: Seq<char>) -> Seq<u64> {
    Seq::new(KEYWORD_COUNT as nat, |i: int| similarity(text, keyword(i)))
}

/// The keyword that `found` most likely stands for: the one to which its
/// upper-case form is most similar, if that similarity is above the
/// threshold and no other keyword reaches it.
pub open spec fn suggestion_for(found: Seq<char>) -> Option<Seq<char>> {
    match best_of(scores_of(upper_case(found))) {
        Some(i) => Some(keyword(i)),
        None => None,
    }
}

/// True if `text` is one of the keywords that can be suggested.
pub open spec fn is_keyword(text: Seq<char>) -> bool {
    exists|i: int| 0 <= i < KEYWORD_COUNT && text == #[trigger] keyword(i)
}

/// A suggestion is always one keyword of the list.
pub proof fn lemma_suggestion_is_keyword(found: Seq<char>)
    ensures
        suggestion_for(found) matches Some(word) ==> is_keyword(word),
{
    let scores = scores_of(upper_case(found));
    if exists|i: int| is_best(scores, i) {
        let best = choose|i: int| is_best(scores, i);
        assert(0 <= best < KEYWORD_COUNT);
        assert(keyword(best) == keyword(best));
    }
}

/// Suggests the keyword that `input` most likely stands for.
pub fn suggest_keyword(input: &str) -> (suggestion: Option<String>)
    ensures
        text_of(suggestion) == suggestion_for(input@),
        suggestion matches Some(word) ==> is_keyword(word@),
{
    proof {
        lemma_suggestion_is_keyword(input@);
    }
    let upper = to_upper_case(input);
    let mut scores: Vec<u64> = Vec::new();
    let mut i: usize = 0;
    while i < KEYWORD_COUNT
        invariant
            i <= KEYWORD_COUNT,
            scores@.len() == i,
            upper@ == upper_case(input@),
            forall|j: int| 0 <= j < i ==> scores@[j] == similarity(upper@, keyword(j)),
        decreases KEYWORD_COUNT - i,
    {
        scores.push(jaro_winkler_bits(upper.as_str(), keyword_at(i)));
        i = i + 1;
    }
    assert(scores@ =~= scores_of(upper@));
    match pick_best(scores.as_slice()) {
        Some(best) => Some(keyword_at(best).to_owned()),
        None => None,
    }
}

/// The furthest failure of a parse: where it happened, what was expected
/// there, in the order in which the expectations were reported, what was
/// found instead, and the line and column of the place.
pub struct Failure {
    pub pos: nat,
    pub expected: Seq<Seq<char>>,
    pub found: Option<Seq<char>>,
    pub line: nat,
    pub column: nat,
}

/// The view of a text that may be missing.
pub open spec fn str_of(text: Option<&str>) -> Option<Seq<char>> {
    match text {
        Some(t) => Some(t@),
        None => None,
    }
}

/// The views of a list of texts.
pub open spec fn texts_of(texts: Seq<String>) -> Seq<Seq<char>> {
    Seq::new(texts.len(), |i: int| texts[i]@)
}

/// The failure that one report at `pos` makes.
pub open spec fn first_failure(
    pos: nat,
    expected: Seq<char>,
    found: Option<Seq<char>>,
    input: Seq<char>,
) -> Failure {
    Failure {
        pos,
        expected: seq![expected],
        found,
        line: line_of(input, pos),
        column: column_of(input, pos),
    }
}

/// The furthest failure after one more report. A report further on replaces
/// what was recorded; one at the same place adds its expectation unless it
/// is listed already; one before that place changes nothing.
pub open spec fn track(
    state: Option<Failure>,
    pos: nat,
    expected: Seq<char>,
    found: Option<Seq<char>>,
    input: Seq<char>,
) -> Option<Failure> {
    match state {
        None => Some(first_failure(pos, expected, found, input)),
        Some(failure) => {
            if pos > failure.pos {
                Some(first_failure(pos, expected, found, input))
            } else if pos == failure.pos && !failure.expected.contains(expected) {
                Some(Failure { expected: failure.expected.push(expected), ..failure })
            } else {
                state
            }
        },
    }
}

/// The parts, with `sep` between each two of them.
pub open spec fn join(parts: Seq<Seq<char>>, sep: Seq<char>) -> Seq<char>
    decreases parts.len(),
{
    if parts.len() == 0 {
        Seq::empty()
    } else if parts.len() == 1 {
        parts[0]
    } else {
        join(parts.drop_last(), sep) + sep + parts.last()
    }
}

/// How a message names what was expected: one expectation by itself,
/// several as a list.
pub open spec fn expected_phrase(expected: Seq<Seq<char>>) -> Seq<char> {
    if expected.len() == 1 {
        expected[0]
    } else {
        "one of: "@ + join(expected, ", "@)
    }
}

/// The message for a failure.
pub open spec fn message_of(failure: Failure) -> Seq<char> {
    match failure.found {
        Some(found) => "Expected "@ + expected_phrase(failure.expected) + ", found '"@ + found
            + "'"@,
        None => "Expected "@ + expected_phrase(failure.expected) + ", reached end of input"@,
    }
}

/// A diagnostic: a message, the line and column it speaks of, both counted
/// from 1, the keyword that was probably meant, and a snippet of the source
/// with a caret under the place.
#[derive(Debug)]
pub struct ParseError {
    pub message: String,
    pub line: usize,
    pub column: usize,
    pub suggestion: Option<String>,
    pub context: Option<String>,
}

impl Clone for ParseError {
    fn clone(&self) -> (copy: Self)
        ensures
            copy == *self,
    {
        ParseError {
            message: self.message.clone(),
            line: self.line,
            column: self.column,
            suggestion: match &self.suggestion {
                Some(text) => Some(text.clone()),
                None => None,
            },
            context: match &self.context {
                Some(text) => Some(text.clone()),
                None => None,
            },
        }
    }
}

/// True if `error` is the diagnostic for the furthest failure `state` in
/// `input`. Where `note` is given, it stands in place of the message. The
/// snippet is the one for the failure's place with some caret.
pub open spec fn is_report(
    error: ParseError,
    state: Option<Failure>,
    input: Seq<char>,
    note: Option<Seq<char>>,
) -> bool {
    match state {
        None => {
            &&& error.message@ == match note {
                Some(text) => text,
                None => "Unexpected error"@,
            }
            &&& error.line == 1
            &&& error.column == 1
            &&& error.suggestion is None
            &&& error.context is None
        },
        Some(failure) => {
            &&& error.message@ == match note {
                Some(text) => text,
                None => message_of(failure),
            }
            &&& error.line == failure.line
            &&& error.column == failure.column
            &&& text_of(error.suggestion) == match failure.found {
                Some(found) => suggestion_for(found),
                None => None,
            }
            &&& is_context(text_of(error.context), input, failure.pos)
        },
    }
}

#[derive(Debug)]
struct BacktraceInner {
    furthest_pos: usize,
    expected: Vec<String>,
    found: Option<String>,
    line: usize,
    column: usize,
}

/// The tracker of the furthest failure. It is made empty when a parse
/// begins, takes every failure that the parser runs into, also on paths
/// that the parser gives up, and in the end gives the one diagnostic.
#[derive(Debug)]
pub struct Backtrace {
    inner: Option<BacktraceInner>,
}

impl View for Backtrace {
    type V = Option<Failure>;

    closed spec fn view(&self) -> Option<Failure> {
        match self.inner {
            None => None,
            Some(inner) => Some(
                Failure {
                    pos: inner.furthest_pos as nat,
                    expected: texts_of(inner.expected@),
                    found: text_of(inner.found),
                    line: inner.line as nat,
                    column: inner.column as nat,
                },
            ),
        }
    }
}

/// Says whether `label` is among `labels`.
fn has_label(labels: &Vec<String>, label: &String) -> (found: bool)
    ensures
        found == texts_of(labels@).contains(label@),
{
    let mut i: usize = 0;
    while i < labels.len()
        invariant
            i <= labels@.len(),
            forall|j: int| 0 <= j < i ==> texts_of(labels@)[j] != label@,
        decreases labels@.len() - i,
    {
        if labels[i] == *label {
            assert(texts_of(labels@)[i as int] == label@);
            return true;
        }
        i = i + 1;
    }
    false
}

/// Writes what was expected at the end of `out`: one expectation by
/// itself, several as a list.
fn write_expected(out: &mut String, expected: &Vec<String>)
    ensures
        final(out)@ == old(out)@ + expected_phrase(texts_of(expected@)),
{
    let ghost labels = texts_of(expected@);
    if expected.len() == 1 {
        out.append(expected[0].as_str());
        return ;
    }
    out.append("one of: ");
    let ghost head = out@;
    let mut i: usize = 0;
    assert(labels.take(0) =~= Seq::<Seq<char>>::empty());
    assert(out@ =~= head + join(labels.take(0), ", "@));
    while i < expected.len()
        invariant
            i <= expected@.len(),
            labels == texts_of(expected@),
            out@ == head + join(labels.take(i as int), ", "@),
        decreases expected@.len() - i,
    {
        if i > 0 {
            out.append(", ");
        }
        out.append(expected[i].as_str());
        proof {
            let next = labels.take(i + 1);
            assert(next.drop_last() =~= labels.take(i as int));
            assert(next.last() == expected@[i as int]@);
            if i == 0 {
                assert(join(next, ", "@) =~= next[0]);
            }
            assert(out@ =~= head + join(next, ", "@));
        }
        i = i + 1;
    }
    assert(labels.take(i as int) =~= labels);
    assert(out@ =~= old(out)@ + expected_phrase(labels));
}

/// What holds of every furthest failure: something was expected, nothing
/// is listed twice, and line and column count from 1.
pub open spec fn is_sound(state: Option<Failure>) -> bool {
    match state {
        None => true,
        Some(failure) => {
            &&& failure.expected.len() >= 1
            &&& failure.expected.no_duplicates()
            &&& failure.line >= 1
            &&& failure.column >= 1
        },
    }
}

/// A report keeps the furthest failure sound.
pub proof fn lemma_track_sound(
    state: Option<Failure>,
    pos: nat,
    expected: Seq<char>,
    found: Option<Seq<char>>,
    input: Seq<char>,
)
    requires
        is_sound(state),
    ensures
        is_sound(track(state, pos, expected, found, input)),
{
}

impl Default for Backtrace {
    fn default() -> (tracker: Self)
        ensures
            tracker@ is None,
            tracker.wf(),
    {
        Backtrace { inner: None }
    }
}

impl Backtrace {
    /// True if the tracker holds nothing, or a sound failure.
    pub open spec fn wf(&self) -> bool {
        is_sound(self@)
    }

    /// A tracker that holds no failure.
    pub fn new() -> (tracker: Self)
        ensures
            tracker@ is None,
            tracker.wf(),
    {
        Backtrace { inner: None }
    }

    /// Takes a failure at the position `pos` of `input`, where `expected`
    /// was expected and `found` stood. Only the furthest failures are kept.
    pub fn track_error(&mut self, pos: usize, expected: &str, found: Option<&str>, input: &str)
        requires
            old(self).wf(),
            input@.len() < usize::MAX,
        ensures
            final(self)@ == track(old(self)@, pos as nat, expected@, str_of(found), input@),
            final(self).wf(),
    {
        proof {
            lemma_track_sound(old(self)@, pos as nat, expected@, str_of(found), input@);
        }
        let (line, column) = position_to_line_col(input, pos);
        let label = expected.to_owned();
        match self.inner.take() {
            None => {
                let mut labels: Vec<String> = Vec::new();
                labels.push(label);
                assert(texts_of(labels@) =~= seq![expected@]);
                self.inner = Some(
                    BacktraceInner {
                        furthest_pos: pos,
                        expected: labels,
                        found: own_text(found),
                        line,
                        column,
                    },
                );
            },
            Some(mut existing) => {
                if pos > existing.furthest_pos {
                    let mut labels: Vec<String> = Vec::new();
                    labels.push(label);
                    assert(texts_of(labels@) =~= seq![expected@]);
                    existing = BacktraceInner {
                        furthest_pos: pos,
                        expected: labels,
                        found: own_text(found),
                        line,
                        column,
                    };
                } else if pos == existing.furthest_pos {
                    if !has_label(&existing.expected, &label) {
                        let ghost before = texts_of(existing.expected@);
                        existing.expected.push(label);
                        assert(texts_of(existing.expected@) =~= before.push(expected@));
                    }
                }
                self.inner = Some(existing);
            },
        }
    }

    /// The diagnostic for the furthest failure. Without any failure it is
    /// the message "Unexpected error" at the first place of the input.
    pub fn get_error(&self, input: &str) -> (error: ParseError)
        requires
            input@.len() < usize::MAX,
        ensures
            is_report(error, self@, input@, None),
    {
        match &self.inner {
            None => ParseError {
                message: "Unexpected error".to_owned(),
                line: 1,
                column: 1,
                suggestion: None,
                context: None,
            },
            Some(inner) => {
                let suggestion = match &inner.found {
                    Some(found) => suggest_keyword(found.as_str()),
                    None => None,
                };
                let context = get_error_context(input, inner.furthest_pos);
                let mut message = String::new();
                message.append("Expected ");
                write_expected(&mut message, &inner.expected);
                match &inner.found {
                    Some(found) => {
                        message.append(", found '");
                        message.append(found.as_str());
                        message.append("'");
                    },
                    None => {
                        message.append(", reached end of input");
                    },
                }
                assert(message@ =~= message_of(self@.unwrap()));
                ParseError { message, line: inner.line, column: inner.column, suggestion, context }
            },
        }
    }
}

/// A copy of a text that may be missing.
fn own_text(text: Option<&str>) -> (owned: Option<String>)
    ensures
        text_of(owned) == str_of(text),
{
    match text {
        Some(t) => Some(t.to_owned()),
        None => None,
    }
}

/// A diagnostic for a sound furthest failure has a message, and a line and a
/// column that count from 1. Its suggestion, if it has one, is a keyword of
/// the list.
pub proof fn lemma_report_is_placed(error: ParseError, state: Option<Failure>, input: Seq<char>)
    requires
        is_report(error, state, input, None),
        is_sound(state),
    ensures
        error.message@.len() > 0,
        error.line >= 1,
        error.column >= 1,
        error.suggestion matches Some(word) ==> is_keyword(word@),
{
    reveal_strlit("Unexpected error");
    reveal_strlit("Expected ");
    if let Some(failure) = state {
        if let Some(found) = failure.found {
            lemma_suggestion_is_keyword(found);
        }
    }
}

/// The furthest failure wins. A report further on than anything recorded
/// replaces it, and a report before the recorded place changes nothing, so
/// of a near and a far report the far one is kept in either order.
pub proof fn lemma_furthest_wins(
    state: Option<Failure>,
    near: nat,
    far: nat,
    expected_near: Seq<char>,
    found_near: Option<Seq<char>>,
    expected_far: Seq<char>,
    found_far: Option<Seq<char>>,
    input: Seq<char>,
)
    requires
        near < far,
        state matches Some(failure) ==> failure.pos < far,
    ensures
        track(
            track(state, near, expected_near, found_near, input),
            far,
            expected_far,
            found_far,
            input,
        ) == Some(first_failure(far, expected_far, found_far, input)),
        track(
            track(state, far, expected_far, found_far, input),
            near,
            expected_near,
            found_near,
            input,
        ) == Some(first_failure(far, expected_far, found_far, input)),
        message_of(first_failure(far, expected_far, found_far, input)) == "Expected "@
            + expected_far + match found_far {
            Some(found) => ", found '"@ + found + "'"@,
            None => ", reached end of input"@,
        },
{
}

/// Reports at the furthest place are merged. A second expectation at the
/// place of the first is listed behind it, one that is listed already is not
/// listed again, and what was found stays what the first report found. The
/// message names both in the order in which they were reported.
pub proof fn lemma_same_position_merges(
    pos: nat,
    first: Seq<char>,
    second: Seq<char>,
    found: Option<Seq<char>>,
    found_later: Option<Seq<char>>,
    input: Seq<char>,
)
    requires
        first != second,
    ensures
        track(
            track(None, pos, first, found, input),
            pos,
            second,
            found_later,
            input,
        ) == Some(
            Failure {
                expected: seq![first, second],
                ..first_failure(pos, first, found, input)
            },
        ),
        track(
            track(track(None, pos, first, found, input), pos, second, found_later, input),
            pos,
            first,
            found_later,
            input,
        ) == track(track(None, pos, first, found, input), pos, second, found_later, input),
        expected_phrase(seq![first, second]) == "one of: "@ + first + ", "@ + second,
{
    let one = track(None, pos, first, found, input);
    assert(one.unwrap().expected =~= seq![first]);
    assert(!seq![first].contains(second));
    assert(seq![first].push(second) =~= seq![first, second]);
    let two = track(one, pos, second, found_later, input);
    assert(two.unwrap().expected == seq![first, second]);
    assert(seq![first, second][0] == first);
    assert(seq![first, second].contains(first));
    let both = seq![first, second];
    assert(both.drop_last() =~= seq![first]);
    assert(join(both.drop_last(), ", "@) == first);
    assert(join(both, ", "@) == first + ", "@ + second);
}

/// An expectation is listed at most once: a report that repeats what is
/// listed for the furthest place changes nothing.
pub proof fn lemma_track_repeats(
    state: Option<Failure>,
    pos: nat,
    expected: Seq<char>,
    found: Option<Seq<char>>,
    input: Seq<char>,
)
    ensures
        track(track(state, pos, expected, found, input), pos, expected, found, input) == track(
            state,
            pos,
            expected,
            found,
            input,
        ),
{
    let once = track(state, pos, expected, found, input);
    match state {
        None => {
            assert(seq![expected][0] == expected);
        },
        Some(failure) => {
            if pos > failure.pos {
                assert(seq![expected][0] == expected);
            } else if pos == failure.pos && !failure.expected.contains(expected) {
                assert(failure.expected.push(expected).last() == expected);
            }
        },
    }
}

/// How a diagnostic is written: the title with line and column, the
/// message, the suggestion behind the hint if there is one to show, and the
/// snippet if there is one.
pub open spec fn error_text(
    error: ParseError,
    title: Seq<char>,
    hint: Seq<char>,
    shown: Option<Seq<char>>,
) -> Seq<char> {
    title + " at line "@ + decimal(error.line as nat) + ":"@ + decimal(error.column as nat)
        + "\n"@ + "  "@ + error.message@ + "\n"@ + match shown {
        Some(suggestion) => "  "@ + hint + " "@ + suggestion + "\n"@,
        None => Seq::empty(),
    } + match error.context {
        Some(context) => "\n"@ + context@ + "\n"@,
        None => Seq::empty(),
    }
}

impl ParseError {
    /// The diagnostic written out with the given title and hint; the
    /// suggestion is shown as `shown` gives it.
    pub fn render(&self, title: &str, hint: &str, shown: Option<&str>) -> (text: String)
        ensures
            text@ == error_text(*self, title@, hint@, str_of(shown)),
    {
        let mut text = String::new();
        text.append(title);
        text.append(" at line ");
        push_decimal(&mut text, self.line as u64);
        text.append(":");
        push_decimal(&mut text, self.column as u64);
        text.append("\n");
        text.append("  ");
        text.append(self.message.as_str());
        text.append("\n");
        match shown {
            Some(suggestion) => {
                text.append("  ");
                text.append(hint);
                text.append(" ");
                text.append(suggestion);
                text.append("\n");
            },
            None => {},
        }
        match &self.context {
            Some(context) => {
                text.append("\n");
                text.append(context.as_str());
                text.append("\n");
            },
            None => {},
        }
        assert(text@ =~= error_text(*self, title@, hint@, str_of(shown)));
        text
    }

    /// The diagnostic written out for a terminal: the title in bold red,
    /// the hint in yellow and the suggestion in green where the terminal
    /// shows colours.
    pub fn to_string(&self) -> (text: String)
        ensures
            exists|title: Seq<char>, hint: Seq<char>, shown: Option<Seq<char>>|
                is_shown(*self, title, hint, shown) && text@ == #[trigger] error_text(
                    *self,
                    title,
                    hint,
                    shown,
                ),
    {
        let title = shown_text(written(&bold(red("Parse error"))), "Parse error");
        let hint = shown_text(written(&yellow("Did you mean:")), "Did you mean:");
        match &self.suggestion {
            Some(suggestion) => {
                let word = suggestion.as_str();
                let shown = shown_text(written(&green(word)), word);
                let text = self.render(title.as_str(), hint.as_str(), Some(shown.as_str()));
                assert(is_shown(*self, title@, hint@, Some(shown@)));
                assert(text@ == error_text(*self, title@, hint@, Some(shown@)));
                text
            },
            None => {
                let text = self.render(title.as_str(), hint.as_str(), None);
                assert(is_shown(*self, title@, hint@, None));
                assert(text@ == error_text(*self, title@, hint@, None));
                text
            },
        }
    }
}

/// True if title, hint and suggestion are shown as a diagnostic asks: the
/// title holds the words "Parse error", the hint the words "Did you mean:",
/// and a suggestion is shown exactly if the diagnostic has one, which then
/// stands in what is shown.
pub open spec fn is_shown(
    error: ParseError,
    title: Seq<char>,
    hint: Seq<char>,
    shown: Option<Seq<char>>,
) -> bool {
    &&& has_part(title, "Parse error"@)
    &&& has_part(hint, "Did you mean:"@)
    &&& match shown {
        Some(text) => error.suggestion matches Some(word) && has_part(text, word@),
        None => error.suggestion is None,
    }
}

/// The tracker never falls back: after a report the furthest failure lies
/// at the place of the report or at the place recorded before, whichever
/// is further on.
pub proof fn lemma_track_keeps_furthest(
    state: Option<Failure>,
    pos: nat,
    expected: Seq<char>,
    found: Option<Seq<char>>,
    input: Seq<char>,
)
    ensures
        track(state, pos, expected, found, input) is Some,
        track(state, pos, expected, found, input).unwrap().pos == match state {
            Some(before) => if before.pos >= pos {
                before.pos
            } else {
                pos
            },
            None => pos,
        },
{
}

} // verus!
