//! Tools and the tips drawn from their help output.
//!
//! A tip for a tool comes about in three steps: the help output is cut into
//! lines and the lines after the start of the options section become the
//! candidates; one candidate is selected and tidied up; and around both stands
//! the exchange with the world outside, which finds the tool and runs it. The
//! first two are functions on text. The third is `Tool::get_random_tip`, which
//! answers each thing that happened outside with the next thing to do.

use crate::text::{
    chars_of, joined, lemma_lines_of_joined, lemma_normalized_is_tidy, line_bounds, lines,
    normalize_range, normalized, range_equals, single_line, string_of_range, tidy, trim_bounds,
    trimmed,
};
use vstd::prelude::*;
use vstd::string::StringSliceAdditionalSpecFns;
use vstd::utf8::{decode_utf8, encode_utf8_decode_utf8, valid_utf8};

verus! {

/// How the help output of a program is laid out.
#[derive(Clone, Copy, Debug, PartialEq, Eq, Structural)]
pub enum ToolOutputFormat {
    /// The UNIX layout: a line that reads `OPTIONS:`, and after it one option
    /// to a line until the output ends.
    Basic,
}

/// Why no tip could be had.
#[derive(Clone, Copy, Debug, PartialEq, Eq, Structural)]
pub enum TipError {
    /// The tool is not on the search path.
    NotFound,
    /// The tool could not be run, or its output could not be captured.
    InvocationError,
    /// The help output is not UTF-8 text.
    EncodingError,
    /// The help output has no options section, or an empty one.
    NoTipsAvailable,
}

/// A tool, known by its name.
#[derive(Debug, PartialEq, Eq)]
pub struct Tool(pub String);

impl View for Tool {
    type V = Seq<char>;

    open spec fn view(&self) -> Seq<char> {
        self.0@
    }
}

/// The line that starts the options section in help output of the given
/// layout.
pub open spec fn section_marker(format: ToolOutputFormat) -> Seq<char> {
    match format {
        ToolOutputFormat::Basic => seq!['O', 'P', 'T', 'I', 'O', 'N', 'S', ':'],
    }
}

/// Whether `line` starts the options section: trimmed, it is the marker and
/// nothing else.
pub open spec fn starts_section(line: Seq<char>, format: ToolOutputFormat) -> bool {
    trimmed(line) == section_marker(format)
}

/// The index of the first of `ls` that starts the options section; the
/// length of `ls` where none does.
pub open spec fn first_section_start(ls: Seq<Seq<char>>, format: ToolOutputFormat) -> nat
    decreases ls.len(),
{
    if ls.len() == 0 || starts_section(ls.first(), format) {
        0
    } else {
        1 + first_section_start(ls.drop_first(), format)
    }
}

/// The candidate tips in help output: every line after the first line that
/// starts the options section, blank lines too, in order; none where no line
/// starts the section.
pub open spec fn available_tips(output: Seq<char>, format: ToolOutputFormat) -> Seq<Seq<char>> {
    let ls = lines(output);
    let start = first_section_start(ls, format) as int;
    if start < ls.len() {
        ls.skip(start + 1)
    } else {
        Seq::empty()
    }
}

/// The tip selected from the candidates: the first of them, normalized; with
/// no candidate, `NoTipsAvailable`.
pub open spec fn selected_tip(candidates: Seq<Seq<char>>) -> Result<Seq<char>, TipError> {
    if candidates.len() == 0 {
        Err(TipError::NoTipsAvailable)
    } else {
        Ok(normalized(candidates.first()))
    }
}

/// A result of selecting a tip, with the tip as its characters.
pub open spec fn tip_view(r: Result<String, TipError>) -> Result<Seq<char>, TipError> {
    match r {
        Ok(tip) => Ok(tip@),
        Err(e) => Err(e),
    }
}

/// The first line that starts the section is the one before which no line
/// starts it.
pub proof fn lemma_first_section_start_at(ls: Seq<Seq<char>>, format: ToolOutputFormat, k: int)
    requires
        0 <= k <= ls.len(),
        forall|j: int| 0 <= j < k ==> !starts_section(#[trigger] ls[j], format),
        k < ls.len() ==> starts_section(ls[k], format),
    ensures
        first_section_start(ls, format) == k,
    decreases k,
{
    if k > 0 {
        assert(!starts_section(ls[0], format));
        let rest = ls.drop_first();
        assert forall|j: int| 0 <= j < k - 1 implies !starts_section(#[trigger] rest[j], format) by {
            assert(rest[j] == ls[j + 1]);
        }
        lemma_first_section_start_at(rest, format, k - 1);
    }
}

/// The lines that follow the first section start are the candidates: in a
/// text made of the lines `before`, then `start`, then `after`, where `start`
/// starts the options section and no line of `before` does, the candidates
/// are exactly `after`, in order, whatever stands in `before`.
pub proof fn lemma_tips_follow_section_start(
    before: Seq<Seq<char>>,
    start: Seq<char>,
    after: Seq<Seq<char>>,
    format: ToolOutputFormat,
)
    requires
        forall|i: int| 0 <= i < before.len() ==> single_line(#[trigger] before[i]),
        single_line(start),
        forall|i: int| 0 <= i < after.len() ==> single_line(#[trigger] after[i]),
        starts_section(start, format),
        forall|i: int| 0 <= i < before.len() ==> !starts_section(#[trigger] before[i], format),
    ensures
        available_tips(joined(before + seq![start] + after), format) == after,
{
    let ls = before + seq![start] + after;
    assert forall|i: int| 0 <= i < ls.len() implies single_line(#[trigger] ls[i]) by {
        if i < before.len() {
            assert(ls[i] == before[i]);
        } else if i > before.len() {
            assert(ls[i] == after[i - before.len() - 1]);
        }
    }
    lemma_lines_of_joined(ls);
    assert forall|j: int| 0 <= j < before.len() implies !starts_section(#[trigger] ls[j], format) by {
        assert(ls[j] == before[j]);
    }
    assert(ls[before.len() as int] == start);
    lemma_first_section_start_at(ls, format, before.len() as int);
    assert(ls.skip(before.len() as int + 1) =~= after);
}

/// Help output in which no line starts the options section holds no
/// candidate.
pub proof fn lemma_no_section_no_tips(output: Seq<char>, format: ToolOutputFormat)
    requires
        forall|i: int|
            0 <= i < lines(output).len() ==> !starts_section(#[trigger] lines(output)[i], format),
    ensures
        available_tips(output, format) == Seq::<Seq<char>>::empty(),
{
    lemma_first_section_start_at(lines(output), format, lines(output).len() as int);
}

/// A section start on the last line leaves no candidate.
pub proof fn lemma_section_start_last_no_tips(output: Seq<char>, format: ToolOutputFormat)
    requires
        first_section_start(lines(output), format) == lines(output).len() - 1,
    ensures
        available_tips(output, format) == Seq::<Seq<char>>::empty(),
{
    assert(lines(output).skip(lines(output).len() as int) =~= Seq::<Seq<char>>::empty());
}

/// Selecting is repeatable: whenever the same candidates are selected from,
/// the same tip or the same error comes out.
pub proof fn lemma_same_candidates_same_tip(
    candidates: Vec<String>,
    again: Vec<String>,
    first: Result<String, TipError>,
    second: Result<String, TipError>,
)
    requires
        candidates.deep_view() == again.deep_view(),
        tip_view(first) == selected_tip(candidates.deep_view()),
        tip_view(second) == selected_tip(again.deep_view()),
    ensures
        tip_view(first) == tip_view(second),
{
}

/// Infers the layout of a tool's help output. Every tool is taken to print
/// the `Basic` layout; the result leaves room for a detection that can fail.
pub fn infer_tool_output_format(tool: &str) -> (r: Result<ToolOutputFormat, TipError>)
    ensures
        r == Ok::<ToolOutputFormat, TipError>(ToolOutputFormat::Basic),
{
    Ok(ToolOutputFormat::Basic)
}

/// The characters of the line that starts the options section.
fn section_marker_chars(format: ToolOutputFormat) -> (marker: Vec<char>)
    ensures
        marker@ == section_marker(format),
{
    match format {
        ToolOutputFormat::Basic => {
            proof {
                reveal_strlit("OPTIONS:");
            }
            let marker = chars_of("OPTIONS:");
            assert(marker@ =~= section_marker(format));
            marker
        },
    }
}

/// Takes help output and its layout, and gives the candidate tips: the lines
/// after the first line that, trimmed, is the section marker.
pub fn get_available_tips_from_output(output: &str, format: ToolOutputFormat) -> (tips: Vec<String>)
    ensures
        tips.deep_view() == available_tips(output@, format),
        (forall|i: int|
            0 <= i < lines(output@).len() ==> !starts_section(#[trigger] lines(output@)[i], format))
            ==> tips@.len() == 0,
        forall|k: int|
            0 <= k < lines(output@).len() && starts_section(#[trigger] lines(output@)[k], format)
                && (forall|j: int| 0 <= j < k ==> !starts_section(#[trigger] lines(output@)[j], format))
                ==> tips.deep_view() == lines(output@).skip(k + 1),
{
    let text = chars_of(output);
    let marker = section_marker_chars(format);
    let bounds = line_bounds(&text);
    let ghost ls = lines(output@);
    let mut tips: Vec<String> = Vec::new();
    let mut idx: usize = 0;

    // Skip lines until the one that starts the options section.
    while idx < bounds.len() && !line_is(&text, bounds[idx].0, bounds[idx].1, &marker)
        invariant
            text@ == output@,
            ls == lines(output@),
            marker@ == section_marker(format),
            bounds@.len() == ls.len(),
            forall|i: int|
                0 <= i < bounds@.len() ==> {
                    &&& (#[trigger] bounds@[i]).0 <= bounds@[i].1 <= text@.len()
                    &&& text@.subrange(bounds@[i].0 as int, bounds@[i].1 as int) == ls[i]
                },
            0 <= idx <= bounds@.len(),
            forall|j: int| 0 <= j < idx ==> !starts_section(#[trigger] ls[j], format),
        decreases bounds@.len() - idx,
    {
        idx += 1;
    }
    proof {
        lemma_first_section_start_at(ls, format, idx as int);
        assert forall|k: int|
            0 <= k < ls.len() && starts_section(#[trigger] ls[k], format) && (forall|j: int|
                0 <= j < k ==> !starts_section(#[trigger] ls[j], format)) implies k == idx by {
            lemma_first_section_start_at(ls, format, k);
        }
    }
    if idx >= bounds.len() {
        assert(tips.deep_view() =~= available_tips(output@, format));
        return tips;
    }
    let first: usize = idx + 1;

    // Take each line after it as a tip.
    let mut at: usize = first;
    while at < bounds.len()
        invariant
            text@ == output@,
            ls == lines(output@),
            bounds@.len() == ls.len(),
            forall|i: int|
                0 <= i < bounds@.len() ==> {
                    &&& (#[trigger] bounds@[i]).0 <= bounds@[i].1 <= text@.len()
                    &&& text@.subrange(bounds@[i].0 as int, bounds@[i].1 as int) == ls[i]
                },
            first <= at <= bounds@.len(),
            tips@.len() == at - first,
            forall|i: int| 0 <= i < tips@.len() ==> (#[trigger] tips@[i])@ == ls[first + i],
        decreases bounds@.len() - at,
    {
        let tip = string_of_range(&text, bounds[at].0, bounds[at].1);
        tips.push(tip);
        at += 1;
    }
    assert(tips.deep_view() =~= ls.skip(first as int));
    tips
}

/// Whether the characters `text[from..to]`, trimmed, are those of `wanted`.
fn line_is(text: &Vec<char>, from: usize, to: usize, wanted: &Vec<char>) -> (same: bool)
    requires
        from <= to <= text.len(),
    ensures
        same == (trimmed(text@.subrange(from as int, to as int)) == wanted@),
{
    let (a, b) = trim_bounds(text, from, to);
    range_equals(text, a, b, wanted)
}

/// Selects a tip from the candidates and tidies it up for display: the first
/// candidate, trimmed, with every run of whitespace inside it collapsed to
/// one space. Without candidates there is no tip, and the error says so.
pub fn get_random_tip(tips: &Vec<String>) -> (r: Result<String, TipError>)
    ensures
        tip_view(r) == selected_tip(tips.deep_view()),
        r is Err <==> tips@.len() == 0,
        r matches Ok(tip) ==> tidy(tip@),
{
    if tips.len() == 0 {
        return Err(TipError::NoTipsAvailable);
    }
    let text = chars_of(tips[0].as_str());
    let tip = normalize_range(&text, 0, text.len());
    proof {
        assert(text@.subrange(0, text@.len() as int) =~= text@);
        assert(tips.deep_view().first() == tips@[0]@);
        lemma_normalized_is_tidy(text@);
    }
    Ok(tip)
}

/// What happened outside while a tip was being fetched.
#[derive(Debug, PartialEq, Eq)]
pub enum TipEvent {
    /// A tip was asked for, and nothing has been done yet.
    Requested,
    /// The tool was found on the search path, at this path.
    Located(String),
    /// The tool was not found on the search path.
    NotLocated,
    /// The help command has run, and this is what it wrote to its standard
    /// output. How it exited is of no account.
    Captured(Vec<u8>),
    /// The help command could not be started, or its output was not to be
    /// had.
    NotCaptured,
}

/// What is to be done next to fetch a tip.
#[derive(Debug, PartialEq, Eq)]
pub enum TipAction {
    /// Look for the tool of this name on the search path.
    Locate(String),
    /// Run `program` with `flag` as its one argument and without input, and
    /// capture its standard output.
    Invoke { program: String, flag: String },
    /// The tip is found: show it.
    Show(String),
    /// There will be no tip.
    Fail(TipError),
}

/// A `TipEvent` with its texts as characters and its output as bytes.
pub enum TipEventView {
    Requested,
    Located(Seq<char>),
    NotLocated,
    Captured(Seq<u8>),
    NotCaptured,
}

/// A `TipAction` with its texts as characters.
pub enum TipActionView {
    Locate(Seq<char>),
    Invoke { program: Seq<char>, flag: Seq<char> },
    Show(Seq<char>),
    Fail(TipError),
}

impl View for TipEvent {
    type V = TipEventView;

    open spec fn view(&self) -> TipEventView {
        match self {
            TipEvent::Requested => TipEventView::Requested,
            TipEvent::Located(path) => TipEventView::Located(path@),
            TipEvent::NotLocated => TipEventView::NotLocated,
            TipEvent::Captured(stdout) => TipEventView::Captured(stdout@),
            TipEvent::NotCaptured => TipEventView::NotCaptured,
        }
    }
}

impl View for TipAction {
    type V = TipActionView;

    open spec fn view(&self) -> TipActionView {
        match self {
            TipAction::Locate(name) => TipActionView::Locate(name@),
            TipAction::Invoke { program, flag } => TipActionView::Invoke {
                program: program@,
                flag: flag@,
            },
            TipAction::Show(tip) => TipActionView::Show(tip@),
            TipAction::Fail(e) => TipActionView::Fail(*e),
        }
    }
}

/// The argument that makes a tool print its help.
pub open spec fn help_flag() -> Seq<char> {
    seq!['-', 'h']
}

/// The tip in captured help output: `EncodingError` where the bytes are not
/// UTF-8; else the tip selected from the candidates in the decoded text.
pub open spec fn tip_in_output(stdout: Seq<u8>, format: ToolOutputFormat) -> Result<
    Seq<char>,
    TipError,
> {
    if valid_utf8(stdout) {
        selected_tip(available_tips(decode_utf8(stdout), format))
    } else {
        Err(TipError::EncodingError)
    }
}

/// What to do for the tool `name` after `event`.
///
/// A request starts the search for the tool. A tool that is not found ends
/// the matter with `NotFound`, and nothing is run; one that is found is run
/// with the help flag. Output that cannot be had ends it with
/// `InvocationError`; captured output is decoded, and the tip in it is shown
/// or its absence reported.
pub open spec fn next_action(name: Seq<char>, event: TipEventView) -> TipActionView {
    match event {
        TipEventView::Requested => TipActionView::Locate(name),
        TipEventView::NotLocated => TipActionView::Fail(TipError::NotFound),
        TipEventView::Located(path) => TipActionView::Invoke { program: path, flag: help_flag() },
        TipEventView::NotCaptured => TipActionView::Fail(TipError::InvocationError),
        TipEventView::Captured(stdout) => match tip_in_output(stdout, ToolOutputFormat::Basic) {
            Ok(tip) => TipActionView::Show(tip),
            Err(e) => TipActionView::Fail(e),
        },
    }
}

/// `std::str::from_utf8`: the bytes as text. It succeeds exactly on
/// well-formed UTF-8, and the text it gives is encoded by the very bytes it
/// was given.
#[verifier::external_body]
fn text_of_bytes(bytes: &[u8]) -> (r: Result<&str, std::str::Utf8Error>)
    ensures
        r is Ok <==> valid_utf8(bytes@),
        r matches Ok(text) ==> text.spec_bytes() == bytes@,
{
    std::str::from_utf8(bytes)
}

/// Reads captured help output of the given layout and selects the tip in it.
pub fn tip_from_output(stdout: &[u8], format: ToolOutputFormat) -> (r: Result<String, TipError>)
    ensures
        tip_view(r) == tip_in_output(stdout@, format),
{
    match text_of_bytes(stdout) {
        Ok(text) => {
            proof {
                encode_utf8_decode_utf8(text@);
            }
            let tips = get_available_tips_from_output(text, format);
            get_random_tip(&tips)
        },
        Err(_) => Err(TipError::EncodingError),
    }
}

/// The line that shows a tip: the tool's name in square brackets, a space,
/// and the tip.
pub open spec fn tip_line_text(name: Seq<char>, tip: Seq<char>) -> Seq<char> {
    seq!['['] + name + seq![']', ' '] + tip
}

impl Tool {
    /// Fetches a tip from this tool's help text, one step at a time: given
    /// what happened last, says what to do next. The caller starts with
    /// `Requested`, does what each answer asks for and comes back with what
    /// happened, until the answer is `Show` or `Fail`.
    pub fn get_random_tip(&self, event: TipEvent) -> (action: TipAction)
        ensures
            action@ == next_action(self@, event@),
            event is NotLocated ==> action == TipAction::Fail(TipError::NotFound),
    {
        match event {
            TipEvent::Requested => TipAction::Locate(self.0.clone()),
            TipEvent::NotLocated => TipAction::Fail(TipError::NotFound),
            TipEvent::Located(path) => {
                match infer_tool_output_format(self.0.as_str()) {
                    Ok(_) => {
                        proof {
                            reveal_strlit("-h");
                        }
                        let flag = String::from_str("-h");
                        assert(flag@ =~= help_flag());
                        TipAction::Invoke { program: path, flag }
                    },
                    Err(e) => TipAction::Fail(e),
                }
            },
            TipEvent::NotCaptured => TipAction::Fail(TipError::InvocationError),
            TipEvent::Captured(stdout) => {
                match infer_tool_output_format(self.0.as_str()) {
                    Ok(format) => match tip_from_output(stdout.as_slice(), format) {
                        Ok(tip) => TipAction::Show(tip),
                        Err(e) => TipAction::Fail(e),
                    },
                    Err(e) => TipAction::Fail(e),
                }
            },
        }
    }
}

impl Tool {
    /// The line that shows `tip` as a tip for this tool.
    pub fn tip_line(&self, tip: &str) -> (line: String)
        ensures
            line@ == tip_line_text(self@, tip@),
    {
        proof {
            reveal_strlit("[");
            reveal_strlit("] ");
            assert("["@ =~= seq!['[']);
            assert("] "@ =~= seq![']', ' ']);
        }
        let mut line = String::from_str("[");
        line.append(self.0.as_str());
        line.append("] ");
        line.append(tip);
        line
    }
}

/// The type of the error of `std::str::from_utf8`.
#[verifier::external_type_specification]
#[verifier::external_body]
pub struct ExUtf8Error(std::str::Utf8Error);

} // verus!
