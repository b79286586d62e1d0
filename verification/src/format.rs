//! Text with interpolated values: `"count: {count}"`.
//!
//! A formatted text is a sequence of literal segments and of formatted
//! segments. A formatted segment holds the source of an expression and the
//! format arguments that follow its colon. In a literal, `{{` and `}}` stand
//! for one brace each.

use vstd::prelude::*;
use crate::expr::lists_view;

verus! {

/// One interpolated value: the source of its expression and its format
/// arguments (empty where the text gives none).
#[derive(Debug)]
pub struct FormattedSegment {
    pub format_args: String,
    pub segment: String,
}

/// One piece of a formatted text.
#[derive(Debug)]
pub enum Segment {
    Literal(String),
    Formatted(FormattedSegment),
}

/// A text split into its literal and its formatted segments.
#[derive(Debug)]
pub struct FormattedText {
    /// The text as it was written, where it is known.
    pub source: Option<String>,
    pub segments: Vec<Segment>,
    /// For each segment, by its position, the identifiers that occur in its
    /// expression, as whoever read the expression found them; none for a
    /// literal, and none where the list ends before the segment.
    pub idents: Vec<Vec<String>>,
}

/// Why a text is no formatted text.
#[derive(Debug)]
pub enum FormatError {
    /// A `}` that closes nothing and is not doubled.
    UnmatchedClosingBrace,
    /// A `{` that opens a formatted segment which the text does not close.
    UnclosedSegment,
    /// The source between the braces of a formatted segment is no
    /// expression; it is carried here.
    Expression(String),
}

/// What a [`Segment`] holds.
pub enum SegmentView {
    Literal(Seq<char>),
    Formatted { format_args: Seq<char>, segment: Seq<char> },
}

/// What a [`FormattedText`] holds.
pub struct FormattedTextView {
    pub source: Option<Seq<char>>,
    pub segments: Seq<SegmentView>,
    pub idents: Seq<Seq<Seq<char>>>,
}

/// What a [`FormatError`] holds.
pub enum FormatErrorView {
    UnmatchedClosingBrace,
    UnclosedSegment,
    Expression(Seq<char>),
}

impl View for Segment {
    type V = SegmentView;

    open spec fn view(&self) -> SegmentView {
        match self {
            Segment::Literal(text) => SegmentView::Literal(text@),
            Segment::Formatted(f) => SegmentView::Formatted {
                format_args: f.format_args@,
                segment: f.segment@,
            },
        }
    }
}

/// The segments of a vector, each by its view.
pub open spec fn segments_view(segments: Seq<Segment>) -> Seq<SegmentView> {
    Seq::new(segments.len(), |i: int| segments[i]@)
}

impl View for FormattedText {
    type V = FormattedTextView;

    open spec fn view(&self) -> FormattedTextView {
        FormattedTextView {
            source: match self.source {
                Some(s) => Some(s@),
                None => None,
            },
            segments: segments_view(self.segments@),
            idents: lists_view(self.idents@),
        }
    }
}

impl View for FormatError {
    type V = FormatErrorView;

    open spec fn view(&self) -> FormatErrorView {
        match self {
            FormatError::UnmatchedClosingBrace => FormatErrorView::UnmatchedClosingBrace,
            FormatError::UnclosedSegment => FormatErrorView::UnclosedSegment,
            FormatError::Expression(source) => FormatErrorView::Expression(source@),
        }
    }
}

/// Where the scan of a text stands: in literal text, in the expression of a
/// formatted segment, or in its format arguments.
#[derive(Clone, Copy, PartialEq, Eq, Structural)]
pub enum ScanMode {
    Text,
    Capture,
    Arguments,
}

/// How the scan of a text ended: at the end of the text with every segment
/// closed, at a `}` that closes nothing, or at the end of the text inside a
/// formatted segment.
#[derive(Clone, Copy, Debug, PartialEq, Eq, Structural)]
pub enum Ending {
    Closed,
    StrayBrace,
    OpenSegment,
}

/// `acc`, and after it the pending literal `lit` unless it is empty.
pub open spec fn flush(acc: Seq<SegmentView>, lit: Seq<char>) -> Seq<SegmentView> {
    if lit.len() == 0 {
        acc
    } else {
        acc.push(SegmentView::Literal(lit))
    }
}

/// The scan of `s` from position `i` on, where `acc` holds the segments
/// found so far, `lit` the literal that is being read, and `cap` and `args`
/// the expression and format arguments of the formatted segment that is
/// being read.
///
/// The result is the segments that were closed, and how the scan ended.
/// The scan stops at a `}` that closes nothing. A text that ends inside a
/// formatted segment, with no `}` to close it, is malformed.
pub open spec fn scan(
    s: Seq<char>,
    i: int,
    mode: ScanMode,
    lit: Seq<char>,
    cap: Seq<char>,
    args: Seq<char>,
    acc: Seq<SegmentView>,
) -> (Seq<SegmentView>, Ending)
    decreases s.len() - i,
{
    if i < 0 || i >= s.len() {
        match mode {
            ScanMode::Text => (flush(acc, lit), Ending::Closed),
            _ => (acc, Ending::OpenSegment),
        }
    } else {
        let c = s[i];
        match mode {
            ScanMode::Text => {
                if c == '{' {
                    if i + 1 < s.len() && s[i + 1] == '{' {
                        scan(s, i + 2, ScanMode::Text, lit.push('{'), cap, args, acc)
                    } else {
                        scan(
                            s,
                            i + 1,
                            ScanMode::Capture,
                            Seq::empty(),
                            Seq::empty(),
                            Seq::empty(),
                            flush(acc, lit),
                        )
                    }
                } else if c == '}' {
                    if i + 1 < s.len() && s[i + 1] == '}' {
                        scan(s, i + 2, ScanMode::Text, lit.push('}'), cap, args, acc)
                    } else {
                        (acc, Ending::StrayBrace)
                    }
                } else {
                    scan(s, i + 1, ScanMode::Text, lit.push(c), cap, args, acc)
                }
            },
            ScanMode::Capture => {
                if c == ':' {
                    scan(s, i + 1, ScanMode::Arguments, lit, cap, args, acc)
                } else if c == '}' {
                    scan(
                        s,
                        i + 1,
                        ScanMode::Text,
                        lit,
                        cap,
                        args,
                        acc.push(
                            SegmentView::Formatted { format_args: Seq::empty(), segment: cap },
                        ),
                    )
                } else {
                    scan(s, i + 1, ScanMode::Capture, lit, cap.push(c), args, acc)
                }
            },
            ScanMode::Arguments => {
                if c == '}' {
                    scan(
                        s,
                        i + 1,
                        ScanMode::Text,
                        lit,
                        cap,
                        args,
                        acc.push(SegmentView::Formatted { format_args: args, segment: cap }),
                    )
                } else {
                    scan(s, i + 1, ScanMode::Arguments, lit, cap, args.push(c), acc)
                }
            },
        }
    }
}

/// The segments of the text `s`, and how its scan ended. Where it did not
/// end well the segments are those that were closed before.
pub open spec fn split_text(s: Seq<char>) -> (Seq<SegmentView>, Ending) {
    scan(s, 0, ScanMode::Text, Seq::empty(), Seq::empty(), Seq::empty(), Seq::empty())
}

/// Whether `c` can continue a word: an ASCII letter, an ASCII digit or an
/// underscore.
pub open spec fn is_word_char(c: char) -> bool {
    ('a' <= c && c <= 'z') || ('A' <= c && c <= 'Z') || ('0' <= c && c <= '9') || c == '_'
}

/// Whether a C string literal could begin at position `i` of `s`: a `c`
/// that does not continue a word and is followed by `"`, or by `r` and
/// then `"` or `#`.
pub open spec fn c_string_at(s: Seq<char>, i: int) -> bool {
    &&& 0 <= i < s.len()
    &&& s[i] == 'c'
    &&& (i == 0 || !is_word_char(s[i - 1]))
    &&& i + 1 < s.len()
    &&& (s[i + 1] == '"' || (s[i + 1] == 'r' && i + 2 < s.len() && (s[i + 2] == '"' || s[i + 2]
        == '#')))
}

/// Where the reading of a source stands: in code, in a string literal with
/// escapes, or in a raw string literal without hashes.
#[derive(Clone, Copy, PartialEq, Eq, Structural)]
pub enum Reading {
    Code,
    Cooked,
    Raw,
}

/// Whether `c` is the second character of an escape of two characters.
pub open spec fn is_short_escape(c: char) -> bool {
    c == 'n' || c == 'r' || c == 't' || c == '\\' || c == '0' || c == '\'' || c == '"'
}

/// Whether a token surely begins after the character `c`: `c` is an ASCII
/// character that continues no word and is none of `'`, `"`, `#` and
/// backslash.
pub open spec fn ends_token(c: char) -> bool {
    c <= '\x7f' && !is_word_char(c) && c != '\'' && c != '"' && c != '#' && c != '\\'
}

/// Whether a suffix could follow a literal that ends before position `i`:
/// the character there continues a word or is not ASCII.
pub open spec fn suffix_at(s: Seq<char>, i: int) -> bool {
    0 <= i < s.len() && (is_word_char(s[i]) || s[i] > '\x7f')
}

/// How the string literal reads that the `"` at position `i` opens, where
/// an `r` stands before the `"`: raw if the `r`, or the `br` that it ends,
/// surely begins a token; with escapes if it continues a word; and
/// nothing if neither is sure.
pub open spec fn after_r(s: Seq<char>, i: int) -> Option<Reading> {
    let start = if i >= 2 && s[i - 2] == 'b' {
        i - 2
    } else {
        i - 1
    };
    if start <= 0 {
        Some(Reading::Raw)
    } else if is_word_char(s[start - 1]) {
        Some(Reading::Cooked)
    } else if ends_token(s[start - 1]) {
        Some(Reading::Raw)
    } else {
        None
    }
}

/// Whether the source `s`, read from position `i` on in the way `reading`,
/// could hold a literal that the parser of expressions does not know, or
/// cannot be followed.
///
/// The reading follows string literals, with their escapes, raw strings
/// without hashes, and character literals of one character or of a short
/// escape; what stands inside them is not looked at. In code it stops at a
/// `c` that could begin a C string literal. It also stops where it cannot
/// follow the source: at a comment (which the mark that the lexer leaves
/// where it gave up begins with), at a raw string with hashes, at any
/// other character literal, at a literal with a suffix, and at a raw
/// string prefix of which it is not sure that it begins a token.
pub open spec fn stops(s: Seq<char>, i: int, reading: Reading) -> bool
    decreases s.len() + 4 - i,
{
    if i < 0 || i >= s.len() {
        false
    } else {
        let c = s[i];
        match reading {
            Reading::Cooked => if c == '\\' {
                stops(s, i + 2, Reading::Cooked)
            } else if c == '"' {
                suffix_at(s, i + 1) || stops(s, i + 1, Reading::Code)
            } else {
                stops(s, i + 1, Reading::Cooked)
            },
            Reading::Raw => if c == '"' {
                suffix_at(s, i + 1) || stops(s, i + 1, Reading::Code)
            } else {
                stops(s, i + 1, Reading::Raw)
            },
            Reading::Code => if c_string_at(s, i) {
                true
            } else if c == '/' && i + 1 < s.len() && (s[i + 1] == '/' || s[i + 1] == '*') {
                true
            } else if c == '#' && i + 1 < s.len() && s[i + 1] == '"' {
                true
            } else if c == '\'' {
                if i + 1 >= s.len() {
                    false
                } else if s[i + 1] == '\\' {
                    if i + 3 < s.len() && is_short_escape(s[i + 2]) && s[i + 3] == '\'' {
                        suffix_at(s, i + 4) || stops(s, i + 4, Reading::Code)
                    } else {
                        true
                    }
                } else if s[i + 1] == '\'' {
                    true
                } else if i + 2 < s.len() && s[i + 2] == '\'' {
                    suffix_at(s, i + 3) || stops(s, i + 3, Reading::Code)
                } else {
                    stops(s, i + 1, Reading::Code)
                }
            } else if c == '"' {
                if i >= 1 && s[i - 1] == 'r' {
                    match after_r(s, i) {
                        Some(reading) => stops(s, i + 1, reading),
                        None => true,
                    }
                } else {
                    stops(s, i + 1, Reading::Cooked)
                }
            } else {
                stops(s, i + 1, Reading::Code)
            },
        }
    }
}

/// Whether the source `s` is not given to the parser of expressions: read
/// from its beginning, it could hold a literal that the parser does not
/// know, or it cannot be followed.
///
/// The test errs to the side of caution: it refuses some sources that the
/// parser would take, and none on which the parser panics.
pub open spec fn unreadable(s: Seq<char>) -> bool {
    stops(s, 0, Reading::Code)
}

/// `syn::Expr`, of which nothing is known here.
#[verifier::external_type_specification]
#[verifier::external_body]
pub struct ExExpr(syn::Expr);

/// `syn::Error`, of which nothing is known here.
#[verifier::external_type_specification]
#[verifier::external_body]
pub struct ExParseError(syn::Error);

/// `syn::parse_str` at the type `syn::Expr`. Nothing is claimed of the
/// outcome. The parser panics on a literal that it does not know: a C
/// string literal, and the mark that the lexer leaves where it gave up. A
/// source in which a token could begin such a literal is left out.
#[verifier::external_body]
fn parse_expression(source: &str) -> (parsed: Result<syn::Expr, syn::Error>)
    requires
        !unreadable(source@),
{
    syn::parse_str::<syn::Expr>(source)
}

fn word_char(c: char) -> (b: bool)
    ensures
        b == is_word_char(c),
{
    ('a' <= c && c <= 'z') || ('A' <= c && c <= 'Z') || ('0' <= c && c <= '9') || c == '_'
}

/// Whether a C string literal could begin at position `i` of `source`.
fn c_string_begins(source: &str, i: usize) -> (found: bool)
    ensures
        found == c_string_at(source@, i as int),
{
    let n = source.unicode_len();
    if i >= n || source.get_char(i) != 'c' {
        return false;
    }
    if i > 0 && word_char(source.get_char(i - 1)) {
        return false;
    }
    if n - i < 2 {
        return false;
    }
    let next = source.get_char(i + 1);
    if next == '"' {
        return true;
    }
    if next != 'r' || n - i < 3 {
        return false;
    }
    let after = source.get_char(i + 2);
    after == '"' || after == '#'
}

/// Whether a suffix could follow a literal that ends before position `i`.
fn suffix_begins(source: &str, i: usize) -> (found: bool)
    ensures
        found == suffix_at(source@, i as int),
{
    if i >= source.unicode_len() {
        return false;
    }
    let c = source.get_char(i);
    word_char(c) || c > '\x7f'
}

/// How the string literal reads that the `"` at position `i` opens, where
/// an `r` stands before it.
fn reading_after_r(source: &str, i: usize) -> (reading: Option<Reading>)
    requires
        1 <= i < source@.len(),
    ensures
        reading == after_r(source@, i as int),
{
    let start = if i >= 2 && source.get_char(i - 2) == 'b' {
        i - 2
    } else {
        i - 1
    };
    if start == 0 {
        return Some(Reading::Raw);
    }
    let c = source.get_char(start - 1);
    if word_char(c) {
        Some(Reading::Cooked)
    } else if c <= '\x7f' && c != '\'' && c != '"' && c != '#' && c != '\\' {
        Some(Reading::Raw)
    } else {
        None
    }
}

/// Whether `source` is not given to the parser of expressions.
pub fn is_unreadable(source: &str) -> (found: bool)
    ensures
        found == unreadable(source@),
{
    let n = source.unicode_len();
    let mut reading = Reading::Code;
    let mut i: usize = 0;
    while i < n
        invariant
            i <= n,
            n == source@.len(),
            stops(source@, i as int, reading) == unreadable(source@),
        decreases n - i,
    {
        let c = source.get_char(i);
        let left = n - i;
        let mut step: usize = 1;
        match reading {
            Reading::Cooked => {
                if c == '\\' {
                    step = 2;
                } else if c == '"' {
                    if suffix_begins(source, i + 1) {
                        return true;
                    }
                    reading = Reading::Code;
                }
            },
            Reading::Raw => {
                if c == '"' {
                    if suffix_begins(source, i + 1) {
                        return true;
                    }
                    reading = Reading::Code;
                }
            },
            Reading::Code => {
                if c_string_begins(source, i) {
                    return true;
                }
                if c == '/' && left >= 2 && (source.get_char(i + 1) == '/' || source.get_char(
                    i + 1,
                ) == '*') {
                    return true;
                }
                if c == '#' && left >= 2 && source.get_char(i + 1) == '"' {
                    return true;
                }
                if c == '\'' {
                    if left >= 2 {
                        let next = source.get_char(i + 1);
                        if next == '\\' {
                            if left >= 4 && short_escape(source.get_char(i + 2)) && source.get_char(
                                i + 3,
                            ) == '\'' {
                                if suffix_begins(source, i + 4) {
                                    return true;
                                }
                                step = 4;
                            } else {
                                return true;
                            }
                        } else if next == '\'' {
                            return true;
                        } else if left >= 3 && source.get_char(i + 2) == '\'' {
                            if suffix_begins(source, i + 3) {
                                return true;
                            }
                            step = 3;
                        }
                    }
                } else if c == '"' {
                    if i >= 1 && source.get_char(i - 1) == 'r' {
                        match reading_after_r(source, i) {
                            Some(found) => {
                                reading = found;
                            },
                            None => {
                                return true;
                            },
                        }
                    } else {
                        reading = Reading::Cooked;
                    }
                }
            },
        }
        if step > left {
            proof {
                assert(!stops(source@, i + step, reading));
                assert(!stops(source@, n as int, reading));
            }
            i = n;
        } else {
            i = i + step;
        }
    }
    false
}

fn short_escape(c: char) -> (b: bool)
    ensures
        b == is_short_escape(c),
{
    c == 'n' || c == 'r' || c == 't' || c == '\\' || c == '0' || c == '\'' || c == '"'
}

/// Whether `source` is taken for an expression: it is given to the
/// parser, and the parser accepts it. What the parser accepts is the
/// parser's matter; a source that is not given to it is never taken.
pub fn parses(source: &str) -> (taken: bool)
    ensures
        unreadable(source@) ==> !taken,
{
    if is_unreadable(source) {
        false
    } else {
        parse_expression(source).is_ok()
    }
}

/// Whether segment `i` passes: a literal always does, a formatted segment
/// where `parsed` says so, and not where `parsed` says nothing of it.
pub open spec fn segment_passes(segments: Seq<SegmentView>, parsed: Seq<bool>, i: int) -> bool {
    segments[i] is Literal || (0 <= i < parsed.len() && parsed[i])
}

/// The first segment before `upto` that does not pass, or `upto`.
pub open spec fn first_failure(segments: Seq<SegmentView>, parsed: Seq<bool>, upto: int) -> int
    decreases upto,
{
    if upto <= 0 {
        0
    } else {
        let before = first_failure(segments, parsed, upto - 1);
        if before < upto - 1 {
            before
        } else if segment_passes(segments, parsed, upto - 1) {
            upto
        } else {
            upto - 1
        }
    }
}

/// The formatted text made of `segments`, with the identifiers `idents`,
/// or the reason why there is none: the first formatted segment whose
/// expression did not parse, else the brace that closes nothing or the
/// segment that nothing closes.
pub open spec fn assemble_spec(
    segments: Seq<SegmentView>,
    ending: Ending,
    parsed: Seq<bool>,
    idents: Seq<Seq<Seq<char>>>,
) -> Result<FormattedTextView, FormatErrorView> {
    let bad = first_failure(segments, parsed, segments.len() as int);
    if bad < segments.len() {
        Err(FormatErrorView::Expression(segments[bad]->segment))
    } else {
        match ending {
            Ending::StrayBrace => Err(FormatErrorView::UnmatchedClosingBrace),
            Ending::OpenSegment => Err(FormatErrorView::UnclosedSegment),
            Ending::Closed => Ok(FormattedTextView { source: None, segments, idents }),
        }
    }
}

/// Whether `parsed` can be what the check of `segments` gave: it says
/// something of every segment, of a literal that it passes, and of no
/// formatted segment with an unreadable source that it parsed.
pub open spec fn checked(segments: Seq<SegmentView>, parsed: Seq<bool>) -> bool {
    &&& parsed.len() == segments.len()
    &&& forall|i: int|
        0 <= i < segments.len() ==> match #[trigger] segments[i] {
            SegmentView::Literal(_) => parsed[i],
            SegmentView::Formatted { format_args, segment } => unreadable(segment) ==> !parsed[i],
        }
}

/// The text `s`, split and assembled with the outcomes `parsed` and the
/// identifiers `idents`.
pub open spec fn parse_spec(s: Seq<char>, parsed: Seq<bool>, idents: Seq<Seq<Seq<char>>>) -> Result<
    FormattedTextView,
    FormatErrorView,
> {
    assemble_spec(split_text(s).0, split_text(s).1, parsed, idents)
}

/// A formatted text comes only of a text that ends well: none comes of a
/// text with a `}` that closes nothing, nor of one that ends inside a
/// formatted segment, whatever its expressions are.
pub proof fn formatted_text_ends_well(s: Seq<char>, parsed: Seq<bool>, idents: Seq<Seq<Seq<char>>>)
    ensures
        parse_spec(s, parsed, idents) is Ok ==> split_text(s).1 == Ending::Closed,
        split_text(s).1 == Ending::OpenSegment ==> parse_spec(s, parsed, idents) is Err,
{
}

/// A formatted segment that is open stays open where no `}` follows: the
/// scan of such a text ends inside the segment.
pub proof fn open_segment_needs_its_brace(
    s: Seq<char>,
    i: int,
    mode: ScanMode,
    lit: Seq<char>,
    cap: Seq<char>,
    args: Seq<char>,
    acc: Seq<SegmentView>,
)
    requires
        0 <= i,
        mode != ScanMode::Text,
        forall|j: int| i <= j < s.len() ==> s[j] != '}',
    ensures
        scan(s, i, mode, lit, cap, args, acc).1 == Ending::OpenSegment,
    decreases s.len() - i,
{
    if i < s.len() {
        let c = s[i];
        match mode {
            ScanMode::Text => {},
            ScanMode::Capture => {
                if c == ':' {
                    open_segment_needs_its_brace(s, i + 1, ScanMode::Arguments, lit, cap, args, acc);
                } else {
                    open_segment_needs_its_brace(
                        s,
                        i + 1,
                        ScanMode::Capture,
                        lit,
                        cap.push(c),
                        args,
                        acc,
                    );
                }
            },
            ScanMode::Arguments => {
                open_segment_needs_its_brace(
                    s,
                    i + 1,
                    ScanMode::Arguments,
                    lit,
                    cap,
                    args.push(c),
                    acc,
                );
            },
        }
    }
}

/// The result of parsing, by its view.
pub open spec fn result_view(r: Result<FormattedText, FormatError>) -> Result<
    FormattedTextView,
    FormatErrorView,
> {
    match r {
        Ok(text) => Ok(text@),
        Err(e) => Err(e@),
    }
}

/// Whether one of `segments` is a formatted segment.
pub open spec fn any_formatted(segments: Seq<SegmentView>) -> bool {
    exists|i: int| 0 <= i < segments.len() && #[trigger] segments[i] is Formatted
}

/// `text` with each brace doubled.
pub open spec fn escape_braces(text: Seq<char>) -> Seq<char>
    decreases text.len(),
{
    if text.len() == 0 {
        Seq::empty()
    } else {
        let c = text.last();
        let before = escape_braces(text.drop_last());
        if c == '{' || c == '}' {
            before.push(c).push(c)
        } else {
            before.push(c)
        }
    }
}

/// The format string that stands for `segments`: literals with their braces
/// doubled, and `{:args}` for each formatted segment.
pub open spec fn format_literal_spec(segments: Seq<SegmentView>) -> Seq<char>
    decreases segments.len(),
{
    if segments.len() == 0 {
        Seq::empty()
    } else {
        let before = format_literal_spec(segments.drop_last());
        match segments.last() {
            SegmentView::Literal(text) => before + escape_braces(text),
            SegmentView::Formatted { format_args, segment } => before + seq!['{', ':'] + format_args
                + seq!['}'],
        }
    }
}

/// The expressions of the formatted segments, in order.
pub open spec fn arguments_spec(segments: Seq<SegmentView>) -> Seq<Seq<char>>
    decreases segments.len(),
{
    if segments.len() == 0 {
        Seq::empty()
    } else {
        let before = arguments_spec(segments.drop_last());
        match segments.last() {
            SegmentView::Literal(text) => before,
            SegmentView::Formatted { format_args, segment } => before.push(segment),
        }
    }
}

fn push_literal(acc: &mut Vec<Segment>, lit: String)
    ensures
        segments_view(final(acc)@) == flush(segments_view(old(acc)@), lit@),
{
    if lit.unicode_len() != 0 {
        acc.push(Segment::Literal(lit));
        proof {
            assert(segments_view(acc@) =~= segments_view(old(acc)@).push(
                SegmentView::Literal(lit@),
            ));
        }
    }
}

fn push_formatted(acc: &mut Vec<Segment>, format_args: String, segment: String)
    ensures
        segments_view(final(acc)@) == segments_view(old(acc)@).push(
            SegmentView::Formatted { format_args: format_args@, segment: segment@ },
        ),
{
    acc.push(Segment::Formatted(FormattedSegment { format_args, segment }));
    proof {
        assert(segments_view(acc@) =~= segments_view(old(acc)@).push(
            SegmentView::Formatted { format_args: format_args@, segment: segment@ },
        ));
    }
}

impl FormattedText {
    /// Splits `input` into segments without looking into the expressions,
    /// and tells how the scan ended. Where it did not end well the segments
    /// are those that were closed before.
    pub fn split(input: &str) -> (found: (Vec<Segment>, Ending))
        ensures
            (segments_view(found.0@), found.1) == split_text(input@),
    {
        let n = input.unicode_len();
        let mut acc: Vec<Segment> = Vec::new();
        let mut lit = String::new();
        let mut cap = String::new();
        let mut args = String::new();
        let mut mode = ScanMode::Text;
        let mut i: usize = 0;
        proof {
            assert(segments_view(acc@) =~= Seq::empty());
        }
        while i < n
            invariant
                i <= n,
                n == input@.len(),
                scan(input@, i as int, mode, lit@, cap@, args@, segments_view(acc@)) == split_text(
                    input@,
                ),
            decreases n - i,
        {
            let c = input.get_char(i);
            match mode {
                ScanMode::Text => {
                    if c == '{' {
                        if i + 1 < n && input.get_char(i + 1) == '{' {
                            lit.push('{');
                            i = i + 2;
                        } else {
                            push_literal(&mut acc, lit);
                            lit = String::new();
                            cap = String::new();
                            args = String::new();
                            mode = ScanMode::Capture;
                            i = i + 1;
                        }
                    } else if c == '}' {
                        if i + 1 < n && input.get_char(i + 1) == '}' {
                            lit.push('}');
                            i = i + 2;
                        } else {
                            return (acc, Ending::StrayBrace);
                        }
                    } else {
                        lit.push(c);
                        i = i + 1;
                    }
                },
                ScanMode::Capture => {
                    if c == ':' {
                        mode = ScanMode::Arguments;
                    } else if c == '}' {
                        push_formatted(&mut acc, String::new(), cap.clone());
                        mode = ScanMode::Text;
                    } else {
                        cap.push(c);
                    }
                    i = i + 1;
                },
                ScanMode::Arguments => {
                    if c == '}' {
                        push_formatted(&mut acc, args.clone(), cap.clone());
                        mode = ScanMode::Text;
                    } else {
                        args.push(c);
                    }
                    i = i + 1;
                },
            }
        }
        match mode {
            ScanMode::Text => {
                push_literal(&mut acc, lit);
                (acc, Ending::Closed)
            },
            _ => (acc, Ending::OpenSegment),
        }
    }

    /// Makes a formatted text of segments that were split off a text, where
    /// `parsed` tells for each segment whether its expression parsed (what
    /// it tells of a literal is not looked at; a formatted segment of which
    /// it tells nothing did not parse), and `idents` holds for each segment
    /// the identifiers of its expression. The first formatted segment whose
    /// expression did not parse is an error; so is, after those, a brace
    /// that closes nothing or a segment that nothing closes.
    pub fn assemble(
        segments: Vec<Segment>,
        ending: Ending,
        parsed: &Vec<bool>,
        idents: Vec<Vec<String>>,
    ) -> (r: Result<FormattedText, FormatError>)
        ensures
            result_view(r) == assemble_spec(
                segments_view(segments@),
                ending,
                parsed@,
                lists_view(idents@),
            ),
    {
        let ghost view = segments_view(segments@);
        let mut i: usize = 0;
        while i < segments.len()
            invariant
                i <= segments.len(),
                view == segments_view(segments@),
                first_failure(view, parsed@, i as int) == i,
            decreases segments.len() - i,
        {
            match &segments[i] {
                Segment::Literal(_) => {},
                Segment::Formatted(f) => {
                    if i >= parsed.len() || !parsed[i] {
                        proof {
                            Self::failure_stays(view, parsed@, i as int + 1, view.len() as int);
                        }
                        return Err(FormatError::Expression(f.segment.clone()));
                    }
                },
            }
            i = i + 1;
        }
        match ending {
            Ending::StrayBrace => Err(FormatError::UnmatchedClosingBrace),
            Ending::OpenSegment => Err(FormatError::UnclosedSegment),
            Ending::Closed => Ok(FormattedText { source: None, segments, idents }),
        }
    }

    /// Asks for each formatted segment whether its source is taken for an
    /// expression. Of a literal the answer is yes.
    pub fn check(segments: &Vec<Segment>) -> (parsed: Vec<bool>)
        ensures
            checked(segments_view(segments@), parsed@),
    {
        let mut parsed: Vec<bool> = Vec::new();
        let mut i: usize = 0;
        while i < segments.len()
            invariant
                i <= segments.len(),
                parsed@.len() == i,
                forall|j: int|
                    0 <= j < i ==> match #[trigger] segments_view(segments@)[j] {
                        SegmentView::Literal(_) => parsed@[j],
                        SegmentView::Formatted { format_args, segment } => unreadable(segment)
                            ==> !parsed@[j],
                    },
            decreases segments.len() - i,
        {
            let ok = match &segments[i] {
                Segment::Literal(_) => true,
                Segment::Formatted(f) => parses(f.segment.as_str()),
            };
            parsed.push(ok);
            i = i + 1;
        }
        parsed
    }

    proof fn failure_stays(segments: Seq<SegmentView>, parsed: Seq<bool>, at: int, upto: int)
        requires
            0 < at <= upto,
            first_failure(segments, parsed, at) == at - 1,
        ensures
            first_failure(segments, parsed, upto) == at - 1,
        decreases upto - at,
    {
        if at < upto {
            Self::failure_stays(segments, parsed, at, upto - 1);
        }
    }

    /// Parses a text with interpolated values.
    ///
    /// The text is split into segments, and each formatted segment is
    /// checked for an expression. The result is what the segments and the
    /// outcomes of the checks assemble to: the first segment that is no
    /// expression is the error; so is, if all are, a `}` that closes
    /// nothing or a segment that nothing closes. The text names no
    /// identifiers.
    pub fn from_str(input: &str) -> (r: Result<FormattedText, FormatError>)
        ensures
            exists|parsed: Seq<bool>|
                checked(split_text(input@).0, parsed) && result_view(r) == #[trigger] parse_spec(
                    input@,
                    parsed,
                    Seq::empty(),
                ),
    {
        let (segments, ending) = Self::split(input);
        let parsed = Self::check(&segments);
        let idents: Vec<Vec<String>> = Vec::new();
        proof {
            assert(lists_view(idents@) =~= Seq::empty());
        }
        let r = Self::assemble(segments, ending, &parsed, idents);
        proof {
            assert(result_view(r) == parse_spec(input@, parsed@, Seq::empty()));
        }
        r
    }

    /// The format string that stands for the text: each literal with its
    /// braces doubled, and `{:` with the format arguments and `}` for each
    /// formatted segment.
    pub fn format_literal(&self) -> (literal: String)
        ensures
            literal@ == format_literal_spec(self@.segments),
    {
        let mut literal = String::new();
        let mut k: usize = 0;
        proof {
            assert(self@.segments.take(0) =~= Seq::<SegmentView>::empty());
        }
        while k < self.segments.len()
            invariant
                k <= self.segments@.len(),
                literal@ == format_literal_spec(self@.segments.take(k as int)),
            decreases self.segments@.len() - k,
        {
            proof {
                assert(self@.segments.take(k + 1).drop_last() =~= self@.segments.take(k as int));
                assert(self@.segments.take(k + 1).last() == self.segments@[k as int]@);
            }
            match &self.segments[k] {
                Segment::Literal(text) => {
                    let ghost before = literal@;
                    let n = text.as_str().unicode_len();
                    let mut i: usize = 0;
                    proof {
                        assert(text@.take(0) =~= Seq::<char>::empty());
                        assert(literal@ =~= before + escape_braces(text@.take(0)));
                    }
                    while i < n
                        invariant
                            i <= n,
                            n == text@.len(),
                            literal@ == before + escape_braces(text@.take(i as int)),
                        decreases n - i,
                    {
                        let c = text.as_str().get_char(i);
                        proof {
                            assert(text@.take(i + 1).drop_last() =~= text@.take(i as int));
                            assert(text@.take(i + 1).last() == c);
                        }
                        literal.push(c);
                        if c == '{' || c == '}' {
                            literal.push(c);
                        }
                        proof {
                            assert(literal@ =~= before + escape_braces(text@.take(i + 1)));
                        }
                        i = i + 1;
                    }
                    proof {
                        assert(text@.take(n as int) =~= text@);
                    }
                },
                Segment::Formatted(f) => {
                    let ghost before = literal@;
                    literal.push('{');
                    literal.push(':');
                    literal.append(f.format_args.as_str());
                    literal.push('}');
                    proof {
                        assert(literal@ =~= before + seq!['{', ':'] + f.format_args@ + seq!['}']);
                    }
                },
            }
            k = k + 1;
        }
        proof {
            assert(self@.segments.take(self.segments@.len() as int) =~= self@.segments);
        }
        literal
    }

    /// The expressions of the formatted segments, in their order: the
    /// arguments that go with the format string.
    pub fn arguments(&self) -> (arguments: Vec<String>)
        ensures
            crate::expr::texts_view(arguments@) == arguments_spec(self@.segments),
    {
        let mut arguments: Vec<String> = Vec::new();
        let mut k: usize = 0;
        proof {
            assert(self@.segments.take(0) =~= Seq::<SegmentView>::empty());
            assert(crate::expr::texts_view(arguments@) =~= Seq::<Seq<char>>::empty());
        }
        while k < self.segments.len()
            invariant
                k <= self.segments@.len(),
                crate::expr::texts_view(arguments@) == arguments_spec(
                    self@.segments.take(k as int),
                ),
            decreases self.segments@.len() - k,
        {
            let ghost before = crate::expr::texts_view(arguments@);
            proof {
                assert(self@.segments.take(k + 1).drop_last() =~= self@.segments.take(k as int));
                assert(self@.segments.take(k + 1).last() == self.segments@[k as int]@);
            }
            match &self.segments[k] {
                Segment::Literal(_) => {},
                Segment::Formatted(f) => {
                    arguments.push(f.segment.clone());
                    proof {
                        assert(crate::expr::texts_view(arguments@) =~= before.push(
                            f.segment@,
                        ));
                    }
                },
            }
            k = k + 1;
        }
        proof {
            assert(self@.segments.take(self.segments@.len() as int) =~= self@.segments);
        }
        arguments
    }

    /// Whether the text holds a formatted segment.
    pub fn is_dynamic(&self) -> (dynamic: bool)
        ensures
            dynamic == any_formatted(self@.segments),
    {
        let mut i: usize = 0;
        while i < self.segments.len()
            invariant
                i <= self.segments.len(),
                forall|j: int| 0 <= j < i ==> !(#[trigger] self@.segments[j] is Formatted),
            decreases self.segments.len() - i,
        {
            match &self.segments[i] {
                Segment::Formatted(_) => {
                    proof {
                        assert(self@.segments[i as int] is Formatted);
                    }
                    return true;
                },
                Segment::Literal(_) => {},
            }
            i = i + 1;
        }
        false
    }
}

} // verus!
