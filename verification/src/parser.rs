//! A parser that takes a request one line at a time.
//!
//! The caller reads a line, feeds it, and goes on while the parser asks for
//! more; when the input ends it says so. The parser never reads by itself, so
//! it can stand behind any source of lines.

use crate::error::{ParseRequestError, ParseRequestErrorView};
use crate::grammar::{
    ends_fields, field_line, host_line, is_end_of_fields, read_field_line, read_host_line,
    read_request_line, request_line, HOST, HTTP1_1,
};
use crate::headers::Headers;
use crate::method::Method;
use crate::request::{Request, RequestView};
use vstd::prelude::*;

verus! {

/// What the parser waits for.
enum Stage {
    RequestLine,
    Host { method: Method, target: String },
    Fields { method: Method, target: String, headers: Headers },
}

/// A request that is being read.
pub struct RequestParser {
    stage: Stage,
}

/// What a [`RequestParser`] waits for, with what it has read so far.
pub enum ParserView {
    /// Nothing was read yet: the request line comes next.
    RequestLine,
    /// The request line was read: the `Host` field comes next.
    Host { method: Method, target: Seq<char> },
    /// The `Host` field was read: more fields may come, or the end.
    Fields { method: Method, target: Seq<char>, headers: Map<Seq<char>, Seq<char>> },
}

impl ParserView {
    /// What holds of what a parser has read: a target is not empty, and
    /// the header fields have the `Host` field among them.
    pub open spec fn wf(self) -> bool {
        match self {
            ParserView::RequestLine => true,
            ParserView::Host { target, .. } => target.len() > 0,
            ParserView::Fields { target, headers, .. } => target.len() > 0 && headers.contains_key(
                HOST@,
            ),
        }
    }
}

/// What became of a parser that was fed a line.
pub enum Progress<E> {
    /// The request goes on: feed the next line to this parser.
    More(RequestParser),
    /// The request has ended, in a request or in an error.
    Done(Result<Request, ParseRequestError<E>>),
}

/// A [`Progress`] by the views of what it holds.
pub enum ProgressView<E> {
    More(ParserView),
    Done(Result<RequestView, ParseRequestErrorView<E>>),
}

/// A line as it comes from the source: its characters, or the source's error.
pub open spec fn line_view<E>(line: Result<String, E>) -> Result<Seq<char>, E> {
    match line {
        Ok(text) => Ok(text@),
        Err(e) => Err(e),
    }
}

/// The result of parsing by the views of what it holds.
pub open spec fn outcome_view<E>(r: Result<Request, ParseRequestError<E>>) -> Result<
    RequestView,
    ParseRequestErrorView<E>,
> {
    match r {
        Ok(request) => Ok(request@),
        Err(e) => Err(e@),
    }
}

/// The request that the parts read so far make up.
pub open spec fn assembled(
    method: Method,
    target: Seq<char>,
    headers: Map<Seq<char>, Seq<char>>,
) -> RequestView {
    RequestView { method, target, protocol: HTTP1_1@, headers }
}

/// The header fields `headers` after one more header line.
pub open spec fn with_field_line(
    headers: Map<Seq<char>, Seq<char>>,
    line: Seq<char>,
) -> Map<Seq<char>, Seq<char>> {
    match field_line(line) {
        Some((name, value)) => headers.insert(name, value),
        None => headers,
    }
}

/// What a parser in `state` does with the next line.
///
/// A line that could not be read ends the request with that error. The
/// request line and the `Host` field must be what the grammar says. After
/// them a line that ends the fields ends the request, and any other line
/// adds its field, if it holds one.
pub open spec fn after_line<E>(state: ParserView, line: Result<Seq<char>, E>) -> ProgressView<E> {
    match line {
        Err(e) => ProgressView::Done(Err(ParseRequestErrorView::Io(e))),
        Ok(text) => match state {
            ParserView::RequestLine => match request_line::<E>(text) {
                Ok((method, target)) => ProgressView::More(ParserView::Host { method, target }),
                Err(e) => ProgressView::Done(Err(e)),
            },
            ParserView::Host { method, target } => match host_line(text) {
                Some(host) => ProgressView::More(
                    ParserView::Fields { method, target, headers: map![HOST@ => host] },
                ),
                None => ProgressView::Done(Err(ParseRequestErrorView::MissingHost(Some(text)))),
            },
            ParserView::Fields { method, target, headers } => if ends_fields(text) {
                ProgressView::Done(Ok(assembled(method, target, headers)))
            } else {
                ProgressView::More(
                    ParserView::Fields { method, target, headers: with_field_line(headers, text) },
                )
            },
        },
    }
}

/// What a parser in `state` makes of the end of the input.
pub open spec fn at_end<E>(state: ParserView) -> Result<RequestView, ParseRequestErrorView<E>> {
    match state {
        ParserView::RequestLine => Err(ParseRequestErrorView::UnexpectedEof),
        ParserView::Host { .. } => Err(ParseRequestErrorView::MissingHost(None)),
        ParserView::Fields { method, target, headers } => Ok(assembled(method, target, headers)),
    }
}

impl View for RequestParser {
    type V = ParserView;

    closed spec fn view(&self) -> ParserView {
        match self.stage {
            Stage::RequestLine => ParserView::RequestLine,
            Stage::Host { method, target } => ParserView::Host { method, target: target@ },
            Stage::Fields { method, target, headers } => ParserView::Fields {
                method,
                target: target@,
                headers: headers@,
            },
        }
    }
}

impl<E> View for Progress<E> {
    type V = ProgressView<E>;

    open spec fn view(&self) -> ProgressView<E> {
        match self {
            Progress::More(parser) => ProgressView::More(parser@),
            Progress::Done(r) => ProgressView::Done(outcome_view(*r)),
        }
    }
}

impl RequestParser {
    #[verifier::type_invariant]
    spec fn holds_valid_parts(&self) -> bool {
        self@.wf()
    }

    /// A parser that has read nothing.
    pub fn new() -> (r: RequestParser)
        ensures
            r@ == ParserView::RequestLine,
    {
        RequestParser { stage: Stage::RequestLine }
    }

    /// Takes the next line of the input, or the error that came in its place.
    pub fn feed<E>(self, line: Result<String, E>) -> (r: Progress<E>)
        ensures
            r@ == after_line(self@, line_view(line)),
            r matches Progress::Done(Ok(request)) ==> request@.is_valid(),
    {
        proof {
            use_type_invariant(&self);
        }
        let text = match line {
            Ok(text) => text,
            Err(e) => {
                return Progress::Done(Err(ParseRequestError::Io(e)));
            },
        };
        match self.stage {
            Stage::RequestLine => match read_request_line::<E>(text) {
                Ok((method, target)) => Progress::More(
                    RequestParser { stage: Stage::Host { method, target } },
                ),
                Err(e) => Progress::Done(Err(e)),
            },
            Stage::Host { method, target } => match read_host_line(text.as_str()) {
                Some(host) => {
                    let mut headers = Headers::new();
                    headers.insert(HOST.to_owned(), host);
                    Progress::More(RequestParser { stage: Stage::Fields { method, target, headers } })
                },
                None => Progress::Done(Err(ParseRequestError::MissingHost(Some(text)))),
            },
            Stage::Fields { method, target, headers } => {
                if is_end_of_fields(text.as_str()) {
                    Progress::Done(Ok(Request::new(method, target, headers)))
                } else {
                    let mut headers = headers;
                    match read_field_line(text.as_str()) {
                        Some((name, value)) => {
                            headers.insert(name, value);
                        },
                        None => {},
                    }
                    Progress::More(RequestParser { stage: Stage::Fields { method, target, headers } })
                }
            },
        }
    }

    /// Takes the end of the input.
    pub fn finish<E>(self) -> (r: Result<Request, ParseRequestError<E>>)
        ensures
            outcome_view(r) == at_end::<E>(self@),
            r matches Ok(request) ==> request@.is_valid(),
    {
        proof {
            use_type_invariant(&self);
        }
        match self.stage {
            Stage::RequestLine => Err(ParseRequestError::UnexpectedEof),
            Stage::Host { .. } => Err(ParseRequestError::MissingHost(None)),
            Stage::Fields { method, target, headers } => Ok(Request::new(method, target, headers)),
        }
    }
}

/// A line's characters; nothing for a line that could not be read.
pub open spec fn text_of<E>(line: Result<Seq<char>, E>) -> Seq<char> {
    match line {
        Ok(text) => text,
        Err(_) => Seq::empty(),
    }
}

/// Whether a line ends the header fields: it could not be read, or it is the
/// line that closes them.
pub open spec fn ends_request<E>(line: Result<Seq<char>, E>) -> bool {
    match line {
        Ok(text) => ends_fields(text),
        Err(_) => true,
    }
}

/// The place of the first line at or after `from` that ends the header
/// fields, or the number of lines if none does.
pub open spec fn fields_end<E>(lines: Seq<Result<Seq<char>, E>>, from: int) -> int
    decreases lines.len() - from,
{
    if from < 0 || from >= lines.len() {
        lines.len() as int
    } else if ends_request(lines[from]) {
        from
    } else {
        fields_end(lines, from + 1)
    }
}

/// The texts of the header lines after the `Host` field: those from the
/// third line of the input up to the line at `end`.
pub open spec fn field_texts<E>(lines: Seq<Result<Seq<char>, E>>, end: int) -> Seq<Seq<char>> {
    lines.subrange(2, end).map_values(|line: Result<Seq<char>, E>| text_of(line))
}

/// The header fields of a request whose `Host` field names `host` and whose
/// further header lines are `lines`: a later line overrides an earlier one.
pub open spec fn fields_of(host: Seq<char>, lines: Seq<Seq<char>>) -> Map<Seq<char>, Seq<char>>
    decreases lines.len(),
{
    if lines.len() == 0 {
        map![HOST@ => host]
    } else {
        with_field_line(fields_of(host, lines.drop_last()), lines.last())
    }
}

/// What parsing makes of a whole input.
///
/// The first line is the request line and the second the `Host` field. The
/// lines after them are header lines, up to the first that ends the fields
/// or to the end of the input; nothing after that line is looked at.
///
/// Parsing fails at the first line that is not as it should be: with the
/// error of a line that could not be read, with what the request line is
/// refused for, or with the line that stands in the place of the `Host`
/// field. Where the input ends before the request line or before the `Host`
/// field, that is the error.
pub open spec fn parse_outcome<E>(lines: Seq<Result<Seq<char>, E>>) -> Result<
    RequestView,
    ParseRequestErrorView<E>,
> {
    if lines.len() == 0 {
        Err(ParseRequestErrorView::UnexpectedEof)
    } else {
        match lines[0] {
            Err(e) => Err(ParseRequestErrorView::Io(e)),
            Ok(first) => match request_line::<E>(first) {
                Err(e) => Err(e),
                Ok((method, target)) => if lines.len() == 1 {
                    Err(ParseRequestErrorView::MissingHost(None))
                } else {
                    match lines[1] {
                        Err(e) => Err(ParseRequestErrorView::Io(e)),
                        Ok(second) => match host_line(second) {
                            None => Err(ParseRequestErrorView::MissingHost(Some(second))),
                            Some(host) => {
                                let end = fields_end(lines, 2);
                                if end < lines.len() && lines[end] is Err {
                                    Err(ParseRequestErrorView::Io(lines[end]->Err_0))
                                } else {
                                    Ok(
                                        assembled(
                                            method,
                                            target,
                                            fields_of(host, field_texts(lines, end)),
                                        ),
                                    )
                                }
                            },
                        },
                    }
                },
            },
        }
    }
}

/// What a parser in `state` makes of the lines from `from` on, fed one by
/// one, and of the end of the input after them.
pub open spec fn run<E>(state: ParserView, lines: Seq<Result<Seq<char>, E>>, from: int) -> Result<
    RequestView,
    ParseRequestErrorView<E>,
>
    decreases lines.len() - from,
{
    if from < 0 || from >= lines.len() {
        at_end(state)
    } else {
        match after_line(state, lines[from]) {
            ProgressView::More(next) => run(next, lines, from + 1),
            ProgressView::Done(r) => r,
        }
    }
}

/// The lines of an input by their views.
pub open spec fn lines_view<E>(lines: Seq<Result<String, E>>) -> Seq<Result<Seq<char>, E>> {
    lines.map_values(|line: Result<String, E>| line_view(line))
}

impl Request {
    /// Parses a request out of the lines of an input. A line that could not
    /// be read stands in the input as the error that came in its place.
    pub fn parse<E>(lines: Vec<Result<String, E>>) -> (r: Result<Request, ParseRequestError<E>>)
        ensures
            outcome_view(r) == parse_outcome(lines_view(lines@)),
            r matches Ok(request) ==> request@.is_valid(),
    {
        let ghost input = lines_view(lines@);
        let ghost all = lines@;
        let mut parser = RequestParser::new();
        proof {
            lemma_run_is_parse(input);
        }
        for line in it: lines
            invariant
                it.seq() == all,
                input == lines_view(all),
                run(parser@, input, it.index() as int) == parse_outcome(input),
        {
            assert(input[it.index() as int] == line_view(line));
            match parser.feed(line) {
                Progress::More(next) => {
                    parser = next;
                },
                Progress::Done(r) => {
                    return r;
                },
            }
        }
        parser.finish()
    }
}

/// Whether a parser that is fed `lines` still asks for more after the first `n`.
spec fn open_after<E>(lines: Seq<Result<Seq<char>, E>>, n: int) -> bool {
    &&& 0 <= n <= lines.len()
    &&& forall|j: int| 0 <= j < n ==> (#[trigger] lines[j]) is Ok
    &&& n >= 1 ==> request_line::<E>(text_of(lines[0])) is Ok
    &&& n >= 2 ==> host_line(text_of(lines[1])) is Some
    &&& forall|j: int| 2 <= j < n ==> !ends_request(#[trigger] lines[j])
}

/// What a parser that still asks for more waits for after the first `n` lines.
spec fn state_after<E>(lines: Seq<Result<Seq<char>, E>>, n: int) -> ParserView {
    if n <= 0 {
        ParserView::RequestLine
    } else {
        let (method, target) = request_line::<E>(text_of(lines[0]))->Ok_0;
        if n == 1 {
            ParserView::Host { method, target }
        } else {
            ParserView::Fields {
                method,
                target,
                headers: fields_of(host_line(text_of(lines[1]))->Some_0, field_texts(lines, n)),
            }
        }
    }
}

/// Header lines that do not end the fields do not move the place of their end.
proof fn lemma_fields_end_skips<E>(lines: Seq<Result<Seq<char>, E>>, from: int, to: int)
    requires
        0 <= from <= to <= lines.len(),
        forall|j: int| from <= j < to ==> !ends_request(#[trigger] lines[j]),
    ensures
        fields_end(lines, from) == fields_end(lines, to),
    decreases to - from,
{
    if from < to {
        lemma_fields_end_skips(lines, from + 1, to);
    }
}

/// One more header line adds its field to those read before it.
proof fn lemma_field_texts_grow<E>(lines: Seq<Result<Seq<char>, E>>, n: int)
    requires
        2 <= n < lines.len(),
    ensures
        field_texts(lines, n + 1) == field_texts(lines, n).push(text_of(lines[n])),
{
    assert(field_texts(lines, n + 1) =~= field_texts(lines, n).push(text_of(lines[n])));
}

/// A parser that still asks for more after `n` lines ends, on the rest of
/// the input, where parsing the whole input ends.
proof fn lemma_run_from<E>(lines: Seq<Result<Seq<char>, E>>, n: int)
    requires
        open_after(lines, n),
    ensures
        run(state_after(lines, n), lines, n) == parse_outcome(lines),
    decreases lines.len() - n,
{
    let state = state_after(lines, n);
    if n >= 2 {
        lemma_fields_end_skips(lines, 2, n);
    }
    if n == lines.len() {
        assert(run(state, lines, n) == at_end::<E>(state));
    } else {
        let line = lines[n];
        match after_line(state, line) {
            ProgressView::More(next) => {
                assert(line is Ok);
                if n >= 2 {
                    lemma_field_texts_grow(lines, n);
                    let texts = field_texts(lines, n + 1);
                    assert(texts.drop_last() == field_texts(lines, n));
                    assert(texts.last() == text_of(line));
                } else if n == 1 {
                    assert(field_texts(lines, 2).len() == 0);
                }
                assert(next == state_after(lines, n + 1));
                assert(open_after(lines, n + 1));
                lemma_run_from(lines, n + 1);
            },
            ProgressView::Done(r) => {
                if n >= 2 {
                    assert(ends_request(line));
                    assert(fields_end(lines, n) == n);
                }
                assert(r == parse_outcome(lines));
            },
        }
    }
}

/// Feeding the lines one by one, and then the end of the input, gives what
/// parsing the whole input gives.
pub proof fn lemma_run_is_parse<E>(lines: Seq<Result<Seq<char>, E>>)
    ensures
        run(ParserView::RequestLine, lines, 0) == parse_outcome(lines),
{
    lemma_run_from(lines, 0);
}


/// The `Host` field stays among the header fields, whatever lines follow it.
proof fn lemma_fields_hold_host(host: Seq<char>, lines: Seq<Seq<char>>)
    ensures
        fields_of(host, lines).contains_key(HOST@),
    decreases lines.len(),
{
    if lines.len() > 0 {
        lemma_fields_hold_host(host, lines.drop_last());
    }
}

/// Every request that parsing gives is valid: its target is not empty, its
/// protocol is the supported one, and it has a `Host` field.
pub proof fn lemma_parsed_request_is_valid<E>(lines: Seq<Result<Seq<char>, E>>)
    ensures
        parse_outcome(lines) matches Ok(request) ==> request.is_valid(),
{
    if parse_outcome(lines) is Ok {
        let host = host_line(text_of(lines[1]))->Some_0;
        lemma_fields_hold_host(host, field_texts(lines, fields_end(lines, 2)));
    }
}

/// Parsing is a function of the characters of the lines and of the errors
/// among them: two inputs that agree in these give the same request, or
/// the same error.
pub proof fn lemma_same_input_same_outcome<E>(
    first: Seq<Result<String, E>>,
    second: Seq<Result<String, E>>,
)
    requires
        first.len() == second.len(),
        forall|i: int| 0 <= i < first.len() ==> line_view(first[i]) == line_view(second[i]),
    ensures
        parse_outcome(lines_view(first)) == parse_outcome(lines_view(second)),
{
    assert(lines_view(first) =~= lines_view(second));
}

/// A parser that holds valid parts goes on holding valid parts, and the
/// request it ends in is valid.
pub proof fn lemma_parser_keeps_valid_parts<E>(state: ParserView, line: Result<Seq<char>, E>)
    requires
        state.wf(),
    ensures
        match after_line(state, line) {
            ProgressView::More(next) => next.wf(),
            ProgressView::Done(Ok(request)) => request.is_valid(),
            ProgressView::Done(Err(_)) => true,
        },
        at_end::<E>(state) matches Ok(request) ==> request.is_valid(),
{
}

/// A header line is kept as a field, under its trimmed name and with its
/// trimmed value, unless a later header line has the same name.
pub proof fn lemma_field_is_kept(host: Seq<char>, lines: Seq<Seq<char>>, at: int)
    requires
        0 <= at < lines.len(),
        field_line(lines[at]) is Some,
        forall|later: int|
            at < later < lines.len() ==> !(field_line(#[trigger] lines[later]) matches Some(field)
                && field.0 == field_line(lines[at])->Some_0.0),
    ensures
        fields_of(host, lines).contains_key(field_line(lines[at])->Some_0.0),
        fields_of(host, lines)[field_line(lines[at])->Some_0.0] == field_line(lines[at])->Some_0.1,
    decreases lines.len(),
{
    if at < lines.len() - 1 {
        let earlier = lines.drop_last();
        assert(earlier[at] == lines[at]);
        assert forall|later: int| at < later < earlier.len() implies !(field_line(
            #[trigger] earlier[later],
        ) matches Some(field) && field.0 == field_line(earlier[at])->Some_0.0) by {
            assert(earlier[later] == lines[later]);
        }
        lemma_field_is_kept(host, earlier, at);
        assert(lines[lines.len() - 1] == lines.last());
    }
}

/// Every header line that holds a field puts its name among the header
/// fields of the request.
pub proof fn lemma_field_names_are_present(host: Seq<char>, lines: Seq<Seq<char>>, at: int)
    requires
        0 <= at < lines.len(),
        field_line(lines[at]) is Some,
    ensures
        fields_of(host, lines).contains_key(field_line(lines[at])->Some_0.0),
    decreases lines.len(),
{
    if at < lines.len() - 1 {
        let earlier = lines.drop_last();
        assert(earlier[at] == lines[at]);
        lemma_field_names_are_present(host, earlier, at);
    }
}

/// A header line without a colon is passed over: the parser waits for the
/// next line as it waited for this one.
pub proof fn lemma_line_without_colon_is_skipped<E>(state: ParserView, line: Seq<char>)
    requires
        state is Fields,
        !line.contains(':'),
        !ends_fields(line),
    ensures
        after_line::<E>(state, Ok(line)) == ProgressView::<E>::More(state),
{
    line.index_of_first_ensures(':');
}


/// The header fields end at or after the line from which they are looked
/// for, at a line that ends them or at the end of the input, and no line
/// before that place ends them.
pub proof fn lemma_fields_end_is_first<E>(lines: Seq<Result<Seq<char>, E>>, from: int)
    requires
        0 <= from <= lines.len(),
    ensures
        from <= fields_end(lines, from) <= lines.len(),
        fields_end(lines, from) < lines.len() ==> ends_request(lines[fields_end(lines, from)]),
        forall|j: int| from <= j < fields_end(lines, from) ==> !ends_request(#[trigger] lines[j]),
    decreases lines.len() - from,
{
    if from < lines.len() && !ends_request(lines[from]) {
        lemma_fields_end_is_first(lines, from + 1);
    }
}

/// In a request that was parsed, every header line that holds a field has
/// its trimmed name among the header fields.
pub proof fn lemma_header_line_is_present<E>(lines: Seq<Result<Seq<char>, E>>, at: int)
    requires
        parse_outcome(lines) is Ok,
        2 <= at < fields_end(lines, 2),
        field_line(text_of(lines[at])) is Some,
    ensures
        parse_outcome(lines)->Ok_0.headers.contains_key(
            field_line(text_of(lines[at]))->Some_0.0,
        ),
{
    lemma_fields_end_is_first(lines, 2);
    let host = host_line(text_of(lines[1]))->Some_0;
    let texts = field_texts(lines, fields_end(lines, 2));
    assert(texts[at - 2] == text_of(lines[at]));
    lemma_field_names_are_present(host, texts, at - 2);
}

/// In a request that was parsed, a header line that holds a field gives the
/// field its trimmed value, unless a later header line has the same name.
pub proof fn lemma_header_line_is_kept<E>(lines: Seq<Result<Seq<char>, E>>, at: int)
    requires
        parse_outcome(lines) is Ok,
        2 <= at < fields_end(lines, 2),
        field_line(text_of(lines[at])) is Some,
        forall|later: int|
            at < later < fields_end(lines, 2) ==> !(field_line(
                text_of(#[trigger] lines[later]),
            ) matches Some(field) && field.0 == field_line(text_of(lines[at]))->Some_0.0),
    ensures
        parse_outcome(lines)->Ok_0.headers.contains_key(
            field_line(text_of(lines[at]))->Some_0.0,
        ),
        parse_outcome(lines)->Ok_0.headers[field_line(text_of(lines[at]))->Some_0.0] == field_line(
            text_of(lines[at]),
        )->Some_0.1,
{
    lemma_fields_end_is_first(lines, 2);
    let host = host_line(text_of(lines[1]))->Some_0;
    let texts = field_texts(lines, fields_end(lines, 2));
    assert(texts[at - 2] == text_of(lines[at]));
    assert forall|later: int| at - 2 < later < texts.len() implies !(field_line(
        #[trigger] texts[later],
    ) matches Some(field) && field.0 == field_line(texts[at - 2])->Some_0.0) by {
        assert(texts[later] == text_of(lines[later + 2]));
    }
    lemma_field_is_kept(host, texts, at - 2);
}

/// What a parser makes of the lines from some place on depends on those
/// lines alone.
proof fn lemma_run_reads_the_rest<E>(
    state: ParserView,
    a: Seq<Result<Seq<char>, E>>,
    i: int,
    b: Seq<Result<Seq<char>, E>>,
    k: int,
)
    requires
        0 <= i <= a.len(),
        0 <= k <= b.len(),
        a.skip(i) == b.skip(k),
    ensures
        run(state, a, i) == run(state, b, k),
    decreases a.len() - i,
{
    assert(a.len() - i == b.len() - k) by {
        assert(a.skip(i).len() == b.skip(k).len());
    }
    if i < a.len() {
        assert(a[i] == b[k]) by {
            assert(a.skip(i)[0] == a[i]);
            assert(b.skip(k)[0] == b[k]);
        }
        assert(a.skip(i + 1) == b.skip(k + 1)) by {
            assert(a.skip(i + 1) == a.skip(i).skip(1));
            assert(b.skip(k + 1) == b.skip(k).skip(1));
        }
        match after_line(state, a[i]) {
            ProgressView::More(next) => lemma_run_reads_the_rest(next, a, i + 1, b, k + 1),
            ProgressView::Done(_) => {},
        }
    }
}

/// A line without a colon among the header lines changes nothing: the
/// input parses to the same request with it as without it.
pub proof fn lemma_colonless_header_line_changes_nothing<E>(
    lines: Seq<Result<Seq<char>, E>>,
    at: int,
    line: Seq<char>,
)
    requires
        parse_outcome(lines) is Ok,
        2 <= at <= fields_end(lines, 2),
        !line.contains(':'),
        !ends_fields(line),
    ensures
        parse_outcome(lines.insert(at, Ok(line))) == parse_outcome(lines),
{
    let longer = lines.insert(at, Ok(line));
    lemma_fields_end_is_first(lines, 2);
    assert(open_after(lines, at));
    assert(open_after(longer, at)) by {
        assert(forall|j: int| 0 <= j < at ==> longer[j] == lines[j]);
    }
    assert(field_texts(longer, at) == field_texts(lines, at)) by {
        assert(longer.subrange(2, at) == lines.subrange(2, at));
    }
    let state = state_after(lines, at);
    assert(state_after(longer, at) == state) by {
        assert(longer[0] == lines[0]);
        assert(longer[1] == lines[1]);
    }
    lemma_run_from(lines, at);
    lemma_run_from(longer, at);
    assert(longer[at] == Ok::<Seq<char>, E>(line));
    lemma_line_without_colon_is_skipped::<E>(state, line);
    assert(run(state, longer, at) == run(state, longer, at + 1));
    assert(longer.skip(at + 1) == lines.skip(at));
    lemma_run_reads_the_rest(state, longer, at + 1, lines, at);
}

/// Nothing after the line that ends the header fields is looked at.
pub proof fn lemma_lines_after_the_end_are_ignored<E>(
    lines: Seq<Result<Seq<char>, E>>,
    more: Seq<Result<Seq<char>, E>>,
)
    requires
        lines.len() >= 2,
        fields_end(lines, 2) < lines.len(),
    ensures
        parse_outcome(lines + more) == parse_outcome(lines),
{
    let longer = lines + more;
    let end = fields_end(lines, 2);
    lemma_fields_end_is_first(lines, 2);
    assert(longer[0] == lines[0]);
    assert(longer[1] == lines[1]);
    assert forall|j: int| 2 <= j < end implies !ends_request(#[trigger] longer[j]) by {
        assert(longer[j] == lines[j]);
    }
    lemma_fields_end_skips(longer, 2, end);
    assert(longer[end] == lines[end]);
    assert(fields_end(longer, end) == end);
    assert(longer.subrange(2, end) == lines.subrange(2, end));
}

} // verus!
