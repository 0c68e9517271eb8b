//! Requests and the parser that reads one from the lines of a connection.

use crate::http_method::{law_method_text_round_trip, method_or_unknown, method_text, HttpMethod};
use crate::text::{
    find_char, is_whitespace, law_tokens_of_spaced_words, lemma_find_char, lemma_pieces_of_rest,
    spaced, split_char, split_on, split_whitespace, tokens,
};
use vstd::prelude::*;
use vstd::string::StringExecFns;

verus! {

/// An HTTP request: method, path, headers in the order of the wire (a name
/// may occur more than once) and a body, which is always empty.
#[derive(Debug, PartialEq, Eq)]
pub struct Request {
    pub method: HttpMethod,
    pub path: String,
    pub headers: Vec<(String, String)>,
    pub body: String,
}

/// What a request holds, as plain text.
pub struct RequestView {
    pub method: HttpMethod,
    pub path: Seq<char>,
    pub headers: Seq<(Seq<char>, Seq<char>)>,
    pub body: Seq<char>,
}

impl View for Request {
    type V = RequestView;

    open spec fn view(&self) -> RequestView {
        RequestView {
            method: self.method,
            path: self.path@,
            headers: self.headers.deep_view(),
            body: self.body@,
        }
    }
}

/// Why the lines of a connection are no request.
#[derive(Clone, Copy, PartialEq, Eq, Debug, Structural)]
pub enum ParseError {
    /// There is no first line, or it holds fewer than two words.
    MalformedRequestLine,
    /// A header line holds no colon.
    MalformedHeader,
}

/// The index of the line that ends the headers: the first empty line at or
/// after `i`, or the number of lines where there is none.
pub open spec fn headers_end(lines: Seq<Seq<char>>, i: int) -> int
    decreases lines.len() - i,
{
    if 0 <= i < lines.len() && lines[i].len() > 0 {
        headers_end(lines, i + 1)
    } else {
        i
    }
}

/// Name and value of a header line, if it is one. The name is what stands
/// before the first colon. The value is what stands between the first colon
/// and the second, or the end of the line where there is no second: it
/// keeps the blanks that follow the colon and loses what follows a second
/// colon.
pub open spec fn parse_header(line: Seq<char>) -> Option<(Seq<char>, Seq<char>)> {
    let parts = split_on(line, ':');
    if parts.len() < 2 {
        None
    } else {
        Some((parts[0], parts[1]))
    }
}

/// The request that a sequence of lines denotes.
///
/// The first line is the request line: its first word names the method
/// (`Unknown` for a word that names none), its second word is the path and
/// further words are not read. The lines after it, up to the first empty line
/// or the end, are the headers. No line after the empty line is read.
pub open spec fn parse_request(lines: Seq<Seq<char>>) -> Result<RequestView, ParseError> {
    if lines.len() == 0 || tokens(lines[0]).len() < 2 {
        Err(ParseError::MalformedRequestLine)
    } else if exists|i: int| 1 <= i < headers_end(lines, 1) && parse_header(lines[i]) is None {
        Err(ParseError::MalformedHeader)
    } else {
        Ok(
            RequestView {
                method: method_or_unknown(tokens(lines[0])[0]),
                path: tokens(lines[0])[1],
                headers: Seq::new(
                    (headers_end(lines, 1) - 1) as nat,
                    |i: int| parse_header(lines[i + 1])->0,
                ),
                body: Seq::empty(),
            },
        )
    }
}

/// Reads a header line: see `parse_header`.
pub fn read_header(line: &str) -> (header: Option<(String, String)>)
    ensures
        header.deep_view() == parse_header(line@),
{
    let parts = split_char(line, ':');
    if parts.len() < 2 {
        None
    } else {
        Some((parts[0].clone(), parts[1].clone()))
    }
}

impl Request {
    /// Reads a request from the lines of a connection: see `parse_request`.
    /// Fails with `MalformedRequestLine` or `MalformedHeader`, the request
    /// line being looked at first and the headers in their order.
    pub fn new(raw_request: &Vec<String>) -> (parsed: Result<Request, ParseError>)
        ensures
            match parsed {
                Ok(request) => parse_request(raw_request.deep_view()) == Ok::<
                    RequestView,
                    ParseError,
                >(request@),
                Err(error) => parse_request(raw_request.deep_view()) == Err::<
                    RequestView,
                    ParseError,
                >(error),
            },
    {
        let ghost lines = raw_request.deep_view();
        if raw_request.len() == 0 {
            return Err(ParseError::MalformedRequestLine);
        }
        assert(lines[0] == raw_request[0]@);
        let words = split_whitespace(raw_request[0].as_str());
        if words.len() < 2 {
            return Err(ParseError::MalformedRequestLine);
        }
        let method = HttpMethod::from_token(words[0].as_str());
        let path = words[1].clone();
        assert(words.deep_view()[0] == words[0]@ && words.deep_view()[1] == words[1]@);
        let mut headers: Vec<(String, String)> = Vec::new();
        let mut i: usize = 1;
        while i < raw_request.len() && !raw_request[i].as_str().is_empty()
            invariant
                lines == raw_request.deep_view(),
                1 <= i <= raw_request.len(),
                tokens(lines[0]).len() >= 2,
                headers_end(lines, 1) == headers_end(lines, i as int),
                headers.len() == i - 1,
                forall|k: int| 1 <= k < i ==> parse_header(#[trigger] lines[k]) is Some,
                forall|k: int|
                    0 <= k < i - 1 ==> #[trigger] headers.deep_view()[k] == parse_header(
                        lines[k + 1],
                    )->0,
            decreases raw_request.len() - i,
        {
            assert(lines[i as int] == raw_request[i as int]@);
            match read_header(raw_request[i].as_str()) {
                None => {
                    assert(parse_header(lines[i as int]) is None);
                    assert(1 <= i < headers_end(lines, 1)) by {
                        lemma_headers_end(lines, 1, i as int);
                    }
                    return Err(ParseError::MalformedHeader);
                },
                Some(header) => {
                    let ghost before = headers.deep_view();
                    headers.push(header);
                    assert(headers.deep_view() == before.push(header.deep_view()));
                },
            }
            i = i + 1;
        }
        proof {
            assert(headers_end(lines, 1) == i) by {
                if i < raw_request.len() {
                    assert(lines[i as int] == raw_request[i as int]@);
                }
            }
            assert(headers.deep_view() == Seq::new(
                (headers_end(lines, 1) - 1) as nat,
                |k: int| parse_header(lines[k + 1])->0,
            ));
        }
        Ok(Request { method, path, headers, body: String::new() })
    }

    /// Method and path, a blank between them.
    pub fn to_string(&self) -> (text: String)
        ensures
            text@ == method_text(self.method) + " "@ + self.path@,
    {
        let mut text = self.method.to_string();
        text.append(" ");
        text.append(self.path.as_str());
        text
    }
}

/// While the lines from `from` on are not empty, the headers go on.
pub proof fn lemma_headers_end(lines: Seq<Seq<char>>, from: int, i: int)
    requires
        0 <= from <= i < lines.len(),
        headers_end(lines, from) == headers_end(lines, i),
        lines[i].len() > 0,
    ensures
        i < headers_end(lines, from),
    decreases lines.len() - i,
{
    assert(headers_end(lines, i) == headers_end(lines, i + 1));
    lemma_headers_end_bounds(lines, i + 1);
}

/// `headers_end` stays within the lines, passes over no empty line and stops
/// at an empty line or at the end.
pub proof fn lemma_headers_end_bounds(lines: Seq<Seq<char>>, i: int)
    requires
        0 <= i <= lines.len(),
    ensures
        i <= headers_end(lines, i) <= lines.len(),
        forall|k: int| i <= k < headers_end(lines, i) ==> (#[trigger] lines[k]).len() > 0,
        headers_end(lines, i) < lines.len() ==> lines[headers_end(lines, i)].len() == 0,
    decreases lines.len() - i,
{
    if i < lines.len() && lines[i].len() > 0 {
        lemma_headers_end_bounds(lines, i + 1);
    }
}

/// A request line as a client writes it: method, path and version, a blank
/// between them.
pub open spec fn request_line(method: HttpMethod, path: Seq<char>, version: Seq<char>) -> Seq<
    char,
> {
    method_text(method) + seq![' '] + path + seq![' '] + version
}

/// A header line: name, colon, value.
pub open spec fn header_text(header: (Seq<char>, Seq<char>)) -> Seq<char> {
    header.0 + seq![':'] + header.1
}

/// Whether a text is a word: not empty and without whitespace.
pub open spec fn is_word(text: Seq<char>) -> bool {
    text.len() > 0 && forall|k: int| 0 <= k < text.len() ==> !is_whitespace(#[trigger] text[k])
}

/// Whether a text holds no colon.
pub open spec fn has_no_colon(text: Seq<char>) -> bool {
    forall|k: int| 0 <= k < text.len() ==> #[trigger] text[k] != ':'
}

/// The texts of the four methods are words.
proof fn lemma_method_text_is_word(method: HttpMethod)
    requires
        method != HttpMethod::Unknown,
    ensures
        is_word(method_text(method)),
{
    reveal_strlit("GET");
    reveal_strlit("POST");
    reveal_strlit("PUT");
    reveal_strlit("DELETE");
    let text = method_text(method);
    assert forall|k: int| 0 <= k < text.len() implies !is_whitespace(#[trigger] text[k]) by {
        if k == 0 {
        } else if k == 1 {
        } else if k == 2 {
        } else if k == 3 {
        } else if k == 4 {
        } else if k == 5 {
        }
    }
}

/// A header line whose name holds no colon is read as its name and as what
/// follows the first colon, up to the second colon or to the end: a value
/// without a colon is read back whole.
pub proof fn law_header_is_read_back(name: Seq<char>, value: Seq<char>)
    requires
        has_no_colon(name),
    ensures
        parse_header(header_text((name, value))) == Some(
            (name, value.subrange(0, find_char(value, ':', 0))),
        ),
        has_no_colon(value) ==> parse_header(header_text((name, value))) == Some((name, value)),
{
    let line = header_text((name, value));
    let colon = name.len() as int;
    assert(line[colon] == ':');
    assert forall|k: int| 0 <= k < colon implies #[trigger] line[k] != ':' by {
        assert(line[k] == name[k]);
    }
    lemma_find_char(line, ':', 0);
    assert(find_char(line, ':', 0) == colon) by {
        if find_char(line, ':', 0) < colon {
            assert(line[find_char(line, ':', 0)] != ':');
        }
    }
    assert(line.subrange(0, colon) == name);
    assert(line.skip(colon + 1) == value);
    lemma_pieces_of_rest(line, ':', colon + 1, colon + 1);
    assert(split_on(line, ':') == seq![name] + split_on(value, ':'));
    lemma_find_char(value, ':', 0);
    let end = find_char(value, ':', 0);
    assert(split_on(value, ':')[0] == value.subrange(0, end));
    if has_no_colon(value) {
        if end < value.len() {
            assert(value[end] != ':');
        }
        assert(value.subrange(0, end) == value);
    }
}

/// The parser reads back what a client writes. The lines are the request
/// line of a method other than `Unknown`, of a path and of a version that
/// are words; a line for each header, whose name and value hold no colon; an
/// empty line; and whatever follows it. They are read as the request of that
/// method, path and headers, with an empty body.
pub proof fn law_written_request_is_read_back(
    method: HttpMethod,
    path: Seq<char>,
    version: Seq<char>,
    headers: Seq<(Seq<char>, Seq<char>)>,
    rest: Seq<Seq<char>>,
)
    requires
        method != HttpMethod::Unknown,
        is_word(path),
        is_word(version),
        forall|i: int|
            0 <= i < headers.len() ==> {
                &&& has_no_colon((#[trigger] headers[i]).0)
                &&& has_no_colon(headers[i].1)
            },
    ensures
        parse_request(
            seq![request_line(method, path, version)] + headers.map_values(
                |header: (Seq<char>, Seq<char>)| header_text(header),
            ) + seq![Seq::<char>::empty()] + rest,
        ) == Ok::<RequestView, ParseError>(
            RequestView { method, path, headers, body: Seq::empty() },
        ),
{
    let first = request_line(method, path, version);
    let header_lines = headers.map_values(|header: (Seq<char>, Seq<char>)| header_text(header));
    let lines = seq![first] + header_lines + seq![Seq::<char>::empty()] + rest;
    let count = headers.len() as int;

    // The request line.
    let words = seq![method_text(method), path, version];
    let gaps = seq![Seq::<char>::empty(), seq![' '], seq![' '], Seq::<char>::empty()];
    lemma_method_text_is_word(method);
    assert(spaced(gaps, words) == first) by {
        let gaps1 = gaps.drop_first();
        let words1 = words.drop_first();
        let gaps2 = gaps1.drop_first();
        let words2 = words1.drop_first();
        let gaps3 = gaps2.drop_first();
        let words3 = words2.drop_first();
        assert(words3.len() == 0);
        assert(gaps3[0] == Seq::<char>::empty());
        assert(spaced(gaps3, words3) == Seq::<char>::empty());
        assert(spaced(gaps2, words2) == seq![' '] + version + Seq::<char>::empty());
        assert(spaced(gaps1, words1) == seq![' '] + path + spaced(gaps2, words2));
        assert(spaced(gaps, words) == Seq::<char>::empty() + method_text(method) + spaced(
            gaps1,
            words1,
        ));
    }
    assert forall|n: int, k: int| 0 <= n < gaps.len() && 0 <= k < gaps[n].len() implies
        is_whitespace(#[trigger] gaps[n][k]) by {
        if n == 1 {
            assert(gaps[n][k] == ' ');
        } else if n == 2 {
            assert(gaps[n][k] == ' ');
        }
    }
    assert forall|n: int| 0 <= n < words.len() implies (#[trigger] words[n]).len() > 0 by {
        if n == 0 {
        } else if n == 1 {
        } else {
        }
    }
    assert forall|n: int, k: int| 0 <= n < words.len() && 0 <= k < words[n].len() implies
        !is_whitespace(#[trigger] words[n][k]) by {
        if n == 0 {
            assert(words[n] == method_text(method));
        } else if n == 1 {
            assert(words[n] == path);
        } else {
            assert(words[n] == version);
        }
    }
    law_tokens_of_spaced_words(gaps, words);
    assert(lines[0] == first);
    assert(tokens(lines[0]) == words);
    law_method_text_round_trip(method);

    // The header lines.
    assert forall|i: int| 1 <= i <= count implies (#[trigger] lines[i]).len() > 0
        && parse_header(lines[i]) == Some(headers[i - 1]) by {
        assert(lines[i] == header_text(headers[i - 1]));
        law_header_is_read_back(headers[i - 1].0, headers[i - 1].1);
    }
    assert(lines[count + 1].len() == 0);
    lemma_headers_end_is(lines, 1, count + 1);
    assert(headers =~= Seq::new(
        (headers_end(lines, 1) - 1) as nat,
        |i: int| parse_header(lines[i + 1])->0,
    ));
}

/// The headers end at the first empty line: at `end`, if the lines from
/// `from` up to `end` are not empty and the line at `end` is.
pub proof fn lemma_headers_end_is(lines: Seq<Seq<char>>, from: int, end: int)
    requires
        0 <= from <= end < lines.len(),
        forall|i: int| from <= i < end ==> (#[trigger] lines[i]).len() > 0,
        lines[end].len() == 0,
    ensures
        headers_end(lines, from) == end,
    decreases end - from,
{
    if from < end {
        lemma_headers_end_is(lines, from + 1, end);
    }
}

} // verus!
