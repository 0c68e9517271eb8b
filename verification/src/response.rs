//! Responses and their form on the wire.

use crate::http_status::{status_text, HttpStatus};
use crate::text::find_char;
use vstd::prelude::*;
use vstd::string::StringExecFns;

verus! {

/// An HTTP response: a status, headers in the order in which they are sent,
/// and a body.
#[derive(Debug, PartialEq, Eq)]
pub struct Response {
    pub headers: Vec<(String, String)>,
    pub status: HttpStatus,
    pub body: String,
}

/// What a response holds, as plain text.
pub struct ResponseView {
    pub status: HttpStatus,
    pub headers: Seq<(Seq<char>, Seq<char>)>,
    pub body: Seq<char>,
}

impl View for Response {
    type V = ResponseView;

    open spec fn view(&self) -> ResponseView {
        ResponseView {
            status: self.status,
            headers: self.headers.deep_view(),
            body: self.body@,
        }
    }
}

/// One header on the wire: name, colon, space, value, line end.
pub open spec fn header_line(header: (Seq<char>, Seq<char>)) -> Seq<char> {
    header.0 + ": "@ + header.1 + "\r\n"@
}

/// The headers on the wire: one line for each, in their order.
pub open spec fn header_lines(headers: Seq<(Seq<char>, Seq<char>)>) -> Seq<char>
    decreases headers.len(),
{
    if headers.len() == 0 {
        Seq::empty()
    } else {
        header_lines(headers.drop_last()) + header_line(headers.last())
    }
}

/// The status line of a response, with its line end.
pub open spec fn status_line(status: HttpStatus) -> Seq<char> {
    "HTTP/1.1 "@ + status_text(status) + "\r\n"@
}

/// A response on the wire: the status line, the header lines, an empty line
/// and the body as it is. No header is added and the body is not framed.
pub open spec fn wire_text(response: ResponseView) -> Seq<char> {
    status_line(response.status) + header_lines(response.headers) + "\r\n"@ + response.body
}

impl Response {
    /// A response of the given status, body and headers.
    pub fn new(status: HttpStatus, body: String, headers: Vec<(String, String)>) -> (response:
        Response)
        ensures
            response.status == status,
            response.body == body,
            response.headers == headers,
    {
        Response { headers, status, body }
    }

    /// The response as it is sent: `wire_text` of what it holds.
    pub fn to_string(&self) -> (text: String)
        ensures
            text@ == wire_text(self@),
    {
        let mut text = "HTTP/1.1 ".to_owned();
        let status = self.status.to_string();
        text.append(status.as_str());
        text.append("\r\n");
        let mut i: usize = 0;
        while i < self.headers.len()
            invariant
                0 <= i <= self.headers.len(),
                text@ == status_line(self.status) + header_lines(self@.headers.take(i as int)),
            decreases self.headers.len() - i,
        {
            let ghost sent = self@.headers.take(i as int);
            let ghost before = text@;
            let header = &self.headers[i];
            text.append(header.0.as_str());
            text.append(": ");
            text.append(header.1.as_str());
            text.append("\r\n");
            proof {
                let now = self@.headers.take(i + 1);
                assert(now.drop_last() == sent);
                assert(now.last() == (header.0@, header.1@));
                assert(text@ == before + header_line(now.last()));
            }
            i = i + 1;
        }
        assert(self@.headers.take(i as int) == self@.headers);
        text.append("\r\n");
        text.append(self.body.as_str());
        text
    }
}

/// Whether a text can stand within a line: it holds no carriage return and
/// no line feed.
pub open spec fn is_plain(text: Seq<char>) -> bool {
    forall|k: int| 0 <= k < text.len() ==> #[trigger] text[k] != '\r' && text[k] != '\n'
}

/// Whether a header can be read back from the wire: its name and value are
/// plain and the name holds no colon.
pub open spec fn is_readable_header(header: (Seq<char>, Seq<char>)) -> bool {
    &&& is_plain(header.0)
    &&& is_plain(header.1)
    &&& forall|k: int| 0 <= k < header.0.len() ==> #[trigger] header.0[k] != ':'
}

/// Whether headers can be read back from the wire: each of them can.
pub open spec fn are_readable(headers: Seq<(Seq<char>, Seq<char>)>) -> bool {
    forall|i: int| 0 <= i < headers.len() ==> is_readable_header(#[trigger] headers[i])
}

/// The status that a status line names, the line end taken away.
pub open spec fn read_status(line: Seq<char>) -> Option<HttpStatus> {
    if line == "HTTP/1.1 "@ + status_text(HttpStatus::OK) {
        Some(HttpStatus::OK)
    } else if line == "HTTP/1.1 "@ + status_text(HttpStatus::NotFound) {
        Some(HttpStatus::NotFound)
    } else if line == "HTTP/1.1 "@ + status_text(HttpStatus::InternalServerError) {
        Some(HttpStatus::InternalServerError)
    } else {
        None
    }
}

/// Name and value of a header line, the line end taken away: what stands
/// before the first colon, and what follows the blank behind it.
pub open spec fn read_header_line(line: Seq<char>) -> Option<(Seq<char>, Seq<char>)> {
    let colon = find_char(line, ':', 0);
    if 0 <= colon && colon + 2 <= line.len() && line[colon + 1] == ' ' {
        Some((line.subrange(0, colon), line.subrange(colon + 2, line.len() as int)))
    } else {
        None
    }
}

/// The headers that stand in `text` from index `i` on, up to the empty line,
/// and the index at which the body begins.
pub open spec fn read_headers(text: Seq<char>, i: int) -> Option<
    (Seq<(Seq<char>, Seq<char>)>, int),
>
    decreases text.len() - i,
{
    let end = find_char(text, '\r', i);
    if !(0 <= i <= end && end + 2 <= text.len() && text[end + 1] == '\n') {
        None
    } else if end == i {
        Some((Seq::empty(), i + 2))
    } else {
        match (read_header_line(text.subrange(i, end)), read_headers(text, end + 2)) {
            (Some(header), Some((headers, body))) => Some((seq![header] + headers, body)),
            _ => None,
        }
    }
}

/// The response that a text on the wire denotes: a reader of what
/// `wire_text` writes.
pub open spec fn read_response(text: Seq<char>) -> Option<ResponseView> {
    let end = find_char(text, '\r', 0);
    if !(0 <= end && end + 2 <= text.len() && text[end + 1] == '\n') {
        None
    } else {
        match (read_status(text.subrange(0, end)), read_headers(text, end + 2)) {
            (Some(status), Some((headers, body))) => Some(
                ResponseView { status, headers, body: text.subrange(body, text.len() as int) },
            ),
            _ => None,
        }
    }
}

/// The header lines begin with the line of the first header.
proof fn lemma_header_lines_first(headers: Seq<(Seq<char>, Seq<char>)>)
    requires
        headers.len() > 0,
    ensures
        header_lines(headers) == header_line(headers[0]) + header_lines(headers.drop_first()),
    decreases headers.len(),
{
    if headers.len() == 1 {
        assert(headers.drop_last().len() == 0);
        assert(headers.drop_first().len() == 0);
        assert(header_lines(headers.drop_last()) == Seq::<char>::empty());
        assert(header_lines(headers.drop_first()) == Seq::<char>::empty());
        assert(header_lines(headers) == Seq::<char>::empty() + header_line(headers[0]));
        assert(header_lines(headers) == header_line(headers[0]) + Seq::<char>::empty());
    } else {
        lemma_header_lines_first(headers.drop_last());
        assert(headers.drop_last().drop_first() == headers.drop_first().drop_last());
        assert(headers.drop_last()[0] == headers[0]);
        assert(headers.drop_first().last() == headers.last());
        assert(header_lines(headers) == (header_line(headers[0]) + header_lines(
            headers.drop_first().drop_last(),
        )) + header_line(headers.last()));
        assert(header_lines(headers.drop_first()) == header_lines(
            headers.drop_first().drop_last(),
        ) + header_line(headers.last()));
    }
}

/// The first `c` of a text stands at `at`, if none stands before `at` and
/// one stands there.
proof fn lemma_find_char_at(text: Seq<char>, c: char, from: int, at: int)
    requires
        0 <= from <= at < text.len(),
        forall|k: int| from <= k < at ==> #[trigger] text[k] != c,
        text[at] == c,
    ensures
        find_char(text, c, from) == at,
    decreases at - from,
{
    if from < at {
        lemma_find_char_at(text, c, from + 1, at);
    }
}

/// A header line is read back, if the name holds no colon.
proof fn lemma_read_header_line(name: Seq<char>, value: Seq<char>)
    requires
        forall|k: int| 0 <= k < name.len() ==> #[trigger] name[k] != ':',
    ensures
        read_header_line(name + ": "@ + value) == Some((name, value)),
{
    reveal_strlit(": ");
    let line = name + ": "@ + value;
    let colon = name.len() as int;
    assert(": "@.len() == 2 && ": "@[0] == ':' && ": "@[1] == ' ');
    assert(line[colon] == ':');
    assert(line[colon + 1] == ' ');
    assert forall|k: int| 0 <= k < colon implies #[trigger] line[k] != ':' by {
        assert(line[k] == name[k]);
    }
    lemma_find_char_at(line, ':', 0, colon);
    assert(line.subrange(0, colon) == name);
    assert(line.subrange(colon + 2, line.len() as int) == value);
}

/// Readable headers are read back from behind any text,
/// and the body is found behind the empty line.
proof fn lemma_read_headers(
    before: Seq<char>,
    headers: Seq<(Seq<char>, Seq<char>)>,
    body: Seq<char>,
)
    requires
        are_readable(headers),
    ensures
        read_headers(before + header_lines(headers) + "\r\n"@ + body, before.len() as int) == Some(
            (headers, (before.len() + header_lines(headers).len() + 2) as int),
        ),
    decreases headers.len(),
{
    reveal_strlit("\r\n");
    reveal_strlit(": ");
    assert("\r\n"@.len() == 2 && "\r\n"@[0] == '\r' && "\r\n"@[1] == '\n');
    assert(": "@.len() == 2 && ": "@[0] == ':' && ": "@[1] == ' ');
    let text = before + header_lines(headers) + "\r\n"@ + body;
    let i = before.len() as int;
    if headers.len() == 0 {
        assert(header_lines(headers) == Seq::<char>::empty());
        assert(text[i] == '\r');
        assert(text[i + 1] == '\n');
        lemma_find_char_at(text, '\r', i, i);
    } else {
        let header = headers[0];
        let others = headers.drop_first();
        let line = header_line(header);
        let start = before + line;
        lemma_header_lines_first(headers);
        assert(text == start + header_lines(others) + "\r\n"@ + body);
        assert(are_readable(others)) by {
            assert forall|n: int| 0 <= n < others.len() implies is_readable_header(
                #[trigger] others[n],
            ) by {
                assert(others[n] == headers[n + 1]);
            }
        }
        lemma_read_headers(start, others, body);
        let shown = header.0 + ": "@ + header.1;
        let end = i + shown.len();
        assert(line == shown + "\r\n"@);
        assert(is_readable_header(header));
        assert forall|k: int| 0 <= k < shown.len() implies #[trigger] shown[k] != '\r' by {
            if k < header.0.len() {
                assert(shown[k] == header.0[k]);
            } else if k < header.0.len() + 2 {
                assert(shown[k] == ": "@[k - header.0.len()]);
            } else {
                assert(shown[k] == header.1[k - header.0.len() - 2]);
            }
        }
        assert forall|k: int| i <= k < end implies #[trigger] text[k] != '\r' by {
            assert(text[k] == shown[k - i]);
        }
        assert(text[end] == '\r');
        assert(text[end + 1] == '\n');
        lemma_find_char_at(text, '\r', i, end);
        assert(text.subrange(i, end) == shown);
        lemma_read_header_line(header.0, header.1);
        assert(end + 2 == start.len());
        assert(seq![header] + others == headers);
        assert(header_lines(headers).len() == line.len() + header_lines(others).len());
    }
}

/// The text of a status holds no carriage return, and the three texts
/// differ in length.
proof fn lemma_status_text(status: HttpStatus)
    ensures
        forall|k: int| 0 <= k < status_text(status).len() ==> #[trigger] status_text(status)[k]
            != '\r',
        status_text(HttpStatus::OK).len() == 6,
        status_text(HttpStatus::NotFound).len() == 13,
        status_text(HttpStatus::InternalServerError).len() == 25,
{
    reveal_strlit("200 OK");
    reveal_strlit("404 Not Found");
    reveal_strlit("500 Internal Server Error");
    let text = status_text(status);
    assert forall|k: int| 0 <= k < text.len() implies #[trigger] text[k] != '\r' by {
        lemma_text_index_is_small(k);
    }
}

/// An index below 25 is one of the numbers from 0 to 24.
proof fn lemma_text_index_is_small(k: int)
    ensures
        0 <= k < 25 ==> k == 0 || k == 1 || k == 2 || k == 3 || k == 4 || k == 5 || k == 6 || k
            == 7 || k == 8 || k == 9 || k == 10 || k == 11 || k == 12 || k == 13 || k == 14 || k
            == 15 || k == 16 || k == 17 || k == 18 || k == 19 || k == 20 || k == 21 || k == 22
            || k == 23 || k == 24,
{
}

/// What the serializer writes can be read back: the text of a response with
/// readable headers denotes that response, with the same status, the same headers in
/// the same order and the same body.
pub proof fn law_response_round_trip(response: ResponseView)
    requires
        are_readable(response.headers),
    ensures
        read_response(wire_text(response)) == Some(response),
{
    reveal_strlit("HTTP/1.1 ");
    reveal_strlit("\r\n");
    assert("\r\n"@.len() == 2 && "\r\n"@[0] == '\r' && "\r\n"@[1] == '\n');
    let text = wire_text(response);
    let shown = "HTTP/1.1 "@ + status_text(response.status);
    let line = status_line(response.status);
    let end = shown.len() as int;
    lemma_status_text(response.status);
    assert(line == shown + "\r\n"@);
    assert forall|k: int| 0 <= k < end implies #[trigger] text[k] != '\r' by {
        assert(text[k] == shown[k]);
        if k < 9 {
            lemma_text_index_is_small(k);
            assert(shown[k] == "HTTP/1.1 "@[k]);
        } else {
            assert(shown[k] == status_text(response.status)[k - 9]);
        }
    }
    assert(text[end] == '\r');
    assert(text[end + 1] == '\n');
    lemma_find_char_at(text, '\r', 0, end);
    assert(text.subrange(0, end) == shown);
    assert(read_status(shown) == Some(response.status)) by {
        let a = "HTTP/1.1 "@ + status_text(HttpStatus::OK);
        let b = "HTTP/1.1 "@ + status_text(HttpStatus::NotFound);
        let c = "HTTP/1.1 "@ + status_text(HttpStatus::InternalServerError);
        assert(a.len() == 15 && b.len() == 22 && c.len() == 34);
    }
    lemma_read_headers(line, response.headers, response.body);
    assert(text == line + header_lines(response.headers) + "\r\n"@ + response.body);
    let begin = (line.len() + header_lines(response.headers).len() + 2) as int;
    assert(text.subrange(begin, text.len() as int) == response.body);
}

} // verus!
