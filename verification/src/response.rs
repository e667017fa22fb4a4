//! What the server answers: which page a request gets, and the text that
//! carries it.

use crate::text::same_text;
use vstd::prelude::*;

verus! {

/// The page that answers a request.
#[derive(Debug, Clone, Copy)]
pub struct Page {
    /// The status line of the answer.
    pub status_line: &'static str,
    /// The name of the file that holds the page.
    pub file: &'static str,
    /// The seconds to let pass before the answer is sent.
    pub pause_secs: u64,
}

/// The status line and the file for a target: the front page for `/`, and
/// the page that says so for a target that is not known.
pub open spec fn page_of(target: Seq<char>) -> (Seq<char>, Seq<char>) {
    if target == "/"@ {
        ("HTTP/1.1 200 OK"@, "hello.html"@)
    } else {
        ("HTTP/1.1 404 Not Found"@, "404.html"@)
    }
}

/// The page that answers a request for `target`. It is sent at once.
pub fn page_for(target: &str) -> (r: Page)
    ensures
        (r.status_line@, r.file@) == page_of(target@),
        r.pause_secs == 0,
{
    if same_text(target, "/") {
        Page { status_line: "HTTP/1.1 200 OK", file: "hello.html", pause_secs: 0 }
    } else {
        Page { status_line: "HTTP/1.1 404 Not Found", file: "404.html", pause_secs: 0 }
    }
}

/// The status line, the file and the pause for a request line taken as a
/// whole: the front page for `/`, the same page after ten seconds for
/// `/sleep`, and the page that says so for any other line.
pub open spec fn page_of_line(line: Seq<char>) -> (Seq<char>, Seq<char>, u64) {
    if line == "GET / HTTP/1.1"@ {
        ("HTTP/1.1 200 OK"@, "hello.html"@, 0)
    } else if line == "GET /sleep HTTP/1.1"@ {
        ("HTTP/1.1 200 OK"@, "hello.html"@, 10)
    } else {
        ("HTTP/1.1 404 NOT FOUND"@, "404.html"@, 0)
    }
}

/// The page that answers a request line taken as a whole.
pub fn page_for_line(line: &str) -> (r: Page)
    ensures
        (r.status_line@, r.file@, r.pause_secs) == page_of_line(line@),
{
    if same_text(line, "GET / HTTP/1.1") {
        Page { status_line: "HTTP/1.1 200 OK", file: "hello.html", pause_secs: 0 }
    } else if same_text(line, "GET /sleep HTTP/1.1") {
        Page { status_line: "HTTP/1.1 200 OK", file: "hello.html", pause_secs: 10 }
    } else {
        Page { status_line: "HTTP/1.1 404 NOT FOUND", file: "404.html", pause_secs: 0 }
    }
}

/// The character that writes a digit.
pub open spec fn digit(d: nat) -> char {
    if d == 0 {
        '0'
    } else if d == 1 {
        '1'
    } else if d == 2 {
        '2'
    } else if d == 3 {
        '3'
    } else if d == 4 {
        '4'
    } else if d == 5 {
        '5'
    } else if d == 6 {
        '6'
    } else if d == 7 {
        '7'
    } else if d == 8 {
        '8'
    } else {
        '9'
    }
}

/// A number written in decimal, without leading zeros.
pub open spec fn decimal(n: nat) -> Seq<char>
    decreases n,
{
    if n < 10 {
        seq![digit(n)]
    } else {
        decimal(n / 10).push(digit(n % 10))
    }
}

/// The text of one digit.
fn digit_text(d: usize) -> (r: &'static str)
    requires
        d < 10,
    ensures
        r@ == seq![digit(d as nat)],
{
    proof {
        reveal_strlit("0");
        reveal_strlit("1");
        reveal_strlit("2");
        reveal_strlit("3");
        reveal_strlit("4");
        reveal_strlit("5");
        reveal_strlit("6");
        reveal_strlit("7");
        reveal_strlit("8");
        reveal_strlit("9");
    }
    let r = if d == 0 {
        "0"
    } else if d == 1 {
        "1"
    } else if d == 2 {
        "2"
    } else if d == 3 {
        "3"
    } else if d == 4 {
        "4"
    } else if d == 5 {
        "5"
    } else if d == 6 {
        "6"
    } else if d == 7 {
        "7"
    } else if d == 8 {
        "8"
    } else {
        "9"
    };
    assert(r@ =~= seq![digit(d as nat)]);
    r
}

/// Writes a number in decimal.
pub fn write_decimal(n: usize) -> (r: String)
    ensures
        r@ == decimal(n as nat),
    decreases n,
{
    if n < 10 {
        digit_text(n).to_owned()
    } else {
        let mut text = write_decimal(n / 10);
        text.append(digit_text(n % 10));
        assert(text@ =~= decimal(n as nat));
        text
    }
}

/// The text of an answer: the status line, the length of the page in bytes,
/// an empty line, and the page.
pub open spec fn answer(status_line: Seq<char>, contents: Seq<char>) -> Seq<char> {
    status_line + "\r\nContent-Length: "@ + decimal(vstd::utf8::encode_utf8(contents).len())
        + "\r\n\r\n"@ + contents
}

/// Writes the answer that carries `contents` under `status_line`.
pub fn render(status_line: &str, contents: &str) -> (r: String)
    ensures
        r@ == answer(status_line@, contents@),
{
    let length = contents.as_bytes().len();
    let mut text = status_line.to_owned();
    text.append("\r\nContent-Length: ");
    text.append(write_decimal(length).as_str());
    text.append("\r\n\r\n");
    text.append(contents);
    text
}

/// Writes the answer that carries `contents` under `status_line`, with two
/// line ends after the page.
pub fn render_closed(status_line: &str, contents: &str) -> (r: String)
    ensures
        r@ == answer(status_line@, contents@) + "\r\n\r\n"@,
{
    let mut text = render(status_line, contents);
    text.append("\r\n\r\n");
    text
}

} // verus!
