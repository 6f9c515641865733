//! The language server's side of the protocol: reading the headers of an incoming message,
//! and choosing the handler of a request or notification by its method.

use vstd::prelude::*;
use vstd::string::StrSliceExecFns;
use crate::text::substring;

verus! {

/// The request that asks for the text of a module that is not on disk.
#[derive(Debug)]
pub struct VirtualTextDocument;

impl VirtualTextDocument {
    /// The method of the request.
    pub fn method() -> (r: &'static str)
        ensures
            r@ == "tangram/virtualTextDocument"@,
    {
        "tangram/virtualTextDocument"
    }
}

/// The handler that a request goes to.
#[derive(Debug, Clone, Copy, PartialEq, Eq, Structural)]
pub enum RequestHandler {
    Completion,
    DocumentSymbol,
    Definition,
    Formatting,
    Hover,
    Initialize,
    References,
    Rename,
    Shutdown,
    VirtualTextDocument,
    /// No handler: the request is answered with "method not found".
    MethodNotFound,
}

/// The handler that a notification goes to.
#[derive(Debug, Clone, Copy, PartialEq, Eq, Structural)]
pub enum NotificationHandler {
    DidOpen,
    DidChange,
    DidClose,
    /// No handler: the notification is ignored.
    Ignored,
}

/// The handler of a request with this method.
pub open spec fn spec_request_handler(method: Seq<char>) -> RequestHandler {
    if method == "textDocument/completion"@ {
        RequestHandler::Completion
    } else if method == "textDocument/documentSymbol"@ {
        RequestHandler::DocumentSymbol
    } else if method == "textDocument/definition"@ {
        RequestHandler::Definition
    } else if method == "textDocument/formatting"@ {
        RequestHandler::Formatting
    } else if method == "textDocument/hover"@ {
        RequestHandler::Hover
    } else if method == "initialize"@ {
        RequestHandler::Initialize
    } else if method == "textDocument/references"@ {
        RequestHandler::References
    } else if method == "textDocument/rename"@ {
        RequestHandler::Rename
    } else if method == "shutdown"@ {
        RequestHandler::Shutdown
    } else if method == "tangram/virtualTextDocument"@ {
        RequestHandler::VirtualTextDocument
    } else {
        RequestHandler::MethodNotFound
    }
}

/// The handler of a notification with this method.
pub open spec fn spec_notification_handler(method: Seq<char>) -> NotificationHandler {
    if method == "textDocument/didOpen"@ {
        NotificationHandler::DidOpen
    } else if method == "textDocument/didChange"@ {
        NotificationHandler::DidChange
    } else if method == "textDocument/didClose"@ {
        NotificationHandler::DidClose
    } else {
        NotificationHandler::Ignored
    }
}

/// The handler of a request with this method in the compiler's language server, which
/// handles completion, definitions, hovering, initialization, references, shutdown and
/// virtual text documents.
pub open spec fn spec_compiler_request_handler(method: Seq<char>) -> RequestHandler {
    let h = spec_request_handler(method);
    match h {
        RequestHandler::DocumentSymbol | RequestHandler::Formatting | RequestHandler::Rename => RequestHandler::MethodNotFound,
        _ => h,
    }
}

/// The handler of a request with this method in the compiler's language server (see
/// `spec_compiler_request_handler`).
pub fn compiler_request_handler(method: &str) -> (r: RequestHandler)
    ensures
        r == spec_compiler_request_handler(method@),
{
    match request_handler(method) {
        RequestHandler::DocumentSymbol | RequestHandler::Formatting | RequestHandler::Rename => RequestHandler::MethodNotFound,
        h => h,
    }
}

/// Whether a notification with this method ends the server.
pub fn is_exit(method: &str) -> (r: bool)
    ensures
        r == (method@ == "exit"@),
{
    method.to_owned() == "exit".to_owned()
}

/// The handler of a request with this method (see `spec_request_handler`).
pub fn request_handler(method: &str) -> (r: RequestHandler)
    ensures
        r == spec_request_handler(method@),
{
    let m = method.to_owned();
    if m == "textDocument/completion".to_owned() {
        RequestHandler::Completion
    } else if m == "textDocument/documentSymbol".to_owned() {
        RequestHandler::DocumentSymbol
    } else if m == "textDocument/definition".to_owned() {
        RequestHandler::Definition
    } else if m == "textDocument/formatting".to_owned() {
        RequestHandler::Formatting
    } else if m == "textDocument/hover".to_owned() {
        RequestHandler::Hover
    } else if m == "initialize".to_owned() {
        RequestHandler::Initialize
    } else if m == "textDocument/references".to_owned() {
        RequestHandler::References
    } else if m == "textDocument/rename".to_owned() {
        RequestHandler::Rename
    } else if m == "shutdown".to_owned() {
        RequestHandler::Shutdown
    } else if m == VirtualTextDocument::method().to_owned() {
        RequestHandler::VirtualTextDocument
    } else {
        RequestHandler::MethodNotFound
    }
}

/// The handler of a notification with this method (see `spec_notification_handler`).
pub fn notification_handler(method: &str) -> (r: NotificationHandler)
    ensures
        r == spec_notification_handler(method@),
{
    let m = method.to_owned();
    if m == "textDocument/didOpen".to_owned() {
        NotificationHandler::DidOpen
    } else if m == "textDocument/didChange".to_owned() {
        NotificationHandler::DidChange
    } else if m == "textDocument/didClose".to_owned() {
        NotificationHandler::DidClose
    } else {
        NotificationHandler::Ignored
    }
}

/// What a line of the header of a message is.
#[derive(Debug)]
pub enum HeaderLine {
    /// A header with its name and value.
    Header { name: String, value: String },
    /// The end of the header: an empty line, or the end of the input.
    End,
}

/// Why the header of a message cannot be read.
#[derive(Debug, Clone, Copy, PartialEq, Eq, Structural)]
pub enum HeaderError {
    /// A line does not end with a carriage return and a line feed.
    UnexpectedLineEnding,
    /// A header line has no `: ` between a name and a value.
    MissingValue,
    /// There is no `Content-Length` header.
    MissingContentLength,
    /// The value of the `Content-Length` header is no number.
    InvalidContentLength,
}

/// The index of the first `: ` in `s` at or after `from`, or the length of `s`.
pub open spec fn spec_find_separator(s: Seq<char>, from: int) -> int
    decreases s.len() - from,
{
    if from + 2 > s.len() {
        s.len() as int
    } else if s[from] == ':' && s[from + 1] == ' ' {
        from
    } else {
        spec_find_separator(s, from + 1)
    }
}

/// The mathematical form of a header line.
pub enum HeaderLineView {
    Header { name: Seq<char>, value: Seq<char> },
    End,
}

impl View for HeaderLine {
    type V = HeaderLineView;

    open spec fn view(&self) -> HeaderLineView {
        match self {
            HeaderLine::Header { name, value } => HeaderLineView::Header { name: name@, value: value@ },
            HeaderLine::End => HeaderLineView::End,
        }
    }
}

/// What a line read from the input says: the end of the header when nothing was read or the
/// line is empty; an error when it does not end with `\r\n`; otherwise the header whose name
/// is the text before the first `: ` and whose value is the text from there up to the next
/// `: ` or the end.
pub open spec fn spec_header_line(line: Seq<char>) -> Result<HeaderLineView, HeaderError> {
    if line.len() == 0 {
        Ok(HeaderLineView::End)
    } else if line.len() < 2 || line[line.len() - 2] != '\r' || line[line.len() - 1] != '\n' {
        Err(HeaderError::UnexpectedLineEnding)
    } else {
        let content = line.subrange(0, line.len() - 2);
        if content.len() == 0 {
            Ok(HeaderLineView::End)
        } else {
            let sep = spec_find_separator(content, 0);
            if sep == content.len() {
                Err(HeaderError::MissingValue)
            } else {
                let next = spec_find_separator(content, sep + 2);
                Ok(HeaderLineView::Header { name: content.subrange(0, sep), value: content.subrange(sep + 2, next) })
            }
        }
    }
}

/// `spec_find_separator` lies between `from` and the length, and a separator is there.
pub proof fn lemma_find_separator(s: Seq<char>, from: int)
    requires
        0 <= from <= s.len(),
    ensures
        from <= spec_find_separator(s, from) <= s.len(),
        spec_find_separator(s, from) < s.len() ==> spec_find_separator(s, from) + 2 <= s.len(),
    decreases s.len() - from,
{
    if from + 2 <= s.len() && !(s[from] == ':' && s[from + 1] == ' ') {
        lemma_find_separator(s, from + 1);
    }
}

/// The index of the first `: ` in `s` at or after `from` (see `spec_find_separator`).
fn find_separator(s: &str, from: usize) -> (r: usize)
    requires
        from <= s@.len(),
    ensures
        r == spec_find_separator(s@, from as int),
{
    let n = s.unicode_len();
    let mut i = from;
    while n - i >= 2
        invariant
            n == s@.len(),
            from <= i <= n,
            spec_find_separator(s@, from as int) == spec_find_separator(s@, i as int),
        decreases n - i,
    {
        if s.get_char(i) == ':' && s.get_char(i + 1) == ' ' {
            return i;
        }
        i = i + 1;
    }
    n
}

/// Reads a line of the header of a message (see `spec_header_line`).
pub fn parse_header_line(line: &str) -> (r: Result<HeaderLine, HeaderError>)
    ensures
        match r {
            Ok(h) => spec_header_line(line@) == Ok::<HeaderLineView, HeaderError>(h@),
            Err(e) => spec_header_line(line@) == Err::<HeaderLineView, HeaderError>(e),
        },
{
    let n = line.unicode_len();
    if n == 0 {
        return Ok(HeaderLine::End);
    }
    if n < 2 || line.get_char(n - 2) != '\r' || line.get_char(n - 1) != '\n' {
        return Err(HeaderError::UnexpectedLineEnding);
    }
    let content = substring(line, 0, n - 2);
    let m = n - 2;
    if m == 0 {
        return Ok(HeaderLine::End);
    }
    let sep = find_separator(content.as_str(), 0);
    proof {
        lemma_find_separator(content@, 0);
    }
    if sep == m {
        return Err(HeaderError::MissingValue);
    }
    let next = find_separator(content.as_str(), sep + 2);
    proof {
        lemma_find_separator(content@, sep + 2);
    }
    let name = substring(content.as_str(), 0, sep);
    let value = substring(content.as_str(), sep + 2, next);
    Ok(HeaderLine::Header { name, value })
}

/// The number that a text of decimal digits, with an optional leading `+`, stands for, as
/// an unsigned number's parser reads it; `None` when the text is empty, is only `+`, or
/// holds any other character.
pub open spec fn spec_parse_decimal(s: Seq<char>) -> Option<nat> {
    let digits = spec_digits(s);
    if digits.len() == 0 || !all_digits(digits) {
        None
    } else {
        Some(spec_decimal_value(digits))
    }
}

/// The text without its leading `+`, if it has one.
pub open spec fn spec_digits(s: Seq<char>) -> Seq<char> {
    if s.len() > 0 && s[0] == '+' {
        s.subrange(1, s.len() as int)
    } else {
        s
    }
}

/// Every character of the text is a decimal digit.
pub open spec fn all_digits(s: Seq<char>) -> bool {
    forall|i: int| 0 <= i < s.len() ==> '0' <= #[trigger] s[i] <= '9'
}

/// The value of a text of decimal digits.
pub open spec fn spec_decimal_value(digits: Seq<char>) -> nat
    decreases digits.len(),
{
    if digits.len() == 0 {
        0
    } else {
        spec_decimal_value(digits.drop_last()) * 10 + ((digits.last() as nat) - ('0' as nat)) as nat
    }
}

/// Parses an unsigned number (see `spec_parse_decimal`): `None` also when it does not fit.
pub fn parse_usize(s: &str) -> (r: Option<usize>)
    ensures
        match spec_parse_decimal(s@) {
            Some(v) => if v <= usize::MAX { r == Some(v as usize) } else { r is None },
            None => r is None,
        },
{
    let n = s.unicode_len();
    let start: usize = if n > 0 && s.get_char(0) == '+' { 1 } else { 0 };
    let ghost digits = spec_digits(s@);
    if start == n {
        return None;
    }
    let mut value: usize = 0;
    let mut overflow = false;
    let mut i = start;
    proof {
        assert(digits.subrange(0, 0) =~= Seq::<char>::empty());
    }
    while i < n
        invariant
            n == s@.len(),
            start <= i <= n,
            start <= 1,
            digits == spec_digits(s@),
            digits =~= s@.subrange(start as int, n as int),
            forall|j: int| 0 <= j < i - start ==> '0' <= #[trigger] digits[j] <= '9',
            !overflow ==> value == spec_decimal_value(digits.subrange(0, i - start)),
            overflow ==> spec_decimal_value(digits.subrange(0, i - start)) > usize::MAX,
        decreases n - i,
    {
        let c = s.get_char(i);
        assert(c == digits[i - start]);
        if c < '0' || c > '9' {
            proof {
                assert(!all_digits(digits)) by {
                    assert(!('0' <= digits[i - start] <= '9'));
                }
            }
            return None;
        }
        let d = (c as u32 - '0' as u32) as usize;
        let ghost prev = digits.subrange(0, i - start);
        let ghost next = digits.subrange(0, i - start + 1);
        proof {
            assert(next.drop_last() =~= prev);
            assert(next.last() == c);
            assert(spec_decimal_value(next) == spec_decimal_value(prev) * 10 + d);
        }
        if !overflow {
            if value > (usize::MAX - d) / 10 {
                overflow = true;
                proof {
                    assert(value * 10 + d > usize::MAX) by (nonlinear_arith)
                        requires value > (usize::MAX - d) / 10, d <= 9;
                }
            } else {
                proof {
                    assert(value * 10 + d <= usize::MAX) by (nonlinear_arith)
                        requires value <= (usize::MAX - d) / 10, d <= 9;
                }
                value = value * 10 + d;
            }
        } else {
            proof {
                assert(spec_decimal_value(prev) * 10 + d > usize::MAX) by (nonlinear_arith)
                    requires spec_decimal_value(prev) > usize::MAX;
            }
        }
        i = i + 1;
    }
    proof {
        assert(digits.subrange(0, n - start) =~= digits);
    }
    if overflow {
        None
    } else {
        Some(value)
    }
}

/// The value of the last `Content-Length` header among `headers` (a later header of a
/// name replaces an earlier one), as a number.
pub open spec fn spec_content_length(headers: Seq<(Seq<char>, Seq<char>)>) -> Result<nat, HeaderError>
    decreases headers.len(),
{
    if headers.len() == 0 {
        Err(HeaderError::MissingContentLength)
    } else if headers.last().0 == "Content-Length"@ {
        match spec_parse_decimal(headers.last().1) {
            Some(v) => Ok(v),
            None => Err(HeaderError::InvalidContentLength),
        }
    } else {
        spec_content_length(headers.drop_last())
    }
}

/// The length of the content that the headers announce (see `spec_content_length`); a
/// length that does not fit in `usize` is invalid.
pub fn content_length(headers: &Vec<(String, String)>) -> (r: Result<usize, HeaderError>)
    ensures
        match spec_content_length(headers@.map_values(|h: (String, String)| (h.0@, h.1@))) {
            Ok(v) => if v <= usize::MAX { r == Ok::<usize, HeaderError>(v as usize) } else { r == Err::<usize, HeaderError>(HeaderError::InvalidContentLength) },
            Err(e) => r == Err::<usize, HeaderError>(e),
        },
{
    let ghost hv = headers@.map_values(|h: (String, String)| (h.0@, h.1@));
    let key = "Content-Length".to_owned();
    let mut i = headers.len();
    proof {
        assert(hv.take(i as int) =~= hv);
    }
    while i > 0
        invariant
            i <= headers.len(),
            hv == headers@.map_values(|h: (String, String)| (h.0@, h.1@)),
            key@ == "Content-Length"@,
            spec_content_length(hv) == spec_content_length(hv.take(i as int)),
        decreases i,
    {
        let ghost t = hv.take(i as int);
        proof {
            assert(t.drop_last() =~= hv.take(i - 1));
            assert(t.last() == hv[i - 1]);
        }
        if headers[i - 1].0 == key {
            return match parse_usize(headers[i - 1].1.as_str()) {
                Some(v) => Ok(v),
                None => Err(HeaderError::InvalidContentLength),
            };
        }
        i = i - 1;
    }
    Err(HeaderError::MissingContentLength)
}


/// The LSP method that each request handler serves; none for "method not found".
pub open spec fn request_method(h: RequestHandler) -> Option<Seq<char>> {
    match h {
        RequestHandler::Completion => Some("textDocument/completion"@),
        RequestHandler::DocumentSymbol => Some("textDocument/documentSymbol"@),
        RequestHandler::Definition => Some("textDocument/definition"@),
        RequestHandler::Formatting => Some("textDocument/formatting"@),
        RequestHandler::Hover => Some("textDocument/hover"@),
        RequestHandler::Initialize => Some("initialize"@),
        RequestHandler::References => Some("textDocument/references"@),
        RequestHandler::Rename => Some("textDocument/rename"@),
        RequestHandler::Shutdown => Some("shutdown"@),
        RequestHandler::VirtualTextDocument => Some("tangram/virtualTextDocument"@),
        RequestHandler::MethodNotFound => None,
    }
}

/// The LSP method that each notification handler serves; none for an ignored one.
pub open spec fn notification_method(h: NotificationHandler) -> Option<Seq<char>> {
    match h {
        NotificationHandler::DidOpen => Some("textDocument/didOpen"@),
        NotificationHandler::DidChange => Some("textDocument/didChange"@),
        NotificationHandler::DidClose => Some("textDocument/didClose"@),
        NotificationHandler::Ignored => None,
    }
}


/// The method names are distinct.
proof fn lemma_method_names_differ()
    ensures
        "textDocument/completion"@ != "textDocument/documentSymbol"@,
        "textDocument/completion"@ != "textDocument/definition"@,
        "textDocument/completion"@ != "textDocument/formatting"@,
        "textDocument/completion"@ != "textDocument/hover"@,
        "textDocument/completion"@ != "initialize"@,
        "textDocument/completion"@ != "textDocument/references"@,
        "textDocument/completion"@ != "textDocument/rename"@,
        "textDocument/completion"@ != "shutdown"@,
        "textDocument/completion"@ != "tangram/virtualTextDocument"@,
        "textDocument/documentSymbol"@ != "textDocument/definition"@,
        "textDocument/documentSymbol"@ != "textDocument/formatting"@,
        "textDocument/documentSymbol"@ != "textDocument/hover"@,
        "textDocument/documentSymbol"@ != "initialize"@,
        "textDocument/documentSymbol"@ != "textDocument/references"@,
        "textDocument/documentSymbol"@ != "textDocument/rename"@,
        "textDocument/documentSymbol"@ != "shutdown"@,
        "textDocument/documentSymbol"@ != "tangram/virtualTextDocument"@,
        "textDocument/definition"@ != "textDocument/formatting"@,
        "textDocument/definition"@ != "textDocument/hover"@,
        "textDocument/definition"@ != "initialize"@,
        "textDocument/definition"@ != "textDocument/references"@,
        "textDocument/definition"@ != "textDocument/rename"@,
        "textDocument/definition"@ != "shutdown"@,
        "textDocument/definition"@ != "tangram/virtualTextDocument"@,
        "textDocument/formatting"@ != "textDocument/hover"@,
        "textDocument/formatting"@ != "initialize"@,
        "textDocument/formatting"@ != "textDocument/references"@,
        "textDocument/formatting"@ != "textDocument/rename"@,
        "textDocument/formatting"@ != "shutdown"@,
        "textDocument/formatting"@ != "tangram/virtualTextDocument"@,
        "textDocument/hover"@ != "initialize"@,
        "textDocument/hover"@ != "textDocument/references"@,
        "textDocument/hover"@ != "textDocument/rename"@,
        "textDocument/hover"@ != "shutdown"@,
        "textDocument/hover"@ != "tangram/virtualTextDocument"@,
        "initialize"@ != "textDocument/references"@,
        "initialize"@ != "textDocument/rename"@,
        "initialize"@ != "shutdown"@,
        "initialize"@ != "tangram/virtualTextDocument"@,
        "textDocument/references"@ != "textDocument/rename"@,
        "textDocument/references"@ != "shutdown"@,
        "textDocument/references"@ != "tangram/virtualTextDocument"@,
        "textDocument/rename"@ != "shutdown"@,
        "textDocument/rename"@ != "tangram/virtualTextDocument"@,
        "shutdown"@ != "tangram/virtualTextDocument"@,
        "textDocument/didOpen"@ != "textDocument/didChange"@,
        "textDocument/didOpen"@ != "textDocument/didClose"@,
        "textDocument/didChange"@ != "textDocument/didClose"@,
{
    reveal_strlit("textDocument/completion");
    reveal_strlit("textDocument/documentSymbol");
    reveal_strlit("textDocument/definition");
    reveal_strlit("textDocument/formatting");
    reveal_strlit("textDocument/hover");
    reveal_strlit("initialize");
    reveal_strlit("textDocument/references");
    reveal_strlit("textDocument/rename");
    reveal_strlit("shutdown");
    reveal_strlit("tangram/virtualTextDocument");
    reveal_strlit("textDocument/didOpen");
    reveal_strlit("textDocument/didChange");
    reveal_strlit("textDocument/didClose");
    assert("textDocument/completion"@.len() != "textDocument/documentSymbol"@.len());
    assert("textDocument/completion"@[13] != "textDocument/definition"@[13]);
    assert("textDocument/completion"@[13] != "textDocument/formatting"@[13]);
    assert("textDocument/completion"@.len() != "textDocument/hover"@.len());
    assert("textDocument/completion"@.len() != "initialize"@.len());
    assert("textDocument/completion"@[13] != "textDocument/references"@[13]);
    assert("textDocument/completion"@.len() != "textDocument/rename"@.len());
    assert("textDocument/completion"@.len() != "shutdown"@.len());
    assert("textDocument/completion"@.len() != "tangram/virtualTextDocument"@.len());
    assert("textDocument/documentSymbol"@.len() != "textDocument/definition"@.len());
    assert("textDocument/documentSymbol"@.len() != "textDocument/formatting"@.len());
    assert("textDocument/documentSymbol"@.len() != "textDocument/hover"@.len());
    assert("textDocument/documentSymbol"@.len() != "initialize"@.len());
    assert("textDocument/documentSymbol"@.len() != "textDocument/references"@.len());
    assert("textDocument/documentSymbol"@.len() != "textDocument/rename"@.len());
    assert("textDocument/documentSymbol"@.len() != "shutdown"@.len());
    assert("textDocument/documentSymbol"@[1] != "tangram/virtualTextDocument"@[1]);
    assert("textDocument/definition"@[13] != "textDocument/formatting"@[13]);
    assert("textDocument/definition"@.len() != "textDocument/hover"@.len());
    assert("textDocument/definition"@.len() != "initialize"@.len());
    assert("textDocument/definition"@[13] != "textDocument/references"@[13]);
    assert("textDocument/definition"@.len() != "textDocument/rename"@.len());
    assert("textDocument/definition"@.len() != "shutdown"@.len());
    assert("textDocument/definition"@.len() != "tangram/virtualTextDocument"@.len());
    assert("textDocument/formatting"@.len() != "textDocument/hover"@.len());
    assert("textDocument/formatting"@.len() != "initialize"@.len());
    assert("textDocument/formatting"@[13] != "textDocument/references"@[13]);
    assert("textDocument/formatting"@.len() != "textDocument/rename"@.len());
    assert("textDocument/formatting"@.len() != "shutdown"@.len());
    assert("textDocument/formatting"@.len() != "tangram/virtualTextDocument"@.len());
    assert("textDocument/hover"@.len() != "initialize"@.len());
    assert("textDocument/hover"@.len() != "textDocument/references"@.len());
    assert("textDocument/hover"@.len() != "textDocument/rename"@.len());
    assert("textDocument/hover"@.len() != "shutdown"@.len());
    assert("textDocument/hover"@.len() != "tangram/virtualTextDocument"@.len());
    assert("initialize"@.len() != "textDocument/references"@.len());
    assert("initialize"@.len() != "textDocument/rename"@.len());
    assert("initialize"@.len() != "shutdown"@.len());
    assert("initialize"@.len() != "tangram/virtualTextDocument"@.len());
    assert("textDocument/references"@.len() != "textDocument/rename"@.len());
    assert("textDocument/references"@.len() != "shutdown"@.len());
    assert("textDocument/references"@.len() != "tangram/virtualTextDocument"@.len());
    assert("textDocument/rename"@.len() != "shutdown"@.len());
    assert("textDocument/rename"@.len() != "tangram/virtualTextDocument"@.len());
    assert("shutdown"@.len() != "tangram/virtualTextDocument"@.len());
    assert("textDocument/didOpen"@.len() != "textDocument/didChange"@.len());
    assert("textDocument/didOpen"@.len() != "textDocument/didClose"@.len());
    assert("textDocument/didChange"@.len() != "textDocument/didClose"@.len());
}

/// No two handlers serve the same method.
proof fn lemma_methods_distinct(g: RequestHandler, h: RequestHandler)
    ensures
        request_method(g) is Some && request_method(g) == request_method(h) ==> g == h,
{
    reveal_strlit("textDocument/completion");
    reveal_strlit("textDocument/documentSymbol");
    reveal_strlit("textDocument/definition");
    reveal_strlit("textDocument/formatting");
    reveal_strlit("textDocument/hover");
    reveal_strlit("initialize");
    reveal_strlit("textDocument/references");
    reveal_strlit("textDocument/rename");
    reveal_strlit("shutdown");
    reveal_strlit("tangram/virtualTextDocument");
    reveal_strlit("textDocument/didOpen");
    reveal_strlit("textDocument/didChange");
    reveal_strlit("textDocument/didClose");
    lemma_method_names_differ();
    match g {
        RequestHandler::Completion => {},
        RequestHandler::DocumentSymbol => {},
        RequestHandler::Definition => {},
        RequestHandler::Formatting => {},
        RequestHandler::Hover => {},
        RequestHandler::Initialize => {},
        RequestHandler::References => {},
        RequestHandler::Rename => {},
        RequestHandler::Shutdown => {},
        RequestHandler::VirtualTextDocument => {},
        RequestHandler::MethodNotFound => {},
    }
}

/// Each request handler is reached by its own method name, and by no other: a request with
/// the method of a handler goes to that handler, and a request that goes to a handler has
/// that handler's method.
pub proof fn law_request_handler_by_method(h: RequestHandler, method: Seq<char>)
    ensures
        request_method(h) matches Some(name) ==> spec_request_handler(name) == h,
        spec_request_handler(method) != RequestHandler::MethodNotFound ==> request_method(spec_request_handler(method)) == Some(method),
        spec_request_handler(method) == RequestHandler::MethodNotFound <==> (forall|g: RequestHandler| request_method(g) != Some(method)),
{
    reveal_strlit("textDocument/completion");
    reveal_strlit("textDocument/documentSymbol");
    reveal_strlit("textDocument/definition");
    reveal_strlit("textDocument/formatting");
    reveal_strlit("textDocument/hover");
    reveal_strlit("initialize");
    reveal_strlit("textDocument/references");
    reveal_strlit("textDocument/rename");
    reveal_strlit("shutdown");
    reveal_strlit("tangram/virtualTextDocument");
    reveal_strlit("textDocument/didOpen");
    reveal_strlit("textDocument/didChange");
    reveal_strlit("textDocument/didClose");
    lemma_method_names_differ();
    match h {
        RequestHandler::Completion => {},
        RequestHandler::DocumentSymbol => {},
        RequestHandler::Definition => {},
        RequestHandler::Formatting => {},
        RequestHandler::Hover => {},
        RequestHandler::Initialize => {},
        RequestHandler::References => {},
        RequestHandler::Rename => {},
        RequestHandler::Shutdown => {},
        RequestHandler::VirtualTextDocument => {},
        RequestHandler::MethodNotFound => {},
    }
    if spec_request_handler(method) == RequestHandler::MethodNotFound {
        assert forall|g: RequestHandler| request_method(g) != Some(method) by {
            match g {
                RequestHandler::Completion => {},
                RequestHandler::DocumentSymbol => {},
                RequestHandler::Definition => {},
                RequestHandler::Formatting => {},
                RequestHandler::Hover => {},
                RequestHandler::Initialize => {},
                RequestHandler::References => {},
                RequestHandler::Rename => {},
                RequestHandler::Shutdown => {},
                RequestHandler::VirtualTextDocument => {},
                RequestHandler::MethodNotFound => {},
            }
        }
    }
}

/// Each notification handler is reached by its own method name, and by no other.
pub proof fn law_notification_handler_by_method(h: NotificationHandler, method: Seq<char>)
    ensures
        notification_method(h) matches Some(name) ==> spec_notification_handler(name) == h,
        spec_notification_handler(method) != NotificationHandler::Ignored ==> notification_method(spec_notification_handler(method)) == Some(method),
{
    reveal_strlit("textDocument/completion");
    reveal_strlit("textDocument/documentSymbol");
    reveal_strlit("textDocument/definition");
    reveal_strlit("textDocument/formatting");
    reveal_strlit("textDocument/hover");
    reveal_strlit("initialize");
    reveal_strlit("textDocument/references");
    reveal_strlit("textDocument/rename");
    reveal_strlit("shutdown");
    reveal_strlit("tangram/virtualTextDocument");
    reveal_strlit("textDocument/didOpen");
    reveal_strlit("textDocument/didChange");
    reveal_strlit("textDocument/didClose");
    lemma_method_names_differ();
    match h {
        NotificationHandler::DidOpen => {},
        NotificationHandler::DidChange => {},
        NotificationHandler::DidClose => {},
        NotificationHandler::Ignored => {},
    }
}

/// The compiler's language server answers a request like the language server, except that
/// it has no handler for document symbols, formatting and renaming.
pub proof fn law_compiler_request_handler(method: Seq<char>)
    ensures
        spec_compiler_request_handler(method) != RequestHandler::MethodNotFound ==> spec_compiler_request_handler(method) == spec_request_handler(method),
        spec_compiler_request_handler(method) != RequestHandler::MethodNotFound ==> request_method(spec_compiler_request_handler(method)) == Some(method),
        method == "textDocument/definition"@ ==> spec_compiler_request_handler(method) == RequestHandler::Definition,
        method == "textDocument/rename"@ ==> spec_compiler_request_handler(method) == RequestHandler::MethodNotFound,
{
    law_request_handler_by_method(RequestHandler::Definition, method);
    law_request_handler_by_method(RequestHandler::Rename, method);
}

} // verus!
