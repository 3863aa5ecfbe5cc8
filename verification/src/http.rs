//! HTTP as the control API and the discovery endpoints speak it: requests
//! put together from what arrives, what they ask for, and the head of what
//! is answered.

use crate::json::{
    empty_object, json_str, json_text, json_written, law_field_is_the_first_of_its_key, Json, JsonView,
};
use crate::model::{lookup, meta_lookup};
use crate::seqs::{concat, first_where, lemma_first_where, lemma_first_where_is};
use crate::text::{
    ascii_lower, cut, cut_at, decimal, decimal_text, has_part, law_cutting_goes_by_the_first,
    law_cutting_goes_by_the_first_part, law_no_cut_without_the_part,
    law_splitting_goes_by_separators, lemma_digits_grow, lemma_split_not_empty, parse_size,
    parsed_size, same_ignoring_case, same_text, split, split_at_text, split_on, split_once,
    split_words, stands_at, trim, trimmed, unsigned_digits, words,
};
use vstd::prelude::*;
use vstd::utf8::{decode_utf8, encode_utf8, valid_utf8};

verus! {

/// How long a request may be, head and body together.
pub const MAX_HTTP_REQUEST_BYTES: usize = 2097152;

/// What is said of bytes that are not UTF-8, and where they are not.
pub uninterp spec fn utf8_error(bytes: Seq<u8>) -> Seq<char>;

/// Calls `std::str::from_utf8`: gives the text that the bytes are the UTF-8
/// of, if and only if they are valid UTF-8, and otherwise the error in words,
/// which depends on the bytes alone.
#[verifier::external_body]
fn utf8_text(bytes: &Vec<u8>) -> (text: Result<String, String>)
    ensures
        text is Ok == valid_utf8(bytes@),
        text is Ok ==> text->Ok_0@ == decode_utf8(bytes@),
        text is Err ==> text->Err_0@ == utf8_error(bytes@),
{
    std::str::from_utf8(bytes).map(|text| text.to_owned()).map_err(|error| error.to_string())
}

/// Whether the first `at` bytes end with an empty line.
pub open spec fn ends_head(bytes: Seq<u8>, at: int) -> bool {
    &&& 4 <= at <= bytes.len()
    &&& bytes[at - 4] == 13 && bytes[at - 3] == 10 && bytes[at - 2] == 13 && bytes[at - 1] == 10
}

/// Where the head of a request ends: behind the first empty line.
pub open spec fn head_end(bytes: Seq<u8>) -> Option<int>
    decreases bytes.len(),
{
    if bytes.len() == 0 {
        None
    } else {
        match head_end(bytes.drop_last()) {
            Some(at) => Some(at),
            None => if ends_head(bytes, bytes.len() as int) {
                Some(bytes.len() as int)
            } else {
                None
            },
        }
    }
}

/// The length that a header line declares for the body.
pub open spec fn declared_length(line: Seq<char>) -> Option<int> {
    match cut(line, ':') {
        Some((name, value)) if ascii_lower(trimmed(name)) == ascii_lower("content-length"@) =>
            parsed_size(trimmed(value)),
        _ => None,
    }
}

pub open spec fn declares_length() -> spec_fn(Seq<char>) -> bool {
    |line: Seq<char>| declared_length(line) is Some
}

/// The length of the body: what the first line says that declares one, 0 if
/// none does.
pub open spec fn length_in(lines: Seq<Seq<char>>) -> int {
    let at = first_where(lines, declares_length());
    if at < lines.len() {
        declared_length(lines[at])->0
    } else {
        0
    }
}

pub open spec fn content_length(head: Seq<u8>) -> int {
    if valid_utf8(head) {
        length_in(split(decode_utf8(head), '\n'))
    } else {
        0
    }
}

/// Where a request ends, once its head is there.
pub open spec fn request_end(bytes: Seq<u8>) -> Option<int> {
    match head_end(bytes) {
        Some(at) => Some(at + content_length(bytes.take(at))),
        None => None,
    }
}

/// What has come in of a request: its bytes, and where it ends, once that is
/// known.
#[derive(Debug)]
pub struct RequestReader {
    buffer: Vec<u8>,
    total: Option<usize>,
}

/// What has come in of a request, as a mathematical value.
#[verifier::ext_equal]
pub struct ReaderView {
    pub bytes: Seq<u8>,
    pub end: Option<int>,
}

/// What is to be done after a piece of a request has come in.
#[derive(Debug)]
pub enum ReadStep {
    /// Read on.
    More,
    /// This is the request.
    Complete(Vec<u8>),
    /// There is no request, for this reason.
    Failed(String),
}

/// What is to be done after a piece of a request has come in, as a
/// mathematical value.
#[verifier::ext_equal]
pub enum ReadStepView {
    More,
    Complete(Seq<u8>),
    Failed(Seq<char>),
}

impl DeepView for ReadStep {
    type V = ReadStepView;

    open spec fn deep_view(&self) -> ReadStepView {
        match self {
            ReadStep::More => ReadStepView::More,
            ReadStep::Complete(bytes) => ReadStepView::Complete(bytes@),
            ReadStep::Failed(message) => ReadStepView::Failed(message@),
        }
    }
}

/// The reader after more bytes, and what is to be done. No bytes mean that
/// the connection was closed.
pub open spec fn fed(reader: ReaderView, chunk: Seq<u8>) -> (ReaderView, ReadStepView) {
    let all = reader.bytes + chunk;
    if chunk.len() == 0 {
        (
            reader,
            ReadStepView::Failed(
                if reader.end is None {
                    "connection closed before request headers completed"@
                } else {
                    "connection closed before request body completed"@
                },
            ),
        )
    } else if reader.end is None && all.len() > MAX_HTTP_REQUEST_BYTES {
        (reader, ReadStepView::Failed("request exceeds 2097152-byte limit"@))
    } else {
        let end = if reader.end is None {
            request_end(all)
        } else {
            reader.end
        };
        match end {
            None => (ReaderView { bytes: all, end: None }, ReadStepView::More),
            Some(at) => if at > MAX_HTTP_REQUEST_BYTES {
                (
                    ReaderView { bytes: all, end: reader.end },
                    ReadStepView::Failed("request exceeds MAX_HTTP_REQUEST_BYTES-byte limit"@),
                )
            } else if all.len() < at {
                (ReaderView { bytes: all, end }, ReadStepView::More)
            } else {
                (ReaderView { bytes: all, end }, ReadStepView::Complete(all.take(at)))
            },
        }
    }
}

/// A reader before anything has come in.
pub open spec fn fresh_reader() -> ReaderView {
    ReaderView { bytes: Seq::empty(), end: None }
}

proof fn lemma_head_end(bytes: Seq<u8>)
    ensures
        match head_end(bytes) {
            Some(at) => ends_head(bytes, at) && (forall|k: int| k < at ==> !#[trigger] ends_head(
                bytes,
                k,
            )),
            None => forall|k: int| !#[trigger] ends_head(bytes, k),
        },
    decreases bytes.len(),
{
    if bytes.len() > 0 {
        let head = bytes.drop_last();
        lemma_head_end(head);
        assert forall|k: int| k < bytes.len() implies ends_head(bytes, k) == #[trigger] ends_head(
            head,
            k,
        ) by {}
        match head_end(head) {
            Some(at) => {
                assert forall|k: int| k < at implies !#[trigger] ends_head(bytes, k) by {
                    assert(!ends_head(head, k));
                }
                assert(ends_head(head, at));
            },
            None => {
                assert forall|k: int| k < bytes.len() implies !#[trigger] ends_head(bytes, k) by {
                    assert(!ends_head(head, k));
                }
            },
        }
    }
}

proof fn lemma_head_end_is(bytes: Seq<u8>, at: int)
    requires
        ends_head(bytes, at),
        forall|k: int| k < at ==> !#[trigger] ends_head(bytes, k),
    ensures
        head_end(bytes) == Some(at),
{
    lemma_head_end(bytes);
    match head_end(bytes) {
        Some(end) => {
            if end < at {
                assert(!ends_head(bytes, end));
            }
        },
        None => {},
    }
}

fn find_head_end(bytes: &Vec<u8>) -> (end: Option<usize>)
    ensures
        end is Some == head_end(bytes@) is Some,
        end is Some ==> end->0 == head_end(bytes@)->0,
        end is Some ==> end->0 <= bytes@.len(),
{
    if bytes.len() >= 4 {
        let mut at: usize = 4;
        loop
            invariant
                4 <= at <= bytes.len(),
                forall|k: int| k < at ==> !#[trigger] ends_head(bytes@, k),
            decreases bytes.len() - at,
        {
            if bytes[at - 4] == 13 && bytes[at - 3] == 10 && bytes[at - 2] == 13 && bytes[at - 1]
                == 10 {
                proof {
                    lemma_head_end_is(bytes@, at as int);
                }
                return Some(at);
            }
            if at == bytes.len() {
                proof {
                    lemma_head_end(bytes@);
                }
                return None;
            }
            at = at + 1;
        }
    }
    proof {
        lemma_head_end(bytes@);
    }
    None
}

fn first_bytes(bytes: &Vec<u8>, n: usize) -> (start: Vec<u8>)
    requires
        n <= bytes@.len(),
    ensures
        start@ == bytes@.take(n as int),
{
    let mut start: Vec<u8> = Vec::new();
    for i in 0..n
        invariant
            n <= bytes@.len(),
            start@ == bytes@.take(i as int),
    {
        start.push(bytes[i]);
        assert(start@ =~= bytes@.take(i + 1));
    }
    start
}

fn line_length(line: &str) -> (length: Option<usize>)
    ensures
        length is Some == declared_length(line@) is Some,
        length is Some ==> length->0 == declared_length(line@)->0,
{
    match split_once(line, ':') {
        Some((name, value)) => {
            if same_ignoring_case(trim(name.as_str()).as_str(), "content-length") {
                parse_size(trim(value.as_str()).as_str())
            } else {
                None
            }
        },
        None => None,
    }
}

fn find_content_length(head: &Vec<u8>) -> (length: usize)
    ensures
        length == content_length(head@),
{
    let text = match utf8_text(head) {
        Ok(text) => text,
        Err(_) => {
            return 0;
        },
    };
    let lines = split_on(text.as_str(), '\n');
    let ghost listed = lines.deep_view();
    for i in 0..lines.len()
        invariant
            listed == lines.deep_view(),
            valid_utf8(head@),
            listed == split(decode_utf8(head@), '\n'),
            forall|k: int| 0 <= k < i ==> !declares_length()(#[trigger] listed[k]),
    {
        assert(listed[i as int] == lines@[i as int]@);
        if let Some(length) = line_length(lines[i].as_str()) {
            proof {
                lemma_first_where_is(listed, declares_length(), i as int);
            }
            return length;
        }
    }
    proof {
        lemma_first_where_is(listed, declares_length(), listed.len() as int);
    }
    0
}

impl View for RequestReader {
    type V = ReaderView;

    closed spec fn view(&self) -> ReaderView {
        ReaderView {
            bytes: self.buffer@,
            end: match self.total {
                Some(total) => Some(total as int),
                None => None,
            },
        }
    }
}

impl RequestReader {
    /// A reader before anything has come in.
    pub fn new() -> (reader: RequestReader)
        ensures
            reader@ == fresh_reader(),
    {
        let reader = RequestReader { buffer: Vec::new(), total: None };
        assert(reader@.bytes =~= Seq::empty());
        reader
    }

    /// Takes in the bytes that one read gave; none mean that the connection
    /// was closed.
    pub fn feed(&mut self, chunk: &[u8]) -> (step: ReadStep)
        ensures
            final(self)@ == fed(old(self)@, chunk@).0,
            step.deep_view() == fed(old(self)@, chunk@).1,
    {
        if chunk.len() == 0 {
            return ReadStep::Failed(
                if self.total.is_none() {
                    "connection closed before request headers completed".to_owned()
                } else {
                    "connection closed before request body completed".to_owned()
                },
            );
        }
        let ghost before = self@.bytes;
        if self.total.is_none() && (self.buffer.len() > MAX_HTTP_REQUEST_BYTES || chunk.len()
            > MAX_HTTP_REQUEST_BYTES - self.buffer.len()) {
            return ReadStep::Failed("request exceeds 2097152-byte limit".to_owned());
        }
        assert(self.buffer@ =~= before + chunk@.take(0));
        let mut i: usize = 0;
        while i < chunk.len()
            invariant
                i <= chunk@.len(),
                self.total == old(self).total,
                self.buffer@ == before + chunk@.take(i as int),
            decreases chunk@.len() - i,
        {
            self.buffer.push(chunk[i]);
            i = i + 1;
            assert(self.buffer@ =~= before + chunk@.take(i as int));
        }
        assert(chunk@.take(chunk@.len() as int) =~= chunk@);
        if self.total.is_none() {
            match find_head_end(&self.buffer) {
                None => {
                    return ReadStep::More;
                },
                Some(at) => {
                    let length = find_content_length(&first_bytes(&self.buffer, at));
                    if length > MAX_HTTP_REQUEST_BYTES || at > MAX_HTTP_REQUEST_BYTES - length {
                        return ReadStep::Failed(
                            "request exceeds MAX_HTTP_REQUEST_BYTES-byte limit".to_owned(),
                        );
                    }
                    self.total = Some(at + length);
                },
            }
        }
        match self.total {
            None => ReadStep::More,
            Some(at) => {
                if at > MAX_HTTP_REQUEST_BYTES {
                    ReadStep::Failed("request exceeds MAX_HTTP_REQUEST_BYTES-byte limit".to_owned())
                } else if self.buffer.len() < at {
                    ReadStep::More
                } else {
                    ReadStep::Complete(first_bytes(&self.buffer, at))
                }
            },
        }
    }
}

/// The reader after several pieces, and what is to be done after the first
/// of them that is not just to be followed by more.
pub open spec fn fed_all(reader: ReaderView, chunks: Seq<Seq<u8>>) -> (ReaderView, ReadStepView)
    decreases chunks.len(),
{
    if chunks.len() == 0 {
        (reader, ReadStepView::More)
    } else {
        let (before, step) = fed_all(reader, chunks.drop_last());
        if step is More {
            fed(before, chunks.last())
        } else {
            (before, step)
        }
    }
}

proof fn lemma_head_end_of_start(bytes: Seq<u8>, n: int)
    requires
        0 <= n <= bytes.len(),
    ensures
        head_end(bytes.take(n)) == match head_end(bytes) {
            Some(at) if at <= n => Some(at),
            _ => None,
        },
{
    let start = bytes.take(n);
    lemma_head_end(bytes);
    lemma_head_end(start);
    assert forall|k: int| k <= n implies ends_head(bytes, k) == #[trigger] ends_head(start, k) by {}
    match head_end(bytes) {
        Some(at) => {
            if at <= n {
                assert(ends_head(start, at));
                assert forall|k: int| k < at implies !#[trigger] ends_head(start, k) by {
                    assert(!ends_head(bytes, k));
                }
                lemma_head_end_is(start, at);
            } else if let Some(end) = head_end(start) {
                assert(!ends_head(bytes, end));
            }
        },
        None => {
            if let Some(end) = head_end(start) {
                assert(!ends_head(bytes, end));
            }
        },
    }
}

proof fn lemma_pieces(chunks: Seq<Seq<u8>>, request: Seq<u8>)
    requires
        request.len() <= MAX_HTTP_REQUEST_BYTES,
        request_end(request) == Some(request.len() as int),
        forall|k: int| 0 <= k < chunks.len() ==> (#[trigger] chunks[k]).len() > 0,
        concat(chunks).len() < request.len(),
        concat(chunks) == request.take(concat(chunks).len() as int),
    ensures
        ({
            let n = concat(chunks).len() as int;
            let end = match head_end(request) {
                Some(at) if at <= n => Some(request.len() as int),
                _ => None,
            };
            fed_all(fresh_reader(), chunks) == (
                ReaderView { bytes: request.take(n), end },
                ReadStepView::More,
            )
        }),
    decreases chunks.len(),
{
    let n = concat(chunks).len() as int;
    lemma_head_end_of_start(request, n);
    lemma_head_end(request);
    if chunks.len() == 0 {
        assert(request.take(0) =~= Seq::empty());
    } else {
        let head = chunks.drop_last();
        let m = concat(head).len() as int;
        assert(chunks[chunks.len() - 1].len() > 0);
        assert forall|k: int| 0 <= k < head.len() implies (#[trigger] head[k]).len() > 0 by {
            assert(head[k] == chunks[k]);
        }
        assert(concat(head) =~= request.take(m)) by {
            assert(concat(chunks) == concat(head) + chunks.last());
            assert forall|k: int| 0 <= k < m implies concat(head)[k] == request.take(m)[k] by {
                assert(concat(chunks)[k] == concat(head)[k]);
                assert(request.take(n)[k] == request[k]);
            }
        }
        lemma_pieces(head, request);
        assert(request.take(m) + chunks.last() =~= request.take(n));
        if let Some(at) = head_end(request) {
            if at <= n {
                assert(request.take(n).take(at) =~= request.take(at));
            }
        }
    }
}

proof fn lemma_content_length(head: Seq<u8>)
    ensures
        content_length(head) >= 0,
{
    if valid_utf8(head) {
        let lines = split(decode_utf8(head), '\n');
        let at = first_where(lines, declares_length());
        lemma_first_where(lines, declares_length());
        if at < lines.len() {
            assert(declares_length()(lines[at]));
            let value = trimmed((cut(lines[at], ':')->Some_0).1);
            lemma_digits_grow(unsigned_digits(value), 0);
        }
    }
}

/// A request is read the same however it arrives: a body that is split over
/// any number of pieces is put together again, nothing is taken for the
/// whole before it is there, and bytes behind it are cut off.
pub proof fn law_pieces_do_not_matter(chunks: Seq<Seq<u8>>, end: int)
    requires
        concat(chunks).len() <= MAX_HTTP_REQUEST_BYTES,
        request_end(concat(chunks)) == Some(end),
        end <= concat(chunks).len(),
        forall|k: int| 0 <= k < chunks.len() ==> (#[trigger] chunks[k]).len() > 0,
    ensures
        fed_all(fresh_reader(), chunks).1 == ReadStepView::Complete(concat(chunks).take(end)),
        chunks.len() > 0,
        concat(chunks.drop_last()).len() < end ==> fed_all(fresh_reader(), chunks.drop_last()).1
            == ReadStepView::More,
    decreases chunks.len(),
{
    let all = concat(chunks);
    let request = all.take(end);
    lemma_head_end(all);
    assert(chunks.len() > 0);
    let head = chunks.drop_last();
    let m = concat(head).len() as int;
    let at = head_end(all)->0;
    lemma_content_length(all.take(at));
    assert(chunks[chunks.len() - 1].len() > 0);
    assert forall|k: int| 0 <= k < head.len() implies (#[trigger] head[k]).len() > 0 by {
        assert(head[k] == chunks[k]);
    }
    assert(concat(head) =~= all.take(m));
    if m >= end {
        lemma_head_end_of_start(all, m);
        assert(all.take(m).take(at) =~= all.take(at));
        law_pieces_do_not_matter(head, end);
        assert(all.take(m).take(end) =~= request);
    } else {
        lemma_head_end_of_start(all, end);
        assert(request.take(at) =~= all.take(at));
        assert(concat(head) =~= request.take(m));
        lemma_pieces(head, request);
        assert(request.take(m) + chunks.last() =~= all);
    }
}

/// A request that never ends, or lies about its length, cannot make the
/// reader hold more than the limit.
pub proof fn law_held_bytes_are_bounded(reader: ReaderView, chunk: Seq<u8>)
    requires
        fed(reader, chunk).1 is More,
    ensures
        fed(reader, chunk).0.bytes.len() <= MAX_HTTP_REQUEST_BYTES,
{
}

/// A request, taken apart.
#[derive(Debug)]
pub struct HttpRequest {
    pub method: String,
    pub path: String,
    pub query: String,
    pub body: String,
}

/// A request, as a mathematical value.
#[verifier::ext_equal]
pub struct HttpRequestView {
    pub method: Seq<char>,
    pub path: Seq<char>,
    pub query: Seq<char>,
    pub body: Seq<char>,
}

impl DeepView for HttpRequest {
    type V = HttpRequestView;

    open spec fn deep_view(&self) -> HttpRequestView {
        HttpRequestView {
            method: self.method@,
            path: self.path@,
            query: self.query@,
            body: self.body@,
        }
    }
}

/// Why bytes are no request.
#[derive(Debug, PartialEq, Eq)]
pub enum HttpError {
    /// They are not UTF-8, as this says.
    NotUtf8(String),
    Malformed,
    NoRequestLine,
    NoMethod,
    NoPath,
}

/// Why bytes are no request, as a mathematical value.
#[verifier::ext_equal]
pub enum HttpErrorView {
    NotUtf8(Seq<char>),
    Malformed,
    NoRequestLine,
    NoMethod,
    NoPath,
}

impl DeepView for HttpError {
    type V = HttpErrorView;

    open spec fn deep_view(&self) -> HttpErrorView {
        match self {
            HttpError::NotUtf8(error) => HttpErrorView::NotUtf8(error@),
            HttpError::Malformed => HttpErrorView::Malformed,
            HttpError::NoRequestLine => HttpErrorView::NoRequestLine,
            HttpError::NoMethod => HttpErrorView::NoMethod,
            HttpError::NoPath => HttpErrorView::NoPath,
        }
    }
}

impl HttpErrorView {
    pub open spec fn text(self) -> Seq<char> {
        match self {
            HttpErrorView::NotUtf8(error) => error,
            HttpErrorView::Malformed => "malformed HTTP request"@,
            HttpErrorView::NoRequestLine => "missing request line"@,
            HttpErrorView::NoMethod => "missing HTTP method"@,
            HttpErrorView::NoPath => "missing HTTP path"@,
        }
    }
}

impl HttpError {
    /// The reason in words.
    pub fn message(&self) -> (message: String)
        ensures
            message@ == self.deep_view().text(),
    {
        match self {
            HttpError::NotUtf8(error) => error.clone(),
            HttpError::Malformed => "malformed HTTP request".to_owned(),
            HttpError::NoRequestLine => "missing request line".to_owned(),
            HttpError::NoMethod => "missing HTTP method".to_owned(),
            HttpError::NoPath => "missing HTTP path".to_owned(),
        }
    }
}

/// A path without its query, and the query.
pub open spec fn path_and_query(full_path: Seq<char>) -> (Seq<char>, Seq<char>) {
    match cut(full_path, '?') {
        Some(halves) => halves,
        None => (full_path, Seq::empty()),
    }
}

/// The request that bytes are, or why they are none.
pub open spec fn request_of(bytes: Seq<u8>) -> Result<HttpRequestView, HttpErrorView> {
    if !valid_utf8(bytes) {
        Err(HttpErrorView::NotUtf8(utf8_error(bytes)))
    } else {
        match cut_at(decode_utf8(bytes), "\r\n\r\n"@) {
            None => Err(HttpErrorView::Malformed),
            Some((head, body)) => {
                let line = words(split(head, '\n')[0]);
                if head.len() == 0 {
                    Err(HttpErrorView::NoRequestLine)
                } else if line.len() == 0 {
                    Err(HttpErrorView::NoMethod)
                } else if line.len() == 1 {
                    Err(HttpErrorView::NoPath)
                } else {
                    let (path, query) = path_and_query(line[1]);
                    Ok(HttpRequestView { method: line[0], path, query, body })
                }
            },
        }
    }
}

fn split_path(full_path: &str) -> (halves: (String, String))
    ensures
        halves.0@ == path_and_query(full_path@).0,
        halves.1@ == path_and_query(full_path@).1,
{
    match split_once(full_path, '?') {
        Some(halves) => halves,
        None => (full_path.to_owned(), String::new()),
    }
}

/// Takes a request apart.
pub fn parse_request(bytes: &Vec<u8>) -> (request: Result<HttpRequest, HttpError>)
    ensures
        match request {
            Ok(request) => request_of(bytes@) == Ok::<HttpRequestView, HttpErrorView>(
                request.deep_view(),
            ),
            Err(error) => request_of(bytes@) == Err::<HttpRequestView, HttpErrorView>(
                error.deep_view(),
            ),
        },
{
    let text = match utf8_text(bytes) {
        Ok(text) => text,
        Err(error) => {
            return Err(HttpError::NotUtf8(error));
        },
    };
    let (head, body) = match split_at_text(text.as_str(), "\r\n\r\n") {
        Some(halves) => halves,
        None => {
            return Err(HttpError::Malformed);
        },
    };
    if head.as_str().is_empty() {
        return Err(HttpError::NoRequestLine);
    }
    let lines = split_on(head.as_str(), '\n');
    proof {
        lemma_split_not_empty(head@, '\n');
        assert(lines.deep_view()[0] == lines@[0]@);
    }
    let line = split_words(lines[0].as_str());
    let ghost listed = line.deep_view();
    if line.len() == 0 {
        return Err(HttpError::NoMethod);
    }
    if line.len() == 1 {
        return Err(HttpError::NoPath);
    }
    assert(listed[0] == line@[0]@ && listed[1] == line@[1]@);
    let (path, query) = split_path(line[1].as_str());
    Ok(HttpRequest { method: line[0].clone(), path, query, body })
}

/// What a page can be rendered to.
#[derive(Debug, Clone, Copy, PartialEq, Eq, Structural)]
pub enum OutputFormat {
    Svg,
    Png,
    Pdf,
}

/// The format that a name names: SVG, if it names no other.
pub open spec fn format_named(name: Seq<char>) -> OutputFormat {
    if name == "png"@ {
        OutputFormat::Png
    } else if name == "pdf"@ {
        OutputFormat::Pdf
    } else {
        OutputFormat::Svg
    }
}

/// The format that a name names: SVG, if it names no other.
pub fn output_format(name: &str) -> (format: OutputFormat)
    ensures
        format == format_named(name@),
{
    if same_text(name, "png") {
        OutputFormat::Png
    } else if same_text(name, "pdf") {
        OutputFormat::Pdf
    } else {
        OutputFormat::Svg
    }
}

impl OutputFormat {
    pub open spec fn mime(self) -> Seq<char> {
        match self {
            OutputFormat::Svg => "image/svg+xml"@,
            OutputFormat::Png => "image/png"@,
            OutputFormat::Pdf => "application/pdf"@,
        }
    }

    /// The type of content that the format is.
    pub fn content_type(self) -> (mime: &'static str)
        ensures
            mime@ == self.mime(),
    {
        match self {
            OutputFormat::Svg => "image/svg+xml",
            OutputFormat::Png => "image/png",
            OutputFormat::Pdf => "application/pdf",
        }
    }
}

/// The names and values that a query string holds.
pub uninterp spec fn form_parsed(query: Seq<char>) -> Seq<(Seq<char>, Seq<char>)>;

/// Calls `url::form_urlencoded::parse` on the bytes of a query string. What
/// comes back depends on the query alone.
#[verifier::external_body]
fn parse_query(query: &str) -> (pairs: Vec<(String, String)>)
    ensures
        pairs.deep_view() == form_parsed(query@),
{
    url::form_urlencoded::parse(query.as_bytes()).into_owned().collect()
}

/// The format that the parameters of a query ask for: what the first
/// `format` among them names.
pub open spec fn format_in(pairs: Seq<(Seq<char>, Seq<char>)>) -> OutputFormat {
    match lookup(pairs, "format"@) {
        Some(name) => format_named(name),
        None => OutputFormat::Svg,
    }
}

/// The format that the parameters of a query ask for.
pub fn requested_format(pairs: &Vec<(String, String)>) -> (format: OutputFormat)
    ensures
        format == format_in(pairs.deep_view()),
{
    match meta_lookup(pairs, "format") {
        Some(name) => output_format(name),
        None => OutputFormat::Svg,
    }
}

/// What a request to the control API asks for.
#[derive(Debug, Clone, Copy, PartialEq, Eq, Structural)]
pub enum Route {
    /// Whether the service runs.
    Health,
    /// The page that the body, HTML, is.
    Parse,
    /// The page that the body holds, rendered.
    Render(OutputFormat),
    /// The outcome of the script that the body holds, on the page that it
    /// holds.
    Eval,
    /// Nothing that there is.
    NotFound,
}

/// What a request asks for, given the parameters of its query.
pub open spec fn route_of(
    request: HttpRequestView,
    pairs: Seq<(Seq<char>, Seq<char>)>,
) -> Route {
    if request.method == "GET"@ && request.path == "/health"@ {
        Route::Health
    } else if request.method == "POST"@ && request.path == "/v1/parse"@ {
        Route::Parse
    } else if request.method == "POST"@ && request.path == "/v1/render"@ {
        Route::Render(format_in(pairs))
    } else if request.method == "POST"@ && request.path == "/v1/eval"@ {
        Route::Eval
    } else {
        Route::NotFound
    }
}

/// What a request asks for, given the parameters of its query.
pub fn route_with(request: &HttpRequest, pairs: &Vec<(String, String)>) -> (route: Route)
    ensures
        route == route_of(request.deep_view(), pairs.deep_view()),
{
    let method = request.method.as_str();
    let path = request.path.as_str();
    if same_text(method, "GET") && same_text(path, "/health") {
        Route::Health
    } else if same_text(method, "POST") && same_text(path, "/v1/parse") {
        Route::Parse
    } else if same_text(method, "POST") && same_text(path, "/v1/render") {
        Route::Render(requested_format(pairs))
    } else if same_text(method, "POST") && same_text(path, "/v1/eval") {
        Route::Eval
    } else {
        Route::NotFound
    }
}

/// What a request asks for.
pub fn route(request: &HttpRequest) -> (route: Route)
    ensures
        route == route_of(request.deep_view(), form_parsed(request.query@)),
{
    route_with(request, &parse_query(request.query.as_str()))
}

/// The body that is answered where the route alone decides it.
pub open spec fn fixed_body(route: Route) -> Option<Seq<char>> {
    match route {
        Route::Health => Some("{\"ok\":true,\"service\":\"kite-lite\"}"@),
        Route::NotFound => Some("{\"error\":\"not found\"}"@),
        _ => None,
    }
}

impl Route {
    pub open spec fn status_text(self) -> Seq<char> {
        match self {
            Route::NotFound => "404 Not Found"@,
            _ => "200 OK"@,
        }
    }

    pub open spec fn mime(self) -> Seq<char> {
        match self {
            Route::Render(format) => format.mime(),
            _ => "application/json"@,
        }
    }

    /// The status of the answer.
    pub fn status(self) -> (status: &'static str)
        ensures
            status@ == self.status_text(),
    {
        match self {
            Route::NotFound => "404 Not Found",
            _ => "200 OK",
        }
    }

    /// The type of content that the answer is.
    pub fn content_type(self) -> (mime: &'static str)
        ensures
            mime@ == self.mime(),
    {
        match self {
            Route::Render(format) => format.content_type(),
            _ => "application/json",
        }
    }

    /// The body of the answer, where the route alone decides it.
    pub fn fixed_answer(self) -> (body: Option<String>)
        ensures
            body.deep_view() == fixed_body(self),
    {
        match self {
            Route::Health => Some("{\"ok\":true,\"service\":\"kite-lite\"}".to_owned()),
            Route::NotFound => Some("{\"error\":\"not found\"}".to_owned()),
            _ => None,
        }
    }
}

/// The head of an answer with a body of the given length in bytes.
pub open spec fn head_text(status: Seq<char>, mime: Seq<char>, length: nat) -> Seq<char> {
    "HTTP/1.1 "@ + status + "\r\nContent-Type: "@ + mime + "\r\nContent-Length: "@ + decimal(
        length,
    ) + "\r\nConnection: close\r\n\r\n"@
}

/// The head of an answer with a body of the given length in bytes.
pub fn response_head(status: &str, content_type: &str, length: usize) -> (head: String)
    ensures
        head@ == head_text(status@, content_type@, length as nat),
{
    "HTTP/1.1 ".to_owned().concat(status).concat("\r\nContent-Type: ").concat(
        content_type,
    ).concat("\r\nContent-Length: ").concat(decimal_text(length as u128).as_str()).concat(
        "\r\nConnection: close\r\n\r\n",
    )
}

/// What a request to a discovery endpoint begins with.
pub open spec fn discovery_start() -> Seq<u8> {
    seq![71u8, 69u8, 84u8, 32u8, 47u8, 106u8, 115u8, 111u8, 110u8]
}

/// Whether the bytes that a connection begins with are those of a request to
/// a discovery endpoint: `GET /json`.
pub fn asks_for_discovery(bytes: &Vec<u8>) -> (yes: bool)
    ensures
        yes == (bytes@.len() >= 9 && bytes@.take(9) == discovery_start()),
{
    let start: Vec<u8> = vec![71u8, 69u8, 84u8, 32u8, 47u8, 106u8, 115u8, 111u8, 110u8];
    assert(start@ =~= discovery_start());
    if bytes.len() < 9 {
        return false;
    }
    for i in 0..9usize
        invariant
            start@ == discovery_start(),
            bytes@.len() >= 9,
            forall|k: int| 0 <= k < i ==> bytes@[k] == #[trigger] start@[k],
    {
        if bytes[i] != start[i] {
            assert(bytes@.take(9)[i as int] != discovery_start()[i as int]);
            return false;
        }
    }
    assert(bytes@.take(9) =~= discovery_start());
    true
}

/// What a request to a discovery endpoint asks for, and of which host.
#[derive(Debug)]
pub struct DiscoveryRequest {
    pub path: String,
    pub host: String,
}

/// The host that a header line names.
pub open spec fn host_of(line: Seq<char>) -> Option<Seq<char>> {
    match cut(line, ':') {
        Some((name, value)) if ascii_lower(name) == ascii_lower("host"@) => Some(trimmed(value)),
        _ => None,
    }
}

pub open spec fn names_host() -> spec_fn(Seq<char>) -> bool {
    |line: Seq<char>| host_of(line) is Some
}

/// The path that a request line asks for.
pub open spec fn discovery_path(text: Seq<char>) -> Seq<char> {
    let line = words(split(text, '\n')[0]);
    if line.len() > 1 {
        line[1]
    } else {
        "/"@
    }
}

/// The host that the header lines name.
pub open spec fn discovery_host(text: Seq<char>) -> Seq<char> {
    let lines = split(text, '\n').drop_first();
    let at = first_where(lines, names_host());
    if at < lines.len() {
        host_of(lines[at])->0
    } else {
        "127.0.0.1:9222"@
    }
}

fn line_host(line: &str) -> (host: Option<String>)
    ensures
        host.deep_view() == host_of(line@),
{
    match split_once(line, ':') {
        Some((name, value)) => {
            if same_ignoring_case(name.as_str(), "host") {
                Some(trim(value.as_str()))
            } else {
                None
            }
        },
        None => None,
    }
}

/// Reads a request to a discovery endpoint; an error where the bytes are not
/// UTF-8.
pub fn read_discovery(bytes: &Vec<u8>) -> (request: Result<DiscoveryRequest, HttpError>)
    ensures
        request is Ok == valid_utf8(bytes@),
        request matches Ok(read) ==> read.path@ == discovery_path(decode_utf8(bytes@)),
        request matches Ok(read) ==> read.host@ == discovery_host(decode_utf8(bytes@)),
        request matches Err(error) ==> error.deep_view() == HttpErrorView::NotUtf8(
            utf8_error(bytes@),
        ),
{
    let text = match utf8_text(bytes) {
        Ok(text) => text,
        Err(error) => {
            return Err(HttpError::NotUtf8(error));
        },
    };
    let lines = split_on(text.as_str(), '\n');
    let ghost listed = lines.deep_view();
    let ghost rest = listed.drop_first();
    proof {
        lemma_split_not_empty(text@, '\n');
        assert(listed[0] == lines@[0]@);
    }
    let line = split_words(lines[0].as_str());
    let path = if line.len() > 1 {
        assert(line.deep_view()[1] == line@[1]@);
        line[1].clone()
    } else {
        "/".to_owned()
    };
    let mut i: usize = 1;
    while i < lines.len()
        invariant
            1 <= i <= lines@.len(),
            listed == lines.deep_view(),
            rest == listed.drop_first(),
            rest == split(text@, '\n').drop_first(),
            text@ == decode_utf8(bytes@),
            path@ == discovery_path(text@),
            valid_utf8(bytes@),
            forall|k: int| 0 <= k < i - 1 ==> !names_host()(#[trigger] rest[k]),
        decreases lines@.len() - i,
    {
        assert(rest[i - 1] == lines@[i as int]@);
        if let Some(host) = line_host(lines[i].as_str()) {
            proof {
                lemma_first_where_is(rest, names_host(), i - 1);
            }
            return Ok(DiscoveryRequest { path, host });
        }
        i = i + 1;
    }
    proof {
        lemma_first_where_is(rest, names_host(), rest.len() as int);
    }
    Ok(DiscoveryRequest { path, host: "127.0.0.1:9222".to_owned() })
}

/// What a discovery endpoint answers.
pub open spec fn discovery_json(
    path: Seq<char>,
    host: Seq<char>,
    title: Seq<char>,
    url: Seq<char>,
) -> JsonView {
    let ws_url = json_str("ws://"@ + host + "/"@);
    if path == "/json/version"@ {
        empty_object().plus("Browser"@, json_str("kite-lite/0.1.0"@)).plus(
            "Protocol-Version"@,
            json_str("1.3"@),
        ).plus("User-Agent"@, json_str("kite-lite"@)).plus("V8-Version"@, json_str("0.0.0"@)).plus(
            "WebKit-Version"@,
            json_str("0.0.0"@),
        ).plus("webSocketDebuggerUrl"@, ws_url)
    } else if path == "/json"@ || path == "/json/list"@ {
        JsonView::Array(
            seq![
                empty_object().plus("id"@, json_str("kite-lite-target"@)).plus(
                    "type"@,
                    json_str("page"@),
                ).plus("title"@, json_str(title)).plus("url"@, json_str(url)).plus(
                    "webSocketDebuggerUrl"@,
                    ws_url,
                ),
            ],
        )
    } else {
        empty_object().plus("error"@, json_str("not found"@))
    }
}

/// What a discovery endpoint answers.
pub fn discovery_body(path: &str, host: &str, title: &str, url: &str) -> (body: Json)
    ensures
        body.deep_view() == discovery_json(path@, host@, title@, url@),
{
    let ws_url = "ws://".to_owned().concat(host).concat("/");
    if same_text(path, "/json/version") {
        Json::object().with("Browser", Json::string("kite-lite/0.1.0")).with(
            "Protocol-Version",
            Json::string("1.3"),
        ).with("User-Agent", Json::string("kite-lite")).with(
            "V8-Version",
            Json::string("0.0.0"),
        ).with("WebKit-Version", Json::string("0.0.0")).with(
            "webSocketDebuggerUrl",
            Json::Str(ws_url),
        )
    } else if same_text(path, "/json") || same_text(path, "/json/list") {
        let target = Json::object().with("id", Json::string("kite-lite-target")).with(
            "type",
            Json::string("page"),
        ).with("title", Json::string(title)).with("url", Json::string(url)).with(
            "webSocketDebuggerUrl",
            Json::Str(ws_url),
        );
        let mut targets: Vec<Json> = Vec::new();
        targets.push(target);
        assert(targets.deep_view() =~= seq![target.deep_view()]);
        Json::array(targets)
    } else {
        Json::object().with("error", Json::string("not found"))
    }
}

/// The whole answer with a JSON body that is written as `payload`.
pub open spec fn json_answer(payload: Seq<char>) -> Seq<char> {
    head_text("200 OK"@, "application/json"@, encode_utf8(payload).len()) + payload
}

/// The whole answer with a given body.
pub fn answer_with(payload: &str) -> (response: String)
    ensures
        response@ == json_answer(payload@),
{
    let length: usize = payload.as_bytes().len();
    response_head("200 OK", "application/json", length).concat(payload)
}

/// The whole answer of a discovery endpoint.
pub fn discovery_response(request: &DiscoveryRequest, title: &str, url: &str) -> (response: String)
    ensures
        response@ == json_answer(
            json_written(discovery_json(request.path@, request.host@, title@, url@)),
        ),
{
    let body = discovery_body(request.path.as_str(), request.host.as_str(), title, url);
    answer_with(json_text(&body).as_str())
}

/// A request is taken apart: the first word of its first line is the method,
/// the second is what it asks for, path and query parted by the first `?`,
/// and what stands behind the first empty line is the body, all of it.
pub proof fn law_request_comes_apart(
    line: Seq<char>,
    more: Seq<char>,
    body: Seq<char>,
    path: Seq<char>,
    query: Seq<char>,
)
    requires
        !line.contains('\n'),
        words(line).len() >= 2,
        more.len() > 0 ==> more[0] == '\n',
        !path.contains('?'),
        forall|k: int|
            0 <= k < (line + more).len() ==> !#[trigger] stands_at(
                line + more + "\r\n\r\n"@ + body,
                "\r\n\r\n"@,
                k,
            ),
    ensures
        ({
            let request = request_of(encode_utf8(line + more + "\r\n\r\n"@ + body));
            let target = words(line)[1];
            &&& request is Ok
            &&& request->Ok_0.method == words(line)[0]
            &&& request->Ok_0.body == body
            &&& target == path ==> request->Ok_0.path == path && request->Ok_0.query.len() == 0
            &&& target == path + seq!['?'] + query ==> request->Ok_0.path == path
                && request->Ok_0.query == query
        }),
{
    let head = line + more;
    let text = head + "\r\n\r\n"@ + body;
    vstd::utf8::encode_utf8_decode_utf8(text);
    vstd::utf8::encode_utf8_valid_utf8(text);
    law_cutting_goes_by_the_first_part(head, "\r\n\r\n"@, body);
    lemma_first_line(line, more);
    assert(line.len() > 0) by {
        if line.len() == 0 {
            assert(words(line).len() == 0);
        }
    }
    law_cutting_goes_by_the_first(path, '?', query);
}

proof fn lemma_first_line(line: Seq<char>, more: Seq<char>)
    requires
        !line.contains('\n'),
        more.len() > 0 ==> more[0] == '\n',
    ensures
        split(line + more, '\n').len() > 0,
        split(line + more, '\n')[0] == line,
{
    if more.len() == 0 {
        assert(line + more =~= line);
        law_splitting_goes_by_separators(line, '\n', Seq::empty());
    } else {
        let rest = more.drop_first();
        law_splitting_goes_by_separators(line, '\n', rest);
        assert(line + seq!['\n'] + rest =~= line + more);
    }
}

/// What is no request, and why: bytes that are not UTF-8; text without an
/// empty line; an empty head; a first line without words, and one with a
/// single word.
pub proof fn law_what_is_no_request(
    bytes: Seq<u8>,
    text: Seq<char>,
    line: Seq<char>,
    more: Seq<char>,
    body: Seq<char>,
)
    requires
        !line.contains('\n'),
        more.len() > 0 ==> more[0] == '\n',
        forall|k: int|
            0 <= k < (line + more).len() ==> !#[trigger] stands_at(
                line + more + "\r\n\r\n"@ + body,
                "\r\n\r\n"@,
                k,
            ),
    ensures
        !valid_utf8(bytes) ==> request_of(bytes) == Err::<HttpRequestView, HttpErrorView>(
            HttpErrorView::NotUtf8(utf8_error(bytes)),
        ),
        !has_part(text, "\r\n\r\n"@) ==> request_of(encode_utf8(text)) == Err::<
            HttpRequestView,
            HttpErrorView,
        >(HttpErrorView::Malformed),
        ({
            let request = request_of(encode_utf8(line + more + "\r\n\r\n"@ + body));
            let refused = |error: HttpErrorView|
                request == Err::<HttpRequestView, HttpErrorView>(error);
            &&& line.len() + more.len() == 0 ==> refused(HttpErrorView::NoRequestLine)
            &&& line.len() + more.len() > 0 && words(line).len() == 0 ==> refused(
                HttpErrorView::NoMethod,
            )
            &&& words(line).len() == 1 ==> refused(HttpErrorView::NoPath)
        }),
{
    let head = line + more;
    let whole = head + "\r\n\r\n"@ + body;
    vstd::utf8::encode_utf8_decode_utf8(whole);
    vstd::utf8::encode_utf8_valid_utf8(whole);
    vstd::utf8::encode_utf8_decode_utf8(text);
    vstd::utf8::encode_utf8_valid_utf8(text);
    law_cutting_goes_by_the_first_part(head, "\r\n\r\n"@, body);
    lemma_first_line(line, more);
    if !has_part(text, "\r\n\r\n"@) {
        law_no_cut_without_the_part(text, "\r\n\r\n"@);
    }
    if line.len() == 0 {
        assert(words(line).len() == 0);
    }
}

/// A request ends behind its body: the first empty line ends its head, and
/// the body has the length that the head declares.
pub proof fn law_request_ends_behind_its_body(bytes: Seq<u8>, at: int)
    requires
        4 <= at <= bytes.len(),
        bytes.subrange(at - 4, at) == seq![13u8, 10u8, 13u8, 10u8],
        forall|k: int|
            4 <= k < at ==> #[trigger] bytes.subrange(k - 4, k) != seq![13u8, 10u8, 13u8, 10u8],
    ensures
        request_end(bytes) == Some(at + content_length(bytes.take(at))),
{
    let end = bytes.subrange(at - 4, at);
    assert(end[0] == 13 && end[1] == 10 && end[2] == 13 && end[3] == 10);
    assert(ends_head(bytes, at));
    assert forall|k: int| k < at implies !#[trigger] ends_head(bytes, k) by {
        if ends_head(bytes, k) {
            assert(bytes.subrange(k - 4, k) =~= seq![13u8, 10u8, 13u8, 10u8]);
        }
    }
    lemma_head_end_is(bytes, at);
}

/// Without an empty line, it is not known where a request ends.
pub proof fn law_no_end_without_an_empty_line(bytes: Seq<u8>)
    requires
        forall|k: int|
            4 <= k <= bytes.len() ==> #[trigger] bytes.subrange(k - 4, k) != seq![
                13u8,
                10u8,
                13u8,
                10u8,
            ],
    ensures
        request_end(bytes) is None,
{
    lemma_head_end(bytes);
    if let Some(at) = head_end(bytes) {
        assert(bytes.subrange(at - 4, at) =~= seq![13u8, 10u8, 13u8, 10u8]);
    }
}

/// The length of a body is what the first line says that begins with
/// `Content-Length` and a colon, in any case and with any white space around
/// its parts, and has a number behind it; without such a line it is 0.
pub proof fn law_length_is_declared(text: Seq<char>, at: int, name: Seq<char>, value: Seq<char>)
    requires
        ({
            let lines = split(text, '\n');
            &&& 0 <= at <= lines.len()
            &&& forall|k: int|
                0 <= k < at ==> declared_length(#[trigger] lines[k]) is None
            &&& at < lines.len() ==> lines[at] == name + seq![':'] + value && !name.contains(':')
                && ascii_lower(trimmed(name)) == "content-length"@ && parsed_size(
                trimmed(value),
            ) is Some
        }),
    ensures
        at < split(text, '\n').len() ==> Some(content_length(encode_utf8(text))) == parsed_size(
            trimmed(value),
        ),
        at == split(text, '\n').len() ==> content_length(encode_utf8(text)) == 0,
{
    vstd::utf8::encode_utf8_decode_utf8(text);
    vstd::utf8::encode_utf8_valid_utf8(text);
    let lines = split(text, '\n');
    lemma_length_name();
    if at < lines.len() {
        law_cutting_goes_by_the_first(name, ':', value);
        assert(declares_length()(lines[at]));
    }
    lemma_first_where_is(lines, declares_length(), at);
}

proof fn lemma_length_name()
    ensures
        ascii_lower("content-length"@) == "content-length"@,
{
    reveal_strlit("content-length");
    assert(ascii_lower("content-length"@) =~= "content-length"@);
}

/// No other line declares a length: one without a colon, with another name,
/// or without a number behind it.
pub proof fn law_other_lines_declare_nothing(name: Seq<char>, value: Seq<char>)
    requires
        !name.contains(':'),
    ensures
        declared_length(name) is None,
        ascii_lower(trimmed(name)) != "content-length"@ ==> declared_length(
            name + seq![':'] + value,
        ) is None,
        parsed_size(trimmed(value)) is None ==> declared_length(name + seq![':'] + value) is None,
{
    lemma_length_name();
    law_cutting_goes_by_the_first(name, ':', value);
}

/// What reading does with a piece of a request: a closed connection fails it;
/// more than 2097152 bytes fail it, whether they are there or declared;
/// otherwise the piece is kept, and the request is there as soon as all its
/// bytes are.
pub proof fn law_reading_goes_on_until_the_end(reader: ReaderView, chunk: Seq<u8>)
    ensures
        ({
            let (after, step) = fed(reader, chunk);
            let all = reader.bytes + chunk;
            let end = if reader.end is Some {
                reader.end
            } else {
                request_end(all)
            };
            let large = (reader.end is None && all.len() > 2097152) || (end is Some && end->0
                > 2097152);
            &&& step is Failed <==> chunk.len() == 0 || large
            &&& step is Complete <==> chunk.len() > 0 && !large && end is Some && all.len()
                >= end->0
            &&& step is Complete ==> step->Complete_0 == all.take(end->0)
            &&& step is More ==> after == (ReaderView { bytes: all, end })
        }),
{
}

/// What the control API does goes by method and path: `GET /health`,
/// and `POST` to `/v1/parse`, `/v1/render` and `/v1/eval`; nothing else is
/// there.
pub proof fn law_routes_go_by_method_and_path(
    request: HttpRequestView,
    pairs: Seq<(Seq<char>, Seq<char>)>,
)
    ensures
        ({
            let route = route_of(request, pairs);
            let get = request.method == "GET"@;
            let post = request.method == "POST"@;
            &&& route is Health <==> get && request.path == "/health"@
            &&& route is Parse <==> post && request.path == "/v1/parse"@
            &&& route is Eval <==> post && request.path == "/v1/eval"@
            &&& route is Render <==> post && request.path == "/v1/render"@
            &&& route is Render ==> route->Render_0 == match lookup(pairs, "format"@) {
                Some(name) => if name == "png"@ {
                    OutputFormat::Png
                } else if name == "pdf"@ {
                    OutputFormat::Pdf
                } else {
                    OutputFormat::Svg
                },
                None => OutputFormat::Svg,
            }
        }),
{
    reveal_strlit("GET");
    reveal_strlit("POST");
    reveal_strlit("/health");
    reveal_strlit("/v1/parse");
    reveal_strlit("/v1/render");
    reveal_strlit("/v1/eval");
    assert("GET"@.len() == 3 && "POST"@.len() == 4);
    assert("/health"@.len() == 7 && "/v1/parse"@.len() == 9 && "/v1/render"@.len() == 10
        && "/v1/eval"@.len() == 8);
}

/// What is answered goes by the route: `404` where there is nothing and `200`
/// otherwise; a rendered page as its format is called, everything else as
/// JSON.
pub proof fn law_answers_go_by_the_route(route: Route)
    ensures
        route is NotFound ==> route.status_text() == "404 Not Found"@ && fixed_body(route) == Some(
            "{\"error\":\"not found\"}"@,
        ),
        !(route is NotFound) ==> route.status_text() == "200 OK"@,
        route is Health ==> fixed_body(route) == Some(
            "{\"ok\":true,\"service\":\"kite-lite\"}"@,
        ),
        route is Parse || route is Render || route is Eval ==> fixed_body(route) is None,
        route == Route::Render(OutputFormat::Png) ==> route.mime() == "image/png"@,
        route == Route::Render(OutputFormat::Pdf) ==> route.mime() == "application/pdf"@,
        route == Route::Render(OutputFormat::Svg) ==> route.mime() == "image/svg+xml"@,
        !(route is Render) ==> route.mime() == "application/json"@,
{
}

/// An answer says its status, its type and the number of bytes of its body,
/// and closes the connection; an empty line ends its head.
pub proof fn law_answer_says_its_length(
    status: Seq<char>,
    mime: Seq<char>,
    length: nat,
    payload: Seq<char>,
)
    ensures
        head_text(status, mime, length) == "HTTP/1.1 "@ + status + "\r\nContent-Type: "@ + mime
            + "\r\nContent-Length: "@ + decimal(length) + "\r\nConnection: close\r\n\r\n"@,
        json_answer(payload) == "HTTP/1.1 "@ + "200 OK"@ + "\r\nContent-Type: "@
            + "application/json"@ + "\r\nContent-Length: "@ + decimal(encode_utf8(payload).len())
            + "\r\nConnection: close\r\n\r\n"@ + payload,
{
}

/// A request to a discovery endpoint asks for the second word of its first
/// line, else for `/`, of the host that the first line behind it names whose
/// name is `Host`, in any case; else of the default host.
pub proof fn law_discovery_asks_for_a_path(
    text: Seq<char>,
    at: int,
    name: Seq<char>,
    value: Seq<char>,
)
    requires
        ({
            let lines = split(text, '\n').drop_first();
            &&& 0 <= at <= lines.len()
            &&& forall|k: int| 0 <= k < at ==> host_of(#[trigger] lines[k]) is None
            &&& at < lines.len() ==> lines[at] == name + seq![':'] + value && !name.contains(':')
                && ascii_lower(name) == "host"@
        }),
    ensures
        ({
            let first = words(split(text, '\n')[0]);
            &&& first.len() > 1 ==> discovery_path(text) == first[1]
            &&& first.len() <= 1 ==> discovery_path(text) == "/"@
            &&& at < split(text, '\n').drop_first().len() ==> discovery_host(text) == trimmed(value)
            &&& at == split(text, '\n').drop_first().len() ==> discovery_host(text)
                == "127.0.0.1:9222"@
        }),
{
    reveal_strlit("host");
    assert(ascii_lower("host"@) =~= "host"@);
    let lines = split(text, '\n').drop_first();
    if at < lines.len() {
        law_cutting_goes_by_the_first(name, ':', value);
        assert(names_host()(lines[at]));
    }
    lemma_first_where_is(lines, names_host(), at);
}

/// No other line names a host.
pub proof fn law_other_lines_name_no_host(name: Seq<char>, value: Seq<char>)
    requires
        !name.contains(':'),
    ensures
        host_of(name) is None,
        ascii_lower(name) != "host"@ ==> host_of(name + seq![':'] + value) is None,
{
    reveal_strlit("host");
    assert(ascii_lower("host"@) =~= "host"@);
    law_cutting_goes_by_the_first(name, ':', value);
}

/// A discovery endpoint tells the version, or lists the one page with its
/// title and address, and in both says where to connect; elsewhere it says
/// that there is nothing.
pub proof fn law_discovery_tells_where_to_connect(
    path: Seq<char>,
    host: Seq<char>,
    title: Seq<char>,
    url: Seq<char>,
)
    ensures
        ({
            let body = discovery_json(path, host, title, url);
            let connect = Some(JsonView::Str("ws://"@ + host + "/"@));
            &&& path == "/json/version"@ ==> body.field("webSocketDebuggerUrl"@) == connect
            &&& path == "/json/version"@ ==> body.field("Browser"@) == Some(
                JsonView::Str("kite-lite/0.1.0"@),
            )
            &&& path == "/json/version"@ ==> body.field("Protocol-Version"@) == Some(
                JsonView::Str("1.3"@),
            )
            &&& path == "/json"@ || path == "/json/list"@ ==> {
                &&& body is Array && body->Array_0.len() == 1
                &&& body->Array_0[0].field("webSocketDebuggerUrl"@) == connect
                &&& body->Array_0[0].field("title"@) == Some(JsonView::Str(title))
                &&& body->Array_0[0].field("url"@) == Some(JsonView::Str(url))
                &&& body->Array_0[0].field("type"@) == Some(JsonView::Str("page"@))
            }
            &&& path != "/json/version"@ && path != "/json"@ && path != "/json/list"@
                ==> body.field("error"@) == Some(JsonView::Str("not found"@))
        }),
{
    reveal_strlit("/json/version");
    reveal_strlit("/json");
    reveal_strlit("/json/list");
    assert("/json/version"@.len() == 13 && "/json"@.len() == 5 && "/json/list"@.len() == 10);
    reveal_strlit("Browser");
    reveal_strlit("Protocol-Version");
    reveal_strlit("User-Agent");
    reveal_strlit("V8-Version");
    reveal_strlit("WebKit-Version");
    reveal_strlit("webSocketDebuggerUrl");
    reveal_strlit("id");
    reveal_strlit("type");
    reveal_strlit("title");
    reveal_strlit("url");
    assert("Browser"@.len() == 7 && "Protocol-Version"@.len() == 16 && "User-Agent"@.len() == 10
        && "V8-Version"@.len() == 10 && "WebKit-Version"@.len() == 14
        && "webSocketDebuggerUrl"@.len() == 20);
    assert("id"@.len() == 2 && "type"@.len() == 4 && "title"@.len() == 5 && "url"@.len() == 3);
    let body = discovery_json(path, host, title, url);
    if path == "/json/version"@ {
        law_field_is_the_first_of_its_key(body->Object_0, "Browser"@, 0);
        law_field_is_the_first_of_its_key(body->Object_0, "Protocol-Version"@, 1);
        law_field_is_the_first_of_its_key(body->Object_0, "webSocketDebuggerUrl"@, 5);
    } else if path == "/json"@ || path == "/json/list"@ {
        let target = body->Array_0[0]->Object_0;
        law_field_is_the_first_of_its_key(target, "type"@, 1);
        law_field_is_the_first_of_its_key(target, "title"@, 2);
        law_field_is_the_first_of_its_key(target, "url"@, 3);
        law_field_is_the_first_of_its_key(target, "webSocketDebuggerUrl"@, 4);
    } else {
        law_field_is_the_first_of_its_key(body->Object_0, "error"@, 0);
    }
}

/// Why a request could not be read is told in words.
pub proof fn law_reading_errors_are_told(reader: ReaderView, chunk: Seq<u8>, error: Seq<char>)
    ensures
        ({
            let step = fed(reader, chunk).1;
            &&& chunk.len() == 0 && reader.end is None ==> step == ReadStepView::Failed(
                "connection closed before request headers completed"@,
            )
            &&& chunk.len() == 0 && reader.end is Some ==> step == ReadStepView::Failed(
                "connection closed before request body completed"@,
            )
            &&& chunk.len() > 0 && reader.end is None && reader.bytes.len() + chunk.len() > 2097152
                ==> step == ReadStepView::Failed("request exceeds 2097152-byte limit"@)
        }),
        HttpErrorView::NotUtf8(error).text() == error,
        HttpErrorView::Malformed.text() == "malformed HTTP request"@,
        HttpErrorView::NoRequestLine.text() == "missing request line"@,
        HttpErrorView::NoMethod.text() == "missing HTTP method"@,
        HttpErrorView::NoPath.text() == "missing HTTP path"@,
{
}

} // verus!
