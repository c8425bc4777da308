//! HTTP as far as a local server needs it: addresses, requests, and the reading of responses.
use vstd::prelude::*;
use vstd::utf8;
use crate::contents;
use crate::error;
use crate::error::CompressionError;
use crate::integers;
use crate::integers::NumberFault;
use crate::parts;
use crate::runtime::digest;
use crate::text;

verus! {

broadcast use crate::contents::group_contents;

/// The address of a server, and the path that all its endpoints share.
#[derive(Debug)]
pub struct HttpBaseUrl {
    pub host: String,
    pub port: u16,
    pub path_prefix: String,
}

/// Contents of an [`HttpBaseUrl`].
pub struct BaseUrlView {
    pub host: Seq<char>,
    pub port: int,
    pub path_prefix: Seq<char>,
}

impl View for HttpBaseUrl {
    type V = BaseUrlView;

    open spec fn view(&self) -> BaseUrlView {
        BaseUrlView { host: self.host@, port: self.port as int, path_prefix: self.path_prefix@ }
    }
}

/// The server and path of an address without its scheme.
pub open spec fn split_address(address: Seq<char>) -> (Seq<char>, Seq<char>) {
    match text::spec_split_once(address, "/"@) {
        Some((server, path)) => (server, text::spec_trim_end_any("/"@ + path, "/"@)),
        None => (address, Seq::empty()),
    }
}

/// The host and port of a server. Without a port it is that of HTTP.
pub open spec fn split_server(server: Seq<char>) -> Result<
    (Seq<char>, int),
    (Seq<char>, NumberFault),
> {
    match text::spec_rsplit_once(server, ":"@) {
        Some((host, port)) => match integers::spec_parse(port, 10, 65535) {
            Ok(number) => Ok((host, number)),
            Err(fault) => Err((port, fault)),
        },
        None => Ok((server, 80)),
    }
}

/// The parts of an address, or what is wrong with it.
pub open spec fn spec_parse_http_base_url(base_url: Seq<char>) -> Result<
    BaseUrlView,
    error::ErrorView,
> {
    match text::spec_strip_prefix(base_url, "http://"@) {
        None => Err(
            error::ErrorView::InvalidConfig(
                "local runtime base_url must use http:// for the local server: "@ + base_url,
            ),
        ),
        Some(address) => {
            let (server, path_prefix) = split_address(address);
            match split_server(server) {
                Err((port, fault)) => Err(
                    error::ErrorView::InvalidConfig(
                        "invalid local runtime base_url port '"@ + port + "': "@
                            + integers::spec_fault_message(fault),
                    ),
                ),
                Ok((host, port)) => if host.len() == 0 {
                    Err(
                        error::ErrorView::InvalidConfig(
                            "local runtime base_url is missing a host: "@ + base_url,
                        ),
                    )
                } else {
                    Ok(BaseUrlView { host, port, path_prefix })
                },
            }
        },
    }
}

/// The contents of an outcome that is an address.
pub open spec fn base_url_outcome(result: Result<HttpBaseUrl, CompressionError>) -> Result<
    BaseUrlView,
    error::ErrorView,
> {
    match result {
        Ok(base) => Ok(base@),
        Err(error) => Err(error@),
    }
}

/// Takes an address apart.
pub fn parse_http_base_url(base_url: &str) -> (r: Result<HttpBaseUrl, CompressionError>)
    ensures
        base_url_outcome(r) == spec_parse_http_base_url(base_url@),
{
    let address: String = match text::strip_prefix(base_url, "http://") {
        Some(address) => address,
        None => {
            return Err(
                CompressionError::InvalidConfig(
                    text::concat2(
                        "local runtime base_url must use http:// for the local server: ",
                        base_url,
                    ),
                ),
            );
        },
    };
    let (server, path_prefix): (String, String) = match text::split_once(&address, "/") {
        Some((server, path)) => (
            server,
            text::trim_end_any(&text::concat2("/", &path), "/"),
        ),
        None => (address.clone(), String::new()),
    };
    let (host, port): (String, u16) = match text::rsplit_once(&server, ":") {
        Some((host, port)) => match integers::parse(&port, 10, 65535) {
            Ok(number) => (host, number as u16),
            Err(fault) => {
                return Err(
                    CompressionError::InvalidConfig(
                        text::concat4(
                            "invalid local runtime base_url port '",
                            &port,
                            "': ",
                            fault.message(),
                        ),
                    ),
                );
            },
        },
        None => (server.clone(), 80),
    };
    if text::char_count(&host) == 0 {
        return Err(
            CompressionError::InvalidConfig(
                text::concat2("local runtime base_url is missing a host: ", base_url),
            ),
        );
    }
    Ok(HttpBaseUrl { host, port, path_prefix })
}

/// The path of an endpoint.
pub open spec fn spec_join_http_paths(path_prefix: Seq<char>, endpoint_path: Seq<char>) -> Seq<char> {
    text::spec_trim_end_any(path_prefix, "/"@) + "/"@ + text::spec_trim_start_any(
        endpoint_path,
        "/"@,
    )
}

/// The path of an endpoint.
pub fn join_http_paths(path_prefix: &str, endpoint_path: &str) -> (r: String)
    ensures
        r@ == spec_join_http_paths(path_prefix@, endpoint_path@),
{
    text::concat3(
        &text::trim_end_any(path_prefix, "/"),
        "/",
        &text::trim_start_any(endpoint_path, "/"),
    )
}

/// The token that the environment gives, trimmed, where it gives more than white space.
pub open spec fn spec_api_token(value: Option<Seq<char>>) -> Option<Seq<char>> {
    match value {
        Some(token) => if text::spec_trim(token).len() > 0 {
            Some(text::spec_trim(token))
        } else {
            None
        },
        None => None,
    }
}

/// The token that the environment gives, trimmed, where it gives more than white space.
pub fn api_token(value: &Option<String>) -> (r: Option<String>)
    ensures
        contents::view_option(r) == spec_api_token(contents::view_option(*value)),
{
    match value {
        Some(token) => {
            let trimmed: String = text::trim(token);
            if text::char_count(&trimmed) > 0 {
                Some(trimmed)
            } else {
                None
            }
        },
        None => None,
    }
}

/// The lines that say who asks, where a token is given.
pub open spec fn authorization_line(token: Option<Seq<char>>) -> Seq<char> {
    match token {
        Some(token) => "Authorization: Bearer "@ + token + "\r\n"@,
        None => Seq::empty(),
    }
}

/// The lines that describe a body, where there is one.
pub open spec fn body_lines(body_length: int) -> Seq<char> {
    if body_length == 0 {
        Seq::empty()
    } else {
        "Content-Type: application/json\r\nContent-Length: "@ + text::spec_decimal_of(body_length)
            + "\r\n"@
    }
}

/// The head of a request, up to the body.
pub open spec fn spec_request_head(
    method: Seq<char>,
    path: Seq<char>,
    host: Seq<char>,
    token: Option<Seq<char>>,
    body_length: int,
) -> Seq<char> {
    method + " "@ + path + " HTTP/1.1\r\nHost: "@ + host
        + "\r\nAccept: application/json\r\nConnection: close\r\n"@ + authorization_line(token)
        + body_lines(body_length) + "\r\n"@
}

/// The head of a request, up to the body.
pub fn request_head(
    method: &str,
    path: &str,
    host: &str,
    token: &Option<String>,
    body_length: usize,
) -> (r: String)
    ensures
        r@ == spec_request_head(
            method@,
            path@,
            host@,
            contents::view_option(*token),
            body_length as int,
        ),
{
    let line: String = text::concat5(method, " ", path, " HTTP/1.1\r\nHost: ", host);
    let authorization: String = match token {
        Some(token) => text::concat3("Authorization: Bearer ", token, "\r\n"),
        None => String::new(),
    };
    let body: String = if body_length == 0 {
        String::new()
    } else {
        text::concat3(
            "Content-Type: application/json\r\nContent-Length: ",
            &text::decimal_of(body_length),
            "\r\n",
        )
    };
    text::concat5(
        &line,
        "\r\nAccept: application/json\r\nConnection: close\r\n",
        &authorization,
        &body,
        "\r\n",
    )
}

/// The bytes stand in the others at the position.
pub open spec fn bytes_at(bytes: Seq<u8>, pattern: Seq<u8>, i: int) -> bool {
    &&& 0 <= i
    &&& i + pattern.len() <= bytes.len()
    &&& bytes.subrange(i, i + pattern.len()) == pattern
}

/// The first position from `i` on at which the bytes stand in the others.
pub open spec fn find_bytes(bytes: Seq<u8>, pattern: Seq<u8>, i: int) -> Option<int>
    decreases bytes.len() - i + 1,
{
    if i + pattern.len() > bytes.len() {
        None
    } else if bytes_at(bytes, pattern, i) {
        Some(i)
    } else {
        find_bytes(bytes, pattern, i + 1)
    }
}

/// A found position lies inside.
proof fn found_bytes_lie_inside(bytes: Seq<u8>, pattern: Seq<u8>, i: int)
    requires
        0 <= i,
    ensures
        find_bytes(bytes, pattern, i) matches Some(k) ==> i <= k && k + pattern.len()
            <= bytes.len(),
    decreases bytes.len() - i + 1,
{
    if i + pattern.len() <= bytes.len() && !bytes_at(bytes, pattern, i) {
        found_bytes_lie_inside(bytes, pattern, i + 1);
    }
}

/// The bytes that end a line.
pub open spec fn line_end() -> Seq<u8> {
    seq![13u8, 10u8]
}

/// The bytes that end the head of a response.
pub open spec fn head_end() -> Seq<u8> {
    seq![13u8, 10u8, 13u8, 10u8]
}

/// The first position from `start` on at which a line ends.
fn find_line_end(bytes: &[u8], start: usize) -> (r: Option<usize>)
    requires
        start <= bytes@.len(),
    ensures
        match r {
            Some(k) => find_bytes(bytes@, line_end(), start as int) == Some(k as int) && start <= k
                && k + 2 <= bytes@.len(),
            None => find_bytes(bytes@, line_end(), start as int) is None,
        },
{
    let mut i: usize = start;
    while bytes.len() - i >= 2
        invariant
            start <= i <= bytes@.len(),
            find_bytes(bytes@, line_end(), start as int) == find_bytes(
                bytes@,
                line_end(),
                i as int,
            ),
        decreases bytes@.len() - i,
    {
        let here: bool = bytes[i] == 13u8 && bytes[i + 1] == 10u8;
        assert(here == bytes_at(bytes@, line_end(), i as int)) by {
            let part = bytes@.subrange(i as int, i + 2);
            assert(part[0] == bytes@[i as int] && part[1] == bytes@[i + 1]);
            assert(line_end()[0] == 13u8 && line_end()[1] == 10u8);
            if here {
                assert(part =~= line_end());
            }
        }
        if here {
            return Some(i);
        }
        i = i + 1;
    }
    None
}

/// Where the head of a response ends.
pub fn find_http_header_end(response: &[u8]) -> (r: Option<usize>)
    ensures
        match r {
            Some(k) => find_bytes(response@, head_end(), 0) == Some(k as int) && k + 4
                <= response@.len(),
            None => find_bytes(response@, head_end(), 0) is None,
        },
{
    let mut i: usize = 0;
    while response.len() - i >= 4
        invariant
            i <= response@.len(),
            find_bytes(response@, head_end(), 0) == find_bytes(response@, head_end(), i as int),
        decreases response@.len() - i,
    {
        let here: bool = response[i] == 13u8 && response[i + 1] == 10u8 && response[i + 2] == 13u8
            && response[i + 3] == 10u8;
        assert(here == bytes_at(response@, head_end(), i as int)) by {
            let part = response@.subrange(i as int, i + 4);
            assert(part[0] == response@[i as int] && part[1] == response@[i + 1] && part[2]
                == response@[i + 2] && part[3] == response@[i + 3]);
            assert(head_end()[0] == 13u8 && head_end()[1] == 10u8 && head_end()[2] == 13u8
                && head_end()[3] == 10u8);
            if here {
                assert(part =~= head_end());
            }
        }
        if here {
            return Some(i);
        }
        i = i + 1;
    }
    None
}

/// What is said of bytes that are no UTF-8.
pub uninterp spec fn utf8_fault(bytes: Seq<u8>) -> Seq<char>;

/// `std::str::from_utf8`: the text that the bytes encode in UTF-8, or the message of the error
/// where they encode none.
#[verifier::external_body]
pub(crate) fn text_of_bytes(bytes: &[u8]) -> (r: Result<String, String>)
    ensures
        match r {
            Ok(text) => utf8::valid_utf8(bytes@) && text@ == utf8::decode_utf8(bytes@),
            Err(message) => !utf8::valid_utf8(bytes@) && message@ == utf8_fault(bytes@),
        },
{
    match std::str::from_utf8(bytes) {
        Ok(text) => Ok(text.to_string()),
        Err(error) => Err(error.to_string()),
    }
}

/// The text that bytes stand for where those that are no UTF-8 give way to a mark.
pub uninterp spec fn lossy_text(bytes: Seq<u8>) -> Seq<char>;

/// `String::from_utf8_lossy`: the text that the bytes encode in UTF-8, with a mark for what encodes
/// nothing. Where all of them encode something it is the text itself.
#[verifier::external_body]
pub(crate) fn lossy_text_of_bytes(bytes: &[u8]) -> (r: String)
    ensures
        r@ == lossy_text(bytes@),
        utf8::valid_utf8(bytes@) ==> r@ == utf8::decode_utf8(bytes@),
{
    String::from_utf8_lossy(bytes).to_string()
}

/// The value of the first line from a position on that is the header with the name.
pub open spec fn header_value(lines: Seq<Seq<char>>, name: Seq<char>, i: int) -> Option<Seq<char>>
    decreases lines.len() - i,
{
    if i >= lines.len() {
        None
    } else {
        match text::spec_split_once(lines[i], ":"@) {
            Some((key, value)) => if text::spec_same_ignoring_case(key, name) {
                Some(value)
            } else {
                header_value(lines, name, i + 1)
            },
            None => header_value(lines, name, i + 1),
        }
    }
}

/// The length of the body that the headers give, if they give one.
pub open spec fn spec_http_content_length(headers: Seq<char>) -> Result<
    Option<int>,
    error::ErrorView,
> {
    match header_value(text::spec_lines(headers), "content-length"@, 0) {
        None => Ok(None),
        Some(value) => match integers::spec_parse(
            text::spec_trim(value),
            10,
            usize::MAX as int,
        ) {
            Ok(length) => Ok(Some(length)),
            Err(fault) => Err(
                error::ErrorView::Runtime(
                    "local runtime returned an invalid Content-Length '"@ + text::spec_trim(value)
                        + "': "@ + integers::spec_fault_message(fault),
                ),
            ),
        },
    }
}

/// The contents of an outcome that is an optional length.
pub open spec fn length_outcome(result: Result<Option<usize>, CompressionError>) -> Result<
    Option<int>,
    error::ErrorView,
> {
    match result {
        Ok(Some(length)) => Ok(Some(length as int)),
        Ok(None) => Ok(None),
        Err(error) => Err(error@),
    }
}

/// The length of the body that the headers give, if they give one.
pub fn http_content_length(headers: &str) -> (r: Result<Option<usize>, CompressionError>)
    ensures
        length_outcome(r) == spec_http_content_length(headers@),
{
    let lines: Vec<String> = text::lines(headers);
    let ghost views = contents::views(lines@);
    let mut i: usize = 0;
    while i < lines.len()
        invariant
            i <= lines@.len(),
            views == contents::views(lines@),
            views == text::spec_lines(headers@),
            header_value(views, "content-length"@, 0) == header_value(
                views,
                "content-length"@,
                i as int,
            ),
        decreases lines@.len() - i,
    {
        assert(views[i as int] == lines@[i as int]@);
        match text::split_once(&lines[i], ":") {
            Some((key, value)) => {
                if text::same_ignoring_case(&key, "content-length") {
                    let trimmed: String = text::trim(&value);
                    return match integers::parse(&trimmed, 10, usize::MAX as u64) {
                        Ok(length) => Ok(Some(length as usize)),
                        Err(fault) => Err(
                            CompressionError::Runtime(
                                text::concat4(
                                    "local runtime returned an invalid Content-Length '",
                                    &trimmed,
                                    "': ",
                                    fault.message(),
                                ),
                            ),
                        ),
                    };
                }
            },
            None => {},
        }
        i = i + 1;
    }
    Ok(None)
}

/// The line says that the body comes in chunks.
pub open spec fn announces_chunks(line: Seq<char>) -> bool {
    match text::spec_split_once(line, ":"@) {
        Some((key, value)) => text::spec_same_ignoring_case(key, "transfer-encoding"@)
            && text::spec_contains(text::spec_lowercase(value), "chunked"@),
        None => false,
    }
}

/// The headers say that the body comes in chunks.
pub open spec fn spec_has_chunked_transfer_encoding(headers: Seq<char>) -> bool {
    exists|i: int|
        0 <= i < text::spec_lines(headers).len() && announces_chunks(
            #[trigger] text::spec_lines(headers)[i],
        )
}

/// Whether the headers say that the body comes in chunks.
pub fn has_chunked_transfer_encoding(headers: &str) -> (r: bool)
    ensures
        r == spec_has_chunked_transfer_encoding(headers@),
{
    let lines: Vec<String> = text::lines(headers);
    let ghost views = text::spec_lines(headers@);
    let mut i: usize = 0;
    while i < lines.len()
        invariant
            i <= lines@.len(),
            views == contents::views(lines@),
            views == text::spec_lines(headers@),
            forall|j: int| 0 <= j < i ==> !announces_chunks(#[trigger] views[j]),
        decreases lines@.len() - i,
    {
        assert(views[i as int] == lines@[i as int]@);
        match text::split_once(&lines[i], ":") {
            Some((key, value)) => {
                if text::same_ignoring_case(&key, "transfer-encoding") && text::contains(
                    &text::lowercase(&value),
                    "chunked",
                ) {
                    assert(announces_chunks(views[i as int]));
                    return true;
                }
            },
            None => {},
        }
        i = i + 1;
    }
    false
}

/// The size that the line before a chunk gives: hexadecimal digits, up to the first semicolon.
pub open spec fn chunk_size(line: Seq<u8>) -> Result<int, error::ErrorView> {
    if !utf8::valid_utf8(line) {
        Err(error::ErrorView::Runtime("chunk size was not UTF-8: "@ + utf8_fault(line)))
    } else {
        let digits = text::spec_trim(text::spec_head_until(utf8::decode_utf8(line), ";"@));
        match integers::spec_parse(digits, 16, usize::MAX as int) {
            Ok(size) => Ok(size),
            Err(fault) => Err(
                error::ErrorView::Runtime(
                    "invalid chunk size '"@ + digits + "': "@ + integers::spec_fault_message(fault),
                ),
            ),
        }
    }
}

/// The contents of an outcome that is a size.
pub open spec fn size_outcome(result: Result<usize, CompressionError>) -> Result<
    int,
    error::ErrorView,
> {
    match result {
        Ok(size) => Ok(size as int),
        Err(error) => Err(error@),
    }
}

/// Reads the size that the line before a chunk gives.
fn read_chunk_size(line: &[u8]) -> (r: Result<usize, CompressionError>)
    ensures
        size_outcome(r) == chunk_size(line@),
{
    let size_line: String = match text_of_bytes(line) {
        Ok(text) => text,
        Err(message) => {
            return Err(
                CompressionError::Runtime(text::concat2("chunk size was not UTF-8: ", &message)),
            );
        },
    };
    let digits: String = text::trim(&text::head_until(&size_line, ";"));
    match integers::parse(&digits, 16, usize::MAX as u64) {
        Ok(size) => Ok(size as usize),
        Err(fault) => Err(
            CompressionError::Runtime(
                text::concat4("invalid chunk size '", &digits, "': ", fault.message()),
            ),
        ),
    }
}

/// What stands at the start of a body in chunks.
pub enum ChunkView {
    /// The line with the size has not ended.
    Unfinished,
    /// The line with the size cannot be read.
    Faulty(error::ErrorView),
    /// The last chunk, which is empty.
    Last,
    /// A chunk that has not ended.
    Short,
    /// A chunk, from the first position up to the second; the next one begins two after it.
    Whole(int, int),
}

/// What stands at a position of a body in chunks.
pub open spec fn chunk_at(body: Seq<u8>, i: int) -> ChunkView {
    match find_bytes(body, line_end(), i) {
        None => ChunkView::Unfinished,
        Some(end) => match chunk_size(body.subrange(i, end)) {
            Err(error) => ChunkView::Faulty(error),
            Ok(size) => if size == 0 {
                ChunkView::Last
            } else if body.len() < end + 2 + size + 2 {
                ChunkView::Short
            } else {
                ChunkView::Whole(end + 2, end + 2 + size)
            },
        },
    }
}

/// A chunk lies inside the body.
proof fn whole_chunk_lies_inside(body: Seq<u8>, i: int)
    requires
        0 <= i <= body.len(),
    ensures
        chunk_at(body, i) matches ChunkView::Whole(start, end) ==> i < start < end && end + 2
            <= body.len(),
{
    found_bytes_lie_inside(body, line_end(), i);
    match find_bytes(body, line_end(), i) {
        Some(end) => {
            match chunk_size(body.subrange(i, end)) {
                Ok(size) => {
                    chunk_sizes_are_natural(body.subrange(i, end));
                },
                Err(_) => {},
            }
        },
        None => {},
    }
}

/// Numbers that are read are no less than those they began with.
proof fn digits_are_natural(text: Seq<char>, i: int, read: int, base: int, max: int)
    requires
        2 <= base <= 16,
        0 <= read,
    ensures
        integers::digits_from(text, i, read, base, max) matches Ok(value) ==> value >= 0,
    decreases text.len() - i,
{
    if i < text.len() {
        match integers::digit_value(text[i], base) {
            Some(value) => {
                assert(0 <= read * base) by (nonlinear_arith)
                    requires
                        0 <= read,
                        2 <= base,
                ;
                digits_are_natural(text, i + 1, read * base + value, base, max);
            },
            None => {},
        }
    }
}

/// The size of a chunk is not negative.
proof fn chunk_sizes_are_natural(line: Seq<u8>)
    ensures
        chunk_size(line) matches Ok(size) ==> size >= 0,
{
    let digits = text::spec_trim(text::spec_head_until(utf8::decode_utf8(line), ";"@));
    digits_are_natural(digits, 1, 0, 16, usize::MAX as int);
    digits_are_natural(digits, 0, 0, 16, usize::MAX as int);
}

/// What stands at a position of a body in chunks.
enum Chunk {
    Unfinished,
    Faulty(CompressionError),
    Last,
    Short,
    Whole(usize, usize),
}

impl Chunk {
    spec fn spec_view(self) -> ChunkView {
        match self {
            Chunk::Unfinished => ChunkView::Unfinished,
            Chunk::Faulty(error) => ChunkView::Faulty(error@),
            Chunk::Last => ChunkView::Last,
            Chunk::Short => ChunkView::Short,
            Chunk::Whole(start, end) => ChunkView::Whole(start as int, end as int),
        }
    }
}

/// Reads what stands at a position of a body in chunks.
fn read_chunk(body: &[u8], i: usize) -> (r: Chunk)
    requires
        i <= body@.len(),
    ensures
        r.spec_view() == chunk_at(body@, i as int),
        r matches Chunk::Whole(start, end) ==> i < start < end && end + 2 <= body@.len(),
{
    proof {
        whole_chunk_lies_inside(body@, i as int);
    }
    let end: usize = match find_line_end(body, i) {
        Some(end) => end,
        None => {
            return Chunk::Unfinished;
        },
    };
    let line: &[u8] = vstd::slice::slice_subrange(body, i, end);
    match read_chunk_size(line) {
        Err(error) => Chunk::Faulty(error),
        Ok(size) => {
            if size == 0 {
                Chunk::Last
            } else {
                let total: usize = body.len();
                let start: usize = end + 2;
                let left: usize = total - start;
                if left < 2 || left - 2 < size {
                    Chunk::Short
                } else {
                    Chunk::Whole(start, start + size)
                }
            }
        },
    }
}

/// The body in chunks is complete from a position on.
pub open spec fn chunks_complete_from(body: Seq<u8>, i: int) -> Result<bool, error::ErrorView>
    decreases body.len() - i,
    via chunks_complete_from_decreases
{
    if i < 0 || i > body.len() {
        Ok(false)
    } else {
        match chunk_at(body, i) {
            ChunkView::Unfinished => Ok(false),
            ChunkView::Faulty(error) => Err(error),
            ChunkView::Last => Ok(true),
            ChunkView::Short => Ok(false),
            ChunkView::Whole(_, end) => chunks_complete_from(body, end + 2),
        }
    }
}

#[via_fn]
proof fn chunks_complete_from_decreases(body: Seq<u8>, i: int) {
    if 0 <= i <= body.len() {
        whole_chunk_lies_inside(body, i);
    }
}

/// Whether a body in chunks is complete.
pub fn is_complete_chunked_body(body: &[u8]) -> (r: Result<bool, CompressionError>)
    ensures
        error::outcome(r) == chunks_complete_from(body@, 0),
{
    let total: usize = body.len();
    let mut i: usize = 0;
    loop
        invariant
            total == body@.len(),
            i <= body@.len(),
            chunks_complete_from(body@, 0) == chunks_complete_from(body@, i as int),
        decreases body@.len() - i,
    {
        match read_chunk(body, i) {
            Chunk::Unfinished => {
                return Ok(false);
            },
            Chunk::Faulty(error) => {
                return Err(error);
            },
            Chunk::Last => {
                return Ok(true);
            },
            Chunk::Short => {
                return Ok(false);
            },
            Chunk::Whole(_, end) => {
                i = end + 2;
            },
        }
    }
}

/// The bytes that the chunks from a position on hold.
pub open spec fn decoded_from(body: Seq<u8>, i: int) -> Result<Seq<u8>, error::ErrorView>
    decreases body.len() - i,
    via decoded_from_decreases
{
    if i < 0 || i > body.len() {
        Ok(Seq::empty())
    } else {
        match chunk_at(body, i) {
            ChunkView::Unfinished => Err(
                error::ErrorView::Runtime("chunked local runtime response was truncated"@),
            ),
            ChunkView::Faulty(error) => Err(error),
            ChunkView::Last => Ok(Seq::empty()),
            ChunkView::Short => Err(
                error::ErrorView::Runtime(
                    "chunked local runtime response body was shorter than declared"@,
                ),
            ),
            ChunkView::Whole(start, end) => match decoded_from(body, end + 2) {
                Ok(rest) => Ok(body.subrange(start, end) + rest),
                Err(error) => Err(error),
            },
        }
    }
}

#[via_fn]
proof fn decoded_from_decreases(body: Seq<u8>, i: int) {
    if 0 <= i <= body.len() {
        whole_chunk_lies_inside(body, i);
    }
}

/// The contents of an outcome that is a list of bytes.
pub open spec fn bytes_outcome(result: Result<Vec<u8>, CompressionError>) -> Result<
    Seq<u8>,
    error::ErrorView,
> {
    match result {
        Ok(bytes) => Ok(bytes@),
        Err(error) => Err(error@),
    }
}

/// Puts the bytes of a slice after those of a list.
fn append_bytes(list: &mut Vec<u8>, bytes: &[u8], start: usize, end: usize)
    requires
        start <= end <= bytes@.len(),
    ensures
        final(list)@ == old(list)@ + bytes@.subrange(start as int, end as int),
{
    let mut i: usize = start;
    assert(bytes@.subrange(start as int, i as int) =~= Seq::empty());
    assert(list@ =~= old(list)@ + bytes@.subrange(start as int, i as int));
    while i < end
        invariant
            start <= i <= end <= bytes@.len(),
            list@ == old(list)@ + bytes@.subrange(start as int, i as int),
        decreases end - i,
    {
        list.push(bytes[i]);
        assert(bytes@.subrange(start as int, i + 1) =~= bytes@.subrange(
            start as int,
            i as int,
        ).push(bytes@[i as int]));
        assert(list@ =~= old(list)@ + bytes@.subrange(start as int, i + 1));
        i = i + 1;
    }
}

/// The bytes that a body in chunks holds.
pub fn decode_chunked_body(body: &[u8]) -> (r: Result<Vec<u8>, CompressionError>)
    ensures
        bytes_outcome(r) == decoded_from(body@, 0),
{
    let total: usize = body.len();
    let mut decoded: Vec<u8> = Vec::new();
    let mut i: usize = 0;
    proof {
        match decoded_from(body@, 0) {
            Ok(rest) => {
                assert(decoded@ + rest =~= rest);
            },
            Err(_) => {},
        }
    }
    loop
        invariant
            total == body@.len(),
            i <= body@.len(),
            match decoded_from(body@, i as int) {
                Ok(rest) => decoded_from(body@, 0) == Ok::<Seq<u8>, error::ErrorView>(
                    decoded@ + rest,
                ),
                Err(error) => decoded_from(body@, 0) == Err::<Seq<u8>, error::ErrorView>(error),
            },
        decreases body@.len() - i,
    {
        match read_chunk(body, i) {
            Chunk::Unfinished => {
                return Err(
                    CompressionError::Runtime(
                        "chunked local runtime response was truncated".to_owned(),
                    ),
                );
            },
            Chunk::Faulty(error) => {
                return Err(error);
            },
            Chunk::Last => {
                assert(decoded@ + Seq::<u8>::empty() =~= decoded@);
                return Ok(decoded);
            },
            Chunk::Short => {
                return Err(
                    CompressionError::Runtime(
                        "chunked local runtime response body was shorter than declared".to_owned(),
                    ),
                );
            },
            Chunk::Whole(start, end) => {
                let ghost before = decoded@;
                append_bytes(&mut decoded, body, start, end);
                proof {
                    match decoded_from(body@, end + 2) {
                        Ok(rest) => {
                            assert(before + (body@.subrange(start as int, end as int) + rest)
                                =~= decoded@ + rest);
                        },
                        Err(_) => {},
                    }
                }
                i = end + 2;
            },
        }
    }
}

/// A body in chunks can be decoded exactly where it is complete.
pub proof fn complete_chunks_can_be_decoded(body: Seq<u8>, i: int)
    requires
        0 <= i <= body.len(),
    ensures
        decoded_from(body, i) is Ok <==> chunks_complete_from(body, i) == Ok::<
            bool,
            error::ErrorView,
        >(true),
    decreases body.len() - i,
{
    whole_chunk_lies_inside(body, i);
    match chunk_at(body, i) {
        ChunkView::Whole(_, end) => {
            complete_chunks_can_be_decoded(body, end + 2);
        },
        _ => {},
    }
}

/// A number in small hexadecimal digits.
pub open spec fn hex_number(n: nat) -> Seq<char>
    decreases n,
{
    if n < 16 {
        seq![digest::hex_digit(n as int)]
    } else {
        hex_number(n / 16).push(digest::hex_digit(n as int % 16))
    }
}

/// The bytes of a body in chunks: before each chunk a line with its size, after it the end of the
/// line, and at last an empty chunk.
pub open spec fn encoded_chunks(chunks: Seq<Seq<u8>>) -> Seq<u8>
    decreases chunks.len(),
{
    if chunks.len() == 0 {
        utf8::encode_utf8(hex_number(0)) + line_end() + line_end()
    } else {
        utf8::encode_utf8(hex_number(chunks[0].len())) + line_end() + chunks[0] + line_end()
            + encoded_chunks(chunks.skip(1))
    }
}

/// The character is a hexadecimal digit, which is neither white space nor a mark.
spec fn is_hex_character(c: char) -> bool {
    '0' <= c <= '9' || 'a' <= c <= 'f'
}

/// A number is written in hexadecimal digits.
proof fn hex_numbers_are_digits(n: nat)
    ensures
        hex_number(n).len() > 0,
        forall|i: int| 0 <= i < hex_number(n).len() ==> is_hex_character(#[trigger] hex_number(n)[i]),
    decreases n,
{
    assert forall|v: int| 0 <= v < 16 implies is_hex_character(#[trigger] digest::hex_digit(v)) by {
        hex_digits_have_values(v);
    }
    if n >= 16 {
        hex_numbers_are_digits(n / 16);
    }
}

/// A hexadecimal digit has the value that it is written for.
proof fn hex_digits_have_values(v: int)
    requires
        0 <= v < 16,
    ensures
        is_hex_character(digest::hex_digit(v)),
        integers::digit_value(digest::hex_digit(v), 16) == Some(v),
{
    assert(digest::hex_digit(v) as int == (if v < 10 {
        48 + v
    } else {
        87 + v
    }));
}

/// One more digit makes a number sixteen times as great and adds to it.
proof fn digit_is_added(text: Seq<char>, c: char, i: int, read: int, value: int, max: int)
    requires
        0 <= i <= text.len(),
        integers::digits_from(text, i, read, 16, max) == Ok::<int, NumberFault>(value),
        integers::digit_value(c, 16) is Some,
        value * 16 + integers::digit_value(c, 16)->0 <= max,
    ensures
        integers::digits_from(text.push(c), i, read, 16, max) == Ok::<int, NumberFault>(
            value * 16 + integers::digit_value(c, 16)->0,
        ),
    decreases text.len() - i,
{
    let more = text.push(c);
    if i == text.len() {
        assert(more[i] == c);
        assert(integers::digits_from(more, i + 1, read * 16 + integers::digit_value(c, 16)->0, 16, max)
            == Ok::<int, NumberFault>(read * 16 + integers::digit_value(c, 16)->0));
    } else {
        assert(more[i] == text[i]);
        let next = read * 16 + integers::digit_value(text[i], 16)->0;
        digit_is_added(text, c, i + 1, next, value, max);
    }
}

/// A number that is written is read back.
proof fn hex_number_is_read(n: nat, max: int)
    requires
        n <= max,
    ensures
        integers::digits_from(hex_number(n), 0, 0, 16, max) == Ok::<int, NumberFault>(n as int),
    decreases n,
{
    hex_digits_have_values(n as int % 16);
    if n < 16 {
        let text = hex_number(n);
        assert(text.len() == 1 && text[0] == digest::hex_digit(n as int));
        hex_digits_have_values(n as int);
        assert(integers::digits_from(text, 1, n as int, 16, max) == Ok::<int, NumberFault>(
            n as int,
        ));
    } else {
        hex_number_is_read(n / 16, max);
        digit_is_added(
            hex_number(n / 16),
            digest::hex_digit(n as int % 16),
            0,
            0,
            (n / 16) as int,
            max,
        );
    }
}

/// A text without a character of a set stands before the first of them as a whole.
proof fn nothing_is_cut_off(text: Seq<char>, set: Seq<char>)
    requires
        forall|i: int| 0 <= i < text.len() ==> !set.contains(#[trigger] text[i]),
    ensures
        text::spec_head_until(text, set) == text,
    decreases text.len(),
{
    if text.len() > 0 {
        assert(text.first() == text[0]);
        assert forall|i: int| 0 <= i < text.drop_first().len() implies !set.contains(
            #[trigger] text.drop_first()[i],
        ) by {
            assert(text.drop_first()[i] == text[i + 1]);
        }
        nothing_is_cut_off(text.drop_first(), set);
        assert(seq![text.first()] + text.drop_first() =~= text);
    }
}

/// The size that is written before a chunk is read back.
proof fn written_size_is_read(n: nat)
    requires
        n <= usize::MAX,
    ensures
        chunk_size(utf8::encode_utf8(hex_number(n))) == Ok::<int, error::ErrorView>(n as int),
        forall|i: int|
            0 <= i < utf8::encode_utf8(hex_number(n)).len() ==> #[trigger] utf8::encode_utf8(
                hex_number(n),
            )[i] != 13,
{
    let digits = hex_number(n);
    let line = utf8::encode_utf8(digits);
    hex_numbers_are_digits(n);
    utf8::encode_utf8_valid_utf8(digits);
    utf8::encode_utf8_decode_utf8(digits);
    assert(utf8::is_ascii_chars(digits)) by {
        assert forall|i: int| 0 <= i < digits.len() implies '\0' <= #[trigger] digits[i]
            <= '\u{7f}' by {
            assert(is_hex_character(digits[i]));
        }
    }
    utf8::is_ascii_chars_encode_utf8(digits);
    assert forall|i: int| 0 <= i < line.len() implies #[trigger] line[i] != 13 by {
        assert(is_hex_character(digits[i]));
        assert(digits[i] as u8 == line[i]);
    }
    reveal_strlit(";");
    assert forall|i: int| 0 <= i < digits.len() implies !";"@.contains(#[trigger] digits[i]) by {
        assert(is_hex_character(digits[i]));
        assert(";"@[0] == ';');
    }
    nothing_is_cut_off(digits, ";"@);
    assert(is_hex_character(digits[0]));
    assert(is_hex_character(digits[digits.len() - 1]));
    assert(text::spec_trim(digits) == digits);
    hex_number_is_read(n, usize::MAX as int);
}

/// A line that holds no carriage return ends at the first end of a line after it.
proof fn line_end_is_found(body: Seq<u8>, i: int, end: int)
    requires
        0 <= i <= end,
        end + 2 <= body.len(),
        forall|k: int| i <= k < end ==> #[trigger] body[k] != 13,
        body[end] == 13,
        body[end + 1] == 10,
    ensures
        find_bytes(body, line_end(), i) == Some(end),
    decreases end - i,
{
    if i == end {
        assert(body.subrange(end, end + 2) =~= line_end());
    } else {
        assert(body.subrange(i, i + 2)[0] == body[i]);
        assert(line_end()[0] == 13);
        line_end_is_found(body, i + 1, end);
    }
}

/// A chunk that is written at a position is found there.
proof fn written_chunk_is_found(body: Seq<u8>, i: int, chunk: Seq<u8>, rest: Seq<u8>)
    requires
        0 <= i <= body.len(),
        chunk.len() <= usize::MAX,
        body.skip(i) == utf8::encode_utf8(hex_number(chunk.len())) + line_end() + chunk
            + line_end() + rest,
    ensures
        ({
            let start = i + utf8::encode_utf8(hex_number(chunk.len())).len() + 2;
            let end = start + chunk.len();
            &&& end + 2 <= body.len()
            &&& chunk_at(body, i) == (if chunk.len() == 0 {
                ChunkView::Last
            } else {
                ChunkView::Whole(start, end)
            })
            &&& body.subrange(start, end) == chunk
            &&& body.skip(end + 2) == rest
        }),
{
    let line = utf8::encode_utf8(hex_number(chunk.len()));
    let written = line + line_end() + chunk + line_end() + rest;
    let size: int = line.len() as int;
    let line_stop = i + size;
    let start = line_stop + 2;
    let end = start + chunk.len();
    written_size_is_read(chunk.len());
    assert(body.len() == i + written.len());
    assert forall|k: int| 0 <= k < written.len() implies body[i + k] == #[trigger] written[k] by {
        assert(body.skip(i)[k] == body[i + k]);
    }
    assert forall|k: int| i <= k < line_stop implies #[trigger] body[k] != 13 by {
        assert(written[k - i] == line[k - i]);
        assert(body[i + (k - i)] == written[k - i]);
    }
    assert(written[size] == 13 && written[size + 1] == 10);
    assert(body[line_stop] == 13) by {
        assert(body[i + size] == written[size]);
    }
    assert(body[line_stop + 1] == 10) by {
        assert(body[i + (size + 1)] == written[size + 1]);
    }
    line_end_is_found(body, i, line_stop);
    assert(body.subrange(i, line_stop) =~= line) by {
        assert forall|k: int| 0 <= k < line.len() implies body.subrange(i, line_stop)[k]
            == line[k] by {
            assert(body[i + k] == written[k]);
        }
    }
    assert(body.subrange(start, end) =~= chunk) by {
        assert forall|k: int| 0 <= k < chunk.len() implies body.subrange(start, end)[k]
            == chunk[k] by {
            assert(body[i + (size + 2 + k)] == written[size + 2 + k]);
        }
    }
    assert(body.skip(end + 2) =~= rest) by {
        assert forall|k: int| 0 <= k < rest.len() implies body.skip(end + 2)[k] == rest[k] by {
            assert(body[i + (size + 2 + chunk.len() + 2 + k)] == written[size + 2
                + chunk.len() + 2 + k]);
        }
    }
}

/// Chunks that are written from a position of a body on are read back, one after the other.
proof fn written_chunks_are_read_from(body: Seq<u8>, i: int, chunks: Seq<Seq<u8>>)
    requires
        0 <= i <= body.len(),
        body.skip(i) == encoded_chunks(chunks),
        forall|k: int| 0 <= k < chunks.len() ==> 0 < (#[trigger] chunks[k]).len() <= usize::MAX,
    ensures
        decoded_from(body, i) == Ok::<Seq<u8>, error::ErrorView>(chunks.flatten()),
    decreases chunks.len(),
{
    if chunks.len() == 0 {
        let none = Seq::<u8>::empty();
        assert(encoded_chunks(chunks) =~= utf8::encode_utf8(hex_number(0)) + line_end() + none
            + line_end() + none);
        written_chunk_is_found(body, i, none, none);
    } else {
        let rest = encoded_chunks(chunks.skip(1));
        written_chunk_is_found(body, i, chunks[0], rest);
        let end = i + utf8::encode_utf8(hex_number(chunks[0].len())).len() + 2 + chunks[0].len();
        written_chunks_are_read_from(body, end + 2, chunks.skip(1));
        assert(chunks.drop_first() =~= chunks.skip(1));
    }
}

/// What is written in chunks is read back: a body in chunks, none of which is empty, is complete
/// and holds the chunks one after the other.
pub proof fn written_chunks_are_read_back(chunks: Seq<Seq<u8>>)
    requires
        forall|k: int| 0 <= k < chunks.len() ==> 0 < (#[trigger] chunks[k]).len() <= usize::MAX,
    ensures
        decoded_from(encoded_chunks(chunks), 0) == Ok::<Seq<u8>, error::ErrorView>(
            chunks.flatten(),
        ),
        chunks_complete_from(encoded_chunks(chunks), 0) == Ok::<bool, error::ErrorView>(true),
{
    let body = encoded_chunks(chunks);
    assert(body.skip(0) =~= body);
    written_chunks_are_read_from(body, 0, chunks);
    complete_chunks_can_be_decoded(body, 0);
}

/// The status that the first line of the headers gives.
pub open spec fn spec_parse_http_status(headers: Seq<char>) -> Result<int, error::ErrorView> {
    let lines = text::spec_lines(headers);
    if lines.len() == 0 {
        Err(error::ErrorView::Runtime("local runtime response had no status line"@))
    } else {
        let words = text::spec_words(lines[0]);
        if words.len() < 2 {
            Err(
                error::ErrorView::Runtime(
                    "local runtime response status was malformed: "@ + lines[0],
                ),
            )
        } else {
            match integers::spec_parse(words[1], 10, 65535) {
                Ok(status) => Ok(status),
                Err(fault) => Err(
                    error::ErrorView::Runtime(
                        "local runtime response status was invalid: "@
                            + integers::spec_fault_message(fault),
                    ),
                ),
            }
        }
    }
}

/// The contents of an outcome that is a status.
pub open spec fn status_outcome(result: Result<u16, CompressionError>) -> Result<
    int,
    error::ErrorView,
> {
    match result {
        Ok(status) => Ok(status as int),
        Err(error) => Err(error@),
    }
}

/// The status that the first line of the headers gives.
pub fn parse_http_status(headers: &str) -> (r: Result<u16, CompressionError>)
    ensures
        status_outcome(r) == spec_parse_http_status(headers@),
{
    let lines: Vec<String> = text::lines(headers);
    assert(contents::views(lines@).len() == lines@.len());
    if lines.len() == 0 {
        return Err(
            CompressionError::Runtime("local runtime response had no status line".to_owned()),
        );
    }
    assert(contents::views(lines@)[0] == lines@[0]@);
    let words: Vec<String> = text::words(&lines[0]);
    assert(contents::views(words@).len() == words@.len());
    if words.len() < 2 {
        return Err(
            CompressionError::Runtime(
                text::concat2("local runtime response status was malformed: ", &lines[0]),
            ),
        );
    }
    assert(contents::views(words@)[1] == words@[1]@);
    match integers::parse(&words[1], 10, 65535) {
        Ok(status) => Ok(status as u16),
        Err(fault) => Err(
            CompressionError::Runtime(
                text::concat2("local runtime response status was invalid: ", fault.message()),
            ),
        ),
    }
}

/// The error for headers that are no UTF-8.
pub open spec fn headers_fault(head: Seq<u8>) -> error::ErrorView {
    error::ErrorView::Runtime(
        "local runtime response headers were not UTF-8: "@ + utf8_fault(head),
    )
}

/// Reads the headers of a response.
fn read_headers(head: &[u8]) -> (r: Result<String, CompressionError>)
    ensures
        match r {
            Ok(headers) => utf8::valid_utf8(head@) && headers@ == utf8::decode_utf8(head@),
            Err(error) => !utf8::valid_utf8(head@) && error@ == headers_fault(head@),
        },
{
    match text_of_bytes(head) {
        Ok(headers) => Ok(headers),
        Err(message) => Err(
            CompressionError::Runtime(
                text::concat2("local runtime response headers were not UTF-8: ", &message),
            ),
        ),
    }
}

/// What a response says by its status and body: the body where the status tells of success, else
/// an error.
pub open spec fn answer_of(status: int, body: Seq<char>) -> Result<Seq<char>, error::ErrorView> {
    if 200 <= status < 300 {
        Ok(body)
    } else {
        Err(
            error::ErrorView::Runtime(
                "local runtime returned HTTP "@ + text::spec_decimal(status as nat) + ": "@
                    + text::spec_trim(body),
            ),
        )
    }
}

/// What a response says by its status and body.
pub fn answer_of_body(status: u16, body: String) -> (r: Result<String, CompressionError>)
    ensures
        error::text_outcome(r) == answer_of(status as int, body@),
{
    if 200 <= status && status < 300 {
        Ok(body)
    } else {
        Err(
            CompressionError::Runtime(
                text::concat4(
                    "local runtime returned HTTP ",
                    &text::decimal(status as u64),
                    ": ",
                    &text::trim(&body),
                ),
            ),
        )
    }
}

/// What a response says.
pub open spec fn spec_parse_http_response(response: Seq<u8>) -> Result<
    Seq<char>,
    error::ErrorView,
> {
    match find_bytes(response, head_end(), 0) {
        None => Err(
            error::ErrorView::Runtime("local runtime returned a malformed HTTP response"@),
        ),
        Some(end) => {
            let head = response.subrange(0, end);
            let body = response.subrange(end + 4, response.len() as int);
            let headers = utf8::decode_utf8(head);
            if !utf8::valid_utf8(head) {
                Err(headers_fault(head))
            } else {
                match spec_parse_http_status(headers) {
                    Err(error) => Err(error),
                    Ok(status) => if spec_has_chunked_transfer_encoding(headers) {
                        match decoded_from(body, 0) {
                            Err(error) => Err(error),
                            Ok(decoded) => answer_of(status, lossy_text(decoded)),
                        }
                    } else {
                        answer_of(status, lossy_text(body))
                    },
                }
            }
        },
    }
}

/// What a response says: its body, decoded if it comes in chunks, where the status tells of
/// success.
pub fn parse_http_response(response: &[u8]) -> (r: Result<String, CompressionError>)
    ensures
        error::text_outcome(r) == spec_parse_http_response(response@),
{
    let end: usize = match find_http_header_end(response) {
        Some(end) => end,
        None => {
            return Err(
                CompressionError::Runtime(
                    "local runtime returned a malformed HTTP response".to_owned(),
                ),
            );
        },
    };
    let headers: String = match read_headers(vstd::slice::slice_subrange(response, 0, end)) {
        Ok(headers) => headers,
        Err(error) => {
            return Err(error);
        },
    };
    let status: u16 = match parse_http_status(&headers) {
        Ok(status) => status,
        Err(error) => {
            return Err(error);
        },
    };
    let total: usize = response.len();
    let body: &[u8] = vstd::slice::slice_subrange(response, end + 4, total);
    if has_chunked_transfer_encoding(&headers) {
        match decode_chunked_body(body) {
            Ok(decoded) => answer_of_body(status, lossy_text_of_bytes(decoded.as_slice())),
            Err(error) => Err(error),
        }
    } else {
        answer_of_body(status, lossy_text_of_bytes(body))
    }
}

/// What is still to be read of a response.
#[derive(Debug, Clone, Copy, PartialEq, Eq, Structural)]
pub enum ReadStep {
    /// The rest of the headers.
    Headers,
    /// The rest of a body whose length is known.
    Body,
    /// The rest of a body in chunks.
    Chunks,
    /// Everything up to the end of the connection.
    ToEnd,
    /// Nothing: the response is made of the first so many bytes.
    Done(usize),
}

/// What is still to be read of a response.
pub open spec fn spec_next_read(response: Seq<u8>) -> Result<ReadStep, error::ErrorView> {
    match find_bytes(response, head_end(), 0) {
        None => Ok(ReadStep::Headers),
        Some(end) => {
            let head = response.subrange(0, end);
            let headers = utf8::decode_utf8(head);
            if !utf8::valid_utf8(head) {
                Err(headers_fault(head))
            } else {
                match spec_http_content_length(headers) {
                    Err(error) => Err(error),
                    Ok(Some(length)) => if response.len() < end + 4 + length {
                        Ok(ReadStep::Body)
                    } else {
                        Ok(ReadStep::Done((end + 4 + length) as usize))
                    },
                    Ok(None) => if spec_has_chunked_transfer_encoding(headers) {
                        match chunks_complete_from(
                            response.subrange(end + 4, response.len() as int),
                            0,
                        ) {
                            Err(error) => Err(error),
                            Ok(true) => Ok(ReadStep::Done(response.len() as usize)),
                            Ok(false) => Ok(ReadStep::Chunks),
                        }
                    } else {
                        Ok(ReadStep::ToEnd)
                    },
                }
            }
        },
    }
}

/// What is still to be read of a response, by what was read of it.
pub fn next_read(response: &[u8]) -> (r: Result<ReadStep, CompressionError>)
    ensures
        error::outcome(r) == spec_next_read(response@),
        r matches Ok(ReadStep::Done(length)) ==> length <= response@.len(),
{
    let end: usize = match find_http_header_end(response) {
        Some(end) => end,
        None => {
            return Ok(ReadStep::Headers);
        },
    };
    let headers: String = match read_headers(vstd::slice::slice_subrange(response, 0, end)) {
        Ok(headers) => headers,
        Err(error) => {
            return Err(error);
        },
    };
    let total: usize = response.len();
    match http_content_length(&headers) {
        Err(error) => Err(error),
        Ok(Some(length)) => {
            if total - (end + 4) < length {
                Ok(ReadStep::Body)
            } else {
                Ok(ReadStep::Done(end + 4 + length))
            }
        },
        Ok(None) => {
            if has_chunked_transfer_encoding(&headers) {
                let body: &[u8] = vstd::slice::slice_subrange(response, end + 4, total);
                match is_complete_chunked_body(body) {
                    Err(error) => Err(error),
                    Ok(complete) => if complete {
                        Ok(ReadStep::Done(total))
                    } else {
                        Ok(ReadStep::Chunks)
                    },
                }
            } else {
                Ok(ReadStep::ToEnd)
            }
        },
    }
}

/// The error for a connection that ends while the step goes on.
pub open spec fn spec_closed_early(step: ReadStep) -> Option<error::ErrorView> {
    match step {
        ReadStep::Headers => Some(
            error::ErrorView::Runtime(
                "local runtime closed the connection before sending HTTP headers"@,
            ),
        ),
        ReadStep::Body => Some(
            error::ErrorView::Runtime(
                "local runtime closed the connection before the full response body arrived"@,
            ),
        ),
        ReadStep::Chunks => Some(
            error::ErrorView::Runtime(
                "local runtime closed the connection before the chunked response completed"@,
            ),
        ),
        ReadStep::ToEnd => None,
        ReadStep::Done(_) => None,
    }
}

/// The error for a connection that ends while the step goes on.
pub fn closed_early(step: ReadStep) -> (r: Option<CompressionError>)
    ensures
        match r {
            Some(error) => spec_closed_early(step) == Some(error@),
            None => spec_closed_early(step) is None,
        },
{
    match step {
        ReadStep::Headers => Some(
            CompressionError::Runtime(
                "local runtime closed the connection before sending HTTP headers".to_owned(),
            ),
        ),
        ReadStep::Body => Some(
            CompressionError::Runtime(
                "local runtime closed the connection before the full response body arrived".to_owned(),
            ),
        ),
        ReadStep::Chunks => Some(
            CompressionError::Runtime(
                "local runtime closed the connection before the chunked response completed".to_owned(),
            ),
        ),
        ReadStep::ToEnd => None,
        ReadStep::Done(_) => None,
    }
}

/// The decimal notation of a number is made of digits.
proof fn decimals_are_digits(n: nat)
    ensures
        text::spec_decimal(n).len() > 0,
        forall|i: int|
            0 <= i < text::spec_decimal(n).len() ==> '0' <= #[trigger] text::spec_decimal(n)[i]
                <= '9',
    decreases n,
{
    if n >= 10 {
        decimals_are_digits(n / 10);
    }
}

/// The port of a server stands behind the colon after the host.
proof fn servers_are_read_back(host: Seq<char>, port: nat)
    requires
        port <= 65535,
    ensures
        split_server(host + ":"@ + text::spec_decimal(port)) == Ok::<
            (Seq<char>, int),
            (Seq<char>, NumberFault),
        >((host, port as int)),
{
    reveal_strlit(":");
    let digits = text::spec_decimal(port);
    let server = host + ":"@ + digits;
    decimals_are_digits(port);
    integers::numbers_are_read_back(port, 65535);
    text::texts_split_from_the_end_go_together(server, ":"@);
    assert(server.subrange(host.len() as int, host.len() as int + 1) =~= ":"@);
    assert(text::occurs_at(server, ":"@, host.len() as int));
    match text::spec_rsplit_once(server, ":"@) {
        Some((head, tail)) => {
            let place = head.len() as int;
            if place > host.len() {
                assert(server[place] == ":"@[0]);
                assert(server[place] == digits[place - host.len() - 1]);
            }
            assert(head =~= server.take(place) && host =~= server.take(place));
            assert(tail =~= server.skip(place + 1) && digits =~= server.skip(place + 1));
        },
        None => {},
    }
}

/// A server without a colon is a host, and its port is the eightieth.
proof fn hosts_are_read_back(host: Seq<char>)
    requires
        text::lacks(host, ':'),
    ensures
        split_server(host) == Ok::<(Seq<char>, int), (Seq<char>, NumberFault)>((host, 80)),
{
    reveal_strlit(":");
    text::texts_split_from_the_end_go_together(host, ":"@);
    match text::spec_rsplit_once(host, ":"@) {
        Some((head, tail)) => {
            assert(host[head.len() as int] == ":"@[0]);
        },
        None => {},
    }
}

/// An address is read up to its first slash.
proof fn paths_are_read_back(server: Seq<char>, path: Seq<char>)
    requires
        text::lacks(server, '/'),
    ensures
        split_address(server) == (server, Seq::<char>::empty()),
        split_address(server + "/"@ + path) == (server, text::spec_trim_end_any("/"@ + path, "/"@)),
{
    reveal_strlit("/");
    assert("/"@ =~= seq!['/']);
    let whole = server + "/"@ + path;
    let place = server.len() as int;
    assert forall|j: int| 0 <= j < place implies #[trigger] whole[j] != '/' by {
        assert(server[j] != '/');
    }
    parts::first_place(whole, '/', place);
    assert(whole.take(place) =~= server);
    assert(whole.skip(place + 1) =~= path);
    text::split_texts_go_together(server, "/"@);
    match text::spec_split_once(server, "/"@) {
        Some((head, tail)) => {
            assert(server[head.len() as int] == '/');
        },
        None => {},
    }
}

/// The text without slashes at its end.
proof fn slashes_are_dropped(text: Seq<char>)
    ensures
        text::spec_trim_end_any(text + "/"@, "/"@) == text::spec_trim_end_any(text, "/"@),
        text::spec_trim_start_any("/"@ + text, "/"@) == text::spec_trim_start_any(text, "/"@),
        text.len() == 0 || text.last() != '/' ==> text::spec_trim_end_any(text, "/"@) == text,
        text.len() == 0 || text[0] != '/' ==> text::spec_trim_start_any(text, "/"@) == text,
{
    reveal_strlit("/");
    assert("/"@[0] == '/');
    assert((text + "/"@).last() == '/');
    assert((text + "/"@).drop_last() =~= text);
    assert(("/"@ + text).first() == '/');
    assert(("/"@ + text).drop_first() =~= text);
}

/// The address of a server is read as it is written: the host, the port behind a colon, and the
/// path behind the first slash, without slashes at its end. Where no port is written it is the
/// eightieth.
pub proof fn written_addresses_are_read_back(host: Seq<char>, port: nat, path: Seq<char>)
    requires
        host.len() > 0,
        text::lacks(host, '/'),
        text::lacks(host, ':'),
        port <= 65535,
        path.len() == 0 || path.last() != '/',
    ensures
        spec_parse_http_base_url("http://"@ + host) == Ok::<BaseUrlView, error::ErrorView>(
            BaseUrlView { host, port: 80, path_prefix: Seq::empty() },
        ),
        spec_parse_http_base_url("http://"@ + (host + ":"@ + text::spec_decimal(port))) == Ok::<
            BaseUrlView,
            error::ErrorView,
        >(BaseUrlView { host, port: port as int, path_prefix: Seq::empty() }),
        spec_parse_http_base_url(
            "http://"@ + (host + ":"@ + text::spec_decimal(port) + "/"@ + path),
        ) == Ok::<BaseUrlView, error::ErrorView>(
            BaseUrlView {
                host,
                port: port as int,
                path_prefix: if path.len() == 0 {
                    Seq::empty()
                } else {
                    "/"@ + path
                },
            },
        ),
        spec_parse_http_base_url("http://"@ + (host + "/"@ + path)) == Ok::<
            BaseUrlView,
            error::ErrorView,
        >(
            BaseUrlView {
                host,
                port: 80,
                path_prefix: if path.len() == 0 {
                    Seq::empty()
                } else {
                    "/"@ + path
                },
            },
        ),
{
    reveal_strlit(":");
    reveal_strlit("/");
    let digits = text::spec_decimal(port);
    let server = host + ":"@ + digits;
    decimals_are_digits(port);
    servers_are_read_back(host, port);
    hosts_are_read_back(host);
    assert forall|i: int| 0 <= i < server.len() implies #[trigger] server[i] != '/' by {
        if i < host.len() {
            assert(host[i] != '/');
        } else if i > host.len() {
            assert(server[i] == digits[i - host.len() - 1]);
        }
    }
    paths_are_read_back(server, path);
    paths_are_read_back(host, path);
    slashes_are_dropped("/"@ + path);
    slashes_are_dropped(Seq::empty());
    if path.len() == 0 {
        assert("/"@ + path =~= Seq::<char>::empty() + "/"@);
    } else {
        assert(("/"@ + path).last() == path.last());
    }
    starts_are_stripped("http://"@, host);
    starts_are_stripped("http://"@, server);
    starts_are_stripped("http://"@, host + "/"@ + path);
    starts_are_stripped("http://"@, server + "/"@ + path);
}

/// What stands behind a start is what remains without it.
proof fn starts_are_stripped(start: Seq<char>, rest: Seq<char>)
    ensures
        text::spec_strip_prefix(start + rest, start) == Some(rest),
{
    let whole = start + rest;
    assert(whole.subrange(0, start.len() as int) =~= start);
    assert(whole.skip(start.len() as int) =~= rest);
}

/// An address that does not begin with `http://` is refused, and so is one without a host. What is
/// accepted has a host and a port.
pub proof fn accepted_addresses(base_url: Seq<char>)
    ensures
        !text::spec_starts_with(base_url, "http://"@) ==> spec_parse_http_base_url(base_url) matches
            Err(error::ErrorView::InvalidConfig(_)),
        spec_parse_http_base_url(base_url) matches Ok(base) ==> text::spec_starts_with(
            base_url,
            "http://"@,
        ) && base.host.len() > 0 && 0 <= base.port <= 65535 && text::lacks(base.host, '/'),
{
    reveal_strlit("/");
    match text::spec_strip_prefix(base_url, "http://"@) {
        None => {},
        Some(address) => {
            let (server, path_prefix) = split_address(address);
            text::split_texts_go_together(address, "/"@);
            assert forall|i: int| 0 <= i < server.len() implies #[trigger] server[i] != '/' by {
                if server[i] == '/' {
                    assert(address[i] == '/');
                    assert(address.subrange(i, i + 1) =~= "/"@);
                    assert(text::occurs_at(address, "/"@, i));
                }
            }
            text::texts_split_from_the_end_go_together(server, ":"@);
            match text::spec_rsplit_once(server, ":"@) {
                Some((host, port)) => {
                    digits_are_in_bounds(port, 10, 65535);
                    assert forall|i: int| 0 <= i < host.len() implies #[trigger] host[i] != '/' by {
                        assert(host[i] == server[i]);
                    }
                },
                None => {},
            }
        },
    }
}

/// A number that is read is natural and no greater than allowed.
proof fn digits_are_in_bounds(text: Seq<char>, base: int, max: int)
    requires
        2 <= base <= 16,
        0 <= max,
    ensures
        integers::spec_parse(text, base, max) matches Ok(n) ==> 0 <= n <= max,
{
    if text.len() > 0 {
        digits_are_natural(text, 0, 0, base, max);
        digits_are_natural(text, 1, 0, base, max);
        digits_are_bounded(text, 0, 0, base, max);
        digits_are_bounded(text, 1, 0, base, max);
    }
}

/// A number that is read grows no greater than allowed.
proof fn digits_are_bounded(text: Seq<char>, i: int, read: int, base: int, max: int)
    requires
        read <= max,
    ensures
        integers::digits_from(text, i, read, base, max) matches Ok(n) ==> n <= max,
    decreases text.len() - i,
{
    if i < text.len() {
        match integers::digit_value(text[i], base) {
            None => {},
            Some(value) => {
                if read * base + value <= max {
                    digits_are_bounded(text, i + 1, read * base + value, base, max);
                }
            },
        }
    }
}

/// Two paths are joined by one slash, whether or not the first ends with slashes or the second
/// begins with them.
pub proof fn paths_are_joined_by_one_slash(path_prefix: Seq<char>, endpoint_path: Seq<char>)
    ensures
        spec_join_http_paths(path_prefix + "/"@, endpoint_path) == spec_join_http_paths(
            path_prefix,
            endpoint_path,
        ),
        spec_join_http_paths(path_prefix, "/"@ + endpoint_path) == spec_join_http_paths(
            path_prefix,
            endpoint_path,
        ),
        (path_prefix.len() == 0 || path_prefix.last() != '/') && (endpoint_path.len() == 0
            || endpoint_path[0] != '/') ==> spec_join_http_paths(path_prefix, endpoint_path)
            == path_prefix + "/"@ + endpoint_path,
{
    slashes_are_dropped(path_prefix);
    slashes_are_dropped(endpoint_path);
}

/// A token that is blank counts as none. Any other is taken without the white space around it.
pub proof fn tokens_are_taken_without_white_space(value: Option<Seq<char>>)
    ensures
        value is None ==> spec_api_token(value) is None,
        value matches Some(token) ==> (spec_api_token(value) is Some <==> exists|i: int|
            0 <= i < token.len() && !text::spec_is_whitespace(#[trigger] token[i])),
        spec_api_token(value) matches Some(token) ==> text::spec_contains(value->0, token)
            && token.len() > 0 && !text::spec_is_whitespace(token[0]) && !text::spec_is_whitespace(
            token.last(),
        ),
{
    match value {
        Some(token) => {
            text::texts_with_more_than_white_space(token);
            let (start, end) = text::trimmed_texts_are_parts(token);
            assert(text::occurs_at(token, text::spec_trim(token), start));
        },
        None => {},
    }
}

/// The head of a request says what is asked of which host, gives the token where there is one, and
/// the length of the body where there is one. It ends with an empty line.
pub proof fn request_heads_tell_the_request(
    method: Seq<char>,
    path: Seq<char>,
    host: Seq<char>,
    token: Option<Seq<char>>,
    body_length: int,
)
    requires
        body_length >= 0,
    ensures
        text::spec_starts_with(
            spec_request_head(method, path, host, token, body_length),
            method + " "@ + path + " HTTP/1.1\r\nHost: "@ + host + "\r\n"@,
        ),
        token matches Some(secret) ==> text::spec_contains(
            spec_request_head(method, path, host, token, body_length),
            "\r\nAuthorization: Bearer "@ + secret + "\r\n"@,
        ),
        body_length > 0 ==> text::spec_contains(
            spec_request_head(method, path, host, token, body_length),
            "\r\nContent-Length: "@ + text::spec_decimal(body_length as nat) + "\r\n"@,
        ),
        text::spec_ends_with(
            spec_request_head(method, path, host, token, body_length),
            "\r\n\r\n"@,
        ),
        token is None && body_length == 0 ==> spec_request_head(
            method,
            path,
            host,
            token,
            body_length,
        ) == method + " "@ + path + " HTTP/1.1\r\nHost: "@ + host
            + "\r\nAccept: application/json\r\nConnection: close\r\n\r\n"@,
{
    reveal_strlit("\r\n");
    reveal_strlit("\r\n\r\n");
    reveal_strlit("\r\nAccept: application/json\r\nConnection: close\r\n");
    reveal_strlit("\r\nAccept: application/json\r\nConnection: close\r\n\r\n");
    reveal_strlit("Content-Type: application/json\r\nContent-Length: ");
    reveal_strlit("\r\nContent-Length: ");
    reveal_strlit("Authorization: Bearer ");
    reveal_strlit("\r\nAuthorization: Bearer ");
    let head = spec_request_head(method, path, host, token, body_length);
    let line = method + " "@ + path + " HTTP/1.1\r\nHost: "@ + host;
    let fixed = "\r\nAccept: application/json\r\nConnection: close\r\n"@;
    let start = line + "\r\n"@;
    assert(head.subrange(0, start.len() as int) =~= start);
    assert(head =~= line + fixed + authorization_line(token) + body_lines(body_length) + "\r\n"@);
    let authorized = line + fixed + authorization_line(token);
    match token {
        Some(secret) => {
            let shown = "\r\nAuthorization: Bearer "@ + secret + "\r\n"@;
            let place = line.len() as int + fixed.len() - 2;
            assert(head.subrange(place, place + shown.len()) =~= shown);
            assert(text::occurs_at(head, shown, place));
            assert(authorized.last() == '\n' && authorized[authorized.len() - 2] == '\r');
        },
        None => {
            assert(authorized =~= line + fixed);
            assert(authorized.last() == '\n' && authorized[authorized.len() - 2] == '\r');
        },
    }
    if body_length > 0 {
        let digits = text::spec_decimal(body_length as nat);
        let shown = "\r\nContent-Length: "@ + digits + "\r\n"@;
        let place = authorized.len() as int + 30;
        assert(head.subrange(place, place + shown.len()) =~= shown);
        assert(text::occurs_at(head, shown, place));
    }
    let size = head.len() as int;
    assert(head.subrange(size - 4, size) =~= "\r\n\r\n"@);
}

/// The line of a header gives a value to a name, which is written in upper or lower case.
pub open spec fn is_header(line: Seq<char>, name: Seq<char>, value: Seq<char>) -> bool {
    exists|key: Seq<char>|
        text::spec_same_ignoring_case(key, name) && text::lacks(key, ':') && line == #[trigger] (key
            + ":"@ + value)
}

/// A line is split at its first colon.
proof fn headers_are_split(line: Seq<char>, name: Seq<char>, value: Seq<char>)
    ensures
        is_header(line, name, value) <==> (text::spec_split_once(line, ":"@) matches Some(
            (key, rest),
        ) && text::spec_same_ignoring_case(key, name) && rest == value),
{
    reveal_strlit(":");
    assert(":"@ =~= seq![':']);
    if is_header(line, name, value) {
        let key = choose|key: Seq<char>|
            text::spec_same_ignoring_case(key, name) && text::lacks(key, ':') && line
                == #[trigger] (key + ":"@ + value);
        let place = key.len() as int;
        assert forall|j: int| 0 <= j < place implies #[trigger] line[j] != ':' by {
            assert(key[j] != ':');
        }
        parts::first_place(line, ':', place);
        assert(line.take(place) =~= key);
        assert(line.skip(place + 1) =~= value);
    }
    text::split_texts_go_together(line, ":"@);
    match text::spec_split_once(line, ":"@) {
        Some((key, rest)) => {
            assert forall|i: int| 0 <= i < key.len() implies #[trigger] key[i] != ':' by {
                if key[i] == ':' {
                    assert(line[i] == ':');
                    assert(line.subrange(i, i + 1) =~= ":"@);
                    assert(text::occurs_at(line, ":"@, i));
                }
            }
        },
        None => {},
    }
}

/// The value of a header is that of the first line that gives it one.
proof fn first_header_counts(lines: Seq<Seq<char>>, name: Seq<char>, i: int, k: int, value: Seq<char>)
    requires
        0 <= i <= k < lines.len(),
        is_header(lines[k], name, value),
        forall|j: int, other: Seq<char>| i <= j < k ==> !#[trigger] is_header(lines[j], name, other),
    ensures
        header_value(lines, name, i) == Some(value),
    decreases k - i,
{
    headers_are_split(lines[k], name, value);
    if i < k {
        match text::spec_split_once(lines[i], ":"@) {
            Some((key, rest)) => {
                headers_are_split(lines[i], name, rest);
                assert(!is_header(lines[i], name, rest));
            },
            None => {},
        }
        first_header_counts(lines, name, i + 1, k, value);
    }
}

/// No header has a value where no line gives it one.
proof fn missing_headers_have_no_value(lines: Seq<Seq<char>>, name: Seq<char>, i: int)
    requires
        0 <= i,
        forall|j: int, other: Seq<char>|
            i <= j < lines.len() ==> !#[trigger] is_header(lines[j], name, other),
    ensures
        header_value(lines, name, i) is None,
    decreases lines.len() - i,
{
    if i < lines.len() {
        match text::spec_split_once(lines[i], ":"@) {
            Some((key, rest)) => {
                headers_are_split(lines[i], name, rest);
                assert(!is_header(lines[i], name, rest));
            },
            None => {},
        }
        missing_headers_have_no_value(lines, name, i + 1);
    }
}

/// The length of a body is the number that the first `Content-Length` gives, in upper or lower case
/// and with or without white space around the number.
pub proof fn lengths_of_bodies_are_read(headers: Seq<char>, k: int, value: Seq<char>, length: nat)
    requires
        0 <= k < text::spec_lines(headers).len(),
        is_header(text::spec_lines(headers)[k], "content-length"@, value),
        forall|j: int, other: Seq<char>|
            0 <= j < k ==> !#[trigger] is_header(
                text::spec_lines(headers)[j],
                "content-length"@,
                other,
            ),
        text::spec_trim(value) == text::spec_decimal(length),
        length <= usize::MAX,
    ensures
        spec_http_content_length(headers) == Ok::<Option<int>, error::ErrorView>(
            Some(length as int),
        ),
{
    first_header_counts(text::spec_lines(headers), "content-length"@, 0, k, value);
    integers::numbers_are_read_back(length, usize::MAX as int);
}

/// Headers without a `Content-Length` give no length.
pub proof fn bodies_without_a_length(headers: Seq<char>)
    requires
        forall|j: int, other: Seq<char>|
            0 <= j < text::spec_lines(headers).len() ==> !#[trigger] is_header(
                text::spec_lines(headers)[j],
                "content-length"@,
                other,
            ),
    ensures
        spec_http_content_length(headers) == Ok::<Option<int>, error::ErrorView>(None),
{
    missing_headers_have_no_value(text::spec_lines(headers), "content-length"@, 0);
}

/// A body comes in chunks where a line gives `Transfer-Encoding` a value that names `chunked`, both
/// in upper or lower case; only there.
pub proof fn chunks_are_announced(headers: Seq<char>)
    ensures
        spec_has_chunked_transfer_encoding(headers) <==> exists|k: int, value: Seq<char>|
            0 <= k < text::spec_lines(headers).len() && #[trigger] is_header(
                text::spec_lines(headers)[k],
                "transfer-encoding"@,
                value,
            ) && parts::holds_in_some_case(value, "chunked"@),
{
    reveal_strlit("chunked");
    parts::lower_case_stays("chunked"@);
    let lines = text::spec_lines(headers);
    if spec_has_chunked_transfer_encoding(headers) {
        let k = choose|i: int|
            0 <= i < text::spec_lines(headers).len() && announces_chunks(
                #[trigger] text::spec_lines(headers)[i],
            );
        match text::spec_split_once(lines[k], ":"@) {
            Some((key, value)) => {
                headers_are_split(lines[k], "transfer-encoding"@, value);
                parts::held_in_lower_case(value, "chunked"@);
                assert(is_header(lines[k], "transfer-encoding"@, value));
            },
            None => {},
        }
    }
    if exists|k: int, value: Seq<char>|
        0 <= k < lines.len() && #[trigger] is_header(lines[k], "transfer-encoding"@, value)
            && parts::holds_in_some_case(value, "chunked"@) {
        let (k, value) = choose|k: int, value: Seq<char>|
            0 <= k < lines.len() && #[trigger] is_header(lines[k], "transfer-encoding"@, value)
                && parts::holds_in_some_case(value, "chunked"@);
        headers_are_split(lines[k], "transfer-encoding"@, value);
        parts::held_in_lower_case(value, "chunked"@);
        assert(announces_chunks(lines[k]));
    }
}

/// A word alone is the only word.
proof fn only_word(word: Seq<char>)
    requires
        text::is_word(word),
    ensures
        text::spec_words(word) == seq![word],
    decreases word.len(),
{
    let before = word.drop_last();
    assert(!text::spec_is_whitespace(word[word.len() - 1]));
    if word.len() == 1 {
        assert(text::spec_words(before) =~= Seq::empty());
        assert(word =~= seq![word.last()]);
        assert(text::spec_words(word) =~= seq![word]);
    } else {
        assert forall|i: int| 0 <= i < before.len() implies !text::spec_is_whitespace(
            #[trigger] before[i],
        ) by {
            assert(before[i] == word[i]);
        }
        only_word(before);
        assert(!text::spec_is_whitespace(word[word.len() - 2]));
        assert(before.push(word.last()) =~= word);
        assert(text::spec_words(word) =~= seq![word]);
    }
}

/// A word behind white space is one word more.
proof fn one_word_more(blank: Seq<char>, word: Seq<char>)
    requires
        blank.len() > 0,
        text::spec_is_whitespace(blank.last()),
        text::is_word(word),
    ensures
        text::spec_words(blank + word) == text::spec_words(blank).push(word),
    decreases word.len(),
{
    let whole = blank + word;
    let before = word.drop_last();
    assert(whole.last() == word[word.len() - 1]);
    assert(whole.drop_last() =~= blank + before);
    if word.len() == 1 {
        assert(blank + before =~= blank);
        assert(whole[whole.len() - 2] == blank.last());
        assert(word =~= seq![word.last()]);
    } else {
        assert forall|i: int| 0 <= i < before.len() implies !text::spec_is_whitespace(
            #[trigger] before[i],
        ) by {
            assert(before[i] == word[i]);
        }
        one_word_more(blank, before);
        assert(whole[whole.len() - 2] == word[word.len() - 2]);
        assert(before.push(word.last()) =~= word);
        let words = text::spec_words(blank).push(before);
        assert(words.drop_last() =~= text::spec_words(blank));
        assert(text::spec_words(whole) =~= text::spec_words(blank).push(word));
    }
}

/// The words before white space stay words, whatever follows.
proof fn earlier_words_stay(blank: Seq<char>, rest: Seq<char>, k: int)
    requires
        blank.len() > 0,
        text::spec_is_whitespace(blank.last()),
        0 <= k < text::spec_words(blank).len(),
    ensures
        text::spec_words(blank + rest).len() >= text::spec_words(blank).len(),
        rest.len() > 0 && !text::spec_is_whitespace(rest.last()) ==> text::spec_words(
            blank + rest,
        ).len() > text::spec_words(blank).len(),
        text::spec_words(blank + rest)[k] == text::spec_words(blank)[k],
    decreases rest.len(),
{
    let whole = blank + rest;
    if rest.len() == 0 {
        assert(whole =~= blank);
    } else {
        let before = rest.drop_last();
        earlier_words_stay(blank, before, k);
        assert(whole.drop_last() =~= blank + before);
        assert(whole.last() == rest.last());
        if rest.len() > 1 {
            assert(whole[whole.len() - 2] == before.last());
        } else {
            assert(whole[whole.len() - 2] == blank.last());
        }
    }
}

/// The status of a response is the number behind the first word of its first line, whether or not a
/// reason follows.
pub proof fn statuses_are_read(
    headers: Seq<char>,
    version: Seq<char>,
    status: nat,
    reason: Seq<char>,
)
    requires
        text::is_word(version),
        status <= 65535,
        text::spec_lines(headers).len() > 0,
        text::spec_lines(headers)[0] == version + " "@ + text::spec_decimal(status)
            || text::spec_lines(headers)[0] == version + " "@ + text::spec_decimal(status) + " "@
            + reason,
    ensures
        spec_parse_http_status(headers) == Ok::<int, error::ErrorView>(status as int),
{
    reveal_strlit(" ");
    let digits = text::spec_decimal(status);
    decimals_are_digits(status);
    integers::numbers_are_read_back(status, 65535);
    assert(text::is_word(digits));
    let blank = version + " "@;
    assert(blank.last() == ' ');
    assert(blank.drop_last() =~= version);
    only_word(version);
    assert(text::spec_words(blank) == seq![version]);
    one_word_more(blank, digits);
    let start = blank + digits;
    assert(text::spec_words(start) =~= seq![version, digits]);
    let more = start + " "@;
    assert(more.drop_last() =~= start);
    assert(more.last() == ' ');
    assert(text::spec_words(more) == text::spec_words(start));
    earlier_words_stay(more, reason, 1);
    assert(version + " "@ + digits + " "@ + reason =~= more + reason);
}

/// A response is accepted where its status lies from 200 to 299, and only there. The error of any
/// other names the status and what the body says.
pub proof fn accepted_statuses(status: int, body: Seq<char>)
    requires
        status >= 0,
    ensures
        answer_of(status, body) is Ok <==> 200 <= status <= 299,
        answer_of(status, body) matches Ok(text) ==> text == body,
        answer_of(status, body) matches Err(error) ==> (error matches error::ErrorView::Runtime(
            message,
        ) && text::spec_contains(message, text::spec_decimal(status as nat))
            && text::spec_ends_with(message, text::spec_trim(body))),
{
    let shown = text::spec_decimal(status as nat);
    let start = "local runtime returned HTTP "@;
    let trimmed = text::spec_trim(body);
    let message = start + shown + ": "@ + trimmed;
    parts::parts_are_held(start, shown, ": "@ + trimmed);
    assert(start + shown + (": "@ + trimmed) =~= message);
    let size = message.len() as int;
    assert(message.subrange(size - trimmed.len(), size) =~= trimmed);
}

/// Bytes are found at their first place.
proof fn bytes_are_found(bytes: Seq<u8>, pattern: Seq<u8>, i: int, place: int)
    requires
        0 <= i <= place,
        bytes_at(bytes, pattern, place),
        forall|k: int| i <= k < place ==> !#[trigger] bytes_at(bytes, pattern, k),
    ensures
        find_bytes(bytes, pattern, i) == Some(place),
    decreases place - i,
{
    if i < place {
        assert(!bytes_at(bytes, pattern, i));
        bytes_are_found(bytes, pattern, i + 1, place);
    }
}

/// The bytes end a line at the position, and an empty line behind it.
pub open spec fn is_empty_line_at(bytes: Seq<u8>, i: int) -> bool {
    0 <= i && i + 4 <= bytes.len() && bytes[i] == 13 && bytes[i + 1] == 10 && bytes[i + 2] == 13
        && bytes[i + 3] == 10
}

/// An empty line is where the bytes that end a head stand.
proof fn empty_lines_end_heads(bytes: Seq<u8>, i: int)
    ensures
        is_empty_line_at(bytes, i) <==> bytes_at(bytes, head_end(), i),
{
    if is_empty_line_at(bytes, i) {
        assert(bytes.subrange(i, i + 4) =~= head_end());
    }
    if bytes_at(bytes, head_end(), i) {
        let part = bytes.subrange(i, i + 4);
        assert(part[0] == 13 && part[1] == 10 && part[2] == 13 && part[3] == 10);
    }
}

/// The response is the head, an empty line and the body, and no empty line stands before.
pub open spec fn is_response(response: Seq<u8>, head: Seq<u8>, body: Seq<u8>) -> bool {
    &&& response == head + seq![13u8, 10u8, 13u8, 10u8] + body
    &&& forall|k: int|
        0 <= k < head.len() ==> !#[trigger] is_empty_line_at(response, k)
}

/// The head and the body of a response are told apart at the first empty line.
proof fn responses_are_split(response: Seq<u8>, head: Seq<u8>, body: Seq<u8>)
    requires
        is_response(response, head, body),
    ensures
        find_bytes(response, head_end(), 0) == Some(head.len() as int),
        response.subrange(0, head.len() as int) == head,
        response.subrange(head.len() as int + 4, response.len() as int) == body,
{
    let place = head.len() as int;
    assert(response.subrange(place, place + 4) =~= head_end());
    assert(bytes_at(response, head_end(), place));
    assert forall|k: int| 0 <= k < place implies !#[trigger] bytes_at(response, head_end(), k) by {
        empty_lines_end_heads(response, k);
    }
    bytes_are_found(response, head_end(), 0, place);
    assert(response.subrange(0, place) =~= head);
    assert(response.subrange(place + 4, response.len() as int) =~= body);
}

/// The answer of a response with an accepted status is its body. A body that comes in chunks is
/// what the chunks hold, put together.
pub proof fn responses_are_answered_by_their_body(
    response: Seq<u8>,
    head: Seq<u8>,
    body: Seq<u8>,
    chunks: Seq<Seq<u8>>,
)
    requires
        is_response(response, head, body),
        utf8::valid_utf8(head),
        spec_parse_http_status(utf8::decode_utf8(head)) matches Ok(status) && 200 <= status <= 299,
        forall|k: int| 0 <= k < chunks.len() ==> 0 < (#[trigger] chunks[k]).len() <= usize::MAX,
    ensures
        !spec_has_chunked_transfer_encoding(utf8::decode_utf8(head)) ==> spec_parse_http_response(
            response,
        ) == Ok::<Seq<char>, error::ErrorView>(lossy_text(body)),
        spec_has_chunked_transfer_encoding(utf8::decode_utf8(head)) && body == encoded_chunks(chunks)
            ==> spec_parse_http_response(response) == Ok::<Seq<char>, error::ErrorView>(
            lossy_text(chunks.flatten()),
        ),
{
    responses_are_split(response, head, body);
    written_chunks_are_read_back(chunks);
}

/// A response with any other status is no answer.
pub proof fn other_statuses_are_errors(response: Seq<u8>, head: Seq<u8>, body: Seq<u8>)
    requires
        is_response(response, head, body),
        utf8::valid_utf8(head),
        spec_parse_http_status(utf8::decode_utf8(head)) matches Ok(status) && !(200 <= status
            <= 299),
    ensures
        spec_parse_http_response(response) is Err,
{
    responses_are_split(response, head, body);
}

/// Where no line is empty, no head ends.
proof fn no_head_is_found(bytes: Seq<u8>, i: int)
    requires
        0 <= i,
        forall|k: int| i <= k ==> !#[trigger] is_empty_line_at(bytes, k),
    ensures
        find_bytes(bytes, head_end(), i) is None,
    decreases bytes.len() - i + 1,
{
    if i + head_end().len() <= bytes.len() {
        empty_lines_end_heads(bytes, i);
        no_head_is_found(bytes, i + 1);
    }
}

/// A response is read until its headers have come, and then until as much of the body has come as
/// the headers say. What follows the body is not part of it.
pub proof fn responses_are_read_to_their_length(
    response: Seq<u8>,
    head: Seq<u8>,
    body: Seq<u8>,
    length: int,
)
    requires
        is_response(response, head, body),
        response.len() <= usize::MAX,
        utf8::valid_utf8(head),
        spec_http_content_length(utf8::decode_utf8(head)) == Ok::<Option<int>, error::ErrorView>(
            Some(length),
        ),
        0 <= length,
    ensures
        spec_next_read(response) == Ok::<ReadStep, error::ErrorView>(ReadStep::Body) <==> body.len()
            < length,
        body.len() >= length ==> (spec_next_read(response) matches Ok(ReadStep::Done(size)) && size
            == head.len() + 4 + length),
{
    responses_are_split(response, head, body);
}

/// A response without an empty line is read on, and one that ends before it is an error.
pub proof fn headers_are_waited_for(response: Seq<u8>)
    requires
        forall|k: int| 0 <= k ==> !#[trigger] is_empty_line_at(response, k),
    ensures
        spec_next_read(response) == Ok::<ReadStep, error::ErrorView>(ReadStep::Headers),
        spec_closed_early(ReadStep::Headers) is Some,
        spec_parse_http_response(response) is Err,
{
    no_head_is_found(response, 0);
}

/// A connection may be closed where the response is complete or has no length, and not before.
pub proof fn connections_may_be_closed(step: ReadStep)
    ensures
        spec_closed_early(step) is None <==> step == ReadStep::ToEnd || step is Done,
{
}

/// A body in chunks is read until the last chunk has come.
pub proof fn chunks_are_waited_for(response: Seq<u8>, head: Seq<u8>, body: Seq<u8>)
    requires
        is_response(response, head, body),
        utf8::valid_utf8(head),
        response.len() <= usize::MAX,
        spec_http_content_length(utf8::decode_utf8(head)) == Ok::<Option<int>, error::ErrorView>(
            None,
        ),
    ensures
        spec_has_chunked_transfer_encoding(utf8::decode_utf8(head)) ==> (spec_next_read(response)
            == Ok::<ReadStep, error::ErrorView>(ReadStep::Done(response.len() as usize))
            <==> decoded_from(body, 0) is Ok),
        !spec_has_chunked_transfer_encoding(utf8::decode_utf8(head)) ==> spec_next_read(response)
            == Ok::<ReadStep, error::ErrorView>(ReadStep::ToEnd),
{
    responses_are_split(response, head, body);
    complete_chunks_can_be_decoded(body, 0);
}

} // verus!
