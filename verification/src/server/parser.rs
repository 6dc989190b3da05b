//! The wire-level request parser: from the bytes of a connection to a
//! request.
//!
//! The head of a request ends behind the first four line-break bytes in a
//! row. Its first line names the method and the path; every further line up
//! to the first empty one is a header field. A `Content-Length` field
//! declares how many bytes of body follow the head; a `Content-Type` field
//! declares how they are decoded.

use vstd::prelude::*;
use vstd::slice::*;
use vstd::string::*;
use crate::server::json::model;
use crate::server::reqres::RequestType;
use crate::server::request::{BodyContents, BodyValue, Headers, ParseError, Request, RequestValue};
use crate::server::text;

verus! {

/// A carriage return or a line feed.
pub open spec fn is_break(b: u8) -> bool {
    b == 10 || b == 13
}

/// The four bytes before place `n` of `s` are line breaks.
pub open spec fn ends_head(s: Seq<u8>, n: int) -> bool {
    &&& 4 <= n <= s.len()
    &&& is_break(s[n - 1])
    &&& is_break(s[n - 2])
    &&& is_break(s[n - 3])
    &&& is_break(s[n - 4])
}

/// `n` is the first place of `s` with four line breaks before it.
pub open spec fn is_head_len(s: Seq<u8>, n: int) -> bool {
    &&& ends_head(s, n)
    &&& forall|m: int| 4 <= m < n ==> !ends_head(s, m)
}

/// The length of the head: up to and with the first four line breaks in a
/// row, or the whole of `s` where there are none.
pub open spec fn head_len(s: Seq<u8>) -> int {
    if exists|n: int| is_head_len(s, n) {
        choose|n: int| is_head_len(s, n)
    } else {
        s.len() as int
    }
}

/// The first place from `from` on that holds a colon and a space behind it,
/// or the length of `s` where none does.
pub open spec fn find_delimiter(s: Seq<u8>, from: int) -> int
    decreases text::remaining(s, from),
{
    if !(0 <= from && from + 1 < s.len()) {
        s.len() as int
    } else if s[from] == 58 && s[from + 1] == 32 {
        from
    } else {
        find_delimiter(s, from + 1)
    }
}

/// `line` without the carriage return at its end, if it has one.
pub open spec fn strip_cr(line: Seq<u8>) -> Seq<u8> {
    if line.len() > 0 && line.last() == 13 {
        line.drop_last()
    } else {
        line
    }
}

/// The line that begins at `from`: it ends before the next line feed, and
/// before the carriage return in front of that if there is one; the last
/// line ends with the bytes.
pub open spec fn line_at(s: Seq<u8>, from: int) -> Seq<u8> {
    let end = text::find(s, 10, from);
    if end < s.len() {
        strip_cr(s.subrange(from, end))
    } else {
        s.subrange(from, s.len() as int)
    }
}

/// The place where the line after the one at `from` begins.
pub open spec fn line_next(s: Seq<u8>, from: int) -> int {
    let end = text::find(s, 10, from);
    if end < s.len() {
        end + 1
    } else {
        s.len() as int
    }
}

/// The lines of `s` from `from` on, up to the first empty one.
pub open spec fn lines_from(s: Seq<u8>, from: int) -> Seq<Seq<u8>>
    decreases text::remaining(s, from),
{
    if !(0 <= from < s.len()) {
        Seq::empty()
    } else if line_at(s, from).len() == 0 || line_next(s, from) <= from {
        Seq::empty()
    } else {
        seq![line_at(s, from)] + lines_from(s, line_next(s, from))
    }
}

/// The method token and the path of a request line: what stands before the
/// first space, and what stands between it and the next.
pub open spec fn split_request_line(line: Seq<u8>) -> Option<(Seq<u8>, Seq<u8>)> {
    let space = text::find(line, 32, 0);
    if space >= line.len() {
        None
    } else {
        Some((line.subrange(0, space), line.subrange(space + 1, text::find(line, 32, space + 1))))
    }
}

/// The name and the value of a header line: what stands before the first
/// `": "`, and what stands between it and the next.
pub open spec fn split_field(line: Seq<u8>) -> Option<(Seq<u8>, Seq<u8>)> {
    let colon = find_delimiter(line, 0);
    if colon >= line.len() {
        None
    } else {
        Some((line.subrange(0, colon), line.subrange(colon + 2, find_delimiter(line, colon + 2))))
    }
}

/// The header fields that `lines` write, a later line of a name over an
/// earlier one; nothing if a line is no header line.
pub open spec fn header_map(lines: Seq<Seq<u8>>) -> Option<Map<Seq<char>, Seq<char>>>
    decreases lines.len(),
{
    if lines.len() == 0 {
        Some(Map::empty())
    } else {
        match (header_map(lines.drop_last()), split_field(lines.last())) {
            (Some(fields), Some((name, value))) => Some(
                fields.insert(text::latin1(name), text::latin1(value)),
            ),
            _ => None,
        }
    }
}

/// What the head of a request says.
pub struct HeadValue {
    pub request_type: RequestType,
    pub path: Seq<char>,
    pub headers: Map<Seq<char>, Seq<char>>,
}

/// What the head `head` says, or why it is none.
pub open spec fn parse_head(head: Seq<u8>) -> Result<HeadValue, ParseError> {
    let lines = lines_from(head, 0);
    if lines.len() == 0 {
        Err(ParseError::MalformedRequestLine)
    } else {
        match split_request_line(lines[0]) {
            None => Err(ParseError::MalformedRequestLine),
            Some((method, path)) => match header_map(lines.skip(1)) {
                None => Err(ParseError::MissingHeaderDelimiter),
                Some(headers) => Ok(
                    HeadValue {
                        request_type: RequestType::of_token(text::latin1(method)),
                        path: text::latin1(path),
                        headers,
                    },
                ),
            },
        }
    }
}

/// The number that `s` writes: digits, behind a plus sign or not.
pub open spec fn unsigned_value(s: Seq<char>) -> Option<int> {
    let digits = if s.len() > 0 && s[0] == '+' {
        s.skip(1)
    } else {
        s
    };
    if digits.len() > 0 && text::all_digits(digits) {
        Some(text::digits_value(digits))
    } else {
        None
    }
}

/// The length that the field value `value` declares: the number it writes,
/// or 0 where it writes none that a `usize` holds.
pub open spec fn length_of(value: Seq<char>) -> int {
    match unsigned_value(value) {
        Some(n) => if n <= usize::MAX {
            n
        } else {
            0
        },
        None => 0,
    }
}

/// The length of the body that `headers` declare, if they declare one.
pub open spec fn declared_length(headers: Map<Seq<char>, Seq<char>>) -> Option<int> {
    if headers.contains_key("Content-Length"@) {
        Some(length_of(headers["Content-Length"@]))
    } else {
        None
    }
}

/// `s` without its semicolons.
pub open spec fn without_semicolons(s: Seq<char>) -> Seq<char>
    decreases s.len(),
{
    if s.len() == 0 {
        s
    } else if s.last() == ';' {
        without_semicolons(s.drop_last())
    } else {
        without_semicolons(s.drop_last()).push(s.last())
    }
}

/// The bare type of a `Content-Type` value: what stands before the first
/// space, without semicolons.
pub open spec fn mime_of(value: Seq<char>) -> Seq<char> {
    without_semicolons(value.take(text::find(value, ' ', 0)))
}

/// The type that `headers` declare for the body: empty where they declare
/// none.
pub open spec fn declared_type(headers: Map<Seq<char>, Seq<char>>) -> Seq<char> {
    if headers.contains_key("Content-Type"@) {
        mime_of(headers["Content-Type"@])
    } else {
        Seq::empty()
    }
}

/// The request that the bytes `stream` of a connection hold, or why they
/// hold none. Bytes behind the head of a request without a declared length,
/// and behind the body of one with it, play no part.
pub open spec fn parse_stream(stream: Seq<u8>) -> Result<RequestValue, ParseError> {
    let head_end = head_len(stream);
    match parse_head(stream.take(head_end)) {
        Err(e) => Err(e),
        Ok(head) => match declared_length(head.headers) {
            None => Ok(
                RequestValue {
                    request_type: head.request_type,
                    path: head.path,
                    headers: head.headers,
                    body: None,
                },
            ),
            Some(length) => if head_end + length > stream.len() {
                Err(ParseError::TruncatedBody)
            } else {
                match BodyContents::resolve(
                    declared_type(head.headers),
                    stream.subrange(head_end, head_end + length),
                ) {
                    Err(e) => Err(e),
                    Ok(body) => Ok(
                        RequestValue {
                            request_type: head.request_type,
                            path: head.path,
                            headers: head.headers,
                            body: Some(body),
                        },
                    ),
                }
            },
        },
    }
}

/// A declared length is not negative.
pub proof fn lemma_length_of_nonnegative(value: Seq<char>)
    ensures
        0 <= length_of(value),
{
    let digits = if value.len() > 0 && value[0] == '+' {
        value.skip(1)
    } else {
        value
    };
    if text::all_digits(digits) {
        text::lemma_digits_value_nonnegative(digits);
    }
}

/// The head of `s` has its end: four line breaks in a row.
pub open spec fn head_terminated(s: Seq<u8>) -> bool {
    exists|n: int| is_head_len(s, n)
}

/// `s` holds a whole request: a head with its end, and behind it all the
/// bytes of the body that the head declares.
pub open spec fn is_complete(s: Seq<u8>) -> bool {
    head_terminated(s) && parse_stream(s) != Err::<RequestValue, ParseError>(
        ParseError::TruncatedBody,
    )
}

/// Bytes behind a head that has its end do not move the end.
pub proof fn lemma_head_len_extends(s: Seq<u8>, more: Seq<u8>)
    requires
        head_terminated(s),
    ensures
        head_terminated(s + more),
        head_len(s + more) == head_len(s),
        (s + more).take(head_len(s)) == s.take(head_len(s)),
{
    let h = head_len(s);
    let t = s + more;
    assert(is_head_len(s, h));
    assert(is_head_len(t, h)) by {
        assert(ends_head(t, h));
        assert forall|m: int| 4 <= m < h implies !ends_head(t, m) by {
            assert(!ends_head(s, m));
        }
    }
    let h2 = head_len(t);
    assert(is_head_len(t, h2));
    if h2 < h {
        assert(!ends_head(t, h2));
    } else if h < h2 {
        assert(ends_head(t, h));
    }
    assert(t.take(h) =~= s.take(h));
}

/// Whatever follows a whole request on the stream plays no part: the same
/// request is read, and with a declared length the body is the bytes of that
/// length behind the head, no fewer and no more.
pub proof fn lemma_bytes_behind_request(stream: Seq<u8>, more: Seq<u8>)
    requires
        is_complete(stream),
    ensures
        is_complete(stream + more),
        parse_stream(stream + more) == parse_stream(stream),
{
    lemma_head_len_extends(stream, more);
    let h = head_len(stream);
    match parse_head(stream.take(h)) {
        Ok(head) => {
            match declared_length(head.headers) {
                Some(length) => {
                    lemma_length_of_nonnegative(head.headers["Content-Length"@]);
                    assert((stream + more).subrange(h, h + length) =~= stream.subrange(
                        h,
                        h + length,
                    ));
                },
                None => {},
            }
        },
        Err(_) => {},
    }
}

/// The number of bytes that the request at the front of `stream` takes: its
/// head, and behind it as many bytes as the head declares.
pub open spec fn request_len(stream: Seq<u8>) -> int {
    let head_end = head_len(stream);
    match parse_head(stream.take(head_end)) {
        Ok(head) => match declared_length(head.headers) {
            Some(length) => head_end + length,
            None => head_end,
        },
        Err(_) => head_end,
    }
}

/// Of a stream that holds a whole request, the first bytes hold a whole
/// request exactly when they are at least the head and the declared number
/// of bytes behind it: a reader that stops at the first whole request has
/// read the head and exactly the declared number of bytes, whatever follows.
pub proof fn lemma_whole_request_is_head_and_declared_bytes(stream: Seq<u8>, k: int)
    requires
        is_complete(stream),
        0 <= k <= stream.len(),
    ensures
        head_len(stream) <= request_len(stream) <= stream.len(),
        is_complete(stream.take(k)) <==> request_len(stream) <= k,
{
    let h = head_len(stream);
    let front = stream.take(k);
    assert(is_head_len(stream, h));
    match parse_head(stream.take(h)) {
        Ok(head) => {
            if declared_length(head.headers) is Some {
                lemma_length_of_nonnegative(head.headers["Content-Length"@]);
            }
        },
        Err(_) => {},
    }
    if k >= h {
        assert(is_head_len(front, h)) by {
            assert(ends_head(front, h));
            assert forall|m: int| 4 <= m < h implies !ends_head(front, m) by {
                assert(!ends_head(stream, m));
            }
        }
        let h2 = head_len(front);
        assert(is_head_len(front, h2));
        if h2 < h {
            assert(!ends_head(front, h2));
        } else if h < h2 {
            assert(ends_head(front, h));
        }
        assert(front.take(h) =~= stream.take(h));
        match parse_head(stream.take(h)) {
            Ok(head) => {
                match declared_length(head.headers) {
                    Some(length) => {
                        if h + length <= k {
                            assert(front.subrange(h, h + length) =~= stream.subrange(h, h + length));
                        }
                    },
                    None => {},
                }
            },
            Err(_) => {},
        }
    } else {
        if head_terminated(front) {
            let m = head_len(front);
            assert(is_head_len(front, m));
            assert(ends_head(stream, m));
            assert(!ends_head(stream, m));
        }
    }
}

/// The lines that the ranges `ranges` cut out of `s`.
pub open spec fn cut(s: Seq<u8>, ranges: Seq<(usize, usize)>) -> Seq<Seq<u8>> {
    Seq::new(ranges.len(), |i: int| s.subrange(ranges[i].0 as int, ranges[i].1 as int))
}

/// A line that is no header line leaves no header fields, whatever follows.
proof fn lemma_header_map_prefix(lines: Seq<Seq<u8>>, k: int)
    requires
        0 <= k <= lines.len(),
        header_map(lines.take(k)) is None,
    ensures
        header_map(lines) is None,
    decreases lines.len(),
{
    if k == lines.len() {
        assert(lines.take(k) =~= lines);
    } else {
        assert(lines.drop_last().take(k) =~= lines.take(k));
        lemma_header_map_prefix(lines.drop_last(), k);
    }
}

fn find_byte_in(s: &[u8], b: u8, from: usize) -> (r: usize)
    requires
        from <= s.len(),
    ensures
        r == text::find(s@, b, from as int),
        from <= r <= s.len(),
        r < s.len() ==> s[r as int] == b,
{
    let mut i: usize = from;
    while i < s.len() && s[i] != b
        invariant
            from <= i <= s.len(),
            text::find(s@, b, from as int) == text::find(s@, b, i as int),
        decreases s.len() - i,
    {
        i += 1;
    }
    i
}

fn find_delimiter_in(s: &[u8], from: usize) -> (r: usize)
    requires
        from <= s.len(),
    ensures
        r == find_delimiter(s@, from as int),
        from <= r <= s.len(),
        r < s.len() ==> r + 2 <= s.len(),
{
    let mut i: usize = from;
    while i < s.len() && s.len() - i >= 2
        invariant
            from <= i <= s.len(),
            find_delimiter(s@, from as int) == find_delimiter(s@, i as int),
        decreases s.len() - i,
    {
        if s[i] == 58 && s[i + 1] == 32 {
            return i;
        }
        i += 1;
    }
    s.len()
}

/// The length of the head of `stream`.
pub fn head_end(stream: &[u8]) -> (h: usize)
    ensures
        h == head_len(stream@),
        h <= stream.len(),
{
    let mut i: usize = 0;
    let mut run: usize = 0;
    while i < stream.len()
        invariant
            i <= stream.len(),
            run <= 3,
            run <= i,
            forall|k: int| i - run <= k < i ==> is_break(#[trigger] stream@[k]),
            run < i ==> !is_break(stream@[i - run - 1]),
            forall|m: int| 4 <= m <= i ==> !ends_head(stream@, m),
        decreases stream.len() - i,
    {
        let b = stream[i];
        if b == 10 || b == 13 {
            run += 1;
        } else {
            run = 0;
        }
        i += 1;
        if run == 4 {
            assert(is_break(stream@[i - 1]) && is_break(stream@[i - 2]) && is_break(stream@[i - 3])
                && is_break(stream@[i - 4]));
            assert(is_head_len(stream@, i as int));
            assert forall|n: int| is_head_len(stream@, n) implies n == i by {
                if n < i {
                    assert(!ends_head(stream@, n));
                } else if n > i {
                    assert(ends_head(stream@, i as int));
                }
            }
            return i;
        }
        assert(!ends_head(stream@, i as int)) by {
            if i >= 4 {
                if run == 0 {
                } else {
                    assert(!is_break(stream@[i - run - 1]));
                }
            }
        }
    }
    assert forall|n: int| !is_head_len(stream@, n) by {
        if ends_head(stream@, n) {
            assert(4 <= n <= i);
        }
    }
    i
}

/// The lines of the head `head`, each as the range of its bytes.
fn line_ranges(head: &[u8]) -> (lines: Vec<(usize, usize)>)
    ensures
        cut(head@, lines@) == lines_from(head@, 0),
        forall|i: int|
            0 <= i < lines.len() ==> (#[trigger] lines[i]).0 <= lines[i].1 <= head.len(),
{
    let mut lines: Vec<(usize, usize)> = Vec::new();
    let mut from: usize = 0;
    assert(cut(head@, lines@) =~= Seq::empty());
    while from < head.len()
        invariant
            from <= head.len(),
            lines_from(head@, 0) == cut(head@, lines@) + lines_from(head@, from as int),
            forall|i: int|
                0 <= i < lines.len() ==> (#[trigger] lines[i]).0 <= lines[i].1 <= head.len(),
        decreases head.len() - from,
    {
        let feed = find_byte_in(head, 10, from);
        let (end, next) = if feed < head.len() {
            if feed > from && head[feed - 1] == 13 {
                (feed - 1, feed + 1)
            } else {
                (feed, feed + 1)
            }
        } else {
            (feed, feed)
        };
        assert(head@.subrange(from as int, end as int) =~= line_at(head@, from as int)) by {
            if feed < head.len() {
                let whole = head@.subrange(from as int, feed as int);
                if feed > from && head[feed - 1] == 13 {
                    assert(whole.last() == 13);
                    assert(whole.drop_last() =~= head@.subrange(from as int, end as int));
                }
            }
        }
        assert(next as int == line_next(head@, from as int));
        if end == from {
            assert(lines_from(head@, from as int) =~= Seq::empty());
            assert(cut(head@, lines@) + Seq::<Seq<u8>>::empty() =~= cut(head@, lines@));
            return lines;
        }
        let ghost before = lines@;
        lines.push((from, end));
        assert(cut(head@, lines@) =~= cut(head@, before).push(line_at(head@, from as int)));
        assert(cut(head@, before) + (seq![line_at(head@, from as int)] + lines_from(
            head@,
            next as int,
        )) =~= cut(head@, lines@) + lines_from(head@, next as int));
        from = next;
    }
    assert(cut(head@, lines@) + Seq::<Seq<u8>>::empty() =~= cut(head@, lines@));
    lines
}

/// The length that the field value `value` declares.
pub fn content_length(value: &str) -> (n: usize)
    ensures
        n == length_of(value@),
{
    let chars = text::chars_of(value);
    let start: usize = if chars.len() > 0 && chars[0] == '+' {
        1
    } else {
        0
    };
    if start == chars.len() {
        return 0;
    }
    let ghost digits = if start == 1 {
        chars@.skip(1)
    } else {
        chars@
    };
    assert(digits =~= chars@.skip(start as int));
    let mut value_so_far: u128 = 0;
    let mut too_large = false;
    let mut i: usize = start;
    while i < chars.len()
        invariant
            start <= i <= chars.len(),
            start < chars.len(),
            chars@ == value@,
            start == if chars@[0] == '+' { 1int } else { 0int },
            digits == chars@.skip(start as int),
            text::all_digits(digits.take(i - start)),
            !too_large ==> value_so_far == text::digits_value(digits.take(i - start))
                && value_so_far <= usize::MAX,
            too_large ==> text::digits_value(digits.take(i - start)) > usize::MAX,
        decreases chars.len() - i,
    {
        let c = chars[i];
        if !(c >= '0' && c <= '9') {
            assert(digits[i - start] == c);
            assert(!text::all_digits(digits));
            return 0;
        }
        proof {
            let next = digits.take(i - start + 1);
            assert(next.drop_last() =~= digits.take(i - start));
            assert(next.last() == c);
            assert forall|j: int| 0 <= j < next.len() implies '0' <= #[trigger] next[j] <= '9' by {
                if j < i - start {
                    assert(digits.take(i - start)[j] == next[j]);
                }
            }
        }
        if !too_large {
            value_so_far = value_so_far * 10 + (c as u32 - '0' as u32) as u128;
            if value_so_far > usize::MAX as u128 {
                too_large = true;
            }
        }
        i += 1;
    }
    assert(digits.take(chars.len() - start) =~= digits);
    if too_large {
        0
    } else {
        value_so_far as usize
    }
}

/// The bare type of the `Content-Type` value `value`.
pub fn bare_type(value: &str) -> (mime: String)
    ensures
        mime@ == mime_of(value@),
{
    let chars = text::chars_of(value);
    let mut mime = String::new();
    let mut i: usize = 0;
    while i < chars.len() && chars[i] != ' '
        invariant
            i <= chars.len(),
            text::find(chars@, ' ', 0) == text::find(chars@, ' ', i as int),
            mime@ == without_semicolons(chars@.take(i as int)),
        decreases chars.len() - i,
    {
        assert(chars@.take(i + 1).drop_last() =~= chars@.take(i as int));
        if chars[i] != ';' {
            text::push_char(&mut mime, chars[i]);
        }
        i += 1;
    }
    mime
}

/// The method, the path and the header fields that the head `head` gives.
fn read_head(head: &[u8]) -> (r: Result<(RequestType, String, Headers), ParseError>)
    ensures
        match r {
            Ok((request_type, path, headers)) => parse_head(head@) == Ok::<_, ParseError>(
                HeadValue { request_type, path: path@, headers: headers@ },
            ),
            Err(e) => parse_head(head@) == Err::<HeadValue, _>(e),
        },
{
    let lines = line_ranges(head);
    let ghost all = lines_from(head@, 0);
    if lines.len() == 0 {
        return Err(ParseError::MalformedRequestLine);
    }
    let first = slice_subrange(head, lines[0].0, lines[0].1);
    assert(first@ == all[0]);
    let space = find_byte_in(first, 32, 0);
    if space >= first.len() {
        return Err(ParseError::MalformedRequestLine);
    }
    let path_end = find_byte_in(first, 32, space + 1);
    let method = text::string_of_latin1(first, 0, space);
    let path = text::string_of_latin1(first, space + 1, path_end);
    let request_type = RequestType::type_for_method(method.as_str());
    let mut headers = Headers::new();
    let ghost fields = all.skip(1);
    let ghost method_bytes = first@.subrange(0, space as int);
    let ghost path_bytes = first@.subrange(space + 1, path_end as int);
    let mut k: usize = 1;
    assert(fields.take(0) =~= Seq::empty());
    while k < lines.len()
        invariant
            1 <= k <= lines.len(),
            all == cut(head@, lines@),
            all == lines_from(head@, 0),
            split_request_line(all[0]) == Some((method_bytes, path_bytes)),
            request_type == RequestType::of_token(text::latin1(method_bytes)),
            path@ == text::latin1(path_bytes),
            fields == all.skip(1),
            forall|i: int|
                0 <= i < lines.len() ==> (#[trigger] lines[i]).0 <= lines[i].1 <= head.len(),
            header_map(fields.take(k - 1)) == Some(headers@),
        decreases lines.len() - k,
    {
        let line = slice_subrange(head, lines[k].0, lines[k].1);
        assert(line@ == fields[k - 1]);
        assert(fields.take(k as int).drop_last() =~= fields.take(k - 1));
        assert(fields.take(k as int).last() == line@);
        let colon = find_delimiter_in(line, 0);
        if colon >= line.len() {
            proof {
                lemma_header_map_prefix(fields, k as int);
            }
            return Err(ParseError::MissingHeaderDelimiter);
        }
        let value_end = find_delimiter_in(line, colon + 2);
        let name = text::string_of_latin1(line, 0, colon);
        let value = text::string_of_latin1(line, colon + 2, value_end);
        headers.insert(name, value);
        k += 1;
    }
    assert(fields.take(k - 1) =~= fields);
    Ok((request_type, path, headers))
}

/// Reads the request that the bytes `stream` of a connection hold.
pub fn parse_request(stream: &[u8]) -> (r: Result<Request, ParseError>)
    ensures
        match r {
            Ok(request) => parse_stream(stream@) == Ok::<_, ParseError>(request@),
            Err(e) => parse_stream(stream@) == Err::<RequestValue, _>(e),
        },
{
    let head_end = head_end(stream);
    let head = slice_subrange(stream, 0, head_end);
    assert(head@ =~= stream@.take(head_end as int));
    let (request_type, path, headers) = match read_head(head) {
        Ok(parts) => parts,
        Err(e) => {
            return Err(e);
        },
    };
    let length = match headers.get("Content-Length") {
        Some(value) => content_length(value.as_str()),
        None => {
            return Ok(Request { request_type, path, headers, body: None });
        },
    };
    if length > stream.len() - head_end {
        return Err(ParseError::TruncatedBody);
    }
    let content = slice_to_vec(slice_subrange(stream, head_end, head_end + length));
    let body = match headers.get("Content-Type") {
        Some(content_type) => {
            let no_charset = bare_type(content_type.as_str());
            BodyContents::type_from_mime(no_charset.as_str(), content)
        },
        None => {
            proof {
                reveal_strlit("");
            }
            assert(""@ =~= Seq::<char>::empty());
            BodyContents::type_from_mime("", content)
        },
    };
    match body {
        Ok(body) => Ok(Request { request_type, path, headers, body: Some(body) }),
        Err(e) => Err(e),
    }
}

/// Reads a request byte by byte, as the bytes come in from a connection.
///
/// The reader says whether it wants another byte; the program that owns the
/// connection reads one and feeds it, or closes the reader when the stream
/// has ended. When the reader wants no more, `finish` gives the request.
pub struct RequestReader {
    fed: Vec<u8>,
    run: usize,
    head_done: bool,
    missing: usize,
    closed: bool,
}

impl RequestReader {
    /// The bytes fed so far.
    pub closed spec fn fed(&self) -> Seq<u8> {
        self.fed@
    }

    /// The stream has been said to have ended.
    pub closed spec fn is_closed(&self) -> bool {
        self.closed
    }

    /// The reader's own books agree with the bytes it has been fed.
    pub closed spec fn well_formed(&self) -> bool {
        let s = self.fed@;
        &&& self.head_done == head_terminated(s)
        &&& !self.head_done ==> {
            &&& self.run <= 3
            &&& self.run <= s.len()
            &&& forall|k: int| s.len() - self.run <= k < s.len() ==> is_break(#[trigger] s[k])
            &&& self.run < s.len() ==> !is_break(s[s.len() - self.run - 1])
            &&& forall|m: int| 4 <= m <= s.len() ==> !ends_head(s, m)
        }
        &&& self.head_done ==> (self.missing > 0) == (parse_stream(s) == Err::<
            RequestValue,
            ParseError,
        >(ParseError::TruncatedBody))
        &&& self.head_done ==> (match parse_head(s.take(head_len(s))) {
            Ok(head) => match declared_length(head.headers) {
                Some(length) => self.missing > 0 ==> self.missing == head_len(s) + length
                    - s.len(),
                None => self.missing == 0,
            },
            Err(_) => self.missing == 0,
        })
    }

    /// Whether the reader wants another byte: the stream has not been closed
    /// and the bytes fed so far do not hold a whole request.
    pub open spec fn spec_wants_byte(&self) -> bool {
        !self.is_closed() && !is_complete(self.fed())
    }

    /// A reader that has been fed nothing.
    pub fn new() -> (r: RequestReader)
        ensures
            r.well_formed(),
            r.fed() == Seq::<u8>::empty(),
            !r.is_closed(),
    {
        RequestReader { fed: Vec::new(), run: 0, head_done: false, missing: 0, closed: false }
    }

    /// Whether the reader wants another byte.
    #[verifier::when_used_as_spec(spec_wants_byte)]
    pub fn wants_byte(&self) -> (b: bool)
        requires
            self.well_formed(),
        ensures
            b == self.spec_wants_byte(),
    {
        !self.closed && (!self.head_done || self.missing > 0)
    }

    /// Takes the next byte of the stream.
    pub fn feed(&mut self, byte: u8)
        requires
            old(self).well_formed(),
            old(self).wants_byte(),
        ensures
            final(self).well_formed(),
            final(self).fed() == old(self).fed().push(byte),
            final(self).is_closed() == old(self).is_closed(),
    {
        let ghost before = self.fed@;
        self.fed.push(byte);
        let ghost s = self.fed@;
        if !self.head_done {
            if byte == 10 || byte == 13 {
                self.run += 1;
            } else {
                self.run = 0;
            }
            assert forall|m: int| 4 <= m < s.len() implies !ends_head(s, m) by {
                assert(!ends_head(before, m));
            }
            if self.run == 4 {
                let n = self.fed.len();
                assert(is_break(s[n - 1]) && is_break(s[n - 2]) && is_break(s[n - 3]) && is_break(
                    s[n - 4],
                )) by {
                    assert(before[n - 2] == s[n - 2]);
                    assert(before[n - 3] == s[n - 3]);
                    assert(before[n - 4] == s[n - 4]);
                }
                assert(is_head_len(s, n as int));
                assert(head_len(s) == n) by {
                    let h = head_len(s);
                    assert(is_head_len(s, h));
                    if h < n {
                        assert(!ends_head(s, h));
                    }
                }
                assert(s.take(n as int) =~= s);
                self.head_done = true;
                self.missing = match read_head(self.fed.as_slice()) {
                    Ok((_, _, headers)) => match headers.get("Content-Length") {
                        Some(value) => content_length(value.as_str()),
                        None => 0,
                    },
                    Err(_) => 0,
                };
                assert(s.subrange(n as int, n as int) =~= Seq::<u8>::empty());
            } else {
                assert(!ends_head(s, s.len() as int)) by {
                    if s.len() >= 4 {
                        if self.run == 0 {
                        } else {
                            assert(before[s.len() - self.run - 1] == s[s.len() - self.run - 1]);
                        }
                    }
                }
                assert forall|k: int| s.len() - self.run <= k < s.len() implies is_break(
                    #[trigger] s[k],
                ) by {
                    if k < s.len() - 1 {
                        assert(before[k] == s[k]);
                    }
                }
                assert(!head_terminated(s)) by {
                    assert forall|n: int| !is_head_len(s, n) by {
                        if ends_head(s, n) {
                            assert(4 <= n <= s.len());
                        }
                    }
                }
            }
        } else {
            proof {
                assert(s =~= before + seq![byte]);
                lemma_head_len_extends(before, seq![byte]);
            }
            self.missing -= 1;
        }
    }

    /// Says that the stream has ended: the reader wants no more bytes.
    pub fn close(&mut self)
        requires
            old(self).well_formed(),
        ensures
            final(self).well_formed(),
            final(self).fed() == old(self).fed(),
            final(self).is_closed(),
    {
        self.closed = true;
    }

    /// Reads the request at the front of `stream` as a connection would give
    /// it, byte by byte, and says how many bytes were taken: all of a stream
    /// that ends before the request is whole, else the head and the declared
    /// number of bytes behind it. The request is the one that the whole
    /// stream holds.
    pub fn read(stream: &[u8]) -> (r: (Result<Request, ParseError>, usize))
        ensures
            match r.0 {
                Ok(request) => parse_stream(stream@) == Ok::<_, ParseError>(request@),
                Err(e) => parse_stream(stream@) == Err::<RequestValue, _>(e),
            },
            r.1 == if is_complete(stream@) {
                request_len(stream@)
            } else {
                stream.len() as int
            },
    {
        let mut reader = RequestReader::new();
        let mut taken: usize = 0;
        assert(stream@.take(0) =~= Seq::empty());
        while taken < stream.len() && reader.wants_byte()
            invariant
                taken <= stream.len(),
                reader.well_formed(),
                !reader.is_closed(),
                reader.fed() == stream@.take(taken as int),
                forall|k: int| 0 <= k < taken ==> !is_complete(#[trigger] stream@.take(k)),
            decreases stream.len() - taken,
        {
            reader.feed(stream[taken]);
            taken += 1;
            assert(stream@.take(taken as int) =~= stream@.take(taken - 1).push(
                stream@[taken - 1],
            ));
        }
        proof {
            let front = stream@.take(taken as int);
            assert(front + stream@.skip(taken as int) =~= stream@);
            if is_complete(front) {
                lemma_bytes_behind_request(front, stream@.skip(taken as int));
                lemma_whole_request_is_head_and_declared_bytes(stream@, taken as int);
                if request_len(stream@) < taken {
                    lemma_whole_request_is_head_and_declared_bytes(stream@, request_len(stream@));
                }
            } else {
                assert(front =~= stream@);
            }
        }
        (reader.finish(), taken)
    }

    /// The request that the bytes fed so far hold.
    pub fn finish(self) -> (r: Result<Request, ParseError>)
        ensures
            match r {
                Ok(request) => parse_stream(self.fed()) == Ok::<_, ParseError>(request@),
                Err(e) => parse_stream(self.fed()) == Err::<RequestValue, _>(e),
            },
    {
        parse_request(self.fed.as_slice())
    }
}

} // verus!
