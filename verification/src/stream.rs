//! Serving a track's bytes: the `Range` request header and the response
//! that answers it.
use vstd::prelude::*;

use crate::error::{
    ApiError,
    STATUS_OK,
    STATUS_PARTIAL_CONTENT,
    STATUS_RANGE_NOT_SATISFIABLE,
};
use crate::text::{
    all_digits,
    before_first,
    is_ascii_digit,
    is_white_space,
    lemma_decimal_digits,
    lemma_decimal_round_trip,
    lemma_find_char_first,
    lemma_find_char_none,
    lemma_trim_untouched,
    chars_of,
    decimal,
    find_char,
    find_char_in,
    parse_u64,
    parse_u64_chars,
    starts_with,
    trim,
    trim_chars,
    u64_to_decimal,
};

verus! {

broadcast use vstd::string::group_string_axioms;

/// The first range of a `bytes=start-end` header value: `(start, end)`,
/// where an empty end is `None`.
pub open spec fn range_of(s: Seq<char>) -> Option<(u64, Option<u64>)> {
    let prefix = "bytes="@;
    if prefix.is_prefix_of(s) {
        let first = trim_chars(before_first(s.skip(prefix.len() as int), ','));
        match find_char(first, '-') {
            None => None,
            Some(k) => {
                let end = trim_chars(first.skip(k + 1));
                match parse_u64_chars(trim_chars(first.take(k))) {
                    None => None,
                    Some(start) => if end.len() == 0 {
                        Some((start, None))
                    } else {
                        match parse_u64_chars(end) {
                            Some(e) => Some((start, Some(e))),
                            None => None,
                        }
                    },
                }
            },
        }
    } else {
        None
    }
}

/// The `Range` header value for bytes `start..=end`, or from `start` to the
/// end of the file when `end` is `None`.
pub open spec fn range_header_text(start: u64, end: Option<u64>) -> Seq<char> {
    "bytes="@ + decimal(start as nat) + "-"@ + match end {
        Some(e) => decimal(e as nat),
        None => Seq::empty(),
    }
}

proof fn lemma_digits_plain(s: Seq<char>)
    requires
        all_digits(s),
    ensures
        forall|j: int|
            0 <= j < s.len() ==> !is_white_space(#[trigger] s[j]) && s[j] != ',' && s[j] != '-',
{
    assert forall|j: int| 0 <= j < s.len() implies !is_white_space(#[trigger] s[j]) && s[j] != ','
        && s[j] != '-' by {
        assert(is_ascii_digit(s[j]));
    }
}

/// A range written as a client writes it is read back: `parse_range`
/// gives the start and end of `bytes=start-end`, and no end for `bytes=start-`.
pub proof fn lemma_range_round_trip(start: u64, end: Option<u64>)
    ensures
        range_of(range_header_text(start, end)) == Some((start, end)),
{
    reveal_strlit("bytes=");
    reveal_strlit("-");
    let ds = decimal(start as nat);
    let tail = match end {
        Some(e) => decimal(e as nat),
        None => Seq::<char>::empty(),
    };
    lemma_decimal_digits(start as nat);
    lemma_decimal_round_trip(start);
    lemma_digits_plain(ds);
    match end {
        Some(e) => {
            lemma_decimal_digits(e as nat);
            lemma_decimal_round_trip(e);
        },
        None => {},
    }
    assert(all_digits(tail));
    lemma_digits_plain(tail);
    let rest = ds + seq!['-'] + tail;
    let x = range_header_text(start, end);
    assert(x =~= "bytes="@ + rest);
    assert("bytes="@.is_prefix_of(x));
    assert(x.skip(6) =~= rest);
    assert forall|j: int| 0 <= j < rest.len() implies rest[j] != ',' by {
        if j < ds.len() {
            assert(rest[j] == ds[j]);
        } else if j > ds.len() {
            assert(rest[j] == tail[j - ds.len() - 1]);
        }
    }
    lemma_find_char_none(rest, ',');
    assert(before_first(rest, ',') == rest);
    assert(rest[0] == ds[0]);
    if tail.len() > 0 {
        assert(rest.last() == tail.last());
    }
    lemma_trim_untouched(rest);
    assert forall|j: int| 0 <= j < ds.len() implies rest[j] != '-' by {
        assert(rest[j] == ds[j]);
    }
    lemma_find_char_first(rest, '-', ds.len() as int);
    assert(rest.take(ds.len() as int) =~= ds);
    assert(rest.skip(ds.len() as int + 1) =~= tail);
    lemma_trim_untouched(ds);
    if tail.len() > 0 {
        lemma_trim_untouched(tail);
    }
}

/// Only the first of several comma-separated ranges is read: whatever
/// follows the first `,` is ignored.
pub proof fn lemma_first_range_only(start: u64, end: Option<u64>, more: Seq<char>)
    ensures
        range_of(range_header_text(start, end) + seq![','] + more) == Some((start, end)),
{
    reveal_strlit("bytes=");
    reveal_strlit("-");
    let ds = decimal(start as nat);
    let tail = match end {
        Some(e) => decimal(e as nat),
        None => Seq::<char>::empty(),
    };
    lemma_decimal_digits(start as nat);
    lemma_decimal_round_trip(start);
    lemma_digits_plain(ds);
    match end {
        Some(e) => {
            lemma_decimal_digits(e as nat);
            lemma_decimal_round_trip(e);
        },
        None => {},
    }
    assert(all_digits(tail));
    lemma_digits_plain(tail);
    let rest = ds + seq!['-'] + tail;
    let x = range_header_text(start, end) + seq![','] + more;
    let body = rest + seq![','] + more;
    assert(x =~= "bytes="@ + body);
    assert("bytes="@.is_prefix_of(x));
    assert(x.skip(6) =~= body);
    assert forall|j: int| 0 <= j < rest.len() implies body[j] != ',' by {
        assert(body[j] == rest[j]);
        if j < ds.len() {
            assert(rest[j] == ds[j]);
        } else if j > ds.len() {
            assert(rest[j] == tail[j - ds.len() - 1]);
        }
    }
    lemma_find_char_first(body, ',', rest.len() as int);
    assert(body.take(rest.len() as int) =~= rest);
    assert(before_first(body, ',') == rest);
    assert(rest[0] == ds[0]);
    if tail.len() > 0 {
        assert(rest.last() == tail.last());
    }
    lemma_trim_untouched(rest);
    assert forall|j: int| 0 <= j < ds.len() implies rest[j] != '-' by {
        assert(rest[j] == ds[j]);
    }
    lemma_find_char_first(rest, '-', ds.len() as int);
    assert(rest.take(ds.len() as int) =~= ds);
    assert(rest.skip(ds.len() as int + 1) =~= tail);
    lemma_trim_untouched(ds);
    if tail.len() > 0 {
        lemma_trim_untouched(tail);
    }
}

/// Parses a single `bytes=start-end` range, returning `(start, end)`.
/// Only the first of several comma-separated ranges is read.
pub fn parse_range(s: &str) -> (r: Option<(u64, Option<u64>)>)
    ensures
        r == range_of(s@),
{
    let prefix = "bytes=";
    proof {
        reveal_strlit("bytes=");
    }
    if !starts_with(s, prefix) {
        return None;
    }
    let n = chars_of(s).len();
    let rest = s.substring_char(6, n);
    let rc = chars_of(rest);
    let cut = match find_char_in(&rc, ',') {
        Some(k) => k,
        None => rc.len(),
    };
    let first = trim(rest.substring_char(0, cut));
    let fc = chars_of(first);
    proof {
        assert(rest@ =~= s@.skip(6));
        assert(rest@.subrange(0, cut as int) =~= before_first(rest@, ','));
    }
    let k = match find_char_in(&fc, '-') {
        Some(k) => k,
        None => {
            return None;
        },
    };
    proof {
        assert(first@.subrange(0, k as int) =~= first@.take(k as int));
        assert(first@.subrange(k + 1, fc@.len() as int) =~= first@.skip(k + 1));
    }
    let start = match parse_u64(trim(first.substring_char(0, k))) {
        Some(v) => v,
        None => {
            return None;
        },
    };
    let end = trim(first.substring_char(k + 1, fc.len()));
    if chars_of(end).len() == 0 {
        Some((start, None))
    } else {
        match parse_u64(end) {
            Some(e) => Some((start, Some(e))),
            None => None,
        }
    }
}

/// Which bytes of a file are sent, and with which status.
pub struct StreamPlan {
    pub status: u16,
    /// First byte sent.
    pub start: u64,
    /// Last byte sent (inclusive).
    pub end: u64,
    /// Number of bytes announced in `Content-Length`.
    pub length: u64,
}

/// The range that a `Range` header value asks for, if it is one that is read.
pub open spec fn requested_range(header: Option<&str>) -> Option<(u64, Option<u64>)> {
    match header {
        Some(h) => range_of(h@),
        None => None,
    }
}

/// The plan for a file of `total` bytes; `None` when the requested range
/// cannot be satisfied. Without a usable range the whole file is sent (with a
/// length of one byte for an empty file, whose last byte index saturates at 0).
pub open spec fn plan_for(range: Option<(u64, Option<u64>)>, total: u64) -> Option<StreamPlan> {
    let last: u64 = if total == 0 {
        0
    } else {
        (total - 1) as u64
    };
    match range {
        Some((start, e)) => {
            let end = match e {
                Some(e) => e,
                None => last,
            };
            if start >= total || end >= total || start > end {
                None
            } else {
                Some(
                    StreamPlan {
                        status: STATUS_PARTIAL_CONTENT,
                        start,
                        end,
                        length: (end - start + 1) as u64,
                    },
                )
            }
        },
        None => Some(StreamPlan { status: STATUS_OK, start: 0, end: last, length: (last + 1) as u64 }),
    }
}

/// A planned answer never reaches past the file: for a non-empty file the
/// bytes sent lie within it and the announced length counts them; a 206
/// answers exactly the range asked for.
pub proof fn lemma_plan_within_file(range: Option<(u64, Option<u64>)>, total: u64)
    requires
        total > 0,
    ensures
        plan_for(range, total) matches Some(p) ==> {
            &&& p.start <= p.end < total
            &&& p.length == p.end - p.start + 1
            &&& p.length <= total
            &&& (p.status == STATUS_PARTIAL_CONTENT <==> range is Some)
            &&& range matches Some((s, e)) ==> p.start == s && (e matches Some(x) ==> p.end == x)
            &&& range is None ==> p.start == 0 && p.length == total
        },
{
}

/// Every satisfiable range is served, with 206 and exactly the bytes asked
/// for, and only unsatisfiable ones are refused: `bytes=start-end` is served
/// when `start <= end < total`, `bytes=start-` when `start < total` (up to
/// the last byte); a request without a usable range gets the whole file with 200.
/// This holds of the header as a client writes it, read by `parse_range`.
pub proof fn lemma_satisfiable_ranges_served(start: u64, end: Option<u64>, total: u64)
    ensures
        match end {
            Some(e) => {
                &&& (start <= e && e < total) ==> plan_for(
                    range_of(range_header_text(start, end)),
                    total,
                ) == Some(
                    StreamPlan {
                        status: 206,
                        start,
                        end: e,
                        length: (e - start + 1) as u64,
                    },
                )
                &&& !(start <= e && e < total) ==> plan_for(
                    range_of(range_header_text(start, end)),
                    total,
                ) is None
            },
            None => {
                &&& start < total ==> plan_for(range_of(range_header_text(start, end)), total)
                    == Some(
                    StreamPlan {
                        status: 206,
                        start,
                        end: (total - 1) as u64,
                        length: (total - start) as u64,
                    },
                )
                &&& start >= total ==> plan_for(range_of(range_header_text(start, end)), total)
                    is None
            },
        },
        total > 0 ==> plan_for(None, total) == Some(
            StreamPlan { status: 200, start: 0, end: (total - 1) as u64, length: total },
        ),
{
    lemma_range_round_trip(start, end);
}

/// Decides which bytes of a file of `total_size` bytes to send for the given
/// `Range` header value; 416 "invalid range" when the range lies outside the file.
pub fn plan_byte_range(range_header: Option<&str>, total_size: u64) -> (r: Result<
    StreamPlan,
    ApiError,
>)
    ensures
        match plan_for(requested_range(range_header), total_size) {
            Some(p) => r == Ok::<StreamPlan, ApiError>(p),
            None => r matches Err(e) && e.status == STATUS_RANGE_NOT_SATISFIABLE && e.message@
                == "invalid range"@,
        },
{
    let range = match range_header {
        Some(h) => parse_range(h),
        None => None,
    };
    let last = if total_size == 0 {
        0
    } else {
        total_size - 1
    };
    match range {
        Some((start, e)) => {
            let end = match e {
                Some(e) => e,
                None => last,
            };
            if start >= total_size || end >= total_size || start > end {
                Err(
                    ApiError {
                        status: STATUS_RANGE_NOT_SATISFIABLE,
                        message: String::from_str("invalid range"),
                    },
                )
            } else {
                Ok(StreamPlan { status: STATUS_PARTIAL_CONTENT, start, end, length: end - start + 1 })
            }
        },
        None => Ok(StreamPlan { status: STATUS_OK, start: 0, end: last, length: last + 1 }),
    }
}

/// The MIME type that `mime_guess` assigns to a path by its extension.
pub uninterp spec fn guessed_content_type(path: Seq<char>) -> Seq<char>;

/// Calls `mime_guess::from_path(path).first_or_octet_stream()` and renders the
/// MIME type as text. Claimed: the text is `guessed_content_type` of the path's
/// characters; nothing more is said of it.
#[verifier::external_body]
fn content_type_of(path: &str) -> (t: String)
    ensures
        t@ == guessed_content_type(path@),
{
    mime_guess::from_path(path).first_or_octet_stream().to_string()
}

/// The headers and body range of the answer to a stream request.
pub struct StreamResponse {
    pub status: u16,
    pub start: u64,
    pub length: u64,
    pub content_type: String,
    /// `Content-Length`, in decimal.
    pub content_length: String,
    /// `Content-Range` (`bytes start-end/total`), sent with 206 only.
    pub content_range: Option<String>,
}

/// The `Content-Range` value for bytes `start..=end` of `total`.
pub open spec fn content_range_text(start: u64, end: u64, total: u64) -> Seq<char> {
    "bytes "@ + decimal(start as nat) + "-"@ + decimal(end as nat) + "/"@ + decimal(total as nat)
}

/// The answer to a stream request of a file of `total_size` bytes whose
/// content type is `content_type`.
pub fn stream_response(content_type: String, range_header: Option<&str>, total_size: u64) -> (r:
    Result<StreamResponse, ApiError>)
    ensures
        match plan_for(requested_range(range_header), total_size) {
            Some(p) => r matches Ok(resp) && {
                &&& resp.status == p.status
                &&& resp.start == p.start
                &&& resp.length == p.length
                &&& resp.content_type == content_type
                &&& resp.content_length@ == decimal(p.length as nat)
                &&& if p.status == STATUS_PARTIAL_CONTENT {
                    resp.content_range matches Some(cr) && cr@ == content_range_text(
                        p.start,
                        p.end,
                        total_size,
                    )
                } else {
                    resp.content_range is None
                }
            },
            None => r matches Err(e) && e.status == STATUS_RANGE_NOT_SATISFIABLE && e.message@
                == "invalid range"@,
        },
{
    let plan = match plan_byte_range(range_header, total_size) {
        Ok(p) => p,
        Err(e) => {
            return Err(e);
        },
    };
    let content_range = if plan.status == STATUS_PARTIAL_CONTENT {
        let mut cr = String::from_str("bytes ");
        cr.append(u64_to_decimal(plan.start).as_str());
        cr.append("-");
        cr.append(u64_to_decimal(plan.end).as_str());
        cr.append("/");
        cr.append(u64_to_decimal(total_size).as_str());
        Some(cr)
    } else {
        None
    };
    Ok(
        StreamResponse {
            status: plan.status,
            start: plan.start,
            length: plan.length,
            content_type,
            content_length: u64_to_decimal(plan.length),
            content_range,
        },
    )
}

/// The answer to a stream request of the file at `path`, `total_size` bytes
/// long: its content type is the one `mime_guess` gives the path.
pub fn plan_stream(path: &str, range_header: Option<&str>, total_size: u64) -> (r: Result<
    StreamResponse,
    ApiError,
>)
    ensures
        match plan_for(requested_range(range_header), total_size) {
            Some(p) => r matches Ok(resp) && {
                &&& resp.status == p.status
                &&& resp.start == p.start
                &&& resp.length == p.length
                &&& resp.content_type@ == guessed_content_type(path@)
                &&& resp.content_length@ == decimal(p.length as nat)
                &&& if p.status == STATUS_PARTIAL_CONTENT {
                    resp.content_range matches Some(cr) && cr@ == content_range_text(
                        p.start,
                        p.end,
                        total_size,
                    )
                } else {
                    resp.content_range is None
                }
            },
            None => r matches Err(e) && e.status == STATUS_RANGE_NOT_SATISFIABLE && e.message@
                == "invalid range"@,
        },
{
    let content_type = content_type_of(path);
    stream_response(content_type, range_header, total_size)
}

} // verus!
