//! Reading a response back from its bytes: the status code in its first
//! line, the number in its `Content-Length` header, and the body behind
//! its first empty line.
//!
//! Nothing here runs. It says what a reader of HTTP finds in the bytes that
//! `encode` writes, and proves that it finds what the response held.

use crate::decimal::{all_digits, decimal_text, digits_value, parsed_number, unsigned_part};
use crate::response::{
    after_date, before_date, header_lines, response_bytes, status_line, ResponseView,
};
use vstd::prelude::*;
use vstd::utf8::{encode_utf8, is_ascii_chars, is_ascii_chars_encode_utf8};

verus! {

/// Whether the bytes hold no carriage return.
pub open spec fn cr_free(s: Seq<u8>) -> bool {
    forall|i: int| 0 <= i < s.len() ==> #[trigger] s[i] != 13
}

/// Where `b` first occurs in `s`; `s.len()` when it does not occur.
pub open spec fn first_byte(s: Seq<u8>, b: u8) -> int
    decreases s.len(),
{
    if s.len() == 0 {
        0
    } else if s[0] == b {
        0
    } else {
        1 + first_byte(s.drop_first(), b)
    }
}

/// Whether `needle` stands in `hay` at `at`.
pub open spec fn occurs_at(hay: Seq<u8>, needle: Seq<u8>, at: int) -> bool {
    &&& 0 <= at
    &&& at + needle.len() <= hay.len()
    &&& hay.subrange(at, at + needle.len()) == needle
}

/// Where `needle` first stands in `hay` at or after `from`.
pub open spec fn find(hay: Seq<u8>, needle: Seq<u8>, from: int) -> Option<int>
    decreases hay.len() - from,
{
    if from < 0 || from + needle.len() > hay.len() {
        None
    } else if occurs_at(hay, needle, from) {
        Some(from)
    } else if from < hay.len() {
        find(hay, needle, from + 1)
    } else {
        None
    }
}

/// The number written at the start of `s`, up to the first `stop`.
pub open spec fn number_up_to(s: Seq<u8>, stop: u8) -> Option<nat> {
    parsed_number(s.take(first_byte(s, stop)))
}

/// What a reader finds in a response.
pub struct Reading {
    pub code: nat,
    pub content_length: nat,
    pub body: Seq<u8>,
}

/// What a reader finds in the bytes of a response: the number behind
/// `HTTP/1.1 ` as the status code, the number in the first header line
/// named `Content-Length` as the length, and what follows the first empty
/// line as the body. `None` if one of them is not there.
pub open spec fn read_response(wire: Seq<u8>) -> Option<Reading> {
    let start = encode_utf8("HTTP/1.1 "@);
    let name = encode_utf8("\r\nContent-Length: "@);
    let blank = encode_utf8("\r\n\r\n"@);
    if wire.len() >= start.len() && wire.take(start.len() as int) == start {
        match (
            number_up_to(wire.skip(start.len() as int), 32),
            find(wire, name, 0),
            find(wire, blank, 0),
        ) {
            (Some(code), Some(at), Some(end)) => match number_up_to(
                wire.skip(at + name.len()),
                13,
            ) {
                Some(length) => Some(
                    Reading {
                        code,
                        content_length: length,
                        body: wire.skip(end + blank.len()),
                    },
                ),
                None => None,
            },
            _ => None,
        }
    } else {
        None
    }
}

/// Whether a response can be read back: reason phrase, date and header
/// lines hold no carriage return, no header line is empty, and code and
/// length of the body are numbers that a machine holds.
pub open spec fn readable(rsp: ResponseView, date: Seq<char>) -> bool {
    &&& rsp.code <= usize::MAX
    &&& rsp.body.len() <= usize::MAX
    &&& cr_free(encode_utf8(rsp.reason))
    &&& cr_free(encode_utf8(date))
    &&& forall|k: int|
        0 <= k < rsp.headers.len() ==> cr_free(encode_utf8(#[trigger] rsp.headers[k]))
            && encode_utf8(rsp.headers[k]).len() > 0
}

/// Every carriage return of `s` has a byte two places behind it in `s`,
/// and that byte is not `c`.
spec fn guarded(s: Seq<u8>, c: u8) -> bool {
    forall|p: int| 0 <= p < s.len() && #[trigger] s[p] == 13 ==> p + 2 < s.len() && s[p + 2] != c
}

/// The bytes of the fixed texts of a response.
proof fn lemma_fixed_texts()
    ensures
        encode_utf8("HTTP/1.1 "@) == seq![72u8, 84, 84, 80, 47, 49, 46, 49, 32],
        encode_utf8(" "@) == seq![32u8],
        encode_utf8("\r\n"@) == seq![13u8, 10],
        encode_utf8("\r\n\r\n"@) == seq![13u8, 10, 13, 10],
        encode_utf8("\r\nServer: M\r\nDate: "@) == seq![
            13u8,
            10,
            83,
            101,
            114,
            118,
            101,
            114,
            58,
            32,
            77,
            13,
            10,
            68,
            97,
            116,
            101,
            58,
            32,
        ],
        encode_utf8("\r\nContent-Length: "@) == seq![
            13u8,
            10,
            67,
            111,
            110,
            116,
            101,
            110,
            116,
            45,
            76,
            101,
            110,
            103,
            116,
            104,
            58,
            32,
        ],
{
    reveal_strlit("HTTP/1.1 ");
    reveal_strlit(" ");
    reveal_strlit("\r\n");
    reveal_strlit("\r\n\r\n");
    reveal_strlit("\r\nServer: M\r\nDate: ");
    reveal_strlit("\r\nContent-Length: ");
    assert(is_ascii_chars("HTTP/1.1 "@));
    assert(is_ascii_chars(" "@));
    assert(is_ascii_chars("\r\n"@));
    assert(is_ascii_chars("\r\n\r\n"@));
    assert(is_ascii_chars("\r\nServer: M\r\nDate: "@));
    assert(is_ascii_chars("\r\nContent-Length: "@));
    is_ascii_chars_encode_utf8("HTTP/1.1 "@);
    is_ascii_chars_encode_utf8(" "@);
    is_ascii_chars_encode_utf8("\r\n"@);
    is_ascii_chars_encode_utf8("\r\n\r\n"@);
    is_ascii_chars_encode_utf8("\r\nServer: M\r\nDate: "@);
    is_ascii_chars_encode_utf8("\r\nContent-Length: "@);
    assert(encode_utf8("HTTP/1.1 "@) =~= seq![72u8, 84, 84, 80, 47, 49, 46, 49, 32]);
    assert(encode_utf8(" "@) =~= seq![32u8]);
    assert(encode_utf8("\r\n"@) =~= seq![13u8, 10]);
    assert(encode_utf8("\r\n\r\n"@) =~= seq![13u8, 10, 13, 10]);
    assert(encode_utf8("\r\nServer: M\r\nDate: "@) =~= seq![
        13u8,
        10,
        83,
        101,
        114,
        118,
        101,
        114,
        58,
        32,
        77,
        13,
        10,
        68,
        97,
        116,
        101,
        58,
        32,
    ]);
    assert(encode_utf8("\r\nContent-Length: "@) =~= seq![
        13u8,
        10,
        67,
        111,
        110,
        116,
        101,
        110,
        116,
        45,
        76,
        101,
        110,
        103,
        116,
        104,
        58,
        32,
    ]);
}

/// A number in decimal is written in digits, one or more, and read back
/// as itself.
pub proof fn lemma_decimal_reads_back(n: nat)
    ensures
        encode_utf8(decimal_text(n)).len() >= 1,
        all_digits(encode_utf8(decimal_text(n))),
        digits_value(encode_utf8(decimal_text(n))) == n,
        is_ascii_chars(decimal_text(n)),
        n <= usize::MAX ==> parsed_number(encode_utf8(decimal_text(n))) == Some(n),
    decreases n,
{
    let chars = decimal_text(n);
    let bytes = encode_utf8(chars);
    if n < 10 {
        assert(chars =~= seq![((n + 48) as u8) as char]);
        assert(is_ascii_chars(chars));
        is_ascii_chars_encode_utf8(chars);
        assert(bytes =~= seq![(n + 48) as u8]);
        assert(bytes.drop_last() =~= Seq::<u8>::empty());
        assert(digits_value(bytes.drop_last()) == 0);
    } else {
        let front = decimal_text(n / 10);
        lemma_decimal_reads_back(n / 10);
        is_ascii_chars_encode_utf8(front);
        let last = ((n % 10 + 48) as u8) as char;
        assert(chars == front.push(last));
        assert(is_ascii_chars(chars)) by {
            assert forall|i: int| 0 <= i < chars.len() implies '\0' <= #[trigger] chars[i]
                <= '\u{7f}' by {
                if i < front.len() {
                    assert(chars[i] == front[i]);
                }
            }
        }
        is_ascii_chars_encode_utf8(chars);
        assert(bytes =~= encode_utf8(front).push((n % 10 + 48) as u8)) by {
            assert forall|i: int| 0 <= i < bytes.len() implies bytes[i] == encode_utf8(front).push(
                (n % 10 + 48) as u8,
            )[i] by {
                assert(bytes[i] == chars[i] as u8);
                if i < front.len() {
                    assert(chars[i] == front[i]);
                    assert(encode_utf8(front)[i] == front[i] as u8);
                }
            }
        }
        assert(bytes.drop_last() =~= encode_utf8(front));
        assert(all_digits(bytes)) by {
            assert forall|k: int| 0 <= k < bytes.len() implies crate::decimal::is_digit(
                #[trigger] bytes[k],
            ) by {
                if k < front.len() {
                    assert(bytes[k] == encode_utf8(front)[k]);
                }
            }
        }
    }
    assert(bytes[0] != 43);
    assert(unsigned_part(bytes) == bytes);
}

/// An index that is on `b` or at the end, with no `b` before it, is the
/// first index of `b`.
proof fn lemma_first_byte_is(s: Seq<u8>, b: u8, k: int)
    requires
        0 <= k <= s.len(),
        k < s.len() ==> s[k] == b,
        forall|j: int| 0 <= j < k ==> s[j] != b,
    ensures
        first_byte(s, b) == k,
    decreases s.len(),
{
    if s.len() > 0 && k > 0 {
        let t = s.drop_first();
        assert forall|j: int| 0 <= j < k - 1 implies t[j] != b by {
            assert(t[j] == s[j + 1]);
        }
        lemma_first_byte_is(t, b, k - 1);
    }
}

/// The place where a needle stands, with none before it, is where it is
/// found.
proof fn lemma_find_is(hay: Seq<u8>, needle: Seq<u8>, from: int, at: int)
    requires
        0 <= from <= at,
        occurs_at(hay, needle, at),
        forall|q: int| from <= q < at ==> !occurs_at(hay, needle, q),
    ensures
        find(hay, needle, from) == Some(at),
    decreases at - from,
{
    if from < at {
        lemma_find_is(hay, needle, from + 1, at);
    }
}

/// A needle that begins with a carriage return and holds `c` two places
/// on is first found, behind bytes that are guarded against `c`, right
/// behind them.
proof fn lemma_found_behind(s: Seq<u8>, needle: Seq<u8>, rest: Seq<u8>, c: u8)
    requires
        guarded(s, c),
        needle.len() >= 3,
        needle[0] == 13,
        needle[2] == c,
    ensures
        find(s + needle + rest, needle, 0) == Some(s.len() as int),
        (s + needle + rest).skip((s.len() + needle.len()) as int) == rest,
{
    let hay = s + needle + rest;
    let at = s.len() as int;
    assert(hay.subrange(at, at + needle.len()) =~= needle);
    assert forall|q: int| 0 <= q < at implies !occurs_at(hay, needle, q) by {
        if occurs_at(hay, needle, q) {
            let window = hay.subrange(q, q + needle.len());
            assert(window[0] == hay[q]);
            assert(window[2] == hay[q + 2]);
            assert(hay[q] == s[q]);
            assert(s[q] == 13);
            assert(hay[q + 2] == s[q + 2]);
        }
    }
    lemma_find_is(hay, needle, 0, at);
    assert(hay.skip((s.len() + needle.len()) as int) =~= rest);
}

/// Bytes without a carriage return are guarded against every byte.
proof fn lemma_free_is_guarded(s: Seq<u8>, c: u8)
    requires
        cr_free(s),
    ensures
        guarded(s, c),
{
}

/// Guarded bytes stay guarded when a line break and a line follow that
/// holds no carriage return, is not empty and does not begin with `c`.
proof fn lemma_line_keeps_guarded(s: Seq<u8>, line: Seq<u8>, c: u8)
    requires
        guarded(s, c),
        cr_free(line),
        line.len() > 0,
        line[0] != c,
    ensures
        guarded(s + seq![13u8, 10u8] + line, c),
{
    let whole = s + seq![13u8, 10u8] + line;
    assert forall|p: int| 0 <= p < whole.len() && #[trigger] whole[p] == 13 implies p + 2
        < whole.len() && whole[p + 2] != c by {
        if p < s.len() {
            assert(whole[p] == s[p]);
            assert(whole[p + 2] == s[p + 2]);
        } else if p == s.len() {
            assert(whole[p + 2] == line[0]);
        } else if p == s.len() + 1 {
            assert(whole[p] == 10);
        } else {
            assert(whole[p] == line[p - s.len() - 2]);
        }
    }
}

/// Header lines begin with a line break, if there are any.
proof fn lemma_header_lines_begin(headers: Seq<Seq<char>>)
    requires
        headers.len() > 0,
    ensures
        header_lines(headers).len() > 0,
        header_lines(headers)[0] == 13,
    decreases headers.len(),
{
    lemma_fixed_texts();
    let front = headers.drop_last();
    let lines = header_lines(front) + encode_utf8("\r\n"@) + encode_utf8(headers.last());
    assert(header_lines(headers) == lines);
    if front.len() > 0 {
        lemma_header_lines_begin(front);
        assert(lines[0] == header_lines(front)[0]);
    } else {
        assert(header_lines(front).len() == 0);
        assert(lines[0] == encode_utf8("\r\n"@)[0]);
    }
}

/// Guarded bytes stay guarded when header lines follow that hold no
/// carriage return and are not empty.
proof fn lemma_headers_keep_guarded(s: Seq<u8>, headers: Seq<Seq<char>>)
    requires
        guarded(s, 13),
        forall|k: int|
            0 <= k < headers.len() ==> cr_free(encode_utf8(#[trigger] headers[k])) && encode_utf8(
                headers[k],
            ).len() > 0,
    ensures
        guarded(s + header_lines(headers), 13),
    decreases headers.len(),
{
    if headers.len() == 0 {
        assert(s + header_lines(headers) =~= s);
    } else {
        lemma_fixed_texts();
        let front = headers.drop_last();
        let line = encode_utf8(headers.last());
        assert forall|k: int| 0 <= k < front.len() implies cr_free(
            encode_utf8(#[trigger] front[k]),
        ) && encode_utf8(front[k]).len() > 0 by {
            assert(front[k] == headers[k]);
        }
        lemma_headers_keep_guarded(s, front);
        lemma_line_keeps_guarded(s + header_lines(front), line, 13);
        assert(s + header_lines(headers) =~= s + header_lines(front) + seq![13u8, 10u8] + line);
    }
}

/// A number that stands in digits behind `prefix` and before a byte
/// `stop` that is no digit is read as itself.
proof fn lemma_number_is_read(prefix: Seq<u8>, digits: Seq<u8>, rest: Seq<u8>, stop: u8, n: nat)
    requires
        all_digits(digits),
        parsed_number(digits) == Some(n),
        rest.len() > 0,
        rest[0] == stop,
        stop == 32 || stop == 13,
    ensures
        number_up_to((prefix + digits + rest).skip(prefix.len() as int), stop) == Some(n),
{
    let s = (prefix + digits + rest).skip(prefix.len() as int);
    assert(s =~= digits + rest);
    assert forall|j: int| 0 <= j < digits.len() implies s[j] != stop by {
        assert(s[j] == digits[j]);
        assert(crate::decimal::is_digit(digits[j]));
    }
    assert(s[digits.len() as int] == rest[0]);
    lemma_first_byte_is(s, stop, digits.len() as int);
    assert(s.take(digits.len() as int) =~= digits);
}

/// The bytes of a response up to its date are guarded against a carriage
/// return and against the letter `C`, if status line and date hold no
/// carriage return.
proof fn lemma_head_is_guarded(status: Seq<u8>, date: Seq<u8>, c: u8)
    requires
        cr_free(status),
        cr_free(date),
        c == 13 || c == 67,
    ensures
        guarded(status + encode_utf8("\r\nServer: M\r\nDate: "@) + date, c),
{
    lemma_fixed_texts();
    let server = seq![83u8, 101, 114, 118, 101, 114, 58, 32, 77];
    let name = seq![68u8, 97, 116, 101, 58, 32];
    let line = name + date;
    lemma_free_is_guarded(status, c);
    lemma_line_keeps_guarded(status, server, c);
    assert(cr_free(line)) by {
        assert forall|i: int| 0 <= i < line.len() implies #[trigger] line[i] != 13 by {
            if i >= name.len() {
                assert(line[i] == date[i - name.len()]);
            }
        }
    }
    assert(line[0] == 68);
    lemma_line_keeps_guarded(status + seq![13u8, 10u8] + server, line, c);
    assert(status + encode_utf8("\r\nServer: M\r\nDate: "@) + date =~= status + seq![13u8, 10u8]
        + server + seq![13u8, 10u8] + line);
}

/// The status line holds no carriage return if the reason phrase holds
/// none.
proof fn lemma_status_line_is_free(code: nat, reason: Seq<char>)
    requires
        cr_free(encode_utf8(reason)),
    ensures
        cr_free(status_line(code, reason)),
{
    lemma_fixed_texts();
    lemma_decimal_reads_back(code);
    let a = encode_utf8("HTTP/1.1 "@);
    let digits = encode_utf8(decimal_text(code));
    let sp = encode_utf8(" "@);
    let text = encode_utf8(reason);
    let line = status_line(code, reason);
    assert(line == a + digits + sp + text);
    assert forall|i: int| 0 <= i < line.len() implies #[trigger] line[i] != 13 by {
        if i < a.len() {
            assert(line[i] == a[i]);
        } else if i < a.len() + digits.len() {
            assert(line[i] == digits[i - a.len()]);
            assert(crate::decimal::is_digit(digits[i - a.len()]));
        } else if i < a.len() + digits.len() + 1 {
            assert(line[i] == sp[0]);
        } else {
            assert(line[i] == text[i - a.len() - digits.len() - 1]);
        }
    }
}

/// A reader finds the status code of a response behind `HTTP/1.1 `.
proof fn lemma_code_reads_back(rsp: ResponseView, date: Seq<char>)
    requires
        rsp.code <= usize::MAX,
    ensures
        response_bytes(rsp, date).len() >= encode_utf8("HTTP/1.1 "@).len(),
        response_bytes(rsp, date).take(encode_utf8("HTTP/1.1 "@).len() as int) == encode_utf8(
            "HTTP/1.1 "@,
        ),
        number_up_to(
            response_bytes(rsp, date).skip(encode_utf8("HTTP/1.1 "@).len() as int),
            32,
        ) == Some(rsp.code),
{
    lemma_fixed_texts();
    lemma_decimal_reads_back(rsp.code);
    let start = encode_utf8("HTTP/1.1 "@);
    let code = encode_utf8(decimal_text(rsp.code));
    let sp = encode_utf8(" "@);
    let wire = response_bytes(rsp, date);
    let behind_space = encode_utf8(rsp.reason) + encode_utf8("\r\nServer: M\r\nDate: "@)
        + encode_utf8(date) + after_date(rsp.headers, rsp.body);
    let behind_code = sp + behind_space;
    assert(status_line(rsp.code, rsp.reason) == start + code + sp + encode_utf8(rsp.reason));
    assert(wire =~= start + code + behind_code);
    assert(behind_code[0] == sp[0]);
    lemma_number_is_read(start, code, behind_code, 32, rsp.code);
    assert(wire.take(start.len() as int) =~= start);
}

/// A reader finds the first `Content-Length` header of a response behind
/// its date, and in it the length of the body.
proof fn lemma_length_reads_back(rsp: ResponseView, date: Seq<char>)
    requires
        readable(rsp, date),
    ensures
        find(response_bytes(rsp, date), encode_utf8("\r\nContent-Length: "@), 0) matches Some(at)
            && number_up_to(
            response_bytes(rsp, date).skip(at + encode_utf8("\r\nContent-Length: "@).len()),
            13,
        ) == Some(rsp.body.len()),
{
    lemma_fixed_texts();
    lemma_decimal_reads_back(rsp.body.len());
    lemma_status_line_is_free(rsp.code, rsp.reason);
    let name = encode_utf8("\r\nContent-Length: "@);
    let length = encode_utf8(decimal_text(rsp.body.len()));
    let lines = header_lines(rsp.headers);
    let blank = encode_utf8("\r\n\r\n"@);
    let wire = response_bytes(rsp, date);
    let upto_date = before_date(rsp.code, rsp.reason) + encode_utf8(date);
    let behind_length = lines + blank + rsp.body;
    let behind_name = length + behind_length;
    lemma_head_is_guarded(status_line(rsp.code, rsp.reason), encode_utf8(date), 67);
    assert(after_date(rsp.headers, rsp.body) =~= name + behind_name);
    assert(wire =~= upto_date + name + behind_name);
    lemma_found_behind(upto_date, name, behind_name, 67);
    assert(behind_length[0] == 13) by {
        if rsp.headers.len() > 0 {
            lemma_header_lines_begin(rsp.headers);
            assert(behind_length[0] == lines[0]);
        } else {
            assert(lines.len() == 0);
            assert(behind_length[0] == blank[0]);
        }
    }
    lemma_number_is_read(Seq::empty(), length, behind_length, 13, rsp.body.len());
    assert((Seq::<u8>::empty() + length + behind_length).skip(0) =~= behind_name);
}

/// A reader finds the first empty line of a response behind its header
/// lines, and the body behind it.
proof fn lemma_body_reads_back(rsp: ResponseView, date: Seq<char>)
    requires
        readable(rsp, date),
    ensures
        find(response_bytes(rsp, date), encode_utf8("\r\n\r\n"@), 0) matches Some(end)
            && response_bytes(rsp, date).skip(end + encode_utf8("\r\n\r\n"@).len())
            == rsp.body,
{
    lemma_fixed_texts();
    lemma_decimal_reads_back(rsp.body.len());
    lemma_status_line_is_free(rsp.code, rsp.reason);
    let name = encode_utf8("\r\nContent-Length: "@);
    let length = encode_utf8(decimal_text(rsp.body.len()));
    let lines = header_lines(rsp.headers);
    let blank = encode_utf8("\r\n\r\n"@);
    let wire = response_bytes(rsp, date);
    let upto_date = before_date(rsp.code, rsp.reason) + encode_utf8(date);
    lemma_head_is_guarded(status_line(rsp.code, rsp.reason), encode_utf8(date), 13);
    let field = seq![67u8, 111, 110, 116, 101, 110, 116, 45, 76, 101, 110, 103, 116, 104, 58, 32]
        + length;
    assert(cr_free(field)) by {
        assert forall|i: int| 0 <= i < field.len() implies #[trigger] field[i] != 13 by {
            if i >= 16 {
                assert(field[i] == length[i - 16]);
                assert(crate::decimal::is_digit(length[i - 16]));
            }
        }
    }
    assert(field[0] == 67);
    lemma_line_keeps_guarded(upto_date, field, 13);
    let upto_length = upto_date + name + length;
    assert(upto_length =~= upto_date + seq![13u8, 10u8] + field);
    lemma_headers_keep_guarded(upto_length, rsp.headers);
    let head = upto_length + lines;
    assert(after_date(rsp.headers, rsp.body) == name + length + lines + blank + rsp.body);
    assert(wire =~= head + blank + rsp.body);
    lemma_found_behind(head, blank, rsp.body, 13);
}

/// What `encode` writes reads back as what the response held: a reader
/// finds the status code of the response, its body behind the first empty
/// line, and the length of that body in the `Content-Length` header. This
/// holds of every response whose reason phrase, date and header lines hold
/// no carriage return and whose header lines are not empty.
pub proof fn lemma_response_reads_back(rsp: ResponseView, date: Seq<char>)
    requires
        readable(rsp, date),
    ensures
        read_response(response_bytes(rsp, date)) == Some(
            Reading { code: rsp.code, content_length: rsp.body.len(), body: rsp.body },
        ),
{
    lemma_code_reads_back(rsp, date);
    lemma_length_reads_back(rsp, date);
    lemma_body_reads_back(rsp, date);
}

} // verus!
