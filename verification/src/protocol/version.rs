//! The version exchange: banners, the major version, and the agreement.
//!
//! A banner is a line `SSH-<major>.<minor>-<tag>`, sent with CRLF. Both
//! sides must announce major version 2.

use vstd::prelude::*;
use vstd::utf8::*;
use crate::error::SshError;
use crate::utils::io::{
    lemma_line_round_trip, read_line_crlf, spec_after_read_line, spec_read_line, write_all,
    CARRIAGE_RETURN, LINE_FEED,
};
use crate::utils::stream::ReadWrite;
use crate::utils::text::{
    chars_of, first_index_of, lemma_first_index_is, lemma_first_index_of,
};

verus! {

/// The banner of the server.
pub const SERVER_VERSION: &'static str = "SSH-2.0-EduSSH-1.0";

/// The banner of the client.
pub const CLIENT_VERSION: &'static str = "SSH-2.0-EduSSH-Client-1.0";

/// The only major version that is supported.
pub const SUPPORTED_MAJOR: u8 = 2;

/// The banner that a side sends.
pub open spec fn banner(is_server: bool) -> Seq<char> {
    if is_server {
        "SSH-2.0-EduSSH-1.0"@
    } else {
        "SSH-2.0-EduSSH-Client-1.0"@
    }
}

/// The banner on the wire: its text in UTF-8, then CRLF.
pub open spec fn banner_line(is_server: bool) -> Seq<u8> {
    encode_utf8(banner(is_server)).push(CARRIAGE_RETURN).push(LINE_FEED)
}

/// Whether `c` is a decimal digit.
pub open spec fn is_digit(c: char) -> bool {
    '0' <= c <= '9'
}

/// The number that a sequence of decimal digits writes.
pub open spec fn digits_value(digits: Seq<char>) -> int
    decreases digits.len(),
{
    if digits.len() == 0 {
        0
    } else {
        digits_value(digits.drop_last()) * 10 + (digits.last() as int - '0' as int)
    }
}

/// Whether every character is a decimal digit.
pub open spec fn all_digits(digits: Seq<char>) -> bool {
    forall|i: int| 0 <= i < digits.len() ==> is_digit(#[trigger] digits[i])
}

/// The digits of a number text: the text without a leading plus sign.
pub open spec fn unsigned_part(text: Seq<char>) -> Seq<char> {
    if text.len() > 0 && text[0] == '+' {
        text.drop_first()
    } else {
        text
    }
}

/// The `u8` that `text` writes, as `str::parse` reads it: an optional plus
/// sign, then at least one decimal digit, the value at most 255.
pub open spec fn spec_parse_u8(text: Seq<char>) -> Option<u8> {
    let digits = unsigned_part(text);
    if digits.len() == 0 || !all_digits(digits) || digits_value(digits) > u8::MAX {
        None
    } else {
        Some(digits_value(digits) as u8)
    }
}

/// The part of `text` before the first `stop`; all of it when it has none.
pub open spec fn before(text: Seq<char>, stop: char) -> Seq<char> {
    text.take(first_index_of(text, stop))
}

/// The text of the major version in a banner: what stands after `SSH-`, up
/// to the first hyphen, and of that the part up to the first dot.
pub open spec fn major_text(banner: Seq<char>) -> Seq<char>
    recommends
        banner.len() >= 4,
{
    before(before(banner.skip(4), '-'), '.')
}

/// The major version that a banner announces.
pub open spec fn spec_parse_version(banner: Seq<char>) -> Option<u8> {
    if banner.len() < 4 || banner.take(4) != "SSH-"@ {
        None
    } else {
        spec_parse_u8(major_text(banner))
    }
}

/// The ten digits, by value.
pub open spec fn decimal_digits() -> Seq<char> {
    seq!['0', '1', '2', '3', '4', '5', '6', '7', '8', '9']
}

/// The decimal text of `n`, without leading zeros.
pub open spec fn decimal(n: u8) -> Seq<char> {
    if n < 10 {
        seq![decimal_digits()[n as int]]
    } else if n < 100 {
        seq![decimal_digits()[n as int / 10], decimal_digits()[n as int % 10]]
    } else {
        seq![
            decimal_digits()[n as int / 100],
            decimal_digits()[n as int / 10 % 10],
            decimal_digits()[n as int % 10],
        ]
    }
}

proof fn lemma_decimal_digit(d: int)
    requires
        0 <= d < 10,
    ensures
        is_digit(decimal_digits()[d]),
        decimal_digits()[d] as int - '0' as int == d,
{
    let digits = decimal_digits();
    assert(digits[0] == '0' && digits[1] == '1' && digits[2] == '2' && digits[3] == '3');
    assert(digits[4] == '4' && digits[5] == '5' && digits[6] == '6' && digits[7] == '7');
    assert(digits[8] == '8' && digits[9] == '9');
}

/// The decimal text of a number is read back as the number.
pub proof fn lemma_decimal_parses(n: u8)
    ensures
        spec_parse_u8(decimal(n)) == Some(n),
{
    let text = decimal(n);
    reveal_with_fuel(digits_value, 4);
    lemma_decimal_digit(n as int % 10);
    lemma_decimal_digit(n as int / 10 % 10);
    lemma_decimal_digit(n as int / 100);
    if n < 100 {
        lemma_decimal_digit(n as int / 10);
    }
    assert(unsigned_part(text) == text);
    assert(all_digits(text));
    if n < 10 {
        assert(text.drop_last().len() == 0);
        assert(digits_value(text) == n);
    } else if n < 100 {
        let tens = text.drop_last();
        assert(tens == seq![decimal_digits()[n as int / 10]]);
        assert(tens.drop_last().len() == 0);
        assert(digits_value(tens) == n as int / 10);
        assert(digits_value(text) == n);
    } else {
        let tens = text.drop_last();
        let hundreds = tens.drop_last();
        assert(tens == seq![
            decimal_digits()[n as int / 100],
            decimal_digits()[n as int / 10 % 10],
        ]);
        assert(hundreds == seq![decimal_digits()[n as int / 100]]);
        assert(hundreds.drop_last().len() == 0);
        assert(digits_value(hundreds) == n as int / 100);
        assert(digits_value(tens) == (n as int / 100) * 10 + n as int / 10 % 10);
        assert(digits_value(text) == n);
    }
}

/// A banner of the shape `SSH-<major>.<anything>-<rest>` announces the
/// major version that `<major>` writes, whatever the other parts hold.
pub proof fn lemma_parse_version_shape(major: Seq<char>, anything: Seq<char>, rest: Seq<char>)
    requires
        spec_parse_u8(major) is Some,
    ensures
        spec_parse_version("SSH-"@ + major + seq!['.'] + anything + seq!['-'] + rest)
            == spec_parse_u8(major),
{
    reveal_strlit("SSH-");
    let banner = "SSH-"@ + major + seq!['.'] + anything + seq!['-'] + rest;
    let tail = major + seq!['.'] + anything + seq!['-'] + rest;
    let m = major.len() as int;
    assert(banner.take(4) == "SSH-"@);
    assert(banner.skip(4) == tail);
    assert forall|i: int| 0 <= i < m implies major[i] != '-' && major[i] != '.' by {
        let digits = unsigned_part(major);
        if major[0] == '+' {
            if i > 0 {
                assert(is_digit(digits[i - 1]));
            }
        } else {
            assert(is_digit(digits[i]));
        }
    }
    let hyphen = first_index_of(tail, '-');
    lemma_first_index_of(tail, '-');
    assert(tail[m] == '.');
    assert(tail[m + 1 + anything.len()] == '-');
    assert(forall|i: int| 0 <= i < m ==> tail[i] == major[i]);
    assert(m + 1 <= hyphen <= m + 1 + anything.len());
    let head = before(tail, '-');
    assert(forall|i: int| 0 <= i < m ==> head[i] == major[i]);
    assert(head[m] == '.');
    lemma_first_index_is(head, '.', m);
    assert(before(head, '.') == major);
}

/// A value of digits does not shrink when digits follow.
proof fn lemma_digits_value_grows(digits: Seq<char>, k: int)
    requires
        all_digits(digits),
        0 <= k <= digits.len(),
    ensures
        0 <= digits_value(digits.take(k)) <= digits_value(digits),
    decreases digits.len() - k,
{
    if k == 0 {
        lemma_digits_value_nonnegative(digits);
        assert(digits.take(0).len() == 0);
    } else if k < digits.len() {
        lemma_digits_value_grows(digits, k + 1);
        assert(digits.take(k + 1).drop_last() == digits.take(k));
        assert(is_digit(digits[k]));
        lemma_digits_value_nonnegative(digits.take(k));
    } else {
        assert(digits.take(k) == digits);
        lemma_digits_value_nonnegative(digits);
    }
}

proof fn lemma_digits_value_nonnegative(digits: Seq<char>)
    requires
        all_digits(digits),
    ensures
        0 <= digits_value(digits),
    decreases digits.len(),
{
    if digits.len() > 0 {
        assert(is_digit(digits.last()));
        lemma_digits_value_nonnegative(digits.drop_last());
    }
}

/// Reads a `u8` from `text[from..to]`.
fn parse_u8(text: &Vec<char>, from: usize, to: usize) -> (value: Option<u8>)
    requires
        from <= to <= text@.len(),
    ensures
        value == spec_parse_u8(text@.subrange(from as int, to as int)),
{
    let ghost whole = text@.subrange(from as int, to as int);
    let start: usize = if from < to && text[from] == '+' {
        (from + 1) as usize
    } else {
        from
    };
    let ghost digits = text@.subrange(start as int, to as int);
    assert(digits == unsigned_part(whole));
    if start == to {
        return None;
    }
    let mut value: u32 = 0;
    let mut i: usize = start;
    while i < to
        invariant
            from <= start <= i <= to <= text@.len(),
            start < to,
            digits == text@.subrange(start as int, to as int),
            digits == unsigned_part(text@.subrange(from as int, to as int)),
            all_digits(digits.take(i - start)),
            value == digits_value(digits.take(i - start)),
            value <= u8::MAX,
        decreases to - i,
    {
        let c: char = text[i];
        assert(c == digits[i - start]);
        if !('0' <= c && c <= '9') {
            assert(!is_digit(digits[i - start]));
            return None;
        }
        let d: u32 = (c as u32) - ('0' as u32);
        value = value * 10 + d;
        proof {
            assert(digits.take(i - start + 1).drop_last() == digits.take(i - start));
            assert(all_digits(digits.take(i - start + 1))) by {
                assert forall|j: int| 0 <= j < i - start + 1 implies is_digit(
                    #[trigger] digits.take(i - start + 1)[j],
                ) by {
                    if j < i - start {
                        assert(digits.take(i - start + 1)[j] == digits.take(i - start)[j]);
                    }
                }
            }
        }
        if value > 255 {
            proof {
                if all_digits(digits) {
                    lemma_digits_value_grows(digits, i - start + 1);
                }
            }
            return None;
        }
        i = i + 1;
    }
    assert(digits.take(i - start) == digits);
    Some(value as u8)
}

/// The index in `text[from..to]` of the first `stop`, counted from the
/// start of `text`; `to` when there is none.
fn find(text: &Vec<char>, from: usize, to: usize, stop: char) -> (at: usize)
    requires
        from <= to <= text@.len(),
    ensures
        from <= at <= to,
        at - from == first_index_of(text@.subrange(from as int, to as int), stop),
{
    let ghost part = text@.subrange(from as int, to as int);
    let mut at: usize = from;
    assert(part.skip(0) == part);
    while at < to && text[at] != stop
        invariant
            from <= at <= to <= text@.len(),
            part == text@.subrange(from as int, to as int),
            first_index_of(part, stop) == (at - from) + first_index_of(
                part.skip(at - from),
                stop,
            ),
        decreases to - at,
    {
        assert(part.skip(at - from).drop_first() == part.skip(at - from + 1));
        at = at + 1;
    }
    at
}

/// The major version that a banner announces.
///
/// The banner must start with `SSH-`. The major version is the text up to
/// the first hyphen after that, and of this text the part before the
/// first dot. A banner in which that is no `u8` is refused.
pub fn parse_version(version_string: &str) -> (result: Result<u8, SshError>)
    ensures
        match result {
            Ok(major) => spec_parse_version(version_string@) == Some(major),
            Err(e) => e == SshError::ProtocolError && spec_parse_version(version_string@) is None,
        },
{
    let text: Vec<char> = chars_of(version_string);
    let n: usize = text.len();
    proof {
        reveal_strlit("SSH-");
    }
    if n < 4 || text[0] != 'S' || text[1] != 'S' || text[2] != 'H' || text[3] != '-' {
        assert(n >= 4 ==> text@.take(4)[0] == text@[0] && text@.take(4)[1] == text@[1]
            && text@.take(4)[2] == text@[2] && text@.take(4)[3] == text@[3]);
        return Err(SshError::ProtocolError);
    }
    assert(text@.take(4) == "SSH-"@);
    let hyphen: usize = find(&text, 4, n, '-');
    let dot: usize = find(&text, 4, hyphen, '.');
    proof {
        let rest = text@.skip(4);
        assert(rest == text@.subrange(4, n as int));
        assert(before(rest, '-') == text@.subrange(4, hyphen as int));
        assert(before(before(rest, '-'), '.') == text@.subrange(4, dot as int));
    }
    match parse_u8(&text, 4, dot) {
        Some(major) => Ok(major),
        None => Err(SshError::ProtocolError),
    }
}

/// Whether the two banners agree: both announce major version 2.
pub open spec fn versions_agree(client_version: Seq<char>, server_version: Seq<char>) -> bool {
    spec_parse_version(client_version) == Some(SUPPORTED_MAJOR) && spec_parse_version(
        server_version,
    ) == Some(SUPPORTED_MAJOR)
}

/// Checks that both banners announce major version 2.
pub fn negotiate_version(client_version: &str, server_version: &str) -> (result: Result<
    (),
    SshError,
>)
    ensures
        match result {
            Ok(()) => result == Ok::<(), SshError>(()) && versions_agree(
                client_version@,
                server_version@,
            ),
            Err(e) => e == SshError::VersionMismatch && !versions_agree(
                client_version@,
                server_version@,
            ),
        },
{
    let client_major: u8 = match parse_version(client_version) {
        Ok(major) => major,
        Err(_) => {
            return Err(SshError::VersionMismatch);
        },
    };
    let server_major: u8 = match parse_version(server_version) {
        Ok(major) => major,
        Err(_) => {
            return Err(SshError::VersionMismatch);
        },
    };
    if client_major != server_major {
        return Err(SshError::VersionMismatch);
    }
    if client_major != SUPPORTED_MAJOR {
        return Err(SshError::VersionMismatch);
    }
    Ok(())
}

/// The banners of this library announce major version 2, so a client and
/// a server of this library agree.
pub proof fn lemma_own_banners_agree()
    ensures
        spec_parse_version(banner(true)) == Some(SUPPORTED_MAJOR),
        spec_parse_version(banner(false)) == Some(SUPPORTED_MAJOR),
        versions_agree(banner(false), banner(true)),
{
    reveal_strlit("SSH-2.0-EduSSH-1.0");
    reveal_strlit("SSH-2.0-EduSSH-Client-1.0");
    reveal_strlit("SSH-");
    reveal_strlit("EduSSH-1.0");
    reveal_strlit("EduSSH-Client-1.0");
    let major = seq!['2'];
    let minor = seq!['0'];
    lemma_decimal_parses(2);
    assert(decimal(2) == major);
    assert(banner(true) == "SSH-"@ + major + seq!['.'] + minor + seq!['-'] + "EduSSH-1.0"@);
    assert(banner(false) == "SSH-"@ + major + seq!['.'] + minor + seq!['-']
        + "EduSSH-Client-1.0"@);
    lemma_parse_version_shape(major, minor, "EduSSH-1.0"@);
    lemma_parse_version_shape(major, minor, "EduSSH-Client-1.0"@);
}

/// A banner that one side sent is the line that the other side receives,
/// whatever follows it.
pub proof fn lemma_banner_is_received(is_server: bool, rest: Seq<u8>)
    ensures
        spec_read_line(banner_line(is_server) + rest) == Ok::<_, SshError>(
            (banner(is_server), rest),
        ),
{
    reveal_strlit("SSH-2.0-EduSSH-1.0");
    reveal_strlit("SSH-2.0-EduSSH-Client-1.0");
    let text = banner(is_server);
    assert(is_ascii_chars(text));
    is_ascii_chars_encode_utf8(text);
    assert forall|i: int| 0 <= i < encode_utf8(text).len() implies encode_utf8(text)[i]
        != LINE_FEED by {
        assert(encode_utf8(text)[i] == text[i] as u8);
        assert(text[i] != '\n');
    }
    lemma_line_round_trip(text, rest);
}

/// Sends this side's banner, with CRLF.
pub fn send_version_string<S: ReadWrite>(stream: &mut S, is_server: bool) -> (result: Result<
    (),
    SshError,
>)
    ensures
        final(stream).incoming() == old(stream).incoming(),
        final(stream).accepts_writes() == old(stream).accepts_writes(),
        match result {
            Ok(()) => result == Ok::<(), SshError>(()) && final(stream).outgoing() == old(
                stream,
            ).outgoing() + banner_line(is_server),
            Err(e) => e == SshError::WriteFailed && !old(stream).accepts_writes(),
        },
{
    let version: &str = if is_server {
        SERVER_VERSION
    } else {
        CLIENT_VERSION
    };
    let mut line: Vec<u8> = version.as_bytes_vec();
    line.push(CARRIAGE_RETURN);
    line.push(LINE_FEED);
    write_all(stream, line.as_slice())
}

/// Receives the peer's banner: one line, without its CRLF.
pub fn receive_version_string<S: ReadWrite>(stream: &mut S) -> (result: Result<String, SshError>)
    ensures
        final(stream).outgoing() == old(stream).outgoing(),
        final(stream).accepts_writes() == old(stream).accepts_writes(),
        final(stream).incoming() == spec_after_read_line(old(stream).incoming()),
        match result {
            Ok(line) => spec_read_line(old(stream).incoming()) == Ok::<_, SshError>(
                (line@, final(stream).incoming()),
            ),
            Err(e) => spec_read_line(old(stream).incoming()) == Err::<(Seq<char>, Seq<u8>), _>(e),
        },
{
    read_line_crlf(stream)
}

} // verus!
