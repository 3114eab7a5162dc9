//! The headers that say how long a body is.

use crate::http::body::BodySpec;
use crate::http::error::HttpError;
#[allow(unused_imports)]
use crate::http::error::HttpErrorView;
#[allow(unused_imports)]
use crate::text::decimal;
use crate::text::decimal_text;
use ureq_proto::http::header::{HeaderName, HeaderValue};
use ureq_proto::http::HeaderMap;
use vstd::prelude::*;

verus! {

/// The header map of the `http` crate.
#[verifier::external_type_specification]
#[verifier::external_body]
#[verifier::reject_recursive_types(T)]
pub struct ExHeaderMap<T>(HeaderMap<T>);

/// The header value of the `http` crate.
#[verifier::external_type_specification]
#[verifier::external_body]
pub struct ExHeaderValue(HeaderValue);

/// The values under each name of a header map, in the order in which they were added. Names are
/// in lower case.
pub uninterp spec fn header_values(headers: HeaderMap) -> Map<Seq<char>, Seq<Seq<u8>>>;

/// A header name as the map keeps it: lower-case letters and dashes.
pub open spec fn lower_name(name: Seq<char>) -> bool {
    &&& 0 < name.len() <= 65535
    &&& forall|i: int| 0 <= i < name.len() ==> #[trigger] name[i] == '-' || 'a' <= name[i] <= 'z'
}

/// So few names that the map takes one more, whatever it holds.
pub open spec fn roomy(headers: HeaderMap) -> bool {
    header_values(headers).dom().len() < 1024
}

/// A byte that a header value may hold.
pub open spec fn value_byte(byte: u8) -> bool {
    byte >= 32 && byte != 127 || byte == 9
}

/// The first value under a name.
pub open spec fn first_value(headers: HeaderMap, name: Seq<char>) -> Option<Seq<u8>> {
    if header_values(headers).dom().contains(name) {
        Some(header_values(headers)[name][0])
    } else {
        None
    }
}

/// Calls `HeaderMap::get`: the first value under the name, where there is one.
#[verifier::external_body]
fn first_header(headers: &HeaderMap, name: &str) -> (value: Option<Vec<u8>>)
    requires
        lower_name(name@),
    ensures
        value matches Some(bytes) ==> first_value(*headers, name@) == Some(bytes@),
        value is None ==> first_value(*headers, name@) is None,
{
    headers.get(name).map(|value| value.as_bytes().to_vec())
}

/// Calls `HeaderMap::get_all`: every value under the name, in the order in which they were
/// added.
#[verifier::external_body]
pub(crate) fn every_header(headers: &HeaderMap, name: &str) -> (values: Vec<Vec<u8>>)
    requires
        lower_name(name@),
    ensures
        values@.map_values(|v: Vec<u8>| v@) == (if header_values(*headers).dom().contains(name@) {
            header_values(*headers)[name@]
        } else {
            Seq::empty()
        }),
{
    headers.get_all(name).iter().map(|value| value.as_bytes().to_vec()).collect()
}

/// Calls `HeaderMap::try_insert`: the value takes the place of those under the name, unless the
/// map is full, and then nothing changes. With few names it is not full: its table has at most
/// 32768 places, and grows when a fifth of them is taken or later. When else it is full rests on
/// how the map hashes, and is not stated.
#[verifier::external_body]
pub(crate) fn put_header(headers: &mut HeaderMap, name: &str, value: &[u8]) -> (done: bool)
    requires
        lower_name(name@),
        forall|i: int| 0 <= i < value@.len() ==> value_byte(#[trigger] value@[i]),
    ensures
        done ==> header_values(*final(headers)) == header_values(*old(headers)).insert(
            name@,
            seq![value@],
        ),
        !done ==> header_values(*final(headers)) == header_values(*old(headers)),
        roomy(*old(headers)) ==> done,
{
    match (HeaderName::from_bytes(name.as_bytes()), HeaderValue::from_bytes(value)) {
        (Ok(name), Ok(value)) => headers.try_insert(name, value).is_ok(),
        _ => false,
    }
}

/// The text of a number, as bytes.
pub open spec fn decimal_bytes(value: nat) -> Seq<u8> {
    decimal(value).map_values(|c: char| c as u8)
}

/// The number that digits write, unless a byte is no digit.
pub open spec fn digits_value(bytes: Seq<u8>) -> Option<nat>
    decreases bytes.len(),
{
    if bytes.len() == 0 {
        Some(0)
    } else {
        match digits_value(bytes.drop_last()) {
            Some(value) if 48 <= bytes.last() <= 57 => Some(
                (10 * value + (bytes.last() - 48)) as nat,
            ),
            _ => None,
        }
    }
}

/// The number that a header value writes: digits, behind a plus sign perhaps, and no more than
/// fits 64 bits.
pub open spec fn length_value(bytes: Seq<u8>) -> Option<u64> {
    let digits = if bytes.len() > 0 && bytes[0] == 43 {
        bytes.skip(1)
    } else {
        bytes
    };
    if digits.len() == 0 {
        None
    } else {
        match digits_value(digits) {
            Some(value) if value <= u64::MAX => Some(value as u64),
            _ => None,
        }
    }
}

/// Digits in front of others write no more than all of them.
proof fn lemma_digits_prefix(bytes: Seq<u8>, count: int)
    requires
        0 <= count <= bytes.len(),
        digits_value(bytes) is Some,
    ensures
        digits_value(bytes.take(count)) is Some,
        digits_value(bytes.take(count))->0 <= digits_value(bytes)->0,
    decreases bytes.len() - count,
{
    if count == bytes.len() {
        assert(bytes.take(count) =~= bytes);
    } else {
        lemma_digits_prefix(bytes, count + 1);
        assert(bytes.take(count + 1).drop_last() =~= bytes.take(count));
    }
}

/// Reads the number that a header value writes.
fn read_length(bytes: &Vec<u8>) -> (value: Option<u64>)
    ensures
        value == length_value(bytes@),
{
    let mut from: usize = 0;
    if bytes.len() > 0 && bytes[0] == 43 {
        from = 1;
    }
    let ghost digits = bytes@.skip(from as int);
    assert(from == 0 ==> digits =~= bytes@);
    if from == bytes.len() {
        return None;
    }
    let mut value: u64 = 0;
    let mut i: usize = from;
    assert(digits.take(0) =~= Seq::empty());
    while i < bytes.len()
        invariant
            from <= i <= bytes@.len(),
            digits == bytes@.skip(from as int),
            digits.len() > 0,
            length_value(bytes@) == (match digits_value(digits) {
                Some(value) if value <= u64::MAX => Some(value as u64),
                _ => None,
            }),
            digits_value(digits.take(i - from)) == Some(value as nat),
        decreases bytes@.len() - i,
    {
        let byte: u8 = bytes[i];
        assert(digits.take(i - from + 1).drop_last() =~= digits.take(i - from));
        assert(digits.take(i - from + 1).last() == byte);
        proof {
            if digits_value(digits) is Some {
                lemma_digits_prefix(digits, i - from + 1);
            }
        }
        if byte < 48 || byte > 57 {
            return None;
        }
        let wide: u128 = 10 * (value as u128) + ((byte - 48) as u128);
        if wide > 0xffff_ffff_ffff_ffff {
            return None;
        }
        value = wide as u64;
        i += 1;
    }
    assert(digits.take(i - from) =~= digits);
    Some(value)
}

/// A byte as a lower-case letter, where it is an upper-case one of ASCII.
pub open spec fn lower_byte(byte: u8) -> u8 {
    if 65 <= byte <= 90 {
        (byte + 32) as u8
    } else {
        byte
    }
}

/// What the word for a body in chunks is made of.
pub open spec fn chunked_word() -> Seq<u8> {
    seq![99, 104, 117, 110, 107, 101, 100]
}

/// The word for a body in chunks, in letters of either case.
pub open spec fn says_chunked(bytes: Seq<u8>) -> bool {
    bytes.map_values(|b: u8| lower_byte(b)) == chunked_word()
}

/// The word for a body in chunks.
fn chunked_bytes() -> (word: Vec<u8>)
    ensures
        word@ == chunked_word(),
{
    let word: Vec<u8> = vec![99, 104, 117, 110, 107, 101, 100];
    assert(word@ =~= chunked_word());
    word
}

/// Whether a value is the word for a body in chunks.
fn is_chunked(bytes: &Vec<u8>) -> (chunked: bool)
    ensures
        chunked == says_chunked(bytes@),
{
    let word = chunked_bytes();
    let ghost lower = bytes@.map_values(|b: u8| lower_byte(b));
    if bytes.len() != word.len() {
        assert(lower.len() != chunked_word().len());
        return false;
    }
    let mut i: usize = 0;
    while i < word.len()
        invariant
            i <= word@.len() == bytes@.len(),
            word@ == chunked_word(),
            lower == bytes@.map_values(|b: u8| lower_byte(b)),
            forall|k: int| 0 <= k < i ==> #[trigger] lower[k] == word@[k],
        decreases word@.len() - i,
    {
        let byte: u8 = bytes[i];
        let small: u8 = if 65 <= byte && byte <= 90 {
            byte + 32
        } else {
            byte
        };
        assert(lower[i as int] == small);
        if small != word[i] {
            return false;
        }
        i += 1;
    }
    assert(lower =~= chunked_word());
    true
}

/// The name of the header that gives a body's length.
pub const CONTENT_LENGTH: &'static str = "content-length";

/// The name of the header that says that a body comes in chunks.
pub const TRANSFER_ENCODING: &'static str = "transfer-encoding";

/// What speaks against sending a body as `spec` says under the headers.
pub open spec fn framing_fault(headers: HeaderMap, spec: BodySpec) -> Option<Seq<char>> {
    let length = first_value(headers, CONTENT_LENGTH@);
    let encoding = first_value(headers, TRANSFER_ENCODING@);
    if length is Some && encoding is Some {
        Some("Content-Length 与 Transfer-Encoding 不能并存"@)
    } else {
        match spec {
            BodySpec::Empty => if encoding is Some || (length matches Some(value) && value
                != seq![48u8]) {
                Some("Empty body 与 framing header 不一致"@)
            } else {
                None
            },
            BodySpec::Fixed(size) => if length matches Some(value) && length_value(value) != Some(
                size,
            ) {
                Some("Content-Length 与 BodySpec 不一致"@)
            } else {
                None
            },
            BodySpec::Chunked => if length is Some {
                Some("Chunked body 不能带 Content-Length"@)
            } else if encoding matches Some(value) && !says_chunked(value) {
                Some("Transfer-Encoding 与 Chunked BodySpec 不一致"@)
            } else {
                None
            },
        }
    }
}

/// The header that has to be added for a body as `spec` says.
pub open spec fn framing_header(headers: HeaderMap, spec: BodySpec) -> Option<
    (Seq<char>, Seq<u8>),
> {
    match spec {
        BodySpec::Empty => None,
        BodySpec::Fixed(size) => if first_value(headers, CONTENT_LENGTH@) is None {
            Some((CONTENT_LENGTH@, decimal_bytes(size as nat)))
        } else {
            None
        },
        BodySpec::Chunked => if first_value(headers, TRANSFER_ENCODING@) is None {
            Some((TRANSFER_ENCODING@, chunked_word()))
        } else {
            None
        },
    }
}

/// The names of the two headers are as the map keeps them.
proof fn lemma_names()
    ensures
        lower_name(CONTENT_LENGTH@),
        lower_name(TRANSFER_ENCODING@),
{
    reveal_strlit("content-length");
    reveal_strlit("transfer-encoding");
}

/// The digits of a number are bytes that a header value may hold.
pub proof fn lemma_decimal_bytes(value: nat)
    ensures
        forall|i: int|
            0 <= i < decimal(value).len() ==> '0' <= #[trigger] decimal(value)[i] <= '9',
    decreases value,
{
    if value >= 10 {
        lemma_decimal_bytes(value / 10);
        assert(decimal(value) == decimal(value / 10).push(crate::text::digit(value % 10)));
    } else {
        assert(decimal(value) =~= seq![crate::text::digit(value)]);
    }
}

/// The text of a number, as bytes.
fn number_bytes(value: u64) -> (bytes: Vec<u8>)
    ensures
        bytes@ == decimal_bytes(value as nat),
        forall|i: int| 0 <= i < bytes@.len() ==> value_byte(#[trigger] bytes@[i]),
{
    let text = decimal_text(value);
    let count: usize = text.as_str().unicode_len();
    let mut bytes: Vec<u8> = Vec::new();
    let mut i: usize = 0;
    proof {
        lemma_decimal_bytes(value as nat);
    }
    while i < count
        invariant
            i <= count == text@.len(),
            text@ == decimal(value as nat),
            bytes@.len() == i,
            forall|k: int| 0 <= k < text@.len() ==> '0' <= #[trigger] text@[k] <= '9',
            forall|k: int| 0 <= k < i ==> #[trigger] bytes@[k] == text@[k] as u8,
            forall|k: int| 0 <= k < i ==> value_byte(#[trigger] bytes@[k]),
        decreases count - i,
    {
        let c: char = text.as_str().get_char(i);
        bytes.push(c as u8);
        i += 1;
    }
    assert(bytes@ =~= decimal_bytes(value as nat));
    bytes
}

/// Checks the headers against what is to be sent, and adds the one that says how long the body
/// is. Where the map takes no more headers that is the error.
pub fn apply_body_headers(headers: &mut HeaderMap, spec: BodySpec) -> (result: Result<
    (),
    HttpError,
>)
    ensures
        framing_fault(*old(headers), spec) matches Some(text) ==> {
            &&& result matches Err(error) && error@ == HttpErrorView::Protocol(text)
            &&& *final(headers) == *old(headers)
        },
        framing_fault(*old(headers), spec) is None ==> match framing_header(*old(headers), spec) {
            None => result is Ok && *final(headers) == *old(headers),
            Some((name, value)) => {
                &&& result is Ok ==> header_values(*final(headers)) == header_values(
                    *old(headers),
                ).insert(name, seq![value])
                &&& result matches Err(error) ==> {
                    &&& !roomy(*old(headers))
                    &&& error@ == HttpErrorView::Protocol("header 数量超过上限"@)
                    &&& header_values(*final(headers)) == header_values(*old(headers))
                }
            },
        },
{
    proof {
        lemma_names();
    }
    let length = first_header(headers, CONTENT_LENGTH);
    let encoding = first_header(headers, TRANSFER_ENCODING);
    if length.is_some() && encoding.is_some() {
        return Err(
            HttpError::Protocol("Content-Length 与 Transfer-Encoding 不能并存".to_owned()),
        );
    }
    match spec {
        BodySpec::Empty => {
            let plain = match &length {
                Some(value) => {
                    let zero = value.len() == 1 && value[0] == 48;
                    assert(zero ==> value@ =~= seq![48u8]);
                    zero
                },
                None => true,
            };
            if !plain || encoding.is_some() {
                return Err(HttpError::Protocol("Empty body 与 framing header 不一致".to_owned()));
            }
        },
        BodySpec::Fixed(size) => {
            match &length {
                Some(value) => {
                    let fits = match read_length(value) {
                        Some(found) => found == size,
                        None => false,
                    };
                    if !fits {
                        return Err(
                            HttpError::Protocol("Content-Length 与 BodySpec 不一致".to_owned()),
                        );
                    }
                },
                None => {
                    let bytes = number_bytes(size);
                    if !put_header(headers, CONTENT_LENGTH, bytes.as_slice()) {
                        return Err(HttpError::Protocol("header 数量超过上限".to_owned()));
                    }
                },
            }
        },
        BodySpec::Chunked => {
            if length.is_some() {
                return Err(HttpError::Protocol("Chunked body 不能带 Content-Length".to_owned()));
            }
            match &encoding {
                Some(value) => {
                    if !is_chunked(value) {
                        return Err(
                            HttpError::Protocol(
                                "Transfer-Encoding 与 Chunked BodySpec 不一致".to_owned(),
                            ),
                        );
                    }
                },
                None => {
                    let word = chunked_bytes();
                    if !put_header(headers, TRANSFER_ENCODING, word.as_slice()) {
                        return Err(HttpError::Protocol("header 数量超过上限".to_owned()));
                    }
                },
            }
        },
    }
    Ok(())
}

/// The digits of a number write that number.
pub proof fn lemma_decimal_reads_back(value: nat)
    ensures
        digits_value(decimal_bytes(value)) == Some(value),
        decimal_bytes(value).len() > 0,
    decreases value,
{
    lemma_decimal_bytes(value);
    let bytes = decimal_bytes(value);
    if value >= 10 {
        lemma_decimal_reads_back(value / 10);
        assert(decimal(value) == decimal(value / 10).push(crate::text::digit(value % 10)));
        assert(bytes.drop_last() =~= decimal_bytes(value / 10));
        assert(bytes.last() == crate::text::digit(value % 10) as u8);
    } else {
        assert(decimal(value) =~= seq![crate::text::digit(value)]);
        assert(bytes.drop_last() =~= Seq::empty());
        assert(digits_value(bytes.drop_last()) == Some(0nat));
        assert(bytes.last() == crate::text::digit(value) as u8);
    }
}

/// The header that is added for a body says what the body is: with it the headers are in order,
/// and nothing more has to be added. That is not so of a body with a fixed size whose headers name
/// a transfer encoding already: its length is added all the same.
pub proof fn law_the_added_header_is_in_order(headers: HeaderMap, spec: BodySpec, after: HeaderMap)
    requires
        framing_fault(headers, spec) is None,
        framing_header(headers, spec) matches Some((name, value)) && header_values(after)
            == header_values(headers).insert(name, seq![value]),
        spec is Fixed ==> first_value(headers, TRANSFER_ENCODING@) is None,
    ensures
        framing_fault(after, spec) is None,
        framing_header(after, spec) is None,
{
    reveal_strlit("content-length");
    reveal_strlit("transfer-encoding");
    assert(CONTENT_LENGTH@.len() != TRANSFER_ENCODING@.len());
    match spec {
        BodySpec::Fixed(size) => {
            lemma_decimal_reads_back(size as nat);
            lemma_decimal_bytes(size as nat);
            let bytes = decimal_bytes(size as nat);
            assert('0' <= decimal(size as nat)[0] <= '9');
            assert(bytes[0] == decimal(size as nat)[0] as u8);
            assert(length_value(bytes) == Some(size));
        },
        BodySpec::Chunked => {
            assert(chunked_word().map_values(|b: u8| lower_byte(b)) =~= chunked_word());
        },
        BodySpec::Empty => {},
    }
}

} // verus!
