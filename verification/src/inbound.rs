//! The rules of the inbound boundary: what a request has to carry and how an
//! outcome is reported, apart from any transport.

use vstd::prelude::*;
use vstd::string::StringSliceAdditionalSpecFns;
use crate::error::ErrorView;
use crate::error::ManagerError;

verus! {

/// Largest body, in bytes, that one request may carry (90 MiB).
pub const REQUEST_BODY_LIMIT: usize = 94371840;

/// What an upload reports to its client: the id of the file, and whether the
/// content was stored before this upload.
#[derive(Debug, PartialEq, Eq)]
pub struct UploadResult {
    pub id: String,
    pub existed: bool,
}

/// Mathematical value of what an upload reports.
pub open spec fn reported(outcome: Result<Seq<char>, ErrorView>) -> Result<
    (Seq<char>, bool),
    ErrorView,
> {
    match outcome {
        Ok(id) => Ok((id, false)),
        Err(ErrorView::FileExists(id)) => Ok((id, true)),
        Err(e) => Err(e),
    }
}

/// Turns the outcome of a commit into what the client is told. Content that
/// was stored already is no failure: its id is reported with `existed` set.
pub fn upload_result(outcome: Result<String, ManagerError>) -> (report: Result<
    UploadResult,
    ManagerError,
>)
    ensures
        match reported(crate::error::id_outcome(outcome)) {
            Ok((id, existed)) => report matches Ok(told) && told.id@ == id && told.existed
                == existed,
            Err(e) => report matches Err(kept) && kept@ == e,
        },
{
    match outcome {
        Ok(id) => Ok(UploadResult { id, existed: false }),
        Err(ManagerError::FileExists(id)) => Ok(UploadResult { id, existed: true }),
        Err(e) => Err(e),
    }
}

/// The page that a listing shows: the one asked for, or the first.
pub fn page_or_first(page: Option<usize>) -> (chosen: usize)
    ensures
        chosen == match page {
            Some(p) => p,
            None => 1,
        },
{
    match page {
        Some(p) => p,
        None => 1,
    }
}

/// Whether a request may pass: it carries an authorization value, and that
/// value is the token.
pub fn authorized(header: Option<&str>, token: &str) -> (pass: bool)
    ensures
        pass == (header matches Some(value) && value@ == token@),
{
    match header {
        Some(value) => value.to_owned() == token.to_owned(),
        None => false,
    }
}

/// Whether a multipart field is the one that carries a whole file: the
/// field named `file`.
pub fn is_file_field(name: &str) -> (accepted: bool)
    ensures
        accepted == (name@ == "file"@),
{
    name.to_owned() == "file".to_owned()
}

/// Whether a multipart field is the one that carries a chunk: the field
/// named `chunk`.
pub fn is_chunk_field(name: &str) -> (accepted: bool)
    ensures
        accepted == (name@ == "chunk"@),
{
    name.to_owned() == "chunk".to_owned()
}

/// Whether `byte` is an ASCII decimal digit.
pub open spec fn is_digit(byte: u8) -> bool {
    0x30 <= byte <= 0x39
}

/// The number that the decimal digits `digits` write.
pub open spec fn digits_value(digits: Seq<u8>) -> nat
    decreases digits.len(),
{
    if digits.len() == 0 {
        0
    } else {
        digits_value(digits.drop_last()) * 10 + (digits.last() - 0x30) as nat
    }
}

/// `text` without a leading plus sign.
pub open spec fn unsigned_part(text: Seq<u8>) -> Seq<u8> {
    if text.len() > 0 && text[0] == 0x2b {
        text.drop_first()
    } else {
        text
    }
}

/// The number that `text` writes: an optional plus sign and then one or more
/// decimal digits, nothing else, with a value that a `usize` holds.
pub open spec fn decimal(text: Seq<u8>) -> Option<usize> {
    let digits = unsigned_part(text);
    if digits.len() > 0 && (forall|i: int| 0 <= i < digits.len() ==> is_digit(#[trigger] digits[i]))
        && digits_value(digits) <= usize::MAX {
        Some(digits_value(digits) as usize)
    } else {
        None
    }
}

/// Longer digit strings write larger numbers.
proof fn lemma_digits_grow(digits: Seq<u8>, n: int)
    requires
        0 <= n <= digits.len(),
        forall|i: int| 0 <= i < digits.len() ==> is_digit(#[trigger] digits[i]),
    ensures
        digits_value(digits.take(n)) <= digits_value(digits),
    decreases digits.len() - n,
{
    if n < digits.len() {
        lemma_digits_grow(digits, n + 1);
        assert(digits.take(n + 1).drop_last() =~= digits.take(n));
        assert(digits.take(n + 1).last() == digits[n]);
    } else {
        assert(digits.take(n) =~= digits);
    }
}

/// Reads a decimal number.
pub fn parse_number(text: &[u8]) -> (number: Option<usize>)
    ensures
        number == decimal(text@),
{
    let first: usize = if text.len() > 0 && text[0] == 0x2b {
        1
    } else {
        0
    };
    let ghost digits = unsigned_part(text@);
    assert(digits =~= text@.subrange(first as int, text@.len() as int));
    if text.len() == first {
        return None;
    }
    let mut value: usize = 0;
    let mut i: usize = first;
    while i < text.len()
        invariant
            first <= i <= text@.len(),
            digits == text@.subrange(first as int, text@.len() as int),
            digits == unsigned_part(text@),
            forall|j: int| 0 <= j < i - first ==> is_digit(#[trigger] digits[j]),
            value == digits_value(digits.take(i - first)),
        decreases text@.len() - i,
    {
        let byte = text[i];
        if byte < 0x30 || byte > 0x39 {
            assert(!is_digit(digits[i - first]));
            return None;
        }
        let ghost longer = digits.take(i - first + 1);
        proof {
            assert(longer.drop_last() =~= digits.take(i - first));
            assert(longer.last() == byte);
        }
        let next = match value.checked_mul(10) {
            Some(tenfold) => tenfold.checked_add((byte - 0x30) as usize),
            None => None,
        };
        match next {
            Some(sum) => {
                value = sum;
            },
            None => {
                proof {
                    assert(digits_value(longer) > usize::MAX);
                    if forall|j: int| 0 <= j < digits.len() ==> is_digit(#[trigger] digits[j]) {
                        lemma_digits_grow(digits, i - first + 1);
                    }
                }
                return None;
            },
        }
        i = i + 1;
    }
    assert(digits.take(i - first) =~= digits);
    Some(value)
}

/// The number that a header carries: the declared size of a chunked upload,
/// or the offset of a chunk. A header that is missing or does not write a
/// number counts as zero.
pub fn header_number(header: Option<&str>) -> (number: usize)
    ensures
        number == match header {
            Some(value) => match decimal(value.spec_bytes()) {
                Some(n) => n,
                None => 0,
            },
            None => 0,
        },
{
    match header {
        Some(value) => match parse_number(value.as_bytes()) {
            Some(n) => n,
            None => 0,
        },
        None => 0,
    }
}

} // verus!
