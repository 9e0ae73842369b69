//! Checks on names, sizes, timeouts and listen addresses.

use crate::errors::{invalid_with, NsqError};
use crate::text::{
    decimal_chars, decimal_string, index_of, lemma_index_of_is, parse_decimal, parse_decimal_spec,
};
use vstd::prelude::*;
use vstd::string::*;

verus! {

/// The longest topic or channel name, in bytes.
pub const MAX_NAME_LEN: usize = 64;

/// The longest Unix socket path, in bytes.
pub const MAX_SOCKET_PATH_LEN: usize = 108;

/// A byte that may occur in a topic or channel name: an ASCII letter or
/// digit, a dot, an underscore or a hyphen.
pub open spec fn is_name_byte(b: u8) -> bool {
    ||| 0x61 <= b <= 0x7a
    ||| 0x41 <= b <= 0x5a
    ||| 0x30 <= b <= 0x39
    ||| b == 0x2e
    ||| b == 0x5f
    ||| b == 0x2d
}

/// Every byte of `bytes` may occur in a name.
pub open spec fn all_name_bytes(bytes: Seq<u8>) -> bool {
    forall|i: int| 0 <= i < bytes.len() ==> is_name_byte(#[trigger] bytes[i])
}

/// A well-formed topic or channel name: 1 to 64 bytes, each a name byte.
pub open spec fn valid_name(bytes: Seq<u8>) -> bool {
    &&& 1 <= bytes.len() <= MAX_NAME_LEN
    &&& all_name_bytes(bytes)
}

/// Whether `b` may occur in a topic or channel name.
pub fn name_byte_ok(b: u8) -> (ok: bool)
    ensures
        ok == is_name_byte(b),
{
    (0x61 <= b && b <= 0x7a) || (0x41 <= b && b <= 0x5a) || (0x30 <= b && b <= 0x39) || b == 0x2e
        || b == 0x5f || b == 0x2d
}

/// Checks a topic or channel name given as bytes.
pub fn name_bytes_ok(bytes: &[u8]) -> (ok: bool)
    ensures
        ok == valid_name(bytes@),
{
    let n = bytes.len();
    if n == 0 || n > MAX_NAME_LEN {
        return false;
    }
    let mut i: usize = 0;
    while i < n
        invariant
            i <= n,
            n == bytes@.len(),
            all_name_bytes(bytes@.take(i as int)),
        decreases n - i,
    {
        if !name_byte_ok(bytes[i]) {
            assert(!is_name_byte(bytes@[i as int]));
            return false;
        }
        proof {
            let seen = bytes@.take(i as int);
            let next = bytes@.take(i + 1);
            assert forall|k: int| 0 <= k < next.len() implies is_name_byte(#[trigger] next[k]) by {
                if k < i {
                    assert(next[k] == seen[k]);
                }
            }
        }
        i = i + 1;
    }
    proof {
        assert(bytes@.take(n as int) =~= bytes@);
    }
    true
}

/// Validates a topic or channel name.
///
/// The name is accepted exactly when it is 1 to 64 bytes long and holds only
/// ASCII letters, digits, dots, underscores and hyphens. Each way of failing
/// gives a validation error with its own text.
pub fn validate_topic_channel_name(name: &str) -> (res: Result<(), NsqError>)
    ensures
        res is Ok <==> valid_name(name.spec_bytes()),
        name.spec_bytes().len() == 0 ==> invalid_with(res, "Name cannot be empty"@),
        name.spec_bytes().len() > MAX_NAME_LEN ==> invalid_with(
            res,
            "Name too long (max 64 characters)"@,
        ),
        1 <= name.spec_bytes().len() <= MAX_NAME_LEN && !all_name_bytes(name.spec_bytes())
            ==> invalid_with(
            res,
            "Name contains invalid characters. Only letters, numbers, dots, underscores, and hyphens are allowed"@,
        ),
{
    let bytes = name.as_bytes();
    if bytes.len() == 0 {
        return Err(NsqError::Validation(String::from_str("Name cannot be empty")));
    }
    if bytes.len() > MAX_NAME_LEN {
        return Err(NsqError::Validation(String::from_str("Name too long (max 64 characters)")));
    }
    if !name_bytes_ok(bytes) {
        return Err(
            NsqError::Validation(
                String::from_str(
                    "Name contains invalid characters. Only letters, numbers, dots, underscores, and hyphens are allowed",
                ),
            ),
        );
    }
    Ok(())
}

/// The text of the error for a body of `len` bytes where `max` are allowed.
pub open spec fn too_large_text(len: nat, max: nat) -> Seq<char> {
    "Message too large: "@ + decimal_chars(len) + " bytes (max: "@ + decimal_chars(max)
        + " bytes)"@
}

/// The text of the error for a timeout of `timeout` milliseconds where `max`
/// are allowed.
pub open spec fn too_long_text(timeout: nat, max: nat) -> Seq<char> {
    "Timeout too large: "@ + decimal_chars(timeout) + "ms (max: "@ + decimal_chars(max) + "ms)"@
}

/// Validates the size of a message body against `max_size`.
///
/// A body of exactly `max_size` bytes is accepted; one byte more is not, and
/// the error tells both sizes.
pub fn validate_message_size(body: &[u8], max_size: usize) -> (res: Result<(), NsqError>)
    ensures
        res is Ok <==> body@.len() <= max_size,
        body@.len() > max_size ==> invalid_with(res, too_large_text(body@.len(), max_size as nat)),
{
    if body.len() > max_size {
        let mut text = String::from_str("Message too large: ");
        text.append(decimal_string(body.len() as u64).as_str());
        text.append(" bytes (max: ");
        text.append(decimal_string(max_size as u64).as_str());
        text.append(" bytes)");
        return Err(NsqError::Validation(text));
    }
    Ok(())
}

/// Validates a timeout, in milliseconds, against `max_timeout`; the error
/// tells both.
pub fn validate_timeout(timeout: u64, max_timeout: u64) -> (res: Result<(), NsqError>)
    ensures
        res is Ok <==> timeout <= max_timeout,
        timeout > max_timeout ==> invalid_with(
            res,
            too_long_text(timeout as nat, max_timeout as nat),
        ),
{
    if timeout > max_timeout {
        let mut text = String::from_str("Timeout too large: ");
        text.append(decimal_string(timeout).as_str());
        text.append("ms (max: ");
        text.append(decimal_string(max_timeout).as_str());
        text.append("ms)");
        return Err(NsqError::Validation(text));
    }
    Ok(())
}

/// The number of colons in `bytes`.
pub open spec fn colon_count(bytes: Seq<u8>) -> nat
    decreases bytes.len(),
{
    if bytes.len() == 0 {
        0
    } else {
        colon_count(bytes.drop_last()) + if bytes.last() == 0x3a {
            1nat
        } else {
            0nat
        }
    }
}

/// A well-formed listen address: either `host:port` with exactly one colon
/// and a port that is a decimal literal of at most 65535, or an absolute
/// socket path of at most 108 bytes that holds no colon.
pub open spec fn valid_address(bytes: Seq<u8>) -> bool {
    if colon_count(bytes) > 0 {
        &&& colon_count(bytes) == 1
        &&& parse_decimal_spec(bytes.subrange(index_of(bytes, 0x3a) + 1, bytes.len() as int), 65535)
            is Some
    } else {
        &&& bytes.len() > 0
        &&& bytes[0] == 0x2f
        &&& bytes.len() <= MAX_SOCKET_PATH_LEN
    }
}

/// The text of the error for the address `bytes`, if it is not well-formed.
pub open spec fn address_fault(bytes: Seq<u8>) -> Option<Seq<char>> {
    if bytes.len() == 0 {
        Some("Address cannot be empty"@)
    } else if colon_count(bytes) > 1 {
        Some("Invalid TCP address format"@)
    } else if colon_count(bytes) == 1 {
        if parse_decimal_spec(bytes.subrange(index_of(bytes, 0x3a) + 1, bytes.len() as int), 65535)
            is Some {
            None
        } else {
            Some("Invalid port number"@)
        }
    } else if bytes[0] != 0x2f {
        Some("Invalid address format"@)
    } else if bytes.len() > MAX_SOCKET_PATH_LEN {
        Some("Unix socket path too long"@)
    } else {
        None
    }
}

/// Validates a listen address.
///
/// An empty address, one with two or more colons, one whose port is no
/// decimal literal up to 65535, a relative path and a socket path longer than
/// 108 bytes are each rejected with a validation error of its own text.
pub fn validate_address(addr: &str) -> (res: Result<(), NsqError>)
    ensures
        res is Ok <==> valid_address(addr.spec_bytes()),
        match address_fault(addr.spec_bytes()) {
            Some(text) => invalid_with(res, text),
            None => res is Ok,
        },
{
    let bytes = addr.as_bytes();
    let n = bytes.len();
    if n == 0 {
        assert(colon_count(bytes@) == 0);
        return Err(NsqError::Validation(String::from_str("Address cannot be empty")));
    }
    let mut colons: usize = 0;
    let mut first: usize = n;
    let mut i: usize = 0;
    while i < n
        invariant
            i <= n,
            n == bytes@.len(),
            colons == colon_count(bytes@.take(i as int)),
            colons <= i,
            colons == 0 ==> first == n,
            colons > 0 ==> first < i && bytes@[first as int] == 0x3a,
            forall|k: int| 0 <= k < i && k < first ==> bytes@[k] != 0x3a,
        decreases n - i,
    {
        proof {
            assert(bytes@.take(i + 1).drop_last() =~= bytes@.take(i as int));
        }
        if bytes[i] == 0x3a {
            if colons == 0 {
                first = i;
            }
            colons = colons + 1;
        }
        i = i + 1;
    }
    proof {
        assert(bytes@.take(n as int) =~= bytes@);
        lemma_index_of_is(bytes@, 0x3a, first as int);
    }
    if colons > 0 {
        if colons != 1 {
            return Err(NsqError::Validation(String::from_str("Invalid TCP address format")));
        }
        let port = vstd::slice::slice_subrange(bytes, first + 1, n);
        match parse_decimal(port, 65535) {
            Some(_) => Ok(()),
            None => Err(NsqError::Validation(String::from_str("Invalid port number"))),
        }
    } else if bytes[0] == 0x2f {
        if n > MAX_SOCKET_PATH_LEN {
            return Err(NsqError::Validation(String::from_str("Unix socket path too long")));
        }
        Ok(())
    } else {
        Err(NsqError::Validation(String::from_str("Invalid address format")))
    }
}

} // verus!
