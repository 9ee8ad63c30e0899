//! Validation of gRPC metadata (headers) before any network activity.
//!
//! A key must match the HTTP header-name token grammar (letters are accepted
//! in either case; the wire normalizes to lowercase). A key whose lowercase
//! form ends in `-bin` names binary metadata and accepts any value; any other
//! value must be visible ASCII text (spaces and tabs included).

use vstd::prelude::*;
use vstd::string::*;

verus! {

/// One header as the caller supplies it.
#[derive(Debug, Clone, PartialEq)]
pub struct HeaderPair {
    pub key: String,
    pub value: String,
}

/// The characters the header-name token grammar accepts.
pub open spec fn is_token_char(c: char) -> bool {
    ||| ('a' <= c && c <= 'z')
    ||| ('A' <= c && c <= 'Z')
    ||| ('0' <= c && c <= '9')
    ||| c == '!'
    ||| c == '#'
    ||| c == '$'
    ||| c == '%'
    ||| c == '&'
    ||| c == '\''
    ||| c == '*'
    ||| c == '+'
    ||| c == '-'
    ||| c == '.'
    ||| c == '^'
    ||| c == '_'
    ||| c == '`'
    ||| c == '|'
    ||| c == '~'
}

/// A non-empty key made of token characters.
pub open spec fn valid_key(k: Seq<char>) -> bool {
    k.len() > 0 && forall|i: int| 0 <= i < k.len() ==> is_token_char(k[i])
}

/// Whether the key names binary metadata: its lowercase form ends in `-bin`.
pub open spec fn is_bin_key(k: Seq<char>) -> bool {
    &&& k.len() >= 4
    &&& k[k.len() - 4] == '-'
    &&& (k[k.len() - 3] == 'b' || k[k.len() - 3] == 'B')
    &&& (k[k.len() - 2] == 'i' || k[k.len() - 2] == 'I')
    &&& (k[k.len() - 1] == 'n' || k[k.len() - 1] == 'N')
}

/// A character an ASCII metadata value may hold: visible ASCII, space, or tab.
/// Characters above ASCII are carried as multi-byte UTF-8, which the wire
/// accepts byte for byte.
pub open spec fn is_value_char(c: char) -> bool {
    (' ' <= c && c != '\u{7f}') || c == '\t'
}

pub open spec fn valid_ascii_value(v: Seq<char>) -> bool {
    forall|i: int| 0 <= i < v.len() ==> is_value_char(v[i])
}

/// A header passes validation: the key is a token, and the value is text
/// unless the key names binary metadata.
pub open spec fn header_ok(k: Seq<char>, v: Seq<char>) -> bool {
    valid_key(k) && (is_bin_key(k) || valid_ascii_value(v))
}

/// Why a header list was rejected.
#[derive(Debug, Clone, PartialEq)]
pub enum MetadataError {
    InvalidMetadataKey { key: String },
    InvalidMetadataValue { key: String },
}

/// Whether `k` is a valid metadata key.
pub fn check_key(k: &str) -> (r: bool)
    ensures
        r == valid_key(k@),
{
    let n: usize = k.unicode_len();
    if n == 0 {
        return false;
    }
    let mut i: usize = 0;
    while i < n
        invariant
            0 <= i <= n,
            n == k@.len(),
            forall|j: int| 0 <= j < i ==> is_token_char(k@[j]),
        decreases n - i,
    {
        let c = k.get_char(i);
        let ok = (c >= 'a' && c <= 'z') || (c >= 'A' && c <= 'Z') || (c >= '0' && c <= '9') || c
            == '!' || c == '#' || c == '$' || c == '%' || c == '&' || c == '\'' || c == '*' || c
            == '+' || c == '-' || c == '.' || c == '^' || c == '_' || c == '`' || c == '|' || c
            == '~';
        if !ok {
            assert(!is_token_char(k@[i as int]));
            return false;
        }
        i += 1;
    }
    true
}

/// Whether `k` names binary metadata.
pub fn check_bin_key(k: &str) -> (r: bool)
    ensures
        r == is_bin_key(k@),
{
    let n: usize = k.unicode_len();
    if n < 4 {
        return false;
    }
    let c0 = k.get_char(n - 4);
    let c1 = k.get_char(n - 3);
    let c2 = k.get_char(n - 2);
    let c3 = k.get_char(n - 1);
    c0 == '-' && (c1 == 'b' || c1 == 'B') && (c2 == 'i' || c2 == 'I') && (c3 == 'n' || c3 == 'N')
}

/// Whether `v` is acceptable as an ASCII metadata value.
pub fn check_ascii_value(v: &str) -> (r: bool)
    ensures
        r == valid_ascii_value(v@),
{
    let n: usize = v.unicode_len();
    let mut i: usize = 0;
    while i < n
        invariant
            0 <= i <= n,
            n == v@.len(),
            forall|j: int| 0 <= j < i ==> is_value_char(v@[j]),
        decreases n - i,
    {
        let c = v.get_char(i);
        if !((c >= ' ' && c != '\u{7f}') || c == '\t') {
            assert(!is_value_char(v@[i as int]));
            return false;
        }
        i += 1;
    }
    true
}

/// `i` is the position of the first header that fails validation.
pub open spec fn first_bad_header(headers: Seq<(String, String)>, i: int) -> bool {
    &&& 0 <= i < headers.len()
    &&& !header_ok(headers[i].0@, headers[i].1@)
    &&& forall|j: int| 0 <= j < i ==> header_ok((#[trigger] headers[j]).0@, headers[j].1@)
}

/// Validates a header list. `Ok` exactly when every pair passes; otherwise the
/// error names the first offending key.
pub fn validate_headers(headers: &Vec<(String, String)>) -> (r: Result<(), MetadataError>)
    ensures
        match r {
            Ok(_) => forall|i: int|
                0 <= i < headers@.len() ==> header_ok(
                    (#[trigger] headers@[i]).0@,
                    headers@[i].1@,
                ),
            Err(e) => match e {
                MetadataError::InvalidMetadataKey { key } => exists|i: int|
                    #[trigger] first_bad_header(headers@, i) && headers@[i].0@ == key@
                        && !valid_key(key@),
                MetadataError::InvalidMetadataValue { key } => exists|i: int|
                    #[trigger] first_bad_header(headers@, i) && headers@[i].0@ == key@
                        && valid_key(key@) && !is_bin_key(key@) && !valid_ascii_value(
                        headers@[i].1@,
                    ),
            },
        },
{
    let n: usize = headers.len();
    let mut i: usize = 0;
    while i < n
        invariant
            0 <= i <= n,
            n == headers@.len(),
            forall|j: int| 0 <= j < i ==> header_ok((#[trigger] headers@[j]).0@, headers@[j].1@),
        decreases n - i,
    {
        if !check_key(headers[i].0.as_str()) {
            proof {
                assert(first_bad_header(headers@, i as int));
            }
            return Err(MetadataError::InvalidMetadataKey { key: headers[i].0.clone() });
        }
        if !check_bin_key(headers[i].0.as_str()) {
            if !check_ascii_value(headers[i].1.as_str()) {
                proof {
                    assert(first_bad_header(headers@, i as int));
                }
                return Err(MetadataError::InvalidMetadataValue { key: headers[i].0.clone() });
            }
        }
        i += 1;
    }
    Ok(())
}

} // verus!
