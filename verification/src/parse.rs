//! Parsing of the user-facing argument forms: `package.Service/Method`
//! endpoints, `key:value` header pairs, and the schema-source selection.

use vstd::prelude::*;
use vstd::string::*;

use crate::text::{blank, is_blank, is_first_index, find_char, trim_spec, trim_str};

verus! {

/// The schema source picked on the command line: either a server to query
/// through reflection, or a local encoded descriptor-set file.
pub enum Source {
    Uri(String),
    File(String),
}

/// The mutually exclusive pair of schema-source arguments. Exactly one of the
/// two options is expected to be present.
pub struct SourceSelection {
    pub uri: Option<String>,
    pub file_descriptor_set: Option<String>,
}

impl SourceSelection {
    /// Resolves the selection into the one source that was given.
    /// The URI wins when both are present.
    pub fn value(self) -> (r: Source)
        requires
            self.uri is Some || self.file_descriptor_set is Some,
        ensures
            match r {
                Source::Uri(u) => self.uri == Some(u),
                Source::File(p) => self.uri is None && self.file_descriptor_set == Some(p),
            },
    {
        if let Some(uri) = self.uri {
            Source::Uri(uri)
        } else {
            match self.file_descriptor_set {
                Some(path) => Source::File(path),
                None => {
                    proof {
                        assert(false);
                    }
                    Source::File(String::new())
                },
            }
        }
    }
}

/// Splits `package.Service/Method` at the first `/` and rejects forms where
/// either side is blank.
pub fn parse_endpoint(value: &str) -> (r: Result<(String, String), String>)
    ensures
        match r {
            Ok(p) => exists|i: int|
                {
                    &&& is_first_index(value@, '/', i)
                    &&& p.0@ == value@.subrange(0, i)
                    &&& p.1@ == value@.subrange(i + 1, value@.len() as int)
                    &&& !blank(p.0@)
                    &&& !blank(p.1@)
                },
            Err(e) => {
                ||| (forall|j: int| 0 <= j < value@.len() ==> value@[j] != '/')
                ||| exists|i: int|
                    {
                        &&& is_first_index(value@, '/', i)
                        &&& (blank(value@.subrange(0, i)) || blank(
                            value@.subrange(i + 1, value@.len() as int),
                        ))
                    }
            },
        },
{
    let n: usize = value.unicode_len();
    match find_char(value, '/') {
        None => Err(String::from_str(
            "Invalid endpoint format. Expected 'package.Service/Method'",
        )),
        Some(i) => {
            let service = value.substring_char(0, i);
            let method = value.substring_char(i + 1, n);
            if is_blank(service) || is_blank(method) {
                Err(String::from_str("Service and Method names cannot be empty"))
            } else {
                Ok((String::from_str(service), String::from_str(method)))
            }
        },
    }
}

/// Splits `key:value` at the first `:` and trims both sides.
pub fn parse_header(s: &str) -> (r: Result<(String, String), String>)
    ensures
        match r {
            Ok(p) => exists|i: int|
                {
                    &&& is_first_index(s@, ':', i)
                    &&& p.0@ == trim_spec(s@.subrange(0, i))
                    &&& p.1@ == trim_spec(s@.subrange(i + 1, s@.len() as int))
                },
            Err(e) => forall|j: int| 0 <= j < s@.len() ==> s@[j] != ':',
        },
{
    let n: usize = s.unicode_len();
    match find_char(s, ':') {
        None => Err(String::from_str("Format must be 'key:value'")),
        Some(i) => {
            let key = trim_str(s.substring_char(0, i));
            let value = trim_str(s.substring_char(i + 1, n));
            Ok((key, value))
        },
    }
}

/// Splits `package.Service/Method` at the first `/`; `None` when there is no
/// separator.
pub fn parse_method_path(path: &str) -> (r: Option<(String, String)>)
    ensures
        match r {
            Some(p) => exists|i: int|
                {
                    &&& is_first_index(path@, '/', i)
                    &&& p.0@ == path@.subrange(0, i)
                    &&& p.1@ == path@.subrange(i + 1, path@.len() as int)
                },
            None => forall|j: int| 0 <= j < path@.len() ==> path@[j] != '/',
        },
{
    let n: usize = path.unicode_len();
    match find_char(path, '/') {
        None => None,
        Some(i) => {
            let service = String::from_str(path.substring_char(0, i));
            let method = String::from_str(path.substring_char(i + 1, n));
            Some((service, method))
        },
    }
}

} // verus!
