//! Validation of database names.
//!
//! A valid name is non-empty ASCII, starts with a letter or a number, and
//! goes on with letters, numbers, underscores or hyphens. Where a retention
//! policy suffix is accepted, one slash may separate the database name from
//! the policy name; a trailing slash is refused.

use vstd::prelude::*;

verus! {

/// Why a database name was refused.
#[derive(Debug, Clone, Copy, PartialEq, Eq, Structural)]
pub enum ValidateDbNameError {
    /// A character that is not a letter, number, underscore or hyphen.
    InvalidChar,
    /// The name does not start with a letter or a number.
    InvalidStartChar,
    /// More than one slash, or a trailing one.
    InvalidRetentionPolicy,
    /// The name is empty.
    Empty,
}

/// A letter or a number.
pub open spec fn spec_is_alnum(c: char) -> bool {
    ||| 'a' <= c && c <= 'z'
    ||| 'A' <= c && c <= 'Z'
    ||| '0' <= c && c <= '9'
}

/// A character allowed after the first: a letter, number, underscore or
/// hyphen.
pub open spec fn spec_is_name_char(c: char) -> bool {
    spec_is_alnum(c) || c == '_' || c == '-'
}

/// A valid database name: non-empty, starting alphanumeric, every later
/// character a name character — with one inner slash allowed where a
/// retention policy suffix is accepted.
pub open spec fn spec_valid_db_name(name: Seq<char>, accept_rp: bool) -> bool {
    &&& name.len() > 0
    &&& spec_is_alnum(name[0])
    &&& forall|i: int|
        1 <= i < name.len() ==> (spec_is_name_char(#[trigger] name[i])
            || (accept_rp && name[i] == '/'))
    &&& forall|i: int, j: int|
        1 <= i < j < name.len() ==> !(#[trigger] name[i] == '/' && #[trigger] name[j] == '/')
    &&& name.last() != '/'
}

fn is_alnum(c: char) -> (r: bool)
    ensures
        r == spec_is_alnum(c),
{
    ('a' <= c && c <= 'z') || ('A' <= c && c <= 'Z') || ('0' <= c && c <= '9')
}

fn is_name_char(c: char) -> (r: bool)
    ensures
        r == spec_is_name_char(c),
{
    is_alnum(c) || c == '_' || c == '-'
}

/// Validates a database name, accepting a single `/` separating the name
/// from a retention policy name where `accept_rp` holds. Succeeds exactly
/// on valid names; an empty name and a bad first character are told apart
/// from the other refusals.
pub fn validate_db_name(name: &str, accept_rp: bool) -> (r: Result<(), ValidateDbNameError>)
    ensures
        (r matches Ok(())) <==> spec_valid_db_name(name@, accept_rp),
        (r matches Err(e) && e is Empty) <==> name@.len() == 0,
        (r matches Err(e) && e is InvalidStartChar)
            <==> (name@.len() > 0 && !spec_is_alnum(name@[0])),
{
    let len = name.unicode_len();
    if len == 0 {
        return Err(ValidateDbNameError::Empty);
    }
    if !is_alnum(name.get_char(0)) {
        return Err(ValidateDbNameError::InvalidStartChar);
    }
    let mut rp_separator_found = false;
    let mut i: usize = 1;
    while i < len
        invariant
            len == name@.len(),
            len > 0,
            spec_is_alnum(name@[0]),
            1 <= i <= len,
            forall|k: int|
                1 <= k < i ==> (spec_is_name_char(#[trigger] name@[k])
                    || (accept_rp && name@[k] == '/')),
            rp_separator_found == exists|k: int| 1 <= k < i && #[trigger] name@[k] == '/',
            forall|k1: int, k2: int|
                1 <= k1 < k2 < i ==> !(#[trigger] name@[k1] == '/'
                    && #[trigger] name@[k2] == '/'),
        decreases len - i,
    {
        let c = name.get_char(i);
        if c == '/' {
            if !accept_rp {
                return Err(ValidateDbNameError::InvalidChar);
            }
            if rp_separator_found {
                return Err(ValidateDbNameError::InvalidRetentionPolicy);
            }
            rp_separator_found = true;
        } else {
            if !is_name_char(c) {
                return Err(ValidateDbNameError::InvalidChar);
            }
        }
        i += 1;
    }
    if name.get_char(len - 1) == '/' {
        return Err(ValidateDbNameError::InvalidRetentionPolicy);
    }
    Ok(())
}

} // verus!
