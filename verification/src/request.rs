//! What every request hands the handlers: credentials to check against the
//! configured pair and query parameters to read and validate.

use vstd::prelude::*;
use vstd::string::StringExecFns;
use crate::assoc::{assoc_get, assoc_index, lemma_assoc_get_at, lemma_assoc_get_none, str_eq};
use crate::error::{unauthorized, ApiError};
use crate::numtext::{spec_parse_usize, parse_usize};

verus! {

/// A basic-auth user name and password pair.
pub struct Credentials {
    pub username: String,
    pub password: String,
}

/// Whether the given credentials name the expected user and password.
pub open spec fn spec_auth_ok(expected: &Credentials, given: Option<&Credentials>) -> bool {
    match given {
        Some(c) => c.username@ == expected.username@ && c.password@ == expected.password@,
        None => false,
    }
}

/// Accepts a request exactly when its credentials match the configured pair.
pub fn check_auth(expected: &Credentials, given: Option<&Credentials>) -> (r: Result<
    (),
    ApiError,
>)
    ensures
        r is Ok <==> spec_auth_ok(expected, given),
        r is Err ==> r->Err_0.http_status == 401,
{
    match given {
        Some(c) => {
            if str_eq(c.username.as_str(), expected.username.as_str()) && str_eq(
                c.password.as_str(),
                expected.password.as_str(),
            ) {
                Ok(())
            } else {
                Err(unauthorized())
            }
        },
        None => Err(unauthorized()),
    }
}

/// Value of the first query pair carrying the key, if any.
pub fn find_query_param(query: &Vec<(String, String)>, key: &str) -> (r: Option<String>)
    ensures
        r == assoc_get(query@, key@),
{
    let idx = assoc_index(query, key);
    match idx {
        Some(i) => {
            proof {
                lemma_assoc_get_at(query@, key@, i as int);
            }
            Some(query[i].1.clone())
        },
        None => {
            proof {
                lemma_assoc_get_none(query@, key@);
            }
            None
        },
    }
}

/// Reads a numeric query parameter as the service does: an empty value and a
/// value `str::parse::<usize>` rejects are each a distinct bad request.
pub fn parse_number_param(value: &str) -> (r: Result<usize, ApiError>)
    ensures
        match r {
            Ok(v) => value@.len() > 0 && spec_parse_usize(value@) == Some(v),
            Err(e) => e.http_status == 400 && e.code@ == "400"@ && if value@.len() == 0 {
                e.summary@ == "number is empty"@
            } else {
                spec_parse_usize(value@) is None && e.summary@ == "not a number: '"@ + value@
                    + "'"@
            },
        },
{
    if value.unicode_len() == 0 {
        return Err(
            ApiError::new(400, String::from_str("400"), String::from_str("number is empty")),
        );
    }
    match parse_usize(value) {
        Some(v) => Ok(v),
        None => {
            let summary = String::from_str("not a number: '").concat(value).concat("'");
            Err(ApiError::new(400, String::from_str("400"), summary))
        },
    }
}

/// Reads a boolean query parameter: `"1"` is true, `"0"` is false, anything
/// else is a bad request.
pub fn parse_bool_param(value: &str) -> (r: Result<bool, ApiError>)
    ensures
        match r {
            Ok(b) => b == (value@ == "1"@) && (value@ == "1"@ || value@ == "0"@),
            Err(e) => value@ != "1"@ && value@ != "0"@ && e.http_status == 400 && e.code@
                == "400"@ && e.summary@ == "not a boolean"@,
        },
{
    if str_eq(value, "1") {
        Ok(true)
    } else if str_eq(value, "0") {
        proof {
            reveal_strlit("0");
            reveal_strlit("1");
        }
        Ok(false)
    } else {
        Err(ApiError::new(400, String::from_str("400"), String::from_str("not a boolean")))
    }
}

} // verus!
