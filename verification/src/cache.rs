//! The key-value cache client's decision logic. The network work — one
//! connection per call against the cache server — stays with the
//! embedding application; this module models the protocol values the
//! server answers with (`CacheValue`) and decides, verified, how each
//! answer is read back as a typed result, exactly as the get, get-delete
//! and publish calls need.

use vstd::prelude::*;
use vstd::utf8::{decode_utf8, valid_utf8};
use crate::utils::int_dec_str;

verus! {

/// The cache client's handle type, declared so it can be held in a
/// field; nothing about its inside is assumed.
#[verifier::external_type_specification]
#[verifier::external_body]
pub struct ExRedisClient(redis::Client);

/// The cache client's error type, declared so it can cross this
/// module's signatures; nothing about its inside is assumed.
#[verifier::external_type_specification]
#[verifier::external_body]
pub struct ExRedisError(redis::RedisError);

/// Whether a connection string parses as a cache-server URL: a pure
/// function of the string.
pub uninterp spec fn redis_url_ok(addr: Seq<char>) -> bool;

/// Relies on redis::Client::open: it only parses the connection string
/// (no network work), succeeding exactly on well-formed URLs.
#[verifier::external_body]
fn open_client(addr: String) -> (r: Result<redis::Client, redis::RedisError>)
    ensures
        r is Ok <==> redis_url_ok(addr@),
{
    redis::Client::open(addr)
}

/// Relies on String::from_utf8: it succeeds exactly on valid UTF-8 and
/// decodes those bytes.
#[verifier::external_body]
fn utf8_to_string(v: Vec<u8>) -> (r: Option<String>)
    ensures
        r is Some <==> valid_utf8(v@),
        r matches Some(s) ==> s@ == decode_utf8(v@),
{
    String::from_utf8(v).ok()
}

/// Relies on the derived Clone of redis::Client: a second handle on the
/// same connection information.
pub assume_specification[ <redis::Client as Clone>::clone ](c: &redis::Client) -> (r:
    redis::Client);

/// A handle on one cache server.
#[derive(Clone)]
pub struct RedisCache {
    pub inner: redis::Client,
}

impl RedisCache {
    /// Open a handle from a connection URL: a handle exactly when the
    /// URL is well formed (no connection is made yet).
    pub fn new(address: String) -> (r: Option<RedisCache>)
        ensures
            r is Some <==> redis_url_ok(address@),
    {
        match open_client(address) {
            Ok(client) => Some(RedisCache { inner: client }),
            Err(_) => None,
        }
    }
}

/// A protocol value answered by the cache server, modeled as plain
/// values: nothing, an integer, binary data, a nested aggregate, a
/// status line, or a bare acknowledgement.
#[derive(Debug, PartialEq, Eq)]
pub enum CacheValue {
    Nil,
    Int(i64),
    Data(Vec<u8>),
    Bulk,
    Status(String),
    Okay,
}

/// What a flow-control callback answers: stop with a value, or go on.
pub enum ControlFlow<V> {
    Break(V),
    Continue,
}

/// Read a value fetched by a get or get-delete call back as an optional
/// string: nothing for nil and for status/acknowledgement answers, the
/// decimal rendering of an integer, the UTF-8 decoding of binary data
/// (an error on invalid UTF-8), and an error on nested aggregates.
pub fn decode_value(v: &CacheValue) -> (r: Result<Option<String>, String>)
    ensures
        match v {
            CacheValue::Nil => r matches Ok(o) && o is None,
            CacheValue::Int(i) => r matches Ok(o) && (o matches Some(s) && s@ == int_dec_str(
                *i as int,
            )),
            CacheValue::Data(bytes) => {
                if valid_utf8(bytes@) {
                    r matches Ok(o) && (o matches Some(s) && s@ == decode_utf8(bytes@))
                } else {
                    r matches Err(e) && e@ == "invalid utf-8"@
                }
            },
            CacheValue::Bulk => r matches Err(e) && e@ == "result is bulk"@,
            CacheValue::Status(_) => r matches Ok(o) && o is None,
            CacheValue::Okay => r matches Ok(o) && o is None,
        },
{
    match v {
        CacheValue::Nil => Ok(None),
        CacheValue::Int(i) => Ok(Some(crate::utils::i64_to_dec(*i))),
        CacheValue::Data(bytes) => {
            match utf8_to_string(bytes.clone()) {
                Some(s) => Ok(Some(s)),
                None => Err("invalid utf-8".to_owned()),
            }
        },
        CacheValue::Bulk => Err("result is bulk".to_owned()),
        CacheValue::Status(_) => Ok(None),
        CacheValue::Okay => Ok(None),
    }
}

/// Read the server's answer to a publish call: delivered on an integer
/// or on decodable data, an error on everything else (a status line is
/// its own error message).
pub fn publish_outcome(v: &CacheValue) -> (r: Result<(), String>)
    ensures
        match v {
            CacheValue::Nil => r matches Err(e) && e@ == "Something went wrong"@,
            CacheValue::Int(_) => r is Ok,
            CacheValue::Data(bytes) => {
                if valid_utf8(bytes@) {
                    r is Ok
                } else {
                    r matches Err(e) && e@ == "invalid utf-8"@
                }
            },
            CacheValue::Bulk => r matches Err(e) && e@ == "result is bulk"@,
            CacheValue::Status(s) => r matches Err(e) && e@ == s@,
            CacheValue::Okay => r matches Err(e) && e@ == "Something went wrong"@,
        },
{
    match v {
        CacheValue::Nil => Err("Something went wrong".to_owned()),
        CacheValue::Int(_) => Ok(()),
        CacheValue::Data(bytes) => {
            match utf8_to_string(bytes.clone()) {
                Some(_) => Ok(()),
                None => Err("invalid utf-8".to_owned()),
            }
        },
        CacheValue::Bulk => Err("result is bulk".to_owned()),
        CacheValue::Status(s) => Err(s.clone()),
        CacheValue::Okay => Err("Something went wrong".to_owned()),
    }
}

/// The error text of a failed store call: the server's detail line when
/// it sent one, else its error code, else nothing.
pub fn error_text(detail: Option<String>, code: Option<String>) -> (r: Option<String>)
    ensures
        r == (match detail {
            Some(d) => Some(d),
            None => code,
        }),
{
    match detail {
        Some(d) => Some(d),
        None => code,
    }
}

} // verus!
