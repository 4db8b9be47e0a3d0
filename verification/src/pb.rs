//! Messages exchanged with the key-value service: values, pairs, commands,
//! responses and errors, with their mathematical models.
use vstd::prelude::*;

verus! {

/// The payload a key holds.
#[derive(Debug, PartialEq, Eq)]
pub enum ValueData {
    String(String),
    Integer(i64),
    Bool(bool),
}

/// A stored value; `value: None` is the default (empty) value.
#[derive(Debug, PartialEq, Eq)]
pub struct Value {
    pub value: Option<ValueData>,
}

/// A key together with its value, as returned by `hgetall`.
#[derive(Debug, PartialEq, Eq)]
pub struct Kvpair {
    pub key: String,
    pub value: Option<Value>,
}

impl Value {
    /// A value holding the given text.
    pub fn from_text(s: &str) -> (r: Value)
        ensures
            r.value matches Some(ValueData::String(t)) && t@ == s@,
    {
        Value { value: Some(ValueData::String(s.to_owned())) }
    }

    /// A value holding the given integer.
    pub fn from_integer(i: i64) -> (r: Value)
        ensures
            r.value == Some(ValueData::Integer(i)),
    {
        Value { value: Some(ValueData::Integer(i)) }
    }

    /// A copy of this value, equal to it.
    pub fn duplicate(&self) -> (r: Value)
        ensures
            r == *self,
    {
        match &self.value {
            None => Value { value: None },
            Some(ValueData::String(s)) => Value { value: Some(ValueData::String(s.clone())) },
            Some(ValueData::Integer(i)) => Value { value: Some(ValueData::Integer(*i)) },
            Some(ValueData::Bool(b)) => Value { value: Some(ValueData::Bool(*b)) },
        }
    }
}

impl Default for Value {
    fn default() -> (r: Value)
        ensures
            r.value is None,
    {
        Value { value: None }
    }
}

impl Kvpair {
    /// A pair of the given key and value.
    pub fn new(key: &str, value: Value) -> (r: Kvpair)
        ensures
            r.key@ == key@,
            r.value == Some(value),
    {
        Kvpair { key: key.to_owned(), value: Some(value) }
    }
}

/// Read the value of `key` in `table`.
#[derive(Debug)]
pub struct Hget {
    pub table: String,
    pub key: String,
}

/// Read every pair of `table`.
#[derive(Debug)]
pub struct Hgetall {
    pub table: String,
}

/// Read several keys of `table`.
#[derive(Debug)]
pub struct Hmget {
    pub table: String,
    pub keys: Vec<String>,
}

/// Write `pair` into `table`.
#[derive(Debug)]
pub struct Hset {
    pub table: String,
    pub pair: Option<Kvpair>,
}

/// Write several pairs into `table`.
#[derive(Debug)]
pub struct Hmset {
    pub table: String,
    pub pairs: Vec<Kvpair>,
}

/// Delete `key` from `table`.
#[derive(Debug)]
pub struct Hdel {
    pub table: String,
    pub key: String,
}

/// Delete several keys from `table`.
#[derive(Debug)]
pub struct Hmdel {
    pub table: String,
    pub keys: Vec<String>,
}

/// Ask whether `key` is in `table`.
#[derive(Debug)]
pub struct Hexist {
    pub table: String,
    pub key: String,
}

/// Ask whether several keys are in `table`.
#[derive(Debug)]
pub struct Hmexist {
    pub table: String,
    pub keys: Vec<String>,
}

/// The command a request carries.
#[derive(Debug)]
pub enum RequestData {
    Hget(Hget),
    Hgetall(Hgetall),
    Hmget(Hmget),
    Hset(Hset),
    Hmset(Hmset),
    Hdel(Hdel),
    Hmdel(Hmdel),
    Hexist(Hexist),
    Hmexist(Hmexist),
}

/// A request to the service; it may carry no command at all.
#[derive(Debug)]
pub struct CommandRequest {
    pub request_data: Option<RequestData>,
}

impl CommandRequest {
    /// A request that reads `key` of `table`.
    pub fn new_hget(table: &str, key: &str) -> (r: CommandRequest)
        ensures
            r.request_data matches Some(RequestData::Hget(p)) && p.table@ == table@ && p.key@
                == key@,
    {
        CommandRequest {
            request_data: Some(RequestData::Hget(Hget { table: table.to_owned(), key: key.to_owned() })),
        }
    }

    /// A request that reads all of `table`.
    pub fn new_hgetall(table: &str) -> (r: CommandRequest)
        ensures
            r.request_data matches Some(RequestData::Hgetall(p)) && p.table@ == table@,
    {
        CommandRequest { request_data: Some(RequestData::Hgetall(Hgetall { table: table.to_owned() })) }
    }

    /// A request that writes `value` under `key` of `table`.
    pub fn new_hset(table: &str, key: &str, value: Value) -> (r: CommandRequest)
        ensures
            r.request_data matches Some(RequestData::Hset(p)) && p.table@ == table@ && (p.pair
                matches Some(kv) && kv.key@ == key@ && kv.value == Some(value)),
    {
        CommandRequest {
            request_data: Some(
                RequestData::Hset(Hset { table: table.to_owned(), pair: Some(Kvpair::new(key, value)) }),
            ),
        }
    }

    /// A request that deletes `key` of `table`.
    pub fn new_hdel(table: &str, key: &str) -> (r: CommandRequest)
        ensures
            r.request_data matches Some(RequestData::Hdel(p)) && p.table@ == table@ && p.key@
                == key@,
    {
        CommandRequest {
            request_data: Some(RequestData::Hdel(Hdel { table: table.to_owned(), key: key.to_owned() })),
        }
    }
}

/// Errors of the key-value service.
#[derive(Debug, PartialEq, Eq)]
pub enum KvError {
    /// No value under the key (table, key).
    NotFound(String, String),
    /// The request could not be understood.
    InvalidCommand(String),
    /// The store could not carry out an operation.
    StorageError(String),
    /// Anything else, such as a command that is not supported.
    Internal(String),
}

/// HTTP-style status codes the service answers with.
pub const STATUS_OK: u32 = 200;

pub const STATUS_BAD_REQUEST: u32 = 400;

pub const STATUS_NOT_FOUND: u32 = 404;

pub const STATUS_INTERNAL_SERVER_ERROR: u32 = 500;

/// The text of an error, as a response carries it.
pub open spec fn error_message(e: KvError) -> Seq<char> {
    match e {
        KvError::NotFound(t, k) => "Not found for table: "@ + t@ + ", key: "@ + k@,
        KvError::InvalidCommand(c) => "Cannot parse command: `"@ + c@ + "`"@,
        KvError::StorageError(m) => "Storage error: "@ + m@,
        KvError::Internal(m) => "Internal error: "@ + m@,
    }
}

/// The status code an error is answered with.
pub open spec fn error_status(e: KvError) -> u32 {
    match e {
        KvError::NotFound(..) => STATUS_NOT_FOUND,
        KvError::InvalidCommand(..) => STATUS_BAD_REQUEST,
        _ => STATUS_INTERNAL_SERVER_ERROR,
    }
}

impl KvError {
    /// The text of this error.
    pub fn message(&self) -> (r: String)
        ensures
            r@ == error_message(*self),
    {
        match self {
            KvError::NotFound(t, k) => {
                let mut s = String::from_str("Not found for table: ");
                s.append(t.as_str());
                s.append(", key: ");
                s.append(k.as_str());
                s
            },
            KvError::InvalidCommand(c) => {
                let mut s = String::from_str("Cannot parse command: `");
                s.append(c.as_str());
                s.append("`");
                s
            },
            KvError::StorageError(m) => {
                let mut s = String::from_str("Storage error: ");
                s.append(m.as_str());
                s
            },
            KvError::Internal(m) => {
                let mut s = String::from_str("Internal error: ");
                s.append(m.as_str());
                s
            },
        }
    }
}

/// The answer of the service to a request.
#[derive(Debug)]
pub struct CommandResponse {
    pub status: u32,
    pub message: String,
    pub values: Vec<Value>,
    pub pairs: Vec<Kvpair>,
}

/// The mathematical model of a response.
pub struct Reply {
    pub status: u32,
    pub message: Seq<char>,
    pub values: Seq<Value>,
    pub pairs: Seq<Kvpair>,
}

impl View for CommandResponse {
    type V = Reply;

    open spec fn view(&self) -> Reply {
        Reply { status: self.status, message: self.message@, values: self.values@, pairs: self.pairs@ }
    }
}

/// A successful reply that carries one value.
pub open spec fn value_reply(v: Value) -> Reply {
    Reply { status: STATUS_OK, message: Seq::empty(), values: seq![v], pairs: Seq::empty() }
}

/// A successful reply that carries a list of pairs.
pub open spec fn pairs_reply(pairs: Seq<Kvpair>) -> Reply {
    Reply { status: STATUS_OK, message: Seq::empty(), values: Seq::empty(), pairs }
}

/// A reply that carries only a status and a message.
pub open spec fn message_reply(status: u32, message: Seq<char>) -> Reply {
    Reply { status, message, values: Seq::empty(), pairs: Seq::empty() }
}

/// The reply that reports an error.
pub open spec fn error_reply(e: KvError) -> Reply {
    message_reply(error_status(e), error_message(e))
}

/// The default value, as a model.
pub open spec fn empty_value() -> Value {
    Value { value: None }
}

impl CommandResponse {
    /// A successful response carrying `v`.
    pub fn from_value(v: Value) -> (r: CommandResponse)
        ensures
            r@ == value_reply(v),
    {
        let mut values: Vec<Value> = Vec::new();
        values.push(v);
        CommandResponse { status: STATUS_OK, message: String::new(), values, pairs: Vec::new() }
    }

    /// A successful response carrying `pairs`.
    pub fn from_pairs(pairs: Vec<Kvpair>) -> (r: CommandResponse)
        ensures
            r@ == pairs_reply(pairs@),
    {
        CommandResponse { status: STATUS_OK, message: String::new(), values: Vec::new(), pairs }
    }

    /// The response that reports `e`.
    pub fn from_error(e: KvError) -> (r: CommandResponse)
        ensures
            r@ == error_reply(e),
    {
        let message = e.message();
        let status: u32 = match e {
            KvError::NotFound(..) => STATUS_NOT_FOUND,
            KvError::InvalidCommand(..) => STATUS_BAD_REQUEST,
            _ => STATUS_INTERNAL_SERVER_ERROR,
        };
        CommandResponse { status, message, values: Vec::new(), pairs: Vec::new() }
    }
}

impl Default for CommandResponse {
    fn default() -> (r: CommandResponse)
        ensures
            r@ == (Reply { status: 0, message: Seq::empty(), values: Seq::empty(), pairs: Seq::empty() }),
    {
        CommandResponse { status: 0, message: String::new(), values: Vec::new(), pairs: Vec::new() }
    }
}

} // verus!
