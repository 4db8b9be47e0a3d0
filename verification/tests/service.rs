use std::cell::Cell;
use std::rc::Rc;

use rust_lessons::pb::{CommandRequest, CommandResponse, Hget, KvError, Kvpair, RequestData, Value};
use rust_lessons::service::{dispatch, Hook, HookMut, SendHook, Service, ServiceInner};
use rust_lessons::storage::{MemTable, Storage};

/// Checks a successful response, ignoring the order of its pairs.
pub fn assert_res_ok(mut res: CommandResponse, values: &[Value], pairs: &[Kvpair]) {
    res.pairs.sort_by(|a, b| a.key.cmp(&b.key));
    assert_eq!(res.status, 200);
    assert_eq!(res.message, "");
    assert_eq!(res.values, values);
    assert_eq!(res.pairs, pairs);
}

/// Checks a failed response.
pub fn assert_res_error(res: CommandResponse, code: u32, msg: &str) {
    assert_eq!(res.status, code);
    assert!(res.message.contains(msg));
    assert_eq!(res.values, &[]);
    assert_eq!(res.pairs, &[]);
}

struct Quiet;
impl Hook<CommandRequest> for Quiet {
    fn call(&self, _: &CommandRequest) -> bool {
        false
    }
}

struct Stop;
impl Hook<CommandRequest> for Stop {
    fn call(&self, _: &CommandRequest) -> bool {
        true
    }
}

struct Seen;
impl Hook<CommandResponse> for Seen {
    fn call(&self, _: &CommandResponse) -> bool {
        false
    }
}

struct Created;
impl HookMut<CommandResponse> for Created {
    fn effect(&self, mut res: CommandResponse) -> (CommandResponse, bool) {
        let stop = self.call(&mut res);
        (res, stop)
    }

    fn call(&self, res: &mut CommandResponse) -> bool {
        res.status = http::StatusCode::CREATED.as_u16() as u32;
        false
    }
}

struct Sent;
impl SendHook for Sent {
    fn call(&self) -> bool {
        false
    }
}

/// Counts how often it runs, and answers `stop`.
struct Counter {
    runs: Rc<Cell<u32>>,
    stop: bool,
}
impl Hook<CommandRequest> for Counter {
    fn call(&self, _: &CommandRequest) -> bool {
        self.runs.set(self.runs.get() + 1);
        self.stop
    }
}

/// Sets the status and answers `stop`.
struct SetStatus {
    status: u32,
    stop: bool,
}
impl HookMut<CommandResponse> for SetStatus {
    fn effect(&self, mut res: CommandResponse) -> (CommandResponse, bool) {
        let stop = self.call(&mut res);
        (res, stop)
    }

    fn call(&self, res: &mut CommandResponse) -> bool {
        res.status = self.status;
        self.stop
    }
}

#[test]
fn service_should_works() {
    let mut service: Service = ServiceInner::new(MemTable::default()).into();
    let res = service.execute(CommandRequest::new_hset("t1", "k1", Value::from_text("v1")));
    assert_res_ok(res, &[Value::default()], &[]);
    let res = service.execute(CommandRequest::new_hget("t1", "k1"));
    assert_res_ok(res, &[Value::from_text("v1")], &[]);
}

#[test]
fn event_registration_should_work() {
    let service: Service = ServiceInner::new(MemTable::default())
        .fn_received(Box::new(Quiet))
        .fn_received(Box::new(Quiet))
        .fn_received(Box::new(Stop))
        .fn_received(Box::new(Quiet))
        .fn_executed(Box::new(Seen))
        .fn_before_send(Box::new(Created))
        .fn_after_send(Box::new(Sent))
        .into();
    let mut service = service;
    let res = service.execute(CommandRequest::new_hset("t1", "k1", Value::from_text("v1")));
    assert_eq!(res.status, http::StatusCode::CREATED.as_u16() as u32);
    assert_eq!(res.message, "");
    assert_eq!(res.values, vec![Value::default()]);
}

#[test]
fn received_handlers_stop_at_the_first_true() {
    let first = Rc::new(Cell::new(0));
    let second = Rc::new(Cell::new(0));
    let third = Rc::new(Cell::new(0));
    let mut service: Service = ServiceInner::new(MemTable::new())
        .fn_received(Box::new(Counter { runs: first.clone(), stop: false }))
        .fn_received(Box::new(Counter { runs: second.clone(), stop: true }))
        .fn_received(Box::new(Counter { runs: third.clone(), stop: false }))
        .into();
    service.execute(CommandRequest::new_hget("t", "k"));
    service.execute(CommandRequest::new_hget("t", "k"));
    assert_eq!(first.get(), 2);
    assert_eq!(second.get(), 2);
    assert_eq!(third.get(), 0);
}

#[test]
fn before_send_handlers_run_in_order_until_one_stops() {
    let mut service: Service = ServiceInner::new(MemTable::new())
        .fn_before_send(Box::new(SetStatus { status: 201, stop: false }))
        .fn_before_send(Box::new(SetStatus { status: 202, stop: true }))
        .fn_before_send(Box::new(SetStatus { status: 203, stop: false }))
        .into();
    let res = service.execute(CommandRequest::new_hget("t", "k"));
    assert_eq!(res.status, 202);
    assert_eq!(res.message, "Not found for table: t, key: k");
}

#[test]
fn read_gives_back_write_and_delete_removes() {
    let mut service: Service = ServiceInner::new(MemTable::new()).into();
    assert_res_ok(
        service.execute(CommandRequest::new_hset("t", "k", Value::from_integer(7))),
        &[Value::default()],
        &[],
    );
    assert_res_ok(
        service.execute(CommandRequest::new_hset("t", "k", Value::from_integer(8))),
        &[Value::from_integer(7)],
        &[],
    );
    assert_res_ok(service.execute(CommandRequest::new_hget("t", "k")), &[Value::from_integer(8)], &[]);
    assert_res_ok(service.execute(CommandRequest::new_hdel("t", "k")), &[Value::from_integer(8)], &[]);
    assert_res_error(service.execute(CommandRequest::new_hget("t", "k")), 404, "Not found for table: t, key: k");
    assert_res_ok(service.execute(CommandRequest::new_hdel("t", "k")), &[Value::default()], &[]);
}

#[test]
fn hgetall_lists_one_table() {
    let mut service: Service = ServiceInner::new(MemTable::new()).into();
    service.execute(CommandRequest::new_hset("t", "b", Value::from_text("2")));
    service.execute(CommandRequest::new_hset("t", "a", Value::from_text("1")));
    service.execute(CommandRequest::new_hset("u", "a", Value::from_text("9")));
    let res = service.execute(CommandRequest::new_hgetall("t"));
    assert_res_ok(
        res,
        &[],
        &[Kvpair::new("a", Value::from_text("1")), Kvpair::new("b", Value::from_text("2"))],
    );
    let res = service.execute(CommandRequest::new_hgetall("empty"));
    assert_res_ok(res, &[], &[]);
}

#[test]
fn request_without_data_is_a_bad_request() {
    let mut store = MemTable::new();
    let res = dispatch(CommandRequest { request_data: None }, &mut store);
    assert_res_error(res, 400, "Cannot parse command: `Request has no data`");
}

#[test]
fn unsupported_command_is_an_internal_error() {
    let mut store = MemTable::new();
    let cmd = CommandRequest {
        request_data: Some(RequestData::Hexist(rust_lessons::pb::Hexist {
            table: "t".to_string(),
            key: "k".to_string(),
        })),
    };
    let res = dispatch(cmd, &mut store);
    assert_res_error(res, 500, "Internal error: Not implemented");
}

#[test]
fn hset_without_pair_answers_default() {
    let mut store = MemTable::new();
    let cmd = CommandRequest {
        request_data: Some(RequestData::Hset(rust_lessons::pb::Hset { table: "t".to_string(), pair: None })),
    };
    assert_res_ok(dispatch(cmd, &mut store), &[Value::default()], &[]);
    assert_eq!(store.contains("t", "").unwrap(), false);
}

#[test]
fn memtable_keeps_tables_apart() {
    let mut store = MemTable::new();
    assert_eq!(store.set("a", "k".to_string(), Value::from_integer(1)).unwrap(), None);
    assert_eq!(store.set("b", "k".to_string(), Value::from_integer(2)).unwrap(), None);
    assert_eq!(store.get("a", "k").unwrap(), Some(Value::from_integer(1)));
    assert_eq!(store.get("b", "k").unwrap(), Some(Value::from_integer(2)));
    assert!(store.contains("a", "k").unwrap());
    assert!(!store.contains("a", "x").unwrap());
    assert_eq!(store.del("a", "k").unwrap(), Some(Value::from_integer(1)));
    assert_eq!(store.get("a", "k").unwrap(), None);
    assert_eq!(store.get("b", "k").unwrap(), Some(Value::from_integer(2)));
}

#[test]
fn hget_responds_to_storage_errors() {
    let get = Hget { table: "t".to_string(), key: "k".to_string() };
    let res = get.respond(Err(KvError::StorageError("disk".to_string())));
    assert_res_error(res, 500, "Storage error: disk");
}

#[test]
fn error_messages_and_statuses() {
    let res = CommandResponse::from_error(KvError::NotFound("t".to_string(), "k".to_string()));
    assert_res_error(res, 404, "Not found for table: t, key: k");
    let res = CommandResponse::from_error(KvError::InvalidCommand("x".to_string()));
    assert_res_error(res, 400, "Cannot parse command: `x`");
    let res = CommandResponse::from_error(KvError::Internal("y".to_string()));
    assert_res_error(res, 500, "Internal error: y");
}
