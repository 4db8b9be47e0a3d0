//! The key-value service: it routes each request to its command, and runs
//! handlers registered for the events of a request's life.
use vstd::prelude::*;
use crate::command_service::{CommandService, stored_value};
use crate::pb::{
    CommandRequest, CommandResponse, Hget, Hgetall, Hdel, Hset, KvError, Reply, RequestData, Value,
    STATUS_OK, STATUS_BAD_REQUEST, STATUS_INTERNAL_SERVER_ERROR, empty_value, error_reply, message_reply,
    value_reply,
};
use crate::storage::{MemTable, Slot, Storage, lists_table};
use vstd::std_specs::convert::FromSpecImpl;

verus! {

/// A handler that observes an event; answering `true` stops the handlers
/// registered after it.
pub trait Hook<Arg> {
    /// Whether this handler declares its answers: then `call` answers as
    /// `answer` says. A handler that does not declare them promises nothing.
    open spec fn obeys_answer(&self) -> bool {
        false
    }

    /// The answer of this handler to `arg`, where it declares its answers.
    open spec fn answer(&self, arg: Arg) -> bool {
        false
    }

    fn call(&self, arg: &Arg) -> (stop: bool)
        ensures
            self.obeys_answer() ==> stop == self.answer(*arg),
    ;
}

/// A handler that may change the event it is given; answering `true` stops
/// the handlers registered after it.
pub trait HookMut<Arg> {
    /// The event after this handler ran, and whether it stops the rest.
    spec fn effect(&self, arg: Arg) -> (Arg, bool);

    fn call(&self, arg: &mut Arg) -> (stop: bool)
        ensures
            (*final(arg), stop) == self.effect(*old(arg)),
    ;
}

/// A handler run once a response has been sent.
pub trait SendHook {
    fn call(&self) -> bool;
}

/// Hands an event to a list of handlers, in order, until one answers `true`;
/// answers the position of that handler, if one did.
pub trait Notify<Arg> {
    fn notify(&self, arg: &Arg) -> Option<usize>;
}

/// Hands a changeable event to a list of handlers, in order, until one
/// answers `true`.
pub trait NotifyMut<Arg> {
    /// The event after the handlers ran.
    spec fn notified(&self, arg: Arg) -> Arg;

    fn notify(&self, arg: &mut Arg)
        ensures
            *final(arg) == self.notified(*old(arg)),
    ;
}

/// The event after the handlers `hooks[start..end]` ran on `arg`, each in
/// turn, up to and including the first that answers `true`.
pub open spec fn run_hooks_between<Arg>(
    hooks: Seq<Box<dyn HookMut<Arg>>>,
    start: int,
    end: int,
    arg: Arg,
) -> Arg
    decreases end - start,
{
    if start >= end {
        arg
    } else {
        let (next, stop) = hooks[start].effect(arg);
        if stop {
            next
        } else {
            run_hooks_between(hooks, start + 1, end, next)
        }
    }
}

/// Whether one of the handlers `hooks[start..end]` answers `true` when they
/// run on `arg`.
pub open spec fn hooks_stop_between<Arg>(
    hooks: Seq<Box<dyn HookMut<Arg>>>,
    start: int,
    end: int,
    arg: Arg,
) -> bool
    decreases end - start,
{
    if start >= end {
        false
    } else {
        let (next, stop) = hooks[start].effect(arg);
        stop || hooks_stop_between(hooks, start + 1, end, next)
    }
}

/// The event after all the handlers `hooks` ran on `arg`.
pub open spec fn run_hooks<Arg>(hooks: Seq<Box<dyn HookMut<Arg>>>, arg: Arg) -> Arg {
    run_hooks_between(hooks, 0, hooks.len() as int, arg)
}

/// Whether every handler of `hooks` declares its answers.
pub open spec fn all_obey_answer<Arg>(hooks: Seq<Box<dyn Hook<Arg>>>) -> bool {
    forall|k: int| 0 <= k < hooks.len() ==> #[trigger] hooks[k].obeys_answer()
}

/// Whether `stopped` tells which of `hooks` ends a run on `arg`: the first
/// handler that answers `true`, or none when every handler answers `false`.
/// Each handler before the one that stops (every handler when none does) runs
/// and answers `false`.
pub open spec fn stops_at<Arg>(hooks: Seq<Box<dyn Hook<Arg>>>, arg: Arg, stopped: Option<usize>) -> bool {
    match stopped {
        Some(k) => {
            &&& k < hooks.len()
            &&& hooks[k as int].answer(arg)
            &&& forall|j: int| 0 <= j < k ==> !#[trigger] hooks[j].answer(arg)
        },
        None => forall|j: int| 0 <= j < hooks.len() ==> !#[trigger] hooks[j].answer(arg),
    }
}

impl<Arg> Notify<Arg> for Vec<Box<dyn Hook<Arg>>> {
    /// Runs the handlers in order until one answers `true`. Handler `k` runs
    /// exactly when none before it answered `true`: with handlers that
    /// declare their answers, the answer is the first that answers `true`, or
    /// `None` after every handler ran and answered `false`.
    fn notify(&self, arg: &Arg) -> (stopped: Option<usize>)
        ensures
            stopped matches Some(k) ==> k < self@.len(),
            all_obey_answer(self@) ==> stops_at(self@, *arg, stopped),
    {
        let n = self.len();
        let mut i: usize = 0;
        while i < n
            invariant
                n == self.len(),
                i <= n,
                all_obey_answer(self@) ==> forall|j: int| 0 <= j < i ==> !#[trigger] self@[j].answer(*arg),
            decreases n - i,
        {
            if self[i].call(arg) {
                return Some(i);
            }
            proof {
                if all_obey_answer(self@) {
                    assert(self@[i as int].obeys_answer());
                }
            }
            i = i + 1;
        }
        None
    }
}

/// A list of handlers acts as one handler: it runs them in order until one
/// answers `true`, and answers whether one did.
impl<Arg> HookMut<Arg> for Vec<Box<dyn HookMut<Arg>>> {
    open spec fn effect(&self, arg: Arg) -> (Arg, bool) {
        (run_hooks(self@, arg), hooks_stop_between(self@, 0, self@.len() as int, arg))
    }

    fn call(&self, arg: &mut Arg) -> (stop: bool) {
        let n = self.len();
        let mut i: usize = 0;
        while i < n
            invariant
                n == self.len(),
                i <= n,
                run_hooks(self@, *old(arg)) == run_hooks_between(self@, i as int, n as int, *arg),
                hooks_stop_between(self@, 0, n as int, *old(arg)) == hooks_stop_between(
                    self@,
                    i as int,
                    n as int,
                    *arg,
                ),
            decreases n - i,
        {
            if self[i].call(arg) {
                return true;
            }
            i = i + 1;
        }
        false
    }
}

impl<Arg> NotifyMut<Arg> for Vec<Box<dyn HookMut<Arg>>> {
    open spec fn notified(&self, arg: Arg) -> Arg {
        run_hooks(self@, arg)
    }

    fn notify(&self, arg: &mut Arg) {
        self.call(arg);
    }
}

/// What pushing `a` onto `s` gives, element by element.
proof fn lemma_pushed<A>(s: Seq<A>, a: A)
    ensures
        s.push(a).len() == s.len() + 1,
        forall|i: int| 0 <= i < s.len() ==> #[trigger] s.push(a)[i] == s[i],
{
}

/// The store of a service together with the handlers registered for each
/// event.
pub struct ServiceInner<Store> {
    store: Store,
    on_received: Vec<Box<dyn Hook<CommandRequest>>>,
    on_executed: Vec<Box<dyn Hook<CommandResponse>>>,
    on_before_send: Vec<Box<dyn HookMut<CommandResponse>>>,
    on_after_send: Vec<Box<dyn SendHook>>,
}

impl<Store> ServiceInner<Store> {
    /// The store.
    pub closed spec fn store(&self) -> Store {
        self.store
    }

    /// The handlers run when a request arrives.
    pub closed spec fn received_hooks(&self) -> Seq<Box<dyn Hook<CommandRequest>>> {
        self.on_received@
    }

    /// The handlers run once a response is computed.
    pub closed spec fn executed_hooks(&self) -> Seq<Box<dyn Hook<CommandResponse>>> {
        self.on_executed@
    }

    /// The handlers that may change a response before it is sent.
    pub closed spec fn before_send_hooks(&self) -> Seq<Box<dyn HookMut<CommandResponse>>> {
        self.on_before_send@
    }

    /// The handlers run after a response is sent.
    pub closed spec fn after_send_hooks(&self) -> Seq<Box<dyn SendHook>> {
        self.on_after_send@
    }

    /// A service core over `store`, with no handlers.
    pub fn new(store: Store) -> (r: Self)
        ensures
            r.store() == store,
            r.received_hooks() == Seq::<Box<dyn Hook<CommandRequest>>>::empty(),
            r.executed_hooks() == Seq::<Box<dyn Hook<CommandResponse>>>::empty(),
            r.before_send_hooks() == Seq::<Box<dyn HookMut<CommandResponse>>>::empty(),
            r.after_send_hooks() == Seq::<Box<dyn SendHook>>::empty(),
    {
        ServiceInner {
            store,
            on_received: Vec::new(),
            on_executed: Vec::new(),
            on_before_send: Vec::new(),
            on_after_send: Vec::new(),
        }
    }

    /// Registers `f` after the handlers run when a request arrives.
    pub fn fn_received(self, f: Box<dyn Hook<CommandRequest>>) -> (r: Self)
        ensures
            r.store() == self.store(),
            r.received_hooks() == self.received_hooks().push(f),
            r.received_hooks().len() == self.received_hooks().len() + 1,
            forall|i: int|
                0 <= i < self.received_hooks().len() ==> #[trigger] r.received_hooks()[i] == self.received_hooks()[i],
            r.executed_hooks() == self.executed_hooks(),
            r.before_send_hooks() == self.before_send_hooks(),
            r.after_send_hooks() == self.after_send_hooks(),
    {
        proof {
            lemma_pushed(self.received_hooks(), f);
        }
        let mut s = self;
        s.on_received.push(f);
        s
    }

    /// Registers `f` after the handlers run once a response is computed.
    pub fn fn_executed(self, f: Box<dyn Hook<CommandResponse>>) -> (r: Self)
        ensures
            r.store() == self.store(),
            r.received_hooks() == self.received_hooks(),
            r.executed_hooks() == self.executed_hooks().push(f),
            r.executed_hooks().len() == self.executed_hooks().len() + 1,
            forall|i: int|
                0 <= i < self.executed_hooks().len() ==> #[trigger] r.executed_hooks()[i] == self.executed_hooks()[i],
            r.before_send_hooks() == self.before_send_hooks(),
            r.after_send_hooks() == self.after_send_hooks(),
    {
        proof {
            lemma_pushed(self.executed_hooks(), f);
        }
        let mut s = self;
        s.on_executed.push(f);
        s
    }

    /// Registers `f` after the handlers that may change a response before it
    /// is sent.
    pub fn fn_before_send(self, f: Box<dyn HookMut<CommandResponse>>) -> (r: Self)
        ensures
            r.store() == self.store(),
            r.received_hooks() == self.received_hooks(),
            r.executed_hooks() == self.executed_hooks(),
            r.before_send_hooks() == self.before_send_hooks().push(f),
            r.before_send_hooks().len() == self.before_send_hooks().len() + 1,
            forall|i: int|
                0 <= i < self.before_send_hooks().len() ==> #[trigger] r.before_send_hooks()[i] == self.before_send_hooks()[i],
            r.after_send_hooks() == self.after_send_hooks(),
    {
        proof {
            lemma_pushed(self.before_send_hooks(), f);
        }
        let mut s = self;
        s.on_before_send.push(f);
        s
    }

    /// Registers `f` after the handlers run after a response is sent.
    pub fn fn_after_send(self, f: Box<dyn SendHook>) -> (r: Self)
        ensures
            r.store() == self.store(),
            r.received_hooks() == self.received_hooks(),
            r.executed_hooks() == self.executed_hooks(),
            r.before_send_hooks() == self.before_send_hooks(),
            r.after_send_hooks() == self.after_send_hooks().push(f),
            r.after_send_hooks().len() == self.after_send_hooks().len() + 1,
            forall|i: int|
                0 <= i < self.after_send_hooks().len() ==> #[trigger] r.after_send_hooks()[i] == self.after_send_hooks()[i],
    {
        proof {
            lemma_pushed(self.after_send_hooks(), f);
        }
        let mut s = self;
        s.on_after_send.push(f);
        s
    }
}

/// The text a request without a command is answered with.
pub open spec fn no_data_reply() -> Reply {
    message_reply(STATUS_BAD_REQUEST, "Cannot parse command: `"@ + "Request has no data"@ + "`"@)
}

/// The text a command that is not supported is answered with.
pub open spec fn unsupported_reply() -> Reply {
    message_reply(STATUS_INTERNAL_SERVER_ERROR, "Internal error: "@ + "Not implemented"@)
}

/// The reply to `cmd` on `store`, given what the store answers.
pub open spec fn dispatch_reply<S: Storage>(cmd: CommandRequest, store: S) -> Reply {
    match cmd.request_data {
        Some(RequestData::Hget(p)) => CommandService::<S>::reply(p, store),
        Some(RequestData::Hgetall(p)) => CommandService::<S>::reply(p, store),
        Some(RequestData::Hset(p)) => CommandService::<S>::reply(p, store),
        Some(RequestData::Hdel(p)) => CommandService::<S>::reply(p, store),
        None => no_data_reply(),
        _ => unsupported_reply(),
    }
}

/// The contents of `store` after routing `cmd` to it.
pub open spec fn dispatch_tables<S: Storage>(cmd: CommandRequest, store: S) -> Map<Slot, Value> {
    match cmd.request_data {
        Some(RequestData::Hget(p)) => CommandService::<S>::tables_after(p, store),
        Some(RequestData::Hgetall(p)) => CommandService::<S>::tables_after(p, store),
        Some(RequestData::Hset(p)) => CommandService::<S>::tables_after(p, store),
        Some(RequestData::Hdel(p)) => CommandService::<S>::tables_after(p, store),
        _ => store.tables(),
    }
}

/// Runs the command that `cmd` carries against `store`.
pub fn dispatch<S: Storage>(cmd: CommandRequest, store: &mut S) -> (res: CommandResponse)
    ensures
        final(store).never_fails() == old(store).never_fails(),
        res@ == dispatch_reply(cmd, *old(store)),
        final(store).tables() == dispatch_tables(cmd, *old(store)),
{
    match cmd.request_data {
        Some(RequestData::Hget(param)) => param.execute(store),
        Some(RequestData::Hgetall(param)) => param.execute(store),
        Some(RequestData::Hset(param)) => param.execute(store),
        Some(RequestData::Hdel(param)) => param.execute(store),
        None => CommandResponse::from_error(
            KvError::InvalidCommand(String::from_str("Request has no data")),
        ),
        _ => CommandResponse::from_error(KvError::Internal(String::from_str("Not implemented"))),
    }
}

/// A key-value service: a store and the handlers of its events.
pub struct Service<Store = MemTable> {
    inner: ServiceInner<Store>,
}

impl<Store> Service<Store> {
    /// The store and handlers of this service.
    pub closed spec fn parts(&self) -> ServiceInner<Store> {
        self.inner
    }

    /// The service made of `inner`.
    pub closed spec fn assemble(inner: ServiceInner<Store>) -> Self {
        Service { inner }
    }

    /// The service made of `inner` has it as its parts.
    pub proof fn lemma_assemble(inner: ServiceInner<Store>)
        ensures
            Self::assemble(inner).parts() == inner,
    {
    }
}

impl<Store> From<ServiceInner<Store>> for Service<Store> {
    fn from(inner: ServiceInner<Store>) -> (r: Self) {
        Service { inner }
    }
}

impl<Store> FromSpecImpl<ServiceInner<Store>> for Service<Store> {
    open spec fn obeys_from_spec() -> bool {
        true
    }

    open spec fn from_spec(inner: ServiceInner<Store>) -> Self {
        Service::assemble(inner)
    }
}

impl<Store: Storage> Service<Store> {
    /// Answers `cmd`: the handlers of an arriving request see it, the command
    /// runs against the store, the handlers of a computed response see the
    /// response, and the handlers before sending may change it.
    pub fn execute(&mut self, cmd: CommandRequest) -> (res: CommandResponse)
        ensures
            final(self).parts().received_hooks() == old(self).parts().received_hooks(),
            final(self).parts().executed_hooks() == old(self).parts().executed_hooks(),
            final(self).parts().before_send_hooks() == old(self).parts().before_send_hooks(),
            final(self).parts().after_send_hooks() == old(self).parts().after_send_hooks(),
            final(self).parts().store().never_fails() == old(self).parts().store().never_fails(),
            final(self).parts().store().tables() == dispatch_tables(cmd, old(self).parts().store()),
            exists|computed: CommandResponse|
                {
                    &&& computed@ == dispatch_reply(cmd, old(self).parts().store())
                    &&& res == run_hooks(old(self).parts().before_send_hooks(), computed)
                },
    {
        self.inner.on_received.notify(&cmd);
        let mut res = dispatch(cmd, &mut self.inner.store);
        let ghost computed = res;
        self.inner.on_executed.notify(&res);
        self.inner.on_before_send.notify(&mut res);
        res
    }
}

/// A write followed by a read of the same key gives back the value written,
/// on stores that do not fail.
pub proof fn law_read_gives_back_write<S: Storage>(set: Hset, get: Hget, before: S, after: S)
    requires
        set.pair is Some,
        get.table@ == set.table@,
        get.key@ == set.pair->0.key@,
        before.never_fails(),
        after.never_fails(),
        after.tables() == set.tables_after(before),
    ensures
        get.reply(after) == value_reply(stored_value(set.pair->0.value)),
{
    let kv = set.pair->0;
    let v = stored_value(kv.value);
    before.lemma_answers(set.table@, kv.key@, v);
    after.lemma_answers(set.table@, kv.key@, v);
}

/// A write answers the value the key held before, or the default value when
/// the key was absent, on a store that does not fail.
pub proof fn law_write_answers_previous<S: Storage>(set: Hset, store: S)
    requires
        set.pair is Some,
        store.never_fails(),
    ensures
        set.reply(store) == value_reply(
            match store.tables().get((set.table@, set.pair->0.key@)) {
                Some(v) => v,
                None => empty_value(),
            },
        ),
{
    let kv = set.pair->0;
    store.lemma_answers(set.table@, kv.key@, stored_value(kv.value));
}

/// After a delete, a read of the same key answers that it is not found, on
/// stores that do not fail.
pub proof fn law_read_after_delete<S: Storage>(del: Hdel, get: Hget, before: S, after: S)
    requires
        get.table@ == del.table@,
        get.key@ == del.key@,
        before.never_fails(),
        after.never_fails(),
        after.tables() == del.tables_after(before),
    ensures
        get.reply(after) == get.reply_to(Ok(None)),
{
    before.lemma_answers(del.table@, del.key@, empty_value());
    after.lemma_answers(del.table@, del.key@, empty_value());
}

/// A listing of a table, on a store that does not fail, succeeds and gives
/// every pair of the table: each key of the table once, with the value stored
/// under it, whatever that value is, and no other pair.
pub proof fn law_listing_gives_every_pair<S: Storage>(all: Hgetall, store: S)
    requires
        store.never_fails(),
    ensures
        all.reply(store).status == STATUS_OK,
        all.reply(store).message == Seq::<char>::empty(),
        all.reply(store).values == Seq::<Value>::empty(),
        lists_table(all.reply(store).pairs, store.tables(), all.table@),
{
    store.lemma_answers(all.table@, Seq::empty(), empty_value());
}

/// Requests that do not write (reads, requests without a command, commands
/// that are not supported) leave the contents of the store as they were.
pub proof fn law_reads_leave_store_unchanged<S: Storage>(cmd: CommandRequest, store: S)
    requires
        !(cmd.request_data matches Some(RequestData::Hset(_))),
        !(cmd.request_data matches Some(RequestData::Hdel(_))),
    ensures
        dispatch_tables(cmd, store) == store.tables(),
{
}

/// A store's error reaches the client: when the store answers a read with an
/// error, the reply reports that error.
pub proof fn law_store_errors_are_reported<S: Storage>(get: Hget, store: S, e: KvError)
    requires
        store.get_answer(get.table@, get.key@) == Err::<Option<Value>, KvError>(e),
    ensures
        get.reply(store) == error_reply(e),
{
}

/// Whether the handlers `hooks` treat responses of equal content alike: from
/// responses of equal view they make responses of equal view, and answer
/// alike whether to stop.
pub open spec fn treat_content_alike(hooks: Seq<Box<dyn HookMut<CommandResponse>>>) -> bool {
    forall|i: int, a: CommandResponse, b: CommandResponse|
        #![trigger hooks[i].effect(a), hooks[i].effect(b)]
        0 <= i < hooks.len() && a@ == b@ ==> {
            &&& hooks[i].effect(a).0@ == hooks[i].effect(b).0@
            &&& hooks[i].effect(a).1 == hooks[i].effect(b).1
        }
}

proof fn lemma_run_hooks_by_content(
    hooks: Seq<Box<dyn HookMut<CommandResponse>>>,
    start: int,
    end: int,
    a: CommandResponse,
    b: CommandResponse,
)
    requires
        0 <= start,
        end <= hooks.len(),
        treat_content_alike(hooks),
        a@ == b@,
    ensures
        run_hooks_between(hooks, start, end, a)@ == run_hooks_between(hooks, start, end, b)@,
    decreases end - start,
{
    if start < end {
        let (na, sa) = hooks[start].effect(a);
        let (nb, sb) = hooks[start].effect(b);
        assert(na@ == nb@ && sa == sb);
        lemma_run_hooks_by_content(hooks, start + 1, end, na, nb);
    }
}

/// The observing handlers cannot change a response: two services over equal
/// stores, with the same before-send handlers, answer a request with
/// responses of equal view and leave equal contents, whatever handlers
/// observe the request and the computed response. This holds for any list
/// of before-send handlers that treat responses of equal content alike.
pub proof fn law_observers_do_not_change_response<S: Storage>(
    cmd: CommandRequest,
    first: Service<S>,
    second: Service<S>,
    computed_first: CommandResponse,
    computed_second: CommandResponse,
    res_first: CommandResponse,
    res_second: CommandResponse,
)
    requires
        first.parts().store() == second.parts().store(),
        first.parts().before_send_hooks() == second.parts().before_send_hooks(),
        treat_content_alike(first.parts().before_send_hooks()),
        computed_first@ == dispatch_reply(cmd, first.parts().store()),
        computed_second@ == dispatch_reply(cmd, second.parts().store()),
        res_first == run_hooks(first.parts().before_send_hooks(), computed_first),
        res_second == run_hooks(second.parts().before_send_hooks(), computed_second),
    ensures
        res_first@ == res_second@,
        dispatch_tables(cmd, first.parts().store()) == dispatch_tables(cmd, second.parts().store()),
{
    let hooks = first.parts().before_send_hooks();
    lemma_run_hooks_by_content(hooks, 0, hooks.len() as int, computed_first, computed_second);
}

proof fn lemma_run_stops_early<Arg>(
    hooks: Seq<Box<dyn HookMut<Arg>>>,
    start: int,
    k: int,
    end: int,
    arg: Arg,
)
    requires
        start <= k <= end,
        hooks_stop_between(hooks, start, k, arg),
    ensures
        run_hooks_between(hooks, start, end, arg) == run_hooks_between(hooks, start, k, arg),
    decreases k - start,
{
    let (next, stop) = hooks[start].effect(arg);
    if !stop {
        lemma_run_stops_early(hooks, start + 1, k, end, next);
    }
}

proof fn lemma_run_one_more<Arg>(hooks: Seq<Box<dyn HookMut<Arg>>>, start: int, k: int, arg: Arg)
    requires
        start <= k,
        !hooks_stop_between(hooks, start, k, arg),
    ensures
        run_hooks_between(hooks, start, k + 1, arg) == hooks[k].effect(
            run_hooks_between(hooks, start, k, arg),
        ).0,
    decreases k - start,
{
    if start < k {
        let (next, stop) = hooks[start].effect(arg);
        lemma_run_one_more(hooks, start + 1, k, next);
    } else {
        let (next, stop) = hooks[k].effect(arg);
        assert(run_hooks_between(hooks, k + 1, k + 1, next) == next);
    }
}

/// Once a handler answers `true`, the handlers registered after it do not
/// run: if one of the first `k` handlers stops, all the handlers have the
/// effect of the first `k`.
pub proof fn law_hooks_after_stop_do_not_run<Arg>(
    hooks: Seq<Box<dyn HookMut<Arg>>>,
    k: int,
    arg: Arg,
)
    requires
        0 <= k <= hooks.len(),
        hooks_stop_between(hooks, 0, k, arg),
    ensures
        run_hooks(hooks, arg) == run_hooks_between(hooks, 0, k, arg),
{
    lemma_run_stops_early(hooks, 0, k, hooks.len() as int, arg);
}

/// While no handler answers `true`, each handler runs on the event as the
/// handlers before it left it.
pub proof fn law_hook_runs_after_others<Arg>(
    hooks: Seq<Box<dyn HookMut<Arg>>>,
    k: int,
    arg: Arg,
)
    requires
        0 <= k < hooks.len(),
        !hooks_stop_between(hooks, 0, k, arg),
    ensures
        run_hooks_between(hooks, 0, k + 1, arg) == hooks[k].effect(
            run_hooks_between(hooks, 0, k, arg),
        ).0,
{
    lemma_run_one_more(hooks, 0, k, arg);
}

} // verus!
