//! How each supported command runs against a store.
use vstd::prelude::*;
use crate::pb::{
    CommandResponse, Hdel, Hget, Hgetall, Hset, KvError, Kvpair, Reply, Value, empty_value, error_reply,
    pairs_reply, value_reply,
};
use crate::storage::{Slot, Storage, listing};

verus! {

/// A command that runs against a store and produces a response.
pub trait CommandService<S: Storage>: Sized {
    /// The reply of this command on `store`, given what the store answers.
    spec fn reply(self, store: S) -> Reply;

    /// The contents of `store` after this command.
    spec fn tables_after(self, store: S) -> Map<Slot, Value>;

    /// Runs the command against `store`.
    fn execute(self, store: &mut S) -> (res: CommandResponse)
        ensures
            final(store).never_fails() == old(store).never_fails(),
            res@ == self.reply(*old(store)),
            final(store).tables() == self.tables_after(*old(store)),
    ;
}

/// The value a write stores when the pair carries none.
pub open spec fn stored_value(v: Option<Value>) -> Value {
    match v {
        Some(x) => x,
        None => empty_value(),
    }
}

/// The reply to a write or delete, given what the store answered: the value
/// that was there, or the default value.
pub open spec fn previous_value_reply(answer: Result<Option<Value>, KvError>) -> Reply {
    match answer {
        Ok(Some(v)) => value_reply(v),
        Ok(None) => value_reply(empty_value()),
        Err(e) => error_reply(e),
    }
}

/// The response to a write or delete, given what the store answered.
pub fn previous_value_response(answer: Result<Option<Value>, KvError>) -> (r: CommandResponse)
    ensures
        r@ == previous_value_reply(answer),
{
    match answer {
        Ok(Some(v)) => CommandResponse::from_value(v),
        Ok(None) => CommandResponse::from_value(Value::default()),
        Err(e) => CommandResponse::from_error(e),
    }
}

impl Hget {
    /// The reply to this read, given what the store answered.
    pub open spec fn reply_to(self, answer: Result<Option<Value>, KvError>) -> Reply {
        match answer {
            Ok(Some(v)) => value_reply(v),
            Ok(None) => error_reply(KvError::NotFound(self.table, self.key)),
            Err(e) => error_reply(e),
        }
    }

    /// The response to this read, given what the store answered.
    pub fn respond(self, answer: Result<Option<Value>, KvError>) -> (r: CommandResponse)
        ensures
            r@ == self.reply_to(answer),
    {
        match answer {
            Ok(Some(v)) => CommandResponse::from_value(v),
            Ok(None) => CommandResponse::from_error(KvError::NotFound(self.table, self.key)),
            Err(e) => CommandResponse::from_error(e),
        }
    }
}

impl<S: Storage> CommandService<S> for Hget {
    open spec fn reply(self, store: S) -> Reply {
        self.reply_to(store.get_answer(self.table@, self.key@))
    }

    open spec fn tables_after(self, store: S) -> Map<Slot, Value> {
        store.tables()
    }

    fn execute(self, store: &mut S) -> (res: CommandResponse) {
        let answer = store.get(self.table.as_str(), self.key.as_str());
        self.respond(answer)
    }
}

impl Hgetall {
    /// The reply to this read, given what the store answered.
    pub open spec fn reply_to(self, answer: Result<Seq<Kvpair>, KvError>) -> Reply {
        match answer {
            Ok(pairs) => pairs_reply(pairs),
            Err(e) => error_reply(e),
        }
    }

    /// The response to this read, given what the store answered.
    pub fn respond(self, answer: Result<Vec<Kvpair>, KvError>) -> (r: CommandResponse)
        ensures
            r@ == self.reply_to(listing(answer)),
    {
        match answer {
            Ok(pairs) => CommandResponse::from_pairs(pairs),
            Err(e) => CommandResponse::from_error(e),
        }
    }
}

impl<S: Storage> CommandService<S> for Hgetall {
    open spec fn reply(self, store: S) -> Reply {
        self.reply_to(store.get_all_answer(self.table@))
    }

    open spec fn tables_after(self, store: S) -> Map<Slot, Value> {
        store.tables()
    }

    fn execute(self, store: &mut S) -> (res: CommandResponse) {
        let answer = store.get_all(self.table.as_str());
        self.respond(answer)
    }
}

impl Hset {
    /// What the store answers to this write.
    pub open spec fn answer<S: Storage>(self, store: S) -> Result<Option<Value>, KvError>
        recommends
            self.pair is Some,
    {
        store.set_answer(self.table@, self.pair->0.key@, stored_value(self.pair->0.value))
    }
}

impl<S: Storage> CommandService<S> for Hset {
    open spec fn reply(self, store: S) -> Reply {
        match self.pair {
            None => value_reply(empty_value()),
            Some(kv) => previous_value_reply(self.answer(store)),
        }
    }

    open spec fn tables_after(self, store: S) -> Map<Slot, Value> {
        match self.pair {
            None => store.tables(),
            Some(kv) => if self.answer(store) is Ok {
                store.tables().insert((self.table@, kv.key@), stored_value(kv.value))
            } else {
                store.tables()
            },
        }
    }

    fn execute(self, store: &mut S) -> (res: CommandResponse) {
        match self.pair {
            Some(kv) => {
                let value = match kv.value {
                    Some(v) => v,
                    None => Value::default(),
                };
                let answer = store.set(self.table.as_str(), kv.key, value);
                previous_value_response(answer)
            },
            None => CommandResponse::from_value(Value::default()),
        }
    }
}

impl<S: Storage> CommandService<S> for Hdel {
    open spec fn reply(self, store: S) -> Reply {
        previous_value_reply(store.del_answer(self.table@, self.key@))
    }

    open spec fn tables_after(self, store: S) -> Map<Slot, Value> {
        if store.del_answer(self.table@, self.key@) is Ok {
            store.tables().remove((self.table@, self.key@))
        } else {
            store.tables()
        }
    }

    fn execute(self, store: &mut S) -> (res: CommandResponse) {
        let answer = store.del(self.table.as_str(), self.key.as_str());
        previous_value_response(answer)
    }
}

} // verus!
