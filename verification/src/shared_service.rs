//! A service that holds its store behind a shared trait object, so that any
//! store type can stand behind the same service type.
use vstd::prelude::*;
use std::sync::Arc;

verus! {

/// A stored value.
pub struct Value(pub i32);

/// A key together with its value.
pub struct Kvpair(pub i32, pub i32);

/// Why a store could not answer.
#[derive(Debug)]
pub struct KvError {
    pub message: String,
}

/// How callers deal with a store, wherever it keeps its data.
pub trait Storage {
    fn get(&self, table: &str, key: &str) -> Result<Option<Value>, KvError>;

    fn set(&self, table: &str, key: String, value: Value) -> Result<Option<Value>, KvError>;

    fn contains(&self, table: &str, key: &str) -> Result<bool, KvError>;

    fn del(&self, table: &str, key: &str) -> Result<Option<Value>, KvError>;

    fn get_all(&self, table: &str) -> Result<Vec<Kvpair>, KvError>;
}

/// A service over a store of any type, shared by its clones.
pub struct Service {
    pub store: Arc<Box<dyn Storage>>,
}

/// `store` as a boxed trait object.
pub open spec fn as_store_object<S: Storage + 'static>(store: S) -> Box<dyn Storage> {
    Box::new(store)
}

impl Service {
    /// A service over `store`.
    pub fn new<S: Storage + 'static>(store: S) -> (r: Self)
        ensures
            *r.store == as_store_object(store),
    {
        let boxed: Box<dyn Storage> = Box::new(store);
        Service { store: Arc::new(boxed) }
    }
}

impl Clone for Service {
    /// Another handle on the same store.
    fn clone(&self) -> (r: Self)
        ensures
            r.store == self.store,
    {
        Service { store: Arc::clone(&self.store) }
    }
}

} // verus!
