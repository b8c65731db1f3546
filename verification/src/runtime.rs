//! The service runtime: named services and the handlers of events and
//! requests.

use vstd::prelude::*;
use crate::qiss::error::Result;

verus! {

/// A service of the runtime.
#[derive(Debug)]
pub struct Service {
    name: String,
    version: String,
    namespace: String,
}

impl Service {
    /// The service's name.
    pub closed spec fn spec_name(&self) -> Seq<char> {
        self.name@
    }

    /// The service's version.
    pub closed spec fn spec_version(&self) -> Seq<char> {
        self.version@
    }

    /// The service's namespace.
    pub closed spec fn spec_namespace(&self) -> Seq<char> {
        self.namespace@
    }

    /// A service with the given name, version and namespace.
    pub fn new(name: String, version: String, namespace: String) -> (s: Self)
        ensures
            s.spec_name() == name@,
            s.spec_version() == version@,
            s.spec_namespace() == namespace@,
    {
        Service { name, version, namespace }
    }

    /// Start the service; starting always succeeds.
    pub fn start(&self) -> (r: Result<()>)
        ensures
            r is Ok,
    {
        Ok(())
    }

    /// Stop the service; stopping always succeeds.
    pub fn stop(&self) -> (r: Result<()>)
        ensures
            r is Ok,
    {
        Ok(())
    }
}

/// A handler of events of type `T`, implemented by users of the runtime.
pub trait EventHandler<T> {
    /// Handle `event`.
    fn handle(&self, event: T) -> Result<()>;
}

/// A handler of requests of type `T` with responses of type `R`,
/// implemented by users of the runtime.
pub trait RpcHandler<T, R> {
    /// Handle `request`.
    fn handle(&self, request: T) -> Result<R>;
}

} // verus!
