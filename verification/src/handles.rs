use vstd::prelude::*;

use crate::errors::Error;
use crate::tree::SubTree;
use crate::value::Value;

verus! {

/// The source capability: an adapter that originates values into the tree.
/// Implemented by callers; the engine only ever calls through a handle.
pub trait TreeSource {
    /// Record one owned path, discovered from its subtree.
    fn add_path(&mut self, path: &str, tree: &SubTree) -> Result<(), Error>;

    /// An externally observed event arrived for one of the owned paths.
    fn handle_event(&mut self, path: &str, value: Value, tree: &SubTree) -> Result<(), Error>;

    /// Pull-style read of the current value at one of the owned paths.
    fn get_value(&self, path: &str, tree: &SubTree) -> Option<Value>;
}

/// The sink capability: an adapter that consumes propagated value batches.
/// Implemented by callers; the engine only ever calls through a handle.
pub trait TreeSink {
    /// Record one owned path, discovered from its subtree.
    fn add_path(&mut self, path: &str, tree: &SubTree) -> Result<(), Error>;

    /// Deliver one propagation batch, in discovery order.
    fn values_updated(&mut self, values: &[(String, Value)]) -> Result<(), Error>;

    /// Called once, after every owned path is attached; by default a
    /// no-op, for sinks that need no final initialization.
    fn on_ready(&mut self, tree: &SubTree) -> Result<(), Error> {
        Ok(())
    }
}

/// One boxed adapter with its concrete type erased; reached only through
/// the shims below, and recovered only by a runtime type test.
#[verifier::external_body]
pub struct ErasedAdapter {
    obj: Box<dyn core::any::Any + Send>,
}

/// The monomorphic shims through which an erased source adapter is
/// reached: each recovers the concrete type the handle was built with.
#[verifier::external_body]
struct SourceVt {
    add_path: fn(&mut ErasedAdapter, &str, &SubTree) -> Result<(), Error>,
    handle_event: fn(&mut ErasedAdapter, &str, Value, &SubTree) -> Result<(), Error>,
    get_value: fn(&ErasedAdapter, &str, &SubTree) -> Option<Value>,
}

/// The monomorphic shims through which an erased sink adapter is reached.
#[verifier::external_body]
struct SinkVt {
    add_path: fn(&mut ErasedAdapter, &str, &SubTree) -> Result<(), Error>,
    values_updated: fn(&mut ErasedAdapter, &[(String, Value)]) -> Result<(), Error>,
    on_ready: fn(&mut ErasedAdapter, &SubTree) -> Result<(), Error>,
}

/// Relies on std's `Any`: the box always holds a `T`, fixed at `new`.
#[verifier::external_body]
fn shim_source_add_path<T: TreeSource + 'static>(
    o: &mut ErasedAdapter,
    p: &str,
    t: &SubTree,
) -> Result<(), Error> {
    o.obj.downcast_mut::<T>().unwrap().add_path(p, t)
}

/// Relies on std's `Any`: the box always holds a `T`, fixed at `new`.
#[verifier::external_body]
fn shim_source_handle_event<T: TreeSource + 'static>(
    o: &mut ErasedAdapter,
    p: &str,
    v: Value,
    t: &SubTree,
) -> Result<(), Error> {
    o.obj.downcast_mut::<T>().unwrap().handle_event(p, v, t)
}

/// Relies on std's `Any`: the box always holds a `T`, fixed at `new`.
#[verifier::external_body]
fn shim_source_get_value<T: TreeSource + 'static>(
    o: &ErasedAdapter,
    p: &str,
    t: &SubTree,
) -> Option<Value> {
    o.obj.downcast_ref::<T>().unwrap().get_value(p, t)
}

/// Relies on std's `Any`: the box always holds a `T`, fixed at `new`.
#[verifier::external_body]
fn shim_sink_add_path<T: TreeSink + 'static>(
    o: &mut ErasedAdapter,
    p: &str,
    t: &SubTree,
) -> Result<(), Error> {
    o.obj.downcast_mut::<T>().unwrap().add_path(p, t)
}

/// Relies on std's `Any`: the box always holds a `T`, fixed at `new`.
#[verifier::external_body]
fn shim_sink_values_updated<T: TreeSink + 'static>(
    o: &mut ErasedAdapter,
    vs: &[(String, Value)],
) -> Result<(), Error> {
    o.obj.downcast_mut::<T>().unwrap().values_updated(vs)
}

/// Relies on std's `Any`: the box always holds a `T`, fixed at `new`.
#[verifier::external_body]
fn shim_sink_on_ready<T: TreeSink + 'static>(
    o: &mut ErasedAdapter,
    t: &SubTree,
) -> Result<(), Error> {
    o.obj.downcast_mut::<T>().unwrap().on_ready(t)
}

/// A shared, lock-guarded handle on one boxed source adapter.
///
/// Every clone reaches the same adapter; each operation holds the adapter
/// exclusively for its duration, so calls on one handle never interleave,
/// while different handles stay independent. The concrete type can be
/// recovered, fallibly, through `inspect_as` / `mutate_as`.
#[verifier::external_body]
pub struct SourceRef {
    inner: std::sync::Arc<std::sync::Mutex<(ErasedAdapter, SourceVt)>>,
}

/// A shared, lock-guarded handle on one boxed sink adapter; see
/// [`SourceRef`] for the sharing and exclusion discipline.
#[verifier::external_body]
pub struct SinkRef {
    inner: std::sync::Arc<std::sync::Mutex<(ErasedAdapter, SinkVt)>>,
}

impl SourceRef {
    /// Wrap one boxed adapter behind a fresh handle. Relies on std's `Arc`,
    /// `Mutex` and `Any`: the box is erased and reached only through shims
    /// fixed here to the concrete type `T`.
    #[verifier::external_body]
    pub fn new<T: TreeSource + Send + 'static>(adapter: Box<T>) -> SourceRef {
        let vt = SourceVt {
            add_path: shim_source_add_path::<T>,
            handle_event: shim_source_handle_event::<T>,
            get_value: shim_source_get_value::<T>,
        };
        let erased = ErasedAdapter { obj: adapter };
        SourceRef { inner: std::sync::Arc::new(std::sync::Mutex::new((erased, vt))) }
    }

    /// Forward `add_path` to the adapter, exclusively; the result is the
    /// adapter's own. Relies on std's `Mutex` for the exclusion.
    #[verifier::external_body]
    pub fn add_path(&self, path: &str, tree: &SubTree) -> Result<(), Error> {
        let mut g = match self.inner.lock() {
            Ok(g) => g,
            Err(p) => p.into_inner(),
        };
        let (obj, vt) = &mut *g;
        (vt.add_path)(obj, path, tree)
    }

    /// Forward one external event to the adapter, exclusively; the result
    /// is the adapter's own. Relies on std's `Mutex` for the exclusion.
    #[verifier::external_body]
    pub fn handle_event(&self, path: &str, value: Value, tree: &SubTree) -> Result<(), Error> {
        let mut g = match self.inner.lock() {
            Ok(g) => g,
            Err(p) => p.into_inner(),
        };
        let (obj, vt) = &mut *g;
        (vt.handle_event)(obj, path, value, tree)
    }

    /// Pull a value from the adapter, exclusively; the result is the
    /// adapter's own. Relies on std's `Mutex` for the exclusion.
    #[verifier::external_body]
    pub fn get_value(&self, path: &str, tree: &SubTree) -> Option<Value> {
        let g = match self.inner.lock() {
            Ok(g) => g,
            Err(p) => p.into_inner(),
        };
        let (obj, vt) = &*g;
        (vt.get_value)(obj, path, tree)
    }

    /// Run `f` over the adapter viewed as a `T`. Relies on std's `Any`: the
    /// runtime type test fails with `CapabilityMismatch` — calling `f` on
    /// nothing and mutating nothing — unless the boxed adapter is a `T`.
    #[verifier::external_body]
    pub fn inspect_as<T: 'static, R, F: Fn(&T) -> R>(&self, f: F) -> Result<R, Error> {
        let g = match self.inner.lock() {
            Ok(g) => g,
            Err(p) => p.into_inner(),
        };
        match g.0.obj.downcast_ref::<T>() {
            Some(c) => Ok(f(c)),
            None => Err(Error::CapabilityMismatch),
        }
    }

    /// Run `f` over the adapter viewed as a mutable `T`; as `inspect_as`,
    /// but the closure may mutate the adapter.
    #[verifier::external_body]
    pub fn mutate_as<T: 'static, R, F: FnMut(&mut T) -> R>(&self, mut f: F) -> Result<R, Error> {
        let mut g = match self.inner.lock() {
            Ok(g) => g,
            Err(p) => p.into_inner(),
        };
        match g.0.obj.downcast_mut::<T>() {
            Some(c) => Ok(f(c)),
            None => Err(Error::CapabilityMismatch),
        }
    }
}

impl Clone for SourceRef {
    /// Relies on std's `Arc`: the clone shares the same adapter and lock.
    #[verifier::external_body]
    fn clone(&self) -> SourceRef {
        SourceRef { inner: std::sync::Arc::clone(&self.inner) }
    }
}

impl SinkRef {
    /// Wrap one boxed adapter behind a fresh handle; see [`SourceRef::new`].
    #[verifier::external_body]
    pub fn new<T: TreeSink + Send + 'static>(adapter: Box<T>) -> SinkRef {
        let vt = SinkVt {
            add_path: shim_sink_add_path::<T>,
            values_updated: shim_sink_values_updated::<T>,
            on_ready: shim_sink_on_ready::<T>,
        };
        let erased = ErasedAdapter { obj: adapter };
        SinkRef { inner: std::sync::Arc::new(std::sync::Mutex::new((erased, vt))) }
    }

    /// Forward `add_path` to the adapter, exclusively; the result is the
    /// adapter's own. Relies on std's `Mutex` for the exclusion.
    #[verifier::external_body]
    pub fn add_path(&self, path: &str, tree: &SubTree) -> Result<(), Error> {
        let mut g = match self.inner.lock() {
            Ok(g) => g,
            Err(p) => p.into_inner(),
        };
        let (obj, vt) = &mut *g;
        (vt.add_path)(obj, path, tree)
    }

    /// Deliver one propagation batch to the adapter, exclusively; the
    /// result is the adapter's own. Relies on std's `Mutex`.
    #[verifier::external_body]
    pub fn values_updated(&self, values: &[(String, Value)]) -> Result<(), Error> {
        let mut g = match self.inner.lock() {
            Ok(g) => g,
            Err(p) => p.into_inner(),
        };
        let (obj, vt) = &mut *g;
        (vt.values_updated)(obj, values)
    }

    /// Tell the adapter every owned path is attached, exclusively; the
    /// result is the adapter's own. Relies on std's `Mutex`.
    #[verifier::external_body]
    pub fn on_ready(&self, tree: &SubTree) -> Result<(), Error> {
        let mut g = match self.inner.lock() {
            Ok(g) => g,
            Err(p) => p.into_inner(),
        };
        let (obj, vt) = &mut *g;
        (vt.on_ready)(obj, tree)
    }

    /// Run `f` over the adapter viewed as a `T`; see
    /// [`SourceRef::inspect_as`].
    #[verifier::external_body]
    pub fn inspect_as<T: 'static, R, F: Fn(&T) -> R>(&self, f: F) -> Result<R, Error> {
        let g = match self.inner.lock() {
            Ok(g) => g,
            Err(p) => p.into_inner(),
        };
        match g.0.obj.downcast_ref::<T>() {
            Some(c) => Ok(f(c)),
            None => Err(Error::CapabilityMismatch),
        }
    }

    /// Run `f` over the adapter viewed as a mutable `T`; see
    /// [`SourceRef::mutate_as`].
    #[verifier::external_body]
    pub fn mutate_as<T: 'static, R, F: FnMut(&mut T) -> R>(&self, mut f: F) -> Result<R, Error> {
        let mut g = match self.inner.lock() {
            Ok(g) => g,
            Err(p) => p.into_inner(),
        };
        match g.0.obj.downcast_mut::<T>() {
            Some(c) => Ok(f(c)),
            None => Err(Error::CapabilityMismatch),
        }
    }
}

impl Clone for SinkRef {
    /// Relies on std's `Arc`: the clone shares the same adapter and lock.
    #[verifier::external_body]
    fn clone(&self) -> SinkRef {
        SinkRef { inner: std::sync::Arc::clone(&self.inner) }
    }
}

} // verus!
