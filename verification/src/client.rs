//! The typestate client.
//!
//! A client is in one of three states, each a distinct type: `Online`
//! (connected, schemas come from server reflection), `OnlineWithoutReflection`
//! (connected, schemas come from a loaded descriptor pool), and `Offline`
//! (no connection, introspection only). Transitions consume the previous
//! state; there is no runtime flag. The transport is an opaque handle that
//! the surrounding driver provides and performs I/O on; every decision —
//! lookups, dispatch, validation — is made here.

use vstd::prelude::*;
use vstd::string::*;

use crate::descriptor::{
    DescriptorError, Descriptor, DescriptorPool, FileDecl, all_enums, all_messages, all_services,
    describe_post, files_valid,
};
use crate::dispatch::{CallPlan, DynamicCallError, DynamicRequest, plan_call, plan_call_post};
use crate::reflection::ReflectionResolveError;
use crate::status::CODE_NOT_FOUND;

verus! {

/// Connected; schemas are fetched through the server-reflection stream.
pub struct Online<T> {
    pub transport: T,
}

/// Connected; schemas come from the loaded pool, reflection is not used.
pub struct OnlineWithoutReflection<T> {
    pub transport: T,
    pub pool: DescriptorPool,
}

/// Not connected; the loaded pool serves introspection only.
pub struct Offline {
    pub pool: DescriptorPool,
}

/// The dynamic gRPC client, parameterized by its state.
pub struct GrancClient<S> {
    pub state: S,
}

/// Errors of symbol resolution through reflection. A reflection-server
/// `NOT_FOUND` during a describe is reported as the symbol being unknown
/// rather than as a transport failure.
#[derive(Debug)]
pub enum GetDescriptorError {
    ReflectionResolve(ReflectionResolveError),
    DescriptorError(DescriptorError),
    NotFound(String),
}

impl<T> GrancClient<Online<T>> {
    /// Wraps a connected transport in a reflection-state client.
    pub fn from_transport(transport: T) -> (r: GrancClient<Online<T>>)
        ensures
            r.state.transport == transport,
    {
        GrancClient { state: Online { transport } }
    }

    /// Loads a descriptor set, keeping the connection: the client moves to
    /// the `OnlineWithoutReflection` state and stops using reflection.
    pub fn with_file_descriptor(self, files: Vec<FileDecl>) -> (r: Result<
        GrancClient<OnlineWithoutReflection<T>>,
        DescriptorError,
    >)
        ensures
            match r {
                Ok(c) => {
                    &&& c.state.transport == self.state.transport
                    &&& files_valid(files@)
                    &&& c.state.pool.wf()
                    &&& c.state.pool.closed()
                    &&& c.state.pool.services@ == all_services(files@)
                    &&& c.state.pool.messages@ == all_messages(files@)
                    &&& c.state.pool.enums@ == all_enums(files@)
                },
                Err(_) => !files_valid(files@),
            },
    {
        let pool = DescriptorPool::from_file_descriptor_set(files)?;
        Ok(GrancClient { state: OnlineWithoutReflection { transport: self.state.transport, pool } })
    }
}

impl<T> GrancClient<OnlineWithoutReflection<T>> {
    /// Pairs a transport with an already-built pool.
    pub fn new(transport: T, pool: DescriptorPool) -> (r: GrancClient<OnlineWithoutReflection<T>>)
        ensures
            r.state.pool == pool,
    {
        GrancClient { state: OnlineWithoutReflection { transport, pool } }
    }

    /// The fully-qualified names of the pool's services, in pool order.
    pub fn list_services(&self) -> (r: Vec<String>)
        ensures
            r@.len() == self.state.pool.services@.len(),
            forall|i: int|
                0 <= i < r@.len() ==> (#[trigger] r@[i])@ == self.state.pool.services@[i].fqn@,
    {
        self.state.pool.list_services()
    }

    /// Resolves a symbol in the pool: service first, then message, then enum,
    /// in that fixed order; the found descriptor carries the symbol as its
    /// full name. The pool is untouched.
    pub fn get_descriptor_by_symbol(&self, symbol: &str) -> (r: Option<Descriptor<'_>>)
        ensures
            describe_post(self.state.pool, symbol@, r),
    {
        self.state.pool.get_descriptor_by_symbol(symbol)
    }

    /// Decides one dynamic call against the loaded pool: resolves the method,
    /// picks the dispatch arm, shapes the body into frames, and validates the
    /// headers. The returned plan is everything the transport needs.
    pub fn dynamic(&self, request: DynamicRequest) -> (r: Result<CallPlan, DynamicCallError>)
        requires
            self.state.pool.wf(),
        ensures
            plan_call_post(self.state.pool, request, r),
    {
        plan_call(&self.state.pool, request)
    }
}

impl GrancClient<Offline> {
    /// Builds an introspection-only client from a descriptor set. No
    /// connection exists in this state, so no call can be made from it.
    pub fn offline(files: Vec<FileDecl>) -> (r: Result<GrancClient<Offline>, DescriptorError>)
        ensures
            match r {
                Ok(c) => files_valid(files@) && c.state.pool.wf() && c.state.pool.closed()
                    && c.state.pool.services@ == all_services(files@) && c.state.pool.messages@
                    == all_messages(files@) && c.state.pool.enums@ == all_enums(files@),
                Err(_) => !files_valid(files@),
            },
    {
        let pool = DescriptorPool::from_file_descriptor_set(files)?;
        Ok(GrancClient { state: Offline { pool } })
    }

    /// The fully-qualified names of the pool's services, in pool order.
    pub fn list_services(&self) -> (r: Vec<String>)
        ensures
            r@.len() == self.state.pool.services@.len(),
            forall|i: int|
                0 <= i < r@.len() ==> (#[trigger] r@[i])@ == self.state.pool.services@[i].fqn@,
    {
        self.state.pool.list_services()
    }

    /// Resolves a symbol in the pool: service first, then message, then enum,
    /// in that fixed order; the found descriptor carries the symbol as its
    /// full name. The pool is untouched.
    pub fn get_descriptor_by_symbol(&self, symbol: &str) -> (r: Option<Descriptor<'_>>)
        ensures
            describe_post(self.state.pool, symbol@, r),
    {
        self.state.pool.get_descriptor_by_symbol(symbol)
    }
}

/// Maps a reflection failure seen while describing `symbol`: a stream failure
/// with the `NOT_FOUND` code becomes `NotFound(symbol)`; everything else
/// passes through unchanged.
pub fn map_describe_error(symbol: &str, e: ReflectionResolveError) -> (r: GetDescriptorError)
    ensures
        match e {
            ReflectionResolveError::ServerStreamFailure(st) => {
                if st.code == CODE_NOT_FOUND {
                    r matches GetDescriptorError::NotFound(s) && s@ == symbol@
                } else {
                    r matches GetDescriptorError::ReflectionResolve(
                        ReflectionResolveError::ServerStreamFailure(s2),
                    ) && s2 == st
                }
            },
            _ => r matches GetDescriptorError::ReflectionResolve(e2) && e2 == e,
        },
{
    match e {
        ReflectionResolveError::ServerStreamFailure(st) => {
            if st.code == CODE_NOT_FOUND {
                GetDescriptorError::NotFound(String::from_str(symbol))
            } else {
                GetDescriptorError::ReflectionResolve(
                    ReflectionResolveError::ServerStreamFailure(st),
                )
            }
        },
        other => GetDescriptorError::ReflectionResolve(other),
    }
}

} // verus!
