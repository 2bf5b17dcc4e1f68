//! The host's side of a parachain's validation function: the gateway through
//! which the function calls shared modules, and the driver that finds the
//! module that a call names.
//!
//! Only what shared modules need is here. The function gets no head data and
//! gives no verdict.

use crate::error::Error;
use crate::gateway::{resolve_known, resolved, Signature};
use crate::memory::{in_bounds, memory_bytes, read};
use crate::spree::{invoked, ModuleState, SpreeModule};
use vstd::prelude::*;
use wasmi::MemoryRef;

pub mod fn_index;

verus! {

/// The host function that the parachain gateway has under `name`: its index,
/// the number of its parameters, and whether it gives a result.
pub open spec fn host_function(name: Seq<char>) -> Option<(usize, nat, bool)> {
    if name == "call_shared_module"@ {
        Some((fn_index::CALL_SHARED_MODULE, 4nat, false))
    } else {
        None
    }
}

/// Resolves the functions that a parachain's validation function imports
/// from the host.
pub struct ParachainImportResolver;

impl ParachainImportResolver {
    /// The index of the host function `field_name`, if the host has it with
    /// the signature that is asked for.
    pub fn resolve_func(&self, field_name: &str, req_signature: &Signature) -> (r: Result<
        usize,
        Error,
    >)
        ensures
            resolved(field_name@, req_signature@, host_function(field_name@), r),
    {
        if field_name.eq("call_shared_module") {
            resolve_known(field_name, req_signature, fn_index::CALL_SHARED_MODULE, 4, false)
        } else {
            Err(Error::UnknownFunction(field_name.to_owned()))
        }
    }
}

/// The number of arguments that the host function under `index` takes, if
/// there is one under it.
pub fn param_count(index: usize) -> (count: Option<usize>)
    ensures
        count == if index == fn_index::CALL_SHARED_MODULE {
            Some(4usize)
        } else {
            None
        },
{
    if index == fn_index::CALL_SHARED_MODULE {
        Some(4)
    } else {
        None
    }
}

/// What the modules hold.
pub open spec fn states(modules: Seq<SpreeModule>) -> Seq<ModuleState> {
    Seq::new(modules.len(), |i: int| modules[i]@)
}

/// What a call to the module under `handle` does to the registered modules.
/// A handle that names no module fails the call, and no module changes. A
/// handle that names one invokes that one with the blob, and no other module
/// changes.
pub open spec fn dispatched(
    pre: Seq<ModuleState>,
    handle: u32,
    time_slice: u32,
    blob: Seq<u8>,
    r: Result<(), Error>,
    post: Seq<ModuleState>,
) -> bool {
    if handle < pre.len() {
        &&& post.len() == pre.len()
        &&& invoked(pre[handle as int], time_slice, blob, r, post[handle as int])
        &&& forall|i: int| 0 <= i < pre.len() && i != handle ==> post[i] == pre[i]
    } else {
        &&& r matches Err(Error::HandleNotFound(h))
        &&& h == handle
        &&& post == pre
    }
}

/// The place of the module that `handle` names among `registered` modules:
/// a module's handle is its place in the list.
pub fn find_handle(handle: u32, registered: usize) -> (r: Result<usize, Error>)
    ensures
        match r {
            Ok(place) => place == handle && handle < registered,
            Err(Error::HandleNotFound(h)) => h == handle && handle >= registered,
            Err(_) => false,
        },
{
    let place = handle as usize;
    if place < registered {
        Ok(place)
    } else {
        Err(Error::HandleNotFound(handle))
    }
}

/// A call of `call_shared_module`, ready to be made: the place of the module
/// that it names, the time slice that it grants, and its argument.
pub struct SpreeCall {
    pub place: usize,
    pub time_slice: u32,
    pub blob: Vec<u8>,
}

/// What marshalling a call of `call_shared_module` gives, with `registered`
/// modules to call. The blob is copied out of the guest's memory first: a
/// range outside the memory fails the call whatever the handle. Then the
/// handle is looked up. The time slice is taken as it is.
pub open spec fn marshalled(
    args: Seq<u32>,
    mem: Seq<u8>,
    registered: nat,
    r: Result<SpreeCall, Error>,
) -> bool {
    if !in_bounds(mem, args[2] as int, args[3] as int) {
        r matches Err(e) && e is OutOfBounds
    } else if args[0] >= registered {
        r matches Err(Error::HandleNotFound(h)) && h == args[0]
    } else {
        &&& r matches Ok(call)
        &&& call.place == args[0]
        &&& call.time_slice == args[1]
        &&& call.blob@ == mem.subrange(args[2] as int, args[2] + args[3])
    }
}

/// Marshals a call of `call_shared_module` with the arguments `args`: a
/// handle, a time slice, and the address and the length of a blob in
/// `memory`.
pub fn marshal_call(args: &[u32], memory: &MemoryRef, registered: usize) -> (r: Result<
    SpreeCall,
    Error,
>)
    requires
        args@.len() >= 4,
    ensures
        marshalled(args@, memory_bytes(*memory), registered as nat, r),
{
    let handle = args[0];
    let time_slice = args[1];
    let blob_ptr = args[2];
    let blob_len = args[3];
    // Copy the specified blob.
    let blob = read(memory, blob_ptr, blob_len)?;
    // Find the specified module.
    let place = find_handle(handle, registered)?;
    Ok(SpreeCall { place, time_slice, blob })
}

/// Host environment of a parachain's validation function. It serves the
/// function's calls to the host, and owns the modules that are registered for
/// the function while it runs.
pub struct ParachainHostEnv {
    spree_modules: Vec<SpreeModule>,
}

impl View for ParachainHostEnv {
    type V = Seq<ModuleState>;

    closed spec fn view(&self) -> Seq<ModuleState> {
        states(self.spree_modules@)
    }
}

impl ParachainHostEnv {
    /// An environment with the given modules. A module's handle is its
    /// place in the list.
    pub fn new(spree_modules: Vec<SpreeModule>) -> (env: Self)
        ensures
            env@ == states(spree_modules@),
    {
        ParachainHostEnv { spree_modules }
    }

    /// Ends the validation function's run: the modules as it left them.
    pub fn into_modules(self) -> (spree_modules: Vec<SpreeModule>)
        ensures
            states(spree_modules@) == self@,
    {
        self.spree_modules
    }

    /// The place of the module that `handle` names.
    pub fn lookup(&self, handle: u32) -> (r: Result<usize, Error>)
        ensures
            match r {
                Ok(place) => place == handle && handle < self@.len(),
                Err(Error::HandleNotFound(h)) => h == handle && handle >= self@.len(),
                Err(_) => false,
            },
    {
        find_handle(handle, self.spree_modules.len())
    }

    /// Calls the module that `handle` names with the argument `blob`, and
    /// returns when the module has finished or failed. The time slice is
    /// handed on as it is.
    pub fn dispatch(&mut self, handle: u32, time_slice: u32, blob: Vec<u8>) -> (r: Result<
        (),
        Error,
    >)
        ensures
            dispatched(old(self)@, handle, time_slice, blob@, r, final(self)@),
    {
        let place = self.lookup(handle)?;
        let r = self.spree_modules[place].invoke(time_slice, blob);
        r
    }

    /// What a call of `call_shared_module` does: the blob is copied out of
    /// the guest's memory, and the module that `handle` names is called with
    /// it and with the time slice.
    pub open spec fn call_shared_module_called(
        pre: Seq<ModuleState>,
        mem: Seq<u8>,
        handle: u32,
        time_slice: u32,
        blob_ptr: u32,
        blob_len: u32,
        r: Result<Option<u32>, Error>,
        post: Seq<ModuleState>,
    ) -> bool {
        if in_bounds(mem, blob_ptr as int, blob_len as int) {
            &&& r matches Ok(found) ==> found is None
            &&& dispatched(
                pre,
                handle,
                time_slice,
                mem.subrange(blob_ptr as int, blob_ptr + blob_len),
                match r {
                    Ok(_) => Ok(()),
                    Err(e) => Err(e),
                },
                post,
            )
        } else {
            &&& r matches Err(e)
            &&& e is OutOfBounds
            &&& post == pre
        }
    }

    /// Serves the call of the host function under `index` that the
    /// validation function makes with `args`: `call_shared_module` with a
    /// handle, a time slice, and the address and the length of a blob in
    /// `memory`, the function's linear memory.
    ///
    /// Another index, or fewer than four arguments, cannot come from a guest
    /// that was linked against this gateway: the caller has to rule them out.
    pub fn invoke_index(&mut self, index: usize, args: &[u32], memory: &MemoryRef) -> (r: Result<
        Option<u32>,
        Error,
    >)
        requires
            index == fn_index::CALL_SHARED_MODULE,
            args@.len() >= 4,
        ensures
            Self::call_shared_module_called(
                old(self)@,
                memory_bytes(*memory),
                args@[0],
                args@[1],
                args@[2],
                args@[3],
                r,
                final(self)@,
            ),
    {
        let call = marshal_call(args, memory, self.spree_modules.len())?;
        self.spree_modules[call.place].invoke(call.time_slice, call.blob)?;
        Ok(None)
    }
}

/// Runs the validation function with the given modules registered, each
/// under its place in the list as its handle. The modules keep what the
/// function's calls did to them, also where the function failed.
pub fn validate_block(spree_modules: &mut Vec<SpreeModule>) -> (r: Result<(), Error>)
    ensures
        crate::dummy_parachain::validated(
            states(old(spree_modules)@),
            r,
            states(final(spree_modules)@),
        ),
{
    let mut registered: Vec<SpreeModule> = Vec::new();
    core::mem::swap(spree_modules, &mut registered);
    let mut env = ParachainHostEnv::new(registered);
    let r = crate::dummy_parachain::validate_block(&mut env);
    *spree_modules = env.into_modules();
    r
}

} // verus!
