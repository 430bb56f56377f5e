//! The host VM as native code sees it: contexts, call frames and the class
//! registry.
use crate::mem::{DowncastError, Handle, HandleView, Kind, Local, Tag};
use crate::vm::internal::{
    ContextInternal, Isolate, IsolateView, Ledger, LedgerView, Root, Scope,
};
use std::collections::HashMap;
use vstd::prelude::*;
use vstd::string::*;

pub mod internal;

verus! {

broadcast use vstd::std_specs::hash::group_hash_axioms;

/// An error sentinel that says that the VM has entered a throwing state.
/// The value that was thrown is held by the VM, not by native data.
#[derive(Debug)]
pub struct Throw;

impl Throw {
    pub fn description(&self) -> (s: &'static str)
        ensures
            s@ == "javascript error"@,
    {
        "javascript error"
    }

    /// What a `Throw` displays as.
    pub fn to_string(&self) -> (s: String)
        ensures
            s@ == "JavaScript Error"@,
    {
        String::from_str("JavaScript Error")
    }
}

/// The result of a computation that might send the VM into a throwing state.
pub type VmResult<T> = Result<T, Throw>;

/// The result of a computation that produces a value and might send the VM
/// into a throwing state.
pub type JsResult = VmResult<crate::mem::Handle>;

/// Indicates whether a function was called with call or with construct
/// semantics.
#[derive(Clone, Copy, Debug, PartialEq, Eq, Structural)]
pub enum CallKind {
    Construct,
    Call,
}

/// The class of an exception that native code asks the VM to throw.
#[derive(Clone, Copy, Debug, PartialEq, Eq, Structural)]
pub enum ErrorKind {
    Error,
    TypeError,
    ReferenceError,
    RangeError,
    SyntaxError,
}

/// The description of one registered native class: an opaque reference to
/// the wiring that the host keeps for it.
#[derive(Clone, Copy, Debug, PartialEq, Eq, Structural)]
pub struct ClassMetadata {
    pub pointer: usize,
}

/// The class registry of one VM instance, keyed by native type identity.
pub struct ClassMap {
    map: HashMap<u64, ClassMetadata>,
}

impl View for ClassMap {
    type V = Map<u64, ClassMetadata>;

    closed spec fn view(&self) -> Map<u64, ClassMetadata> {
        self.map@
    }
}

impl ClassMap {
    pub fn new() -> (m: ClassMap)
        ensures
            m@ == Map::<u64, ClassMetadata>::empty(),
    {
        ClassMap { map: HashMap::new() }
    }

    /// Looks up the metadata registered for the native type `key`.
    pub fn get(&self, key: &u64) -> (r: Option<&ClassMetadata>)
        ensures
            r.is_some() == self@.contains_key(*key),
            r.is_some() ==> *r.unwrap() == self@[*key],
    {
        self.map.get(key)
    }

    /// Registers `val` for the native type `key`, in place of what was
    /// registered for it before.
    pub fn set(&mut self, key: u64, val: ClassMetadata)
        ensures
            final(self)@ == old(self)@.insert(key, val),
    {
        self.map.insert(key, val);
    }
}

/// A shared claim on the memory of a value, for as long as a computation
/// inspects it.
#[derive(Clone, Copy, Debug, PartialEq, Eq, Structural)]
pub struct Ref {
    pub value: Local,
    /// The address of the memory.
    pub pointer: usize,
}

/// An exclusive claim on the memory of a value, for as long as a
/// computation changes it.
#[derive(Clone, Copy, Debug, PartialEq, Eq, Structural)]
pub struct RefMut {
    pub value: Local,
    /// The address of the memory.
    pub pointer: usize,
}

/// A lock of the VM. While it is held, the memory of values that support
/// it can be claimed through its ledger.
pub struct VmGuard {
    pub ledger: Ledger,
}

impl VmGuard {
    pub fn new() -> (guard: VmGuard)
        ensures
            guard.ledger@ == LedgerView::empty(),
    {
        VmGuard { ledger: Ledger::new() }
    }
}

/// The call frame of one invocation of a native function: what the host
/// hands in, and the slot for what is handed back.
pub struct CallbackInfoView {
    pub args: Seq<Local>,
    pub this: Local,
    /// The value that the host keeps with the function.
    pub data: Local,
    /// Whether the function was called as a constructor.
    pub construct: bool,
    /// The return slot, once it was set.
    pub ret: Option<Local>,
}

/// The call frame of one invocation of a native function.
pub struct CallbackInfo {
    args: Vec<Local>,
    this: Local,
    data: Local,
    construct: bool,
    ret: Option<Local>,
}

impl View for CallbackInfo {
    type V = CallbackInfoView;

    closed spec fn view(&self) -> CallbackInfoView {
        CallbackInfoView {
            args: self.args@,
            this: self.this,
            data: self.data,
            construct: self.construct,
            ret: self.ret,
        }
    }
}

impl CallbackInfo {
    #[verifier::type_invariant]
    spec fn inv(self) -> bool {
        self.args@.len() <= i32::MAX
    }

    /// The frame of a call with these arguments, or `None` where they are
    /// more than a frame can count.
    pub fn new(args: Vec<Local>, this: Local, data: Local, construct: bool) -> (r: Option<
        CallbackInfo,
    >)
        ensures
            r.is_some() == (args@.len() <= i32::MAX),
            r.is_some() ==> r.unwrap()@ == (CallbackInfoView {
                args: args@,
                this,
                data,
                construct,
                ret: None,
            }),
    {
        if args.len() <= 0x7fff_ffff {
            Some(CallbackInfo { args, this, data, construct, ret: None })
        } else {
            None
        }
    }

    /// The value that the host keeps with the function, rooted in the
    /// scope of `cx`.
    pub fn data<'b, C: Context<'b>>(&self, cx: &C) -> (h: Handle)
        requires
            cx.scope_view().metadata.active,
        ensures
            h@ == (HandleView {
                value: self@.data,
                kind: Kind::JsValue,
                scope: cx.scope_view().handle_scope,
            }),
    {
        Handle::new_internal(self.data, Kind::JsValue, cx.scope().handle_scope)
    }

    /// Runs `f` in the context of this call, with a `this` binding of the
    /// kind `this`.
    pub fn with_cx<U, F: for <'b>FnOnce(CallContext<'b>) -> U>(
        &self,
        isolate: &mut Isolate,
        this: Kind,
        f: F,
    ) -> (r: U)
        requires
            old(isolate)@.wf(),
            old(isolate)@.can_enter(),
            this.admits(self@.this.tag),
            forall|c: CallContext| #[trigger]
                c.opened(old(isolate)@, self, this) ==> call_requires(f, (c,)),
            forall|c: CallContext, t: U| #[trigger]
                call_ensures(f, (c,), t) ==> (*c.scope.isolate)@.settled(
                    (*final(c.scope.isolate))@,
                ),
        ensures
            exists|c: CallContext| #[trigger]
                c.opened(old(isolate)@, self, this) && call_ensures(f, (c,), r)
                    && final(isolate)@ == (*final(c.scope.isolate))@.exit(),
            old(isolate)@.settled(final(isolate)@),
    {
        CallContext::with(isolate, self, this, f)
    }

    /// Sets the return slot of the call.
    pub fn set_return(&mut self, value: Handle)
        ensures
            final(self)@ == (CallbackInfoView { ret: Some(value@.value), ..old(self)@ }),
    {
        proof {
            use_type_invariant(&*self);
        }
        self.ret = Some(value.to_raw());
    }

    /// The raw `this` binding of the call, as the host handed it in.
    pub fn this_binding(&self) -> (l: Local)
        ensures
            l == self@.this,
    {
        self.this
    }

    /// What was put into the return slot.
    pub fn returned(&self) -> (r: Option<Local>)
        ensures
            r == self@.ret,
    {
        self.ret
    }

    pub fn kind(&self) -> (k: CallKind)
        ensures
            k == if self@.construct {
                CallKind::Construct
            } else {
                CallKind::Call
            },
    {
        if self.construct {
            CallKind::Construct
        } else {
            CallKind::Call
        }
    }

    /// The number of arguments that were passed.
    pub fn len(&self) -> (n: i32)
        ensures
            n == self@.args.len(),
    {
        proof {
            use_type_invariant(self);
        }
        self.args.len() as i32
    }

    /// The `i`th argument, rooted in the scope of `cx`, or `None` if there
    /// is no such argument.
    pub fn get<'b, C: Context<'b>>(&self, cx: &mut C, i: i32) -> (r: Option<Handle>)
        requires
            old(cx).scope_view().metadata.active,
        ensures
            *final(cx) == *old(cx),
            r.is_some() == (0 <= i < self@.args.len()),
            r.is_some() ==> r.unwrap()@ == (HandleView {
                value: self@.args[i as int],
                kind: Kind::JsValue,
                scope: old(cx).scope_view().handle_scope,
            }),
    {
        if i < 0 || i >= self.len() {
            return None;
        }
        Some(Handle::new_internal(self.args[i as usize], Kind::JsValue, cx.scope().handle_scope))
    }

    /// The `i`th argument, rooted in the scope of `cx`. If there is no
    /// such argument, the VM throws a type error.
    pub fn require<'b, C: Context<'b>>(&self, cx: &mut C, i: i32) -> (r: JsResult)
        requires
            old(cx).scope_view().metadata.active,
        ensures
            old(cx).scope_view().kept(final(cx).scope_view()),
            *final(final(cx).scope_view().isolate) == *final(old(cx).scope_view().isolate),
            *final(cx) == old(cx).with_scope(final(cx).scope_view()),
            r.is_ok() == (0 <= i < self@.args.len()),
            match r {
                Ok(h) => {
                    &&& (*final(cx).scope_view().isolate)@ == (*old(cx).scope_view().isolate)@
                    &&& h@ == (HandleView {
                        value: self@.args[i as int],
                        kind: Kind::JsValue,
                        scope: old(cx).scope_view().handle_scope,
                    })
                },
                Err(_) => (*final(cx).scope_view().isolate)@
                    == (*old(cx).scope_view().isolate)@.throw(
                    ErrorKind::TypeError,
                    "not enough arguments"@,
                ),
            },
    {
        if i < 0 || i >= self.len() {
            return cx.throw(ErrorKind::TypeError, "not enough arguments");
        }
        let ghost before = *cx;
        let scope = cx.scope();
        let handle = Handle::new_internal(self.args[i as usize], Kind::JsValue, scope.handle_scope);
        proof {
            before.lemma_same_scope();
        }
        Ok(handle)
    }

    /// The raw `this` binding of the call.
    pub fn this<'b, C: Context<'b>>(&self, cx: &mut C) -> (l: Local)
        requires
            old(cx).scope_view().metadata.active,
        ensures
            l == self@.this,
            *final(cx) == *old(cx),
    {
        self.this
    }
}

/// A view of the VM in a scoped computation started by
/// `Context::execute_scoped()`.
pub struct ExecuteContext<'a> {
    pub scope: Scope<'a>,
}

impl<'a> ExecuteContext<'a> {
    /// Runs `f` in a context with a fresh scope, from which nothing
    /// escapes.
    pub fn with<T, F: for <'b>FnOnce(ExecuteContext<'b>) -> T>(isolate: &mut Isolate, f: F) -> (r:
        T)
        requires
            old(isolate)@.wf(),
            old(isolate)@.can_enter(),
            forall|c: ExecuteContext| #[trigger]
                c.scope.opened(old(isolate)@, Root::HandleScope) ==> call_requires(f, (c,)),
            forall|c: ExecuteContext, t: T| #[trigger]
                call_ensures(f, (c,), t) ==> (*c.scope.isolate)@.settled(
                    (*final(c.scope.isolate))@,
                ),
        ensures
            exists|c: ExecuteContext| #[trigger]
                c.scope.opened(old(isolate)@, Root::HandleScope) && call_ensures(f, (c,), r)
                    && final(isolate)@ == (*final(c.scope.isolate))@.exit(),
            old(isolate)@.settled(final(isolate)@),
    {
        let run = |scope: Scope| -> (t: T)
            requires
                call_requires(f, ((ExecuteContext { scope }),)),
            ensures
                call_ensures(f, ((ExecuteContext { scope }),), t),
            {
                f(ExecuteContext { scope })
            };
        assert forall|c: Scope| #[trigger]
            c.opened(isolate@, Root::HandleScope) implies call_requires(run, (c,)) by {
            let cx = ExecuteContext { scope: c };
            assert(cx.scope.opened(isolate@, Root::HandleScope));
        }
        let result = Scope::with(isolate, Root::HandleScope, run);
        proof {
            let c = choose|c: Scope| #[trigger]
                c.opened(old(isolate)@, Root::HandleScope) && call_ensures(run, (c,), result)
                    && isolate@ == Root::HandleScope.exit((*final(c.isolate))@);
            let cx = ExecuteContext { scope: c };
            assert(cx.scope.opened(old(isolate)@, Root::HandleScope));
        }
        result
    }
}

impl<'a> ContextInternal<'a> for ExecuteContext<'a> {
    open spec fn scope_view(&self) -> Scope<'a> {
        self.scope
    }

    open spec fn with_scope(self, scope: Scope<'a>) -> Self {
        ExecuteContext { scope }
    }

    proof fn lemma_with_scope(self, first: Scope<'a>, second: Scope<'a>) {
    }

    proof fn lemma_same_scope(self) {
    }

    fn scope<'s>(&'s self) -> (scope: &'s Scope<'a>) where 'a: 's {
        &self.scope
    }

    fn scope_mut(&mut self) -> (scope: &mut Scope<'a>) {
        &mut self.scope
    }
}

/// A view of the VM in a scoped computation started by
/// `Context::compute_scoped()`: its region is escapable.
pub struct ComputeContext<'a> {
    pub scope: Scope<'a>,
}

impl<'a> ComputeContext<'a> {
    /// Runs `f` in a context with a fresh scope whose region is escapable.
    pub fn with<T, F: for <'b>FnOnce(ComputeContext<'b>) -> T>(isolate: &mut Isolate, f: F) -> (r:
        T)
        requires
            old(isolate)@.wf(),
            old(isolate)@.can_enter(),
            forall|c: ComputeContext| #[trigger]
                c.scope.opened(old(isolate)@, Root::EscapableHandleScope) ==> call_requires(
                    f,
                    (c,),
                ),
            forall|c: ComputeContext, t: T| #[trigger]
                call_ensures(f, (c,), t) ==> (*c.scope.isolate)@.settled(
                    (*final(c.scope.isolate))@,
                ),
        ensures
            exists|c: ComputeContext| #[trigger]
                c.scope.opened(old(isolate)@, Root::EscapableHandleScope) && call_ensures(
                    f,
                    (c,),
                    r,
                ) && final(isolate)@ == (*final(c.scope.isolate))@.exit(),
            old(isolate)@.settled(final(isolate)@),
    {
        let run = |scope: Scope| -> (t: T)
            requires
                call_requires(f, ((ComputeContext { scope }),)),
            ensures
                call_ensures(f, ((ComputeContext { scope }),), t),
            {
                f(ComputeContext { scope })
            };
        assert forall|c: Scope| #[trigger]
            c.opened(isolate@, Root::EscapableHandleScope) implies call_requires(run, (c,)) by {
            let cx = ComputeContext { scope: c };
            assert(cx.scope.opened(isolate@, Root::EscapableHandleScope));
        }
        let result = Scope::with(isolate, Root::EscapableHandleScope, run);
        proof {
            let c = choose|c: Scope| #[trigger]
                c.opened(old(isolate)@, Root::EscapableHandleScope) && call_ensures(
                    run,
                    (c,),
                    result,
                ) && isolate@ == Root::EscapableHandleScope.exit((*final(c.isolate))@);
            let cx = ComputeContext { scope: c };
            assert(cx.scope.opened(old(isolate)@, Root::EscapableHandleScope));
        }
        result
    }
}

impl<'a> ContextInternal<'a> for ComputeContext<'a> {
    open spec fn scope_view(&self) -> Scope<'a> {
        self.scope
    }

    open spec fn with_scope(self, scope: Scope<'a>) -> Self {
        ComputeContext { scope }
    }

    proof fn lemma_with_scope(self, first: Scope<'a>, second: Scope<'a>) {
    }

    proof fn lemma_same_scope(self) {
    }

    fn scope<'s>(&'s self) -> (scope: &'s Scope<'a>) where 'a: 's {
        &self.scope
    }

    fn scope_mut(&mut self) -> (scope: &mut Scope<'a>) {
        &mut self.scope
    }
}

impl<'a> Context<'a> for ComputeContext<'a> {

}

/// What `Context::compute_scoped()` returns for what the computation
/// gave: a failure as it is, and the value promoted into the region with
/// the serial `region`.
pub open spec fn escaped(inner: JsResult, region: u64, outer: JsResult) -> bool {
    match inner {
        Err(_) => outer is Err,
        Ok(h) => outer matches Ok(e) && e@ == (HandleView { scope: region, ..h@ }),
    }
}

/// A contextual view of the VM. Every operation that creates or borrows
/// values goes through a context, and the handles made through it are
/// rooted in its scope.
pub trait Context<'a>: ContextInternal<'a> {
    /// Locks the VM, which gives a guard with a fresh, empty ledger.
    fn lock(&self) -> (guard: VmGuard)
        requires
            self.scope_view().metadata.active,
        ensures
            guard.ledger@ == LedgerView::empty(),
    {
        self.check_active();
        VmGuard::new()
    }

    /// Locks the VM and borrows the memory of one value: claims the
    /// memory at `pointer` as shared, runs `f` on the claim, and releases
    /// the claim. The value must be rooted.
    fn borrow<T, F>(&self, v: &Handle, pointer: usize, f: F) -> (r: T) where F: FnOnce(Ref) -> T
        requires
            self.scope_view().metadata.active,
            (*self.scope_view().isolate)@.is_live(v@.scope),
            v@.kind.is_binary(),
            call_requires(f, ((Ref { value: v@.value, pointer }),)),
        ensures
            call_ensures(f, ((Ref { value: v@.value, pointer }),), r),
    {
        let mut guard = self.lock();
        let claim = guard.ledger.try_borrow(pointer);
        assert(claim is Ok);
        let result = f(Ref { value: v.to_raw(), pointer });
        guard.ledger.settle(pointer);
        assert(guard.ledger@.shared =~= Set::empty());
        result
    }

    /// Locks the VM and mutably borrows the memory of one value: claims
    /// the memory at `pointer` exclusively, runs `f` on the claim, and
    /// releases the claim. The value must be rooted.
    fn borrow_mut<T, F>(&self, v: &mut Handle, pointer: usize, f: F) -> (r: T) where
        F: FnOnce(RefMut) -> T,

        requires
            self.scope_view().metadata.active,
            (*self.scope_view().isolate)@.is_live(old(v)@.scope),
            old(v)@.kind.is_binary(),
            call_requires(f, ((RefMut { value: old(v)@.value, pointer }),)),
        ensures
            call_ensures(f, ((RefMut { value: old(v)@.value, pointer }),), r),
            *final(v) == *old(v),
    {
        let mut guard = self.lock();
        let claim = guard.ledger.try_borrow_mut(pointer);
        assert(claim is Ok);
        let result = f(RefMut { value: v.to_raw(), pointer });
        guard.ledger.settle_mut(pointer);
        assert(guard.ledger@.exclusive =~= Set::empty());
        result
    }

    /// Sends the VM into a throwing state, and gives the sentinel of it.
    fn throw<T>(&mut self, kind: ErrorKind, message: &str) -> (r: VmResult<T>)
        requires
            old(self).scope_view().metadata.active,
        ensures
            r is Err,
            (*final(self).scope_view().isolate)@ == (*old(self).scope_view().isolate)@.throw(
                kind,
                message@,
            ),
            old(self).scope_view().kept(final(self).scope_view()),
            *final(final(self).scope_view().isolate) == *final(old(self).scope_view().isolate),
            *final(self) == old(self).with_scope(final(self).scope_view()),
    {
        let scope = self.scope_mut();
        let sentinel = scope.isolate.throw(kind, message);
        Err(sentinel)
    }

    /// Produces a handle to the global object.
    fn global(&mut self) -> (h: Handle)
        requires
            old(self).scope_view().metadata.active,
        ensures
            h@ == (HandleView {
                value: Local { id: (*old(self).scope_view().isolate)@.global, tag: Tag::Object },
                kind: Kind::JsObject,
                scope: old(self).scope_view().handle_scope,
            }),
            *final(self) == *old(self),
    {
        let scope = self.scope();
        let value = Local { id: scope.isolate.global(), tag: Tag::Object };
        Handle::new_internal(value, Kind::JsObject, scope.handle_scope)
    }

    /// Executes a computation in a new memory management scope. While it
    /// runs this context is inactive; when it is done, the new scope is
    /// gone and this context is active again.
    fn execute_scoped<T, F>(&mut self, f: F) -> (r: T) where
        F: for <'b>FnOnce(ExecuteContext<'b>) -> T,

        requires
            old(self).scope_view().wf(),
            old(self).scope_view().metadata.active,
            (*old(self).scope_view().isolate)@.can_enter(),
            forall|c: ExecuteContext| #[trigger]
                c.scope.opened((*old(self).scope_view().isolate)@, Root::HandleScope)
                    ==> call_requires(f, (c,)),
            forall|c: ExecuteContext, t: T| #[trigger]
                call_ensures(f, (c,), t) ==> (*c.scope.isolate)@.settled(
                    (*final(c.scope.isolate))@,
                ),
        ensures
            exists|c: ExecuteContext| #[trigger]
                c.scope.opened((*old(self).scope_view().isolate)@, Root::HandleScope)
                    && call_ensures(f, (c,), r)
                    && (*final(self).scope_view().isolate)@
                    == (*final(c.scope.isolate))@.exit(),
            final(self).scope_view().wf(),
            final(self).scope_view().metadata == old(self).scope_view().metadata,
            final(self).scope_view().handle_scope == old(self).scope_view().handle_scope,
            final(self).scope_view().root == old(self).scope_view().root,
            *final(final(self).scope_view().isolate) == *final(old(self).scope_view().isolate),
            (*old(self).scope_view().isolate)@.settled((*final(self).scope_view().isolate)@),
            !(*final(self).scope_view().isolate)@.is_live(
                (*old(self).scope_view().isolate)@.next_serial,
            ),
            *final(self) == old(self).with_scope(final(self).scope_view()),
    {
        self.check_active();
        self.deactivate();
        let ghost fenced = *self;
        let scope = self.scope_mut();
        let result = ExecuteContext::with(&mut *scope.isolate, f);
        let ghost resumed = *self;
        self.activate();
        proof {
            old(self).lemma_with_scope(fenced.scope_view(), resumed.scope_view());
            old(self).lemma_with_scope(resumed.scope_view(), self.scope_view());
        }
        result
    }

    /// Executes a computation in a new memory management scope and computes
    /// a single result value that outlives the computation: it is promoted
    /// into the region of this context. Whatever else the computation
    /// created is gone with its scope.
    fn compute_scoped<F>(&mut self, f: F) -> (r: JsResult) where
        F: for <'b>FnOnce(ComputeContext<'b>) -> JsResult,

        requires
            old(self).scope_view().wf(),
            old(self).scope_view().metadata.active,
            (*old(self).scope_view().isolate)@.can_enter(),
            forall|c: ComputeContext| #[trigger]
                c.scope.opened((*old(self).scope_view().isolate)@, Root::EscapableHandleScope)
                    ==> call_requires(f, (c,)),
            forall|c: ComputeContext, t: JsResult| #[trigger]
                call_ensures(f, (c,), t) ==> (*c.scope.isolate)@.settled(
                    (*final(c.scope.isolate))@,
                ) && (t matches Ok(h) ==> (*final(c.scope.isolate))@.is_live(h@.scope)),
        ensures
            exists|c: ComputeContext, t: JsResult| #[trigger]
                call_ensures(f, (c,), t) && c.scope.opened(
                    (*old(self).scope_view().isolate)@,
                    Root::EscapableHandleScope,
                ) && (*final(self).scope_view().isolate)@ == (*final(c.scope.isolate))@.exit()
                    && escaped(t, old(self).scope_view().handle_scope, r),
            final(self).scope_view().wf(),
            final(self).scope_view().metadata == old(self).scope_view().metadata,
            final(self).scope_view().handle_scope == old(self).scope_view().handle_scope,
            final(self).scope_view().root == old(self).scope_view().root,
            *final(final(self).scope_view().isolate) == *final(old(self).scope_view().isolate),
            (*old(self).scope_view().isolate)@.settled((*final(self).scope_view().isolate)@),
            !(*final(self).scope_view().isolate)@.is_live(
                (*old(self).scope_view().isolate)@.next_serial,
            ),
            *final(self) == old(self).with_scope(final(self).scope_view()),
            r matches Ok(h) ==> (*final(self).scope_view().isolate)@.is_live(h@.scope),
    {
        self.check_active();
        let region = self.scope().handle_scope;
        self.deactivate();
        let ghost fenced = *self;
        let run = |cx: ComputeContext| -> (t: JsResult)
            requires
                call_requires(f, (cx,)),
            ensures
                exists|u: JsResult| #[trigger] call_ensures(f, (cx,), u) && escaped(u, region, t),
            {
                match f(cx) {
                    Err(e) => Err(e),
                    Ok(escapee) => Ok(
                        Handle::new_internal(escapee.to_raw(), escapee.kind(), region),
                    ),
                }
            };
        let scope = self.scope_mut();
        let result = ComputeContext::with(&mut *scope.isolate, run);
        let ghost resumed = *self;
        self.activate();
        proof {
            old(self).lemma_with_scope(fenced.scope_view(), resumed.scope_view());
            old(self).lemma_with_scope(resumed.scope_view(), self.scope_view());
        }
        result
    }
}

impl<'a> Context<'a> for ExecuteContext<'a> {

}

/// A view of the VM in the top-level initialization of a module.
pub struct ModuleContext<'a> {
    pub scope: Scope<'a>,
    /// The object that holds what the module exports.
    pub exports: Handle,
}

impl<'a> ModuleContext<'a> {
    /// The context as it is handed to the initialization of a module.
    pub open spec fn opened(&self, before: IsolateView, exports: Handle) -> bool {
        &&& self.scope.opened(before, Root::HandleScope)
        &&& self.exports == exports
        &&& exports@.kind == Kind::JsObject
    }

    /// Runs `f` in the context of the initialization of a module. The
    /// rooting regions of the host must have room in what native code
    /// reserves for them.
    pub fn with<T, F: for <'b>FnOnce(ModuleContext<'b>) -> T>(
        isolate: &mut Isolate,
        exports: Handle,
        f: F,
    ) -> (r: T)
        requires
            old(isolate)@.wf(),
            old(isolate)@.can_enter(),
            old(isolate)@.layout.fits(),
            exports@.kind == Kind::JsObject,
            forall|c: ModuleContext| #[trigger]
                c.opened(old(isolate)@, exports) ==> call_requires(f, (c,)),
            forall|c: ModuleContext, t: T| #[trigger]
                call_ensures(f, (c,), t) ==> (*c.scope.isolate)@.settled(
                    (*final(c.scope.isolate))@,
                ),
        ensures
            exists|c: ModuleContext| #[trigger]
                c.opened(old(isolate)@, exports) && call_ensures(f, (c,), r) && final(isolate)@
                    == (*final(c.scope.isolate))@.exit(),
            old(isolate)@.settled(final(isolate)@),
    {
        let run = |scope: Scope| -> (t: T)
            requires
                call_requires(f, ((ModuleContext { scope, exports }),)),
            ensures
                call_ensures(f, ((ModuleContext { scope, exports }),), t),
            {
                f(ModuleContext { scope, exports })
            };
        assert forall|c: Scope| #[trigger]
            c.opened(isolate@, Root::HandleScope) implies call_requires(run, (c,)) by {
            let cx = ModuleContext { scope: c, exports };
            assert(cx.opened(isolate@, exports));
        }
        let result = Scope::with(isolate, Root::HandleScope, run);
        proof {
            let c = choose|c: Scope| #[trigger]
                c.opened(old(isolate)@, Root::HandleScope) && call_ensures(run, (c,), result)
                    && isolate@ == Root::HandleScope.exit((*final(c.isolate))@);
            let cx = ModuleContext { scope: c, exports };
            assert(cx.opened(old(isolate)@, exports));
        }
        result
    }

    /// Exports a function from the module: `function` is what the host
    /// gave when it was asked to make the function.
    pub fn export_function(&mut self, key: &str, function: JsResult) -> (r: VmResult<()>)
        requires
            old(self).scope.metadata.active,
            function matches Ok(f) ==> (*old(self).scope.isolate)@.is_live(f@.scope),
        ensures
            final(self).exports == old(self).exports,
            old(self).scope.kept(final(self).scope),
            *final(final(self).scope.isolate) == *final(old(self).scope.isolate),
            match function {
                Ok(f) => r is Ok && (*final(self).scope.isolate)@
                    == (*old(self).scope.isolate)@.set_property(
                    old(self).exports@.value.id,
                    key@,
                    f@.value,
                ),
                Err(_) => r is Err && (*final(self).scope.isolate)@ == (*old(self).scope.isolate)@,
            },
    {
        match function {
            Err(e) => Err(e),
            Ok(f) => {
                let value = f.upcast(Kind::JsValue);
                self.export_value(key, value)
            },
        }
    }

    /// Exports the constructor of a class from the module: `constructor`
    /// is what the class gave when it was asked for its constructor.
    pub fn export_class(&mut self, key: &str, constructor: JsResult) -> (r: VmResult<()>)
        requires
            old(self).scope.metadata.active,
            constructor matches Ok(c) ==> (*old(self).scope.isolate)@.is_live(c@.scope),
        ensures
            final(self).exports == old(self).exports,
            old(self).scope.kept(final(self).scope),
            *final(final(self).scope.isolate) == *final(old(self).scope.isolate),
            match constructor {
                Ok(c) => r is Ok && (*final(self).scope.isolate)@
                    == (*old(self).scope.isolate)@.set_property(
                    old(self).exports@.value.id,
                    key@,
                    c@.value,
                ),
                Err(_) => r is Err && (*final(self).scope.isolate)@ == (*old(self).scope.isolate)@,
            },
    {
        match constructor {
            Err(e) => Err(e),
            Ok(c) => self.export_value(key, c),
        }
    }

    /// Exports a value from the module. The value must be rooted.
    pub fn export_value(&mut self, key: &str, val: Handle) -> (r: VmResult<()>)
        requires
            old(self).scope.metadata.active,
            (*old(self).scope.isolate)@.is_live(val@.scope),
        ensures
            r is Ok,
            final(self).exports == old(self).exports,
            old(self).scope.kept(final(self).scope),
            *final(final(self).scope.isolate) == *final(old(self).scope.isolate),
            (*final(self).scope.isolate)@ == (*old(self).scope.isolate)@.set_property(
                old(self).exports@.value.id,
                key@,
                val@.value,
            ),
    {
        let object = self.exports.to_raw().id;
        self.scope.isolate.set_property(object, key, val.to_raw());
        Ok(())
    }

    /// Produces a handle to the object that holds the module's exports.
    pub fn exports_object(&mut self) -> (r: JsResult)
        requires
            old(self).scope.metadata.active,
        ensures
            r == Ok::<Handle, Throw>(old(self).exports),
            *final(self) == *old(self),
    {
        Ok(self.exports)
    }
}

impl<'a> ContextInternal<'a> for ModuleContext<'a> {
    open spec fn scope_view(&self) -> Scope<'a> {
        self.scope
    }

    open spec fn with_scope(self, scope: Scope<'a>) -> Self {
        ModuleContext { scope, exports: self.exports }
    }

    proof fn lemma_with_scope(self, first: Scope<'a>, second: Scope<'a>) {
    }

    proof fn lemma_same_scope(self) {
    }

    fn scope<'s>(&'s self) -> (scope: &'s Scope<'a>) where 'a: 's {
        &self.scope
    }

    fn scope_mut(&mut self) -> (scope: &mut Scope<'a>) {
        &mut self.scope
    }
}

impl<'a> Context<'a> for ModuleContext<'a> {

}

/// A view of the VM in the context of a function call.
pub struct CallContext<'a> {
    pub scope: Scope<'a>,
    pub info: &'a CallbackInfo,
    /// The kind of the `this` binding.
    pub this_kind: Kind,
}

impl<'a> CallContext<'a> {
    /// The context as it is handed to the body of a native function.
    pub open spec fn opened(&self, before: IsolateView, info: &CallbackInfo, this: Kind) -> bool {
        &&& self.scope.opened(before, Root::HandleScope)
        &&& *self.info == *info
        &&& self.this_kind == this
        &&& this.admits(info@.this.tag)
    }

    /// Indicates whether the function was called with call or with
    /// construct semantics.
    pub fn kind(&self) -> (k: CallKind)
        requires
            self.scope.metadata.active,
        ensures
            k == if self.info@.construct {
                CallKind::Construct
            } else {
                CallKind::Call
            },
    {
        self.info.kind()
    }

    /// Runs `f` in the context of the call with the frame `info`, with a
    /// fresh scope and a `this` binding of the kind `this`.
    pub fn with<U, F: for <'b>FnOnce(CallContext<'b>) -> U>(
        isolate: &mut Isolate,
        info: &CallbackInfo,
        this: Kind,
        f: F,
    ) -> (r: U)
        requires
            old(isolate)@.wf(),
            old(isolate)@.can_enter(),
            this.admits(info@.this.tag),
            forall|c: CallContext| #[trigger]
                c.opened(old(isolate)@, info, this) ==> call_requires(f, (c,)),
            forall|c: CallContext, t: U| #[trigger]
                call_ensures(f, (c,), t) ==> (*c.scope.isolate)@.settled(
                    (*final(c.scope.isolate))@,
                ),
        ensures
            exists|c: CallContext| #[trigger]
                c.opened(old(isolate)@, info, this) && call_ensures(f, (c,), r)
                    && final(isolate)@ == (*final(c.scope.isolate))@.exit(),
            old(isolate)@.settled(final(isolate)@),
    {
        let run = |scope: Scope| -> (t: U)
            requires
                call_requires(f, ((CallContext { scope, info, this_kind: this }),)),
            ensures
                call_ensures(f, ((CallContext { scope, info, this_kind: this }),), t),
            {
                f(CallContext { scope, info, this_kind: this })
            };
        assert forall|c: Scope| #[trigger]
            c.opened(isolate@, Root::HandleScope) implies call_requires(run, (c,)) by {
            let cx = CallContext { scope: c, info, this_kind: this };
            assert(cx.opened(isolate@, info, this));
        }
        let result = Scope::with(isolate, Root::HandleScope, run);
        proof {
            let c = choose|c: Scope| #[trigger]
                c.opened(old(isolate)@, Root::HandleScope) && call_ensures(run, (c,), result)
                    && isolate@ == Root::HandleScope.exit((*final(c.isolate))@);
            let cx = CallContext { scope: c, info, this_kind: this };
            assert(cx.opened(old(isolate)@, info, this));
        }
        result
    }

    /// Indicates the number of arguments that were passed to the function.
    pub fn len(&self) -> (n: i32)
        requires
            self.scope.metadata.active,
        ensures
            n == self.info@.args.len(),
    {
        self.info.len()
    }

    /// Produces the `i`th argument, or `None` if `i` is greater than or
    /// equal to `self.len()`.
    pub fn argument_opt(&mut self, i: i32) -> (r: Option<Handle>)
        requires
            old(self).scope.metadata.active,
        ensures
            *final(self) == *old(self),
            r.is_some() == (0 <= i < old(self).info@.args.len()),
            r.is_some() ==> r.unwrap()@ == (HandleView {
                value: old(self).info@.args[i as int],
                kind: Kind::JsValue,
                scope: old(self).scope.handle_scope,
            }),
    {
        let info = self.info;
        info.get(self, i)
    }

    /// Produces the `i`th argument and casts it to the kind `kind`, or
    /// throws a type error if `i` is greater than or equal to `self.len()`
    /// or the argument cannot be cast to `kind`.
    pub fn argument(&mut self, i: i32, kind: Kind) -> (r: JsResult)
        requires
            old(self).scope.metadata.active,
        ensures
            final(self).info == old(self).info,
            final(self).this_kind == old(self).this_kind,
            old(self).scope.kept(final(self).scope),
            *final(final(self).scope.isolate) == *final(old(self).scope.isolate),
            (*final(self).scope.isolate)@ == old(self).argument_outcome(i, kind).0,
            match r {
                Ok(h) => old(self).argument_outcome(i, kind).1 == Some(h@),
                Err(_) => old(self).argument_outcome(i, kind).1.is_none(),
            },
    {
        let info = self.info;
        let a = match info.require(self, i) {
            Ok(a) => a,
            Err(e) => { return Err(e); },
        };
        a.downcast(kind).unwrap_or_throw(self)
    }

    /// What `argument` leaves the VM in and the handle it gives, if any.
    pub open spec fn argument_outcome(&self, i: i32, kind: Kind) -> (IsolateView, Option<
        HandleView,
    >) {
        let before = (*self.scope.isolate)@;
        if !(0 <= i < self.info@.args.len()) {
            (before.throw(ErrorKind::TypeError, "not enough arguments"@), None)
        } else if !kind.admits(self.info@.args[i as int].tag) {
            (
                before.throw(
                    ErrorKind::TypeError,
                    crate::mem::DowncastErrorView::failed(Kind::JsValue, kind).description,
                ),
                None,
            )
        } else {
            (
                before,
                Some(
                    HandleView {
                        value: self.info@.args[i as int],
                        kind,
                        scope: self.scope.handle_scope,
                    },
                ),
            )
        }
    }

    /// Produces a handle to the `this` binding.
    pub fn this(&mut self) -> (h: Handle)
        requires
            old(self).scope.metadata.active,
            old(self).this_kind.admits(old(self).info@.this.tag),
        ensures
            *final(self) == *old(self),
            h@ == (HandleView {
                value: old(self).info@.this,
                kind: old(self).this_kind,
                scope: old(self).scope.handle_scope,
            }),
    {
        let info = self.info;
        let raw = info.this(self);
        Handle::new_internal(raw, self.this_kind, self.scope.handle_scope)
    }
}

impl<'a> ContextInternal<'a> for CallContext<'a> {
    open spec fn scope_view(&self) -> Scope<'a> {
        self.scope
    }

    open spec fn with_scope(self, scope: Scope<'a>) -> Self {
        CallContext { scope, info: self.info, this_kind: self.this_kind }
    }

    proof fn lemma_with_scope(self, first: Scope<'a>, second: Scope<'a>) {
    }

    proof fn lemma_same_scope(self) {
    }

    fn scope<'s>(&'s self) -> (scope: &'s Scope<'a>) where 'a: 's {
        &self.scope
    }

    fn scope_mut(&mut self) -> (scope: &mut Scope<'a>) {
        &mut self.scope
    }
}

impl<'a> Context<'a> for CallContext<'a> {

}

/// A `CallContext` whose `this` binding is an object.
pub type FunctionContext<'a> = CallContext<'a>;

/// A `CallContext` of a method of a class.
pub type MethodContext<'a> = CallContext<'a>;

/// A view of the VM in the context of a task completion callback. The
/// host enters and exits the rooting region around the callback, so this
/// context attaches to the region that is entered.
pub struct TaskContext<'a> {
    pub scope: Scope<'a>,
}

impl<'a> TaskContext<'a> {
    /// Runs `f` in a context that attaches to the region that the host has
    /// entered. The region stays entered when `f` is done.
    pub fn with<T, F: for <'b>FnOnce(TaskContext<'b>) -> T>(isolate: &mut Isolate, f: F) -> (r: T)
        requires
            old(isolate)@.wf(),
            old(isolate)@.stack.len() > 0,
            forall|c: TaskContext| #[trigger]
                c.scope.opened(old(isolate)@, Root::InheritedHandleScope) ==> call_requires(
                    f,
                    (c,),
                ),
            forall|c: TaskContext, t: T| #[trigger]
                call_ensures(f, (c,), t) ==> (*c.scope.isolate)@.settled(
                    (*final(c.scope.isolate))@,
                ),
        ensures
            exists|c: TaskContext| #[trigger]
                c.scope.opened(old(isolate)@, Root::InheritedHandleScope) && call_ensures(
                    f,
                    (c,),
                    r,
                ) && final(isolate)@ == (*final(c.scope.isolate))@,
            old(isolate)@.settled(final(isolate)@),
    {
        let run = |scope: Scope| -> (t: T)
            requires
                call_requires(f, ((TaskContext { scope }),)),
            ensures
                call_ensures(f, ((TaskContext { scope }),), t),
            {
                f(TaskContext { scope })
            };
        assert forall|c: Scope| #[trigger]
            c.opened(isolate@, Root::InheritedHandleScope) implies call_requires(run, (c,)) by {
            let cx = TaskContext { scope: c };
            assert(cx.scope.opened(isolate@, Root::InheritedHandleScope));
        }
        let result = Scope::with(isolate, Root::InheritedHandleScope, run);
        proof {
            let c = choose|c: Scope| #[trigger]
                c.opened(old(isolate)@, Root::InheritedHandleScope) && call_ensures(
                    run,
                    (c,),
                    result,
                ) && isolate@ == Root::InheritedHandleScope.exit((*final(c.isolate))@);
            let cx = TaskContext { scope: c };
            assert(cx.scope.opened(old(isolate)@, Root::InheritedHandleScope));
        }
        result
    }
}

impl<'a> ContextInternal<'a> for TaskContext<'a> {
    open spec fn scope_view(&self) -> Scope<'a> {
        self.scope
    }

    open spec fn with_scope(self, scope: Scope<'a>) -> Self {
        TaskContext { scope }
    }

    proof fn lemma_with_scope(self, first: Scope<'a>, second: Scope<'a>) {
    }

    proof fn lemma_same_scope(self) {
    }

    fn scope<'s>(&'s self) -> (scope: &'s Scope<'a>) where 'a: 's {
        &self.scope
    }

    fn scope_mut(&mut self) -> (scope: &mut Scope<'a>) {
        &mut self.scope
    }
}

impl<'a> Context<'a> for TaskContext<'a> {

}

/// An extension of results that can be turned into a `JsResult` by
/// throwing an exception in the error case.
pub trait JsResultExt {
    fn unwrap_or_throw<'b, C: Context<'b>>(self, cx: &mut C) -> JsResult
        requires
            old(cx).scope_view().metadata.active,
    ;
}

impl JsResultExt for Result<Handle, DowncastError> {
    /// Hands a handle on. A failed downcast becomes a type error that the
    /// VM throws, with the description of the failure as its message.
    fn unwrap_or_throw<'b, C: Context<'b>>(self, cx: &mut C) -> (r: JsResult)
        ensures
            old(cx).scope_view().kept(final(cx).scope_view()),
            *final(final(cx).scope_view().isolate) == *final(old(cx).scope_view().isolate),
            *final(cx) == old(cx).with_scope(final(cx).scope_view()),
            match self {
                Ok(v) => r == Ok::<Handle, Throw>(v) && (*final(cx).scope_view().isolate)@
                    == (*old(cx).scope_view().isolate)@,
                Err(e) => r is Err && (*final(cx).scope_view().isolate)@
                    == (*old(cx).scope_view().isolate)@.throw(
                    ErrorKind::TypeError,
                    e@.description,
                ),
            },
    {
        match self {
            Ok(v) => {
                proof {
                    cx.lemma_same_scope();
                }
                Ok(v)
            },
            Err(e) => cx.throw(ErrorKind::TypeError, e.description()),
        }
    }
}

} // verus!
