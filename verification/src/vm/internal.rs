//! The machinery under the contexts: the borrow ledger, the VM instance with
//! its rooting regions, and scopes.
use crate::mem::{Handle, Kind, Local};
use crate::vm::{ClassMap, ClassMetadata, ErrorKind, ModuleContext, Throw, VmResult};
use std::collections::HashSet;
use vstd::prelude::*;
use vstd::string::*;

verus! {

broadcast use vstd::std_specs::hash::group_hash_axioms;

/// Why a claim on buffer memory was refused.
#[derive(Clone, Copy, Debug, PartialEq, Eq, Structural)]
pub enum LoanError {
    /// The address is already claimed exclusively.
    Mutating(usize),
    /// The address is already claimed as shared.
    Frozen(usize),
}

/// The outstanding claims of one ledger: the addresses claimed as shared
/// and those claimed exclusively.
pub struct LedgerView {
    pub shared: Set<usize>,
    pub exclusive: Set<usize>,
}

impl LedgerView {
    pub open spec fn empty() -> LedgerView {
        LedgerView { shared: Set::empty(), exclusive: Set::empty() }
    }

    /// No address is claimed both ways at once.
    pub open spec fn wf(self) -> bool {
        self.shared.disjoint(self.exclusive)
    }

    /// Whether a shared claim on `p` is refused, and why.
    pub open spec fn shared_refusal(self, p: usize) -> Option<LoanError> {
        if self.exclusive.contains(p) {
            Some(LoanError::Mutating(p))
        } else {
            None
        }
    }

    /// Whether an exclusive claim on `p` is refused, and why.
    pub open spec fn exclusive_refusal(self, p: usize) -> Option<LoanError> {
        if self.exclusive.contains(p) {
            Some(LoanError::Mutating(p))
        } else if self.shared.contains(p) {
            Some(LoanError::Frozen(p))
        } else {
            None
        }
    }

    /// The ledger after a shared claim on `p` was asked for.
    pub open spec fn try_borrow(self, p: usize) -> LedgerView {
        if self.shared_refusal(p).is_some() {
            self
        } else {
            LedgerView { shared: self.shared.insert(p), exclusive: self.exclusive }
        }
    }

    /// The ledger after the shared claim on `p` was released.
    pub open spec fn settle(self, p: usize) -> LedgerView {
        LedgerView { shared: self.shared.remove(p), exclusive: self.exclusive }
    }

    /// The ledger after an exclusive claim on `p` was asked for.
    pub open spec fn try_borrow_mut(self, p: usize) -> LedgerView {
        if self.exclusive_refusal(p).is_some() {
            self
        } else {
            LedgerView { shared: self.shared, exclusive: self.exclusive.insert(p) }
        }
    }

    /// The ledger after the exclusive claim on `p` was released.
    pub open spec fn settle_mut(self, p: usize) -> LedgerView {
        LedgerView { shared: self.shared, exclusive: self.exclusive.remove(p) }
    }
}

/// The record of the claims on buffer memory that are outstanding under
/// one lock of the VM.
pub struct Ledger {
    immutable_loans: HashSet<usize>,
    mutable_loans: HashSet<usize>,
}

impl View for Ledger {
    type V = LedgerView;

    closed spec fn view(&self) -> LedgerView {
        LedgerView { shared: self.immutable_loans@, exclusive: self.mutable_loans@ }
    }
}

impl Ledger {
    pub fn new() -> (l: Ledger)
        ensures
            l@ == LedgerView::empty(),
    {
        Ledger { immutable_loans: HashSet::new(), mutable_loans: HashSet::new() }
    }

    /// Asks for a shared claim on the address `p`.
    pub fn try_borrow(&mut self, p: usize) -> (r: Result<(), LoanError>)
        ensures
            old(self)@.wf() ==> final(self)@.wf(),
            final(self)@ == old(self)@.try_borrow(p),
            match r {
                Ok(_) => old(self)@.shared_refusal(p).is_none(),
                Err(e) => old(self)@.shared_refusal(p) == Some(e),
            },
    {
        if self.mutable_loans.contains(&p) {
            return Err(LoanError::Mutating(p));
        }
        self.immutable_loans.insert(p);
        Ok(())
    }

    /// Releases the shared claim on the address `p`, if there is one.
    pub fn settle(&mut self, p: usize)
        ensures
            old(self)@.wf() ==> final(self)@.wf(),
            final(self)@ == old(self)@.settle(p),
    {
        self.immutable_loans.remove(&p);
    }

    /// Asks for an exclusive claim on the address `p`.
    pub fn try_borrow_mut(&mut self, p: usize) -> (r: Result<(), LoanError>)
        ensures
            old(self)@.wf() ==> final(self)@.wf(),
            final(self)@ == old(self)@.try_borrow_mut(p),
            match r {
                Ok(_) => old(self)@.exclusive_refusal(p).is_none(),
                Err(e) => old(self)@.exclusive_refusal(p) == Some(e),
            },
    {
        if self.mutable_loans.contains(&p) {
            return Err(LoanError::Mutating(p));
        } else if self.immutable_loans.contains(&p) {
            return Err(LoanError::Frozen(p));
        }
        self.mutable_loans.insert(p);
        Ok(())
    }

    /// Releases the exclusive claim on the address `p`, if there is one.
    pub fn settle_mut(&mut self, p: usize)
        ensures
            old(self)@.wf() ==> final(self)@.wf(),
            final(self)@ == old(self)@.settle_mut(p),
    {
        self.mutable_loans.remove(&p);
    }
}

/// Every operation of the ledger keeps it well formed.
pub proof fn lemma_ledger_wf(l: LedgerView, p: usize)
    requires
        l.wf(),
    ensures
        LedgerView::empty().wf(),
        l.try_borrow(p).wf(),
        l.settle(p).wf(),
        l.try_borrow_mut(p).wf(),
        l.settle_mut(p).wf(),
{
}

/// Shared claims on one address coexist: after one is granted, a second
/// one is granted too, and the ledger records the address once.
pub proof fn lemma_shared_claims_coexist(l: LedgerView, p: usize)
    requires
        l.shared_refusal(p).is_none(),
    ensures
        l.try_borrow(p).shared_refusal(p).is_none(),
        l.try_borrow(p).try_borrow(p) == l.try_borrow(p),
        l.try_borrow(p).shared.contains(p),
{
    assert(l.shared.insert(p).insert(p) =~= l.shared.insert(p));
}

/// A shared claim on an address blocks an exclusive claim on it.
pub proof fn lemma_shared_blocks_exclusive(l: LedgerView, p: usize)
    requires
        l.shared_refusal(p).is_none(),
    ensures
        l.try_borrow(p).exclusive_refusal(p) == Some(LoanError::Frozen(p)),
        l.try_borrow(p).try_borrow_mut(p) == l.try_borrow(p),
{
}

/// An exclusive claim on an address blocks every further claim on it.
pub proof fn lemma_exclusive_blocks_all(l: LedgerView, p: usize)
    requires
        l.exclusive_refusal(p).is_none(),
    ensures
        l.try_borrow_mut(p).shared_refusal(p) == Some(LoanError::Mutating(p)),
        l.try_borrow_mut(p).exclusive_refusal(p) == Some(LoanError::Mutating(p)),
        l.try_borrow_mut(p).try_borrow(p) == l.try_borrow_mut(p),
        l.try_borrow_mut(p).try_borrow_mut(p) == l.try_borrow_mut(p),
{
}

/// Releasing a claim that is not held changes nothing.
pub proof fn lemma_release_absent(l: LedgerView, p: usize)
    ensures
        !l.shared.contains(p) ==> l.settle(p) == l,
        !l.exclusive.contains(p) ==> l.settle_mut(p) == l,
        l.settle(p).settle(p) == l.settle(p),
        l.settle_mut(p).settle_mut(p) == l.settle_mut(p),
{
    if !l.shared.contains(p) {
        assert(l.shared.remove(p) =~= l.shared);
    }
    if !l.exclusive.contains(p) {
        assert(l.exclusive.remove(p) =~= l.exclusive);
    }
    assert(l.shared.remove(p).remove(p) =~= l.shared.remove(p));
    assert(l.exclusive.remove(p).remove(p) =~= l.exclusive.remove(p));
}

/// After a claim is released, the claims that it blocked are granted
/// again. A claim on another address is neither blocked nor released.
pub proof fn lemma_release_unblocks(l: LedgerView, p: usize, q: usize)
    requires
        l.wf(),
    ensures
        l.shared.contains(p) ==> l.settle(p).exclusive_refusal(p).is_none(),
        l.exclusive.contains(p) ==> l.settle_mut(p).shared_refusal(p).is_none()
            && l.settle_mut(p).exclusive_refusal(p).is_none(),
        q != p ==> l.settle(p).exclusive_refusal(q) == l.exclusive_refusal(q)
            && l.settle_mut(p).shared_refusal(q) == l.shared_refusal(q),
{
}

/// One rooting region on the stack of a VM instance.
#[derive(Clone, Copy, Debug, PartialEq, Eq, Structural)]
pub struct Frame {
    /// What identifies the region among all that the instance ever had.
    pub serial: u64,
    /// Whether a value may be promoted from it into the region below.
    pub escapable: bool,
}

/// An exception that native code has asked the VM to throw.
pub struct ExceptionView {
    pub kind: ErrorKind,
    pub message: Seq<char>,
}

/// An exception that native code has asked the VM to throw.
#[derive(Debug)]
pub struct Exception {
    pub kind: ErrorKind,
    pub message: String,
}

impl View for Exception {
    type V = ExceptionView;

    open spec fn view(&self) -> ExceptionView {
        ExceptionView { kind: self.kind, message: self.message@ }
    }
}

/// A property that native code has set on an object of the host.
pub struct PropertyView {
    pub object: u64,
    pub key: Seq<char>,
    pub value: Local,
}

/// A property that native code has set on an object of the host.
#[derive(Debug)]
pub struct Property {
    /// The identity of the object.
    pub object: u64,
    pub key: String,
    pub value: Local,
}

impl DeepView for Property {
    type V = PropertyView;

    open spec fn deep_view(&self) -> PropertyView {
        PropertyView { object: self.object, key: self.key@, value: self.value }
    }
}

/// The size that native code reserves for a rooting region.
pub const HANDLE_SCOPE_SIZE: usize = 24;

/// The alignment that native code reserves for a rooting region.
pub const HANDLE_SCOPE_ALIGNMENT: usize = 8;

/// The room that a rooting region takes in memory.
#[derive(Clone, Copy, Debug, PartialEq, Eq, Structural)]
pub struct Layout {
    pub size: usize,
    pub alignment: usize,
}

impl Layout {
    /// Whether a region of this layout has room in what native code
    /// reserves for it. Where it has not, the host is of an incompatible
    /// version.
    pub open spec fn fits(self) -> bool {
        self.size <= HANDLE_SCOPE_SIZE && self.alignment <= HANDLE_SCOPE_ALIGNMENT
    }
}

/// The state of one VM instance, as far as native code depends on it.
pub struct IsolateView {
    pub id: u64,
    /// The identity of the global object.
    pub global: u64,
    /// What the host reports of the size and alignment of its rooting
    /// regions.
    pub layout: Layout,
    /// The rooting regions that are entered, the innermost last.
    pub stack: Seq<Frame>,
    /// The serial that the next region gets.
    pub next_serial: u64,
    /// The exception that is pending, if the VM is in a throwing state.
    pub pending: Option<ExceptionView>,
    /// The class registry, once it was first used.
    pub classes: Option<Map<u64, ClassMetadata>>,
    /// The properties that native code has set, in the order of the calls.
    pub properties: Seq<PropertyView>,
}

impl IsolateView {
    /// Regions are numbered in the order in which they were entered, and
    /// no serial is given out twice.
    pub open spec fn wf(self) -> bool {
        &&& forall|i: int, j: int|
            0 <= i < j < self.stack.len() ==> self.stack[i].serial < self.stack[j].serial
        &&& forall|i: int|
            0 <= i < self.stack.len() ==> (#[trigger] self.stack[i]).serial < self.next_serial
    }

    /// Whether the region with this serial is entered: a handle is valid
    /// exactly while the region that roots it is live.
    pub open spec fn is_live(self, serial: u64) -> bool {
        exists|i: int| 0 <= i < self.stack.len() && (#[trigger] self.stack[i]).serial == serial
    }

    /// Whether another region can be numbered.
    pub open spec fn can_enter(self) -> bool {
        self.next_serial < u64::MAX
    }

    /// The state after a fresh region was entered.
    pub open spec fn enter(self, escapable: bool) -> IsolateView {
        IsolateView {
            stack: self.stack.push(Frame { serial: self.next_serial, escapable }),
            next_serial: (self.next_serial + 1) as u64,
            ..self
        }
    }

    /// The state after the innermost region was exited.
    pub open spec fn exit(self) -> IsolateView {
        IsolateView { stack: self.stack.drop_last(), ..self }
    }

    /// How many of the entered regions, counted from the outermost, were
    /// entered no later than the region with the serial `serial`.
    pub open spec fn depth_of(self, serial: u64) -> nat
        decreases self.stack.len(),
    {
        if self.stack.len() == 0 {
            0
        } else if self.stack.last().serial <= serial {
            self.stack.len()
        } else {
            self.exit().depth_of(serial)
        }
    }

    /// The state after every region that was entered later than the region
    /// with the serial `serial` was exited.
    pub open spec fn unwind_to(self, serial: u64) -> IsolateView {
        IsolateView { stack: self.stack.take(self.depth_of(serial) as int), ..self }
    }

    /// The state after native code asked for an exception.
    pub open spec fn throw(self, kind: ErrorKind, message: Seq<char>) -> IsolateView {
        IsolateView { pending: Some(ExceptionView { kind, message }), ..self }
    }

    /// The state after native code set a property of an object.
    pub open spec fn set_property(self, object: u64, key: Seq<char>, value: Local) -> IsolateView {
        IsolateView {
            properties: self.properties.push(PropertyView { object, key, value }),
            ..self
        }
    }

    /// The registry, which is empty until something is registered.
    pub open spec fn registry(self) -> Map<u64, ClassMetadata> {
        match self.classes {
            Some(m) => m,
            None => Map::empty(),
        }
    }

    /// What a lookup of the native type `key` in the registry gives.
    pub open spec fn class(self, key: u64) -> Option<ClassMetadata> {
        if self.registry().contains_key(key) {
            Some(self.registry()[key])
        } else {
            None
        }
    }

    /// The state after `metadata` was registered for the native type `key`.
    pub open spec fn register(self, key: u64, metadata: ClassMetadata) -> IsolateView {
        IsolateView { classes: Some(self.registry().insert(key, metadata)), ..self }
    }

    /// What a computation that ran inside a region of `self` may leave
    /// behind: the same instance with the same regions entered. It may have
    /// numbered further regions, thrown, and registered classes.
    pub open spec fn settled(self, after: IsolateView) -> bool {
        &&& after.wf()
        &&& after.id == self.id
        &&& after.global == self.global
        &&& after.layout == self.layout
        &&& after.stack == self.stack
        &&& after.next_serial >= self.next_serial
    }
}

/// One instance of the host VM: its identity, its rooting regions, the
/// exception it is throwing, and its class registry.
pub struct Isolate {
    id: u64,
    global: u64,
    layout: Layout,
    stack: Vec<Frame>,
    next_serial: u64,
    pending: Option<Exception>,
    class_map: Option<ClassMap>,
    properties: Vec<Property>,
}

impl View for Isolate {
    type V = IsolateView;

    closed spec fn view(&self) -> IsolateView {
        IsolateView {
            id: self.id,
            global: self.global,
            layout: self.layout,
            stack: self.stack@,
            next_serial: self.next_serial,
            pending: match self.pending {
                Some(e) => Some(e@),
                None => None,
            },
            classes: match self.class_map {
                Some(m) => Some(m@),
                None => None,
            },
            properties: self.properties.deep_view(),
        }
    }
}

impl Isolate {
    /// An instance with no region entered, nothing thrown and no registry.
    /// `layout` is what the host reports of its rooting regions.
    pub fn new(id: u64, global: u64, layout: Layout) -> (isolate: Isolate)
        ensures
            isolate@ == (IsolateView {
                id,
                global,
                layout,
                stack: Seq::empty(),
                next_serial: 0,
                pending: None,
                classes: None,
                properties: Seq::empty(),
            }),
            isolate@.wf(),
    {
        let isolate = Isolate {
            id,
            global,
            layout,
            stack: Vec::new(),
            next_serial: 0,
            pending: None,
            class_map: None,
            properties: Vec::new(),
        };
        assert(isolate.properties.deep_view() =~= Seq::empty());
        isolate
    }

    /// The identity of the instance.
    pub fn to_raw(&self) -> (id: u64)
        ensures
            id == self@.id,
    {
        self.id
    }

    /// The identity of the global object.
    pub fn global(&self) -> (id: u64)
        ensures
            id == self@.global,
    {
        self.global
    }

    /// What the host reports of the size and alignment of its rooting
    /// regions.
    pub fn layout(&self) -> (layout: Layout)
        ensures
            layout == self@.layout,
    {
        self.layout
    }

    /// Whether the rooting regions of the host have room in what native
    /// code reserves for them. Where they have not, no module may be
    /// initialized.
    pub fn is_compatible(&self) -> (b: bool)
        ensures
            b == self@.layout.fits(),
    {
        self.layout.size <= HANDLE_SCOPE_SIZE && self.layout.alignment <= HANDLE_SCOPE_ALIGNMENT
    }

    /// The class registry of this instance, which is made on first use.
    pub fn class_map(&mut self) -> (map: &mut ClassMap)
        ensures
            map@ == old(self)@.registry(),
            final(self)@ == (IsolateView { classes: Some(final(map)@), ..old(self)@ }),
    {
        if self.class_map.is_none() {
            self.class_map = Some(ClassMap::new());
        }
        self.class_map.as_mut().unwrap()
    }

    /// Registers `metadata` for the native type `key` in the registry of
    /// this instance, in place of what was registered for it before.
    pub fn register(&mut self, key: u64, metadata: ClassMetadata)
        ensures
            final(self)@ == old(self)@.register(key, metadata),
    {
        self.class_map().set(key, metadata);
    }

    /// Looks up a class without making the registry.
    pub fn class(&self, key: u64) -> (r: Option<ClassMetadata>)
        ensures
            r == self@.class(key),
    {
        match &self.class_map {
            None => None,
            Some(map) => match map.get(&key) {
                None => None,
                Some(metadata) => Some(*metadata),
            },
        }
    }

    /// Whether another region can be numbered.
    pub fn can_enter(&self) -> (b: bool)
        ensures
            b == self@.can_enter(),
    {
        self.next_serial < u64::MAX
    }

    /// Enters a fresh rooting region and gives its serial.
    pub fn enter(&mut self, escapable: bool) -> (serial: u64)
        requires
            old(self)@.wf(),
            old(self)@.can_enter(),
        ensures
            serial == old(self)@.next_serial,
            final(self)@ == old(self)@.enter(escapable),
            final(self)@.wf(),
    {
        let serial = self.next_serial;
        self.stack.push(Frame { serial, escapable });
        self.next_serial = serial + 1;
        serial
    }

    /// Exits the innermost rooting region.
    pub fn exit(&mut self)
        requires
            old(self)@.wf(),
            old(self)@.stack.len() > 0,
        ensures
            final(self)@ == old(self)@.exit(),
            final(self)@.wf(),
    {
        self.stack.pop();
    }

    /// Exits every region that was entered later than the region with the
    /// serial `serial`. This is how the regions of a computation that was
    /// abandoned are left.
    pub fn unwind_to(&mut self, serial: u64)
        requires
            old(self)@.wf(),
        ensures
            final(self)@ == old(self)@.unwind_to(serial),
            final(self)@.wf(),
    {
        loop
            invariant
                self@.wf(),
                self@.unwind_to(serial) == old(self)@.unwind_to(serial),
            ensures
                self@ == old(self)@.unwind_to(serial),
            decreases self@.stack.len(),
        {
            let n = self.stack.len();
            if n == 0 {
                assert(self@.stack.take(0) =~= self@.stack);
                break ;
            }
            if self.stack[n - 1].serial <= serial {
                assert(self@.stack.take(n as int) =~= self@.stack);
                break ;
            }
            proof {
                lemma_depth_of_bound(self@.exit(), serial);
                assert(self@.exit().stack.take(self@.exit().depth_of(serial) as int)
                    =~= self@.stack.take(self@.depth_of(serial) as int));
            }
            self.exit();
        }
    }

    /// The innermost rooting region, if any is entered.
    pub fn top(&self) -> (r: Option<Frame>)
        ensures
            r.is_some() == (self@.stack.len() > 0),
            r.is_some() ==> r.unwrap() == self@.stack.last(),
    {
        let n = self.stack.len();
        if n == 0 {
            None
        } else {
            Some(self.stack[n - 1])
        }
    }

    /// Whether the region with this serial is entered.
    pub fn is_live(&self, serial: u64) -> (b: bool)
        ensures
            b == self@.is_live(serial),
    {
        let mut i: usize = 0;
        while i < self.stack.len()
            invariant
                i <= self.stack.len(),
                forall|k: int| 0 <= k < i ==> (#[trigger] self.stack@[k]).serial != serial,
            decreases self.stack.len() - i,
        {
            if self.stack[i].serial == serial {
                assert(self@.stack[i as int].serial == serial);
                return true;
            }
            i += 1;
        }
        false
    }

    /// Whether the value of a handle is still rooted, so that it may be
    /// read and written.
    pub fn is_rooted(&self, handle: &Handle) -> (b: bool)
        ensures
            b == self@.is_live(handle@.scope),
    {
        self.is_live(handle.scope())
    }

    /// Sends the VM into a throwing state.
    pub fn throw(&mut self, kind: ErrorKind, message: &str) -> (t: Throw)
        ensures
            final(self)@ == old(self)@.throw(kind, message@),
    {
        self.pending = Some(Exception { kind, message: String::from_str(message) });
        Throw
    }

    /// Sets a property of an object of the host.
    pub fn set_property(&mut self, object: u64, key: &str, value: Local)
        ensures
            final(self)@ == old(self)@.set_property(object, key@, value),
    {
        self.properties.push(Property { object, key: String::from_str(key), value });
        assert(self.properties.deep_view() =~= old(self).properties.deep_view().push(
            PropertyView { object, key: key@, value },
        ));
    }

    /// The properties that native code has set, in the order of the calls.
    pub fn properties(&self) -> (properties: &Vec<Property>)
        ensures
            properties.deep_view() == self@.properties,
    {
        &self.properties
    }

    /// Hands over the properties that native code has set since they were
    /// last handed over, so that they can be set in the host.
    pub fn take_properties(&mut self) -> (properties: Vec<Property>)
        ensures
            properties.deep_view() == old(self)@.properties,
            final(self)@ == (IsolateView { properties: Seq::empty(), ..old(self)@ }),
    {
        let mut properties: Vec<Property> = Vec::new();
        assert(properties.deep_view() =~= Seq::empty());
        core::mem::swap(&mut self.properties, &mut properties);
        properties
    }

    /// Whether the VM is in a throwing state.
    pub fn is_throwing(&self) -> (b: bool)
        ensures
            b == self@.pending.is_some(),
    {
        self.pending.is_some()
    }

    /// Hands the pending exception over, which ends the throwing state:
    /// this is what happens when control returns to the host.
    pub fn take_pending(&mut self) -> (e: Option<Exception>)
        ensures
            final(self)@ == (IsolateView { pending: None, ..old(self)@ }),
            match e {
                Some(x) => old(self)@.pending == Some(x@),
                None => old(self)@.pending.is_none(),
            },
    {
        self.pending.take()
    }
}

/// A scope bounds the lifetime of what it roots. Let a region be entered
/// in the state `before` and exited once the computation in it has left the
/// state `inside`. Then every region that was live before is live after, so
/// a value promoted into the region below stays valid; the region of the
/// scope is not live after, so what was created in it and not promoted is
/// gone.
pub proof fn lemma_scope_bounds_lifetime(before: IsolateView, escapable: bool, inside: IsolateView)
    requires
        before.wf(),
        before.can_enter(),
        before.enter(escapable).settled(inside),
    ensures
        before.enter(escapable).is_live(before.next_serial),
        inside.is_live(before.next_serial),
        inside.exit().wf(),
        inside.exit().stack == before.stack,
        !inside.exit().is_live(before.next_serial),
        forall|serial: u64| before.is_live(serial) <==> inside.exit().is_live(serial),
        before.stack.len() > 0 ==> inside.exit().is_live(before.stack.last().serial),
{
    let entered = before.enter(escapable);
    let n = before.stack.len() as int;
    assert(entered.stack[n].serial == before.next_serial);
    assert(inside.stack[n].serial == before.next_serial);
    assert(inside.exit().stack =~= before.stack);
    if before.stack.len() > 0 {
        assert(before.stack[n - 1] == before.stack.last());
    }
}

/// No more regions are counted than are entered.
pub proof fn lemma_depth_of_bound(state: IsolateView, serial: u64)
    ensures
        state.depth_of(serial) <= state.stack.len(),
    decreases state.stack.len(),
{
    if state.stack.len() > 0 && state.stack.last().serial > serial {
        lemma_depth_of_bound(state.exit(), serial);
    }
}

/// Unwinding to a region that is entered leaves that region the innermost
/// one, and leaves it and every region below it as they were. Unwinding to
/// the innermost region changes nothing.
pub proof fn lemma_unwind_to_live_region(state: IsolateView, i: int)
    requires
        state.wf(),
        0 <= i < state.stack.len(),
    ensures
        state.depth_of(state.stack[i].serial) == i + 1,
        state.unwind_to(state.stack[i].serial).stack == state.stack.take(i + 1),
        state.unwind_to(state.stack[i].serial).stack.last() == state.stack[i],
        state.unwind_to(state.stack[i].serial).wf(),
        state.unwind_to(state.stack.last().serial) == state,
    decreases state.stack.len(),
{
    let serial = state.stack[i].serial;
    if i + 1 < state.stack.len() {
        assert(state.stack[i].serial < state.stack.last().serial);
        let rest = state.exit();
        assert(rest.stack[i] == state.stack[i]);
        lemma_unwind_to_live_region(rest, i);
        assert(rest.stack.take(i + 1) =~= state.stack.take(i + 1));
    }
    assert(state.stack.take(state.stack.len() as int) =~= state.stack);
}

/// The innermost region is live: what a context creates is rooted while
/// its scope is the innermost one.
pub proof fn lemma_innermost_is_live(state: IsolateView)
    requires
        state.stack.len() > 0,
    ensures
        state.is_live(state.stack.last().serial),
{
    assert(state.stack[state.stack.len() - 1] == state.stack.last());
}

/// A serial that was given out is not given out again: while the state
/// stays well formed, a region that is entered later differs from every
/// region that is live now.
pub proof fn lemma_serials_are_fresh(state: IsolateView, escapable: bool, serial: u64)
    requires
        state.wf(),
        state.can_enter(),
        state.is_live(serial),
    ensures
        serial != state.next_serial,
        state.enter(escapable).wf(),
        state.enter(escapable).is_live(serial),
        state.enter(escapable).stack.last().serial == state.next_serial,
{
    let i = choose|i: int|
        0 <= i < state.stack.len() && (#[trigger] state.stack[i]).serial == serial;
    assert(state.enter(escapable).stack[i].serial == serial);
}

/// Registering a class twice keeps what was registered last, and
/// registering a class changes no other entry of the registry, and
/// nothing else of the instance.
pub proof fn lemma_register_overwrites(
    state: IsolateView,
    key: u64,
    first: ClassMetadata,
    second: ClassMetadata,
    other: u64,
)
    ensures
        state.register(key, first).class(key) == Some(first),
        state.register(key, first).register(key, second) == state.register(key, second),
        state.register(key, first).register(key, second).class(key) == Some(second),
        other != key ==> state.register(key, first).class(other) == state.class(other),
        state.register(key, first) == (IsolateView {
            classes: state.register(key, first).classes,
            ..state
        }),
{
    assert(state.registry().insert(key, first).insert(key, second) =~= state.registry().insert(
        key,
        second,
    ));
}

/// The registries of the instances of a host are independent: registering
/// a class in one instance changes no lookup in another.
pub proof fn lemma_registries_are_independent(
    instances: Map<u64, IsolateView>,
    id: u64,
    key: u64,
    metadata: ClassMetadata,
    other: u64,
    other_key: u64,
)
    requires
        instances.contains_key(id),
        instances.contains_key(other),
        other != id,
    ensures
        instances.insert(id, instances[id].register(key, metadata))[id].class(key) == Some(
            metadata,
        ),
        instances.insert(id, instances[id].register(key, metadata))[other] == instances[other],
        instances.insert(id, instances[id].register(key, metadata))[other].class(other_key)
            == instances[other].class(other_key),
{
}

/// How a scope comes by its rooting region.
#[derive(Clone, Copy, Debug, PartialEq, Eq, Structural)]
pub enum Root {
    /// A fresh region, from which nothing escapes.
    HandleScope,
    /// A fresh region, from which one value may be promoted.
    EscapableHandleScope,
    /// The region that the host has entered already.
    InheritedHandleScope,
}

impl Root {
    /// The state in which a scope of this sort starts.
    pub open spec fn enter(self, before: IsolateView) -> IsolateView {
        match self {
            Root::HandleScope => before.enter(false),
            Root::EscapableHandleScope => before.enter(true),
            Root::InheritedHandleScope => before,
        }
    }

    /// The state that a scope of this sort leaves behind when it ends.
    pub open spec fn exit(self, inside: IsolateView) -> IsolateView {
        match self {
            Root::InheritedHandleScope => inside,
            _ => inside.exit(),
        }
    }

    /// Whether a scope of this sort can start in this state.
    pub open spec fn can_enter(self, before: IsolateView) -> bool {
        match self {
            Root::InheritedHandleScope => before.stack.len() > 0,
            _ => before.can_enter(),
        }
    }
}

/// What every scope carries: the VM instance it belongs to, and whether
/// operations through it are allowed at present.
#[derive(Clone, Copy, Debug, PartialEq, Eq, Structural)]
pub struct ScopeMetadata {
    pub isolate: u64,
    pub active: bool,
}

/// A rooting boundary in the VM, with the instance it is entered in.
pub struct Scope<'a> {
    pub metadata: ScopeMetadata,
    /// The serial of the region that roots what is created in this scope.
    pub handle_scope: u64,
    pub root: Root,
    pub isolate: &'a mut Isolate,
}

impl<'a> Scope<'a> {
    /// The scope's region is the innermost one of its instance.
    pub open spec fn wf(&self) -> bool {
        &&& (*self.isolate)@.wf()
        &&& (*self.isolate)@.id == self.metadata.isolate
        &&& (*self.isolate)@.stack.len() > 0
        &&& (*self.isolate)@.stack.last().serial == self.handle_scope
        &&& self.root == Root::EscapableHandleScope ==> (*self.isolate)@.stack.last().escapable
    }

    /// `after` is this scope but for the state of the instance.
    pub open spec fn kept(&self, after: Scope) -> bool {
        &&& after.metadata == self.metadata
        &&& after.handle_scope == self.handle_scope
        &&& after.root == self.root
    }

    /// The scope as it is handed to a computation that starts in the
    /// state `before`.
    pub open spec fn opened(&self, before: IsolateView, root: Root) -> bool {
        &&& self.wf()
        &&& self.metadata == (ScopeMetadata { isolate: before.id, active: true })
        &&& self.root == root
        &&& (*self.isolate)@ == root.enter(before)
        &&& self.handle_scope == root.enter(before).stack.last().serial
    }

    /// Runs `f` in a scope of its own: enters the region, hands the scope
    /// to `f`, and exits the region when `f` is done.
    pub fn with<T, F: for <'b>FnOnce(Scope<'b>) -> T>(isolate: &mut Isolate, root: Root, f: F) -> (r:
        T)
        requires
            old(isolate)@.wf(),
            root.can_enter(old(isolate)@),
            forall|c: Scope| #[trigger] c.opened(old(isolate)@, root) ==> call_requires(f, (c,)),
            forall|c: Scope, t: T| #[trigger]
                call_ensures(f, (c,), t) ==> (*c.isolate)@.settled((*final(c.isolate))@),
        ensures
            exists|c: Scope| #[trigger]
                c.opened(old(isolate)@, root) && call_ensures(f, (c,), r) && final(isolate)@
                    == root.exit((*final(c.isolate))@),
            old(isolate)@.settled(final(isolate)@),
    {
        let handle_scope = match root {
            Root::HandleScope => isolate.enter(false),
            Root::EscapableHandleScope => isolate.enter(true),
            Root::InheritedHandleScope => match isolate.top() {
                Some(frame) => frame.serial,
                None => 0,
            },
        };
        let metadata = ScopeMetadata { isolate: isolate.to_raw(), active: true };
        let scope = Scope { metadata, handle_scope, root, isolate: isolate };
        let ghost c = scope;
        assert(c.opened(old(isolate)@, root));
        let result = f(scope);
        assert(call_ensures(f, (c,), result));
        match root {
            Root::InheritedHandleScope => {},
            _ => {
                isolate.exit();
                assert(isolate@.stack =~= old(isolate)@.stack);
            },
        }
        result
    }
}

/// What every context is made of: a scope, whose metadata fences the
/// context off while a nested one runs.
pub trait ContextInternal<'a>: Sized {
    /// The scope of this context.
    spec fn scope_view(&self) -> Scope<'a>;

    /// This context with `scope` in place of its own scope.
    spec fn with_scope(self, scope: Scope<'a>) -> Self;

    /// Putting a scope in place replaces the one put there before.
    proof fn lemma_with_scope(self, first: Scope<'a>, second: Scope<'a>)
        ensures
            self.with_scope(first).scope_view() == first,
            self.with_scope(first).with_scope(second) == self.with_scope(second),
    ;

    /// Putting its own scope in place leaves a context as it is.
    proof fn lemma_same_scope(self)
        ensures
            self.with_scope(self.scope_view()) == self,
    ;

    fn scope<'s>(&'s self) -> (scope: &'s Scope<'a>) where 'a: 's
        ensures
            *scope == self.scope_view(),
    ;

    fn scope_mut(&mut self) -> (scope: &mut Scope<'a>)
        ensures
            *scope == old(self).scope_view(),
            final(self).scope_view() == *final(scope),
            *final(self) == old(self).with_scope(*final(scope)),
    ;

    fn scope_metadata<'s>(&'s self) -> (metadata: &'s ScopeMetadata) where 'a: 's
        ensures
            *metadata == self.scope_view().metadata,
    {
        &self.scope().metadata
    }

    /// The VM instance that this context works in.
    fn isolate<'s>(&'s self) -> (isolate: &'s Isolate) where 'a: 's
        ensures
            *isolate == *self.scope_view().isolate,
    {
        &*self.scope().isolate
    }

    fn is_active(&self) -> (b: bool)
        ensures
            b == self.scope_view().metadata.active,
    {
        self.scope_metadata().active
    }

    /// States that the context is active. Using an inactive context is a
    /// fatal error of the caller.
    fn check_active(&self)
        requires
            self.scope_view().metadata.active,
    {
    }

    fn activate(&mut self)
        ensures
            final(self).scope_view() == (Scope {
                metadata: ScopeMetadata { active: true, ..old(self).scope_view().metadata },
                ..old(self).scope_view()
            }),
            *final(self) == old(self).with_scope(final(self).scope_view()),
    {
        let scope = self.scope_mut();
        scope.metadata.active = true;
    }

    fn deactivate(&mut self)
        ensures
            final(self).scope_view() == (Scope {
                metadata: ScopeMetadata { active: false, ..old(self).scope_view().metadata },
                ..old(self).scope_view()
            }),
            *final(self) == old(self).with_scope(final(self).scope_view()),
    {
        let scope = self.scope_mut();
        scope.metadata.active = false;
    }

    /// Takes the context up again after a nested computation was
    /// abandoned: exits the regions that the computation left entered, and
    /// activates the context. After a nested computation that returned,
    /// this changes nothing.
    fn recover(&mut self)
        requires
            (*old(self).scope_view().isolate)@.wf(),
        ensures
            final(self).scope_view().metadata == (ScopeMetadata {
                active: true,
                ..old(self).scope_view().metadata
            }),
            final(self).scope_view().handle_scope == old(self).scope_view().handle_scope,
            final(self).scope_view().root == old(self).scope_view().root,
            (*final(self).scope_view().isolate)@ == (*old(self).scope_view().isolate)@.unwind_to(
                old(self).scope_view().handle_scope,
            ),
            (*final(self).scope_view().isolate)@.wf(),
            *final(final(self).scope_view().isolate) == *final(old(self).scope_view().isolate),
            *final(self) == old(self).with_scope(final(self).scope_view()),
    {
        let scope = self.scope_mut();
        let region = scope.handle_scope;
        scope.isolate.unwind_to(region);
        scope.metadata.active = true;
    }
}

/// Runs the initialization of a module in a context of its own, with
/// `exports` as the object that holds what the module exports. What the
/// initialization returns is dropped: where it failed, the VM is throwing.
pub fn initialize_module<F: for <'b>FnOnce(ModuleContext<'b>) -> VmResult<()>>(
    isolate: &mut Isolate,
    exports: Handle,
    init: F,
)
    requires
        old(isolate)@.wf(),
        old(isolate)@.can_enter(),
        old(isolate)@.layout.fits(),
        exports@.kind == Kind::JsObject,
        forall|c: ModuleContext| #[trigger]
            c.opened(old(isolate)@, exports) ==> call_requires(init, (c,)),
        forall|c: ModuleContext, t: VmResult<()>| #[trigger]
            call_ensures(init, (c,), t) ==> (*c.scope.isolate)@.settled(
                (*final(c.scope.isolate))@,
            ),
    ensures
        exists|c: ModuleContext, t: VmResult<()>| #[trigger]
            call_ensures(init, (c,), t) && c.opened(old(isolate)@, exports) && final(isolate)@
                == (*final(c.scope.isolate))@.exit(),
        old(isolate)@.settled(final(isolate)@),
{
    let run = |cx: ModuleContext| -> (u: ())
        requires
            call_requires(init, (cx,)),
        ensures
            exists|t: VmResult<()>| #[trigger] call_ensures(init, (cx,), t),
        {
            let _ = init(cx);
        };
    ModuleContext::with(isolate, exports, run);
}

} // verus!
