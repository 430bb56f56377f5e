//! Handles to values that the host's garbage collector owns.
use vstd::prelude::*;
use vstd::string::*;

verus! {

/// What the host's type tests report of a live value.
#[derive(Clone, Copy, Debug, PartialEq, Eq, Structural, Hash)]
pub enum Tag {
    Undefined,
    Null,
    Boolean,
    Number,
    /// A string.
    Text,
    /// An object that is none of the kinds of object below.
    Object,
    Array,
    Function,
    ArrayBuffer,
    Buffer,
}

impl Tag {
    /// The host's object test: true of every value that is not a primitive.
    pub open spec fn is_object(self) -> bool {
        self == Tag::Object || self == Tag::Array || self == Tag::Function
            || self == Tag::ArrayBuffer || self == Tag::Buffer
    }
}

/// The static kind under which native code holds a value.
#[derive(Clone, Copy, Debug, PartialEq, Eq, Structural, Hash)]
pub enum Kind {
    JsValue,
    JsUndefined,
    JsNull,
    JsBoolean,
    JsNumber,
    JsString,
    JsObject,
    JsArray,
    JsFunction,
    JsArrayBuffer,
    JsBuffer,
}

impl Kind {
    /// The runtime type test of this kind against a live value's tag.
    pub open spec fn admits(self, tag: Tag) -> bool {
        match self {
            Kind::JsValue => true,
            Kind::JsUndefined => tag == Tag::Undefined,
            Kind::JsNull => tag == Tag::Null,
            Kind::JsBoolean => tag == Tag::Boolean,
            Kind::JsNumber => tag == Tag::Number,
            Kind::JsString => tag == Tag::Text,
            Kind::JsObject => tag.is_object(),
            Kind::JsArray => tag == Tag::Array,
            Kind::JsFunction => tag == Tag::Function,
            Kind::JsArrayBuffer => tag == Tag::ArrayBuffer,
            Kind::JsBuffer => tag == Tag::Buffer,
        }
    }

    /// Whether values of this kind are objects.
    pub open spec fn is_object_kind(self) -> bool {
        self == Kind::JsObject || self == Kind::JsArray || self == Kind::JsFunction
            || self == Kind::JsArrayBuffer || self == Kind::JsBuffer
    }

    /// The declared supertype relation: `JsValue` is above every kind, and
    /// `JsObject` above every kind of object.
    pub open spec fn is_supertype_of(self, sub: Kind) -> bool {
        self == Kind::JsValue || (self == Kind::JsObject && sub.is_object_kind())
    }

    /// Whether a value of this kind has backing memory that can be borrowed.
    pub open spec fn is_binary(self) -> bool {
        self == Kind::JsArrayBuffer || self == Kind::JsBuffer
    }

    /// The name of this kind, as diagnostics show it.
    pub open spec fn name_spec(self) -> Seq<char> {
        match self {
            Kind::JsValue => "any"@,
            Kind::JsUndefined => "undefined"@,
            Kind::JsNull => "null"@,
            Kind::JsBoolean => "boolean"@,
            Kind::JsNumber => "number"@,
            Kind::JsString => "string"@,
            Kind::JsObject => "object"@,
            Kind::JsArray => "Array"@,
            Kind::JsFunction => "function"@,
            Kind::JsArrayBuffer => "ArrayBuffer"@,
            Kind::JsBuffer => "Buffer"@,
        }
    }

    pub fn name(self) -> (s: String)
        ensures
            s@ == self.name_spec(),
    {
        match self {
            Kind::JsValue => String::from_str("any"),
            Kind::JsUndefined => String::from_str("undefined"),
            Kind::JsNull => String::from_str("null"),
            Kind::JsBoolean => String::from_str("boolean"),
            Kind::JsNumber => String::from_str("number"),
            Kind::JsString => String::from_str("string"),
            Kind::JsObject => String::from_str("object"),
            Kind::JsArray => String::from_str("Array"),
            Kind::JsFunction => String::from_str("function"),
            Kind::JsArrayBuffer => String::from_str("ArrayBuffer"),
            Kind::JsBuffer => String::from_str("Buffer"),
        }
    }

    /// Runs this kind's type test on a tag.
    pub fn is_typeof(self, tag: Tag) -> (b: bool)
        ensures
            b == self.admits(tag),
    {
        match self {
            Kind::JsValue => true,
            Kind::JsUndefined => tag == Tag::Undefined,
            Kind::JsNull => tag == Tag::Null,
            Kind::JsBoolean => tag == Tag::Boolean,
            Kind::JsNumber => tag == Tag::Number,
            Kind::JsString => tag == Tag::Text,
            Kind::JsObject => tag == Tag::Object || tag == Tag::Array || tag == Tag::Function
                || tag == Tag::ArrayBuffer || tag == Tag::Buffer,
            Kind::JsArray => tag == Tag::Array,
            Kind::JsFunction => tag == Tag::Function,
            Kind::JsArrayBuffer => tag == Tag::ArrayBuffer,
            Kind::JsBuffer => tag == Tag::Buffer,
        }
    }

    /// Whether a value of this kind has backing memory that can be borrowed.
    pub fn has_memory(self) -> (b: bool)
        ensures
            b == self.is_binary(),
    {
        match self {
            Kind::JsArrayBuffer => true,
            Kind::JsBuffer => true,
            _ => false,
        }
    }

    /// Decides the declared supertype relation.
    pub fn is_supertype(self, sub: Kind) -> (b: bool)
        ensures
            b == self.is_supertype_of(sub),
    {
        match self {
            Kind::JsValue => true,
            Kind::JsObject => sub == Kind::JsObject || sub == Kind::JsArray || sub
                == Kind::JsFunction || sub == Kind::JsArrayBuffer || sub == Kind::JsBuffer,
            _ => false,
        }
    }
}

/// A supertype passes every type test that its subtype passes.
pub proof fn lemma_supertype_admits(sup: Kind, sub: Kind, tag: Tag)
    requires
        sup.is_supertype_of(sub),
        sub.admits(tag),
    ensures
        sup.admits(tag),
{
}

/// A raw reference to a value in a rooting region of the host: the value's
/// identity and what the host's type tests say of it.
#[derive(Clone, Copy, Debug, PartialEq, Eq, Structural)]
pub struct Local {
    pub id: u64,
    pub tag: Tag,
}

/// What a handle is: the value, the kind it is held under, and the serial
/// of the scope that roots it.
pub struct HandleView {
    pub value: Local,
    pub kind: Kind,
    pub scope: u64,
}

impl HandleView {
    /// The value passes the type test of the kind it is held under.
    pub open spec fn wf(self) -> bool {
        self.kind.admits(self.value.tag)
    }

    pub open spec fn upcast(self, kind: Kind) -> HandleView {
        HandleView { value: self.value, kind, scope: self.scope }
    }

    pub open spec fn is_a(self, kind: Kind) -> bool {
        kind.admits(self.value.tag)
    }

    /// The handle that a downcast to `kind` gives, where the type test passes.
    pub open spec fn downcast(self, kind: Kind) -> Option<HandleView> {
        if self.is_a(kind) {
            Some(HandleView { value: self.value, kind, scope: self.scope })
        } else {
            None
        }
    }

    /// Equality of handles is identity of the values in the host.
    pub open spec fn same(self, other: HandleView) -> bool {
        self.value.id == other.value.id
    }
}

/// A copyable reference to a rooted value, bound to the scope that roots it.
#[derive(Clone, Copy, Debug)]
pub struct Handle {
    value: Local,
    kind: Kind,
    scope: u64,
}

impl View for Handle {
    type V = HandleView;

    closed spec fn view(&self) -> HandleView {
        HandleView { value: self.value, kind: self.kind, scope: self.scope }
    }
}

impl Handle {
    #[verifier::type_invariant]
    spec fn inv(self) -> bool {
        self.kind.admits(self.value.tag)
    }

    /// Wraps a raw reference that the scope `scope` roots.
    pub(crate) fn new_internal(value: Local, kind: Kind, scope: u64) -> (h: Handle)
        requires
            kind.admits(value.tag),
        ensures
            h@ == (HandleView { value, kind, scope }),
    {
        Handle { value, kind, scope }
    }

    /// Wraps a raw reference if it passes the type test of `kind`.
    pub fn new(value: Local, kind: Kind, scope: u64) -> (r: Option<Handle>)
        ensures
            r.is_some() == kind.admits(value.tag),
            r.is_some() ==> r.unwrap()@ == (HandleView { value, kind, scope }),
    {
        if kind.is_typeof(value.tag) {
            Some(Handle { value, kind, scope })
        } else {
            None
        }
    }

    /// The raw reference. Every handle holds a value of its kind.
    pub fn to_raw(&self) -> (l: Local)
        ensures
            l == self@.value,
            self@.wf(),
    {
        proof {
            use_type_invariant(self);
        }
        self.value
    }

    pub fn kind(&self) -> (k: Kind)
        ensures
            k == self@.kind,
            self@.wf(),
    {
        proof {
            use_type_invariant(self);
        }
        self.kind
    }

    /// The serial of the scope that roots the value.
    pub fn scope(&self) -> (s: u64)
        ensures
            s == self@.scope,
    {
        self.scope
    }

    /// Safely upcast a handle to a supertype. This only copies the handle.
    pub fn upcast(&self, kind: Kind) -> (h: Handle)
        requires
            kind.is_supertype_of(self@.kind),
        ensures
            h@ == self@.upcast(kind),
    {
        proof {
            use_type_invariant(self);
            lemma_supertype_admits(kind, self.kind, self.value.tag);
        }
        Handle { value: self.value, kind, scope: self.scope }
    }

    /// Tests whether this value is an instance of the given kind.
    pub fn is_a(&self, kind: Kind) -> (b: bool)
        ensures
            b == self@.is_a(kind),
    {
        kind.is_typeof(self.value.tag)
    }

    /// Attempts to downcast a handle to another kind, which may fail.
    pub fn downcast(&self, kind: Kind) -> (r: Result<Handle, DowncastError>)
        ensures
            match r {
                Ok(h) => self@.downcast(kind) == Some(h@),
                Err(e) => self@.downcast(kind).is_none() && e@ == DowncastErrorView::failed(
                    self@.kind,
                    kind,
                ),
            },
    {
        if kind.is_typeof(self.value.tag) {
            Ok(Handle { value: self.value, kind, scope: self.scope })
        } else {
            Err(DowncastError::new(self.kind, kind))
        }
    }
}

impl PartialEq for Handle {
    fn eq(&self, other: &Self) -> (b: bool) {
        self.value.id == other.value.id
    }
}

impl Eq for Handle {

}

impl vstd::std_specs::cmp::PartialEqSpecImpl for Handle {
    open spec fn obeys_eq_spec() -> bool {
        true
    }

    open spec fn eq_spec(&self, other: &Self) -> bool {
        self@.same(other@)
    }
}

/// What a failed downcast records.
pub struct DowncastErrorView {
    pub from: Kind,
    pub to: Kind,
    pub description: Seq<char>,
}

impl DowncastErrorView {
    /// The error of a failed downcast from `from` to `to`.
    pub open spec fn failed(from: Kind, to: Kind) -> DowncastErrorView {
        DowncastErrorView { from, to, description: "failed downcast to "@ + to.name_spec() }
    }
}

/// An error representing a failed downcast.
#[derive(Clone, Debug, PartialEq, Eq)]
pub struct DowncastError {
    from: Kind,
    to: Kind,
    description: String,
}

impl View for DowncastError {
    type V = DowncastErrorView;

    closed spec fn view(&self) -> DowncastErrorView {
        DowncastErrorView { from: self.from, to: self.to, description: self.description@ }
    }
}

impl DowncastError {
    pub fn new(from: Kind, to: Kind) -> (e: DowncastError)
        ensures
            e@ == DowncastErrorView::failed(from, to),
    {
        let name = to.name();
        let description = String::from_str("failed downcast to ").concat(name.as_str());
        DowncastError { from, to, description }
    }

    /// The kind the handle was held under.
    pub fn from(&self) -> (k: Kind)
        ensures
            k == self@.from,
    {
        self.from
    }

    /// The kind the downcast asked for.
    pub fn to(&self) -> (k: Kind)
        ensures
            k == self@.to,
    {
        self.to
    }

    pub fn description(&self) -> (s: &str)
        ensures
            s@ == self@.description,
    {
        self.description.as_str()
    }
}

/// The result of a call to `Handle::downcast()`.
pub type DowncastResult = Result<Handle, DowncastError>;

/// Upcast then downcast round-trips: a handle upcast to a supertype of its
/// kind downcasts to its own kind again, and to the handle it was.
pub proof fn lemma_upcast_downcast_roundtrip(h: HandleView, sup: Kind)
    requires
        h.wf(),
        sup.is_supertype_of(h.kind),
    ensures
        h.upcast(sup).wf(),
        h.upcast(sup).downcast(h.kind) == Some(h),
        h.upcast(sup).same(h),
{
}

/// A downcast succeeds exactly when the type test passes, keeps the value
/// and its scope, and otherwise names the kind that was asked for.
pub proof fn lemma_downcast_iff_type_test(h: HandleView, kind: Kind)
    ensures
        h.downcast(kind).is_some() <==> kind.admits(h.value.tag),
        h.downcast(kind).is_some() ==> h.downcast(kind).unwrap().wf() && h.downcast(
            kind,
        ).unwrap().value == h.value && h.downcast(kind).unwrap().scope == h.scope,
        DowncastErrorView::failed(h.kind, kind).description.subrange(
            "failed downcast to "@.len() as int,
            DowncastErrorView::failed(h.kind, kind).description.len() as int,
        ) == kind.name_spec(),
{
}

} // verus!
