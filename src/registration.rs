//! Checking an annotated item and naming what is emitted for it.

use vstd::prelude::*;
use vstd::string::StringExecFns;

verus! {

/// The link section that holds every registration slot. Nothing else in a
/// program may be placed in a section of this name.
pub const CTOR_SECTION: &'static str = "ctors";

/// The prefix of the name of each registration slot.
pub open spec fn slot_prefix() -> Seq<char> {
    seq!['_', 'C', 'T', 'O', 'R', '_']
}

/// The name of the registration slot of the constructor called `name`.
pub open spec fn slot_name_of(name: Seq<char>) -> Seq<char> {
    slot_prefix() + name
}

/// Builds the name of the registration slot of the constructor `name`:
/// the fixed prefix `_CTOR_` followed by the name itself.
pub fn slot_name(name: &str) -> (r: String)
    ensures
        r@ == slot_name_of(name@),
{
    let prefix = "_CTOR_";
    proof {
        reveal_strlit("_CTOR_");
    }
    let r = String::from_str(prefix).concat(name);
    assert(prefix@ =~= slot_prefix());
    r
}

/// Why a function's signature does not fit a constructor.
#[derive(Clone, Copy, Debug, PartialEq, Eq, Structural)]
pub enum SignatureFault {
    /// The function declares a return type other than `()`.
    ReturnsValue,
    /// The function declares parameters.
    TakesArguments,
}

/// Why an annotation is refused. Each one stops the build.
#[derive(Clone, Copy, Debug, PartialEq, Eq, Structural)]
pub enum CtorError {
    /// The annotation was given arguments; it takes none.
    InvalidArgument,
    /// The annotated function takes parameters or returns a value.
    InvalidSignature(SignatureFault),
    /// The annotated item is not a function.
    InvalidTarget,
}

/// The return type a function's signature declares.
#[derive(Clone, Copy, Debug, PartialEq, Eq, Structural)]
pub enum ReturnShape {
    /// No `->` at all.
    Omitted,
    /// A tuple type with this many elements; `-> ()` has none.
    Tuple(usize),
    /// Any other type.
    Other,
}

/// The declared return type is not the unit type.
pub open spec fn returns_value(r: ReturnShape) -> bool {
    match r {
        ReturnShape::Omitted => false,
        ReturnShape::Tuple(n) => n > 0,
        ReturnShape::Other => true,
    }
}

/// What the check reads of an annotated function's signature.
#[derive(Debug)]
pub struct FnShape {
    /// The function's identifier.
    pub name: String,
    /// The declared return type.
    pub output: ReturnShape,
    /// How many parameters the signature declares.
    pub n_params: usize,
}

/// The item an annotation is attached to.
#[derive(Debug)]
pub enum AnnotatedItem {
    /// A function item.
    Function(FnShape),
    /// Anything else: a type, a module, a constant, ...
    Other,
}

/// The symbols emitted for an accepted constructor: the function keeps its
/// name, unmangled, and a slot named after it holds its address.
#[derive(Debug)]
pub struct CtorRegistration {
    /// The name of the emitted function.
    pub fn_name: String,
    /// The name of the registration slot that points at it.
    pub slot_name: String,
}

/// The fault that refuses an annotation, or `None` where it is accepted.
/// Arguments to the annotation are looked at first, then the kind of item,
/// then the return type, which may be omitted or `()`, then the parameters.
pub open spec fn ctor_fault(attr_is_empty: bool, item: AnnotatedItem) -> Option<CtorError> {
    if !attr_is_empty {
        Some(CtorError::InvalidArgument)
    } else {
        match item {
            AnnotatedItem::Other => Some(CtorError::InvalidTarget),
            AnnotatedItem::Function(f) => if returns_value(f.output) {
                Some(CtorError::InvalidSignature(SignatureFault::ReturnsValue))
            } else if f.n_params > 0 {
                Some(CtorError::InvalidSignature(SignatureFault::TakesArguments))
            } else {
                None
            },
        }
    }
}

impl CtorError {
    /// The diagnostic reported for this error.
    pub open spec fn message_spec(&self) -> Seq<char> {
        match *self {
            CtorError::InvalidArgument => "expect an empty attribute: `#[register_ctor]`"@,
            CtorError::InvalidSignature(SignatureFault::ReturnsValue) =>
                "expect no return value for the constructor function"@,
            CtorError::InvalidSignature(SignatureFault::TakesArguments) =>
                "expect no input arguments for the constructor function"@,
            CtorError::InvalidTarget => "expect a function to be registered"@,
        }
    }

    /// The diagnostic reported for this error.
    pub fn message(&self) -> (r: &'static str)
        ensures
            r@ == self.message_spec(),
    {
        match *self {
            CtorError::InvalidArgument => "expect an empty attribute: `#[register_ctor]`",
            CtorError::InvalidSignature(SignatureFault::ReturnsValue) =>
                "expect no return value for the constructor function",
            CtorError::InvalidSignature(SignatureFault::TakesArguments) =>
                "expect no input arguments for the constructor function",
            CtorError::InvalidTarget => "expect a function to be registered",
        }
    }
}

/// Decides whether `item`, annotated with an argument list that is empty
/// exactly when `attr_is_empty`, is registered as a constructor, and if so
/// names the emitted symbols.
pub fn check_ctor(attr_is_empty: bool, item: &AnnotatedItem) -> (r: Result<CtorRegistration, CtorError>)
    ensures
        r is Ok <==> ctor_fault(attr_is_empty, *item) is None,
        r matches Err(e) ==> ctor_fault(attr_is_empty, *item) == Some(e),
        r matches Ok(reg) ==> (item matches AnnotatedItem::Function(f)
            && reg.fn_name@ == f.name@
            && reg.slot_name@ == slot_name_of(f.name@)),
{
    if !attr_is_empty {
        return Err(CtorError::InvalidArgument);
    }
    match item {
        AnnotatedItem::Other => Err(CtorError::InvalidTarget),
        AnnotatedItem::Function(f) => {
            let gives_value = match f.output {
                ReturnShape::Omitted => false,
                ReturnShape::Tuple(n) => n > 0,
                ReturnShape::Other => true,
            };
            if gives_value {
                Err(CtorError::InvalidSignature(SignatureFault::ReturnsValue))
            } else if f.n_params > 0 {
                Err(CtorError::InvalidSignature(SignatureFault::TakesArguments))
            } else {
                let fn_name = f.name.clone();
                let slot_name = slot_name(f.name.as_str());
                Ok(CtorRegistration { fn_name, slot_name })
            }
        },
    }
}

/// Constructors with different names get slots with different names, so two
/// registrations never collide.
pub proof fn lemma_slot_names_distinct(a: Seq<char>, b: Seq<char>)
    requires
        a != b,
    ensures
        slot_name_of(a) != slot_name_of(b),
{
    let n = slot_prefix().len();
    if slot_name_of(a) == slot_name_of(b) {
        assert(slot_name_of(a).subrange(n as int, slot_name_of(a).len() as int) =~= a);
        assert(slot_name_of(b).subrange(n as int, slot_name_of(b).len() as int) =~= b);
    }
}

} // verus!
