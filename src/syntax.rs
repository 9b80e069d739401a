//! The annotation on token streams: parsing with `syn`, checking with
//! [`check_ctor`], and reporting refusals as `compile_error!` tokens.

use vstd::prelude::*;
use crate::registration::{
    check_ctor, ctor_fault, slot_name_of, AnnotatedItem, CtorError, CtorRegistration, FnShape, ReturnShape,
};

verus! {

#[verifier::external_type_specification]
#[verifier::external_body]
pub struct ExTokenStream(proc_macro2::TokenStream);

#[verifier::external_type_specification]
#[verifier::external_body]
pub struct ExItem(syn::Item);

#[verifier::external_type_specification]
#[verifier::external_body]
pub struct ExSpan(proc_macro2::Span);

#[verifier::external_type_specification]
#[verifier::external_body]
pub struct ExReturnType(syn::ReturnType);

#[verifier::external_type_specification]
#[verifier::external_body]
pub struct ExSynError(syn::Error);

/// Relies on proc_macro2::TokenStream::is_empty, to tell whether an
/// annotation was written with arguments.
pub assume_specification[ proc_macro2::TokenStream::is_empty ](ts: &proc_macro2::TokenStream) -> bool;

/// Relies on syn::Error::to_compile_error, to turn an error into the tokens
/// of a `compile_error!` invocation that reports it.
pub assume_specification[ syn::Error::to_compile_error ](e: &syn::Error) -> proc_macro2::TokenStream;

/// Relies on syn::parse2, to parse the annotated tokens as one item.
#[verifier::external_body]
fn parse_item(tokens: proc_macro2::TokenStream) -> Result<syn::Item, syn::Error> {
    syn::parse2::<syn::Item>(tokens)
}

/// Relies on syn's `ReturnType` and `Type::Tuple` variants and on
/// `Punctuated::len`: no `->`, a tuple type with its number of elements (`()`
/// has none), or another type.
#[verifier::external_body]
fn return_shape(output: syn::ReturnType) -> ReturnShape {
    match output {
        syn::ReturnType::Default => ReturnShape::Omitted,
        syn::ReturnType::Type(_, ty) => match *ty {
            syn::Type::Tuple(t) => ReturnShape::Tuple(t.elems.len()),
            _ => ReturnShape::Other,
        },
    }
}

/// A parsed function item, with its return type still as syn gives it.
struct RawFn {
    name: String,
    output: syn::ReturnType,
    n_params: usize,
    name_span: proc_macro2::Span,
    body: proc_macro2::TokenStream,
}

/// Relies on syn's `Item::Fn` variant, on `Ident`'s `to_string` and `span`,
/// `Punctuated::len` and `ToTokens::into_token_stream`: reads a function
/// item's name, return type, number of parameters, where the name stands, and
/// its body as tokens; any other item gives `None`.
#[verifier::external_body]
fn split_item(item: syn::Item) -> Option<RawFn> {
    match item {
        syn::Item::Fn(f) => Some(RawFn {
            name: f.sig.ident.to_string(),
            output: f.sig.output,
            n_params: f.sig.inputs.len(),
            name_span: f.sig.ident.span(),
            body: quote::ToTokens::into_token_stream(*f.block),
        }),
        _ => None,
    }
}

/// What the check needs of a parsed function item.
fn read_fn(raw: RawFn) -> (r: FnParts)
    ensures
        r.shape.name@ == raw.name@,
        r.shape.n_params == raw.n_params,
        r.name_span == raw.name_span,
        r.body == raw.body,
{
    let RawFn { name, output, n_params, name_span, body } = raw;
    FnParts { shape: FnShape { name, output: return_shape(output), n_params }, name_span, body }
}

/// Relies on syn::Error::new and proc_macro2::Span::call_site, to make an
/// error that reports `message` at the annotation's call site.
#[verifier::external_body]
fn call_site_error(message: &str) -> syn::Error {
    syn::Error::new(proc_macro2::Span::call_site(), message)
}

/// What is read of a parsed function item.
pub struct FnParts {
    /// Its signature.
    pub shape: FnShape,
    /// Where its name stands in the source.
    pub name_span: proc_macro2::Span,
    /// Its body, braces included.
    pub body: proc_macro2::TokenStream,
}

/// An accepted constructor: the emitted symbols, where the function's name
/// stands, and its body.
pub struct Expansion {
    pub registration: CtorRegistration,
    pub name_span: proc_macro2::Span,
    pub body: proc_macro2::TokenStream,
}

/// Why the annotation produced no constructor.
pub enum ExpandError {
    /// The annotation was refused.
    Rejected(CtorError),
    /// The annotated tokens are not an item.
    Unparsable(syn::Error),
}

impl ExpandError {
    /// The tokens that report this error to the compiler.
    pub fn to_compile_error(&self) -> proc_macro2::TokenStream {
        match self {
            ExpandError::Rejected(e) => call_site_error(e.message()).to_compile_error(),
            ExpandError::Unparsable(e) => e.to_compile_error(),
        }
    }
}

/// Decides the annotation from what was read of it: whether its argument
/// list is empty, and what parsing the annotated tokens gave (an error, an item
/// that is not a function, or a function). Arguments are refused whatever the
/// item; then a parse error is reported; then [`check_ctor`] judges the item.
pub fn settle(attr_is_empty: bool, parsed: Result<Option<FnParts>, syn::Error>) -> (r: Result<Expansion, ExpandError>)
    ensures
        !attr_is_empty ==> r == Err::<Expansion, ExpandError>(ExpandError::Rejected(CtorError::InvalidArgument)),
        attr_is_empty ==> match parsed {
            Err(e) => r == Err::<Expansion, ExpandError>(ExpandError::Unparsable(e)),
            Ok(None) => r == Err::<Expansion, ExpandError>(ExpandError::Rejected(CtorError::InvalidTarget)),
            Ok(Some(p)) => match ctor_fault(true, AnnotatedItem::Function(p.shape)) {
                Some(e) => r == Err::<Expansion, ExpandError>(ExpandError::Rejected(e)),
                None => r matches Ok(x) && x.registration.fn_name@ == p.shape.name@
                    && x.registration.slot_name@ == slot_name_of(p.shape.name@)
                    && x.name_span == p.name_span && x.body == p.body,
            },
        },
{
    if !attr_is_empty {
        return Err(ExpandError::Rejected(CtorError::InvalidArgument));
    }
    match parsed {
        Err(e) => Err(ExpandError::Unparsable(e)),
        Ok(None) => Err(ExpandError::Rejected(CtorError::InvalidTarget)),
        Ok(Some(p)) => {
            let FnParts { shape, name_span, body } = p;
            let item = AnnotatedItem::Function(shape);
            match check_ctor(true, &item) {
                Err(e) => Err(ExpandError::Rejected(e)),
                Ok(registration) => Ok(Expansion { registration, name_span, body }),
            }
        },
    }
}

/// Applies the annotation, with arguments `attr`, to the item `function`:
/// reads whether `attr` is empty and, only where it is, parses `function`;
/// [`settle`] decides from what was read.
pub fn expand(attr: &proc_macro2::TokenStream, function: proc_macro2::TokenStream) -> (r: Result<Expansion, ExpandError>)
    ensures
        r matches Ok(x) ==> x.registration.slot_name@ == slot_name_of(x.registration.fn_name@),
{
    if !attr.is_empty() {
        return settle(false, Ok(None));
    }
    let parsed = match parse_item(function) {
        Ok(item) => match split_item(item) {
            Some(raw) => Ok(Some(read_fn(raw))),
            None => Ok(None),
        },
        Err(e) => Err(e),
    };
    settle(true, parsed)
}

} // verus!
