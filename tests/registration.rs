use constructor_array::registration::{
    check_ctor, slot_name, AnnotatedItem, CtorError, FnShape, ReturnShape, SignatureFault,
    CTOR_SECTION,
};
use constructor_array::syntax::{expand, settle, ExpandError, FnParts};
use proc_macro2::TokenStream;

fn tokens(s: &str) -> TokenStream {
    s.parse().unwrap()
}

fn fn_shape(name: &str, output: ReturnShape, n_params: usize) -> FnShape {
    FnShape { name: name.to_string(), output, n_params }
}

fn shape(name: &str, has_return_type: bool, n_params: usize) -> AnnotatedItem {
    let output = if has_return_type { ReturnShape::Other } else { ReturnShape::Omitted };
    AnnotatedItem::Function(fn_shape(name, output, n_params))
}

fn parts(name: &str, output: ReturnShape, n_params: usize) -> FnParts {
    FnParts {
        shape: fn_shape(name, output, n_params),
        name_span: proc_macro2::Span::call_site(),
        body: tokens("{ work(); }"),
    }
}

fn rejection(attr: &str, item: &str) -> CtorError {
    match expand(&tokens(attr), tokens(item)) {
        Err(ExpandError::Rejected(e)) => e,
        Err(ExpandError::Unparsable(e)) => panic!("not parsed: {}", e),
        Ok(x) => panic!("accepted: {}", x.registration.fn_name),
    }
}

#[test]
fn slot_name_has_prefix() {
    assert_eq!(slot_name("init"), "_CTOR_init");
    assert_eq!(slot_name(""), "_CTOR_");
}

#[test]
fn section_is_named_ctors() {
    assert_eq!(CTOR_SECTION, "ctors");
}

#[test]
fn check_accepts_plain_function() {
    let reg = check_ctor(true, &shape("setup", false, 0)).unwrap();
    assert_eq!(reg.fn_name, "setup");
    assert_eq!(reg.slot_name, "_CTOR_setup");
}

#[test]
fn check_refuses_arguments_first() {
    assert_eq!(check_ctor(false, &shape("f", false, 0)).unwrap_err(), CtorError::InvalidArgument);
    assert_eq!(check_ctor(false, &AnnotatedItem::Other).unwrap_err(), CtorError::InvalidArgument);
}

#[test]
fn check_refuses_non_function() {
    assert_eq!(check_ctor(true, &AnnotatedItem::Other).unwrap_err(), CtorError::InvalidTarget);
}

#[test]
fn check_refuses_return_type_before_parameters() {
    assert_eq!(
        check_ctor(true, &shape("f", true, 2)).unwrap_err(),
        CtorError::InvalidSignature(SignatureFault::ReturnsValue)
    );
    assert_eq!(
        check_ctor(true, &shape("f", false, 1)).unwrap_err(),
        CtorError::InvalidSignature(SignatureFault::TakesArguments)
    );
}

#[test]
fn messages() {
    assert_eq!(CtorError::InvalidArgument.message(), "expect an empty attribute: `#[register_ctor]`");
    assert_eq!(
        CtorError::InvalidSignature(SignatureFault::ReturnsValue).message(),
        "expect no return value for the constructor function"
    );
    assert_eq!(
        CtorError::InvalidSignature(SignatureFault::TakesArguments).message(),
        "expect no input arguments for the constructor function"
    );
    assert_eq!(CtorError::InvalidTarget.message(), "expect a function to be registered");
}

#[test]
fn expand_accepts_constructor() {
    let x = match expand(&TokenStream::new(), tokens("fn init_heap() { let a = 1; }")) {
        Ok(x) => x,
        Err(_) => panic!("refused"),
    };
    assert_eq!(x.registration.fn_name, "init_heap");
    assert_eq!(x.registration.slot_name, "_CTOR_init_heap");
    assert_eq!(x.body.to_string(), tokens("{ let a = 1; }").to_string());
}

#[test]
fn expand_refuses_parameter() {
    assert_eq!(
        rejection("", "fn f(x: i32) {}"),
        CtorError::InvalidSignature(SignatureFault::TakesArguments)
    );
}

#[test]
fn expand_refuses_return_value() {
    assert_eq!(
        rejection("", "fn f() -> i32 { 0 }"),
        CtorError::InvalidSignature(SignatureFault::ReturnsValue)
    );
    assert_eq!(
        rejection("", "fn f() -> (i32,) {}"),
        CtorError::InvalidSignature(SignatureFault::ReturnsValue)
    );
}

#[test]
fn expand_accepts_explicit_unit_return() {
    match expand(&TokenStream::new(), tokens("fn f() -> () {}")) {
        Ok(x) => {
            assert_eq!(x.registration.fn_name, "f");
            assert_eq!(x.registration.slot_name, "_CTOR_f");
        }
        Err(_) => panic!("refused"),
    }
}

#[test]
fn check_accepts_unit_tuple_and_refuses_other_tuples() {
    assert!(check_ctor(true, &AnnotatedItem::Function(fn_shape("f", ReturnShape::Tuple(0), 0))).is_ok());
    assert_eq!(
        check_ctor(true, &AnnotatedItem::Function(fn_shape("f", ReturnShape::Tuple(2), 0))).unwrap_err(),
        CtorError::InvalidSignature(SignatureFault::ReturnsValue)
    );
}

#[test]
fn settle_refuses_arguments_whatever_the_item() {
    let r = settle(false, Ok(Some(parts("f", ReturnShape::Omitted, 0))));
    assert!(matches!(r, Err(ExpandError::Rejected(CtorError::InvalidArgument))));
    let r = settle(false, Ok(None));
    assert!(matches!(r, Err(ExpandError::Rejected(CtorError::InvalidArgument))));
}

#[test]
fn settle_reports_parse_error() {
    let e = syn::Error::new(proc_macro2::Span::call_site(), "bad item");
    match settle(true, Err(e)) {
        Err(ExpandError::Unparsable(e)) => assert_eq!(e.to_string(), "bad item"),
        _ => panic!("expected the parse error"),
    }
}

#[test]
fn settle_judges_the_item() {
    assert!(matches!(settle(true, Ok(None)), Err(ExpandError::Rejected(CtorError::InvalidTarget))));
    assert!(matches!(
        settle(true, Ok(Some(parts("f", ReturnShape::Other, 0)))),
        Err(ExpandError::Rejected(CtorError::InvalidSignature(SignatureFault::ReturnsValue)))
    ));
    assert!(matches!(
        settle(true, Ok(Some(parts("f", ReturnShape::Omitted, 3)))),
        Err(ExpandError::Rejected(CtorError::InvalidSignature(SignatureFault::TakesArguments)))
    ));
    match settle(true, Ok(Some(parts("boot", ReturnShape::Tuple(0), 0)))) {
        Ok(x) => {
            assert_eq!(x.registration.fn_name, "boot");
            assert_eq!(x.registration.slot_name, "_CTOR_boot");
            assert_eq!(x.body.to_string(), tokens("{ work(); }").to_string());
        }
        Err(_) => panic!("refused"),
    }
}

#[test]
fn expand_refuses_constant_and_struct() {
    assert_eq!(rejection("", "const C: i32 = 0;"), CtorError::InvalidTarget);
    assert_eq!(rejection("", "struct S;"), CtorError::InvalidTarget);
    assert_eq!(rejection("", "mod m {}"), CtorError::InvalidTarget);
}

#[test]
fn expand_refuses_annotation_arguments() {
    assert_eq!(rejection("early", "fn f() {}"), CtorError::InvalidArgument);
    // Arguments are refused before the item is looked at.
    assert_eq!(rejection("x = 1", "struct S;"), CtorError::InvalidArgument);
}

#[test]
fn expand_reports_unparsable_item() {
    match expand(&TokenStream::new(), tokens("fn")) {
        Err(ExpandError::Unparsable(_)) => {}
        _ => panic!("expected a parse error"),
    }
}

#[test]
fn error_tokens_carry_the_message() {
    let e = ExpandError::Rejected(CtorError::InvalidTarget);
    let out = e.to_compile_error().to_string();
    assert!(out.contains("expect a function to be registered"));
    assert!(!out.is_empty());
}

#[test]
fn parse_error_tokens_are_not_empty() {
    match expand(&TokenStream::new(), tokens("fn f() ->")) {
        Err(e) => assert!(!e.to_compile_error().is_empty()),
        Ok(_) => panic!("accepted"),
    }
}
