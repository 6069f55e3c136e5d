use rkyv::attributes::{
    already_specified, crate_form, expected_crate, must_be_path, route, set_crate, set_flag,
    set_parsed, stands_alone, try_set_attribute, unrecognized, Argument, Attributes, CrateForm,
    Route,
};
use quote::ToTokens;

fn parse(source: &str) -> Result<Attributes, syn::Error> {
    let input = syn::parse_str::<syn::DeriveInput>(source).unwrap();
    Attributes::parse(&input)
}

fn message(source: &str) -> String {
    match parse(source) {
        Ok(_) => panic!("expected an error"),
        Err(error) => error.to_string(),
    }
}

#[test]
fn argument_names() {
    let all = [
        (Argument::CheckBytes, "check_bytes"),
        (Argument::CopySafe, "copy_safe"),
        (Argument::Compare, "compare"),
        (Argument::ArchiveBounds, "archive_bounds"),
        (Argument::SerializeBounds, "serialize_bounds"),
        (Argument::DeserializeBounds, "deserialize_bounds"),
        (Argument::Archived, "archived"),
        (Argument::Resolver, "resolver"),
        (Argument::As, "as"),
        (Argument::Crate, "crate"),
    ];
    for (argument, name) in all {
        assert_eq!(Argument::from_name(name), Some(argument));
        assert_eq!(argument.name(), name);
    }
    assert_eq!(Argument::from_name("archive"), None);
    assert_eq!(Argument::from_name(""), None);
    assert_eq!(Argument::from_name("Check_bytes"), None);
}

#[test]
fn routes() {
    assert_eq!(route(true, Some("archive")), Route::Archive);
    assert_eq!(route(true, Some("archive_attr")), Route::ArchiveAttr);
    assert_eq!(route(true, Some("derive")), Route::Skip);
    assert_eq!(route(true, None), Route::Skip);
    assert_eq!(route(false, Some("archive")), Route::Skip);
    assert_eq!(route(false, Some("archive_attr")), Route::Skip);
}

#[test]
fn bare_arguments() {
    assert!(stands_alone(true, false));
    assert!(stands_alone(false, true));
    assert!(stands_alone(true, true));
    assert!(!stands_alone(false, false));
}

#[test]
fn messages() {
    assert_eq!(already_specified("compare"), "compare already specified");
    assert_eq!(must_be_path("copy_safe"), "copy_safe argument must be a path");
}

#[test]
fn set_once() {
    let mut slot: Option<i32> = None;
    let first = syn::Error::new(proc_macro2::Span::call_site(), "first");
    assert!(try_set_attribute(&mut slot, 3, first).is_ok());
    assert_eq!(slot, Some(3));
    let second = syn::Error::new(proc_macro2::Span::call_site(), "second");
    let refused = try_set_attribute(&mut slot, 4, second);
    assert_eq!(refused.unwrap_err().to_string(), "second");
    assert_eq!(slot, Some(3));
}

#[test]
fn nothing_asked() {
    let attributes = parse("#[derive(Debug)] #[repr(C)] struct Foo;").unwrap();
    assert!(attributes.archive_as.is_none());
    assert!(attributes.archived.is_none());
    assert!(attributes.resolver.is_none());
    assert!(attributes.attrs.is_empty());
    assert!(attributes.compares.is_none());
    assert!(attributes.archive_bounds.is_none());
    assert!(attributes.serialize_bounds.is_none());
    assert!(attributes.deserialize_bounds.is_none());
    assert!(attributes.check_bytes.is_none());
    assert!(attributes.copy_safe.is_none());
    assert_eq!(attributes.rkyv_path().to_token_stream().to_string(), ":: rkyv");
}

#[test]
fn every_argument() {
    let attributes = parse(
        "#[archive(check_bytes, copy_safe, compare(PartialEq, PartialOrd<Foo<A, B>>), \
         archive_bounds(T: Archive), serialize_bounds(T: Serialize<S>, S: Writer,), \
         deserialize_bounds(), archived = ArchivedFoo, resolver = FooResolver, crate = my::rkyv)] \
         struct Foo;",
    )
    .unwrap();
    assert_eq!(attributes.check_bytes.unwrap().to_token_stream().to_string(), "check_bytes");
    assert_eq!(attributes.copy_safe.unwrap().to_token_stream().to_string(), "copy_safe");
    let compares = attributes.compares.unwrap();
    assert_eq!(compares.len(), 2);
    assert_eq!(compares[0].to_token_stream().to_string(), "PartialEq");
    assert_eq!(attributes.archive_bounds.unwrap().len(), 1);
    assert_eq!(attributes.serialize_bounds.unwrap().len(), 2);
    assert_eq!(attributes.deserialize_bounds.unwrap().len(), 0);
    assert_eq!(attributes.archived.unwrap().to_string(), "ArchivedFoo");
    assert_eq!(attributes.resolver.unwrap().to_string(), "FooResolver");
    assert!(attributes.archive_as.is_none());
    assert!(attributes.attrs.is_empty());
}

#[test]
fn archive_as_and_crate() {
    let attributes = parse("#[archive(as = \"Foo<T>\")] #[archive(crate)] struct Foo;").unwrap();
    assert_eq!(attributes.archive_as.as_ref().unwrap().value(), "Foo<T>");
    assert_eq!(attributes.rkyv_path().to_token_stream().to_string(), "crate");
    let attributes = parse("#[archive(crate = ::other::name)] struct Foo;").unwrap();
    assert_eq!(attributes.rkyv_path().to_token_stream().to_string(), ":: other :: name");
}

#[test]
fn attributes_for_the_archived_type() {
    let attributes = parse(
        "#[archive_attr(derive(Debug), repr(C))] #[doc = \"x\"] #[archive_attr(allow(dead_code))] \
         struct Foo;",
    )
    .unwrap();
    assert_eq!(attributes.attrs.len(), 3);
    assert_eq!(attributes.attrs[0].to_token_stream().to_string(), "derive (Debug)");
    assert_eq!(attributes.attrs[1].to_token_stream().to_string(), "repr (C)");
    assert_eq!(attributes.attrs[2].to_token_stream().to_string(), "allow (dead_code)");
    assert!(attributes.check_bytes.is_none());
}

#[test]
fn empty_archive_attribute() {
    let attributes = parse("#[archive()] struct Foo;").unwrap();
    assert!(attributes.check_bytes.is_none());
    assert!(attributes.attrs.is_empty());
}

#[test]
fn refused_arguments() {
    assert_eq!(message("#[archive(checked)] struct Foo;"), "unrecognized archive argument");
    assert_eq!(message("#[archive(a::b)] struct Foo;"), "unrecognized archive argument");
    assert_eq!(
        message("#[archive(check_bytes, check_bytes)] struct Foo;"),
        "check_bytes already specified"
    );
    assert_eq!(
        message("#[archive(copy_safe)] #[archive(copy_safe)] struct Foo;"),
        "copy_safe already specified"
    );
    assert_eq!(
        message("#[archive(compare(PartialEq), compare(PartialOrd))] struct Foo;"),
        "compare already specified"
    );
    assert_eq!(
        message("#[archive(archive_bounds(T: A), archive_bounds(T: B))] struct Foo;"),
        "archive_bounds already specified"
    );
    assert_eq!(
        message("#[archive(serialize_bounds(T: A), serialize_bounds(T: B))] struct Foo;"),
        "serialize_bounds already specified"
    );
    assert_eq!(
        message("#[archive(deserialize_bounds(T: A), deserialize_bounds(T: B))] struct Foo;"),
        "deserialize_bounds already specified"
    );
    assert_eq!(
        message("#[archive(archived = A, archived = B)] struct Foo;"),
        "archived already specified"
    );
    assert_eq!(
        message("#[archive(resolver = A, resolver = B)] struct Foo;"),
        "resolver already specified"
    );
    assert_eq!(message("#[archive(as = \"A\", as = \"B\")] struct Foo;"), "as already specified");
    assert_eq!(message("#[archive(crate = a, crate)] struct Foo;"), "crate already specified");
    assert_eq!(
        message("#[archive(crate = a)] #[archive(crate = b)] struct Foo;"),
        "crate already specified"
    );
    assert_eq!(
        message("#[archive(crate, check_bytes)] struct Foo;"),
        "expected `crate` or `crate = ...`"
    );
    assert_eq!(
        message("#[archive(check_bytes(x))] struct Foo;"),
        "check_bytes argument must be a path"
    );
    assert_eq!(
        message("#[archive(copy_safe = 3)] struct Foo;"),
        "copy_safe argument must be a path"
    );
    assert_eq!(
        message("#[archive(crate(foo))] struct Foo;"),
        "expected `crate` or `crate = ...`"
    );
    assert!(parse("#[archive(compare)] struct Foo;").is_err());
    assert!(parse("#[archive(archived)] struct Foo;").is_err());
    assert!(parse("#[archive(as = Foo)] struct Foo;").is_err());
    assert!(parse("#[archive_attr] struct Foo;").is_err());
    assert!(parse("#[archive = 3] struct Foo;").is_err());
}

#[test]
fn no_attributes_ask_for_nothing() {
    let attributes = Attributes::parse_attributes(&Vec::new()).unwrap();
    assert!(attributes.archive_as.is_none());
    assert!(attributes.archived.is_none());
    assert!(attributes.resolver.is_none());
    assert!(attributes.attrs.is_empty());
    assert!(attributes.compares.is_none());
    assert!(attributes.archive_bounds.is_none());
    assert!(attributes.serialize_bounds.is_none());
    assert!(attributes.deserialize_bounds.is_none());
    assert!(attributes.check_bytes.is_none());
    assert!(attributes.copy_safe.is_none());
    assert_eq!(attributes.rkyv_path().to_token_stream().to_string(), ":: rkyv");
    let input = syn::parse_str::<syn::DeriveInput>("#[archive(check_bytes)] struct Foo;").unwrap();
    let attributes = Attributes::parse_attributes(&input.attrs).unwrap();
    assert!(attributes.check_bytes.is_some());
}

#[test]
fn forms_of_the_crate_argument() {
    assert_eq!(crate_form(true, false), CrateForm::Given);
    assert_eq!(crate_form(true, true), CrateForm::Given);
    assert_eq!(crate_form(false, true), CrateForm::Bare);
    assert_eq!(crate_form(false, false), CrateForm::Malformed);
}

#[test]
fn parsed_attributes_are_kept_in_order() {
    let mut attributes = parse("#[archive(check_bytes)] #[archive_attr(repr(C))] struct Foo;")
        .unwrap();
    let more: Vec<syn::Meta> = vec![
        syn::parse_str::<syn::Meta>("derive(Debug)").unwrap(),
        syn::parse_str::<syn::Meta>("allow(dead_code)").unwrap(),
    ];
    assert!(attributes.keep_attrs(Ok(more)).is_ok());
    assert_eq!(attributes.attrs.len(), 3);
    assert_eq!(attributes.attrs[0].to_token_stream().to_string(), "repr (C)");
    assert_eq!(attributes.attrs[1].to_token_stream().to_string(), "derive (Debug)");
    assert_eq!(attributes.attrs[2].to_token_stream().to_string(), "allow (dead_code)");
    assert!(attributes.check_bytes.is_some());
    assert!(attributes.keep_attrs(Ok(Vec::new())).is_ok());
    assert_eq!(attributes.attrs.len(), 3);

    let refused = syn::Error::new(proc_macro2::Span::call_site(), "no list");
    let result = attributes.keep_attrs(Err(refused));
    assert_eq!(result.unwrap_err().to_string(), "no list");
    assert_eq!(attributes.attrs.len(), 3);
    assert!(attributes.check_bytes.is_some());
    assert!(attributes.copy_safe.is_none());
}

fn error(text: &str) -> syn::Error {
    syn::Error::new(proc_macro2::Span::call_site(), text)
}

fn path(text: &str) -> syn::Path {
    syn::parse_str::<syn::Path>(text).unwrap()
}

fn written(path: &Option<syn::Path>) -> Option<String> {
    path.as_ref().map(|p| p.to_token_stream().to_string())
}

#[test]
fn a_flag_must_stand_alone() {
    let mut slot: Option<syn::Path> = None;
    let refused = set_flag(&mut slot, false, path("check_bytes"), error("no"), error("twice"));
    assert_eq!(refused.unwrap_err().to_string(), "no");
    assert!(slot.is_none());
    assert!(set_flag(&mut slot, true, path("check_bytes"), error("no"), error("twice")).is_ok());
    assert_eq!(written(&slot), Some(String::from("check_bytes")));
    let again = set_flag(&mut slot, true, path("other"), error("no"), error("twice"));
    assert_eq!(again.unwrap_err().to_string(), "twice");
    assert_eq!(written(&slot), Some(String::from("check_bytes")));
    let misplaced = set_flag(&mut slot, false, path("other"), error("no"), error("twice"));
    assert_eq!(misplaced.unwrap_err().to_string(), "no");
    assert_eq!(written(&slot), Some(String::from("check_bytes")));
}

#[test]
fn what_was_parsed_is_what_is_stored() {
    let mut slot: Option<i32> = None;
    let failed = set_parsed(&mut slot, Err(error("syntax")));
    assert_eq!(failed.unwrap_err().to_string(), "syntax");
    assert_eq!(slot, None);
    assert!(set_parsed(&mut slot, Ok((7, error("twice")))).is_ok());
    assert_eq!(slot, Some(7));
    let again = set_parsed(&mut slot, Ok((8, error("twice"))));
    assert_eq!(again.unwrap_err().to_string(), "twice");
    assert_eq!(slot, Some(7));
    let failed = set_parsed(&mut slot, Err(error("syntax")));
    assert_eq!(failed.unwrap_err().to_string(), "syntax");
    assert_eq!(slot, Some(7));
}

#[test]
fn the_three_forms_of_crate() {
    let keyword = || (path("crate"), error("twice"));
    let mut slot: Option<syn::Path> = None;
    let r = set_crate(&mut slot, CrateForm::Malformed, None, keyword(), error("malformed"));
    assert_eq!(r.unwrap_err().to_string(), "malformed");
    assert!(slot.is_none());
    let r = set_crate(&mut slot, CrateForm::Given, None, keyword(), error("malformed"));
    assert_eq!(r.unwrap_err().to_string(), "malformed");
    let r = set_crate(
        &mut slot,
        CrateForm::Given,
        Some(Err(error("syntax"))),
        keyword(),
        error("malformed"),
    );
    assert_eq!(r.unwrap_err().to_string(), "syntax");
    assert!(slot.is_none());
    let given = Some(Ok((path("::my_rkyv"), error("given twice"))));
    assert!(set_crate(&mut slot, CrateForm::Given, given, keyword(), error("malformed")).is_ok());
    assert_eq!(written(&slot), Some(String::from(":: my_rkyv")));
    let r = set_crate(&mut slot, CrateForm::Bare, None, keyword(), error("malformed"));
    assert_eq!(r.unwrap_err().to_string(), "twice");
    assert_eq!(written(&slot), Some(String::from(":: my_rkyv")));

    let mut bare: Option<syn::Path> = None;
    assert!(set_crate(&mut bare, CrateForm::Bare, None, keyword(), error("malformed")).is_ok());
    assert_eq!(written(&bare), Some(String::from("crate")));
}

#[test]
fn fixed_messages() {
    assert_eq!(unrecognized(), "unrecognized archive argument");
    assert_eq!(expected_crate(), "expected `crate` or `crate = ...`");
}

#[test]
fn the_same_key_in_two_attributes_is_refused() {
    assert_eq!(
        message("#[archive(archived = Foo)] #[archive(archived = Bar)] struct S;"),
        "archived already specified"
    );
    assert_eq!(
        message(
            "#[archive(check_bytes)] #[derive(Debug)] #[archive(check_bytes, copy_safe)] \
             struct S;"
        ),
        "check_bytes already specified"
    );
    assert_eq!(
        message("#[archive(unknown, check_bytes)] struct S;"),
        "unrecognized archive argument"
    );
}

#[test]
fn the_path_that_was_given_is_returned() {
    let attributes = parse("#[archive(crate = ::my_rkyv)] struct S;").unwrap();
    assert_eq!(attributes.rkyv_path().to_token_stream().to_string(), ":: my_rkyv");
    assert!(attributes.is_given(Argument::Crate));
    assert!(!attributes.is_given(Argument::CheckBytes));
    let attributes = parse("#[archive(crate)] struct S;").unwrap();
    assert_eq!(attributes.rkyv_path().to_token_stream().to_string(), "crate");
    let attributes = parse("struct S;").unwrap();
    assert_eq!(attributes.rkyv_path().to_token_stream().to_string(), ":: rkyv");
    for argument in [
        Argument::CheckBytes,
        Argument::CopySafe,
        Argument::Compare,
        Argument::ArchiveBounds,
        Argument::SerializeBounds,
        Argument::DeserializeBounds,
        Argument::Archived,
        Argument::Resolver,
        Argument::As,
        Argument::Crate,
    ] {
        assert!(!attributes.is_given(argument));
    }
}

#[test]
fn other_attributes_change_nothing() {
    let plain = parse("#[archive(check_bytes)] #[archive_attr(repr(C))] struct S;").unwrap();
    let mixed = parse(
        "#[derive(Debug)] #[archive(check_bytes)] #[doc = \"text\"] #[repr(C)] \
         #[archive_attr(repr(C))] #[a::archive(nonsense)] #[allow(unused)] struct S;",
    )
    .unwrap();
    assert_eq!(mixed.attrs.len(), plain.attrs.len());
    assert_eq!(
        mixed.attrs[0].to_token_stream().to_string(),
        plain.attrs[0].to_token_stream().to_string()
    );
    assert!(mixed.is_given(Argument::CheckBytes));
    assert!(!mixed.is_given(Argument::CopySafe));
    let none = parse("#[derive(Debug)] #[repr(C)] #[archive::other(x = )] struct S;");
    assert!(none.is_err() || none.unwrap().attrs.is_empty());
}
