//! The attribute front end of the derive macros: what the `archive` and
//! `archive_attr` attributes of a type ask for.

use crate::syntax::{
    absolute_path, attr_ident, attr_is_outer, attr_leading, attr_metas, attr_name, attr_outer,
    clone_path,
    error_text, ident_tokens, input_attr_list, input_attrs, keyword_path, lit_str_tokens,
    meta_at_comma, meta_at_end, meta_error, meta_ident, meta_into_path, meta_name, meta_value,
    parse_ident, parse_lit_str, parse_meta_list, parse_nested, parse_path, parse_path_list,
    parse_predicate_list, path_list_tokens, path_text, path_tokens, predicate_list_tokens,
    spanned_error,
};
use proc_macro2::Ident;
use syn::meta::ParseNestedMeta;
use syn::punctuated::Punctuated;
use syn::token::Comma;
use syn::{Attribute, DeriveInput, Error, LitStr, Meta, Path, WherePredicate};
use vstd::prelude::*;
use vstd::string::StringExecFns;

verus! {

/// The arguments that the `archive` attribute knows.
#[derive(Clone, Copy, Debug, PartialEq, Eq, Structural)]
pub enum Argument {
    CheckBytes,
    CopySafe,
    Compare,
    ArchiveBounds,
    SerializeBounds,
    DeserializeBounds,
    Archived,
    Resolver,
    As,
    Crate,
}

/// What is done with an attribute of the input.
#[derive(Clone, Copy, Debug, PartialEq, Eq, Structural)]
pub enum Route {
    /// It is not for this front end.
    Skip,
    /// It is an `archive` attribute: its arguments are settings.
    Archive,
    /// It is an `archive_attr` attribute: its arguments are attributes for
    /// the archived type.
    ArchiveAttr,
}

/// How a `crate` argument is written.
#[derive(Clone, Copy, Debug, PartialEq, Eq, Structural)]
pub enum CrateForm {
    /// `crate = ...`: a path follows.
    Given,
    /// `crate`, and nothing after it.
    Bare,
    /// Anything else.
    Malformed,
}

/// What the attributes of a type ask of the derive macros.
pub struct Attributes {
    /// `as = "..."`: the type to archive as, in place of a generated one.
    pub archive_as: Option<LitStr>,
    /// `archived = ...`: the name of the archived type.
    pub archived: Option<Ident>,
    /// `resolver = ...`: the name of the resolver type.
    pub resolver: Option<Ident>,
    /// The attributes to put on the archived type, in the order given.
    pub attrs: Vec<Meta>,
    /// `compare(...)`: the comparison traits to implement between the type
    /// and its archived type.
    pub compares: Option<Punctuated<Path, Comma>>,
    /// `archive_bounds(...)`: bounds for the implementation of archiving.
    pub archive_bounds: Option<Punctuated<WherePredicate, Comma>>,
    /// `serialize_bounds(...)`: bounds for the implementation of
    /// serializing.
    pub serialize_bounds: Option<Punctuated<WherePredicate, Comma>>,
    /// `deserialize_bounds(...)`: bounds for the implementation of
    /// deserializing.
    pub deserialize_bounds: Option<Punctuated<WherePredicate, Comma>>,
    /// `check_bytes`: the archived type is to be checkable.
    pub check_bytes: Option<Path>,
    /// `copy_safe`: the archived type may be copied byte by byte.
    pub copy_safe: Option<Path>,
    /// `crate` or `crate = ...`: where the generated code finds this library.
    rkyv_path: Option<Path>,
}

/// The argument that `name` names.
pub open spec fn argument_of(name: Seq<char>) -> Option<Argument> {
    if name == "check_bytes"@ {
        Some(Argument::CheckBytes)
    } else if name == "copy_safe"@ {
        Some(Argument::CopySafe)
    } else if name == "compare"@ {
        Some(Argument::Compare)
    } else if name == "archive_bounds"@ {
        Some(Argument::ArchiveBounds)
    } else if name == "serialize_bounds"@ {
        Some(Argument::SerializeBounds)
    } else if name == "deserialize_bounds"@ {
        Some(Argument::DeserializeBounds)
    } else if name == "archived"@ {
        Some(Argument::Archived)
    } else if name == "resolver"@ {
        Some(Argument::Resolver)
    } else if name == "as"@ {
        Some(Argument::As)
    } else if name == "crate"@ {
        Some(Argument::Crate)
    } else {
        None
    }
}

/// What is done with an attribute, given whether it is an outer attribute
/// and, where its path is a single identifier, its name.
pub open spec fn route_of(outer: bool, name: Option<Seq<char>>) -> Route {
    if !outer {
        Route::Skip
    } else if name == Some("archive"@) {
        Route::Archive
    } else if name == Some("archive_attr"@) {
        Route::ArchiveAttr
    } else {
        Route::Skip
    }
}

/// Whether `a` and `b` have the same text.
fn same_text(a: &str, b: &str) -> (same: bool)
    ensures
        same == (a@ == b@),
{
    let x: String = String::from_str(a);
    let y: String = String::from_str(b);
    x == y
}

impl Argument {
    /// The argument that `name` names, if it names one.
    pub fn from_name(name: &str) -> (r: Option<Argument>)
        ensures
            r == argument_of(name@),
    {
        if same_text(name, "check_bytes") {
            Some(Argument::CheckBytes)
        } else if same_text(name, "copy_safe") {
            Some(Argument::CopySafe)
        } else if same_text(name, "compare") {
            Some(Argument::Compare)
        } else if same_text(name, "archive_bounds") {
            Some(Argument::ArchiveBounds)
        } else if same_text(name, "serialize_bounds") {
            Some(Argument::SerializeBounds)
        } else if same_text(name, "deserialize_bounds") {
            Some(Argument::DeserializeBounds)
        } else if same_text(name, "archived") {
            Some(Argument::Archived)
        } else if same_text(name, "resolver") {
            Some(Argument::Resolver)
        } else if same_text(name, "as") {
            Some(Argument::As)
        } else if same_text(name, "crate") {
            Some(Argument::Crate)
        } else {
            None
        }
    }

    /// The name by which the argument is written.
    pub fn name(self) -> (name: &'static str)
        ensures
            name@ == self.spec_name(),
    {
        match self {
            Argument::CheckBytes => "check_bytes",
            Argument::CopySafe => "copy_safe",
            Argument::Compare => "compare",
            Argument::ArchiveBounds => "archive_bounds",
            Argument::SerializeBounds => "serialize_bounds",
            Argument::DeserializeBounds => "deserialize_bounds",
            Argument::Archived => "archived",
            Argument::Resolver => "resolver",
            Argument::As => "as",
            Argument::Crate => "crate",
        }
    }

    /// The name by which the argument is written.
    pub open spec fn spec_name(self) -> Seq<char> {
        match self {
            Argument::CheckBytes => "check_bytes"@,
            Argument::CopySafe => "copy_safe"@,
            Argument::Compare => "compare"@,
            Argument::ArchiveBounds => "archive_bounds"@,
            Argument::SerializeBounds => "serialize_bounds"@,
            Argument::DeserializeBounds => "deserialize_bounds"@,
            Argument::Archived => "archived"@,
            Argument::Resolver => "resolver"@,
            Argument::As => "as"@,
            Argument::Crate => "crate"@,
        }
    }
}

/// What is done with an attribute, given whether it is an outer attribute
/// and, where its path is a single identifier, its name.
pub fn route(outer: bool, name: Option<&str>) -> (r: Route)
    ensures
        r == route_of(
            outer,
            match name {
                Some(n) => Some(n@),
                None => None,
            },
        ),
{
    if !outer {
        return Route::Skip;
    }
    match name {
        Some(n) => {
            if same_text(n, "archive") {
                Route::Archive
            } else if same_text(n, "archive_attr") {
                Route::ArchiveAttr
            } else {
                Route::Skip
            }
        },
        None => Route::Skip,
    }
}

/// Whether an argument that takes no value stands alone: nothing follows
/// it, or a comma does.
pub fn stands_alone(at_end: bool, at_comma: bool) -> (alone: bool)
    ensures
        alone == (at_end || at_comma),
{
    !(!at_end && !at_comma)
}

/// How a `crate` argument is written, given whether an `=` follows it and,
/// where none does, whether anything does.
pub open spec fn crate_form_of(has_value: bool, at_end: bool) -> CrateForm {
    if has_value {
        CrateForm::Given
    } else if at_end {
        CrateForm::Bare
    } else {
        CrateForm::Malformed
    }
}

/// How a `crate` argument is written, given whether an `=` follows it and,
/// where none does, whether anything does.
pub fn crate_form(has_value: bool, at_end: bool) -> (form: CrateForm)
    ensures
        form == crate_form_of(has_value, at_end),
{
    if has_value {
        CrateForm::Given
    } else if at_end {
        CrateForm::Bare
    } else {
        CrateForm::Malformed
    }
}

/// The message for an argument that is given twice.
pub fn already_specified(name: &str) -> (message: String)
    ensures
        message@ == name@ + " already specified"@,
{
    let mut message: String = String::from_str(name);
    message.append(" already specified");
    message
}

/// The message for an argument that takes no value and is given one.
pub fn must_be_path(name: &str) -> (message: String)
    ensures
        message@ == name@ + " argument must be a path"@,
{
    let mut message: String = String::from_str(name);
    message.append(" argument must be a path");
    message
}

/// Sets `attribute` to `value` unless it is set already; then nothing
/// changes and `error` is returned.
pub fn try_set_attribute<T>(attribute: &mut Option<T>, value: T, error: Error) -> (r: Result<
    (),
    Error,
>)
    ensures
        *old(attribute) is None ==> r == Ok::<(), Error>(()) && *final(attribute) == Some(value),
        *old(attribute) is Some ==> r == Err::<(), Error>(error) && *final(attribute) == *old(
            attribute,
        ),
{
    if attribute.is_none() {
        *attribute = Some(value);
        Ok(())
    } else {
        Err(error)
    }
}

/// What was found where the value of an argument was looked for: the value
/// with the error for a second value, or the error that refuses it.
pub type Found<T> = Result<(T, Error), Error>;

/// What a slot holds after `found` has been offered to it: the value that
/// was found, where one was found and the slot was empty, and else what it
/// held.
pub open spec fn slot_after<T>(slot: Option<T>, found: Found<T>) -> Option<T> {
    match found {
        Ok(pair) => if slot is None {
            Some(pair.0)
        } else {
            slot
        },
        Err(_) => slot,
    }
}

/// What offering `found` to a slot answers: the error that came with what
/// was found, where the slot was set already, and the error that refused the
/// value, where none was found.
pub open spec fn answer_after<T>(slot: Option<T>, found: Found<T>) -> Result<(), Error> {
    match found {
        Ok(pair) => if slot is None {
            Ok(())
        } else {
            Err(pair.1)
        },
        Err(refused) => Err(refused),
    }
}

/// What is found for an argument that takes no value: its own path, where
/// it stands alone.
pub open spec fn flag_found(alone: bool, path: Path, refused: Error, twice: Error) -> Found<Path> {
    if alone {
        Ok((path, twice))
    } else {
        Err(refused)
    }
}

/// What is found for a `crate` argument: the path that was parsed after the
/// `=`, the keyword path for a bare `crate`, and nothing for anything else.
pub open spec fn crate_found(
    form: CrateForm,
    given: Option<Found<Path>>,
    keyword: (Path, Error),
    malformed: Error,
) -> Found<Path> {
    match form {
        CrateForm::Given => match given {
            Some(found) => found,
            None => Err(malformed),
        },
        CrateForm::Bare => Ok(keyword),
        CrateForm::Malformed => Err(malformed),
    }
}

/// Offers what was found for an argument to its slot. A value is stored
/// where one was found and the slot was empty. Where none was found the
/// error that refused it is handed on, and where the slot was set already
/// the error for a second value is returned; nothing changes then.
pub fn set_parsed<T>(slot: &mut Option<T>, found: Found<T>) -> (r: Result<(), Error>)
    ensures
        *final(slot) == slot_after(*old(slot), found),
        r == answer_after(*old(slot), found),
{
    match found {
        Ok(pair) => try_set_attribute(slot, pair.0, pair.1),
        Err(refused) => Err(refused),
    }
}

/// Takes an argument that has no value, such as `check_bytes`. Where the
/// argument does not stand alone it is refused with `refused`; else its
/// path is stored, unless the argument was given before, which `twice`
/// reports.
pub fn set_flag(
    slot: &mut Option<Path>,
    alone: bool,
    path: Path,
    refused: Error,
    twice: Error,
) -> (r: Result<(), Error>)
    ensures
        *final(slot) == slot_after(*old(slot), flag_found(alone, path, refused, twice)),
        r == answer_after(*old(slot), flag_found(alone, path, refused, twice)),
{
    if alone {
        set_parsed(slot, Ok((path, twice)))
    } else {
        Err(refused)
    }
}

/// Takes a `crate` argument of the given form. `crate = ...` stores the path
/// that was parsed, a bare `crate` stores the keyword path, and any other
/// form is refused with `malformed`.
pub fn set_crate(
    slot: &mut Option<Path>,
    form: CrateForm,
    given: Option<Found<Path>>,
    keyword: (Path, Error),
    malformed: Error,
) -> (r: Result<(), Error>)
    ensures
        *final(slot) == slot_after(*old(slot), crate_found(form, given, keyword, malformed)),
        r == answer_after(*old(slot), crate_found(form, given, keyword, malformed)),
{
    match form {
        CrateForm::Given => match given {
            Some(found) => set_parsed(slot, found),
            None => Err(malformed),
        },
        CrateForm::Bare => set_parsed(slot, Ok(keyword)),
        CrateForm::Malformed => Err(malformed),
    }
}

/// The message for an argument whose name is not known.
pub fn unrecognized() -> (message: &'static str)
    ensures
        message@ == "unrecognized archive argument"@,
{
    "unrecognized archive argument"
}

/// The message for a `crate` argument that is neither bare nor followed by
/// `=`.
pub fn expected_crate() -> (message: &'static str)
    ensures
        message@ == "expected `crate` or `crate = ...`"@,
{
    "expected `crate` or `crate = ...`"
}

/// What is done with an attribute.
pub open spec fn route_at(attr: Attribute) -> Route {
    route_of(attr_outer(attr), attr_ident(attr))
}

/// None of `attrs` is for this front end.
pub open spec fn all_skipped(attrs: Seq<Attribute>) -> bool {
    forall|i: int| 0 <= i < attrs.len() ==> route_at(#[trigger] attrs[i]) == Route::Skip
}

/// None of `attrs` is an `archive` attribute.
pub open spec fn no_archive(attrs: Seq<Attribute>) -> bool {
    forall|i: int| 0 <= i < attrs.len() ==> route_at(#[trigger] attrs[i]) != Route::Archive
}

/// None of `attrs` is an `archive_attr` attribute.
pub open spec fn no_archive_attr(attrs: Seq<Attribute>) -> bool {
    forall|i: int| 0 <= i < attrs.len() ==> route_at(#[trigger] attrs[i]) != Route::ArchiveAttr
}

/// The arguments of each `archive_attr` attribute among the first `n` of
/// `attrs` are a list of metas.
pub open spec fn lists_parse(attrs: Seq<Attribute>, n: int) -> bool {
    forall|i: int|
        0 <= i < n && route_at(#[trigger] attrs[i]) == Route::ArchiveAttr ==> attr_metas(attrs[i])
            is Ok
}

/// The metas that an attribute adds to the attributes of the archived type.
pub open spec fn added_metas(attr: Attribute) -> Seq<Meta> {
    if route_at(attr) == Route::ArchiveAttr && attr_metas(attr) is Ok {
        attr_metas(attr)->Ok_0
    } else {
        Seq::empty()
    }
}

/// The metas of the `archive_attr` attributes among the first `n` of
/// `attrs`, in the order in which they are written.
pub open spec fn kept_metas(attrs: Seq<Attribute>, n: nat) -> Seq<Meta>
    decreases n,
{
    if n == 0 {
        Seq::empty()
    } else {
        kept_metas(attrs, (n - 1) as nat) + added_metas(attrs[n - 1])
    }
}

/// The argument that an optional name names.
pub open spec fn argument_named(name: Option<Seq<char>>) -> Option<Argument> {
    match name {
        Some(n) => argument_of(n),
        None => None,
    }
}

/// The argument that an attribute names first, where it names one that is
/// known.
pub open spec fn leading(attr: Attribute) -> Option<Argument> {
    match attr_leading(attr) {
        Some(name) => argument_named(name),
        None => None,
    }
}

/// The first argument of an attribute has a name that is not known.
pub open spec fn leads_unknown(attr: Attribute) -> bool {
    attr_leading(attr) is Some && leading(attr) is None
}

/// The `archive` attributes `j` and `k` of `attrs`, in this order, both
/// start with the same argument.
pub open spec fn clash(attrs: Seq<Attribute>, j: int, k: int) -> bool {
    &&& 0 <= j < k < attrs.len()
    &&& route_at(attrs[j]) == Route::Archive
    &&& route_at(attrs[k]) == Route::Archive
    &&& leading(attrs[j]) is Some
    &&& leading(attrs[j]) == leading(attrs[k])
}

/// Two `archive` attributes of `attrs` start with the same argument.
pub open spec fn repeats(attrs: Seq<Attribute>) -> bool {
    exists|j: int, k: int| #[trigger] clash(attrs, j, k)
}

/// The `archive` attribute `k` of `attrs` starts with an argument whose name
/// is not known.
pub open spec fn unknown_at(attrs: Seq<Attribute>, k: int) -> bool {
    0 <= k < attrs.len() && route_at(attrs[k]) == Route::Archive && leads_unknown(attrs[k])
}

/// An `archive` attribute of `attrs` starts with an argument whose name is
/// not known.
pub open spec fn starts_unknown(attrs: Seq<Attribute>) -> bool {
    exists|k: int| #[trigger] unknown_at(attrs, k)
}

/// Where no attribute among the first `n` is an `archive_attr` attribute,
/// none adds a meta.
pub proof fn lemma_kept_nothing(attrs: Seq<Attribute>, n: nat)
    requires
        n <= attrs.len(),
        no_archive_attr(attrs),
    ensures
        kept_metas(attrs, n) == Seq::<Meta>::empty(),
    decreases n,
{
    if n > 0 {
        lemma_kept_nothing(attrs, (n - 1) as nat);
        assert(route_at(attrs[n - 1]) != Route::ArchiveAttr);
        assert(kept_metas(attrs, n) =~= Seq::<Meta>::empty());
    }
}

impl Attributes {
    /// The path under which the generated code finds this library, where one
    /// was given.
    pub closed spec fn spec_rkyv_path(&self) -> Option<Path> {
        self.rkyv_path
    }

    /// The attributes that are to be put on the archived type.
    pub closed spec fn spec_attrs(&self) -> Seq<Meta> {
        self.attrs@
    }

    /// Whether `argument` has been given.
    pub closed spec fn is_set(&self, argument: Argument) -> bool {
        match argument {
            Argument::CheckBytes => self.check_bytes is Some,
            Argument::CopySafe => self.copy_safe is Some,
            Argument::Compare => self.compares is Some,
            Argument::ArchiveBounds => self.archive_bounds is Some,
            Argument::SerializeBounds => self.serialize_bounds is Some,
            Argument::DeserializeBounds => self.deserialize_bounds is Some,
            Argument::Archived => self.archived is Some,
            Argument::Resolver => self.resolver is Some,
            Argument::As => self.archive_as is Some,
            Argument::Crate => self.spec_rkyv_path() is Some,
        }
    }

    /// Whether `self` and `other` agree on `argument`.
    pub closed spec fn same(&self, other: Attributes, argument: Argument) -> bool {
        match argument {
            Argument::CheckBytes => self.check_bytes == other.check_bytes,
            Argument::CopySafe => self.copy_safe == other.copy_safe,
            Argument::Compare => self.compares == other.compares,
            Argument::ArchiveBounds => self.archive_bounds == other.archive_bounds,
            Argument::SerializeBounds => self.serialize_bounds == other.serialize_bounds,
            Argument::DeserializeBounds => self.deserialize_bounds == other.deserialize_bounds,
            Argument::Archived => self.archived == other.archived,
            Argument::Resolver => self.resolver == other.resolver,
            Argument::As => self.archive_as == other.archive_as,
            Argument::Crate => self.spec_rkyv_path() == other.spec_rkyv_path(),
        }
    }

    /// `self` is `old` with `argument`, which was not set, now set, and
    /// nothing else changed.
    pub closed spec fn sets(&self, old: Attributes, argument: Argument) -> bool {
        &&& !old.is_set(argument)
        &&& self.is_set(argument)
        &&& self.attrs == old.attrs
        &&& forall|other: Argument| other != argument ==> self.same(old, other)
    }

    /// `self` holds all that `old` held: what was set is set to the same,
    /// and the attributes for the archived type start with those of `old`.
    pub closed spec fn extends(&self, old: Attributes) -> bool {
        &&& old.attrs@.is_prefix_of(self.attrs@)
        &&& forall|argument: Argument| old.is_set(argument) ==> self.same(old, argument)
    }

    /// Nothing is set.
    pub closed spec fn is_empty(&self) -> bool {
        &&& self.attrs@.len() == 0
        &&& forall|argument: Argument| !self.is_set(argument)
    }

    /// What reading the attributes `attrs` may answer.
    ///
    /// - Where it succeeds, the attributes for the archived type are the
    ///   metas of the `archive_attr` attributes in the order in which they
    ///   are written, the arguments of each of which were a list of metas,
    ///   so there are none without such an attribute; and an argument is
    ///   set only where there is an `archive` attribute.
    /// - Where it fails, an attribute failed before which every
    ///   `archive_attr` attribute was read; where that attribute is an
    ///   `archive_attr` attribute, the error is that of its parser.
    /// - Without `archive` attributes it succeeds exactly where the
    ///   arguments of every `archive_attr` attribute are a list of metas.
    /// - Where no attribute is for this front end, it succeeds and nothing
    ///   is asked for.
    /// - Where it succeeds, the argument that an `archive` attribute starts
    ///   with is set. It fails where two `archive` attributes start with the
    ///   same argument, and where one starts with a name that is not known.
    pub open spec fn reads(attrs: Seq<Attribute>, r: Result<Attributes, Error>) -> bool {
        &&& r matches Ok(asked) ==> {
            &&& asked.spec_attrs() == kept_metas(attrs, attrs.len())
            &&& lists_parse(attrs, attrs.len() as int)
            &&& no_archive(attrs) ==> asked.sets_nothing()
            &&& no_archive_attr(attrs) ==> asked.spec_attrs() == Seq::<Meta>::empty()
            &&& asked.leading_set(attrs, attrs.len() as int)
        }
        &&& repeats(attrs) ==> r is Err
        &&& starts_unknown(attrs) ==> r is Err
        &&& r matches Err(error) ==> Self::fails(attrs, error)
        &&& no_archive(attrs) ==> (r is Ok <==> lists_parse(attrs, attrs.len() as int))
        &&& all_skipped(attrs) ==> (r matches Ok(asked) && asked.is_empty())
    }

    /// One of `attrs` failed with `error`.
    pub open spec fn fails(attrs: Seq<Attribute>, error: Error) -> bool {
        exists|i: int| 0 <= i < attrs.len() && #[trigger] Self::failed_at(attrs, i, error)
    }

    /// The attribute `i` is one that can fail, every `archive_attr`
    /// attribute before it was read, and where it is an `archive_attr`
    /// attribute itself, `error` is the error of its parser.
    pub open spec fn failed_at(attrs: Seq<Attribute>, i: int, error: Error) -> bool {
        &&& route_at(attrs[i]) != Route::Skip
        &&& lists_parse(attrs, i)
        &&& route_at(attrs[i]) == Route::ArchiveAttr ==> attr_metas(attrs[i]) == Err::<
            Seq<Meta>,
            Error,
        >(error)
    }

    /// The argument that each `archive` attribute among the first `n` of
    /// `attrs` starts with is set.
    pub open spec fn leading_set(&self, attrs: Seq<Attribute>, n: int) -> bool {
        forall|k: int|
            0 <= k < n && route_at(#[trigger] attrs[k]) == Route::Archive && leading(attrs[k])
                is Some ==> self.is_set(leading(attrs[k])->Some_0)
    }

    /// No argument is set.
    pub closed spec fn sets_nothing(&self) -> bool {
        forall|argument: Argument| !self.is_set(argument)
    }

    /// A value for which nothing is asked has no argument set and no
    /// attributes for the archived type.
    pub proof fn lemma_empty(&self)
        requires
            self.is_empty(),
        ensures
            self.sets_nothing(),
            self.spec_attrs() == Seq::<Meta>::empty(),
            self.spec_rkyv_path() is None,
            forall|argument: Argument| !self.is_set(argument),
    {
        assert(!self.is_set(Argument::Crate));
        assert(self.spec_attrs() =~= Seq::<Meta>::empty());
    }

    /// Nothing is asked for exactly where no argument is set and there are
    /// no attributes for the archived type.
    pub proof fn lemma_is_empty(&self)
        ensures
            self.is_empty() <==> (self.sets_nothing() && self.spec_attrs().len() == 0),
    {
    }

    /// The `crate` argument is set exactly where a path for this library was
    /// given.
    pub proof fn lemma_crate_is_set(&self)
        ensures
            self.is_set(Argument::Crate) <==> self.spec_rkyv_path() is Some,
            self.sets_nothing() ==> self.spec_rkyv_path() is None,
    {
        if self.sets_nothing() {
            assert(!self.is_set(Argument::Crate));
        }
    }

    /// What it means that `argument` was set: it was not set before and is
    /// set now, every other argument is as it was, and so are the attributes
    /// for the archived type.
    pub proof fn lemma_sets(&self, old: Attributes, argument: Argument)
        requires
            self.sets(old, argument),
        ensures
            !old.is_set(argument),
            self.is_set(argument),
            self.spec_attrs() == old.spec_attrs(),
            forall|other: Argument| other != argument ==> self.same(old, other),
            forall|other: Argument| other != argument ==> self.is_set(other) == old.is_set(other),
            self.extends(old),
    {
        assert forall|other: Argument| other != argument implies self.is_set(other) == old.is_set(
            other,
        ) by {
            assert(self.same(old, other));
        }
    }

    /// An argument on which two values agree is set in both or in neither.
    pub proof fn lemma_same(&self, other: Attributes, argument: Argument)
        requires
            self.same(other, argument),
        ensures
            self.is_set(argument) == other.is_set(argument),
            argument == Argument::Crate ==> self.spec_rkyv_path() == other.spec_rkyv_path(),
    {
    }

    /// What it means that a value extends another: what was set stays set,
    /// to the same, and the attributes for the archived type start with
    /// those that were there.
    pub proof fn lemma_extends(&self, old: Attributes, argument: Argument)
        requires
            self.extends(old),
        ensures
            old.spec_attrs().is_prefix_of(self.spec_attrs()),
            old.is_set(argument) ==> self.is_set(argument) && self.same(old, argument),
    {
    }

    /// Whether `argument` has been given.
    pub fn is_given(&self, argument: Argument) -> (given: bool)
        ensures
            given == self.is_set(argument),
    {
        match argument {
            Argument::CheckBytes => self.check_bytes.is_some(),
            Argument::CopySafe => self.copy_safe.is_some(),
            Argument::Compare => self.compares.is_some(),
            Argument::ArchiveBounds => self.archive_bounds.is_some(),
            Argument::SerializeBounds => self.serialize_bounds.is_some(),
            Argument::DeserializeBounds => self.deserialize_bounds.is_some(),
            Argument::Archived => self.archived.is_some(),
            Argument::Resolver => self.resolver.is_some(),
            Argument::As => self.archive_as.is_some(),
            Argument::Crate => self.rkyv_path.is_some(),
        }
    }

    /// Takes one argument of an `archive` attribute.
    pub(crate) fn parse_meta(&mut self, meta: ParseNestedMeta<'_>) -> (r: Result<(), Error>)
        ensures
            argument_named(meta_ident(meta)) is None ==> (r matches Err(error) && error_text(error)
                == "unrecognized archive argument"@),
            (argument_named(meta_ident(meta)) matches Some(a) && old(self).is_set(a)) ==> r is Err,
            r is Ok ==> (argument_named(meta_ident(meta)) matches Some(a) && final(self).sets(
                *old(self),
                a,
            )),
            r is Err ==> *final(self) == *old(self),
            final(self).extends(*old(self)),
            final(self).spec_attrs() == old(self).spec_attrs(),
    {
        let argument: Option<Argument> = match meta_name(&meta) {
            Some(name) => Argument::from_name(name.as_str()),
            None => None,
        };
        self.set_argument(argument, meta)
    }

    /// Takes one argument of an `archive` attribute, whose name has been
    /// looked up: `argument` is `None` where the name is not known. An
    /// argument is set at most once, and a failure changes nothing. What is
    /// stored, and which error is returned, is what `set_flag`,
    /// `set_parsed` and `set_crate` say of what `syn` found.
    pub(crate) fn set_argument(
        &mut self,
        argument: Option<Argument>,
        meta: ParseNestedMeta<'_>,
    ) -> (r: Result<(), Error>)
        ensures
            argument is None ==> (r matches Err(error) && error_text(error)
                == "unrecognized archive argument"@),
            (argument matches Some(a) && old(self).is_set(a)) ==> r is Err,
            r is Ok ==> (argument matches Some(a) && final(self).sets(*old(self), a)),
            r is Err ==> *final(self) == *old(self),
    {
        match argument {
            None => Err(meta_error(&meta, unrecognized())),
            Some(Argument::CheckBytes) => {
                let alone: bool = stands_alone(meta_at_end(&meta), meta_at_comma(&meta));
                let message: String = must_be_path(Argument::CheckBytes.name());
                let refused: Error = meta_error(&meta, message.as_str());
                let path: Path = meta_into_path(meta);
                let twice: Error = spanned_error(
                    path_tokens(&path),
                    already_specified(Argument::CheckBytes.name()),
                );
                set_flag(&mut self.check_bytes, alone, path, refused, twice)
            },
            Some(Argument::CopySafe) => {
                let alone: bool = stands_alone(meta_at_end(&meta), meta_at_comma(&meta));
                let message: String = must_be_path(Argument::CopySafe.name());
                let refused: Error = meta_error(&meta, message.as_str());
                let path: Path = meta_into_path(meta);
                let twice: Error = spanned_error(
                    path_tokens(&path),
                    already_specified(Argument::CopySafe.name()),
                );
                set_flag(&mut self.copy_safe, alone, path, refused, twice)
            },
            Some(Argument::Compare) => {
                let found: Found<Punctuated<Path, Comma>> = match parse_path_list(&meta) {
                    Ok(traits) => {
                        let twice: Error = spanned_error(
                            path_list_tokens(&traits),
                            already_specified(Argument::Compare.name()),
                        );
                        Ok((traits, twice))
                    },
                    Err(error) => Err(error),
                };
                set_parsed(&mut self.compares, found)
            },
            Some(Argument::ArchiveBounds) => {
                let found: Found<Punctuated<WherePredicate, Comma>> = match parse_predicate_list(
                    &meta,
                ) {
                    Ok(clauses) => {
                        let twice: Error = spanned_error(
                            predicate_list_tokens(&clauses),
                            already_specified(Argument::ArchiveBounds.name()),
                        );
                        Ok((clauses, twice))
                    },
                    Err(error) => Err(error),
                };
                set_parsed(&mut self.archive_bounds, found)
            },
            Some(Argument::SerializeBounds) => {
                let found: Found<Punctuated<WherePredicate, Comma>> = match parse_predicate_list(
                    &meta,
                ) {
                    Ok(clauses) => {
                        let twice: Error = spanned_error(
                            predicate_list_tokens(&clauses),
                            already_specified(Argument::SerializeBounds.name()),
                        );
                        Ok((clauses, twice))
                    },
                    Err(error) => Err(error),
                };
                set_parsed(&mut self.serialize_bounds, found)
            },
            Some(Argument::DeserializeBounds) => {
                let found: Found<Punctuated<WherePredicate, Comma>> = match parse_predicate_list(
                    &meta,
                ) {
                    Ok(clauses) => {
                        let twice: Error = spanned_error(
                            predicate_list_tokens(&clauses),
                            already_specified(Argument::DeserializeBounds.name()),
                        );
                        Ok((clauses, twice))
                    },
                    Err(error) => Err(error),
                };
                set_parsed(&mut self.deserialize_bounds, found)
            },
            Some(Argument::Archived) => {
                let found: Found<Ident> = Self::find_ident(&meta, Argument::Archived);
                set_parsed(&mut self.archived, found)
            },
            Some(Argument::Resolver) => {
                let found: Found<Ident> = Self::find_ident(&meta, Argument::Resolver);
                set_parsed(&mut self.resolver, found)
            },
            Some(Argument::As) => {
                let found: Found<LitStr> = match meta_value(&meta) {
                    Ok(()) => match parse_lit_str(&meta) {
                        Ok(name) => {
                            let twice: Error = spanned_error(
                                lit_str_tokens(&name),
                                already_specified(Argument::As.name()),
                            );
                            Ok((name, twice))
                        },
                        Err(error) => Err(error),
                    },
                    Err(error) => Err(error),
                };
                set_parsed(&mut self.archive_as, found)
            },
            Some(Argument::Crate) => {
                let has_value: bool = meta_value(&meta).is_ok();
                let form: CrateForm = crate_form(has_value, meta_at_end(&meta));
                let given: Option<Found<Path>> = match form {
                    CrateForm::Given => match parse_path(&meta) {
                        Ok(path) => {
                            let twice: Error = spanned_error(
                                path_tokens(&path),
                                already_specified(Argument::Crate.name()),
                            );
                            Some(Ok((path, twice)))
                        },
                        Err(error) => Some(Err(error)),
                    },
                    _ => None,
                };
                let keyword: Path = keyword_path(Argument::Crate.name());
                let twice: Error = spanned_error(
                    path_tokens(&keyword),
                    already_specified(Argument::Crate.name()),
                );
                let malformed: Error = meta_error(&meta, expected_crate());
                set_crate(&mut self.rkyv_path, form, given, (keyword, twice), malformed)
            },
        }
    }

    /// Looks for `= name` where the input of `meta` stands, for the
    /// argument `argument`.
    fn find_ident(meta: &ParseNestedMeta<'_>, argument: Argument) -> (found: Found<Ident>)
        ensures
            found matches Ok(pair) ==> error_text(pair.1) == argument.spec_name()
                + " already specified"@,
    {
        match meta_value(meta) {
            Ok(()) => match parse_ident(meta) {
                Ok(ident) => {
                    let twice: Error = spanned_error(
                        ident_tokens(&ident),
                        already_specified(argument.name()),
                    );
                    Ok((ident, twice))
                },
                Err(error) => Err(error),
            },
            Err(error) => Err(error),
        }
    }

    /// Takes what the arguments of an `archive_attr` attribute were parsed
    /// to. Where they were parsed, they are added, in order, to the
    /// attributes for the archived type, and nothing else changes; where
    /// they were not, nothing changes and the error of the parser is
    /// returned.
    pub fn keep_attrs(&mut self, parsed: Result<Vec<Meta>, Error>) -> (r: Result<(), Error>)
        ensures
            parsed matches Ok(metas) ==> (r is Ok && final(self).spec_attrs() == old(
                self,
            ).spec_attrs() + metas@),
            parsed matches Err(error) ==> (r == Err::<(), Error>(error) && *final(self) == *old(
                self,
            )),
            forall|argument: Argument| final(self).same(*old(self), argument),
    {
        match parsed {
            Ok(metas) => {
                let mut metas: Vec<Meta> = metas;
                self.attrs.append(&mut metas);
                Ok(())
            },
            Err(error) => Err(error),
        }
    }

    /// Takes one attribute of the input, which `route` says what to do with.
    /// A skipped attribute changes nothing. An `archive_attr` attribute adds
    /// its metas where its arguments are a list of metas, and else fails
    /// with the error of the parser and changes nothing. An `archive`
    /// attribute only adds to the arguments that are set.
    pub(crate) fn take_attribute(&mut self, route: Route, attr: &Attribute) -> (r: Result<
        (),
        Error,
    >)
        ensures
            final(self).extends(*old(self)),
            route == Route::Skip ==> r is Ok && *final(self) == *old(self),
            route == Route::Archive ==> final(self).spec_attrs() == old(self).spec_attrs(),
            (route == Route::Archive && leads_unknown(*attr)) ==> r is Err && *final(self) == *old(
                self,
            ),
            (route == Route::Archive && leading(*attr) is Some && old(self).is_set(
                leading(*attr)->Some_0,
            )) ==> r is Err && *final(self) == *old(self),
            (route == Route::Archive && leading(*attr) is Some && r is Ok) ==> final(self).is_set(
                leading(*attr)->Some_0,
            ),
            route == Route::ArchiveAttr ==> forall|argument: Argument|
                final(self).same(*old(self), argument),
            (route == Route::ArchiveAttr && attr_metas(*attr) is Ok) ==> (r is Ok
                && final(self).spec_attrs() == old(self).spec_attrs() + attr_metas(
                *attr,
            )->Ok_0),
            (route == Route::ArchiveAttr && attr_metas(*attr) is Err) ==> (r == Err::<(), Error>(
                attr_metas(*attr)->Err_0,
            ) && *final(self) == *old(self)),
    {
        match route {
            Route::Skip => Ok(()),
            Route::Archive => parse_nested(attr, self),
            Route::ArchiveAttr => self.keep_attrs(parse_meta_list(attr)),
        }
    }

    /// Reads what the attributes of `input` ask for. Outer `archive` and
    /// `archive_attr` attributes are read in order; all others are passed
    /// over.
    pub fn parse(input: &DeriveInput) -> (r: Result<Attributes, Error>)
        ensures
            Self::reads(input_attr_list(*input), r),
    {
        Self::parse_attributes(input_attrs(input))
    }

    /// Reads what `attrs` ask for, in order. Outer `archive` and
    /// `archive_attr` attributes are read; all others are passed over. The
    /// first attribute that fails ends the reading with its error.
    pub fn parse_attributes(attrs: &Vec<Attribute>) -> (r: Result<Attributes, Error>)
        ensures
            Self::reads(attrs@, r),
    {
        let mut result: Attributes = Attributes::default();
        let mut i: usize = 0;
        proof {
            result.lemma_empty();
        }
        while i < attrs.len()
            invariant
                i <= attrs@.len(),
                result.spec_attrs() == kept_metas(attrs@, i as nat),
                lists_parse(attrs@, i as int),
                (forall|k: int| 0 <= k < i ==> route_at(#[trigger] attrs@[k]) != Route::Archive)
                    ==> result.sets_nothing(),
                result.leading_set(attrs@, i as int),
                forall|j: int, k: int| k < i ==> !#[trigger] clash(attrs@, j, k),
                forall|k: int| k < i ==> !#[trigger] unknown_at(attrs@, k),
            decreases attrs@.len() - i,
        {
            let attr: &Attribute = &attrs[i];
            let name: Option<String> = attr_name(attr);
            let to: Route = route(
                attr_is_outer(attr),
                match &name {
                    Some(n) => Some(n.as_str()),
                    None => None,
                },
            );
            assert(to == route_at(*attr));
            let ghost before = result;
            match result.take_attribute(to, attr) {
                Ok(()) => {
                    proof {
                        if to != Route::Archive {
                            assert forall|argument: Argument| result.is_set(argument)
                                == before.is_set(argument) by {
                                assert(result.same(before, argument));
                            }
                        }
                        assert(result.spec_attrs() =~= kept_metas(attrs@, (i + 1) as nat));
                        assert forall|k: int|
                            0 <= k < i + 1 && route_at(#[trigger] attrs@[k]) == Route::Archive
                                && leading(attrs@[k]) is Some implies result.is_set(
                            leading(attrs@[k])->Some_0,
                        ) by {
                            if k < i {
                                result.lemma_extends(before, leading(attrs@[k])->Some_0);
                            }
                        }
                        assert forall|j: int, k: int| k < i + 1 implies !#[trigger] clash(
                            attrs@,
                            j,
                            k,
                        ) by {
                            if k == i && clash(attrs@, j, k) {
                                assert(before.is_set(leading(attrs@[j])->Some_0));
                            }
                        }
                    }
                },
                Err(error) => {
                    proof {
                        assert(attrs@[i as int] == *attr);
                        assert(to != Route::Skip);
                        if to == Route::ArchiveAttr {
                            assert(attr_metas(*attr) is Err);
                            assert(!lists_parse(attrs@, attrs@.len() as int));
                        }
                        assert(Self::failed_at(attrs@, i as int, error));
                        assert(!all_skipped(attrs@));
                        assert(no_archive(attrs@) ==> !lists_parse(attrs@, attrs@.len() as int));
                        assert(Self::fails(attrs@, error));
                    }
                    return Err(error);
                },
            }
            i = i + 1;
        }
        proof {
            if no_archive_attr(attrs@) {
                lemma_kept_nothing(attrs@, attrs@.len());
            }
            if all_skipped(attrs@) {
                assert(no_archive(attrs@));
                assert(no_archive_attr(attrs@));
                result.lemma_is_empty();
            }
            if repeats(attrs@) {
                let (j, k) = choose|j: int, k: int| #[trigger] clash(attrs@, j, k);
                assert(!clash(attrs@, j, k));
            }
            if starts_unknown(attrs@) {
                let k = choose|k: int| #[trigger] unknown_at(attrs@, k);
                assert(!unknown_at(attrs@, k));
            }
        }
        Ok(result)
    }

    /// The path under which the generated code finds this library: the one
    /// that a `crate` argument gave, or else `::rkyv`.
    pub fn rkyv_path(&self) -> (path: Path)
        ensures
            self.spec_rkyv_path() matches Some(given) ==> path == given,
            self.spec_rkyv_path() is None ==> path_text(path) == "::"@ + "rkyv"@,
    {
        match &self.rkyv_path {
            Some(path) => clone_path(path),
            None => absolute_path("rkyv"),
        }
    }
}

impl Default for Attributes {
    /// Nothing is set.
    fn default() -> (r: Attributes)
        ensures
            r.is_empty(),
    {
        Attributes {
            archive_as: None,
            archived: None,
            resolver: None,
            attrs: Vec::new(),
            compares: None,
            archive_bounds: None,
            serialize_bounds: None,
            deserialize_bounds: None,
            check_bytes: None,
            copy_safe: None,
            rkyv_path: None,
        }
    }
}

} // verus!
