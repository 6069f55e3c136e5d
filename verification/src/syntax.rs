//! The syntax tree of the derive input, as far as the attribute front end
//! looks at it. Parsing Rust syntax is left to `syn`: the types here are
//! carried through unopened, and each function makes one call into it.

use crate::attributes::{leading, Attributes};
use proc_macro2::{Ident, Span, TokenStream};
use quote::ToTokens;
use syn::meta::ParseNestedMeta;
use syn::punctuated::Punctuated;
use syn::token::Comma;
use syn::{Attribute, DeriveInput, Error, LitStr, Meta, Path, WherePredicate};
use vstd::prelude::*;

verus! {

/// `syn::DeriveInput`: the item that a derive macro is applied to.
#[verifier::external_type_specification]
#[verifier::external_body]
pub struct ExDeriveInput(syn::DeriveInput);

/// `syn::Attribute`: one attribute of an item.
#[verifier::external_type_specification]
#[verifier::external_body]
pub struct ExAttribute(syn::Attribute);

/// `syn::meta::ParseNestedMeta`: one argument of an attribute, with the
/// input that follows its path.
#[verifier::external_type_specification]
#[verifier::external_body]
pub struct ExParseNestedMeta<'a>(syn::meta::ParseNestedMeta<'a>);

/// `syn::Error`: an error with the place in the source that it is about.
#[verifier::external_type_specification]
#[verifier::external_body]
pub struct ExError(syn::Error);

/// `syn::Path`: a path such as `a::b`.
#[verifier::external_type_specification]
#[verifier::external_body]
pub struct ExPath(syn::Path);

/// `proc_macro2::Ident`: an identifier.
#[verifier::external_type_specification]
#[verifier::external_body]
pub struct ExIdent(proc_macro2::Ident);

/// `syn::LitStr`: a string literal.
#[verifier::external_type_specification]
#[verifier::external_body]
pub struct ExLitStr(syn::LitStr);

/// `syn::Meta`: the content of an attribute.
#[verifier::external_type_specification]
#[verifier::external_body]
pub struct ExMeta(syn::Meta);

/// `syn::WherePredicate`: one bound of a `where` clause.
#[verifier::external_type_specification]
#[verifier::external_body]
pub struct ExWherePredicate(syn::WherePredicate);

/// `syn::token::Comma`: the token `,`.
#[verifier::external_type_specification]
#[verifier::external_body]
pub struct ExComma(syn::token::Comma);

/// `proc_macro2::TokenStream`: a sequence of tokens.
#[verifier::external_type_specification]
#[verifier::external_body]
pub struct ExTokenStream(proc_macro2::TokenStream);

/// `syn::punctuated::Punctuated`: a list of items with separators.
#[verifier::external_type_specification]
#[verifier::external_body]
#[verifier::reject_recursive_types(T)]
#[verifier::reject_recursive_types(P)]
pub struct ExPunctuated<T, P>(syn::punctuated::Punctuated<T, P>);

/// The attributes of an item, in the order in which they are written.
pub uninterp spec fn input_attr_list(input: DeriveInput) -> Seq<Attribute>;

/// Whether an attribute is an outer one.
pub uninterp spec fn attr_outer(attr: Attribute) -> bool;

/// The name of an attribute, where its path is a single identifier.
pub uninterp spec fn attr_ident(attr: Attribute) -> Option<Seq<char>>;

/// What the arguments of an attribute are when they are read as a list of
/// metas between commas: the metas in order, or the error of the parser.
pub uninterp spec fn attr_metas(attr: Attribute) -> Result<Seq<Meta>, Error>;

/// The name of the first argument of an attribute, where the attribute has
/// arguments in parentheses that start with a path: `Some(None)` where that
/// path is no single identifier, and `None` where there is no such path.
pub uninterp spec fn attr_leading(attr: Attribute) -> Option<Option<Seq<char>>>;

/// The name of an argument, where its path is a single identifier. It
/// belongs to the argument, not to the place in the input that the argument
/// stands at.
pub uninterp spec fn meta_ident(meta: ParseNestedMeta<'_>) -> Option<Seq<char>>;

/// The message of an error.
pub uninterp spec fn error_text(error: Error) -> Seq<char>;

/// A path as it is written, without spaces: its segments with `::` between
/// them, after a `::` where it starts with one.
pub uninterp spec fn path_text(path: Path) -> Seq<char>;

/// The text of a name, where there is one.
pub open spec fn name_text(name: Option<String>) -> Option<Seq<char>> {
    match name {
        Some(n) => Some(n@),
        None => None,
    }
}

/// The metas of a list that was parsed, or the error of the parser.
pub open spec fn metas_of(parsed: Result<Vec<Meta>, Error>) -> Result<Seq<Meta>, Error> {
    match parsed {
        Ok(metas) => Ok(metas@),
        Err(error) => Err(error),
    }
}

/// The attributes of a derive input: its field `attrs`.
#[verifier::external_body]
pub(crate) fn input_attrs(input: &DeriveInput) -> (attrs: &Vec<Attribute>)
    ensures
        attrs@ == input_attr_list(*input),
{
    &input.attrs
}

/// Whether an attribute is an outer one (`#[..]`, not `#![..]`): its field
/// `style`.
#[verifier::external_body]
pub(crate) fn attr_is_outer(attr: &Attribute) -> (outer: bool)
    ensures
        outer == attr_outer(*attr),
{
    matches!(attr.style, syn::AttrStyle::Outer)
}

/// The name of an attribute, where its path is a single identifier:
/// `Attribute::path` and `Path::get_ident`, the identifier as text.
#[verifier::external_body]
pub(crate) fn attr_name(attr: &Attribute) -> (name: Option<String>)
    ensures
        name_text(name) == attr_ident(*attr),
{
    match attr.path().get_ident() {
        Some(ident) => Some(ident.to_string()),
        None => None,
    }
}

/// The name of an argument, where its path is a single identifier:
/// `Path::get_ident` on the argument's path, the identifier as text.
#[verifier::external_body]
pub(crate) fn meta_name(meta: &ParseNestedMeta<'_>) -> (name: Option<String>)
    ensures
        name_text(name) == meta_ident(*meta),
{
    match meta.path.get_ident() {
        Some(ident) => Some(ident.to_string()),
        None => None,
    }
}

/// The path of an argument: its field `path`.
#[verifier::external_body]
pub(crate) fn meta_into_path(meta: ParseNestedMeta<'_>) -> (path: Path) {
    meta.path
}

/// Whether nothing follows where the argument's input stands:
/// `ParseBuffer::is_empty`.
#[verifier::external_body]
pub(crate) fn meta_at_end(meta: &ParseNestedMeta<'_>) -> (empty: bool) {
    meta.input.is_empty()
}

/// Whether a comma follows where the argument's input stands:
/// `ParseBuffer::peek`.
#[verifier::external_body]
pub(crate) fn meta_at_comma(meta: &ParseNestedMeta<'_>) -> (comma: bool) {
    meta.input.peek(Comma)
}

/// An error with the given message that points at the argument:
/// `ParseNestedMeta::error`.
#[verifier::external_body]
pub(crate) fn meta_error(meta: &ParseNestedMeta<'_>, message: &str) -> (error: Error)
    ensures
        error_text(error) == message@,
{
    meta.error(message)
}

/// An error with the given message that points at the given tokens:
/// `Error::new_spanned`.
#[verifier::external_body]
pub(crate) fn spanned_error(tokens: TokenStream, message: String) -> (error: Error)
    ensures
        error_text(error) == message@,
{
    Error::new_spanned(tokens, message)
}

/// The tokens of a path: `ToTokens::to_token_stream`.
#[verifier::external_body]
pub(crate) fn path_tokens(value: &Path) -> (tokens: TokenStream) {
    value.to_token_stream()
}

/// The tokens of an identifier: `ToTokens::to_token_stream`.
#[verifier::external_body]
pub(crate) fn ident_tokens(value: &Ident) -> (tokens: TokenStream) {
    value.to_token_stream()
}

/// The tokens of a string literal: `ToTokens::to_token_stream`.
#[verifier::external_body]
pub(crate) fn lit_str_tokens(value: &LitStr) -> (tokens: TokenStream) {
    value.to_token_stream()
}

/// The tokens of a list of paths: `ToTokens::to_token_stream`.
#[verifier::external_body]
pub(crate) fn path_list_tokens(value: &Punctuated<Path, Comma>) -> (tokens: TokenStream) {
    value.to_token_stream()
}

/// The tokens of a list of where predicates: `ToTokens::to_token_stream`.
#[verifier::external_body]
pub(crate) fn predicate_list_tokens(value: &Punctuated<WherePredicate, Comma>) -> (tokens:
    TokenStream) {
    value.to_token_stream()
}

/// Moves the argument's input past an `=`, or fails and leaves it where it
/// was: `ParseNestedMeta::value`.
#[verifier::external_body]
pub(crate) fn meta_value(meta: &ParseNestedMeta<'_>) -> (r: Result<(), Error>) {
    match meta.value() {
        Ok(_) => Ok(()),
        Err(error) => Err(error),
    }
}

/// Parses an identifier from the argument's input: `ParseBuffer::parse`.
#[verifier::external_body]
pub(crate) fn parse_ident(meta: &ParseNestedMeta<'_>) -> (r: Result<Ident, Error>) {
    meta.input.parse::<Ident>()
}

/// Parses a string literal from the argument's input: `ParseBuffer::parse`.
#[verifier::external_body]
pub(crate) fn parse_lit_str(meta: &ParseNestedMeta<'_>) -> (r: Result<LitStr, Error>) {
    meta.input.parse::<LitStr>()
}

/// Parses a path from the argument's input: `ParseBuffer::parse`.
#[verifier::external_body]
pub(crate) fn parse_path(meta: &ParseNestedMeta<'_>) -> (r: Result<Path, Error>) {
    meta.input.parse::<Path>()
}

/// Parses a parenthesised, comma-separated list of paths from the argument's
/// input: `parse_parens`, which is what `parenthesized!` stands for, then
/// `ParseBuffer::parse_terminated`.
#[verifier::external_body]
pub(crate) fn parse_path_list(meta: &ParseNestedMeta<'_>) -> (r: Result<
    Punctuated<Path, Comma>,
    Error,
>) {
    match syn::__private::parse_parens(meta.input) {
        Ok(parens) => parens.content.parse_terminated(<Path as syn::parse::Parse>::parse, Comma),
        Err(error) => Err(error),
    }
}

/// Parses a parenthesised, comma-separated list of where predicates from the
/// argument's input: `parse_parens`, which is what `parenthesized!` stands
/// for, then `ParseBuffer::parse_terminated`.
#[verifier::external_body]
pub(crate) fn parse_predicate_list(meta: &ParseNestedMeta<'_>) -> (r: Result<
    Punctuated<WherePredicate, Comma>,
    Error,
>) {
    match syn::__private::parse_parens(meta.input) {
        Ok(parens) => parens.content.parse_terminated(
            <WherePredicate as syn::parse::Parse>::parse,
            Comma,
        ),
        Err(error) => Err(error),
    }
}

/// Parses the arguments of an attribute as a comma-separated list of metas
/// and hands them out in order: `Attribute::parse_args_with` with
/// `Punctuated::parse_terminated`.
#[verifier::external_body]
pub(crate) fn parse_meta_list(attr: &Attribute) -> (r: Result<Vec<Meta>, Error>)
    ensures
        metas_of(r) == attr_metas(*attr),
{
    match attr.parse_args_with(Punctuated::<Meta, Comma>::parse_terminated) {
        Ok(list) => Ok(list.into_iter().collect()),
        Err(error) => Err(error),
    }
}

/// Parses the arguments of an attribute one by one and hands each to
/// `Attributes::parse_meta`, up to the first that fails:
/// `Attribute::parse_nested_meta`. Whatever the arguments are, the result
/// comes about by calls of `parse_meta` in a row, each of which only adds to
/// what is set. The first argument is handed over before anything else is
/// read: where `parse_meta` refuses it, because its name is not known or
/// because it is set already, the call fails and nothing has changed; and
/// where the call succeeds, `parse_meta` has set it.
#[verifier::external_body]
pub(crate) fn parse_nested(attr: &Attribute, result: &mut Attributes) -> (r: Result<(), Error>)
    ensures
        final(result).extends(*old(result)),
        final(result).spec_attrs() == old(result).spec_attrs(),
        (attr_leading(*attr) is Some && leading(*attr) is None) ==> r is Err && *final(result)
            == *old(result),
        (leading(*attr) is Some && old(result).is_set(leading(*attr)->Some_0)) ==> r is Err
            && *final(result) == *old(result),
        (leading(*attr) is Some && r is Ok) ==> r is Ok && final(result).is_set(
            leading(*attr)->Some_0,
        ),
{
    attr.parse_nested_meta(|meta| result.parse_meta(meta))
}

/// The path that is the keyword `crate` alone: `Ident::new`, which takes
/// keywords too, and `Path::from`.
#[verifier::external_body]
pub(crate) fn keyword_path(name: &str) -> (path: Path)
    requires
        name@ == "crate"@,
    ensures
        path_text(path) == name@,
{
    Path::from(Ident::new(name, Span::call_site()))
}

/// The path `::rkyv`, a single segment after a leading `::`: `Ident::new`
/// and `Path::from`.
#[verifier::external_body]
pub(crate) fn absolute_path(name: &str) -> (path: Path)
    requires
        name@ == "rkyv"@,
    ensures
        path_text(path) == "::"@ + name@,
{
    let mut path = Path::from(Ident::new(name, Span::call_site()));
    path.leading_colon = Some(syn::token::PathSep::default());
    path
}

/// A copy of a path: `Clone::clone`.
#[verifier::external_body]
pub(crate) fn clone_path(path: &Path) -> (copy: Path)
    ensures
        copy == *path,
{
    path.clone()
}

} // verus!
