//! The Rust parser's side of extraction: syn parses a file, and its items
//! are read out as plain values. Nothing here is verified; each item names
//! what it relies on.
use vstd::prelude::*;

verus! {

#[verifier::external_type_specification]
#[verifier::external_body]
pub struct ExItem(syn::Item);

#[verifier::external_type_specification]
#[verifier::external_body]
pub struct ExItemFn(syn::ItemFn);

#[verifier::external_type_specification]
#[verifier::external_body]
pub struct ExItemStruct(syn::ItemStruct);

#[verifier::external_type_specification]
#[verifier::external_body]
pub struct ExItemEnum(syn::ItemEnum);

#[verifier::external_type_specification]
#[verifier::external_body]
pub struct ExItemImpl(syn::ItemImpl);

#[verifier::external_type_specification]
#[verifier::external_body]
pub struct ExImplItem(syn::ImplItem);

#[verifier::external_type_specification]
#[verifier::external_body]
pub struct ExImplItemFn(syn::ImplItemFn);

#[verifier::external_type_specification]
#[verifier::external_body]
pub struct ExAttribute(syn::Attribute);

/// What extraction reads of a declaration: its identifier, its printed
/// tokens, its attributes as (is a doc comment, printed tokens), and lines
/// (1-based): the identifier's, and the first and last of its span.
pub struct PlainParts {
    pub name: String,
    pub tokens: String,
    pub docs: Vec<(bool, String)>,
    pub ident_line: usize,
    pub start_line: usize,
    pub end_line: usize,
}

/// An `impl` block: its target type printed as tokens, and for each member
/// the parts of the member if it is a method.
pub struct PlainImpl {
    pub self_ty: String,
    pub members: Vec<Option<PlainParts>>,
}

/// A top-level item, by the kinds that extraction reads. For a free
/// function the tokens are those of its signature and `end_line` is the
/// line of the body's closing brace.
pub enum PlainItem {
    Function(PlainParts),
    Struct(PlainParts),
    Enum(PlainParts),
    Impl(PlainImpl),
    Other,
}

/// The top-level items of a Rust source text, or `None` where the text does
/// not parse.
pub uninterp spec fn parsed_items(text: Seq<char>) -> Option<Seq<PlainItem>>;

/// Relies on `syn::parse_file`: the items of the text, read out by the
/// conversions below; the result depends on the text alone.
#[verifier::external_body]
pub(crate) fn parse_source(text: &str) -> (r: Option<Vec<PlainItem>>)
    ensures
        r matches Some(v) ==> parsed_items(text@) == Some(v@),
        r is None ==> parsed_items(text@) is None,
{
    syn::parse_file(text).ok().map(|file| file.items.into_iter().map(plain_item).collect())
}

/// Relies on the variants of `syn::Item`: each kind read by its conversion.
#[verifier::external_body]
fn plain_item(item: syn::Item) -> (r: PlainItem) {
    match item {
        syn::Item::Fn(f) => PlainItem::Function(fn_parts(&f)),
        syn::Item::Struct(s) => PlainItem::Struct(struct_parts(&s)),
        syn::Item::Enum(e) => PlainItem::Enum(enum_parts(&e)),
        syn::Item::Impl(i) => PlainItem::Impl(impl_parts(i)),
        _ => PlainItem::Other,
    }
}

/// Relies on `quote::ToTokens` to print the block's target type; the
/// members in order.
#[verifier::external_body]
fn impl_parts(item: syn::ItemImpl) -> (r: PlainImpl) {
    let self_ty = quote::ToTokens::to_token_stream(&item.self_ty).to_string();
    PlainImpl { self_ty, members: item.items.into_iter().map(member_parts).collect() }
}

/// Relies on the variants of `syn::ImplItem`: the parts of a method.
#[verifier::external_body]
fn member_parts(member: syn::ImplItem) -> (r: Option<PlainParts>) {
    match member {
        syn::ImplItem::Fn(f) => Some(method_parts(&f)),
        _ => None,
    }
}

/// Relies on `syn::Attribute::path`, `syn::Path::is_ident` and
/// `quote::ToTokens`: each attribute as (is a doc comment, printed tokens).
#[verifier::external_body]
fn plain_docs(attrs: &Vec<syn::Attribute>) -> (r: Vec<(bool, String)>) {
    attrs
        .iter()
        .map(|a| (a.path().is_ident("doc"), quote::ToTokens::to_token_stream(a).to_string()))
        .collect()
}

/// Relies on `syn::Ident`'s `Display`, `quote::ToTokens`, and
/// `Spanned::span` with proc-macro2's `Span::start`/`Span::end`
/// (feature span-locations): the struct's parts.
#[verifier::external_body]
fn struct_parts(item: &syn::ItemStruct) -> (r: PlainParts) {
    PlainParts {
        name: item.ident.to_string(),
        tokens: quote::ToTokens::to_token_stream(item).to_string(),
        docs: plain_docs(&item.attrs),
        ident_line: item.ident.span().start().line,
        start_line: syn::spanned::Spanned::span(item).start().line,
        end_line: syn::spanned::Spanned::span(item).end().line,
    }
}

/// As `struct_parts`, for an enum declaration.
#[verifier::external_body]
fn enum_parts(item: &syn::ItemEnum) -> (r: PlainParts) {
    PlainParts {
        name: item.ident.to_string(),
        tokens: quote::ToTokens::to_token_stream(item).to_string(),
        docs: plain_docs(&item.attrs),
        ident_line: item.ident.span().start().line,
        start_line: syn::spanned::Spanned::span(item).start().line,
        end_line: syn::spanned::Spanned::span(item).end().line,
    }
}

/// As `struct_parts`, for a free function; the tokens are those of its
/// signature, and `end_line` is the line of the body's closing brace.
#[verifier::external_body]
fn fn_parts(item: &syn::ItemFn) -> (r: PlainParts) {
    PlainParts {
        name: item.sig.ident.to_string(),
        tokens: quote::ToTokens::to_token_stream(&item.sig).to_string(),
        docs: plain_docs(&item.attrs),
        ident_line: item.sig.ident.span().start().line,
        start_line: syn::spanned::Spanned::span(item).start().line,
        end_line: syn::spanned::Spanned::span(&item.block).end().line,
    }
}

/// As `struct_parts`, for a method of an `impl` block; the tokens are those
/// of its signature.
#[verifier::external_body]
fn method_parts(item: &syn::ImplItemFn) -> (r: PlainParts) {
    PlainParts {
        name: item.sig.ident.to_string(),
        tokens: quote::ToTokens::to_token_stream(&item.sig).to_string(),
        docs: plain_docs(&item.attrs),
        ident_line: item.sig.ident.span().start().line,
        start_line: syn::spanned::Spanned::span(item).start().line,
        end_line: syn::spanned::Spanned::span(item).end().line,
    }
}

} // verus!
