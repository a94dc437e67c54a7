//! Extraction: from the source files of a tree to an ordered list of code
//! entities with their locations and snippets.
use vstd::prelude::*;

use crate::entity::{
    lemma_joined_line_count, line_views, newline_count, no_line_breaks, opt_view,
    snippet_of, views, CodeModel, CodeType, ContextModel, TCode, TContext,
};
use crate::syntax::{parse_source, parsed_items, PlainImpl, PlainItem, PlainParts};
use vstd::string::*;

verus! {

/// Why an extraction run failed; each names the file concerned.
#[derive(Debug)]
pub enum ExtractionError {
    /// The root or a file could not be read.
    Unreadable { path: String },
    /// A file is not valid Rust.
    Syntax { path: String },
    /// A declaration's span does not lie within its file's lines.
    Span { path: String },
}

/// The located parts of one declaration, as plain values.
pub struct Decl {
    pub name: String,
    pub signature: String,
    pub docstring: Option<String>,
    pub line: usize,
    pub line_from: usize,
    pub line_to: usize,
}

/// A file of the indexed tree: its path relative to the root, one
/// component per element, and its text.
pub struct SourceFile {
    pub path: Vec<String>,
    pub text: String,
}

/// A line without its ending: a `\r` just before the `\n` is dropped.
pub open spec fn strip_cr(l: Seq<char>) -> Seq<char> {
    if l.len() > 0 && l.last() == '\r' {
        l.drop_last()
    } else {
        l
    }
}

/// The lines of `s`, the current line having read `cur` so far.
pub open spec fn lines_after(s: Seq<char>, cur: Seq<char>) -> Seq<Seq<char>>
    decreases s.len(),
{
    if s.len() == 0 {
        if cur.len() == 0 {
            Seq::empty()
        } else {
            seq![cur]
        }
    } else if s[0] == '\n' {
        seq![strip_cr(cur)] + lines_after(s.drop_first(), Seq::empty())
    } else {
        lines_after(s.drop_first(), cur.push(s[0]))
    }
}

/// The lines of a text: split at each `\n`, with a `\r` just before it
/// dropped; a final line ending is optional and gives no empty line.
pub open spec fn lines_of(text: Seq<char>) -> Seq<Seq<char>> {
    lines_after(text, Seq::empty())
}

proof fn lemma_lines_after_no_breaks(s: Seq<char>, cur: Seq<char>)
    requires
        forall|j: int| 0 <= j < cur.len() ==> cur[j] != '\n',
    ensures
        no_line_breaks(lines_after(s, cur)),
    decreases s.len(),
{
    if s.len() == 0 {
    } else if s[0] == '\n' {
        lemma_lines_after_no_breaks(s.drop_first(), Seq::empty());
        let a = seq![strip_cr(cur)];
        let b = lines_after(s.drop_first(), Seq::empty());
        assert forall|i: int, j: int| 0 <= i < (a + b).len() && 0 <= j < (a + b)[i].len()
            implies #[trigger] (a + b)[i][j] != '\n' by {
            if i == 0 {
                assert((a + b)[0] == strip_cr(cur));
                assert(strip_cr(cur)[j] == cur[j]);
            } else {
                assert((a + b)[i] == b[i - 1]);
            }
        }
    } else {
        let next = cur.push(s[0]);
        assert forall|j: int| 0 <= j < next.len() implies next[j] != '\n' by {
            if j < cur.len() {
                assert(next[j] == cur[j]);
            }
        }
        lemma_lines_after_no_breaks(s.drop_first(), next);
    }
}

/// No line of a text holds a newline.
pub proof fn lemma_lines_of_no_breaks(text: Seq<char>)
    ensures
        no_line_breaks(lines_of(text)),
{
    lemma_lines_after_no_breaks(text, Seq::empty());
}

/// Relies on `str::lines`, which splits as `lines_of` says.
#[verifier::external_body]
fn text_lines(text: &str) -> (r: Vec<String>)
    ensures
        line_views(r@) == lines_of(text@),
{
    text.lines().map(|l| l.to_string()).collect()
}

/// A span `from..=to` of a file with `n` lines that holds line `line`.
pub open spec fn span_fits(line: int, from: int, to: int, n: int) -> bool {
    1 <= from <= line <= to <= n
}

/// The printed tokens of the first doc attribute, from index `i` on.
pub open spec fn first_doc_from(docs: Seq<(bool, String)>, i: int) -> Option<Seq<char>>
    decreases docs.len() - i,
{
    if i < 0 || i >= docs.len() {
        None
    } else if docs[i].0 {
        Some(docs[i].1@)
    } else {
        first_doc_from(docs, i + 1)
    }
}

/// The printed tokens of the first doc attribute, if any.
pub open spec fn first_doc(docs: Seq<(bool, String)>) -> Option<Seq<char>> {
    first_doc_from(docs, 0)
}

/// The entity's lines: a free function runs from the line of its name to
/// the closing line of its body; any other declaration over its whole span.
pub open spec fn decl_from(p: PlainParts, kind: CodeType) -> usize {
    if kind == CodeType::Function {
        p.ident_line
    } else {
        p.start_line
    }
}

/// The declaration's lines lie within a file of `n` lines.
pub open spec fn decl_fits(p: PlainParts, kind: CodeType, n: int) -> bool {
    span_fits(p.ident_line as int, decl_from(p, kind) as int, p.end_line as int, n)
}

/// The entity of a declaration, in context `ctx`, of a file with lines `ls`.
pub open spec fn decl_model(
    p: PlainParts,
    kind: CodeType,
    ctx: ContextModel,
    ls: Seq<Seq<char>>,
) -> CodeModel {
    CodeModel {
        name: p.name@,
        signature: p.tokens@,
        code_type: kind,
        docstring: first_doc(p.docs@),
        line: p.ident_line,
        line_from: decl_from(p, kind),
        line_to: p.end_line,
        context: Some(
            ContextModel {
                snippet: Some(snippet_of(ls, decl_from(p, kind) as int, p.end_line as int)),
                ..ctx
            },
        ),
    }
}

/// The context of a method of an `impl` block for type `ty`.
pub open spec fn method_context(ctx: ContextModel, ty: Seq<char>) -> ContextModel {
    ContextModel { struct_name: Some(ty), ..ctx }
}

/// The entities of the methods among an `impl` block's members, in order.
pub open spec fn members_models(
    ms: Seq<Option<PlainParts>>,
    ty: Seq<char>,
    ctx: ContextModel,
    ls: Seq<Seq<char>>,
) -> Seq<CodeModel>
    decreases ms.len(),
{
    if ms.len() == 0 {
        Seq::empty()
    } else {
        let rest = members_models(ms.drop_last(), ty, ctx, ls);
        match ms.last() {
            Some(p) => rest.push(decl_model(p, CodeType::Impl, method_context(ctx, ty), ls)),
            None => rest,
        }
    }
}

/// Every method among the members lies within a file of `n` lines.
pub open spec fn members_fit(ms: Seq<Option<PlainParts>>, n: int) -> bool {
    forall|i: int|
        0 <= i < ms.len() ==> (#[trigger] ms[i] matches Some(p) ==> decl_fits(p, CodeType::Impl, n))
}

/// The item's declarations lie within a file of `n` lines.
pub open spec fn item_fits(it: PlainItem, n: int) -> bool {
    match it {
        PlainItem::Function(p) => decl_fits(p, CodeType::Function, n),
        PlainItem::Struct(p) => decl_fits(p, CodeType::Struct, n),
        PlainItem::Enum(p) => decl_fits(p, CodeType::Enum, n),
        PlainItem::Impl(b) => members_fit(b.members@, n),
        PlainItem::Other => true,
    }
}

/// The entities of one top-level item, in declaration order: one for a
/// free function, struct or enum, one per method of an `impl` block, none
/// for any other item.
pub open spec fn item_models(it: PlainItem, ctx: ContextModel, ls: Seq<Seq<char>>) -> Seq<
    CodeModel,
> {
    match it {
        PlainItem::Function(p) => seq![decl_model(p, CodeType::Function, ctx, ls)],
        PlainItem::Struct(p) => seq![decl_model(p, CodeType::Struct, ctx, ls)],
        PlainItem::Enum(p) => seq![decl_model(p, CodeType::Enum, ctx, ls)],
        PlainItem::Impl(b) => members_models(b.members@, b.self_ty@, ctx, ls),
        PlainItem::Other => Seq::empty(),
    }
}

/// Every item lies within a file of `n` lines.
pub open spec fn items_fit(items: Seq<PlainItem>, n: int) -> bool {
    forall|i: int| 0 <= i < items.len() ==> #[trigger] item_fits(items[i], n)
}

/// The entities of a file's items, in declaration order.
pub open spec fn items_models(items: Seq<PlainItem>, ctx: ContextModel, ls: Seq<Seq<char>>) -> Seq<
    CodeModel,
>
    decreases items.len(),
{
    if items.len() == 0 {
        Seq::empty()
    } else {
        items_models(items.drop_last(), ctx, ls) + item_models(items.last(), ctx, ls)
    }
}

/// The directory name whose subtree holds build output and is not indexed.
pub open spec fn build_dir_name() -> Seq<char> {
    seq!['t', 'a', 'r', 'g', 'e', 't']
}

/// A file name with the extension `rs` (and something before it).
pub open spec fn is_rust_file_name(s: Seq<char>) -> bool {
    &&& s.len() > 3
    &&& s[s.len() - 3] == '.'
    &&& s[s.len() - 2] == 'r'
    &&& s[s.len() - 1] == 's'
}

/// The character sequences of a path's components.
pub open spec fn path_views(p: Seq<String>) -> Seq<Seq<char>> {
    p.map_values(|s: String| s@)
}

/// A relative path that extraction reads: a Rust file that no build output
/// directory holds.
pub open spec fn source_path(ps: Seq<Seq<char>>) -> bool {
    &&& ps.len() >= 1
    &&& is_rust_file_name(ps.last())
    &&& forall|i: int| 0 <= i < ps.len() - 1 ==> #[trigger] ps[i] != build_dir_name()
}

/// The components written with `/` between them.
pub open spec fn joined_path(ps: Seq<Seq<char>>) -> Seq<char>
    decreases ps.len(),
{
    if ps.len() == 0 {
        Seq::empty()
    } else if ps.len() == 1 {
        ps[0]
    } else {
        joined_path(ps.drop_last()) + seq!['/'] + ps.last()
    }
}

/// The name of the directory that holds the file; empty at the root.
pub open spec fn module_of(ps: Seq<Seq<char>>) -> Seq<char> {
    if ps.len() >= 2 {
        ps[ps.len() - 2]
    } else {
        Seq::empty()
    }
}

/// The context of the file at relative path `ps`: the directory that holds
/// it, the path and the file's name.
pub open spec fn file_context_model(ps: Seq<Seq<char>>) -> ContextModel {
    ContextModel {
        module: Some(module_of(ps)),
        file_path: Some(joined_path(ps)),
        file_name: Some(ps.last()),
        struct_name: None,
        snippet: None,
    }
}

/// The entities of one file in declaration order: none for a file that
/// extraction skips; `None` where the file does not parse or a span does
/// not lie within its lines.
pub open spec fn file_models(f: SourceFile) -> Option<Seq<CodeModel>> {
    if !source_path(path_views(f.path@)) {
        Some(Seq::empty())
    } else {
        match parsed_items(f.text@) {
            None => None,
            Some(items) => if items_fit(items, lines_of(f.text@).len() as int) {
                Some(
                    items_models(
                        items,
                        file_context_model(path_views(f.path@)),
                        lines_of(f.text@),
                    ),
                )
            } else {
                None
            },
        }
    }
}

/// The entities of the files, in file order and then declaration order;
/// `None` where some file fails.
pub open spec fn tree_models(files: Seq<SourceFile>) -> Option<Seq<CodeModel>>
    decreases files.len(),
{
    if files.len() == 0 {
        Some(Seq::empty())
    } else {
        match (tree_models(files.drop_last()), file_models(files.last())) {
            (Some(a), Some(b)) => Some(a + b),
            _ => None,
        }
    }
}

/// `path` is the relative path, written with `/`, of source file `f`.
pub open spec fn file_named(path: Seq<char>, f: SourceFile) -> bool {
    source_path(path_views(f.path@)) && path == joined_path(path_views(f.path@))
}

/// The path that an error names, if any.
pub open spec fn error_path(e: ExtractionError) -> Option<Seq<char>> {
    match e {
        ExtractionError::Syntax { path } => Some(path@),
        ExtractionError::Span { path } => Some(path@),
        ExtractionError::Unreadable { .. } => None,
    }
}

/// The error names one of the source files.
pub open spec fn names_source_file(e: ExtractionError, files: Seq<SourceFile>) -> bool {
    error_path(e) matches Some(p) && exists|j: int|
        0 <= j < files.len() && #[trigger] file_named(p, files[j])
}

/// All entities that are not free functions come before all free functions.
pub open spec fn grouped(v: Seq<CodeModel>) -> bool {
    forall|i: int, j: int|
        0 <= i < j < v.len() && (#[trigger] v[i]).code_type == CodeType::Function ==> (
        #[trigger] v[j]).code_type == CodeType::Function
}

/// The entities that are not free functions, in their order.
pub open spec fn non_functions(v: Seq<CodeModel>) -> Seq<CodeModel>
    decreases v.len(),
{
    if v.len() == 0 {
        Seq::empty()
    } else if v.last().code_type != CodeType::Function {
        non_functions(v.drop_last()).push(v.last())
    } else {
        non_functions(v.drop_last())
    }
}

/// The free functions, in their order.
pub open spec fn functions_of(v: Seq<CodeModel>) -> Seq<CodeModel>
    decreases v.len(),
{
    if v.len() == 0 {
        Seq::empty()
    } else if v.last().code_type == CodeType::Function {
        functions_of(v.drop_last()).push(v.last())
    } else {
        functions_of(v.drop_last())
    }
}

/// The output order: every entity that is not a free function, then the
/// free functions, each group in input order.
pub open spec fn group_models(v: Seq<CodeModel>) -> Seq<CodeModel> {
    non_functions(v) + functions_of(v)
}

/// The entity's identifying line lies within its span, and its snippet has
/// exactly one line per line of the span.
pub open spec fn span_and_snippet_agree(m: CodeModel) -> bool {
    &&& m.line_from <= m.line <= m.line_to
    &&& m.context matches Some(c) && c.snippet matches Some(s) && newline_count(s) == m.line_to
        - m.line_from + 1
}

/// Makes the entity of a declaration: its fields from `decl`, its context
/// `context` with the snippet of its span. `None` when the span does not
/// lie within `lines`.
pub fn build_entity(decl: Decl, kind: CodeType, context: TContext, lines: &Vec<String>) -> (r:
    Option<TCode>)
    ensures
        r is Some <==> span_fits(
            decl.line as int,
            decl.line_from as int,
            decl.line_to as int,
            lines@.len() as int,
        ),
        r matches Some(t) ==> t@ == (CodeModel {
            name: decl.name@,
            signature: decl.signature@,
            code_type: kind,
            docstring: opt_view(decl.docstring),
            line: decl.line,
            line_from: decl.line_from,
            line_to: decl.line_to,
            context: Some(
                ContextModel {
                    snippet: Some(
                        snippet_of(line_views(lines@), decl.line_from as int, decl.line_to as int),
                    ),
                    ..context@
                },
            ),
        }),
{
    if !(1 <= decl.line_from && decl.line_from <= decl.line && decl.line <= decl.line_to
        && decl.line_to <= lines.len()) {
        return None;
    }
    let mut context = context;
    context.add_snippet(lines, decl.line_from, decl.line_to);
    Some(
        TCode {
            name: decl.name,
            signature: decl.signature,
            code_type: kind,
            docstring: decl.docstring,
            line: decl.line,
            line_from: decl.line_from,
            line_to: decl.line_to,
            context: Some(context),
        },
    )
}

/// The printed tokens of the first doc attribute.
pub fn doc_of(docs: &Vec<(bool, String)>) -> (r: Option<String>)
    ensures
        opt_view(r) == first_doc(docs@),
{
    let mut i: usize = 0;
    while i < docs.len()
        invariant
            i <= docs@.len(),
            first_doc(docs@) == first_doc_from(docs@, i as int),
        decreases docs@.len() - i,
    {
        if docs[i].0 {
            return Some(docs[i].1.clone());
        }
        i = i + 1;
    }
    None
}

/// The declaration of an entity of kind `kind` read from `p`.
fn decl_of(p: &PlainParts, kind: CodeType) -> (d: Decl)
    ensures
        d.name@ == p.name@,
        d.signature@ == p.tokens@,
        opt_view(d.docstring) == first_doc(p.docs@),
        d.line == p.ident_line,
        d.line_from == decl_from(*p, kind),
        d.line_to == p.end_line,
{
    let line_from = if kind == CodeType::Function {
        p.ident_line
    } else {
        p.start_line
    };
    Decl {
        name: p.name.clone(),
        signature: p.tokens.clone(),
        docstring: doc_of(&p.docs),
        line: p.ident_line,
        line_from,
        line_to: p.end_line,
    }
}

fn parse_decl(item: &PlainParts, kind: CodeType, context: TContext, lines: &Vec<String>) -> (r:
    Option<TCode>)
    ensures
        r is Some <==> decl_fits(*item, kind, lines@.len() as int),
        r matches Some(t) ==> t@ == decl_model(*item, kind, context@, line_views(lines@)),
{
    build_entity(decl_of(item, kind), kind, context, lines)
}

/// The entity of a struct declaration: its span is the declaration's.
pub fn parse_struct(item: &PlainParts, context: TContext, lines: &Vec<String>) -> (r: Option<TCode>)
    ensures
        r is Some <==> decl_fits(*item, CodeType::Struct, lines@.len() as int),
        r matches Some(t) ==> t@ == decl_model(
            *item,
            CodeType::Struct,
            context@,
            line_views(lines@),
        ),
{
    parse_decl(item, CodeType::Struct, context, lines)
}

/// The entity of an enum declaration: its span is the declaration's.
pub fn parse_enum(item: &PlainParts, context: TContext, lines: &Vec<String>) -> (r: Option<TCode>)
    ensures
        r is Some <==> decl_fits(*item, CodeType::Enum, lines@.len() as int),
        r matches Some(t) ==> t@ == decl_model(*item, CodeType::Enum, context@, line_views(lines@)),
{
    parse_decl(item, CodeType::Enum, context, lines)
}

/// The entity of a free function: its span runs from the line of its name
/// to the closing line of its body, and `line` is that first line.
pub fn parse_fn(item: &PlainParts, context: TContext, lines: &Vec<String>) -> (r: Option<TCode>)
    ensures
        r is Some <==> decl_fits(*item, CodeType::Function, lines@.len() as int),
        r matches Some(t) ==> t@ == decl_model(
            *item,
            CodeType::Function,
            context@,
            line_views(lines@),
        ),
{
    parse_decl(item, CodeType::Function, context, lines)
}

/// The entities of the methods of an `impl` block, one per method in
/// member order; each carries the block's printed target type as its
/// enclosing type. `None` when a method's span does not lie within `lines`.
pub fn parse_impl(item: &PlainImpl, context: TContext, lines: &Vec<String>) -> (r: Option<
    Vec<TCode>,
>)
    ensures
        r is Some <==> members_fit(item.members@, lines@.len() as int),
        r matches Some(v) ==> views(v@) == members_models(
            item.members@,
            item.self_ty@,
            context@,
            line_views(lines@),
        ),
{
    let ghost ms = item.members@;
    let ghost ls = line_views(lines@);
    let ghost n = lines@.len() as int;
    let mut methods: Vec<TCode> = Vec::new();
    let mut i: usize = 0;
    assert(ms.subrange(0, 0) =~= Seq::<Option<PlainParts>>::empty());
    assert(views(methods@) =~= Seq::<CodeModel>::empty());
    while i < item.members.len()
        invariant
            ms == item.members@,
            ls == line_views(lines@),
            n == lines@.len(),
            i <= ms.len(),
            members_fit(ms.subrange(0, i as int), n),
            views(methods@) == members_models(ms.subrange(0, i as int), item.self_ty@, context@, ls),
        decreases ms.len() - i,
    {
        let ghost next = ms.subrange(0, i + 1);
        proof {
            assert(next.drop_last() =~= ms.subrange(0, i as int));
            assert(next.last() == ms[i as int]);
        }
        match &item.members[i] {
            Some(p) => {
                let mut method_ctx = context.duplicate();
                method_ctx.struct_name = Some(item.self_ty.clone());
                assert(method_ctx@ == method_context(context@, item.self_ty@));
                match parse_decl(p, CodeType::Impl, method_ctx, lines) {
                    Some(t) => {
                        let ghost before = methods@;
                        methods.push(t);
                        assert(views(methods@) =~= views(before).push(t@));
                    },
                    None => {
                        assert(!(ms[i as int] matches Some(q) ==> decl_fits(q, CodeType::Impl, n)));
                        return None;
                    },
                }
            },
            None => {},
        }
        assert forall|j: int| 0 <= j < next.len() implies (#[trigger] next[j] matches Some(q)
            ==> decl_fits(q, CodeType::Impl, n)) by {
            if j < i {
                assert(next[j] == ms.subrange(0, i as int)[j]);
            }
        }
        i = i + 1;
    }
    assert(ms.subrange(0, ms.len() as int) =~= ms);
    Some(methods)
}

/// The entities of one top-level item, split as `(functions, others)`: a
/// free function goes to the first list, struct, enum and method entities
/// to the second; other kinds of items give none. `None` when a span does
/// not lie within `lines`.
pub fn parse_item(item: &PlainItem, context: TContext, lines: &Vec<String>) -> (r: Option<
    (Vec<TCode>, Vec<TCode>),
>)
    ensures
        r is Some <==> item_fits(*item, lines@.len() as int),
        r matches Some((functions, others)) ==> if (*item matches PlainItem::Function(_)) {
            views(functions@) == item_models(*item, context@, line_views(lines@)) && others@.len()
                == 0
        } else {
            functions@.len() == 0 && views(others@) == item_models(
                *item,
                context@,
                line_views(lines@),
            )
        },
{
    let mut functions: Vec<TCode> = Vec::new();
    let mut others: Vec<TCode> = Vec::new();
    match item {
        PlainItem::Impl(block) => {
            match parse_impl(block, context, lines) {
                Some(methods) => {
                    others = methods;
                },
                None => {
                    return None;
                },
            }
        },
        PlainItem::Enum(p) => {
            match parse_enum(p, context, lines) {
                Some(t) => {
                    others.push(t);
                    assert(views(others@) =~= seq![t@]);
                },
                None => {
                    return None;
                },
            }
        },
        PlainItem::Struct(p) => {
            match parse_struct(p, context, lines) {
                Some(t) => {
                    others.push(t);
                    assert(views(others@) =~= seq![t@]);
                },
                None => {
                    return None;
                },
            }
        },
        PlainItem::Function(p) => {
            match parse_fn(p, context, lines) {
                Some(t) => {
                    functions.push(t);
                    assert(views(functions@) =~= seq![t@]);
                },
                None => {
                    return None;
                },
            }
        },
        PlainItem::Other => {
            assert(views(others@) =~= Seq::<CodeModel>::empty());
        },
    }
    Some((functions, others))
}

proof fn lemma_kinds_of_groups(v: Seq<CodeModel>)
    ensures
        forall|i: int|
            0 <= i < non_functions(v).len() ==> (#[trigger] non_functions(v)[i]).code_type
                != CodeType::Function,
        forall|i: int|
            0 <= i < functions_of(v).len() ==> (#[trigger] functions_of(v)[i]).code_type
                == CodeType::Function,
        non_functions(v).len() + functions_of(v).len() == v.len(),
    decreases v.len(),
{
    if v.len() > 0 {
        lemma_kinds_of_groups(v.drop_last());
    }
}

/// Grouping puts every entity that is not a free function before every
/// free function, whatever order they were declared in; each group keeps
/// the order of the input, and nothing is added or lost.
pub proof fn lemma_grouping_orders_kinds(v: Seq<CodeModel>)
    ensures
        grouped(group_models(v)),
        group_models(v).len() == v.len(),
{
    lemma_kinds_of_groups(v);
    let g = group_models(v);
    let k = non_functions(v).len();
    assert forall|i: int, j: int|
        0 <= i < j < g.len() && (#[trigger] g[i]).code_type == CodeType::Function implies (
        #[trigger] g[j]).code_type == CodeType::Function by {
        if i < k {
            assert(g[i] == non_functions(v)[i]);
        }
        assert(g[j] == functions_of(v)[j - k]);
    }
}

/// Orders entities for output: all that are not free functions first, then
/// the free functions, each group in input order.
pub fn group_entities(entities: Vec<TCode>) -> (r: Vec<TCode>)
    ensures
        views(r@) == group_models(views(entities@)),
{
    let ghost all = entities@;
    let ghost vs = views(entities@);
    let n = entities.len();
    let mut rest = entities;
    let mut reversed: Vec<TCode> = Vec::new();
    while rest.len() > 0
        invariant
            n == all.len(),
            rest@ == all.subrange(0, rest@.len() as int),
            reversed@.len() + rest@.len() == n,
            forall|j: int| 0 <= j < reversed@.len() ==> #[trigger] reversed@[j] == all[n - 1 - j],
        decreases rest@.len(),
    {
        let t = rest.pop().unwrap();
        reversed.push(t);
    }
    let mut others: Vec<TCode> = Vec::new();
    let mut functions: Vec<TCode> = Vec::new();
    assert(vs.subrange(0, 0) =~= Seq::<CodeModel>::empty());
    assert(views(others@) =~= Seq::<CodeModel>::empty());
    assert(views(functions@) =~= Seq::<CodeModel>::empty());
    while reversed.len() > 0
        invariant
            n == all.len(),
            vs == views(all),
            reversed@.len() <= n,
            forall|j: int| 0 <= j < reversed@.len() ==> #[trigger] reversed@[j] == all[n - 1 - j],
            views(others@) == non_functions(vs.subrange(0, n - reversed@.len())),
            views(functions@) == functions_of(vs.subrange(0, n - reversed@.len())),
        decreases reversed@.len(),
    {
        let ghost k = n - reversed@.len();
        let t = reversed.pop().unwrap();
        proof {
            let next = vs.subrange(0, k + 1);
            assert(next.drop_last() =~= vs.subrange(0, k));
            assert(next.last() == t@);
        }
        if t.code_type == CodeType::Function {
            let ghost before = functions@;
            functions.push(t);
            assert(views(functions@) =~= views(before).push(t@));
        } else {
            let ghost before = others@;
            others.push(t);
            assert(views(others@) =~= views(before).push(t@));
        }
    }
    assert(vs.subrange(0, n as int) =~= vs);
    let ghost o = others@;
    let ghost f = functions@;
    others.append(&mut functions);
    assert(views(others@) =~= views(o) + views(f));
    others
}

/// Whether a file name has the extension `rs`.
pub fn is_rust_file(name: &String) -> (r: bool)
    ensures
        r == is_rust_file_name(name@),
{
    let s = name.as_str();
    let n = s.unicode_len();
    n > 3 && s.get_char(n - 3) == '.' && s.get_char(n - 2) == 'r' && s.get_char(n - 1) == 's'
}

/// Whether the walk goes into a subdirectory of this name.
pub fn should_descend(dir_name: &String) -> (r: bool)
    ensures
        r == (dir_name@ != build_dir_name()),
{
    let skipped = String::from_str("target");
    proof {
        reveal_strlit("target");
        assert(skipped@ =~= build_dir_name());
    }
    !dir_name.eq(&skipped)
}

/// Whether extraction reads the file at this relative path.
pub fn is_source_path(path: &Vec<String>) -> (r: bool)
    ensures
        r == source_path(path_views(path@)),
{
    let ghost ps = path_views(path@);
    if path.len() == 0 {
        return false;
    }
    let last = path.len() - 1;
    if !is_rust_file(&path[last]) {
        return false;
    }
    let mut i: usize = 0;
    while i < last
        invariant
            last == path@.len() - 1,
            ps == path_views(path@),
            i <= last,
            forall|j: int| 0 <= j < i ==> #[trigger] ps[j] != build_dir_name(),
        decreases last - i,
    {
        if !should_descend(&path[i]) {
            assert(ps[i as int] == build_dir_name());
            return false;
        }
        i = i + 1;
    }
    true
}

/// The relative path written with `/` between its components.
pub fn path_text(path: &Vec<String>) -> (r: String)
    ensures
        r@ == joined_path(path_views(path@)),
{
    let ghost ps = path_views(path@);
    if path.len() == 0 {
        return String::new();
    }
    let mut text = path[0].clone();
    let mut i: usize = 1;
    proof {
        reveal_strlit("/");
        assert(ps.subrange(0, 1).drop_last() =~= Seq::<Seq<char>>::empty());
        assert(joined_path(ps.subrange(0, 1)) == ps[0]);
    }
    while i < path.len()
        invariant
            1 <= i <= path@.len(),
            ps == path_views(path@),
            text@ == joined_path(ps.subrange(0, i as int)),
        decreases path@.len() - i,
    {
        text.append("/");
        text.append(path[i].as_str());
        proof {
            reveal_strlit("/");
            let next = ps.subrange(0, i + 1);
            assert(next.drop_last() =~= ps.subrange(0, i as int));
        }
        i = i + 1;
    }
    assert(ps.subrange(0, i as int) =~= ps);
    text
}

/// The context of the file at a relative path: the directory that holds
/// it, the path and the file's name.
pub fn file_context(path: &Vec<String>) -> (r: TContext)
    requires
        path@.len() >= 1,
    ensures
        r@ == file_context_model(path_views(path@)),
{
    let n = path.len();
    let module = if n >= 2 {
        path[n - 2].clone()
    } else {
        String::new()
    };
    TContext {
        module: Some(module),
        file_path: Some(path_text(path)),
        file_name: Some(path[n - 1].clone()),
        struct_name: None,
        snippet: None,
    }
}


proof fn lemma_prefix_fails(files: Seq<SourceFile>, k: int)
    requires
        0 <= k <= files.len(),
        tree_models(files.subrange(0, k)) is None,
    ensures
        tree_models(files) is None,
    decreases files.len() - k,
{
    if k == files.len() {
        assert(files.subrange(0, k) =~= files);
    } else {
        let next = files.subrange(0, k + 1);
        assert(next.drop_last() =~= files.subrange(0, k));
        lemma_prefix_fails(files, k + 1);
    }
}

proof fn lemma_names_file(e: ExtractionError, files: Seq<SourceFile>, j: int)
    requires
        0 <= j < files.len(),
        source_path(path_views(files[j].path@)),
        error_path(e) == Some(joined_path(path_views(files[j].path@))),
    ensures
        names_source_file(e, files),
{
    let p = joined_path(path_views(files[j].path@));
    assert(file_named(p, files[j]));
    assert(error_path(e) matches Some(q) && q == p);
    assert(exists|jj: int| 0 <= jj < files.len() && #[trigger] file_named(p, files[jj]));
}

/// Extracts the entities of a tree from its files, given by path relative
/// to the root and text. Files that are not Rust sources, or lie under a
/// build output directory, are skipped. The entities are read in file
/// order and, within a file, in declaration order; then grouped, so that
/// struct, enum and method entities come first and free functions after.
/// Fails, with no entities at all, when a file does not parse or holds a
/// declaration whose span does not lie within its lines; the error names
/// the first such file.
pub fn process_dir(files: &Vec<SourceFile>) -> (r: Result<Vec<TCode>, ExtractionError>)
    ensures
        r is Ok <==> tree_models(files@) is Some,
        r matches Ok(v) ==> (tree_models(files@) matches Some(m) && views(v@) == group_models(m)),
        r matches Err(e) ==> names_source_file(e, files@),
        (forall|j: int| 0 <= j < files@.len() ==> !source_path(path_views(#[trigger] files@[j].path@)))
            ==> (r matches Ok(v) && v@.len() == 0),
{
    let mut all: Vec<TCode> = Vec::new();
    let mut k: usize = 0;
    assert(files@.subrange(0, 0) =~= Seq::<SourceFile>::empty());
    assert(views(all@) =~= Seq::<CodeModel>::empty());
    while k < files.len()
        invariant
            k <= files@.len(),
            tree_models(files@.subrange(0, k as int)) == Some(views(all@)),
            (forall|j: int| 0 <= j < files@.len() ==> !source_path(path_views(#[trigger] files@[j].path@)))
                ==> all@.len() == 0,
        decreases files@.len() - k,
    {
        let ghost kk = k as int;
        let ghost next = files@.subrange(0, kk + 1);
        proof {
            assert(next.drop_last() =~= files@.subrange(0, kk));
            assert(next.last() == files@[kk]);
        }
        let file = &files[k];
        if is_source_path(&file.path) {
            assert(source_path(path_views(files@[kk].path@)));
            let lines = text_lines(file.text.as_str());
            let context = file_context(&file.path);
            let ghost ls = line_views(lines@);
            let ghost n = lines@.len() as int;
            match parse_source(file.text.as_str()) {
                None => {
                    let e = ExtractionError::Syntax { path: path_text(&file.path) };
                    proof {
                        lemma_names_file(e, files@, kk);
                        lemma_prefix_fails(files@, kk + 1);
                    }
                    return Err(e);
                },
                Some(items) => {
                    let ghost before = views(all@);
                    let mut i: usize = 0;
                    assert(items@.subrange(0, 0) =~= Seq::<PlainItem>::empty());
                    assert(before + Seq::<CodeModel>::empty() =~= before);
                    while i < items.len()
                        invariant
                            k < files@.len(),
                            kk == k,
                            *file == files@[kk],
                            next == files@.subrange(0, kk + 1),
                            next.drop_last() == files@.subrange(0, kk),
                            next.last() == files@[kk],
                            source_path(path_views(files@[kk].path@)),
                            ls == line_views(lines@),
                            ls == lines_of(file.text@),
                            n == lines@.len(),
                            context@ == file_context_model(path_views(file.path@)),
                            parsed_items(file.text@) == Some(items@),
                            tree_models(files@.subrange(0, kk)) == Some(before),
                            i <= items@.len(),
                            items_fit(items@.subrange(0, i as int), n),
                            views(all@) == before + items_models(
                                items@.subrange(0, i as int),
                                context@,
                                ls,
                            ),
                        decreases items@.len() - i,
                    {
                        let ghost inext = items@.subrange(0, i + 1);
                        proof {
                            assert(inext.drop_last() =~= items@.subrange(0, i as int));
                            assert(inext.last() == items@[i as int]);
                        }
                        match parse_item(&items[i], context.duplicate(), &lines) {
                            None => {
                                let e = ExtractionError::Span { path: path_text(&file.path) };
                                proof {
                                    assert(!item_fits(items@[i as int], n));
                                    assert(!items_fit(items@, n));
                                    assert(file_models(files@[kk]) is None);
                                    lemma_names_file(e, files@, kk);
                                    lemma_prefix_fails(files@, kk + 1);
                                }
                                return Err(e);
                            },
                            Some((f, o)) => {
                                let mut f = f;
                                let mut o = o;
                                let ghost old_all = all@;
                                let ghost fv = f@;
                                let ghost ov = o@;
                                all.append(&mut f);
                                all.append(&mut o);
                                proof {
                                    assert(all@ =~= old_all + fv + ov);
                                    assert(views(all@) =~= views(old_all) + views(fv) + views(ov));
                                    assert(views(fv) + views(ov) == item_models(
                                        items@[i as int],
                                        context@,
                                        ls,
                                    )) by {
                                        if fv.len() == 0 {
                                            assert(views(fv) =~= Seq::<CodeModel>::empty());
                                        } else {
                                            assert(views(ov) =~= Seq::<CodeModel>::empty());
                                        }
                                        assert(views(fv) + views(ov) =~= if fv.len() == 0 {
                                            views(ov)
                                        } else {
                                            views(fv)
                                        });
                                    }
                                    assert forall|j: int| 0 <= j < inext.len() implies #[trigger] item_fits(
                                        inext[j],
                                        n,
                                    ) by {
                                        if j < i {
                                            assert(inext[j] == items@.subrange(0, i as int)[j]);
                                        }
                                    }
                                }
                                i = i + 1;
                            },
                        }
                    }
                    proof {
                        assert(items@.subrange(0, items@.len() as int) =~= items@);
                        assert(file_models(files@[kk]) == Some(
                            items_models(items@, context@, ls),
                        ));
                    }
                },
            }
        } else {
            proof {
                assert(!source_path(path_views(files@[kk].path@)));
                assert(views(all@) + Seq::<CodeModel>::empty() =~= views(all@));
            }
        }
        k = k + 1;
    }
    assert(files@.subrange(0, files@.len() as int) =~= files@);
    let grouped_all = group_entities(all);
    Ok(grouped_all)
}

/// Extraction is a function of the files: two successful runs over the
/// same files give entities equal in every field, in the same order.
pub proof fn lemma_extraction_deterministic(
    files: Seq<SourceFile>,
    first: Seq<TCode>,
    second: Seq<TCode>,
)
    requires
        tree_models(files) matches Some(m) && views(first) == group_models(m),
        tree_models(files) matches Some(m) && views(second) == group_models(m),
    ensures
        views(first) == views(second),
{
}

/// The entity of a declaration that lies within its file has its
/// identifying line within its span, and a snippet of exactly one line per
/// line of that span.
pub proof fn lemma_entity_span_lines(
    p: PlainParts,
    kind: CodeType,
    ctx: ContextModel,
    ls: Seq<Seq<char>>,
)
    requires
        decl_fits(p, kind, ls.len() as int),
        no_line_breaks(ls),
    ensures
        span_and_snippet_agree(decl_model(p, kind, ctx, ls)),
{
    let from = decl_from(p, kind) as int;
    let to = p.end_line as int;
    let sub = ls.subrange(from - 1, to);
    assert(no_line_breaks(sub)) by {
        assert forall|i: int, j: int| 0 <= i < sub.len() && 0 <= j < sub[i].len()
            implies sub[i][j] != '\n' by {
            assert(sub[i] == ls[i + from - 1]);
            assert(ls[i + from - 1][j] != '\n');
        }
    }
    lemma_joined_line_count(sub);
}

/// Every entity has its identifying line within its span, and a snippet
/// of exactly one line per line of the span.
pub open spec fn all_agree(ms: Seq<CodeModel>) -> bool {
    forall|i: int| 0 <= i < ms.len() ==> #[trigger] span_and_snippet_agree(ms[i])
}

proof fn lemma_concat_agree(a: Seq<CodeModel>, b: Seq<CodeModel>)
    requires
        all_agree(a),
        all_agree(b),
    ensures
        all_agree(a + b),
{
    assert forall|i: int| 0 <= i < (a + b).len() implies #[trigger] span_and_snippet_agree(
        (a + b)[i],
    ) by {
        if i < a.len() {
            assert((a + b)[i] == a[i]);
        } else {
            assert((a + b)[i] == b[i - a.len()]);
        }
    }
}

proof fn lemma_members_agree(
    ms: Seq<Option<PlainParts>>,
    ty: Seq<char>,
    ctx: ContextModel,
    ls: Seq<Seq<char>>,
)
    requires
        members_fit(ms, ls.len() as int),
        no_line_breaks(ls),
    ensures
        all_agree(members_models(ms, ty, ctx, ls)),
    decreases ms.len(),
{
    if ms.len() > 0 {
        let init = ms.drop_last();
        assert forall|j: int| 0 <= j < init.len() implies (#[trigger] init[j] matches Some(q)
            ==> decl_fits(q, CodeType::Impl, ls.len() as int)) by {
            assert(init[j] == ms[j]);
        }
        lemma_members_agree(init, ty, ctx, ls);
        let rest = members_models(init, ty, ctx, ls);
        match ms.last() {
            Some(p) => {
                assert(ms[ms.len() - 1] matches Some(q) ==> decl_fits(q, CodeType::Impl, ls.len() as int));
                lemma_entity_span_lines(p, CodeType::Impl, method_context(ctx, ty), ls);
                let m = decl_model(p, CodeType::Impl, method_context(ctx, ty), ls);
                assert forall|i: int| 0 <= i < rest.push(m).len() implies #[trigger] span_and_snippet_agree(
                    rest.push(m)[i],
                ) by {
                    if i < rest.len() {
                        assert(rest.push(m)[i] == rest[i]);
                    }
                }
            },
            None => {},
        }
    }
}

proof fn lemma_items_agree(items: Seq<PlainItem>, ctx: ContextModel, ls: Seq<Seq<char>>)
    requires
        items_fit(items, ls.len() as int),
        no_line_breaks(ls),
    ensures
        all_agree(items_models(items, ctx, ls)),
    decreases items.len(),
{
    if items.len() > 0 {
        let init = items.drop_last();
        assert forall|j: int| 0 <= j < init.len() implies #[trigger] item_fits(
            init[j],
            ls.len() as int,
        ) by {
            assert(init[j] == items[j]);
        }
        lemma_items_agree(init, ctx, ls);
        let it = items.last();
        assert(item_fits(items[items.len() - 1], ls.len() as int));
        match it {
            PlainItem::Function(p) => {
                lemma_entity_span_lines(p, CodeType::Function, ctx, ls);
            },
            PlainItem::Struct(p) => {
                lemma_entity_span_lines(p, CodeType::Struct, ctx, ls);
            },
            PlainItem::Enum(p) => {
                lemma_entity_span_lines(p, CodeType::Enum, ctx, ls);
            },
            PlainItem::Impl(b) => {
                lemma_members_agree(b.members@, b.self_ty@, ctx, ls);
            },
            PlainItem::Other => {},
        }
        assert(all_agree(item_models(it, ctx, ls)));
        lemma_concat_agree(items_models(init, ctx, ls), item_models(it, ctx, ls));
    }
}

proof fn lemma_tree_agree(files: Seq<SourceFile>)
    requires
        tree_models(files) is Some,
    ensures
        all_agree(tree_models(files)->Some_0),
    decreases files.len(),
{
    if files.len() > 0 {
        lemma_tree_agree(files.drop_last());
        let f = files.last();
        if source_path(path_views(f.path@)) {
            let items = parsed_items(f.text@)->Some_0;
            lemma_lines_of_no_breaks(f.text@);
            lemma_items_agree(items, file_context_model(path_views(f.path@)), lines_of(f.text@));
        }
        lemma_concat_agree(tree_models(files.drop_last())->Some_0, file_models(f)->Some_0);
    }
}

proof fn lemma_groups_agree(v: Seq<CodeModel>)
    requires
        all_agree(v),
    ensures
        all_agree(non_functions(v)),
        all_agree(functions_of(v)),
    decreases v.len(),
{
    if v.len() > 0 {
        let init = v.drop_last();
        assert forall|i: int| 0 <= i < init.len() implies #[trigger] span_and_snippet_agree(
            init[i],
        ) by {
            assert(init[i] == v[i]);
        }
        lemma_groups_agree(init);
        assert(span_and_snippet_agree(v[v.len() - 1]));
        let a = non_functions(init);
        let b = functions_of(init);
        assert forall|i: int| 0 <= i < a.push(v.last()).len() implies #[trigger] span_and_snippet_agree(
            a.push(v.last())[i],
        ) by {
            if i < a.len() {
                assert(a.push(v.last())[i] == a[i]);
            }
        }
        assert forall|i: int| 0 <= i < b.push(v.last()).len() implies #[trigger] span_and_snippet_agree(
            b.push(v.last())[i],
        ) by {
            if i < b.len() {
                assert(b.push(v.last())[i] == b[i]);
            }
        }
    }
}

/// Every entity that `process_dir` returns has its identifying line within
/// its span, and a snippet of exactly one line per line of that span.
pub proof fn lemma_extracted_spans(files: Seq<SourceFile>, v: Seq<TCode>)
    requires
        tree_models(files) matches Some(m) && views(v) == group_models(m),
    ensures
        all_agree(views(v)),
{
    let m = tree_models(files)->Some_0;
    lemma_tree_agree(files);
    lemma_groups_agree(m);
    lemma_concat_agree(non_functions(m), functions_of(m));
}

} // verus!
