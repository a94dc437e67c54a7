//! Code entities: what the extractor produces, and the text model of their
//! snippets.
use vstd::prelude::*;

verus! {

/// The kind of declaration an entity stands for.
#[derive(Debug, Clone, Copy, PartialEq, Eq, Structural)]
pub enum CodeType {
    /// A free function at the top level of a file.
    Function,
    /// A struct declaration.
    Struct,
    /// An enum declaration.
    Enum,
    /// A method declared in an `impl` block.
    Impl,
}

/// Where an entity comes from, and its source text.
#[derive(Debug, Clone, PartialEq, Eq)]
pub struct TContext {
    /// Name of the directory that holds the file.
    pub module: Option<String>,
    /// Path of the file relative to the indexed root.
    pub file_path: Option<String>,
    /// Base name of the file.
    pub file_name: Option<String>,
    /// The type of the enclosing `impl` block, for methods only.
    pub struct_name: Option<String>,
    /// The entity's source lines, each followed by a newline.
    pub snippet: Option<String>,
}

/// One indexed declaration with its location.
#[derive(Debug, Clone, PartialEq, Eq)]
pub struct TCode {
    pub name: String,
    pub signature: String,
    pub code_type: CodeType,
    pub docstring: Option<String>,
    /// Line of the identifying token (1-based).
    pub line: usize,
    /// First line of the entity's span (1-based, inclusive).
    pub line_from: usize,
    /// Last line of the entity's span (1-based, inclusive).
    pub line_to: usize,
    pub context: Option<TContext>,
}

/// The text of an optional string.
pub open spec fn opt_view(o: Option<String>) -> Option<Seq<char>> {
    match o {
        Some(s) => Some(s@),
        None => None,
    }
}

/// A context as text values.
pub struct ContextModel {
    pub module: Option<Seq<char>>,
    pub file_path: Option<Seq<char>>,
    pub file_name: Option<Seq<char>>,
    pub struct_name: Option<Seq<char>>,
    pub snippet: Option<Seq<char>>,
}

/// An entity as text values.
pub struct CodeModel {
    pub name: Seq<char>,
    pub signature: Seq<char>,
    pub code_type: CodeType,
    pub docstring: Option<Seq<char>>,
    pub line: usize,
    pub line_from: usize,
    pub line_to: usize,
    pub context: Option<ContextModel>,
}

impl View for TContext {
    type V = ContextModel;

    open spec fn view(&self) -> ContextModel {
        ContextModel {
            module: opt_view(self.module),
            file_path: opt_view(self.file_path),
            file_name: opt_view(self.file_name),
            struct_name: opt_view(self.struct_name),
            snippet: opt_view(self.snippet),
        }
    }
}

impl View for TCode {
    type V = CodeModel;

    open spec fn view(&self) -> CodeModel {
        CodeModel {
            name: self.name@,
            signature: self.signature@,
            code_type: self.code_type,
            docstring: opt_view(self.docstring),
            line: self.line,
            line_from: self.line_from,
            line_to: self.line_to,
            context: match self.context {
                Some(c) => Some(c@),
                None => None,
            },
        }
    }
}

/// The models of a list of entities.
pub open spec fn views(v: Seq<TCode>) -> Seq<CodeModel> {
    v.map_values(|t: TCode| t@)
}

/// The character sequences of a list of lines.
pub open spec fn line_views(lines: Seq<String>) -> Seq<Seq<char>> {
    lines.map_values(|l: String| l@)
}

/// The lines written one after another, each followed by a newline.
pub open spec fn joined_lines(ls: Seq<Seq<char>>) -> Seq<char>
    decreases ls.len(),
{
    if ls.len() == 0 {
        Seq::empty()
    } else {
        joined_lines(ls.drop_last()) + ls.last() + seq!['\n']
    }
}

/// The snippet of the 1-based inclusive line range `from..=to`.
pub open spec fn snippet_of(ls: Seq<Seq<char>>, from: int, to: int) -> Seq<char> {
    joined_lines(ls.subrange(from - 1, to))
}

/// Number of newline characters in a text: its number of terminated lines.
pub open spec fn newline_count(s: Seq<char>) -> nat
    decreases s.len(),
{
    if s.len() == 0 {
        0
    } else {
        newline_count(s.drop_last()) + if s.last() == '\n' {
            1nat
        } else {
            0nat
        }
    }
}

/// No line holds a newline character.
pub open spec fn no_line_breaks(ls: Seq<Seq<char>>) -> bool {
    forall|i: int, j: int| 0 <= i < ls.len() && 0 <= j < ls[i].len() ==> #[trigger] ls[i][j] != '\n'
}

pub proof fn lemma_newline_count_concat(a: Seq<char>, b: Seq<char>)
    ensures
        newline_count(a + b) == newline_count(a) + newline_count(b),
    decreases b.len(),
{
    if b.len() == 0 {
        assert(a + b =~= a);
    } else {
        lemma_newline_count_concat(a, b.drop_last());
        assert((a + b).drop_last() =~= a + b.drop_last());
    }
}

proof fn lemma_no_newline(s: Seq<char>)
    requires
        forall|j: int| 0 <= j < s.len() ==> s[j] != '\n',
    ensures
        newline_count(s) == 0,
    decreases s.len(),
{
    if s.len() > 0 {
        lemma_no_newline(s.drop_last());
    }
}

/// Joining lines without line breaks gives a text with one newline per line.
pub proof fn lemma_joined_line_count(ls: Seq<Seq<char>>)
    requires
        no_line_breaks(ls),
    ensures
        newline_count(joined_lines(ls)) == ls.len(),
    decreases ls.len(),
{
    if ls.len() > 0 {
        let init = ls.drop_last();
        assert(no_line_breaks(init)) by {
            assert forall|i: int, j: int| 0 <= i < init.len() && 0 <= j < init[i].len()
                implies init[i][j] != '\n' by {
                assert(init[i] == ls[i]);
                assert(ls[i][j] != '\n');
            }
        }
        lemma_joined_line_count(init);
        let last = ls.last();
        assert forall|j: int| 0 <= j < last.len() implies last[j] != '\n' by {
            assert(ls[ls.len() - 1][j] != '\n');
        }
        lemma_no_newline(last);
        lemma_newline_count_concat(joined_lines(init), last);
        lemma_newline_count_concat(joined_lines(init) + last, seq!['\n']);
        assert(seq!['\n'].drop_last() =~= Seq::<char>::empty());
        assert(seq!['\n'].last() == '\n');
        assert(newline_count(Seq::<char>::empty()) == 0);
        assert(newline_count(seq!['\n']) == 1);
        assert(joined_lines(ls) == joined_lines(init) + last + seq!['\n']);
    }
}

proof fn lemma_joined_step(ls: Seq<Seq<char>>, a: int, b: int)
    requires
        0 <= a <= b < ls.len(),
    ensures
        joined_lines(ls.subrange(a, b + 1)) == joined_lines(ls.subrange(a, b)) + ls[b] + seq!['\n'],
{
    let next = ls.subrange(a, b + 1);
    assert(next.drop_last() =~= ls.subrange(a, b));
    assert(next.last() == ls[b]);
}

impl CodeType {
    /// The kind's name as text.
    pub open spec fn spec_name(&self) -> Seq<char> {
        match self {
            CodeType::Function => seq!['F', 'u', 'n', 'c', 't', 'i', 'o', 'n'],
            CodeType::Struct => seq!['S', 't', 'r', 'u', 'c', 't'],
            CodeType::Enum => seq!['E', 'n', 'u', 'm'],
            CodeType::Impl => seq!['I', 'm', 'p', 'l'],
        }
    }

    /// The kind's name as text, as a display of the kind would print it.
    pub fn name(&self) -> (r: String)
        ensures
            r@ == self.spec_name(),
    {
        match self {
            CodeType::Function => {
                proof { reveal_strlit("Function"); }
                String::from_str("Function")
            },
            CodeType::Struct => {
                proof { reveal_strlit("Struct"); }
                String::from_str("Struct")
            },
            CodeType::Enum => {
                proof { reveal_strlit("Enum"); }
                String::from_str("Enum")
            },
            CodeType::Impl => {
                proof { reveal_strlit("Impl"); }
                String::from_str("Impl")
            },
        }
    }
}

/// A copy of an optional text.
pub fn copy_text(o: &Option<String>) -> (r: Option<String>)
    ensures
        r == *o,
{
    match o {
        Some(s) => Some(s.clone()),
        None => None,
    }
}

impl TContext {
    /// A copy of the context, equal to it in every field.
    pub fn duplicate(&self) -> (r: TContext)
        ensures
            r == *self,
    {
        TContext {
            module: copy_text(&self.module),
            file_path: copy_text(&self.file_path),
            file_name: copy_text(&self.file_name),
            struct_name: copy_text(&self.struct_name),
            snippet: copy_text(&self.snippet),
        }
    }

    /// Sets the snippet to the lines `line_from..=line_to` (1-based), each
    /// followed by a newline; the other fields stay as they are.
    pub fn add_snippet(&mut self, lines: &Vec<String>, line_from: usize, line_to: usize)
        requires
            1 <= line_from,
            line_from <= line_to + 1,
            line_to <= lines@.len(),
        ensures
            final(self)@ == (ContextModel {
                snippet: Some(snippet_of(line_views(lines@), line_from as int, line_to as int)),
                ..old(self)@
            }),
            final(self).snippet matches Some(s) && s@ == snippet_of(
                line_views(lines@),
                line_from as int,
                line_to as int,
            ),
            final(self).module == old(self).module,
            final(self).file_path == old(self).file_path,
            final(self).file_name == old(self).file_name,
            final(self).struct_name == old(self).struct_name,
    {
        let ghost ls = line_views(lines@);
        let mut snippet = String::new();
        let mut i: usize = line_from - 1;
        proof {
            assert(ls.len() == lines@.len());
            reveal_strlit("\n");
            assert(ls.subrange(line_from - 1, i as int) =~= Seq::<Seq<char>>::empty());
        }
        while i < line_to
            invariant
                1 <= line_from,
                line_from - 1 <= i <= line_to,
                line_to <= lines@.len(),
                ls == line_views(lines@),
                ls.len() == lines@.len(),
                snippet@ == joined_lines(ls.subrange(line_from - 1, i as int)),
            decreases line_to - i,
        {
            snippet.append(lines[i].as_str());
            snippet.append("\n");
            proof {
                reveal_strlit("\n");
                assert(ls[i as int] == lines@[i as int]@);
                lemma_joined_step(ls, line_from as int - 1, i as int);
            }
            i = i + 1;
        }
        self.snippet = Some(snippet);
    }
}

} // verus!
