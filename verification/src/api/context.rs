use vstd::prelude::*;

use crate::api::config_files::{repeat_space, spaces};
use crate::api::scope::{fresh_scope, ScopeData, ScopeType};
use crate::cli::theme::{catppuccin_mocha, is_catppuccin_mocha, Theme};
use crate::comptime::memory::{MemoryObject, VirtualMemory};
use crate::lexer::Span;
use crate::parser::expressions::name::Name;

verus! {

/// Settings of the compiler: the width of a tab in transpiled code, whether to be quiet, and
/// whether to show developer information.
#[derive(Debug, Clone, Copy)]
pub struct CompilerConfiguration {
    pub code_tab_size: usize,
    pub quiet: bool,
    pub developer_mode: bool,
}

impl CompilerConfiguration {
    /// The default configuration: tabs four spaces wide, not quiet, in developer mode.
    pub fn new() -> (res: Self)
        ensures
            res.code_tab_size == 4,
            !res.quiet,
            res.developer_mode,
    {
        CompilerConfiguration { code_tab_size: 4, quiet: false, developer_mode: true }
    }

    /// One tab, as spaces.
    pub fn tab(&self) -> (res: String)
        ensures
            res@ == spaces(self.code_tab_size as nat),
    {
        repeat_space(self.code_tab_size)
    }

    /// `count` tabs, as spaces.
    pub fn tabs(&self, count: usize) -> (res: String)
        requires
            self.code_tab_size * count <= usize::MAX,
        ensures
            res@ == spaces((self.code_tab_size * count) as nat),
    {
        let tab = self.tab();
        let mut res = String::new();
        let mut i: usize = 0;
        while i < count
            invariant
                i <= count,
                self.code_tab_size * count <= usize::MAX,
                tab@ == spaces(self.code_tab_size as nat),
                res@ == spaces((self.code_tab_size * i) as nat),
            decreases count - i,
        {
            proof {
                assert(self.code_tab_size * (i + 1) == self.code_tab_size * i + self.code_tab_size) by (nonlinear_arith);
            }
            res.append(tab.as_str());
            i = i + 1;
            assert(res@ =~= spaces((self.code_tab_size * i) as nat));
        }
        res
    }
}

/// A position in the compiler's own source code, recorded when an error is raised so that
/// developers can see where it came from.
#[derive(Debug, Clone)]
pub struct SourceFilePosition {
    line: u32,
    column: u32,
    name: &'static str,
    function: String,
}

impl SourceFilePosition {
    pub closed spec fn spec_line(&self) -> u32 {
        self.line
    }

    pub closed spec fn spec_column(&self) -> u32 {
        self.column
    }

    pub closed spec fn spec_file_name(&self) -> Seq<char> {
        self.name@
    }

    pub closed spec fn spec_function_name(&self) -> Seq<char> {
        self.function@
    }

    /// Creates a position from its line, column, file name and function name.
    pub fn new(line: u32, column: u32, name: &'static str, function: String) -> (res: Self)
        ensures
            res.spec_line() == line,
            res.spec_column() == column,
            res.spec_file_name() == name@,
            res.spec_function_name() == function@,
    {
        Self { line, column, name, function }
    }

    /// The line of this position.
    pub fn line(&self) -> (res: u32)
        ensures
            res == self.spec_line(),
    {
        self.line
    }

    /// The column of this position.
    pub fn column(&self) -> (res: u32)
        ensures
            res == self.spec_column(),
    {
        self.column
    }

    /// The file of this position.
    pub fn file_name(&self) -> (res: &'static str)
        ensures
            res@ == self.spec_file_name(),
    {
        self.name
    }

    /// The fully qualified name of the function of this position.
    pub fn function_name(&self) -> (res: String)
        ensures
            res@ == self.spec_function_name(),
    {
        self.function.clone()
    }

    /// A copy of this position.
    pub fn duplicate(&self) -> (res: Self)
        ensures
            res.spec_line() == self.spec_line(),
            res.spec_column() == self.spec_column(),
            res.spec_file_name() == self.spec_file_name(),
            res.spec_function_name() == self.spec_function_name(),
    {
        Self { line: self.line, column: self.column, name: self.name, function: self.function.clone() }
    }
}

/// Two positions with the same line, column, file and function.
pub open spec fn same_position(a: SourceFilePosition, b: SourceFilePosition) -> bool {
    &&& a.spec_line() == b.spec_line()
    &&& a.spec_column() == b.spec_column()
    &&& a.spec_file_name() == b.spec_file_name()
    &&& a.spec_function_name() == b.spec_function_name()
}

/// The line and column, both counted from 1, at which the text after `chars` begins: one line
/// more for each newline in `chars`, and one column more for each character since the last one.
pub open spec fn line_column_after(chars: Seq<char>) -> (nat, nat)
    decreases chars.len(),
{
    if chars.len() == 0 {
        (1, 1)
    } else {
        let (line, column) = line_column_after(chars.drop_last());
        if chars.last() == '\n' {
            (line + 1, 1)
        } else {
            (line, column + 1)
        }
    }
}

proof fn lemma_line_column_bound(chars: Seq<char>)
    ensures
        line_column_after(chars).0 <= chars.len() + 1,
        line_column_after(chars).1 <= chars.len() + 1,
    decreases chars.len(),
{
    if chars.len() > 0 {
        lemma_line_column_bound(chars.drop_last());
    }
}

/// The line and column in `program` at which the given span starts; a span that starts past the
/// end of the program is placed just after its last character.
pub fn line_column(program: &str, span: Span) -> (res: (usize, usize))
    requires
        program@.len() < usize::MAX,
    ensures
        res.0 as nat == line_column_after(program@.take(if span.start <= program@.len() { span.start as int } else { program@.len() as int })).0,
        res.1 as nat == line_column_after(program@.take(if span.start <= program@.len() { span.start as int } else { program@.len() as int })).1,
{
    let length = program.unicode_len();
    let mut line: usize = 1;
    let mut column: usize = 1;
    let mut position: usize = 0;
    while position < length && position < span.start
        invariant
            position <= length,
            length == program@.len(),
            length < usize::MAX,
            position <= span.start,
            (line as nat, column as nat) == line_column_after(program@.take(position as int)),
        decreases length - position,
    {
        proof {
            lemma_line_column_bound(program@.take(position as int));
            assert(program@.take(position + 1).drop_last() =~= program@.take(position as int));
        }
        if program.get_char(position) == '\n' {
            line = line + 1;
            column = 1;
        } else {
            column = column + 1;
        }
        position = position + 1;
    }
    proof {
        assert(position == if span.start <= program@.len() { span.start as int } else { program@.len() as int });
    }
    (line, column)
}

/// What a record of the first occurrence holds after `value` is offered: the earlier value if
/// there is one, and `value` otherwise.
pub open spec fn keep_first<T>(recorded: Option<T>, value: T) -> Option<T> {
    if recorded is None {
        Some(value)
    } else {
        recorded
    }
}

/// The state of one run of the compiler: the scopes, the values known at compile time, the
/// configuration and theme, the program's text, whether side effects are allowed, and the
/// location and details of the first error. `V` and `R` are the values of variables and
/// represent-as declarations, `T` the values in virtual memory.
pub struct Context<V, R, T> {
    pub scope_data: ScopeData<V, R>,
    pub scope_label: Option<Name>,
    pub virtual_memory: VirtualMemory<T>,
    pub config: CompilerConfiguration,
    pub lines_printed: usize,
    pub theme: Theme,
    /// The text of the program being compiled.
    pub program: String,
    side_effects_stack: Vec<bool>,
    error_location: Option<Span>,
    error_details: Option<String>,
    compiler_error_position: Vec<SourceFilePosition>,
}

impl<V, R, T> Context<V, R, T> {
    pub closed spec fn spec_scope_data(&self) -> ScopeData<V, R> {
        self.scope_data
    }

    pub closed spec fn spec_scope_label(&self) -> Option<Name> {
        self.scope_label
    }

    pub closed spec fn spec_memory(&self) -> Map<usize, MemoryObject<T>> {
        self.virtual_memory@
    }

    pub closed spec fn spec_config(&self) -> CompilerConfiguration {
        self.config
    }

    pub closed spec fn spec_lines_printed(&self) -> usize {
        self.lines_printed
    }

    pub closed spec fn spec_theme(&self) -> Theme {
        self.theme
    }

    pub closed spec fn spec_program(&self) -> Seq<char> {
        self.program@
    }

    /// Whether side effects were allowed or forbidden, innermost last.
    pub closed spec fn spec_side_effects(&self) -> Seq<bool> {
        self.side_effects_stack@
    }

    /// The span at which the first error happened, if one did.
    pub closed spec fn spec_error_location(&self) -> Option<Span> {
        self.error_location
    }

    /// The details of the first error, if given.
    pub closed spec fn spec_error_details(&self) -> Option<Seq<char>> {
        match self.error_details {
            Some(d) => Some(d@),
            None => None,
        }
    }

    /// The positions in the compiler recorded for the current error, in order.
    pub closed spec fn spec_compiler_error_positions(&self) -> Seq<SourceFilePosition> {
        self.compiler_error_position@
    }

    /// A fresh context for compiling `program`: only the global scope, empty virtual memory, no
    /// label, no lines printed, the `catppuccin-mocha` theme, side effects allowed and no error.
    pub fn new(config: CompilerConfiguration, program: String) -> (res: Self)
        ensures
            res.spec_scope_data().wf(),
            res.spec_scope_data().spec_scopes().len() == 1,
            res.spec_scope_data().current_id() == 0,
            fresh_scope(res.spec_scope_data().spec_scopes()[0], 0, None, ScopeType::Global, None),
            res.spec_scope_label() is None,
            res.spec_memory() == Map::<usize, MemoryObject<T>>::empty(),
            res.spec_config() == config,
            res.spec_lines_printed() == 0,
            is_catppuccin_mocha(res.spec_theme()),
            res.spec_program() == program@,
            res.spec_side_effects() == Seq::<bool>::empty(),
            res.spec_error_location() is None,
            res.spec_error_details() is None,
            res.spec_compiler_error_positions() == Seq::<SourceFilePosition>::empty(),
    {
        Context {
            scope_data: ScopeData::global(),
            scope_label: None,
            virtual_memory: VirtualMemory::empty(),
            config,
            lines_printed: 0,
            theme: catppuccin_mocha(),
            program,
            side_effects_stack: Vec::new(),
            error_location: None,
            error_details: None,
            compiler_error_position: Vec::new(),
        }
    }

    /// Allows (`true`) or forbids (`false`) side effects until the matching `untoggle_side_effects`.
    pub fn toggle_side_effects(&mut self, side_effects: bool)
        ensures
            final(self).spec_side_effects() == old(self).spec_side_effects().push(side_effects),
            final(self).spec_error_location() == old(self).spec_error_location(),
            final(self).spec_error_details() == old(self).spec_error_details(),
    {
        self.side_effects_stack.push(side_effects);
    }

    /// Returns to whether side effects were allowed before the last `toggle_side_effects`.
    pub fn untoggle_side_effects(&mut self)
        ensures
            final(self).spec_side_effects() == if old(self).spec_side_effects().len() == 0 {
                old(self).spec_side_effects()
            } else {
                old(self).spec_side_effects().drop_last()
            },
            final(self).spec_error_location() == old(self).spec_error_location(),
            final(self).spec_error_details() == old(self).spec_error_details(),
    {
        self.side_effects_stack.pop();
    }

    /// Whether side effects are allowed: as the last toggle says, and allowed when none is in force.
    pub fn has_side_effects(&self) -> (res: bool)
        ensures
            res == if self.spec_side_effects().len() == 0 {
                true
            } else {
                self.spec_side_effects().last()
            },
    {
        let length = self.side_effects_stack.len();
        if length == 0 {
            true
        } else {
            self.side_effects_stack[length - 1]
        }
    }

    /// Records where an error happened; only the first position recorded is kept.
    pub fn set_error_position(&mut self, position: &Span)
        ensures
            final(self).spec_error_location() == keep_first(old(self).spec_error_location(), *position),
            final(self).spec_error_details() == old(self).spec_error_details(),
            final(self).spec_side_effects() == old(self).spec_side_effects(),
    {
        if self.error_location.is_none() {
            self.error_location = Some(*position);
        }
    }

    /// Records details of an error; only the first details recorded are kept.
    pub fn set_error_details(&mut self, error_details: &str)
        ensures
            final(self).spec_error_details() == keep_first(old(self).spec_error_details(), error_details@),
            final(self).spec_error_location() == old(self).spec_error_location(),
            final(self).spec_side_effects() == old(self).spec_side_effects(),
    {
        if self.error_details.is_none() {
            self.error_details = Some(error_details.to_owned());
        }
    }

    /// The details of the first error, if given.
    pub fn error_details(&self) -> (res: Option<String>)
        ensures
            match res {
                Some(d) => self.spec_error_details() == Some(d@),
                None => self.spec_error_details() is None,
            },
    {
        match &self.error_details {
            Some(d) => Some(d.clone()),
            None => None,
        }
    }

    /// The span at which the first error happened, if one did.
    pub fn error_position(&self) -> (res: Option<Span>)
        ensures
            res == self.spec_error_location(),
    {
        self.error_location
    }

    /// Records a position in the compiler at which the current error passed.
    pub fn set_compiler_error_position(&mut self, position: SourceFilePosition)
        ensures
            final(self).spec_compiler_error_positions() == old(self).spec_compiler_error_positions().push(position),
    {
        self.compiler_error_position.push(position);
    }

    /// Copies of the positions in the compiler recorded for the current error, in order.
    pub fn get_compiler_error_position(&self) -> (res: Vec<SourceFilePosition>)
        ensures
            res@.len() == self.spec_compiler_error_positions().len(),
            forall|k: int| 0 <= k < res@.len() ==> #[trigger] same_position(res@[k], self.spec_compiler_error_positions()[k]),
    {
        let mut res: Vec<SourceFilePosition> = Vec::new();
        let mut i: usize = 0;
        while i < self.compiler_error_position.len()
            invariant
                i <= self.compiler_error_position@.len(),
                res@.len() == i,
                forall|k: int| 0 <= k < i ==> #[trigger] same_position(res@[k], self.compiler_error_position@[k]),
            decreases self.compiler_error_position@.len() - i,
        {
            res.push(self.compiler_error_position[i].duplicate());
            i = i + 1;
        }
        res
    }

    /// The text of the program being compiled.
    pub fn program(&self) -> (res: String)
        ensures
            res@ == self.spec_program(),
    {
        self.program.clone()
    }

    /// The line and column in the program at which the given span starts.
    pub fn line_column(&self, span: Span) -> (res: (usize, usize))
        requires
            self.spec_program().len() < usize::MAX,
        ensures
            res.0 as nat == line_column_after(self.spec_program().take(if span.start <= self.spec_program().len() { span.start as int } else { self.spec_program().len() as int })).0,
            res.1 as nat == line_column_after(self.spec_program().take(if span.start <= self.spec_program().len() { span.start as int } else { self.spec_program().len() as int })).1,
    {
        line_column(self.program.as_str(), span)
    }
}

/// The first error wins: once an error position or details are recorded, later ones leave them
/// unchanged, and the first one offered is the one kept.
pub proof fn law_first_error_is_kept<T>(recorded: Option<T>, first: T, second: T)
    ensures
        keep_first(keep_first(recorded, first), second) == keep_first(recorded, first),
        recorded is None ==> keep_first(keep_first(recorded, first), second) == Some(first),
{
}

/// Untoggling side effects undoes toggling them: the stack of toggles is as it was.
pub proof fn law_untoggle_undoes_toggle(stack: Seq<bool>, side_effects: bool)
    ensures
        stack.push(side_effects).len() > 0,
        stack.push(side_effects).drop_last() == stack,
        stack.push(side_effects).last() == side_effects,
{
    assert(stack.push(side_effects).drop_last() =~= stack);
}

} // verus!
