//! The vocabulary of syntax-directed edits: each operation with its
//! parameters, how its textual parameters are read, and its failures.

use vstd::prelude::*;

use crate::edit::{EditConflict, TextEdit};
use crate::lang::{lower_of, lowercase};
use crate::text::str_eq;
use crate::tsc::{parse_usize, usize_of};
use crate::text::text_bytes;

verus! {

/// Where a change was found, for diagnostics.
#[derive(Debug, Clone)]
pub struct Location {
    pub line: usize,
    pub column: usize,
    pub context: String,
}

/// A syntax error found in a parsed file.
#[derive(Debug, Clone)]
pub struct SyntaxError {
    /// 1-indexed line.
    pub line: usize,
    /// 1-indexed column.
    pub column: usize,
    /// Source text around the error.
    pub context: String,
    /// The kind of the offending node (`ERROR` or `MISSING`).
    pub node_kind: String,
}

/// Why a parse could not be validated.
#[derive(Debug, Clone)]
pub enum ValidationError {
    ParseFailed,
    SyntaxErrors { count: usize, errors: Vec<SyntaxError> },
}

/// Why an operation produced no edits.
#[derive(Debug, Clone)]
pub enum OperationError {
    TargetNotFound { description: String },
    AmbiguousMatch { description: String, count: usize, locations: Vec<Location> },
    EditConflict(EditConflict),
    InvalidResult { errors: Vec<SyntaxError> },
    SourceHasErrors { errors: Vec<SyntaxError> },
    UnsupportedLanguage { language: String },
    InvalidParams { message: String },
}

/// One change made to a file, for the caller.
#[derive(Debug, Clone)]
pub struct ChangeDescription {
    pub kind: String,
    /// 1-indexed line.
    pub line: usize,
    /// 1-indexed column.
    pub column: usize,
    pub summary: String,
}

/// The outcome of running operations on one file.
#[derive(Debug, Clone)]
pub struct OperationResult {
    pub content: String,
    pub changes: Vec<ChangeDescription>,
    pub warnings: Vec<String>,
}

/// A requested operation, as it arrives in a request.
#[derive(Debug, Clone)]
pub enum Operation {
    RenameSymbol { file: Option<String>, from: String, to: String, scope: Option<String> },
    AddImport {
        file: Option<String>,
        source: String,
        specifiers: Vec<String>,
        default_import: Option<String>,
        type_only: bool,
    },
    RemoveImport { file: Option<String>, source: String, specifiers: Vec<String> },
    UpdateImportPaths { file: Option<String>, old_path: String, new_path: String, match_mode: String },
    AddParameter {
        file: Option<String>,
        function_name: String,
        param_name: String,
        param_type: Option<String>,
        default_value: Option<String>,
        position: String,
    },
    RemoveParameter { file: Option<String>, function_name: String, param_name: String },
    MakeAsync { file: Option<String>, function_name: String },
    WrapInBlock {
        file: Option<String>,
        start_line: usize,
        end_line: usize,
        wrap_kind: String,
        condition: Option<String>,
        item: Option<String>,
        iterable: Option<String>,
    },
    ExtractToVariable {
        file: Option<String>,
        expression: String,
        variable_name: String,
        var_kind: String,
        type_annotation: Option<String>,
    },
}

/// The `var_kind` of a request that names none.
pub fn default_var_kind() -> (r: String)
    ensures
        r@ == "const"@,
{
    "const".to_owned()
}

/// The `match_mode` of a request that names none.
pub fn default_match_mode() -> (r: String)
    ensures
        r@ == "exact"@,
{
    "exact".to_owned()
}

/// The `position` of a request that names none.
pub fn default_position() -> (r: String)
    ensures
        r@ == "last"@,
{
    "last".to_owned()
}

/// `const` or `let`.
#[derive(Debug, Clone, Copy, PartialEq, Eq, Structural)]
pub enum VarKind {
    Const,
    Let,
}

/// The message for an unknown variable kind.
pub open spec fn bad_var_kind_message(other: Seq<char>) -> Seq<char> {
    "Invalid var_kind '"@ + other + "', expected 'const' or 'let'"@
}

/// The error for an invalid parameter, with its message.
pub open spec fn is_invalid_params(e: OperationError, message: Seq<char>) -> bool {
    e matches OperationError::InvalidParams { message: m } && m@ == message
}

impl VarKind {
    /// The keyword that declares a variable of this kind.
    pub fn keyword(&self) -> (r: &'static str)
        ensures
            r@ == (match *self {
                VarKind::Const => "const"@,
                VarKind::Let => "let"@,
            }),
    {
        match self {
            VarKind::Const => "const",
            VarKind::Let => "let",
        }
    }

    /// The kind named `s`, in any case.
    pub fn from_str(s: &str) -> (r: Result<VarKind, OperationError>)
        ensures
            match r {
                Ok(k) => (lower_of(s@) == "const"@ && k == VarKind::Const) || (lower_of(s@) == "let"@ && k
                    == VarKind::Let),
                Err(e) => lower_of(s@) != "const"@ && lower_of(s@) != "let"@ && is_invalid_params(
                    e,
                    bad_var_kind_message(lower_of(s@)),
                ),
            },
    {
        var_kind_for(lowercase(s))
    }
}

/// The kind a lowercase name stands for.
pub fn var_kind_for(n: String) -> (r: Result<VarKind, OperationError>)
    ensures
        match r {
            Ok(k) => (n@ == "const"@ && k == VarKind::Const) || (n@ == "let"@ && k == VarKind::Let),
            Err(e) => n@ != "const"@ && n@ != "let"@ && is_invalid_params(e, bad_var_kind_message(n@)),
        },
{
    if str_eq(n.as_str(), "const") {
        Ok(VarKind::Const)
    } else if str_eq(n.as_str(), "let") {
        Ok(VarKind::Let)
    } else {
        let mut message = "Invalid var_kind '".to_owned();
        message.append(n.as_str());
        message.append("', expected 'const' or 'let'");
        Err(OperationError::InvalidParams { message })
    }
}

/// How an import path is matched.
#[derive(Debug, Clone, Copy, PartialEq, Eq, Structural)]
pub enum MatchMode {
    /// The whole specifier equals the old path.
    Exact,
    /// The specifier starts with the old path, which is replaced.
    Prefix,
}

/// The message for an unknown match mode.
pub open spec fn bad_match_mode_message(other: Seq<char>) -> Seq<char> {
    "Invalid match_mode '"@ + other + "', expected 'exact' or 'prefix'"@
}

impl MatchMode {
    /// The mode named `s`, in any case.
    pub fn from_str(s: &str) -> (r: Result<MatchMode, OperationError>)
        ensures
            match r {
                Ok(m) => (lower_of(s@) == "exact"@ && m == MatchMode::Exact) || (lower_of(s@) == "prefix"@
                    && m == MatchMode::Prefix),
                Err(e) => lower_of(s@) != "exact"@ && lower_of(s@) != "prefix"@ && is_invalid_params(
                    e,
                    bad_match_mode_message(lower_of(s@)),
                ),
            },
    {
        match_mode_for(lowercase(s))
    }
}

/// The mode a lowercase name stands for.
pub fn match_mode_for(n: String) -> (r: Result<MatchMode, OperationError>)
    ensures
        match r {
            Ok(m) => (n@ == "exact"@ && m == MatchMode::Exact) || (n@ == "prefix"@ && m == MatchMode::Prefix),
            Err(e) => n@ != "exact"@ && n@ != "prefix"@ && is_invalid_params(e, bad_match_mode_message(n@)),
        },
{
    if str_eq(n.as_str(), "exact") {
        Ok(MatchMode::Exact)
    } else if str_eq(n.as_str(), "prefix") {
        Ok(MatchMode::Prefix)
    } else {
        let mut message = "Invalid match_mode '".to_owned();
        message.append(n.as_str());
        message.append("', expected 'exact' or 'prefix'");
        Err(OperationError::InvalidParams { message })
    }
}

/// Where a new parameter goes.
#[derive(Debug, Clone, Copy, PartialEq, Eq, Structural)]
pub enum ParamPosition {
    First,
    Last,
    /// A 0-based index, clamped to the number of parameters.
    Index(usize),
}

/// The message for an unreadable position.
pub open spec fn bad_position_message(s: Seq<char>) -> Seq<char> {
    "Invalid position '"@ + s + "', expected 'first', 'last', or a number"@
}

/// The position `s` names: `first` or `last` in any case, or a number.
pub open spec fn position_named(s: Seq<char>) -> Option<ParamPosition> {
    if lower_of(s) == "first"@ {
        Some(ParamPosition::First)
    } else if lower_of(s) == "last"@ {
        Some(ParamPosition::Last)
    } else {
        match usize_of(text_bytes(s)) {
            Some(i) => Some(ParamPosition::Index(i as usize)),
            None => None,
        }
    }
}

impl ParamPosition {
    /// The position `s` names.
    pub fn from_str(s: &str) -> (r: Result<ParamPosition, OperationError>)
        ensures
            match r {
                Ok(p) => position_named(s@) == Some(p),
                Err(e) => position_named(s@) is None && is_invalid_params(e, bad_position_message(s@)),
            },
    {
        let l = lowercase(s);
        if str_eq(l.as_str(), "first") {
            Ok(ParamPosition::First)
        } else if str_eq(l.as_str(), "last") {
            Ok(ParamPosition::Last)
        } else {
            match parse_usize(s) {
                Some(i) => Ok(ParamPosition::Index(i)),
                None => {
                    let mut message = "Invalid position '".to_owned();
                    message.append(s);
                    message.append("', expected 'first', 'last', or a number");
                    Err(OperationError::InvalidParams { message })
                },
            }
        }
    }
}

/// Rename every reference to a symbol, optionally within one scope.
#[derive(Debug, Clone)]
pub struct RenameSymbol {
    pub from: String,
    pub to: String,
    pub scope: Option<String>,
}

/// Add named or default imports from a module.
#[derive(Debug, Clone)]
pub struct AddImport {
    pub source_module: String,
    pub specifiers: Vec<String>,
    pub default_import: Option<String>,
    pub type_only: bool,
}

/// Remove imports from a module; no specifiers removes the whole import.
#[derive(Debug, Clone)]
pub struct RemoveImport {
    pub source_module: String,
    pub specifiers: Vec<String>,
}

/// Point module specifiers at a new path.
#[derive(Debug, Clone)]
pub struct UpdateImportPaths {
    pub old_path: String,
    pub new_path: String,
    pub match_mode: MatchMode,
}

/// Add a parameter to a function.
#[derive(Debug, Clone)]
pub struct AddParameter {
    pub function_name: String,
    pub param_name: String,
    pub param_type: Option<String>,
    pub default_value: Option<String>,
    pub position: ParamPosition,
}

/// Remove a parameter from a function.
#[derive(Debug, Clone)]
pub struct RemoveParameter {
    pub function_name: String,
    pub param_name: String,
}

/// Make a function async.
#[derive(Debug, Clone)]
pub struct MakeAsync {
    pub function_name: String,
}

/// The construct that wraps lines.
#[derive(Debug, Clone)]
pub enum WrapKind {
    If { condition: String },
    TryCatch { catch_param: String },
    ForOf { item: String, iterable: String },
    Block,
}

/// Wrap a range of lines (1-indexed, inclusive) in a block.
#[derive(Debug, Clone)]
pub struct WrapInBlock {
    pub start_line: usize,
    pub end_line: usize,
    pub wrap_kind: WrapKind,
}

/// Move an expression into a new variable declared before its statement.
#[derive(Debug, Clone)]
pub struct ExtractToVariable {
    pub expression: String,
    pub variable_name: String,
    pub var_kind: VarKind,
    pub type_annotation: Option<String>,
}

impl RenameSymbol {
    pub fn new(from: String, to: String, scope: Option<String>) -> (r: RenameSymbol)
        ensures
            r.from == from && r.to == to && r.scope == scope,
    {
        RenameSymbol { from, to, scope }
    }

    /// Checks the names before any search: both must be non-empty, and a
    /// rename to the same name is done with no edit. `Ok(None)` means the
    /// search is needed.
    pub fn precheck(&self) -> (r: Result<Option<Vec<TextEdit>>, OperationError>)
        ensures
            (self.from@.len() == 0 || self.to@.len() == 0) <==> r is Err,
            r is Err ==> is_invalid_params(r->Err_0, "from and to must be non-empty"@),
            (self.from@.len() > 0 && self.to@.len() > 0 && self.from@ == self.to@) ==> (r matches Ok(
                Some(v),
            ) && v@.len() == 0),
            (self.from@.len() > 0 && self.to@.len() > 0 && self.from@ != self.to@) ==> r matches Ok(None),
    {
        if self.from.as_str().is_empty() || self.to.as_str().is_empty() {
            return Err(OperationError::InvalidParams { message: "from and to must be non-empty".to_owned() });
        }
        if str_eq(self.from.as_str(), self.to.as_str()) {
            return Ok(Some(Vec::new()));
        }
        Ok(None)
    }
}

impl AddImport {
    pub fn new(source_module: String, specifiers: Vec<String>, default_import: Option<String>, type_only: bool) -> (r: AddImport)
        ensures
            r.source_module == source_module && r.specifiers == specifiers && r.default_import
                == default_import && r.type_only == type_only,
    {
        AddImport { source_module, specifiers, default_import, type_only }
    }
}

impl RemoveImport {
    pub fn new(source_module: String, specifiers: Vec<String>) -> (r: RemoveImport)
        ensures
            r.source_module == source_module && r.specifiers == specifiers,
    {
        RemoveImport { source_module, specifiers }
    }
}

impl UpdateImportPaths {
    pub fn new(old_path: String, new_path: String, match_mode: MatchMode) -> (r: UpdateImportPaths)
        ensures
            r.old_path == old_path && r.new_path == new_path && r.match_mode == match_mode,
    {
        UpdateImportPaths { old_path, new_path, match_mode }
    }
}

/// The text of a parameter: `name[: type][ = default]`.
pub open spec fn param_text(name: Seq<char>, ty: Option<String>, default: Option<String>) -> Seq<char> {
    let with_type = match ty {
        Some(t) => name + ": "@ + t@,
        None => name,
    };
    match default {
        Some(d) => with_type + " = "@ + d@,
        None => with_type,
    }
}

impl AddParameter {
    pub fn new(
        function_name: String,
        param_name: String,
        param_type: Option<String>,
        default_value: Option<String>,
        position: ParamPosition,
    ) -> (r: AddParameter)
        ensures
            r.function_name == function_name && r.param_name == param_name && r.param_type
                == param_type && r.default_value == default_value && r.position == position,
    {
        AddParameter { function_name, param_name, param_type, default_value, position }
    }

    /// The text of the new parameter.
    pub fn format_param(&self) -> (r: String)
        ensures
            r@ == param_text(self.param_name@, self.param_type, self.default_value),
    {
        let mut param = self.param_name.clone();
        if let Some(ty) = &self.param_type {
            param.append(": ");
            param.append(ty.as_str());
        }
        if let Some(d) = &self.default_value {
            param.append(" = ");
            param.append(d.as_str());
        }
        param
    }
}

impl RemoveParameter {
    pub fn new(function_name: String, param_name: String) -> (r: RemoveParameter)
        ensures
            r.function_name == function_name && r.param_name == param_name,
    {
        RemoveParameter { function_name, param_name }
    }
}

impl MakeAsync {
    pub fn new(function_name: String) -> (r: MakeAsync)
        ensures
            r.function_name == function_name,
    {
        MakeAsync { function_name }
    }
}

impl WrapInBlock {
    pub fn new(start_line: usize, end_line: usize, wrap_kind: WrapKind) -> (r: WrapInBlock)
        ensures
            r.start_line == start_line && r.end_line == end_line && r.wrap_kind == wrap_kind,
    {
        WrapInBlock { start_line, end_line, wrap_kind }
    }

    /// The name of the wrapping construct, for labels.
    pub fn wrap_kind_name(&self) -> (r: &'static str)
        ensures
            r@ == (match self.wrap_kind {
                WrapKind::If { .. } => "if"@,
                WrapKind::TryCatch { .. } => "try-catch"@,
                WrapKind::ForOf { .. } => "for-of"@,
                WrapKind::Block => "block"@,
            }),
    {
        match &self.wrap_kind {
            WrapKind::If { .. } => "if",
            WrapKind::TryCatch { .. } => "try-catch",
            WrapKind::ForOf { .. } => "for-of",
            WrapKind::Block => "block",
        }
    }
}

impl ExtractToVariable {
    pub fn new(expression: String, variable_name: String, var_kind: VarKind, type_annotation: Option<String>) -> (r: ExtractToVariable)
        ensures
            r.expression == expression && r.variable_name == variable_name && r.var_kind == var_kind
                && r.type_annotation == type_annotation,
    {
        ExtractToVariable { expression, variable_name, var_kind, type_annotation }
    }
}

/// The node kinds that are statements, before which a variable can be declared.
pub open spec fn statement_kind(k: Seq<char>) -> bool {
    k == "expression_statement"@ || k == "variable_declaration"@ || k == "lexical_declaration"@ || k
        == "return_statement"@ || k == "if_statement"@ || k == "for_statement"@ || k
        == "for_in_statement"@ || k == "while_statement"@ || k == "do_statement"@ || k
        == "switch_statement"@ || k == "throw_statement"@ || k == "try_statement"@ || k
        == "export_statement"@
}

/// Whether a node kind is a statement.
pub fn is_statement_kind(kind: &str) -> (r: bool)
    ensures
        r == statement_kind(kind@),
{
    str_eq(kind, "expression_statement") || str_eq(kind, "variable_declaration") || str_eq(
        kind,
        "lexical_declaration",
    ) || str_eq(kind, "return_statement") || str_eq(kind, "if_statement") || str_eq(kind, "for_statement")
        || str_eq(kind, "for_in_statement") || str_eq(kind, "while_statement") || str_eq(
        kind,
        "do_statement",
    ) || str_eq(kind, "switch_statement") || str_eq(kind, "throw_statement") || str_eq(
        kind,
        "try_statement",
    ) || str_eq(kind, "export_statement")
}

/// An operation ready to run: one variant per kind, its parameters read.
#[derive(Debug, Clone)]
pub enum Executable {
    RenameSymbol(RenameSymbol),
    AddImport(AddImport),
    RemoveImport(RemoveImport),
    UpdateImportPaths(UpdateImportPaths),
    AddParameter(AddParameter),
    RemoveParameter(RemoveParameter),
    MakeAsync(MakeAsync),
    WrapInBlock(WrapInBlock),
    ExtractToVariable(ExtractToVariable),
}

fn copy_opt(o: &Option<String>) -> (r: Option<String>)
    ensures
        r == *o,
{
    match o {
        Some(s) => Some(s.clone()),
        None => None,
    }
}

fn copy_strings(v: &Vec<String>) -> (r: Vec<String>)
    ensures
        r@ == v@,
{
    let mut out: Vec<String> = Vec::new();
    let mut i: usize = 0;
    while i < v.len()
        invariant
            i <= v@.len(),
            out@ == v@.take(i as int),
        decreases v@.len() - i,
    {
        out.push(v[i].clone());
        i += 1;
        assert(out@ =~= v@.take(i as int));
    }
    assert(v@.take(i as int) =~= v@);
    out
}

/// The message for an unknown wrapper kind.
pub open spec fn bad_wrap_kind_message(other: Seq<char>) -> Seq<char> {
    "Invalid wrap_kind '"@ + other + "', expected 'if', 'try_catch', 'for_of', or 'block'"@
}

/// The wrapper a request names, or the message of its error.
pub open spec fn wrap_kind_named(kind: Seq<char>, condition: Option<String>, item: Option<String>, iterable: Option<String>) -> Result<WrapKind, Seq<char>> {
    if kind == "if"@ {
        match condition {
            Some(c) => Ok(WrapKind::If { condition: c }),
            None => Err("wrap_in_block with kind 'if' requires 'condition'"@),
        }
    } else if kind == "try_catch"@ {
        match condition {
            Some(c) => Ok(WrapKind::TryCatch { catch_param: c }),
            None => Err(Seq::empty()),
        }
    } else if kind == "for_of"@ {
        match (item, iterable) {
            (Some(i), Some(t)) => Ok(WrapKind::ForOf { item: i, iterable: t }),
            (None, _) => Err("wrap_in_block with kind 'for_of' requires 'item'"@),
            (Some(_), None) => Err("wrap_in_block with kind 'for_of' requires 'iterable'"@),
        }
    } else if kind == "block"@ {
        Ok(WrapKind::Block)
    } else {
        Err(bad_wrap_kind_message(kind))
    }
}

/// `r` is what the wrapper request gives.
pub open spec fn wrap_kind_result(kind: Seq<char>, condition: Option<String>, item: Option<String>, iterable: Option<String>, r: Result<WrapKind, OperationError>) -> bool {
    if kind == "try_catch"@ && condition is None {
        r matches Ok(WrapKind::TryCatch { catch_param }) && catch_param@ == "error"@
    } else {
        match wrap_kind_named(kind, condition, item, iterable) {
            Ok(w) => r == Ok::<WrapKind, OperationError>(w),
            Err(m) => r matches Err(e) && is_invalid_params(e, m),
        }
    }
}

/// Reads the wrapper kind of a wrap request.
pub fn wrap_kind_from(kind: &str, condition: &Option<String>, item: &Option<String>, iterable: &Option<String>) -> (r: Result<WrapKind, OperationError>)
    ensures
        wrap_kind_result(kind@, *condition, *item, *iterable, r),
{
    proof {
        reveal_strlit("if");
        reveal_strlit("try_catch");
        reveal_strlit("for_of");
        reveal_strlit("block");
    }
    let is_if = str_eq(kind, "if");
    let is_try = str_eq(kind, "try_catch");
    let is_for = str_eq(kind, "for_of");
    let is_block = str_eq(kind, "block");
    assert("if"@.len() == 2);
    assert("try_catch"@.len() == 9);
    assert("for_of"@.len() == 6);
    assert("block"@.len() == 5);
    assert(is_if ==> !is_try && !is_for && !is_block);
    assert(is_try ==> !is_for && !is_block);
    assert(is_for ==> !is_block);
    if is_if {
        match condition {
            Some(c) => Ok(WrapKind::If { condition: c.clone() }),
            None => Err(OperationError::InvalidParams { message: "wrap_in_block with kind 'if' requires 'condition'".to_owned() }),
        }
    } else if is_try {
        match condition {
            Some(c) => Ok(WrapKind::TryCatch { catch_param: c.clone() }),
            None => Ok(WrapKind::TryCatch { catch_param: "error".to_owned() }),
        }
    } else if is_for {
        match item {
            None => Err(OperationError::InvalidParams { message: "wrap_in_block with kind 'for_of' requires 'item'".to_owned() }),
            Some(i) => match iterable {
                None => Err(OperationError::InvalidParams { message: "wrap_in_block with kind 'for_of' requires 'iterable'".to_owned() }),
                Some(t) => Ok(WrapKind::ForOf { item: i.clone(), iterable: t.clone() }),
            },
        }
    } else if is_block {
        Ok(WrapKind::Block)
    } else {
        let mut message = "Invalid wrap_kind '".to_owned();
        message.append(kind);
        message.append("', expected 'if', 'try_catch', 'for_of', or 'block'");
        Err(OperationError::InvalidParams { message })
    }
}

/// `r` is what `op` compiles to: its parameters carried over, its textual
/// parameters read, or the error of the first one that cannot be read.
pub open spec fn compiled(op: Operation, r: Result<Executable, OperationError>) -> bool {
    match op {
        Operation::RenameSymbol { from, to, scope, .. } => r matches Ok(Executable::RenameSymbol(x)) && x.from
            == from && x.to == to && x.scope == scope,
        Operation::AddImport { source, specifiers, default_import, type_only, .. } => r matches Ok(
            Executable::AddImport(x),
        ) && x.source_module == source && x.specifiers@ == specifiers@ && x.default_import == default_import
            && x.type_only == type_only,
        Operation::RemoveImport { source, specifiers, .. } => r matches Ok(Executable::RemoveImport(x))
            && x.source_module == source && x.specifiers@ == specifiers@,
        Operation::UpdateImportPaths { old_path, new_path, match_mode, .. } => {
            let l = lower_of(match_mode@);
            if l == "exact"@ || l == "prefix"@ {
                r matches Ok(Executable::UpdateImportPaths(x)) && x.old_path == old_path && x.new_path == new_path
                    && x.match_mode == (if l == "exact"@ { MatchMode::Exact } else { MatchMode::Prefix })
            } else {
                r matches Err(e) && is_invalid_params(e, bad_match_mode_message(l))
            }
        },
        Operation::AddParameter { function_name, param_name, param_type, default_value, position, .. } => {
            match position_named(position@) {
                Some(p) => r matches Ok(Executable::AddParameter(x)) && x.function_name == function_name
                    && x.param_name == param_name && x.param_type == param_type && x.default_value == default_value
                    && x.position == p,
                None => r matches Err(e) && is_invalid_params(e, bad_position_message(position@)),
            }
        },
        Operation::RemoveParameter { function_name, param_name, .. } => r matches Ok(
            Executable::RemoveParameter(x),
        ) && x.function_name == function_name && x.param_name == param_name,
        Operation::MakeAsync { function_name, .. } => r matches Ok(Executable::MakeAsync(x)) && x.function_name
            == function_name,
        Operation::WrapInBlock { start_line, end_line, wrap_kind, condition, item, iterable, .. } => {
            match r {
                Ok(Executable::WrapInBlock(x)) => x.start_line == start_line && x.end_line == end_line
                    && wrap_kind_result(wrap_kind@, condition, item, iterable, Ok(x.wrap_kind)),
                Ok(_) => false,
                Err(e) => wrap_kind_result(wrap_kind@, condition, item, iterable, Err(e)),
            }
        },
        Operation::ExtractToVariable { expression, variable_name, var_kind, type_annotation, .. } => {
            let l = lower_of(var_kind@);
            if l == "const"@ || l == "let"@ {
                r matches Ok(Executable::ExtractToVariable(x)) && x.expression == expression && x.variable_name
                    == variable_name && x.type_annotation == type_annotation && x.var_kind == (if l
                    == "const"@ {
                    VarKind::Const
                } else {
                    VarKind::Let
                })
            } else {
                r matches Err(e) && is_invalid_params(e, bad_var_kind_message(l))
            }
        },
    }
}

/// The operation a request describes, ready to run.
pub fn operation_to_executable(op: &Operation) -> (r: Result<Executable, OperationError>)
    ensures
        compiled(*op, r),
{
    proof {
        reveal_strlit("exact");
        reveal_strlit("prefix");
        reveal_strlit("const");
        reveal_strlit("let");
        assert("exact"@.len() == 5);
        assert("prefix"@.len() == 6);
        assert("const"@.len() == 5);
        assert("let"@.len() == 3);
    }
    match op {
        Operation::RenameSymbol { from, to, scope, .. } => Ok(
            Executable::RenameSymbol(RenameSymbol::new(from.clone(), to.clone(), copy_opt(scope))),
        ),
        Operation::AddImport { source, specifiers, default_import, type_only, .. } => Ok(
            Executable::AddImport(
                AddImport::new(source.clone(), copy_strings(specifiers), copy_opt(default_import), *type_only),
            ),
        ),
        Operation::RemoveImport { source, specifiers, .. } => Ok(
            Executable::RemoveImport(RemoveImport::new(source.clone(), copy_strings(specifiers))),
        ),
        Operation::UpdateImportPaths { old_path, new_path, match_mode, .. } => {
            match MatchMode::from_str(match_mode.as_str()) {
                Ok(mode) => Ok(
                    Executable::UpdateImportPaths(UpdateImportPaths::new(old_path.clone(), new_path.clone(), mode)),
                ),
                Err(e) => Err(e),
            }
        },
        Operation::AddParameter { function_name, param_name, param_type, default_value, position, .. } => {
            match ParamPosition::from_str(position.as_str()) {
                Ok(pos) => Ok(
                    Executable::AddParameter(
                        AddParameter::new(
                            function_name.clone(),
                            param_name.clone(),
                            copy_opt(param_type),
                            copy_opt(default_value),
                            pos,
                        ),
                    ),
                ),
                Err(e) => Err(e),
            }
        },
        Operation::RemoveParameter { function_name, param_name, .. } => Ok(
            Executable::RemoveParameter(RemoveParameter::new(function_name.clone(), param_name.clone())),
        ),
        Operation::MakeAsync { function_name, .. } => Ok(
            Executable::MakeAsync(MakeAsync::new(function_name.clone())),
        ),
        Operation::WrapInBlock { start_line, end_line, wrap_kind, condition, item, iterable, .. } => {
            match wrap_kind_from(wrap_kind.as_str(), condition, item, iterable) {
                Ok(kind) => Ok(Executable::WrapInBlock(WrapInBlock::new(*start_line, *end_line, kind))),
                Err(e) => Err(e),
            }
        },
        Operation::ExtractToVariable { expression, variable_name, var_kind, type_annotation, .. } => {
            match VarKind::from_str(var_kind.as_str()) {
                Ok(kind) => Ok(
                    Executable::ExtractToVariable(
                        ExtractToVariable::new(expression.clone(), variable_name.clone(), kind, copy_opt(type_annotation)),
                    ),
                ),
                Err(e) => Err(e),
            }
        },
    }
}

} // verus!
