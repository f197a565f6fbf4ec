//! The program that is hovered over: its source files and what the compiler knows of its modules.

use vstd::prelude::*;
use crate::source::Location;
use crate::source::Span;
use crate::source::cursor_fits;
use crate::source::column_fits;
use crate::source::locate;
use crate::source::located;
use crate::source::slice;
use crate::source::sliced;
use crate::source::span;
use crate::text::byte_len;

verus! {

/// How many bytes after its name the declaration of a struct field is looked for.
pub const FIELD_WINDOW: u32 = 128;

/// A span in one of the source files.
#[derive(Clone, Copy, Debug, PartialEq, Eq, Structural)]
pub struct Loc {
    /// The number of the file.
    pub file: usize,
    pub span: Span,
}

/// The kinds of tokens that are told apart.
#[derive(Clone, Copy, Debug, PartialEq, Eq, Structural)]
pub enum Tok {
    Identifier,
    Colon,
    Other,
}

/// A token of a piece of source, with its bytes counted from the start of that piece.
#[derive(Clone, Copy, Debug)]
pub struct Token {
    pub kind: Tok,
    pub start: usize,
    pub end: usize,
}

/// A field of a struct.
#[derive(Debug)]
pub struct FieldEnv {
    pub name: String,
    /// The type, as it is displayed.
    pub ty: String,
}

/// The left side of a binding or an assignment.
#[derive(Debug)]
pub enum Pattern {
    Struct {
        loc: Loc,
        args: Vec<Pattern>,
        /// The fields of the struct.
        fields: Vec<FieldEnv>,
        /// The tokens of the source at `loc`.
        tokens: Vec<Token>,
    },
    Tuple { loc: Loc, args: Vec<Pattern> },
    Var {
        loc: Loc,
        /// The type, if it is known, as it is displayed.
        ty: Option<String>,
    },
    Other,
}

/// What a call expression calls.
#[derive(Debug)]
pub enum Operation {
    MoveFunction {
        /// The header of the function.
        header: String,
    },
    Select {
        /// The type of the selected field, as it is displayed.
        field_type: String,
    },
    SpecFunction {
        name: String,
        /// The type arguments, as they are displayed.
        inst: Vec<String>,
    },
    Pack {
        /// The type of the packed value, if it is known, as it is displayed.
        ty: Option<String>,
        /// The fields of the struct.
        fields: Vec<FieldEnv>,
        /// The tokens of the source of the call.
        tokens: Vec<Token>,
    },
    Other,
}

/// One node of an expression.
#[derive(Debug)]
pub enum ExpData {
    Value(Loc),
    Call(Loc, Operation),
    LocalVar {
        loc: Loc,
        name: String,
        /// The type, if it is known, as it is displayed.
        ty: Option<String>,
    },
    Temporary {
        loc: Loc,
        /// The type, if it is known, as it is displayed.
        ty: Option<String>,
    },
    Block(Pattern),
    Assign(Pattern),
    Other,
}

/// An expression.
#[derive(Debug)]
pub struct Exp {
    /// Its nodes, each after those that it consists of.
    pub nodes: Vec<ExpData>,
}

/// A condition of a specification.
#[derive(Debug)]
pub struct Condition {
    pub exps: Vec<Exp>,
}

/// A member of a `use` declaration.
#[derive(Debug)]
pub struct UseMember {
    pub loc: Loc,
    pub name: String,
}

/// A `use` declaration.
#[derive(Debug)]
pub struct UseDecl {
    /// The full name of the used module.
    pub module_name: String,
    pub loc: Loc,
    pub members: Vec<UseMember>,
}

/// A parameter of a function.
#[derive(Debug)]
pub struct Parameter {
    pub name: String,
    /// The type, as it is displayed.
    pub ty: String,
}

/// A function.
#[derive(Debug)]
pub struct FunctionEnv {
    pub name: String,
    pub full_name: String,
    pub loc: Loc,
    pub parameters: Vec<Parameter>,
    /// The result type, as it is displayed.
    pub result_type: String,
    /// The body, unless the function is native.
    pub def: Option<Exp>,
    pub spec_conditions: Vec<Condition>,
}

/// A struct.
#[derive(Debug)]
pub struct StructEnv {
    pub name: String,
    pub full_name: String,
    pub loc: Loc,
    pub fields: Vec<FieldEnv>,
    pub spec_conditions: Vec<Condition>,
}

/// A named constant.
#[derive(Debug)]
pub struct NamedConstantEnv {
    pub name: String,
    pub loc: Loc,
    /// The type, as it is displayed.
    pub ty: String,
    /// The value, as it is displayed.
    pub value: String,
    /// The value in its debug form.
    pub value_debug: String,
}

/// What a specification block speaks of.
#[derive(Clone, Copy, Debug, PartialEq, Eq, Structural)]
pub enum SpecBlockTarget {
    /// The function with this number in its module.
    Function(usize),
    /// The struct with this number in its module.
    Struct(usize),
    Other,
}

/// A specification block.
#[derive(Debug)]
pub struct SpecBlockInfo {
    pub loc: Loc,
    pub target: SpecBlockTarget,
}

/// A module.
#[derive(Debug)]
pub struct ModuleEnv {
    pub name: String,
    pub full_name: String,
    pub loc: Loc,
    pub use_decls: Vec<UseDecl>,
    pub functions: Vec<FunctionEnv>,
    pub structs: Vec<StructEnv>,
    pub constants: Vec<NamedConstantEnv>,
    pub spec_blocks: Vec<SpecBlockInfo>,
}

/// All files and modules of a project.
#[derive(Debug)]
pub struct GlobalEnv {
    /// The sources of the files.
    pub files: Vec<String>,
    pub modules: Vec<ModuleEnv>,
}

impl Span {
    /// The span runs forwards, and the position after its end is a position.
    pub open spec fn wf(self) -> bool {
        self.start <= self.end < u32::MAX
    }
}

/// Token `i` is an identifier that is followed by a colon.
pub open spec fn names_field(tokens: Seq<Token>, i: int) -> bool {
    &&& 0 <= i < tokens.len() - 1
    &&& tokens[i].kind == Tok::Identifier
    &&& tokens[i + 1].kind == Tok::Colon
}

/// Each identifier that is followed by a colon lies where positions from the start of `loc` on can
/// reach.
pub open spec fn tokens_wf(loc: Loc, tokens: Seq<Token>) -> bool {
    forall|i: int| #[trigger]
        names_field(tokens, i) ==> tokens[i].start <= tokens[i].end && loc.span.start
            + tokens[i].end <= u32::MAX
}

impl GlobalEnv {
    /// The source of a file.
    pub open spec fn source(&self, file: usize) -> Seq<char> {
        self.files@[file as int]@
    }

    /// There is such a file, and each position in it is a number of 32 bits.
    pub open spec fn file_wf(&self, file: usize) -> bool {
        file < self.files@.len() && byte_len(self.source(file)) < u32::MAX
    }

    /// Both ends of `loc` can be looked up in its file.
    pub open spec fn loc_wf(&self, loc: Loc) -> bool {
        self.file_wf(loc.file) && loc.span.wf()
    }

    /// The source at `loc` can be looked up.
    pub open spec fn source_wf(&self, loc: Loc) -> bool {
        loc.file < self.files@.len() && loc.span.start <= loc.span.end
    }

    /// The span from the start of line `line` to column `col` of a file can be formed.
    pub open spec fn cursor_wf(&self, file: usize, line: u32, col: u32) -> bool {
        self.file_wf(file) && column_fits(self.source(file), line, col)
    }

    /// The line and column at which `loc` starts.
    pub open spec fn location(&self, loc: Loc) -> Option<Location> {
        located(self.source(loc.file), loc.span.start as int)
    }

    /// The line and column at which `loc` ends.
    pub open spec fn end_location(&self, loc: Loc) -> Option<Location> {
        located(self.source(loc.file), loc.span.end as int)
    }

    /// The source at `loc`.
    pub open spec fn source_at(&self, loc: Loc) -> Option<Seq<char>> {
        sliced(self.source(loc.file), loc.span.start as int, loc.span.end as int)
    }

    /// `loc` starts and ends between two characters of its file.
    pub open spec fn item_loc_wf(&self, loc: Loc) -> bool {
        &&& self.file_wf(loc.file)
        &&& self.location(loc) is Some
        &&& self.end_location(loc) is Some
    }

    /// What is under the cursor can be told in every part of `pattern`.
    pub open spec fn pattern_wf(&self, pattern: Pattern) -> bool
        decreases pattern,
    {
        match pattern {
            Pattern::Struct { loc, args, fields, tokens } => {
                &&& loc.file < self.files@.len()
                &&& tokens_wf(loc, tokens@)
                &&& forall|i: int| 0 <= i < args@.len() ==> self.pattern_wf(#[trigger] args@[i])
            },
            Pattern::Tuple { loc, args } => {
                forall|i: int| 0 <= i < args@.len() ==> self.pattern_wf(#[trigger] args@[i])
            },
            Pattern::Var { loc, ty } => true,
            Pattern::Other => true,
        }
    }

    /// What is under the cursor can be told in a call at `loc`.
    pub open spec fn call_wf(&self, loc: Loc, op: Operation) -> bool {
        match op {
            Operation::SpecFunction { name, inst } => self.source_wf(loc),
            Operation::Pack { ty, fields, tokens } => loc.file < self.files@.len() && tokens_wf(
                loc,
                tokens@,
            ),
            _ => true,
        }
    }

    pub open spec fn node_wf(&self, node: ExpData) -> bool {
        match node {
            ExpData::Value(loc) => self.loc_wf(loc),
            ExpData::Call(loc, op) => self.call_wf(loc, op),
            ExpData::Block(pattern) => self.pattern_wf(pattern),
            ExpData::Assign(pattern) => self.pattern_wf(pattern),
            _ => true,
        }
    }

    pub open spec fn exp_wf(&self, exp: Exp) -> bool {
        forall|i: int| 0 <= i < exp.nodes@.len() ==> self.node_wf(#[trigger] exp.nodes@[i])
    }

    pub open spec fn condition_wf(&self, condition: Condition) -> bool {
        forall|i: int| 0 <= i < condition.exps@.len() ==> self.exp_wf(#[trigger] condition.exps@[i])
    }

    pub open spec fn conditions_wf(&self, conditions: Seq<Condition>) -> bool {
        forall|i: int| 0 <= i < conditions.len() ==> self.condition_wf(#[trigger] conditions[i])
    }

    /// The constants of a module can be hovered over.
    pub open spec fn constants_wf(&self, module: ModuleEnv) -> bool {
        forall|i: int|
            0 <= i < module.constants@.len() ==> self.item_loc_wf(
                (#[trigger] module.constants@[i]).loc,
            )
    }

    /// The source of a file.
    pub fn get_file_source(&self, file: usize) -> (r: &str)
        requires
            file < self.files@.len(),
        ensures
            r@ == self.source(file),
    {
        self.files[file].as_str()
    }

    /// The line and column at which `loc` starts.
    pub fn get_location(&self, loc: &Loc) -> (r: Option<Location>)
        requires
            self.file_wf(loc.file),
        ensures
            r == self.location(*loc),
    {
        locate(self.get_file_source(loc.file), loc.span.start)
    }

    /// The source at `loc`.
    pub fn get_source(&self, loc: &Loc) -> (r: Option<String>)
        requires
            self.source_wf(*loc),
        ensures
            match r {
                Some(s) => self.source_at(*loc) == Some(s@),
                None => self.source_at(*loc) is None,
            },
    {
        slice(self.get_file_source(loc.file), &loc.span)
    }

    /// Decides whether each position in a file is a number of 32 bits.
    pub fn admits_file(&self, file: usize) -> (r: bool)
        ensures
            r == self.file_wf(file),
    {
        if file >= self.files.len() {
            return false;
        }
        let bytes: &[u8] = self.files[file].as_str().as_bytes();
        (bytes.len() as u64) < u32::MAX as u64
    }

    /// Decides whether both ends of `loc` can be looked up in its file.
    pub fn admits_loc(&self, loc: &Loc) -> (r: bool)
        ensures
            r == self.loc_wf(*loc),
    {
        self.admits_file(loc.file) && loc.span.start <= loc.span.end && loc.span.end < u32::MAX
    }

    /// Decides whether `loc` starts and ends between two characters of its file.
    pub fn admits_item_loc(&self, loc: &Loc) -> (r: bool)
        ensures
            r == self.item_loc_wf(*loc),
    {
        if !self.admits_file(loc.file) {
            return false;
        }
        let end = Loc { file: loc.file, span: span(loc.span.end, loc.span.end) };
        self.get_location(loc).is_some() && self.get_location(&end).is_some()
    }

    /// Decides whether the span from the start of a line to a column of a file can be formed.
    pub fn admits_cursor(&self, file: usize, line: u32, col: u32) -> (r: bool)
        ensures
            r == self.cursor_wf(file, line, col),
    {
        self.admits_file(file) && cursor_fits(self.get_file_source(file), line, col)
    }

    /// Decides whether the constants of a module can be hovered over.
    pub fn admits_constants(&self, module: &ModuleEnv) -> (r: bool)
        ensures
            r == self.constants_wf(*module),
    {
        for i in 0..module.constants.len()
            invariant
                forall|j: int|
                    0 <= j < i ==> self.item_loc_wf((#[trigger] module.constants@[j]).loc),
        {
            if !self.admits_item_loc(&module.constants[i].loc) {
                assert(!self.item_loc_wf(module.constants@[i as int].loc));
                return false;
            }
        }
        true
    }

    /// Decides whether each identifier that is followed by a colon lies where positions from the
    /// start of `loc` on can reach.
    fn check_tokens(&self, loc: &Loc, tokens: &Vec<Token>) -> (r: bool)
        ensures
            r == tokens_wf(*loc, tokens@),
    {
        for i in 0..tokens.len()
            invariant
                forall|j: int|
                    j < i && #[trigger] names_field(tokens@, j) ==> tokens@[j].start
                        <= tokens@[j].end && loc.span.start + tokens@[j].end <= u32::MAX,
        {
            let room: u32 = u32::MAX - loc.span.start;
            if i + 1 < tokens.len() && tokens[i].kind == Tok::Identifier && tokens[i + 1].kind
                == Tok::Colon && (tokens[i].start > tokens[i].end || tokens[i].end
                > room as usize) {
                assert(names_field(tokens@, i as int));
                return false;
            }
        }
        true
    }

    /// Decides whether each of some patterns is well-formed.
    fn check_patterns(&self, patterns: &Vec<Pattern>) -> (r: bool)
        ensures
            r == (forall|i: int|
                0 <= i < patterns@.len() ==> self.pattern_wf(#[trigger] patterns@[i])),
        decreases patterns@, 1nat,
    {
        for i in 0..patterns.len()
            invariant
                forall|j: int| 0 <= j < i ==> self.pattern_wf(#[trigger] patterns@[j]),
        {
            if !self.check_pattern(&patterns[i]) {
                assert(!self.pattern_wf(patterns@[i as int]));
                return false;
            }
        }
        true
    }

    /// Decides whether a pattern is well-formed.
    fn check_pattern(&self, pattern: &Pattern) -> (r: bool)
        ensures
            r == self.pattern_wf(*pattern),
        decreases *pattern, 0nat,
    {
        match pattern {
            Pattern::Struct { loc, args, fields, tokens } => loc.file < self.files.len()
                && self.check_tokens(loc, tokens) && self.check_patterns(args),
            Pattern::Tuple { loc, args } => self.check_patterns(args),
            Pattern::Var { loc, ty } => true,
            Pattern::Other => true,
        }
    }

    /// Decides whether a node of an expression is well-formed.
    fn check_node(&self, node: &ExpData) -> (r: bool)
        ensures
            r == self.node_wf(*node),
    {
        match node {
            ExpData::Value(loc) => self.admits_loc(loc),
            ExpData::Call(loc, op) => match op {
                Operation::SpecFunction { name, inst } => loc.file < self.files.len()
                    && loc.span.start <= loc.span.end,
                Operation::Pack { ty, fields, tokens } => loc.file < self.files.len()
                    && self.check_tokens(loc, tokens),
                _ => true,
            },
            ExpData::Block(pattern) => self.check_pattern(pattern),
            ExpData::Assign(pattern) => self.check_pattern(pattern),
            _ => true,
        }
    }

    /// Decides whether an expression is well-formed.
    pub fn admits_exp(&self, exp: &Exp) -> (r: bool)
        ensures
            r == self.exp_wf(*exp),
    {
        for i in 0..exp.nodes.len()
            invariant
                forall|j: int| 0 <= j < i ==> self.node_wf(#[trigger] exp.nodes@[j]),
        {
            if !self.check_node(&exp.nodes[i]) {
                assert(!self.node_wf(exp.nodes@[i as int]));
                return false;
            }
        }
        true
    }

    /// Decides whether a condition is well-formed.
    fn check_condition(&self, condition: &Condition) -> (r: bool)
        ensures
            r == self.condition_wf(*condition),
    {
        for i in 0..condition.exps.len()
            invariant
                forall|j: int| 0 <= j < i ==> self.exp_wf(#[trigger] condition.exps@[j]),
        {
            if !self.admits_exp(&condition.exps[i]) {
                assert(!self.exp_wf(condition.exps@[i as int]));
                return false;
            }
        }
        true
    }

    /// Decides whether each of some conditions is well-formed.
    pub fn admits_conditions(&self, conditions: &Vec<Condition>) -> (r: bool)
        ensures
            r == self.conditions_wf(conditions@),
    {
        for i in 0..conditions.len()
            invariant
                forall|j: int| 0 <= j < i ==> self.condition_wf(#[trigger] conditions@[j]),
        {
            if !self.check_condition(&conditions[i]) {
                assert(!self.condition_wf(conditions@[i as int]));
                return false;
            }
        }
        true
    }
}

} // verus!
