//! Hovering over the constants, functions, structs and specifications of a module.

use vstd::prelude::*;
use vstd::slice::slice_subrange;
use crate::handler::Cursor;
use crate::handler::Handler;
use crate::handler::HandlerView;
use crate::handler::Hit;
use crate::model::FIELD_WINDOW;
use crate::model::FieldEnv;
use crate::model::GlobalEnv;
use crate::model::Loc;
use crate::model::ModuleEnv;
use crate::model::NamedConstantEnv;
use crate::model::SpecBlockInfo;
use crate::model::SpecBlockTarget;
use crate::search::first;
use crate::search::first_from;
use crate::search::lemma_reached;
use crate::search::reached;
use crate::source::Span;
use crate::source::advance;
use crate::source::lemma_sliced;
use crate::source::sliced;
use crate::source::span;
use crate::text::byte_len;
use crate::text::byte_pos;
use crate::text::chars_of;
use crate::text::find;
use crate::text::find_char;
use crate::text::find_text;
use crate::text::lemma_byte_pos_bound;
use crate::text::lemma_find;
use crate::text::utf8_len;

verus! {

/// The first line of what stands at `loc`.
pub open spec fn first_line(env: &GlobalEnv, loc: Loc) -> u32 {
    env.location(loc)->0.line
}

/// The last line of what stands at `loc`.
pub open spec fn last_line(env: &GlobalEnv, loc: Loc) -> u32 {
    env.end_location(loc)->0.line
}

/// The byte after the name of a struct field, where the name stands in the source of the struct.
pub open spec fn field_start(env: &GlobalEnv, loc: Loc, name: Seq<char>) -> Option<int> {
    match env.source_at(loc) {
        Some(source) => match find(source, name) {
            Some(k) => Some(loc.span.start + byte_pos(source, k) + byte_len(name)),
            None => None,
        },
        None => None,
    }
}

/// The place of a struct field whose name stands in the source of the struct: what follows the
/// name up to the end of its line, provided that the file goes on long enough after the name.
pub open spec fn field_span(env: &GlobalEnv, loc: Loc, name: Seq<char>) -> Option<Span> {
    match field_start(env, loc, name) {
        Some(start) => match sliced(env.source(loc.file), start, start + FIELD_WINDOW) {
            Some(window) => match find(window, seq!['\n']) {
                Some(n) => Some(
                    Span { start: start as u32, end: (start + byte_pos(window, n)) as u32 },
                ),
                None => None,
            },
            None => None,
        },
        None => None,
    }
}

/// What is looked at after the name of a struct field ends at a position.
pub open spec fn field_wf(env: &GlobalEnv, loc: Loc, name: Seq<char>) -> bool {
    field_start(env, loc, name) matches Some(start) ==> start + FIELD_WINDOW <= u32::MAX
}

/// What is looked at after the name of each of the fields of a struct ends at a position.
pub open spec fn fields_wf(env: &GlobalEnv, loc: Loc, fields: Seq<FieldEnv>) -> bool {
    forall|i: int| 0 <= i < fields.len() ==> field_wf(env, loc, (#[trigger] fields[i]).name@)
}

impl Cursor {
    /// The line of the cursor is one of those of `loc`.
    pub open spec fn on_lines(self, env: &GlobalEnv, loc: Loc) -> bool {
        first_line(env, loc) <= self.line <= last_line(env, loc)
    }

    /// The line of the cursor stands between the first and the last of those of `loc`.
    pub open spec fn between_lines(self, env: &GlobalEnv, loc: Loc) -> bool {
        first_line(env, loc) < self.line < last_line(env, loc)
    }

    /// What is found at the declarations of constants: their types.
    pub open spec fn constant_decl_hits(
        self,
        env: &GlobalEnv,
        constants: Seq<NamedConstantEnv>,
    ) -> Seq<Hit>
        decreases constants.len(),
    {
        if constants.len() == 0 {
            seq![]
        } else {
            let hits = self.constant_decl_hits(env, constants.drop_last());
            let last = constants.last();
            if self.on_lines(env, last.loc) {
                hits.push(Hit { span: last.loc.span, text: last.ty@ })
            } else {
                hits
            }
        }
    }

    /// What is found at the declarations of the fields of a struct: their types.
    pub open spec fn field_decl_hits(self, env: &GlobalEnv, loc: Loc, fields: Seq<FieldEnv>) -> Seq<
        Hit,
    >
        decreases fields.len(),
    {
        if fields.len() == 0 {
            seq![]
        } else {
            let hits = self.field_decl_hits(env, loc, fields.drop_last());
            match field_span(env, loc, fields.last().name@) {
                Some(span) => if self.touches(span) {
                    hits.push(Hit { span, text: fields.last().ty@ })
                } else {
                    hits
                },
                None => hits,
            }
        }
    }

    /// The functions in which the cursor stands.
    pub open spec fn in_function(self, env: &GlobalEnv, module: ModuleEnv) -> spec_fn(int) -> bool {
        |i: int| self.between_lines(env, module.functions@[i].loc)
    }

    /// The structs in which the cursor stands.
    pub open spec fn in_struct(self, env: &GlobalEnv, module: ModuleEnv) -> spec_fn(int) -> bool {
        |i: int| self.between_lines(env, module.structs@[i].loc)
    }

    /// The cursor stands on a line of a specification block, as far as its lines are known.
    pub open spec fn on_block(self, env: &GlobalEnv, block: SpecBlockInfo) -> bool {
        &&& env.location(block.loc) is Some
        &&& env.end_location(block.loc) is Some
        &&& self.on_lines(env, block.loc)
    }

    /// The specifications of functions in which the cursor stands.
    pub open spec fn in_function_spec(self, env: &GlobalEnv, module: ModuleEnv) -> spec_fn(
        int,
    ) -> bool {
        |i: int|
            module.spec_blocks@[i].target is Function && self.on_block(env, module.spec_blocks@[i])
    }

    /// The specifications of structs in which the cursor stands.
    pub open spec fn in_struct_spec(self, env: &GlobalEnv, module: ModuleEnv) -> spec_fn(
        int,
    ) -> bool {
        |i: int|
            module.spec_blocks@[i].target is Struct && self.on_block(env, module.spec_blocks@[i])
    }
}

impl Cursor {
    /// The functions of a module can be hovered over: those up to the one around the cursor have
    /// their places, and the cursor can be placed in the body of that one.
    pub open spec fn functions_wf(self, env: &GlobalEnv, module: ModuleEnv) -> bool {
        let p = self.in_function(env, module);
        let n = module.functions@.len();
        &&& forall|i: int| #[trigger] reached(p, n, i) ==> env.item_loc_wf(module.functions@[i].loc)
        &&& first(p, n) matches Some(i) ==> {
            let fun = module.functions@[i];
            &&& env.cursor_wf(fun.loc.file, self.line, self.col)
            &&& fun.def matches Some(exp) ==> env.exp_wf(exp)
        }
    }

    /// The structs of a module can be hovered over: those up to the one around the cursor have
    /// their places, and the cursor can be placed in that one and its fields be looked for.
    pub open spec fn structs_wf(self, env: &GlobalEnv, module: ModuleEnv) -> bool {
        let p = self.in_struct(env, module);
        let n = module.structs@.len();
        &&& forall|i: int| #[trigger] reached(p, n, i) ==> env.item_loc_wf(module.structs@[i].loc)
        &&& first(p, n) matches Some(i) ==> {
            let stct = module.structs@[i];
            &&& env.cursor_wf(stct.loc.file, self.line, self.col)
            &&& env.source_wf(stct.loc)
            &&& fields_wf(env, stct.loc, stct.fields@)
        }
    }

    /// The specifications of the functions of a module can be hovered over: those up to the one
    /// around the cursor can be looked up, and the cursor can be placed in that one.
    pub open spec fn function_specs_wf(self, env: &GlobalEnv, module: ModuleEnv) -> bool {
        let p = self.in_function_spec(env, module);
        let n = module.spec_blocks@.len();
        &&& forall|i: int| #[trigger]
            reached(p, n, i) && module.spec_blocks@[i].target is Function ==> env.loc_wf(
                module.spec_blocks@[i].loc,
            )
        &&& first(p, n) matches Some(i) ==> {
            let block = module.spec_blocks@[i];
            &&& env.cursor_wf(block.loc.file, self.line, self.col)
            &&& block.target matches SpecBlockTarget::Function(k) ==> {
                &&& k < module.functions@.len()
                &&& env.conditions_wf(module.functions@[k as int].spec_conditions@)
            }
        }
    }

    /// The specifications of the structs of a module can be hovered over: those up to the one
    /// around the cursor can be looked up, and the cursor can be placed in that one.
    pub open spec fn struct_specs_wf(self, env: &GlobalEnv, module: ModuleEnv) -> bool {
        let p = self.in_struct_spec(env, module);
        let n = module.spec_blocks@.len();
        &&& forall|i: int| #[trigger]
            reached(p, n, i) && module.spec_blocks@[i].target is Struct ==> env.loc_wf(
                module.spec_blocks@[i].loc,
            )
        &&& first(p, n) matches Some(i) ==> {
            let block = module.spec_blocks@[i];
            &&& env.cursor_wf(block.loc.file, self.line, self.col)
            &&& block.target matches SpecBlockTarget::Struct(k) ==> {
                &&& k < module.structs@.len()
                &&& env.conditions_wf(module.structs@[k as int].spec_conditions@)
            }
        }
    }
}

impl HandlerView {
    /// With what is found at the declarations of constants of the target module.
    pub open spec fn after_const(self, env: &GlobalEnv) -> HandlerView {
        self.record_all(self.cursor.constant_decl_hits(env, self.target(env).constants@))
    }

    /// With what is found in the body of the function of the target module around the cursor.
    pub open spec fn after_func(self, env: &GlobalEnv) -> HandlerView {
        let module = self.target(env);
        match first(self.cursor.in_function(env, module), module.functions@.len()) {
            Some(i) => {
                let placed = self.placed(env, module.functions@[i].loc.file);
                let found = match module.functions@[i].def {
                    Some(exp) => placed.record_all(placed.cursor.nodes_hits(env, exp.nodes@)),
                    None => placed,
                };
                HandlerView { function: None, ..found }
            },
            None => self,
        }
    }

    /// With what is found at the fields of the struct of the target module around the cursor.
    pub open spec fn after_struct(self, env: &GlobalEnv) -> HandlerView {
        let module = self.target(env);
        match first(self.cursor.in_struct(env, module), module.structs@.len()) {
            Some(i) => {
                let stct = module.structs@[i];
                let placed = self.placed(env, stct.loc.file);
                placed.record_all(placed.cursor.field_decl_hits(env, stct.loc, stct.fields@))
            },
            None => self,
        }
    }

    /// With what is found in the specification of a function of the target module around the
    /// cursor.
    pub open spec fn after_spec_func(self, env: &GlobalEnv) -> HandlerView {
        let module = self.target(env);
        match first(self.cursor.in_function_spec(env, module), module.spec_blocks@.len()) {
            Some(i) => {
                let block = module.spec_blocks@[i];
                let fun = module.functions@[block.target->Function_0 as int];
                let placed = self.placed(env, block.loc.file);
                placed.record_all(placed.cursor.conditions_hits(env, fun.spec_conditions@))
            },
            None => self,
        }
    }

    /// With what is found in the specification of a struct of the target module around the cursor.
    pub open spec fn after_spec_struct(self, env: &GlobalEnv) -> HandlerView {
        let module = self.target(env);
        match first(self.cursor.in_struct_spec(env, module), module.spec_blocks@.len()) {
            Some(i) => {
                let block = module.spec_blocks@[i];
                let stct = module.structs@[block.target->Struct_0 as int];
                let placed = self.placed(env, block.loc.file);
                placed.record_all(placed.cursor.conditions_hits(env, stct.spec_conditions@))
            },
            None => self,
        }
    }
}

/// The first and last line of what stands at `loc`.
fn line_range(env: &GlobalEnv, loc: &Loc) -> (r: Option<(u32, u32)>)
    requires
        env.file_wf(loc.file),
    ensures
        r is Some <==> env.location(*loc) is Some && env.end_location(*loc) is Some,
        r matches Some(lines) ==> lines == (first_line(env, *loc), last_line(env, *loc)),
{
    let start = env.get_location(loc);
    let end_loc = Loc { file: loc.file, span: span(loc.span.end, loc.span.end) };
    let end = env.get_location(&end_loc);
    match (start, end) {
        (Some(start), Some(end)) => Some((start.line, end.line)),
        _ => None,
    }
}

/// The byte after the name of a struct field.
fn find_field_start(env: &GlobalEnv, loc: &Loc, name: &str) -> (r: Option<u32>)
    requires
        env.source_wf(*loc),
    ensures
        match r {
            Some(start) => field_start(env, *loc, name@) == Some(start as int),
            None => field_start(env, *loc, name@) is None,
        },
{
    let source = env.get_source(loc)?;
    let source = chars_of(source.as_str());
    let name = chars_of(name);
    let index: usize = find_text(source.as_slice(), name.as_slice())?;
    proof {
        lemma_find(source@, name@);
    }
    let before = slice_subrange(source.as_slice(), 0, index);
    assert(before@ =~= source@.take(index as int));
    proof {
        lemma_sliced(env.source(loc.file), loc.span.start as int, loc.span.end as int);
        lemma_byte_pos_bound(source@, index as int);
        let rest = source@.skip(index as int);
        assert(rest.take(name@.len() as int) =~= source@.subrange(
            index as int,
            index + name@.len(),
        ));
        lemma_byte_pos_bound(rest, name@.len() as int);
    }
    let offset: i64 = (utf8_len(before) + utf8_len(name.as_slice())) as i64;
    Some(advance(loc.span.start, offset))
}

/// The place of a struct field.
fn find_field_span(env: &GlobalEnv, loc: &Loc, name: &str) -> (r: Option<Span>)
    requires
        env.source_wf(*loc),
        field_wf(env, *loc, name@),
    ensures
        r == field_span(env, *loc, name@),
{
    let field_start: u32 = find_field_start(env, loc, name)?;
    let field_end: u32 = advance(field_start, FIELD_WINDOW as i64);
    let field_loc = Loc { file: loc.file, span: span(field_start, field_end) };
    let window = env.get_source(&field_loc)?;
    let window = chars_of(window.as_str());
    let index: usize = find_char(window.as_slice(), '\n')?;
    let before = slice_subrange(window.as_slice(), 0, index);
    assert(before@ =~= window@.take(index as int));
    proof {
        lemma_sliced(env.source(loc.file), field_start as int, field_end as int);
        lemma_byte_pos_bound(window@, index as int);
    }
    let atomic_field_end: u32 = advance(field_start, utf8_len(before) as i64);
    Some(span(field_start, atomic_field_end))
}

impl Handler {
    /// Adds the types of the constants of the target module that are declared at the cursor.
    pub fn process_const(&mut self, env: &GlobalEnv)
        requires
            old(self).target_module_id < env.modules@.len(),
            env.constants_wf(old(self)@.target(env)),
        ensures
            final(self)@ == old(self)@.after_const(env),
    {
        let ghost cursor = self@.cursor;
        let target_module = &env.modules[self.target_module_id];
        let constants = &target_module.constants;
        assert(constants@.take(0) =~= seq![]);
        for i in 0..constants.len()
            invariant
                env.constants_wf(*target_module),
                *constants == target_module.constants,
                cursor == old(self)@.cursor,
                self@.cursor == cursor,
                self@ == old(self)@.record_all(
                    cursor.constant_decl_hits(env, constants@.take(i as int)),
                ),
        {
            let const_env = &constants[i];
            assert(constants@.take(i + 1).drop_last() =~= constants@.take(i as int));
            if let Some((first, last)) = line_range(env, &const_env.loc) {
                if first <= self.line && self.line <= last {
                    self.process_type(&const_env.loc, const_env.ty.as_str());
                    proof {
                        let before = cursor.constant_decl_hits(env, constants@.take(i as int));
                        let hit = Hit { span: const_env.loc.span, text: const_env.ty@ };
                        assert(before.push(hit).drop_last() =~= before);
                    }
                }
            }
        }
        assert(constants@.take(constants@.len() as int) =~= constants@);
    }

    /// Adds what is found in the body of the function of the target module around the cursor.
    pub fn process_func(&mut self, env: &GlobalEnv)
        requires
            old(self).target_module_id < env.modules@.len(),
            old(self)@.cursor.functions_wf(env, old(self)@.target(env)),
        ensures
            final(self)@ == old(self)@.after_func(env),
    {
        let target_module = &env.modules[self.target_module_id];
        let ghost p = self@.cursor.in_function(env, *target_module);
        for i in 0..target_module.functions.len()
            invariant
                *self == *old(self),
                self@.cursor.functions_wf(env, *target_module),
                self.target_module_id < env.modules@.len(),
                *target_module == self@.target(env),
                p == self@.cursor.in_function(env, *target_module),
                first(p, target_module.functions@.len()) == first_from(
                    p,
                    i as int,
                    target_module.functions@.len() as int,
                ),
        {
            let fun = &target_module.functions[i];
            proof {
                lemma_reached(p, target_module.functions@.len(), i as int);
            }
            if let Some((first, last)) = line_range(env, &fun.loc) {
                if first < self.line && self.line < last {
                    self.target_function_id = Some(i);
                    self.get_mouse_loc(env, &fun.loc);
                    let ghost placed = self@;
                    if let Some(exp) = &fun.def {
                        self.process_expr(env, exp);
                    }
                    self.target_function_id = None;
                    proof {
                        let start = old(self)@.placed(env, fun.loc.file);
                        if let Some(exp) = &fun.def {
                            let hits = placed.cursor.nodes_hits(env, exp.nodes@);
                            lemma_record_all_function(start, placed.function, hits);
                        }
                        assert(self@ =~= old(self)@.after_func(env));
                    }
                    return;
                }
            }
        }
    }

    /// Adds what is found at the fields of the struct of the target module around the cursor.
    pub fn process_struct(&mut self, env: &GlobalEnv)
        requires
            old(self).target_module_id < env.modules@.len(),
            old(self)@.cursor.structs_wf(env, old(self)@.target(env)),
        ensures
            final(self)@ == old(self)@.after_struct(env),
    {
        let target_module = &env.modules[self.target_module_id];
        let ghost p = self@.cursor.in_struct(env, *target_module);
        for i in 0..target_module.structs.len()
            invariant
                *self == *old(self),
                self@.cursor.structs_wf(env, *target_module),
                *target_module == self@.target(env),
                p == self@.cursor.in_struct(env, *target_module),
                first(p, target_module.structs@.len()) == first_from(
                    p,
                    i as int,
                    target_module.structs@.len() as int,
                ),
        {
            let struct_env = &target_module.structs[i];
            proof {
                lemma_reached(p, target_module.structs@.len(), i as int);
            }
            if let Some((first, last)) = line_range(env, &struct_env.loc) {
                if first < self.line && self.line < last {
                    self.get_mouse_loc(env, &struct_env.loc);
                    self.process_field_decls(env, &struct_env.loc, &struct_env.fields);
                    return;
                }
            }
        }
    }

    /// Adds the types of the fields of a struct that are declared at the cursor.
    fn process_field_decls(&mut self, env: &GlobalEnv, loc: &Loc, fields: &Vec<FieldEnv>)
        requires
            env.source_wf(*loc),
            fields_wf(env, *loc, fields@),
        ensures
            final(self)@ == old(self)@.record_all(
                old(self)@.cursor.field_decl_hits(env, *loc, fields@),
            ),
    {
        let ghost cursor = self@.cursor;
        assert(fields@.take(0) =~= seq![]);
        for i in 0..fields.len()
            invariant
                env.source_wf(*loc),
                fields_wf(env, *loc, fields@),
                cursor == old(self)@.cursor,
                self@.cursor == cursor,
                self@ == old(self)@.record_all(
                    cursor.field_decl_hits(env, *loc, fields@.take(i as int)),
                ),
        {
            let field_env = &fields[i];
            assert(fields@.take(i + 1).drop_last() =~= fields@.take(i as int));
            if let Some(span) = find_field_span(env, loc, field_env.name.as_str()) {
                if !(span.end < self.mouse_span.end || span.start > self.mouse_span.end) {
                    let atomic_field_loc = Loc { file: loc.file, span };
                    self.process_type(&atomic_field_loc, field_env.ty.as_str());
                    proof {
                        let before = cursor.field_decl_hits(env, *loc, fields@.take(i as int));
                        let hit = Hit { span, text: field_env.ty@ };
                        assert(before.push(hit).drop_last() =~= before);
                    }
                }
            }
        }
        assert(fields@.take(fields@.len() as int) =~= fields@);
    }

    /// Decides whether the cursor stands on a line of a specification block.
    fn is_on_block(&self, env: &GlobalEnv, block: &SpecBlockInfo) -> (r: bool)
        requires
            env.file_wf(block.loc.file),
        ensures
            r == self@.cursor.on_block(env, *block),
    {
        match line_range(env, &block.loc) {
            Some((first, last)) => first <= self.line && self.line <= last,
            None => false,
        }
    }

    /// Adds what is found in the specification of a function of the target module around the
    /// cursor.
    pub fn process_spec_func(&mut self, env: &GlobalEnv)
        requires
            old(self).target_module_id < env.modules@.len(),
            old(self)@.cursor.function_specs_wf(env, old(self)@.target(env)),
        ensures
            final(self)@ == old(self)@.after_spec_func(env),
    {
        let target_module = &env.modules[self.target_module_id];
        let ghost p = self@.cursor.in_function_spec(env, *target_module);
        for i in 0..target_module.spec_blocks.len()
            invariant
                *self == *old(self),
                self@.cursor.function_specs_wf(env, *target_module),
                self.target_module_id < env.modules@.len(),
                *target_module == self@.target(env),
                p == self@.cursor.in_function_spec(env, *target_module),
                first(p, target_module.spec_blocks@.len()) == first_from(
                    p,
                    i as int,
                    target_module.spec_blocks@.len() as int,
                ),
        {
            let block = &target_module.spec_blocks[i];
            proof {
                lemma_reached(p, target_module.spec_blocks@.len(), i as int);
            }
            if let SpecBlockTarget::Function(fun_id) = block.target {
                if self.is_on_block(env, block) {
                    self.get_mouse_loc(env, &block.loc);
                    self.process_conditions(env, &target_module.functions[fun_id].spec_conditions);
                    return;
                }
            }
        }
    }

    /// Adds what is found in the specification of a struct of the target module around the cursor.
    pub fn process_spec_struct(&mut self, env: &GlobalEnv)
        requires
            old(self).target_module_id < env.modules@.len(),
            old(self)@.cursor.struct_specs_wf(env, old(self)@.target(env)),
        ensures
            final(self)@ == old(self)@.after_spec_struct(env),
    {
        let target_module = &env.modules[self.target_module_id];
        let ghost p = self@.cursor.in_struct_spec(env, *target_module);
        for i in 0..target_module.spec_blocks.len()
            invariant
                *self == *old(self),
                self@.cursor.struct_specs_wf(env, *target_module),
                self.target_module_id < env.modules@.len(),
                *target_module == self@.target(env),
                p == self@.cursor.in_struct_spec(env, *target_module),
                first(p, target_module.spec_blocks@.len()) == first_from(
                    p,
                    i as int,
                    target_module.spec_blocks@.len() as int,
                ),
        {
            let block = &target_module.spec_blocks[i];
            proof {
                lemma_reached(p, target_module.spec_blocks@.len(), i as int);
            }
            if let SpecBlockTarget::Struct(stct_id) = block.target {
                if self.is_on_block(env, block) {
                    self.get_mouse_loc(env, &block.loc);
                    self.process_conditions(env, &target_module.structs[stct_id].spec_conditions);
                    return;
                }
            }
        }
    }
}

impl Handler {
    /// Decides whether the functions of a module can be hovered over.
    pub fn admits_functions(&self, env: &GlobalEnv, module: &ModuleEnv) -> (r: bool)
        ensures
            r == self@.cursor.functions_wf(env, *module),
    {
        let ghost p = self@.cursor.in_function(env, *module);
        for i in 0..module.functions.len()
            invariant
                p == self@.cursor.in_function(env, *module),
                first(p, module.functions@.len()) == first_from(
                    p,
                    i as int,
                    module.functions@.len() as int,
                ),
                forall|j: int|
                    0 <= j < i ==> env.item_loc_wf((#[trigger] module.functions@[j]).loc),
        {
            let fun = &module.functions[i];
            proof {
                lemma_reached(p, module.functions@.len(), i as int);
            }
            if !env.admits_item_loc(&fun.loc) {
                return false;
            }
            if let Some((first, last)) = line_range(env, &fun.loc) {
                if first < self.line && self.line < last {
                    return env.admits_cursor(fun.loc.file, self.line, self.col) && match &fun.def {
                        Some(exp) => env.admits_exp(exp),
                        None => true,
                    };
                }
            }
        }
        true
    }

    /// Decides whether what is looked at after the names of the fields of a struct ends at a
    /// position.
    fn admits_fields(&self, env: &GlobalEnv, loc: &Loc, fields: &Vec<FieldEnv>) -> (r: bool)
        requires
            env.source_wf(*loc),
        ensures
            r == fields_wf(env, *loc, fields@),
    {
        for i in 0..fields.len()
            invariant
                env.source_wf(*loc),
                forall|j: int|
                    0 <= j < i ==> field_wf(env, *loc, (#[trigger] fields@[j]).name@),
        {
            if let Some(start) = find_field_start(env, loc, fields[i].name.as_str()) {
                if start > u32::MAX - FIELD_WINDOW {
                    assert(!field_wf(env, *loc, fields@[i as int].name@));
                    return false;
                }
            }
        }
        true
    }

    /// Decides whether the structs of a module can be hovered over.
    pub fn admits_structs(&self, env: &GlobalEnv, module: &ModuleEnv) -> (r: bool)
        ensures
            r == self@.cursor.structs_wf(env, *module),
    {
        let ghost p = self@.cursor.in_struct(env, *module);
        for i in 0..module.structs.len()
            invariant
                p == self@.cursor.in_struct(env, *module),
                first(p, module.structs@.len()) == first_from(
                    p,
                    i as int,
                    module.structs@.len() as int,
                ),
                forall|j: int| 0 <= j < i ==> env.item_loc_wf((#[trigger] module.structs@[j]).loc),
        {
            let stct = &module.structs[i];
            proof {
                lemma_reached(p, module.structs@.len(), i as int);
            }
            if !env.admits_item_loc(&stct.loc) {
                return false;
            }
            if let Some((first, last)) = line_range(env, &stct.loc) {
                if first < self.line && self.line < last {
                    return env.admits_cursor(stct.loc.file, self.line, self.col)
                        && stct.loc.span.start <= stct.loc.span.end && self.admits_fields(
                        env,
                        &stct.loc,
                        &stct.fields,
                    );
                }
            }
        }
        true
    }

    /// Decides whether the specifications of the functions of a module can be hovered over.
    pub fn admits_function_specs(&self, env: &GlobalEnv, module: &ModuleEnv) -> (r: bool)
        ensures
            r == self@.cursor.function_specs_wf(env, *module),
    {
        let ghost p = self@.cursor.in_function_spec(env, *module);
        for i in 0..module.spec_blocks.len()
            invariant
                p == self@.cursor.in_function_spec(env, *module),
                first(p, module.spec_blocks@.len()) == first_from(
                    p,
                    i as int,
                    module.spec_blocks@.len() as int,
                ),
                forall|j: int|
                    0 <= j < i && (#[trigger] module.spec_blocks@[j]).target is Function
                        ==> env.loc_wf(module.spec_blocks@[j].loc),
        {
            let block = &module.spec_blocks[i];
            proof {
                lemma_reached(p, module.spec_blocks@.len(), i as int);
            }
            if let SpecBlockTarget::Function(k) = block.target {
                if !env.admits_loc(&block.loc) {
                    return false;
                }
                if self.is_on_block(env, block) {
                    return env.admits_cursor(block.loc.file, self.line, self.col) && k
                        < module.functions.len() && env.admits_conditions(
                        &module.functions[k].spec_conditions,
                    );
                }
            }
        }
        true
    }

    /// Decides whether the specifications of the structs of a module can be hovered over.
    pub fn admits_struct_specs(&self, env: &GlobalEnv, module: &ModuleEnv) -> (r: bool)
        ensures
            r == self@.cursor.struct_specs_wf(env, *module),
    {
        let ghost p = self@.cursor.in_struct_spec(env, *module);
        for i in 0..module.spec_blocks.len()
            invariant
                p == self@.cursor.in_struct_spec(env, *module),
                first(p, module.spec_blocks@.len()) == first_from(
                    p,
                    i as int,
                    module.spec_blocks@.len() as int,
                ),
                forall|j: int|
                    0 <= j < i && (#[trigger] module.spec_blocks@[j]).target is Struct
                        ==> env.loc_wf(module.spec_blocks@[j].loc),
        {
            let block = &module.spec_blocks[i];
            proof {
                lemma_reached(p, module.spec_blocks@.len(), i as int);
            }
            if let SpecBlockTarget::Struct(k) = block.target {
                if !env.admits_loc(&block.loc) {
                    return false;
                }
                if self.is_on_block(env, block) {
                    return env.admits_cursor(block.loc.file, self.line, self.col) && k
                        < module.structs.len() && env.admits_conditions(
                        &module.structs[k].spec_conditions,
                    );
                }
            }
        }
        true
    }
}

/// What is found does not depend on the target function.
proof fn lemma_record_all_function(v: HandlerView, function: Option<usize>, hits: Seq<Hit>)
    ensures
        (HandlerView { function, ..v }).record_all(hits) == (HandlerView {
            function,
            ..v.record_all(hits)
        }),
    decreases hits.len(),
{
    if hits.len() > 0 {
        lemma_record_all_function(v, function, hits.drop_last());
    }
}

} // verus!
