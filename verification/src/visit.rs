//! Visiting the modules of a file.

use vstd::prelude::*;
use crate::handler::Cursor;
use crate::handler::Handler;
use crate::handler::HandlerView;
use crate::handler::cursor_at;
use crate::handler::lemma_record_all_frame;
use crate::model::GlobalEnv;
use crate::model::ModuleEnv;
use crate::model::UseDecl;
use crate::text::contains;
use crate::text::str_contains;

verus! {

/// A name of a file, if it is one that can be written down.
pub open spec fn path_text(path: Option<&str>) -> Option<Seq<char>> {
    match path {
        Some(s) => Some(s@),
        None => None,
    }
}

impl HandlerView {
    /// With another target module.
    pub open spec fn targeting(self, module: usize) -> HandlerView {
        HandlerView { cursor: Cursor { module, ..self.cursor }, ..self }
    }

    /// With what is found in the specifications of the target module.
    pub open spec fn after_specs(self, env: &GlobalEnv) -> HandlerView {
        self.after_spec_func(env).after_spec_struct(env)
    }

    /// With what is found in the target module, its specifications apart.
    pub open spec fn after_items(self, env: &GlobalEnv) -> HandlerView {
        self.after_use_decl(env).after_friend_decl(env).after_const(env).after_func(
            env,
        ).after_struct(env)
    }

    /// With what is found in the given module of a file: the name of the file tells whether it
    /// holds specifications.
    pub open spec fn after_module(
        self,
        env: &GlobalEnv,
        path: Option<Seq<char>>,
        module: usize,
    ) -> HandlerView {
        match path {
            Some(path) => if contains(path, ".spec"@) {
                self.targeting(module).after_specs(env)
            } else {
                self.targeting(module).after_items(env)
            },
            None => self.targeting(module),
        }
    }

    /// With what is found in the given modules of a file, one after the other.
    pub open spec fn after_modules(
        self,
        env: &GlobalEnv,
        path: Option<Seq<char>>,
        modules: Seq<usize>,
    ) -> HandlerView
        decreases modules.len(),
    {
        if modules.len() == 0 {
            self
        } else {
            self.after_modules(env, path, modules.drop_last()).after_module(
                env,
                path,
                modules.last(),
            )
        }
    }

    /// The cursor of `self` stands in the same line, column and module as that of `v`.
    pub open spec fn same_place(self, v: HandlerView) -> bool {
        &&& self.cursor.line == v.cursor.line
        &&& self.cursor.col == v.cursor.col
        &&& self.cursor.module == v.cursor.module
    }
}

impl Cursor {
    /// A module can be hovered over, its specifications apart.
    pub open spec fn items_wf(self, env: &GlobalEnv, module: ModuleEnv) -> bool {
        &&& self.uses_wf(env, module)
        &&& env.cursor_wf(module.loc.file, self.line, self.col)
        &&& env.constants_wf(module)
        &&& self.functions_wf(env, module)
        &&& self.structs_wf(env, module)
    }

    /// The specifications of a module can be hovered over.
    pub open spec fn specs_wf(self, env: &GlobalEnv, module: ModuleEnv) -> bool {
        &&& self.function_specs_wf(env, module)
        &&& self.struct_specs_wf(env, module)
    }
}

/// The given module of a file with the given name can be visited with the cursor at the given line
/// and column. Nothing is asked of a file whose name cannot be written down: it is not looked at.
pub open spec fn module_wf(
    env: &GlobalEnv,
    path: Option<Seq<char>>,
    module: usize,
    line: u32,
    col: u32,
) -> bool {
    path matches Some(path) ==> {
        &&& module < env.modules@.len()
        &&& if contains(path, ".spec"@) {
            cursor_at(line, col).specs_wf(env, env.modules@[module as int])
        } else {
            cursor_at(line, col).items_wf(env, env.modules@[module as int])
        }
    }
}

/// The given modules of a file with the given name can be visited with the cursor at the given line
/// and column.
pub open spec fn modules_wf(
    env: &GlobalEnv,
    path: Option<Seq<char>>,
    modules: Seq<usize>,
    line: u32,
    col: u32,
) -> bool {
    forall|i: int| 0 <= i < modules.len() ==> module_wf(env, path, #[trigger] modules[i], line, col)
}

/// Whether a module can be hovered over depends on the line and column of the cursor alone.
pub proof fn law_wf_goes_by_position(a: Cursor, b: Cursor, env: &GlobalEnv, module: ModuleEnv)
    requires
        a.line == b.line,
        a.col == b.col,
    ensures
        a.items_wf(env, module) == b.items_wf(env, module),
        a.specs_wf(env, module) == b.specs_wf(env, module),
        a.uses_wf(env, module) == b.uses_wf(env, module),
        a.functions_wf(env, module) == b.functions_wf(env, module),
        a.structs_wf(env, module) == b.structs_wf(env, module),
        a.function_specs_wf(env, module) == b.function_specs_wf(env, module),
        a.struct_specs_wf(env, module) == b.struct_specs_wf(env, module),
{
    assert(a.in_function(env, module) =~= b.in_function(env, module));
    assert(a.in_struct(env, module) =~= b.in_struct(env, module));
    assert(a.in_function_spec(env, module) =~= b.in_function_spec(env, module));
    assert(a.in_struct_spec(env, module) =~= b.in_struct_spec(env, module));
    assert forall|decl: UseDecl| #[trigger]
        a.member_under_cursor(env, decl) == b.member_under_cursor(env, decl) by {
        assert(a.member_under_cursor(env, decl) =~= b.member_under_cursor(env, decl));
    }
    assert(a.use_under_cursor(env, module) =~= b.use_under_cursor(env, module));
    assert forall|decl: UseDecl| #[trigger] a.use_decl_wf(env, decl) == b.use_decl_wf(env, decl) by {
        assert(a.member_under_cursor(env, decl) == b.member_under_cursor(env, decl));
    }
}

/// Decides whether the given modules of a file with the given name can be visited with the cursor at
/// the given line and column.
pub fn can_visit(
    env: &GlobalEnv,
    move_file_path: Option<&str>,
    modules: &[usize],
    line: u32,
    col: u32,
) -> (r: bool)
    ensures
        r == modules_wf(env, path_text(move_file_path), modules@, line, col),
{
    let handler = Handler::new(String::new(), line, col);
    for i in 0..modules.len()
        invariant
            handler@.cursor == cursor_at(line, col),
            forall|j: int|
                0 <= j < i ==> module_wf(
                    env,
                    path_text(move_file_path),
                    #[trigger] modules@[j],
                    line,
                    col,
                ),
    {
        let module: usize = modules[i];
        let fits = match move_file_path {
            Some(s) => module < env.modules.len() && if str_contains(s, ".spec") {
                handler.admits_specs(env, &env.modules[module])
            } else {
                handler.admits_items(env, &env.modules[module])
            },
            None => true,
        };
        if !fits {
            assert(!module_wf(env, path_text(move_file_path), modules@[i as int], line, col));
            return false;
        }
    }
    true
}

/// No step moves the cursor to another line or column, or leaves the target module.
pub proof fn law_steps_keep_place(v: HandlerView, env: &GlobalEnv)
    ensures
        v.after_use_decl(env).same_place(v),
        v.after_friend_decl(env).same_place(v),
        v.after_const(env).same_place(v),
        v.after_func(env).same_place(v),
        v.after_struct(env).same_place(v),
        v.after_spec_func(env).same_place(v),
        v.after_spec_struct(env).same_place(v),
{
    assert forall|w: HandlerView, hits: Seq<crate::handler::Hit>|
        (#[trigger] w.record_all(hits)).cursor == w.cursor by {
        lemma_record_all_frame(w, hits);
    }
}

/// A visit ends on the line and column on which it began.
pub proof fn law_visit_keeps_position(
    v: HandlerView,
    env: &GlobalEnv,
    path: Option<Seq<char>>,
    modules: Seq<usize>,
)
    ensures
        v.after_modules(env, path, modules).cursor.line == v.cursor.line,
        v.after_modules(env, path, modules).cursor.col == v.cursor.col,
    decreases modules.len(),
{
    if modules.len() > 0 {
        law_visit_keeps_position(v, env, path, modules.drop_last());
        let w = v.after_modules(env, path, modules.drop_last()).targeting(modules.last());
        law_steps_keep_place(w, env);
        law_steps_keep_place(w.after_spec_func(env), env);
        let w1 = w.after_use_decl(env);
        let w2 = w1.after_friend_decl(env);
        let w3 = w2.after_const(env);
        let w4 = w3.after_func(env);
        law_steps_keep_place(w1, env);
        law_steps_keep_place(w2, env);
        law_steps_keep_place(w3, env);
        law_steps_keep_place(w4, env);
    }
}

/// A visit of some modules and then of others is one of all of them.
pub proof fn law_visit_in_two_parts(
    v: HandlerView,
    env: &GlobalEnv,
    path: Option<Seq<char>>,
    a: Seq<usize>,
    b: Seq<usize>,
)
    ensures
        v.after_modules(env, path, a + b) == v.after_modules(env, path, a).after_modules(
            env,
            path,
            b,
        ),
    decreases b.len(),
{
    if b.len() == 0 {
        assert(a + b =~= a);
    } else {
        law_visit_in_two_parts(v, env, path, a, b.drop_last());
        assert((a + b).drop_last() =~= a + b.drop_last());
        assert((a + b).last() == b.last());
    }
}

impl Handler {
    /// Decides whether a module can be hovered over, its specifications apart.
    pub fn admits_items(&self, env: &GlobalEnv, module: &ModuleEnv) -> (r: bool)
        ensures
            r == self@.cursor.items_wf(env, *module),
    {
        self.admits_uses(env, module) && env.admits_cursor(module.loc.file, self.line, self.col)
            && env.admits_constants(module) && self.admits_functions(env, module)
            && self.admits_structs(env, module)
    }

    /// Decides whether the specifications of a module can be hovered over.
    pub fn admits_specs(&self, env: &GlobalEnv, module: &ModuleEnv) -> (r: bool)
        ensures
            r == self@.cursor.specs_wf(env, *module),
    {
        self.admits_function_specs(env, module) && self.admits_struct_specs(env, module)
    }

    /// Adds what is found in the target module of a file with the given name.
    fn visit_target_module(&mut self, env: &GlobalEnv, move_file_path: Option<&str>)
        requires
            module_wf(
                env,
                path_text(move_file_path),
                old(self).target_module_id,
                old(self).line,
                old(self).col,
            ),
        ensures
            final(self)@ == old(self)@.after_module(
                env,
                path_text(move_file_path),
                old(self).target_module_id,
            ),
    {
        let ghost start = self@;
        let ghost module = start.target(env);
        assert(start == start.targeting(self.target_module_id));
        proof {
            law_wf_goes_by_position(cursor_at(self.line, self.col), start.cursor, env, module);
            law_steps_keep_place(start, env);
        }
        if let Some(s) = move_file_path {
            if str_contains(s, ".spec") {
                self.process_spec_func(env);
                proof {
                    law_wf_goes_by_position(start.cursor, self@.cursor, env, module);
                }
                self.process_spec_struct(env);
            } else {
                self.process_use_decl(env);
                proof {
                    law_steps_keep_place(self@, env);
                }
                self.process_friend_decl(env);
                proof {
                    law_steps_keep_place(self@, env);
                }
                self.process_const(env);
                proof {
                    law_steps_keep_place(self@, env);
                    law_wf_goes_by_position(start.cursor, self@.cursor, env, module);
                }
                self.process_func(env);
                proof {
                    law_wf_goes_by_position(start.cursor, self@.cursor, env, module);
                }
                self.process_struct(env);
            }
        }
    }

    /// Adds what is found in the given modules, which are those of the file with the given name.
    pub fn run_move_model_visitor_internal(
        &mut self,
        env: &GlobalEnv,
        move_file_path: Option<&str>,
        candidate_modules: &[usize],
    )
        requires
            modules_wf(
                env,
                path_text(move_file_path),
                candidate_modules@,
                old(self).line,
                old(self).col,
            ),
        ensures
            final(self)@ == old(self)@.after_modules(
                env,
                path_text(move_file_path),
                candidate_modules@,
            ),
    {
        let ghost path = path_text(move_file_path);
        assert(candidate_modules@.take(0) =~= seq![]);
        for i in 0..candidate_modules.len()
            invariant
                modules_wf(env, path, candidate_modules@, old(self).line, old(self).col),
                path == path_text(move_file_path),
                self.line == old(self).line,
                self.col == old(self).col,
                self@ == old(self)@.after_modules(env, path, candidate_modules@.take(i as int)),
        {
            let ghost before = self@;
            self.target_module_id = candidate_modules[i];
            assert(self@ =~= before.targeting(candidate_modules@[i as int]));
            self.visit_target_module(env, move_file_path);
            proof {
                let so_far = candidate_modules@.take(i + 1);
                assert(so_far.drop_last() =~= candidate_modules@.take(i as int));
                assert(before.targeting(so_far.last()).targeting(so_far.last()) =~= before.targeting(
                    so_far.last(),
                ));
                law_visit_keeps_position(old(self)@, env, path, so_far);
            }
        }
        assert(candidate_modules@.take(candidate_modules@.len() as int) =~= candidate_modules@);
    }

    /// Adds what is found in the modules of a file of the project.
    pub fn handle_project_env(
        &mut self,
        env: &GlobalEnv,
        move_file_path: Option<&str>,
        candidate_modules: &[usize],
    )
        requires
            modules_wf(
                env,
                path_text(move_file_path),
                candidate_modules@,
                old(self).line,
                old(self).col,
            ),
        ensures
            final(self)@ == old(self)@.after_modules(
                env,
                path_text(move_file_path),
                candidate_modules@,
            ),
    {
        self.run_move_model_visitor_internal(env, move_file_path, candidate_modules);
    }
}

} // verus!
