//! What is found in a file, and what is shown for it.

use vstd::prelude::*;
use crate::find_laws::law_hover_text;
use crate::find_laws::law_record;
use crate::handler::HandlerView;
use crate::handler::Hit;
use crate::handler::lemma_record_all_frame;
use crate::laws::law_record_all_spans;
use crate::laws::law_steps_only_add;
use crate::laws::law_visit_only_adds;
use crate::laws::lemma_follows;
use crate::model::GlobalEnv;
use crate::model::Loc;
use crate::model::ModuleEnv;
use crate::model::SpecBlockTarget;
use crate::request::HoverReply;
use crate::request::ProjectFile;
use crate::request::answers;
use crate::request::hover_json;
use crate::request::shown;
use crate::request::start;
use crate::source::Span;
use crate::source::line_start;
use crate::step_laws::has_place;
use crate::step_laws::in_function;
use crate::step_laws::in_function_spec;
use crate::step_laws::in_struct;
use crate::step_laws::in_struct_spec;
use crate::step_laws::law_constant_declaration;
use crate::step_laws::law_constants_are_found;
use crate::step_laws::law_constant_type_is_kept;
use crate::step_laws::law_function_around_cursor;
use crate::step_laws::law_function_spec_around_cursor;
use crate::step_laws::law_no_function_around_cursor;
use crate::step_laws::law_no_spec_around_cursor;
use crate::step_laws::law_no_struct_around_cursor;
use crate::step_laws::law_struct_around_cursor;
use crate::step_laws::law_struct_spec_around_cursor;
use crate::step_laws::spans_line;
use crate::step_laws::surrounds_line;
use crate::text::contains;
use crate::text::lines;
use crate::text::occurs_at;
use crate::text::starts_with;
use crate::text::trim;
use crate::text::words;
use crate::use_laws::is_near;
use crate::use_laws::law_no_friend;
use crate::use_laws::law_no_use;
use crate::use_laws::no_use_on_line;
use crate::visit::law_steps_keep_place;
use crate::visit::law_visit_in_two_parts;
use crate::visit::path_text;

verus! {

/// What is left of `v` when another module becomes the target.
proof fn lemma_one_module(v: HandlerView, env: &GlobalEnv, path: Option<Seq<char>>, m: usize)
    ensures
        v.after_modules(env, path, seq![m]) == v.after_module(env, path, m),
        v.targeting(m).cursor.module == m,
        v.targeting(m).cursor.line == v.cursor.line,
        v.targeting(m).cursor.col == v.cursor.col,
        v.targeting(m).cursor.mouse == v.cursor.mouse,
        v.targeting(m).spans == v.spans,
        v.targeting(m).texts == v.texts,
{
    assert(seq![m].drop_last() =~= seq![]);
    assert(v.after_modules(env, path, seq![]) == v);
}

/// What is found in one of the modules of a file is found in the file.
pub proof fn law_each_module_is_visited(
    v: HandlerView,
    env: &GlobalEnv,
    path: Option<Seq<char>>,
    before: Seq<usize>,
    m: usize,
    after: Seq<usize>,
)
    ensures
        v.after_modules(env, path, before + seq![m] + after).extends(
            v.after_modules(env, path, before).after_modules(env, path, seq![m]),
        ),
{
    law_visit_in_two_parts(v, env, path, before + seq![m], after);
    law_visit_in_two_parts(v, env, path, before, seq![m]);
    let u = v.after_modules(env, path, before + seq![m]);
    law_visit_only_adds(u, env, path, after);
}

proof fn lemma_hit_is_recorded(v: HandlerView, hits: Seq<Hit>, hit: Hit)
    requires
        hits.contains(hit),
    ensures
        v.record_all(hits).spans.contains(hit.span),
{
    let i = choose|i: int| 0 <= i < hits.len() && hits[i] == hit;
    assert(hits[i].span == hit.span);
    law_record_all_spans(v, hits, hit.span);
}

proof fn lemma_spans_stay(v: HandlerView, w: HandlerView, span: Span)
    requires
        w.extends(v),
        v.spans.contains(span),
    ensures
        w.spans.contains(span),
{
    let k = choose|k: int| 0 <= k < v.spans.len() && v.spans[k] == span;
    assert(v.spans =~= w.spans.take(v.spans.len() as int));
    assert(w.spans[k] == span);
}

/// In a file with specifications, what is found at the conditions of a function around whose
/// specification the cursor stands is found in the file.
pub proof fn law_spec_file_shows_function_specs(
    v: HandlerView,
    env: &GlobalEnv,
    path: Seq<char>,
    m: usize,
    b: int,
    i: usize,
    hit: Hit,
)
    requires
        contains(path, ".spec"@),
        in_function_spec(v.targeting(m), env, b),
        ({
            let block = env.modules@[m as int].spec_blocks@[b];
            &&& block.target == SpecBlockTarget::Function(i)
            &&& v.targeting(m).placed(env, block.loc.file).cursor.conditions_hits(
                env,
                env.modules@[m as int].functions@[i as int].spec_conditions@,
            ).contains(hit)
        }),
    ensures
        v.after_modules(env, Some(path), seq![m]).spans.contains(hit.span),
{
    lemma_one_module(v, env, Some(path), m);
    let u = v.targeting(m);
    let module = env.modules@[m as int];
    let block = module.spec_blocks@[b];
    law_function_spec_around_cursor(u, env, b);
    let placed = u.placed(env, block.loc.file);
    let hits = placed.cursor.conditions_hits(env, module.functions@[i as int].spec_conditions@);
    lemma_hit_is_recorded(placed, hits, hit);
    let w = u.after_spec_func(env);
    law_steps_only_add(w, env);
    lemma_spans_stay(w, w.after_spec_struct(env), hit.span);
}

/// The file has the line of the cursor.
pub open spec fn line_is_there(v: HandlerView, env: &GlobalEnv, file: usize) -> bool {
    line_start(env.files@[file as int]@, v.cursor.line) is Some
}

/// In a file with specifications, what is found at the conditions of a struct around whose
/// specification the cursor stands is found in the file.
pub proof fn law_spec_file_shows_struct_specs(
    v: HandlerView,
    env: &GlobalEnv,
    path: Seq<char>,
    m: usize,
    b: int,
    i: usize,
    hit: Hit,
)
    requires
        contains(path, ".spec"@),
        in_struct_spec(v.targeting(m), env, b),
        ({
            let blocks = env.modules@[m as int].spec_blocks@;
            &&& blocks[b].target == SpecBlockTarget::Struct(i)
            &&& v.targeting(m).placed(env, blocks[b].loc.file).cursor.conditions_hits(
                env,
                env.modules@[m as int].structs@[i as int].spec_conditions@,
            ).contains(hit)
            &&& line_is_there(v, env, blocks[b].loc.file) || forall|j: int|
                0 <= j < blocks.len() && (#[trigger] blocks[j]).target is Function ==> !spans_line(
                    v.cursor,
                    env,
                    blocks[j].loc,
                )
        }),
    ensures
        v.after_modules(env, Some(path), seq![m]).spans.contains(hit.span),
{
    lemma_one_module(v, env, Some(path), m);
    let u = v.targeting(m);
    let module = env.modules@[m as int];
    let block = module.spec_blocks@[b];
    law_steps_keep_place(u, env);
    let w = u.after_spec_func(env);
    assert(in_struct_spec(w, env, b));
    law_struct_spec_around_cursor(w, env, b);
    let placed = w.placed(env, block.loc.file);
    if !line_is_there(v, env, block.loc.file) {
        assert forall|j: int|
            0 <= j < module.spec_blocks@.len() && (#[trigger] module.spec_blocks@[j]).target
                is Function implies !spans_line(u.cursor, env, module.spec_blocks@[j].loc) by {
            assert(!spans_line(v.cursor, env, module.spec_blocks@[j].loc));
        }
        law_no_spec_around_cursor(u, env);
    }
    assert(placed.cursor == u.placed(env, block.loc.file).cursor);
    let hits = placed.cursor.conditions_hits(env, module.structs@[i as int].spec_conditions@);
    lemma_hit_is_recorded(placed, hits, hit);
}

proof fn lemma_one_find_is_shown(v: HandlerView, hit: Hit)
    requires
        v.spans.len() == 0,
        v.texts.len() == 0,
    ensures
        v.record_all(seq![hit]).hover_text() == hit.text,
{
    law_record(v, hit);
    let r = v.record(hit);
    assert(!v.spans.contains(hit.span));
    assert(r.spans =~= seq![hit.span]);
    assert(r.texts =~= seq![hit.text]);
    assert(crate::find_laws::first_shortest(r.spans, 0));
    law_hover_text(r, 0);
}

/// Where the cursor stands in the specification of a struct, and in that of no function, and a single
/// find is made at the conditions of the struct, this is what the hover shows.
pub proof fn law_hover_in_a_struct_spec(
    file: &ProjectFile,
    line: u32,
    col: u32,
    m: usize,
    b: int,
    i: usize,
    hit: Hit,
)
    requires
        file.path matches Some(path) && contains(path@, ".spec"@),
        file.modules@ == seq![m],
        ({
            let u = start(file.path->0@, line, col).targeting(m);
            let module = file.env.modules@[m as int];
            let blocks = module.spec_blocks@;
            &&& in_struct_spec(u, &file.env, b)
            &&& blocks[b].target == SpecBlockTarget::Struct(i)
            &&& u.placed(&file.env, blocks[b].loc.file).cursor.conditions_hits(
                &file.env,
                module.structs@[i as int].spec_conditions@,
            ) == seq![hit]
            &&& forall|j: int|
                0 <= j < blocks.len() && (#[trigger] blocks[j]).target is Function ==> !spans_line(
                    u.cursor,
                    &file.env,
                    blocks[j].loc,
                )
        }),
    ensures
        shown(file, line, col) == hit.text,
{
    let env = &file.env;
    let v = start(file.path->0@, line, col);
    let u = v.targeting(m);
    lemma_one_module(v, env, file.path_text(), m);
    law_no_spec_around_cursor(u, env);
    law_struct_spec_around_cursor(u, env, b);
    let block = env.modules@[m as int].spec_blocks@[b];
    lemma_one_find_is_shown(u.placed(env, block.loc.file), hit);
}

/// Where the cursor stands in the specification of a function, and in that of no struct, and a single
/// find is made at the conditions of the function, this is what the hover shows.
pub proof fn law_hover_in_a_function_spec(
    file: &ProjectFile,
    line: u32,
    col: u32,
    m: usize,
    b: int,
    i: usize,
    hit: Hit,
)
    requires
        file.path matches Some(path) && contains(path@, ".spec"@),
        file.modules@ == seq![m],
        ({
            let u = start(file.path->0@, line, col).targeting(m);
            let module = file.env.modules@[m as int];
            let blocks = module.spec_blocks@;
            &&& in_function_spec(u, &file.env, b)
            &&& blocks[b].target == SpecBlockTarget::Function(i)
            &&& u.placed(&file.env, blocks[b].loc.file).cursor.conditions_hits(
                &file.env,
                module.functions@[i as int].spec_conditions@,
            ) == seq![hit]
            &&& forall|j: int|
                0 <= j < blocks.len() && (#[trigger] blocks[j]).target is Struct ==> !spans_line(
                    u.cursor,
                    &file.env,
                    blocks[j].loc,
                )
        }),
    ensures
        shown(file, line, col) == hit.text,
{
    let env = &file.env;
    let v = start(file.path->0@, line, col);
    let u = v.targeting(m);
    lemma_one_module(v, env, file.path_text(), m);
    law_function_spec_around_cursor(u, env, b);
    let w = u.after_spec_func(env);
    law_steps_keep_place(u, env);
    let blocks = env.modules@[m as int].spec_blocks@;
    assert forall|j: int|
        0 <= j < blocks.len() && (#[trigger] blocks[j]).target is Struct implies !spans_line(
        w.cursor,
        env,
        blocks[j].loc,
    ) by {
        assert(!spans_line(u.cursor, env, blocks[j].loc));
    }
    law_no_spec_around_cursor(w, env);
    lemma_one_find_is_shown(u.placed(env, blocks[b].loc.file), hit);
}

/// Nothing is used or befriended at the cursor: the `use` declarations of the target module start on
/// other lines, and those with members far away, and the line does not begin with `friend`.
pub open spec fn no_use_or_friend(v: HandlerView, env: &GlobalEnv) -> bool {
    let module = env.modules@[v.cursor.module as int];
    let ls = lines(env.files@[module.loc.file as int]@);
    &&& no_use_on_line(v, env)
    &&& forall|j: int|
        0 <= j < module.use_decls@.len() ==> !is_near(v, env, #[trigger] module.use_decls@[j])
            || module.use_decls@[j].members@.len() == 0
    &&& v.cursor.line < ls.len() ==> {
        let line = trim(ls[v.cursor.line as int]);
        !starts_with(line, "friend"@) || words(line).len() < 2
    }
}

/// No constant of the target module is declared on the line of the cursor.
pub open spec fn no_constant_here(v: HandlerView, env: &GlobalEnv) -> bool {
    let constants = env.modules@[v.cursor.module as int].constants@;
    forall|j: int|
        0 <= j < constants.len() ==> has_place(env, (#[trigger] constants[j]).loc) && !spans_line(
            v.cursor,
            env,
            constants[j].loc,
        )
}

/// No function of the target module is around the cursor.
pub open spec fn no_function_here(v: HandlerView, env: &GlobalEnv) -> bool {
    let functions = env.modules@[v.cursor.module as int].functions@;
    forall|j: int|
        0 <= j < functions.len() ==> has_place(env, (#[trigger] functions[j]).loc)
            && !surrounds_line(v.cursor, env, functions[j].loc)
}

/// No struct of the target module is around the cursor.
pub open spec fn no_struct_here(v: HandlerView, env: &GlobalEnv) -> bool {
    let structs = env.modules@[v.cursor.module as int].structs@;
    forall|j: int|
        0 <= j < structs.len() ==> has_place(env, (#[trigger] structs[j]).loc) && !surrounds_line(
            v.cursor,
            env,
            structs[j].loc,
        )
}

proof fn lemma_no_constant_here(v: HandlerView, env: &GlobalEnv)
    requires
        no_constant_here(v, env),
    ensures
        v.after_const(env) == v,
{
    let constants = v.target(env).constants@;
    let hits = v.cursor.constant_decl_hits(env, constants);
    if hits.len() > 0 {
        assert(hits.contains(hits[0]));
        crate::step_laws::law_only_constant_declarations(v.cursor, env, constants, hits[0]);
    }
}

/// The steps that do not place the cursor leave it as it is.
proof fn lemma_cursor_stays(v: HandlerView, env: &GlobalEnv)
    ensures
        v.after_use_decl(env).cursor == v.cursor,
        v.after_friend_decl(env).cursor == v.cursor,
        v.after_const(env).cursor == v.cursor,
{
    lemma_record_all_frame(v, v.cursor.constant_decl_hits(env, v.target(env).constants@));
}

/// What each of the steps adds to what the others found stays.
proof fn lemma_steps_of_a_file(v: HandlerView, env: &GlobalEnv, path: Seq<char>, m: usize)
    requires
        !contains(path, ".spec"@),
    ensures
        ({
            let u1 = v.targeting(m).after_use_decl(env);
            let u2 = u1.after_friend_decl(env);
            let u3 = u2.after_const(env);
            let u4 = u3.after_func(env);
            let r = v.after_modules(env, Some(path), seq![m]);
            &&& u1.cursor == v.targeting(m).cursor
            &&& u2.cursor == u1.cursor
            &&& u3.cursor == u1.cursor
            &&& u4.cursor.line == v.cursor.line
            &&& u4.cursor.col == v.cursor.col
            &&& u4.cursor.module == m
            &&& r == u4.after_struct(env)
            &&& u1.follows(v.targeting(m))
            &&& r.follows(u4)
            &&& r.follows(u3)
            &&& r.follows(u2)
            &&& r.follows(u1)
        }),
{
    lemma_one_module(v, env, Some(path), m);
    let u = v.targeting(m);
    let u1 = u.after_use_decl(env);
    let u2 = u1.after_friend_decl(env);
    let u3 = u2.after_const(env);
    let u4 = u3.after_func(env);
    let r = u4.after_struct(env);
    lemma_cursor_stays(u, env);
    lemma_cursor_stays(u1, env);
    lemma_cursor_stays(u2, env);
    law_steps_keep_place(u3, env);
    law_steps_only_add(u, env);
    law_steps_only_add(u1, env);
    law_steps_only_add(u2, env);
    law_steps_only_add(u3, env);
    law_steps_only_add(u4, env);
    lemma_follows(u3, u4, r);
    lemma_follows(u2, u3, r);
    lemma_follows(u1, u2, r);
}

/// In a file without specifications, what is found at its `use` declarations is found in the file,
/// before anything else.
pub proof fn law_file_shows_uses(v: HandlerView, env: &GlobalEnv, path: Seq<char>, m: usize)
    requires
        !contains(path, ".spec"@),
    ensures
        v.after_modules(env, Some(path), seq![m]).extends(v.targeting(m).after_use_decl(env)),
{
    lemma_steps_of_a_file(v, env, path, m);
}

/// In a file without specifications, what is found at its `friend` declarations is found in the file.
pub proof fn law_file_shows_friends(
    v: HandlerView,
    env: &GlobalEnv,
    path: Seq<char>,
    m: usize,
    span: Span,
)
    requires
        !contains(path, ".spec"@),
        v.targeting(m).after_friend_decl(env).spans.contains(span),
    ensures
        v.after_modules(env, Some(path), seq![m]).spans.contains(span),
{
    lemma_steps_of_a_file(v, env, path, m);
    let u = v.targeting(m);
    let u1 = u.after_use_decl(env);
    let u2 = u1.after_friend_decl(env);
    let r = v.after_modules(env, Some(path), seq![m]);
    if u.spans.contains(span) {
        lemma_spans_stay(u, u1, span);
        lemma_spans_stay(u1, r, span);
    } else {
        lemma_friend_span(u, u1, env, span);
        lemma_spans_stay(u2, r, span);
    }
}

/// In a file without specifications, the constants that are declared on the line of the cursor are
/// found.
pub proof fn law_file_shows_constants(
    v: HandlerView,
    env: &GlobalEnv,
    path: Seq<char>,
    m: usize,
    k: int,
)
    requires
        !contains(path, ".spec"@),
        0 <= k < env.modules@[m as int].constants@.len(),
        spans_line(v.cursor, env, env.modules@[m as int].constants@[k].loc),
    ensures
        v.after_modules(env, Some(path), seq![m]).spans.contains(
            env.modules@[m as int].constants@[k].loc.span,
        ),
{
    lemma_steps_of_a_file(v, env, path, m);
    let u2 = v.targeting(m).after_use_decl(env).after_friend_decl(env);
    let constants = env.modules@[m as int].constants@;
    let hits = u2.cursor.constant_decl_hits(env, constants);
    let hit = Hit { span: constants[k].loc.span, text: constants[k].ty@ };
    law_constant_declaration(u2.cursor, env, constants, k);
    lemma_hit_is_recorded(u2, hits, hit);
    lemma_spans_stay(
        u2.after_const(env),
        v.after_modules(env, Some(path), seq![m]),
        hit.span,
    );
}

/// In a file without specifications, what is found in the body of the function around the cursor is
/// found in the file.
pub proof fn law_file_shows_functions(
    v: HandlerView,
    env: &GlobalEnv,
    path: Seq<char>,
    m: usize,
    k: int,
    hit: Hit,
)
    requires
        !contains(path, ".spec"@),
        in_function(v.targeting(m), env, k),
        ({
            let fun = env.modules@[m as int].functions@[k];
            &&& fun.def matches Some(exp)
            &&& v.targeting(m).placed(env, fun.loc.file).cursor.nodes_hits(
                env,
                exp.nodes@,
            ).contains(hit)
        }),
    ensures
        v.after_modules(env, Some(path), seq![m]).spans.contains(hit.span),
{
    lemma_steps_of_a_file(v, env, path, m);
    let u = v.targeting(m);
    let u3 = u.after_use_decl(env).after_friend_decl(env).after_const(env);
    let fun = env.modules@[m as int].functions@[k];
    assert(in_function(u3, env, k));
    law_function_around_cursor(u3, env, k);
    let placed = u3.placed(env, fun.loc.file);
    assert(placed.cursor == u.placed(env, fun.loc.file).cursor);
    lemma_hit_is_recorded(placed, placed.cursor.nodes_hits(env, fun.def->0.nodes@), hit);
    lemma_spans_stay(
        u3.after_func(env),
        v.after_modules(env, Some(path), seq![m]),
        hit.span,
    );
}

/// In a file without specifications, what is found at the fields of the struct around the cursor is
/// found in the file.
pub proof fn law_file_shows_structs(
    v: HandlerView,
    env: &GlobalEnv,
    path: Seq<char>,
    m: usize,
    k: int,
    hit: Hit,
)
    requires
        !contains(path, ".spec"@),
        in_struct(v.targeting(m), env, k),
        ({
            let stct = env.modules@[m as int].structs@[k];
            &&& line_is_there(v, env, stct.loc.file) || no_function_here(v.targeting(m), env)
            &&& v.targeting(m).placed(env, stct.loc.file).cursor.field_decl_hits(
                env,
                stct.loc,
                stct.fields@,
            ).contains(hit)
        }),
    ensures
        v.after_modules(env, Some(path), seq![m]).spans.contains(hit.span),
{
    lemma_steps_of_a_file(v, env, path, m);
    let u = v.targeting(m);
    let u3 = u.after_use_decl(env).after_friend_decl(env).after_const(env);
    let u4 = u3.after_func(env);
    let stct = env.modules@[m as int].structs@[k];
    assert(in_struct(u4, env, k));
    law_struct_around_cursor(u4, env, k);
    if no_function_here(u, env) {
        assert(no_function_here(u3, env));
        law_no_function_around_cursor(u3, env);
    }
    let placed = u4.placed(env, stct.loc.file);
    assert(placed.cursor == u.placed(env, stct.loc.file).cursor);
    lemma_hit_is_recorded(
        placed,
        placed.cursor.field_decl_hits(env, stct.loc, stct.fields@),
        hit,
    );
}

proof fn lemma_friend_span(u: HandlerView, w: HandlerView, env: &GlobalEnv, span: Span)
    requires
        w.cursor == u.cursor,
        !u.spans.contains(span),
        u.after_friend_decl(env).spans.contains(span),
    ensures
        w.after_friend_decl(env).spans.contains(span),
{
    let r = u.after_friend_decl(env);
    let k = choose|k: int| 0 <= k < r.spans.len() && r.spans[k] == span;
    if k < u.spans.len() {
        assert(u.spans[k] == span);
    }
    let s = w.after_friend_decl(env);
    if !w.spans.contains(span) {
        assert(s.spans[w.spans.len() as int] == span);
    }
}

/// With nothing used or befriended, no constant, no function and no struct at the cursor, a visit finds
/// nothing, and the hover shows the word `null`.
pub proof fn law_hover_over_nothing(file: &ProjectFile, line: u32, col: u32, m: usize)
    requires
        file.path matches Some(path) && !contains(path@, ".spec"@),
        file.modules@ == seq![m],
        ({
            let u = start(file.path->0@, line, col).targeting(m);
            &&& no_use_or_friend(u, &file.env)
            &&& no_constant_here(u, &file.env)
            &&& no_function_here(u, &file.env)
            &&& no_struct_here(u, &file.env)
        }),
    ensures
        shown(file, line, col) == "null"@,
{
    let env = &file.env;
    let v = start(file.path->0@, line, col);
    let u = v.targeting(m);
    lemma_one_module(v, env, file.path_text(), m);
    law_no_use(u, env);
    law_no_friend(u, env);
    lemma_no_constant_here(u, env);
    law_no_function_around_cursor(u, env);
    law_no_struct_around_cursor(u, env);
    law_hover_text(u, 0);
}

/// With nothing else at the cursor than a single constant, the hover shows the type of the constant.
pub proof fn law_hover_over_a_constant(file: &ProjectFile, line: u32, col: u32, m: usize, k: int)
    requires
        file.path matches Some(path) && !contains(path@, ".spec"@),
        file.modules@ == seq![m],
        ({
            let u = start(file.path->0@, line, col).targeting(m);
            let constants = file.env.modules@[m as int].constants@;
            &&& no_use_or_friend(u, &file.env)
            &&& no_function_here(u, &file.env)
            &&& no_struct_here(u, &file.env)
            &&& 0 <= k < constants.len()
            &&& spans_line(u.cursor, &file.env, constants[k].loc)
            &&& forall|j: int|
                0 <= j < constants.len() ==> has_place(&file.env, (#[trigger] constants[j]).loc)
            &&& forall|j: int|
                0 <= j < constants.len() && j != k ==> !spans_line(
                    u.cursor,
                    &file.env,
                    (#[trigger] constants[j]).loc,
                ) && constants[j].loc.span != constants[k].loc.span
        }),
    ensures
        shown(file, line, col) == file.env.modules@[m as int].constants@[k].ty@,
{
    let env = &file.env;
    let v = start(file.path->0@, line, col);
    let u = v.targeting(m);
    lemma_one_module(v, env, file.path_text(), m);
    law_no_use(u, env);
    law_no_friend(u, env);
    let constants = u.target(env).constants@;
    let w = u.after_const(env);
    lemma_cursor_stays(u, env);
    assert(no_function_here(w, env));
    assert(no_struct_here(w, env));
    law_no_function_around_cursor(w, env);
    law_no_struct_around_cursor(w, env);
    law_constant_type_is_kept(u, env, k);
    crate::laws::law_steps_keep_aligned(u, env);
    law_steps_only_add(u, env);
    assert forall|i: int| 0 <= i < w.spans.len() implies #[trigger] w.spans[i]
        == constants[k].loc.span by {
        assert(w.spans.contains(w.spans[i]));
        law_constants_are_found(u, env, w.spans[i]);
        assert(!u.spans.contains(w.spans[i]));
    }
    let i = choose|i: int|
        {
            &&& 0 <= i < w.spans.len()
            &&& #[trigger] w.spans[i] == constants[k].loc.span
            &&& w.texts[i] == constants[k].ty@
        };
    assert(w.spans.len() == 1) by {
        if w.spans.len() > 1 {
            assert(w.spans[0] == w.spans[1]);
        }
    }
    assert(crate::find_laws::first_shortest(w.spans, 0));
    law_hover_text(w, 0);
}

/// With nothing else at the cursor than a single find in the function around it, the hover shows that
/// find.
pub proof fn law_hover_in_a_function(
    file: &ProjectFile,
    line: u32,
    col: u32,
    m: usize,
    k: int,
    hit: Hit,
)
    requires
        file.path matches Some(path) && !contains(path@, ".spec"@),
        file.modules@ == seq![m],
        ({
            let u = start(file.path->0@, line, col).targeting(m);
            let fun = file.env.modules@[m as int].functions@[k];
            &&& no_use_or_friend(u, &file.env)
            &&& no_constant_here(u, &file.env)
            &&& no_struct_here(u, &file.env)
            &&& in_function(u, &file.env, k)
            &&& fun.def matches Some(exp)
            &&& u.placed(&file.env, fun.loc.file).cursor.nodes_hits(&file.env, exp.nodes@) == seq![
                hit,
            ]
        }),
    ensures
        shown(file, line, col) == hit.text,
{
    let env = &file.env;
    let v = start(file.path->0@, line, col);
    let u = v.targeting(m);
    let fun = env.modules@[m as int].functions@[k];
    lemma_one_module(v, env, file.path_text(), m);
    law_no_use(u, env);
    law_no_friend(u, env);
    lemma_no_constant_here(u, env);
    law_function_around_cursor(u, env, k);
    law_steps_keep_place(u, env);
    let w = u.after_func(env);
    assert(no_struct_here(w, env));
    law_no_struct_around_cursor(w, env);
    let placed = u.placed(env, fun.loc.file);
    lemma_one_find_is_shown(placed, hit);
    let found = placed.record_all(seq![hit]);
    assert(w.hover_text() == found.hover_text());
}

/// With nothing else at the cursor than a single find in the struct around it, the hover shows that
/// find.
pub proof fn law_hover_in_a_struct(
    file: &ProjectFile,
    line: u32,
    col: u32,
    m: usize,
    k: int,
    hit: Hit,
)
    requires
        file.path matches Some(path) && !contains(path@, ".spec"@),
        file.modules@ == seq![m],
        ({
            let u = start(file.path->0@, line, col).targeting(m);
            let stct = file.env.modules@[m as int].structs@[k];
            &&& no_use_or_friend(u, &file.env)
            &&& no_constant_here(u, &file.env)
            &&& no_function_here(u, &file.env)
            &&& in_struct(u, &file.env, k)
            &&& u.placed(&file.env, stct.loc.file).cursor.field_decl_hits(
                &file.env,
                stct.loc,
                stct.fields@,
            ) == seq![hit]
        }),
    ensures
        shown(file, line, col) == hit.text,
{
    let env = &file.env;
    let v = start(file.path->0@, line, col);
    let u = v.targeting(m);
    let stct = env.modules@[m as int].structs@[k];
    lemma_one_module(v, env, file.path_text(), m);
    law_no_use(u, env);
    law_no_friend(u, env);
    lemma_no_constant_here(u, env);
    law_no_function_around_cursor(u, env);
    law_struct_around_cursor(u, env, k);
    lemma_one_find_is_shown(u.placed(env, stct.loc.file), hit);
}

/// Where nothing but a `use` or a `friend` declaration is at the cursor, the first text that is found
/// for them is shown.
pub proof fn law_hover_over_a_declaration(file: &ProjectFile, line: u32, col: u32, m: usize)
    requires
        file.path matches Some(path) && !contains(path@, ".spec"@),
        file.modules@ == seq![m],
        ({
            let u = start(file.path->0@, line, col).targeting(m);
            &&& no_constant_here(u, &file.env)
            &&& no_function_here(u, &file.env)
            &&& no_struct_here(u, &file.env)
        }),
    ensures
        ({
            let u = start(file.path->0@, line, col).targeting(m);
            let w = u.after_use_decl(&file.env).after_friend_decl(&file.env);
            shown(file, line, col) == w.hover_text()
        }),
{
    let env = &file.env;
    let v = start(file.path->0@, line, col);
    let u = v.targeting(m);
    lemma_one_module(v, env, file.path_text(), m);
    let u1 = u.after_use_decl(env);
    let w = u1.after_friend_decl(env);
    lemma_cursor_stays(u, env);
    lemma_cursor_stays(u1, env);
    assert(no_constant_here(w, env));
    assert(no_function_here(w, env));
    assert(no_struct_here(w, env));
    lemma_no_constant_here(w, env);
    law_no_function_around_cursor(w, env);
    law_no_struct_around_cursor(w, env);
}

/// A file is visited under its path, and one whose path is no text under none.
pub proof fn law_path_is_kept(file: &ProjectFile, path: Option<&str>)
    ensures
        path matches Some(s) ==> path_text(path) == Some(s@),
        path is None ==> path_text(path) is None,
        file.path matches Some(s) ==> file.path_text() == Some(s@),
        file.path is None ==> file.path_text() is None,
{
}

/// The answer on a file of a project goes to the client under the identifier of the request and shows
/// what the hover shows; the answer without a project says so under an empty identifier, and is not
/// sent.
pub proof fn law_answer(
    reply: HoverReply,
    id: Seq<char>,
    line: u32,
    col: u32,
    file: Option<&ProjectFile>,
)
    requires
        answers(reply, id, line, col, file),
    ensures
        file matches Some(f) ==> {
            &&& reply.id@ == id
            &&& reply.result@ == hover_json(shown(f, line, col))
            &&& reply.sent
        },
        file is None ==> {
            &&& reply.id@ == seq!['"', '"']
            &&& contains(reply.result@, "No available project"@)
            &&& !reply.sent
        },
{
    reveal_strlit("\"\"");
    reveal_strlit("{\"msg\":\"No available project\"}");
    reveal_strlit("No available project");
    assert("\"\""@ =~= seq!['"', '"']);
    let whole = "{\"msg\":\"No available project\"}"@;
    let part = "No available project"@;
    assert(whole.subrange(8, 8int + part.len()) =~= part);
    assert(occurs_at(whole, part, 8));
}

/// What is not visited is not asked anything of: a file whose path is no text, or that has no modules,
/// can be hovered over at every position.
pub proof fn law_nothing_to_refuse(file: &ProjectFile, line: u32, col: u32)
    requires
        file.path is None || file.modules@.len() == 0,
    ensures
        file.wf(line, col),
{
}

/// All files, and all places in a module, are such that positions in them can be counted and looked
/// up, and what belongs together refers to each other.
pub open spec fn whole(env: &GlobalEnv, module: ModuleEnv, line: u32, col: u32) -> bool {
    &&& forall|f: int|
        0 <= f < env.files@.len() ==> crate::text::byte_len((#[trigger] env.files@[f])@) + 128
            <= u32::MAX && crate::source::column_fits(env.files@[f]@, line, col)
    &&& module.loc.file < env.files@.len()
    &&& forall|j: int|
        0 <= j < module.use_decls@.len() ==> looked_up(env, (#[trigger] module.use_decls@[j]).loc)
    &&& forall|j: int, i: int|
        0 <= j < module.use_decls@.len() && 0 <= i < module.use_decls@[j].members@.len()
            ==> looked_up(env, (#[trigger] module.use_decls@[j].members@[i]).loc)
    &&& forall|j: int|
        0 <= j < module.constants@.len() ==> looked_up(env, (#[trigger] module.constants@[j]).loc)
            && has_place(env, module.constants@[j].loc)
    &&& forall|j: int|
        0 <= j < module.functions@.len() ==> looked_up(env, (#[trigger] module.functions@[j]).loc)
            && has_place(env, module.functions@[j].loc) && (module.functions@[j].def matches Some(
            exp,
        ) ==> env.exp_wf(exp)) && env.conditions_wf(module.functions@[j].spec_conditions@)
    &&& forall|j: int|
        0 <= j < module.structs@.len() ==> looked_up(env, (#[trigger] module.structs@[j]).loc)
            && has_place(env, module.structs@[j].loc) && env.conditions_wf(
            module.structs@[j].spec_conditions@,
        )
    &&& forall|j: int|
        0 <= j < module.spec_blocks@.len() ==> looked_up(
            env,
            (#[trigger] module.spec_blocks@[j]).loc,
        ) && match module.spec_blocks@[j].target {
            SpecBlockTarget::Function(i) => i < module.functions@.len(),
            SpecBlockTarget::Struct(i) => i < module.structs@.len(),
            SpecBlockTarget::Other => true,
        }
}

/// A place lies in a file of the project.
pub open spec fn looked_up(env: &GlobalEnv, loc: Loc) -> bool {
    &&& loc.file < env.files@.len()
    &&& loc.span.start <= loc.span.end
    &&& loc.span.end < u32::MAX
}

proof fn lemma_field_fits(env: &GlobalEnv, loc: Loc, name: Seq<char>)
    requires
        looked_up(env, loc),
        crate::text::byte_len(env.files@[loc.file as int]@) + 128 <= u32::MAX,
    ensures
        crate::declarations::field_wf(env, loc, name),
{
    let text = env.files@[loc.file as int]@;
    crate::source::lemma_sliced(text, loc.span.start as int, loc.span.end as int);
    if let Some(source) = env.source_at(loc) {
        crate::text::lemma_find(source, name);
        if let Some(k) = crate::text::find(source, name) {
            crate::text::lemma_byte_pos_bound(source, k);
            let rest = source.skip(k);
            assert(rest.take(name.len() as int) =~= source.subrange(k, k + name.len()));
            crate::text::lemma_byte_pos_bound(rest, name.len() as int);
        }
    }
}

/// A file whose modules are whole can be hovered over.
pub proof fn law_whole_files_are_admitted(file: &ProjectFile, line: u32, col: u32)
    requires
        forall|i: int|
            0 <= i < file.modules@.len() ==> (#[trigger] file.modules@[i])
                < file.env.modules@.len() && whole(
                &file.env,
                file.env.modules@[file.modules@[i] as int],
                line,
                col,
            ),
    ensures
        file.wf(line, col),
{
    let env = &file.env;
    assert forall|i: int| 0 <= i < file.modules@.len() implies crate::visit::module_wf(
        env,
        file.path_text(),
        #[trigger] file.modules@[i],
        line,
        col,
    ) by {
        let module = env.modules@[file.modules@[i] as int];
        let cursor = crate::handler::cursor_at(line, col);
        assert forall|f: usize| f < env.files@.len() implies #[trigger] env.cursor_wf(f, line, col) by {
            assert(crate::text::byte_len(env.files@[f as int]@) + 128 <= u32::MAX);
        }
        assert forall|loc: Loc| looked_up(env, loc) implies #[trigger] env.loc_wf(loc) by {
            assert(env.cursor_wf(loc.file, line, col));
        }
        assert forall|loc: Loc| #[trigger] looked_up(env, loc) && has_place(env, loc) implies env.item_loc_wf(
            loc,
        ) by {
            assert(env.loc_wf(loc));
        }
        assert(env.cursor_wf(module.loc.file, line, col));
        lemma_whole_uses(cursor, env, module, line, col);
        lemma_whole_items(cursor, env, module, line, col);
        lemma_whole_specs(cursor, env, module, line, col);
    }
}

proof fn lemma_whole_uses(
    cursor: crate::handler::Cursor,
    env: &GlobalEnv,
    module: ModuleEnv,
    line: u32,
    col: u32,
)
    requires
        whole(env, module, line, col),
        forall|loc: Loc| looked_up(env, loc) ==> #[trigger] env.loc_wf(loc),
    ensures
        cursor.uses_wf(env, module),
{
    let p = cursor.use_under_cursor(env, module);
    let n = module.use_decls@.len();
    assert forall|j: int| #[trigger] crate::search::reached(p, n, j) implies cursor.use_decl_wf(
        env,
        module.use_decls@[j],
    ) by {
        let decl = module.use_decls@[j];
        assert(looked_up(env, decl.loc));
        assert(env.loc_wf(decl.loc));
        let q = cursor.member_under_cursor(env, decl);
        assert forall|i: int| #[trigger]
            crate::search::reached(q, decl.members@.len(), i) implies env.loc_wf(
            decl.members@[i].loc,
        ) by {
            assert(looked_up(env, module.use_decls@[j].members@[i].loc));
        }
    }
}

proof fn lemma_whole_items(
    cursor: crate::handler::Cursor,
    env: &GlobalEnv,
    module: ModuleEnv,
    line: u32,
    col: u32,
)
    requires
        whole(env, module, line, col),
        cursor.line == line,
        cursor.col == col,
        forall|loc: Loc| #[trigger]
            looked_up(env, loc) && has_place(env, loc) ==> env.item_loc_wf(loc),
        forall|f: usize| f < env.files@.len() ==> #[trigger] env.cursor_wf(f, line, col),
    ensures
        env.constants_wf(module),
        cursor.functions_wf(env, module),
        cursor.structs_wf(env, module),
{
    let p = cursor.in_function(env, module);
    let n = module.functions@.len();
    crate::search::lemma_first(p, n);
    assert forall|j: int| #[trigger] crate::search::reached(p, n, j) implies env.item_loc_wf(
        module.functions@[j].loc,
    ) by {
        assert(looked_up(env, module.functions@[j].loc));
    }
    if let Some(k) = crate::search::first(p, n) {
        assert(looked_up(env, module.functions@[k].loc));
    }
    let q = cursor.in_struct(env, module);
    let l = module.structs@.len();
    crate::search::lemma_first(q, l);
    assert forall|j: int| #[trigger] crate::search::reached(q, l, j) implies env.item_loc_wf(
        module.structs@[j].loc,
    ) by {
        assert(looked_up(env, module.structs@[j].loc));
    }
    if let Some(k) = crate::search::first(q, l) {
        let stct = module.structs@[k];
        assert(looked_up(env, stct.loc));
        assert forall|f: int| 0 <= f < stct.fields@.len() implies crate::declarations::field_wf(
            env,
            stct.loc,
            (#[trigger] stct.fields@[f]).name@,
        ) by {
            assert(crate::text::byte_len(env.files@[stct.loc.file as int]@) + 128 <= u32::MAX);
            lemma_field_fits(env, stct.loc, stct.fields@[f].name@);
        }
    }
}

proof fn lemma_whole_specs(
    cursor: crate::handler::Cursor,
    env: &GlobalEnv,
    module: ModuleEnv,
    line: u32,
    col: u32,
)
    requires
        whole(env, module, line, col),
        cursor.line == line,
        cursor.col == col,
        forall|loc: Loc| looked_up(env, loc) ==> #[trigger] env.loc_wf(loc),
        forall|f: usize| f < env.files@.len() ==> #[trigger] env.cursor_wf(f, line, col),
    ensures
        cursor.specs_wf(env, module),
{
    let n = module.spec_blocks@.len();
    let p = cursor.in_function_spec(env, module);
    let q = cursor.in_struct_spec(env, module);
    crate::search::lemma_first(p, n);
    crate::search::lemma_first(q, n);
    assert forall|j: int| #[trigger]
        crate::search::reached(p, n, j) && module.spec_blocks@[j].target is Function implies env.loc_wf(
        module.spec_blocks@[j].loc,
    ) by {
        assert(looked_up(env, module.spec_blocks@[j].loc));
    }
    assert forall|j: int| #[trigger]
        crate::search::reached(q, n, j) && module.spec_blocks@[j].target is Struct implies env.loc_wf(
        module.spec_blocks@[j].loc,
    ) by {
        assert(looked_up(env, module.spec_blocks@[j].loc));
    }
    if let Some(k) = crate::search::first(p, n) {
        assert(looked_up(env, module.spec_blocks@[k].loc));
        if let SpecBlockTarget::Function(i) = module.spec_blocks@[k].target {
            assert(looked_up(env, module.functions@[i as int].loc));
        }
    }
    if let Some(k) = crate::search::first(q, n) {
        assert(looked_up(env, module.spec_blocks@[k].loc));
        if let SpecBlockTarget::Struct(i) = module.spec_blocks@[k].target {
            assert(looked_up(env, module.structs@[i as int].loc));
        }
    }
}

} // verus!
