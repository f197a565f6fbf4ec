//! What is found at the declarations of a module.

use vstd::prelude::*;
use crate::declarations::field_start;
use crate::expr_laws::ends_at;
use crate::expr_laws::lemma_first_char;
use crate::expr_laws::starts_at;
use crate::expr_laws::written;
use crate::find_laws::law_first_find_is_kept;
use crate::handler::Cursor;
use crate::handler::HandlerView;
use crate::handler::Hit;
use crate::handler::lemma_record_all_frame;
use crate::laws::law_record_all_spans;
use crate::model::FieldEnv;
use crate::model::GlobalEnv;
use crate::model::Loc;
use crate::model::NamedConstantEnv;
use crate::model::SpecBlockTarget;
use crate::search::first;
use crate::search::lemma_first;
use crate::source::Span;
use crate::source::sliced;
use crate::text::byte_len;
use crate::text::contains;
use crate::text::find;
use crate::text::lemma_find;
use crate::text_laws::law_find_first;

verus! {

/// A place starts and ends between two characters of its file.
pub open spec fn has_place(env: &GlobalEnv, loc: Loc) -> bool {
    starts_at(env, loc) is Some && ends_at(env, loc) is Some
}

/// The line of the cursor is one of those from the first to the last of a place.
pub open spec fn spans_line(cursor: Cursor, env: &GlobalEnv, loc: Loc) -> bool {
    &&& starts_at(env, loc) matches Some(a)
    &&& ends_at(env, loc) matches Some(b)
    &&& a.line <= cursor.line
    &&& cursor.line <= b.line
}

/// The line of the cursor stands between the first and the last of a place.
pub open spec fn surrounds_line(cursor: Cursor, env: &GlobalEnv, loc: Loc) -> bool {
    &&& starts_at(env, loc) matches Some(a)
    &&& ends_at(env, loc) matches Some(b)
    &&& a.line < cursor.line
    &&& cursor.line < b.line
}

/// A find whose span is new, and has the same text in all finds, is kept with that text.
pub proof fn law_unambiguous_find_is_kept(v: HandlerView, hits: Seq<Hit>, hit: Hit)
    requires
        v.spans.len() == v.texts.len(),
        !v.spans.contains(hit.span),
        hits.contains(hit),
        forall|j: int|
            0 <= j < hits.len() && (#[trigger] hits[j]).span == hit.span ==> hits[j].text
                == hit.text,
    ensures
        exists|k: int|
            {
                &&& 0 <= k < v.record_all(hits).spans.len()
                &&& #[trigger] v.record_all(hits).spans[k] == hit.span
                &&& v.record_all(hits).texts[k] == hit.text
            },
{
    let i = choose|i: int| 0 <= i < hits.len() && hits[i] == hit;
    let first = lemma_first_of_span(hits, hit.span, i);
    law_first_find_is_kept(v, hits, first);
}

proof fn lemma_first_of_span(hits: Seq<Hit>, span: Span, i: int) -> (first: int)
    requires
        0 <= i < hits.len(),
        hits[i].span == span,
    ensures
        0 <= first <= i,
        hits[first].span == span,
        forall|j: int| 0 <= j < first ==> (#[trigger] hits[j]).span != span,
    decreases i,
{
    if exists|j: int| 0 <= j < i && (#[trigger] hits[j]).span == span {
        let j = choose|j: int| 0 <= j < i && (#[trigger] hits[j]).span == span;
        lemma_first_of_span(hits, span, j)
    } else {
        i
    }
}

/// At the declaration of a constant its type is found, on each of its lines.
pub proof fn law_constant_declaration(
    cursor: Cursor,
    env: &GlobalEnv,
    constants: Seq<NamedConstantEnv>,
    k: int,
)
    requires
        0 <= k < constants.len(),
        spans_line(cursor, env, constants[k].loc),
    ensures
        cursor.constant_decl_hits(env, constants).contains(
            Hit { span: constants[k].loc.span, text: constants[k].ty@ },
        ),
    decreases constants.len(),
{
    let less = constants.drop_last();
    let before = cursor.constant_decl_hits(env, less);
    let all = cursor.constant_decl_hits(env, constants);
    let hit = Hit { span: constants[k].loc.span, text: constants[k].ty@ };
    if k < less.len() {
        assert(less[k] == constants[k]);
        law_constant_declaration(cursor, env, less, k);
        let i = choose|i: int| 0 <= i < before.len() && before[i] == hit;
        assert(all[i] == hit);
    } else {
        assert(all[before.len() as int] == hit);
    }
}

/// Only the types of constants are found that are declared on the line of the cursor.
pub proof fn law_only_constant_declarations(
    cursor: Cursor,
    env: &GlobalEnv,
    constants: Seq<NamedConstantEnv>,
    hit: Hit,
)
    requires
        forall|j: int| 0 <= j < constants.len() ==> has_place(env, (#[trigger] constants[j]).loc),
        cursor.constant_decl_hits(env, constants).contains(hit),
    ensures
        exists|k: int|
            {
                &&& 0 <= k < constants.len()
                &&& spans_line(cursor, env, (#[trigger] constants[k]).loc)
                &&& hit == Hit { span: constants[k].loc.span, text: constants[k].ty@ }
            },
    decreases constants.len(),
{
    if constants.len() > 0 {
        let less = constants.drop_last();
        let before = cursor.constant_decl_hits(env, less);
        let all = cursor.constant_decl_hits(env, constants);
        let i = choose|i: int| 0 <= i < all.len() && all[i] == hit;
        assert(constants[constants.len() - 1] == constants.last());
        if i < before.len() {
            assert(before[i] == hit);
            assert forall|j: int| 0 <= j < less.len() implies has_place(
                env,
                (#[trigger] less[j]).loc,
            ) by {
                assert(less[j] == constants[j]);
            }
            law_only_constant_declarations(cursor, env, less, hit);
            let k = choose|k: int|
                {
                    &&& 0 <= k < less.len()
                    &&& spans_line(cursor, env, (#[trigger] less[k]).loc)
                    &&& hit == Hit { span: less[k].loc.span, text: less[k].ty@ }
                };
            assert(spans_line(cursor, env, constants[k].loc));
        } else {
            assert(spans_line(cursor, env, constants[constants.len() - 1].loc));
        }
    }
}

/// Hovering over the constants of a module adds the spans of those of the target module on whose lines
/// the cursor stands, and no others.
pub proof fn law_constants_are_found(v: HandlerView, env: &GlobalEnv, span: Span)
    requires
        ({
            let constants = env.modules@[v.cursor.module as int].constants@;
            forall|j: int| 0 <= j < constants.len() ==> has_place(env, (#[trigger] constants[j]).loc)
        }),
    ensures
        ({
            let constants = env.modules@[v.cursor.module as int].constants@;
            v.after_const(env).spans.contains(span) <==> v.spans.contains(span) || exists|k: int|
                {
                    &&& 0 <= k < constants.len()
                    &&& spans_line(v.cursor, env, (#[trigger] constants[k]).loc)
                    &&& constants[k].loc.span == span
                }
        }),
        v.after_const(env).cursor == v.cursor,
{
    let constants = v.target(env).constants@;
    let hits = v.cursor.constant_decl_hits(env, constants);
    law_record_all_spans(v, hits, span);
    lemma_record_all_frame(v, hits);
    if exists|i: int| 0 <= i < hits.len() && (#[trigger] hits[i]).span == span {
        let i = choose|i: int| 0 <= i < hits.len() && (#[trigger] hits[i]).span == span;
        assert(hits.contains(hits[i]));
        law_only_constant_declarations(v.cursor, env, constants, hits[i]);
    }
    if exists|k: int|
        {
            &&& 0 <= k < constants.len()
            &&& spans_line(v.cursor, env, (#[trigger] constants[k]).loc)
            &&& constants[k].loc.span == span
        } {
        let k = choose|k: int|
            {
                &&& 0 <= k < constants.len()
                &&& spans_line(v.cursor, env, (#[trigger] constants[k]).loc)
                &&& constants[k].loc.span == span
            };
        law_constant_declaration(v.cursor, env, constants, k);
        let hit = Hit { span, text: constants[k].ty@ };
        let i = choose|i: int| 0 <= i < hits.len() && hits[i] == hit;
        assert(hits[i].span == span);
    }
}

/// The type of a constant is kept with its span, if no other constant on the line has the same span.
pub proof fn law_constant_type_is_kept(v: HandlerView, env: &GlobalEnv, k: int)
    requires
        v.spans.len() == v.texts.len(),
        ({
            let constants = env.modules@[v.cursor.module as int].constants@;
            &&& 0 <= k < constants.len()
            &&& spans_line(v.cursor, env, constants[k].loc)
            &&& !v.spans.contains(constants[k].loc.span)
            &&& forall|j: int|
                0 <= j < constants.len() ==> has_place(env, (#[trigger] constants[j]).loc)
            &&& forall|j: int|
                0 <= j < constants.len() && j != k ==> (#[trigger] constants[j]).loc.span
                    != constants[k].loc.span
        }),
    ensures
        ({
            let constant = env.modules@[v.cursor.module as int].constants@[k];
            let r = v.after_const(env);
            exists|i: int|
                {
                    &&& 0 <= i < r.spans.len()
                    &&& #[trigger] r.spans[i] == constant.loc.span
                    &&& r.texts[i] == constant.ty@
                }
        }),
{
    let constants = v.target(env).constants@;
    let hits = v.cursor.constant_decl_hits(env, constants);
    let hit = Hit { span: constants[k].loc.span, text: constants[k].ty@ };
    law_constant_declaration(v.cursor, env, constants, k);
    assert forall|j: int| 0 <= j < hits.len() && (#[trigger] hits[j]).span == hit.span implies hits[j].text
        == hit.text by {
        assert(hits.contains(hits[j]));
        law_only_constant_declarations(v.cursor, env, constants, hits[j]);
    }
    law_unambiguous_find_is_kept(v, hits, hit);
}

/// Function `k` of the target module is the first around the cursor.
pub open spec fn in_function(v: HandlerView, env: &GlobalEnv, k: int) -> bool {
    let functions = env.modules@[v.cursor.module as int].functions@;
    &&& 0 <= k < functions.len()
    &&& surrounds_line(v.cursor, env, functions[k].loc)
    &&& forall|j: int|
        0 <= j < k ==> has_place(env, (#[trigger] functions[j]).loc) && !surrounds_line(
            v.cursor,
            env,
            functions[j].loc,
        )
}

/// In the first function around the cursor, with the cursor placed in its file, what is found at the
/// nodes of its body is added, and nothing else.
pub proof fn law_function_around_cursor(v: HandlerView, env: &GlobalEnv, k: int)
    requires
        in_function(v, env, k),
    ensures
        ({
            let fun = env.modules@[v.cursor.module as int].functions@[k];
            let placed = v.placed(env, fun.loc.file);
            let r = v.after_func(env);
            &&& r.cursor == placed.cursor
            &&& r.function is None
            &&& fun.def matches Some(exp) ==> {
                let found = placed.record_all(placed.cursor.nodes_hits(env, exp.nodes@));
                r.spans == found.spans && r.texts == found.texts
            }
            &&& fun.def is None ==> r.spans == v.spans && r.texts == v.texts
        }),
{
    let module = v.target(env);
    let fun = module.functions@[k];
    let p = v.cursor.in_function(env, module);
    lemma_first(p, module.functions@.len());
    assert(p(k));
    let i = first(p, module.functions@.len())->0;
    if i < k {
        assert(!surrounds_line(v.cursor, env, module.functions@[i].loc));
    }
    assert(i == k);
    let placed = v.placed(env, fun.loc.file);
    if let Some(exp) = fun.def {
        lemma_record_all_frame(placed, placed.cursor.nodes_hits(env, exp.nodes@));
    }
}

/// What is found at a node of the body of the first function around the cursor is among the spans.
pub proof fn law_function_node_is_found(
    v: HandlerView,
    env: &GlobalEnv,
    k: int,
    n: int,
    hit: Hit,
)
    requires
        in_function(v, env, k),
        ({
            let fun = env.modules@[v.cursor.module as int].functions@[k];
            let placed = v.placed(env, fun.loc.file);
            &&& fun.def matches Some(exp)
            &&& 0 <= n < exp.nodes@.len()
            &&& placed.cursor.node_hits(env, exp.nodes@[n]).contains(hit)
        }),
    ensures
        v.after_func(env).spans.contains(hit.span),
{
    law_function_around_cursor(v, env, k);
    let fun = v.target(env).functions@[k];
    let placed = v.placed(env, fun.loc.file);
    let exp = fun.def->0;
    let hits = placed.cursor.nodes_hits(env, exp.nodes@);
    crate::expr_laws::law_each_node_is_visited(placed.cursor, env, exp.nodes@, n, hit);
    let i = choose|i: int| 0 <= i < hits.len() && hits[i] == hit;
    assert(hits[i].span == hit.span);
    law_record_all_spans(placed, hits, hit.span);
}

/// Around no function nothing is found in one.
pub proof fn law_no_function_around_cursor(v: HandlerView, env: &GlobalEnv)
    requires
        ({
            let functions = env.modules@[v.cursor.module as int].functions@;
            forall|j: int|
                0 <= j < functions.len() ==> has_place(env, (#[trigger] functions[j]).loc)
                    && !surrounds_line(v.cursor, env, functions[j].loc)
        }),
    ensures
        v.after_func(env) == v,
{
    let module = v.target(env);
    let p = v.cursor.in_function(env, module);
    lemma_first(p, module.functions@.len());
    if let Some(i) = first(p, module.functions@.len()) {
        assert(!surrounds_line(v.cursor, env, module.functions@[i].loc));
    }
}

/// Struct `k` of the target module is the first around the cursor.
pub open spec fn in_struct(v: HandlerView, env: &GlobalEnv, k: int) -> bool {
    let structs = env.modules@[v.cursor.module as int].structs@;
    &&& 0 <= k < structs.len()
    &&& surrounds_line(v.cursor, env, structs[k].loc)
    &&& forall|j: int|
        0 <= j < k ==> has_place(env, (#[trigger] structs[j]).loc) && !surrounds_line(
            v.cursor,
            env,
            structs[j].loc,
        )
}

/// In the first struct around the cursor, with the cursor placed in its file, what is found at its
/// fields is added, and nothing else.
pub proof fn law_struct_around_cursor(v: HandlerView, env: &GlobalEnv, k: int)
    requires
        in_struct(v, env, k),
    ensures
        ({
            let stct = env.modules@[v.cursor.module as int].structs@[k];
            let placed = v.placed(env, stct.loc.file);
            v.after_struct(env) == placed.record_all(
                placed.cursor.field_decl_hits(env, stct.loc, stct.fields@),
            )
        }),
{
    let module = v.target(env);
    let p = v.cursor.in_struct(env, module);
    lemma_first(p, module.structs@.len());
    assert(p(k));
    let i = first(p, module.structs@.len())->0;
    if i < k {
        assert(!surrounds_line(v.cursor, env, module.structs@[i].loc));
    }
    assert(i == k);
}

/// Around no struct nothing is found in one.
pub proof fn law_no_struct_around_cursor(v: HandlerView, env: &GlobalEnv)
    requires
        ({
            let structs = env.modules@[v.cursor.module as int].structs@;
            forall|j: int|
                0 <= j < structs.len() ==> has_place(env, (#[trigger] structs[j]).loc)
                    && !surrounds_line(v.cursor, env, structs[j].loc)
        }),
    ensures
        v.after_struct(env) == v,
{
    let module = v.target(env);
    let p = v.cursor.in_struct(env, module);
    lemma_first(p, module.structs@.len());
    if let Some(i) = first(p, module.structs@.len()) {
        assert(!surrounds_line(v.cursor, env, module.structs@[i].loc));
    }
}

/// The name of a field stands first in the source of its struct behind `left`; the 128 bytes of the
/// file that follow it are `rest` up to the end of the line, and then `beyond`; these follow the name
/// at byte `from`.
pub open spec fn declares_field(
    env: &GlobalEnv,
    loc: Loc,
    name: Seq<char>,
    left: Seq<char>,
    from: int,
    rest: Seq<char>,
    beyond: Seq<char>,
) -> bool {
    &&& name.len() > 0
    &&& written(env, loc) matches Some(source)
    &&& (left + name).is_prefix_of(source)
    &&& !contains(left + name.drop_last(), name)
    &&& from == loc.span.start + byte_len(left) + byte_len(name)
    &&& from + 128 <= u32::MAX
    &&& sliced(env.files@[loc.file as int]@, from, from + 128) == Some(
        rest + (seq!['\n'] + beyond),
    )
    &&& !rest.contains('\n')
    &&& from + byte_len(rest) <= u32::MAX
}

proof fn lemma_field_start(
    env: &GlobalEnv,
    loc: Loc,
    name: Seq<char>,
    left: Seq<char>,
    source: Seq<char>,
)
    requires
        name.len() > 0,
        written(env, loc) == Some(source),
        (left + name).is_prefix_of(source),
        !contains(left + name.drop_last(), name),
    ensures
        field_start(env, loc, name) == Some(loc.span.start + byte_len(left) + byte_len(name)),
{
    let after = source.skip((left.len() + name.len()) as int);
    law_find_first(left, name, after);
    assert(source =~= left + name + after) by {
        assert((left + name) =~= source.take((left.len() + name.len()) as int));
    }
    assert(source.take(left.len() as int) =~= left);
}

/// At the declaration of a field of a struct, behind its name and up to the end of its line, its type
/// is found.
pub proof fn law_field_declaration(
    cursor: Cursor,
    env: &GlobalEnv,
    loc: Loc,
    fields: Seq<FieldEnv>,
    f: int,
    left: Seq<char>,
    from: int,
    rest: Seq<char>,
    beyond: Seq<char>,
)
    requires
        0 <= f < fields.len(),
        declares_field(env, loc, fields[f].name@, left, from, rest, beyond),
        from <= cursor.mouse.end <= from + byte_len(rest),
    ensures
        ({
            let span = Span { start: from as u32, end: (from + byte_len(rest)) as u32 };
            &&& span.start == from
            &&& span.end == from + byte_len(rest)
            &&& cursor.field_decl_hits(env, loc, fields).contains(
                Hit { span, text: fields[f].ty@ },
            )
        }),
    decreases fields.len(),
{
    let span = Span { start: from as u32, end: (from + byte_len(rest)) as u32 };
    let hit = Hit { span, text: fields[f].ty@ };
    let less = fields.drop_last();
    let before = cursor.field_decl_hits(env, loc, less);
    let all = cursor.field_decl_hits(env, loc, fields);
    if f < less.len() {
        assert(less[f] == fields[f]);
        law_field_declaration(cursor, env, loc, less, f, left, from, rest, beyond);
        let i = choose|i: int| 0 <= i < before.len() && before[i] == hit;
        assert(all[i] == hit);
    } else {
        lemma_field_start(env, loc, fields[f].name@, left, written(env, loc)->0);
        let tail = seq!['\n'] + beyond;
        lemma_first_char(rest, tail, '\n');
        assert((rest + tail).take(rest.len() as int) =~= rest);
        assert(all[before.len() as int] == hit);
    }
}

/// Before what follows the name of a field, and behind the end of its line, the type of the field is
/// not found.
pub proof fn law_field_declared_elsewhere(
    cursor: Cursor,
    env: &GlobalEnv,
    loc: Loc,
    field: FieldEnv,
    left: Seq<char>,
    from: int,
    rest: Seq<char>,
    beyond: Seq<char>,
)
    requires
        declares_field(env, loc, field.name@, left, from, rest, beyond),
        cursor.mouse.end < from || from + byte_len(rest) < cursor.mouse.end,
    ensures
        cursor.field_decl_hits(env, loc, seq![field]).len() == 0,
{
    lemma_field_start(env, loc, field.name@, left, written(env, loc)->0);
    let tail = seq!['\n'] + beyond;
    lemma_first_char(rest, tail, '\n');
    assert((rest + tail).take(rest.len() as int) =~= rest);
    assert(seq![field].drop_last() =~= seq![]);
    assert(cursor.field_decl_hits(env, loc, seq![]).len() == 0);
}

/// A field whose name does not stand in the source of the struct, or that is not followed by the end
/// of a line in the next 128 bytes of the file, is not found.
pub proof fn law_field_not_declared(
    cursor: Cursor,
    env: &GlobalEnv,
    loc: Loc,
    field: FieldEnv,
    left: Seq<char>,
)
    requires
        written(env, loc) matches Some(source) ==> !contains(source, field.name@) || {
            let from = loc.span.start + byte_len(left) + byte_len(field.name@);
            &&& field.name@.len() > 0
            &&& (left + field.name@).is_prefix_of(source)
            &&& !contains(left + field.name@.drop_last(), field.name@)
            &&& match sliced(env.files@[loc.file as int]@, from, from + 128) {
                Some(window) => !window.contains('\n'),
                None => true,
            }
        },
    ensures
        cursor.field_decl_hits(env, loc, seq![field]).len() == 0,
{
    let name = field.name@;
    assert(seq![field].drop_last() =~= seq![]);
    assert(cursor.field_decl_hits(env, loc, seq![]).len() == 0);
    if let Some(source) = written(env, loc) {
        lemma_find(source, name);
        if contains(source, name) {
            lemma_field_start(env, loc, name, left, source);
            let from = loc.span.start + byte_len(left) + byte_len(name);
            if let Some(window) = sliced(env.files@[loc.file as int]@, from, from + 128) {
                lemma_find(window, seq!['\n']);
                if let Some(k) = find(window, seq!['\n']) {
                    assert(window.subrange(k, k + 1)[0] == '\n');
                    assert(window.contains(window[k]));
                }
            }
        }
    }
}

/// What is found at a further field comes behind what is found at the others.
pub proof fn law_fields_in_order(
    cursor: Cursor,
    env: &GlobalEnv,
    loc: Loc,
    fields: Seq<FieldEnv>,
    field: FieldEnv,
)
    ensures
        cursor.field_decl_hits(env, loc, seq![]).len() == 0,
        cursor.field_decl_hits(env, loc, fields.push(field)) == cursor.field_decl_hits(
            env,
            loc,
            fields,
        ) + cursor.field_decl_hits(env, loc, seq![field]),
{
    assert(fields.push(field).drop_last() =~= fields);
    assert(seq![field].drop_last() =~= seq![]);
    assert(cursor.field_decl_hits(env, loc, seq![]) =~= seq![]);
    assert(cursor.field_decl_hits(env, loc, fields.push(field)) =~= cursor.field_decl_hits(
        env,
        loc,
        fields,
    ) + cursor.field_decl_hits(env, loc, seq![field]));
}

/// Specification block `b` of the target module is the first of a function around the cursor.
pub open spec fn in_function_spec(v: HandlerView, env: &GlobalEnv, b: int) -> bool {
    let blocks = env.modules@[v.cursor.module as int].spec_blocks@;
    &&& 0 <= b < blocks.len()
    &&& blocks[b].target is Function
    &&& spans_line(v.cursor, env, blocks[b].loc)
    &&& forall|j: int|
        0 <= j < b && (#[trigger] blocks[j]).target is Function ==> !spans_line(
            v.cursor,
            env,
            blocks[j].loc,
        )
}

/// Specification block `b` of the target module is the first of a struct around the cursor.
pub open spec fn in_struct_spec(v: HandlerView, env: &GlobalEnv, b: int) -> bool {
    let blocks = env.modules@[v.cursor.module as int].spec_blocks@;
    &&& 0 <= b < blocks.len()
    &&& blocks[b].target is Struct
    &&& spans_line(v.cursor, env, blocks[b].loc)
    &&& forall|j: int|
        0 <= j < b && (#[trigger] blocks[j]).target is Struct ==> !spans_line(
            v.cursor,
            env,
            blocks[j].loc,
        )
}

/// In the first specification of a function around the cursor, with the cursor placed in its file, what
/// is found at the conditions of that function is added, and nothing else.
pub proof fn law_function_spec_around_cursor(v: HandlerView, env: &GlobalEnv, b: int)
    requires
        in_function_spec(v, env, b),
    ensures
        ({
            let module = env.modules@[v.cursor.module as int];
            let block = module.spec_blocks@[b];
            let placed = v.placed(env, block.loc.file);
            block.target matches SpecBlockTarget::Function(i) ==> v.after_spec_func(env)
                == placed.record_all(
                placed.cursor.conditions_hits(
                    env,
                    module.functions@[i as int].spec_conditions@,
                ),
            )
        }),
{
    let module = v.target(env);
    let p = v.cursor.in_function_spec(env, module);
    lemma_first(p, module.spec_blocks@.len());
    assert(p(b));
    let i = first(p, module.spec_blocks@.len())->0;
    if i < b {
        assert(!spans_line(v.cursor, env, module.spec_blocks@[i].loc));
    }
    assert(i == b);
}

/// In the first specification of a struct around the cursor, with the cursor placed in its file, what
/// is found at the conditions of that struct is added, and nothing else.
pub proof fn law_struct_spec_around_cursor(v: HandlerView, env: &GlobalEnv, b: int)
    requires
        in_struct_spec(v, env, b),
    ensures
        ({
            let module = env.modules@[v.cursor.module as int];
            let block = module.spec_blocks@[b];
            let placed = v.placed(env, block.loc.file);
            block.target matches SpecBlockTarget::Struct(i) ==> v.after_spec_struct(env)
                == placed.record_all(
                placed.cursor.conditions_hits(
                    env,
                    module.structs@[i as int].spec_conditions@,
                ),
            )
        }),
{
    let module = v.target(env);
    let p = v.cursor.in_struct_spec(env, module);
    lemma_first(p, module.spec_blocks@.len());
    assert(p(b));
    let i = first(p, module.spec_blocks@.len())->0;
    if i < b {
        assert(!spans_line(v.cursor, env, module.spec_blocks@[i].loc));
    }
    assert(i == b);
}

/// Around no specification of a function nothing is found in one, and around none of a struct neither.
pub proof fn law_no_spec_around_cursor(v: HandlerView, env: &GlobalEnv)
    ensures
        ({
            let blocks = env.modules@[v.cursor.module as int].spec_blocks@;
            &&& (forall|j: int|
                0 <= j < blocks.len() && (#[trigger] blocks[j]).target is Function ==> !spans_line(
                    v.cursor,
                    env,
                    blocks[j].loc,
                )) ==> v.after_spec_func(env) == v
            &&& (forall|j: int|
                0 <= j < blocks.len() && (#[trigger] blocks[j]).target is Struct ==> !spans_line(
                    v.cursor,
                    env,
                    blocks[j].loc,
                )) ==> v.after_spec_struct(env) == v
        }),
{
    let module = v.target(env);
    let p = v.cursor.in_function_spec(env, module);
    let q = v.cursor.in_struct_spec(env, module);
    lemma_first(p, module.spec_blocks@.len());
    lemma_first(q, module.spec_blocks@.len());
    if let Some(i) = first(p, module.spec_blocks@.len()) {
        assert(module.spec_blocks@[i].target is Function);
        assert(spans_line(v.cursor, env, module.spec_blocks@[i].loc));
    }
    if let Some(i) = first(q, module.spec_blocks@.len()) {
        assert(module.spec_blocks@[i].target is Struct);
        assert(spans_line(v.cursor, env, module.spec_blocks@[i].loc));
    }
}

} // verus!
