//! What holds of a hover as a whole.

use vstd::prelude::*;
use crate::docs::documentation;
use crate::docs::documentation_at;
use crate::exprs::field_hits;
use crate::exprs::known_type_hits;
use crate::exprs::source_or_empty;
use crate::exprs::token_loc;
use crate::handler::Cursor;
use crate::handler::HandlerView;
use crate::handler::Hit;
use crate::handler::is_shortest;
use crate::handler::lemma_record_all_frame;
use crate::handler::lemma_shortest;
use crate::handler::shortest;
use crate::model::ExpData;
use crate::model::FieldEnv;
use crate::model::GlobalEnv;
use crate::model::Loc;
use crate::model::Operation;
use crate::model::Pattern;
use crate::model::Token;
use crate::request::start;
use crate::search::first;
use crate::source::Span;
use crate::source::cursor_span;
use crate::text::contains;
use crate::text::find;
use crate::text::is_whitespace;
use crate::text::join;
use crate::text::lemma_find;
use crate::text::lemma_segments_nonempty;
use crate::text::lines;
use crate::text::occurs_at;
use crate::text::segments;
use crate::text::starts_with;
use crate::text::trim;
use crate::text::trim_start;
use crate::text::without;
use crate::text::word_len;
use crate::text::words;
use crate::uses::UseTargetView;
use crate::uses::friend_name;
use crate::uses::friend_text;
use crate::uses::line_text;
use crate::uses::module_shown;
use crate::uses::module_text;
use crate::uses::shows_module;
use crate::uses::with_docs;
use crate::visit::law_steps_keep_place;

verus! {

impl HandlerView {
    /// No span was found twice.
    pub open spec fn distinct(self) -> bool {
        self.spans.no_duplicates()
    }

    /// To each span belongs the text with the same number.
    pub open spec fn aligned(self) -> bool {
        self.spans.len() == self.texts.len()
    }

    /// What was found in `v` was found here too, before anything else.
    pub open spec fn extends(self, v: HandlerView) -> bool {
        &&& v.spans.is_prefix_of(self.spans)
        &&& v.texts.is_prefix_of(self.texts)
    }

    /// `self` comes after `v`: it extends `v`, and finds no span twice unless `v` does.
    pub open spec fn follows(self, v: HandlerView) -> bool {
        &&& self.extends(v)
        &&& v.distinct() ==> self.distinct()
    }
}

/// What comes after what comes after `u` comes after `u`.
pub proof fn lemma_follows(u: HandlerView, v: HandlerView, w: HandlerView)
    requires
        v.follows(u),
        w.follows(v),
    ensures
        w.follows(u),
{
    assert(u.spans =~= w.spans.take(u.spans.len() as int)) by {
        assert(u.spans =~= v.spans.take(u.spans.len() as int));
    }
    assert(u.texts =~= w.texts.take(u.texts.len() as int)) by {
        assert(u.texts =~= v.texts.take(u.texts.len() as int));
    }
}

/// A new span after spans without duplicates makes none.
proof fn lemma_push_distinct(spans: Seq<Span>, span: Span)
    requires
        spans.no_duplicates(),
        !spans.contains(span),
    ensures
        spans.push(span).no_duplicates(),
{
    let more = spans.push(span);
    assert forall|i: int, j: int| 0 <= i < more.len() && 0 <= j < more.len() && i != j implies more[i]
        != more[j] by {
        if i == spans.len() {
            assert(spans.contains(spans[j]));
        } else if j == spans.len() {
            assert(spans.contains(spans[i]));
        }
    }
}

/// Adding finds removes and reorders nothing, adds no span twice, and adds one text with each span.
pub proof fn law_record_all(v: HandlerView, hits: Seq<Hit>)
    ensures
        v.record_all(hits).follows(v),
        v.aligned() ==> v.record_all(hits).aligned(),
    decreases hits.len(),
{
    if hits.len() > 0 {
        let w = v.record_all(hits.drop_last());
        law_record_all(v, hits.drop_last());
        if w.distinct() && !w.spans.contains(hits.last().span) {
            lemma_push_distinct(w.spans, hits.last().span);
        }
        lemma_follows(v, w, w.record(hits.last()));
    }
}

/// Every find is added, unless its span was found before; nothing else is.
pub proof fn law_record_all_spans(v: HandlerView, hits: Seq<Hit>, span: Span)
    ensures
        v.record_all(hits).spans.contains(span) <==> v.spans.contains(span) || exists|i: int|
            0 <= i < hits.len() && (#[trigger] hits[i]).span == span,
    decreases hits.len(),
{
    if hits.len() > 0 {
        let rest = hits.drop_last();
        let w = v.record_all(rest);
        law_record_all_spans(v, rest, span);
        let last = hits.last().span;
        assert(w.spans.push(last).contains(span) <==> w.spans.contains(span) || span == last) by {
            if w.spans.contains(span) {
                let k = choose|k: int| 0 <= k < w.spans.len() && w.spans[k] == span;
                assert(w.spans.push(last)[k] == span);
            }
            assert(w.spans.push(last)[w.spans.len() as int] == last);
        }
        assert(exists|i: int| 0 <= i < rest.len() && (#[trigger] rest[i]).span == span ==> exists|
            i: int,
        |
            0 <= i < hits.len() && (#[trigger] hits[i]).span == span) by {
            if exists|i: int| 0 <= i < rest.len() && (#[trigger] rest[i]).span == span {
                let i = choose|i: int| 0 <= i < rest.len() && (#[trigger] rest[i]).span == span;
                assert(hits[i].span == span);
            }
        }
        assert(hits[hits.len() - 1] == hits.last());
        if exists|i: int| 0 <= i < hits.len() && (#[trigger] hits[i]).span == span {
            let i = choose|i: int| 0 <= i < hits.len() && (#[trigger] hits[i]).span == span;
            if i < rest.len() {
                assert(rest[i].span == span);
            }
        }
    }
}

/// Adding finds whose spans are all known changes nothing.
proof fn lemma_record_all_known(v: HandlerView, hits: Seq<Hit>)
    requires
        forall|i: int| 0 <= i < hits.len() ==> v.spans.contains((#[trigger] hits[i]).span),
    ensures
        v.record_all(hits) == v,
    decreases hits.len(),
{
    if hits.len() > 0 {
        let rest = hits.drop_last();
        assert forall|i: int| 0 <= i < rest.len() implies v.spans.contains(
            (#[trigger] rest[i]).span,
        ) by {
            assert(rest[i] == hits[i]);
        }
        lemma_record_all_known(v, rest);
        assert(hits[hits.len() - 1] == hits.last());
    }
}

/// Adding the same finds again changes nothing.
pub proof fn law_record_all_again(v: HandlerView, hits: Seq<Hit>)
    ensures
        v.record_all(hits).record_all(hits) == v.record_all(hits),
{
    let w = v.record_all(hits);
    assert forall|i: int| 0 <= i < hits.len() implies w.spans.contains(
        (#[trigger] hits[i]).span,
    ) by {
        law_record_all_spans(v, hits, hits[i].span);
    }
    lemma_record_all_known(w, hits);
}

/// Every step only adds to what was found before, and finds no span twice.
pub proof fn law_steps_only_add(v: HandlerView, env: &GlobalEnv)
    ensures
        v.after_use_decl(env).follows(v),
        v.after_friend_decl(env).follows(v),
        v.after_const(env).follows(v),
        v.after_func(env).follows(v),
        v.after_struct(env).follows(v),
        v.after_spec_func(env).follows(v),
        v.after_spec_struct(env).follows(v),
{
    assert forall|w: HandlerView, hits: Seq<Hit>| (#[trigger] w.record_all(hits)).follows(w) by {
        law_record_all(w, hits);
    }
    assert forall|span: Span| !v.spans.contains(span) && v.distinct() implies #[trigger] v.spans.push(
        span,
    ).no_duplicates() by {
        lemma_push_distinct(v.spans, span);
    }
}

/// To each span belongs a text after every step but those on `use` and `friend` declarations, if it
/// did before.
pub proof fn law_steps_keep_aligned(v: HandlerView, env: &GlobalEnv)
    requires
        v.aligned(),
    ensures
        v.after_const(env).aligned(),
        v.after_func(env).aligned(),
        v.after_struct(env).aligned(),
        v.after_spec_func(env).aligned(),
        v.after_spec_struct(env).aligned(),
{
    assert forall|w: HandlerView, hits: Seq<Hit>| w.aligned() implies (#[trigger] w.record_all(
        hits,
    )).aligned() by {
        law_record_all(w, hits);
    }
}

/// A visit only adds to what was found before, and finds no span twice.
pub proof fn law_visit_only_adds(
    v: HandlerView,
    env: &GlobalEnv,
    path: Option<Seq<char>>,
    modules: Seq<usize>,
)
    ensures
        v.after_modules(env, path, modules).follows(v),
    decreases modules.len(),
{
    if modules.len() > 0 {
        let u = v.after_modules(env, path, modules.drop_last());
        law_visit_only_adds(v, env, path, modules.drop_last());
        let w = u.targeting(modules.last());
        assert(w.follows(u));
        let s = w.after_spec_func(env);
        law_steps_only_add(w, env);
        law_steps_only_add(s, env);
        lemma_follows(w, s, s.after_spec_struct(env));
        let w1 = w.after_use_decl(env);
        let w2 = w1.after_friend_decl(env);
        let w3 = w2.after_const(env);
        let w4 = w3.after_func(env);
        let w5 = w4.after_struct(env);
        law_steps_only_add(w1, env);
        law_steps_only_add(w2, env);
        law_steps_only_add(w3, env);
        law_steps_only_add(w4, env);
        lemma_follows(w, w1, w2);
        lemma_follows(w, w2, w3);
        lemma_follows(w, w3, w4);
        lemma_follows(w, w4, w5);
        lemma_follows(v, u, w);
        lemma_follows(v, w, u.after_module(env, path, modules.last()));
    }
}

/// A hover finds no span twice.
pub proof fn law_hover_finds_no_span_twice(
    filepath: Seq<char>,
    line: u32,
    col: u32,
    env: &GlobalEnv,
    path: Option<Seq<char>>,
    modules: Seq<usize>,
)
    ensures
        start(filepath, line, col).after_modules(env, path, modules).distinct(),
{
    law_visit_only_adds(start(filepath, line, col), env, path, modules);
}

/// In a file with specifications a visit finds as many texts as spans, and what is shown is the text
/// of the first of the shortest spans.
pub proof fn law_spec_visit_shows_shortest(
    filepath: Seq<char>,
    line: u32,
    col: u32,
    env: &GlobalEnv,
    path: Seq<char>,
    modules: Seq<usize>,
)
    requires
        contains(path, ".spec"@),
    ensures
        ({
            let v = start(filepath, line, col).after_modules(env, Some(path), modules);
            &&& v.aligned()
            &&& v.spans.len() > 0 ==> is_shortest(v.spans, shortest(v.spans)) && v.hover_text()
                == v.texts[shortest(v.spans)]
            &&& v.spans.len() == 0 ==> v.hover_text() == "null"@
        }),
    decreases modules.len(),
{
    let v = start(filepath, line, col).after_modules(env, Some(path), modules);
    if modules.len() > 0 {
        law_spec_visit_shows_shortest(filepath, line, col, env, path, modules.drop_last());
        let u = start(filepath, line, col).after_modules(env, Some(path), modules.drop_last());
        let w = u.targeting(modules.last());
        law_steps_keep_aligned(w, env);
        law_steps_keep_aligned(w.after_spec_func(env), env);
    }
    if v.spans.len() > 0 {
        lemma_shortest(v.spans);
    }
}

/// What is shown is one of the texts that were found, or the word `null`.
pub proof fn law_shown_was_found(v: HandlerView)
    ensures
        v.texts.contains(v.hover_text()) || v.hover_text() == "null"@,
        v.texts.len() == 0 ==> v.hover_text() == "null"@,
{
    if v.spans.len() > 0 {
        lemma_shortest(v.spans);
    }
}

/// Where each span has its text, the text of the first of the shortest spans is shown.
pub proof fn law_shows_shortest(v: HandlerView)
    requires
        v.aligned(),
        v.spans.len() > 0,
    ensures
        is_shortest(v.spans, shortest(v.spans)),
        v.hover_text() == v.texts[shortest(v.spans)],
{
    lemma_shortest(v.spans);
}

/// Once the result was taken, there is none.
pub proof fn law_result_is_taken(v: HandlerView)
    ensures
        v.cleared().hover_text() == "null"@,
        v.cleared().cleared() == v.cleared(),
{
}

/// A file whose path is no text has nothing to show, nor has one without modules.
pub proof fn law_nothing_to_visit(
    v: HandlerView,
    env: &GlobalEnv,
    path: Option<Seq<char>>,
    modules: Seq<usize>,
)
    requires
        path is None || modules.len() == 0,
    ensures
        v.after_modules(env, path, modules).spans == v.spans,
        v.after_modules(env, path, modules).texts == v.texts,
        v.after_modules(env, path, modules).hover_text() == v.hover_text(),
    decreases modules.len(),
{
    if modules.len() > 0 {
        law_nothing_to_visit(v, env, path, modules.drop_last());
    }
}

/// What stands in the middle of a text stands in the text.
proof fn lemma_contains_middle(a: Seq<char>, b: Seq<char>, c: Seq<char>, pat: Seq<char>, k: int)
    requires
        occurs_at(b, pat, k),
    ensures
        contains(a + b + c, pat),
{
    let s = a + b + c;
    assert(s.subrange(a.len() + k, a.len() + k + pat.len()) =~= b.subrange(k, k + pat.len()));
    assert(occurs_at(s, pat, a.len() + k));
}

/// The text of a used or befriended module says that it is one.
pub proof fn law_module_texts_are_marked(name: Seq<char>, docs: Seq<char>)
    ensures
        contains(with_docs(module_text(name), docs), "// Module contents"@),
        contains(module_text(name), "// Module contents"@),
        contains(with_docs(friend_text(name), docs), "// Friend module contents"@),
{
    let head = "```move\nmodule "@ + name;
    let after = if docs.len() == 0 {
        seq![]
    } else {
        "\n\n**Documentation:**\n"@ + docs
    };
    assert(after.len() == 0 ==> after =~= seq![]);
    let used = " {\n    // Module contents\n}\n```"@;
    assert(occurs_at(used, "// Module contents"@, 7)) by {
        reveal_strlit(" {\n    // Module contents\n}\n```");
        reveal_strlit("// Module contents");
        assert(used.subrange(7, 7int + "// Module contents"@.len()) =~= "// Module contents"@);
    }
    lemma_contains_middle(head, used, after, "// Module contents"@, 7);
    assert(with_docs(module_text(name), docs) =~= head + used + after);
    lemma_contains_middle(head, used, seq![], "// Module contents"@, 7);
    assert(module_text(name) =~= head + used + seq![]);
    let friend = " {\n    // Friend module contents\n}\n```"@;
    assert(occurs_at(friend, "// Friend module contents"@, 7)) by {
        reveal_strlit(" {\n    // Friend module contents\n}\n```");
        reveal_strlit("// Friend module contents");
        assert(friend.subrange(7, 7int + "// Friend module contents"@.len())
            =~= "// Friend module contents"@);
    }
    lemma_contains_middle(head, friend, after, "// Friend module contents"@, 7);
    assert(with_docs(friend_text(name), docs) =~= head + friend + after);
}

/// One of the texts says that it shows a used or befriended module.
pub open spec fn some_module_shown(texts: Seq<Seq<char>>) -> bool {
    exists|i: int|
        0 <= i < texts.len() && (contains(#[trigger] texts[i], "// Module contents"@) || contains(
            texts[i],
            "// Friend module contents"@,
        ))
}

/// Where the text of a used or befriended module was found, no second one is added for a module, be
/// it used or befriended.
pub proof fn law_one_module_text(
    v: HandlerView,
    env: &GlobalEnv,
    span: Span,
    name: Seq<char>,
    text: Seq<char>,
)
    requires
        some_module_shown(v.texts),
    ensures
        v.show_module(span, name, text).texts == v.texts,
        v.after_friend_decl(env).texts == v.texts,
{
    assert forall|name: Seq<char>| #[trigger] module_shown(v.texts, name) by {
        let i = choose|i: int|
            0 <= i < v.texts.len() && (contains(#[trigger] v.texts[i], "// Module contents"@)
                || contains(v.texts[i], "// Friend module contents"@));
        assert(shows_module(v.texts[i], name));
    }
}

/// After the step on `use` declarations has added the text of a module, the step on `friend`
/// declarations adds none.
pub proof fn law_used_module_hides_friend(v: HandlerView, env: &GlobalEnv)
    requires
        v.after_use_decl(env).texts != v.texts,
        ({
            let module = v.target(env);
            let uses = module.use_decls@;
            match first(v.cursor.use_under_cursor(env, module), uses.len()) {
                Some(i) => v.cursor.use_target(env, env.source(module.loc.file), uses[i])->0
                    is Module,
                None => true,
            }
        }),
    ensures
        v.after_use_decl(env).after_friend_decl(env).texts == v.after_use_decl(env).texts,
{
    let module = v.target(env);
    let uses = module.use_decls@;
    let w = v.after_use_decl(env);
    match first(v.cursor.use_under_cursor(env, module), uses.len()) {
        Some(i) => {
            let source = env.source(module.loc.file);
            let target = v.cursor.use_target(env, source, uses[i])->0;
            if let UseTargetView::Module { name, loc } = target {
                let docs = documentation_at(env, loc);
                law_module_texts_are_marked(name, docs);
                let text = with_docs(module_text(name), docs);
                assert(w.texts[v.texts.len() as int] == text);
                law_one_module_text(w, env, loc.span, name, text);
            }
        },
        None => {
            let i = first(v.cursor.use_nearby(env, module), uses.len())->0;
            let name = uses[i].module_name@;
            law_module_texts_are_marked(name, seq![]);
            assert(w.texts[v.texts.len() as int] == module_text(name));
            law_one_module_text(w, env, v.cursor.mouse, name, seq![]);
        },
    }
}

/// All spans of some finds are known once the finds were added.
proof fn lemma_record_all_knows(v: HandlerView, hits: Seq<Hit>)
    ensures
        forall|i: int|
            0 <= i < hits.len() ==> v.record_all(hits).spans.contains((#[trigger] hits[i]).span),
{
    assert forall|i: int| 0 <= i < hits.len() implies v.record_all(hits).spans.contains(
        (#[trigger] hits[i]).span,
    ) by {
        law_record_all_spans(v, hits, hits[i].span);
    }
}

/// Hovering over the constants of a module again finds nothing new.
pub proof fn law_const_again(v: HandlerView, env: &GlobalEnv)
    ensures
        v.after_const(env).after_const(env) == v.after_const(env),
{
    let hits = v.cursor.constant_decl_hits(env, v.target(env).constants@);
    lemma_record_all_frame(v, hits);
    law_record_all_again(v, hits);
}

/// Hovering over the functions of a module again finds nothing new.
pub proof fn law_func_again(v: HandlerView, env: &GlobalEnv)
    ensures
        v.after_func(env).after_func(env) == v.after_func(env),
{
    let w = v.after_func(env);
    let module = v.target(env);
    law_steps_keep_place(v, env);
    let p = v.cursor.in_function(env, module);
    let q = w.cursor.in_function(env, module);
    assert(p =~= q);
    if let Some(i) = first(p, module.functions@.len()) {
        let placed = v.placed(env, module.functions@[i].loc.file);
        if let Some(exp) = module.functions@[i].def {
            let hits = placed.cursor.nodes_hits(env, exp.nodes@);
            lemma_record_all_frame(placed, hits);
            lemma_record_all_knows(placed, hits);
            lemma_record_all_known(w, hits);
        }
        assert(w.placed(env, module.functions@[i].loc.file) =~= w);
        assert(w.after_func(env) =~= w);
    }
}

/// Hovering over the structs of a module again finds nothing new.
pub proof fn law_struct_again(v: HandlerView, env: &GlobalEnv)
    ensures
        v.after_struct(env).after_struct(env) == v.after_struct(env),
{
    let w = v.after_struct(env);
    let module = v.target(env);
    law_steps_keep_place(v, env);
    let p = v.cursor.in_struct(env, module);
    let q = w.cursor.in_struct(env, module);
    assert(p =~= q);
    if let Some(i) = first(p, module.structs@.len()) {
        let stct = module.structs@[i];
        let placed = v.placed(env, stct.loc.file);
        let hits = placed.cursor.field_decl_hits(env, stct.loc, stct.fields@);
        lemma_record_all_frame(placed, hits);
        law_record_all_again(placed, hits);
        assert(w.placed(env, stct.loc.file) =~= w);
    }
}

/// Hovering over the specifications of the functions of a module again finds nothing new.
pub proof fn law_spec_func_again(v: HandlerView, env: &GlobalEnv)
    ensures
        v.after_spec_func(env).after_spec_func(env) == v.after_spec_func(env),
{
    let w = v.after_spec_func(env);
    let module = v.target(env);
    law_steps_keep_place(v, env);
    let p = v.cursor.in_function_spec(env, module);
    let q = w.cursor.in_function_spec(env, module);
    assert(p =~= q);
    if let Some(i) = first(p, module.spec_blocks@.len()) {
        let block = module.spec_blocks@[i];
        let fun = module.functions@[block.target->Function_0 as int];
        let placed = v.placed(env, block.loc.file);
        let hits = placed.cursor.conditions_hits(env, fun.spec_conditions@);
        lemma_record_all_frame(placed, hits);
        law_record_all_again(placed, hits);
        assert(w.placed(env, block.loc.file) =~= w);
    }
}

/// Hovering over the specifications of the structs of a module again finds nothing new.
pub proof fn law_spec_struct_again(v: HandlerView, env: &GlobalEnv)
    ensures
        v.after_spec_struct(env).after_spec_struct(env) == v.after_spec_struct(env),
{
    let w = v.after_spec_struct(env);
    let module = v.target(env);
    law_steps_keep_place(v, env);
    let p = v.cursor.in_struct_spec(env, module);
    let q = w.cursor.in_struct_spec(env, module);
    assert(p =~= q);
    if let Some(i) = first(p, module.spec_blocks@.len()) {
        let block = module.spec_blocks@[i];
        let stct = module.structs@[block.target->Struct_0 as int];
        let placed = v.placed(env, block.loc.file);
        let hits = placed.cursor.conditions_hits(env, stct.spec_conditions@);
        lemma_record_all_frame(placed, hits);
        law_record_all_again(placed, hits);
        assert(w.placed(env, block.loc.file) =~= w);
    }
}

/// Hovering over a `friend` declaration again finds nothing new.
pub proof fn law_friend_again(v: HandlerView, env: &GlobalEnv)
    ensures
        v.after_friend_decl(env).after_friend_decl(env) == v.after_friend_decl(env),
{
    let w = v.after_friend_decl(env);
    let text = env.source(v.target(env).loc.file);
    if let Some(span) = cursor_span(text, v.cursor.line, v.cursor.col) {
        if friend_name(line_text(text, v.cursor.line)) is Some && !v.spans.contains(span) {
            assert(w.spans[v.spans.len() as int] == span);
        }
    }
}

/// Hovering again over a `use` declaration that names something at the cursor finds nothing new.
pub proof fn law_use_again(v: HandlerView, env: &GlobalEnv)
    requires
        first(
            v.cursor.use_under_cursor(env, v.target(env)),
            v.target(env).use_decls@.len(),
        ) is Some,
    ensures
        v.after_use_decl(env).after_use_decl(env) == v.after_use_decl(env),
{
    let w = v.after_use_decl(env);
    let module = v.target(env);
    let i = first(v.cursor.use_under_cursor(env, module), module.use_decls@.len())->0;
    let target = v.cursor.use_target(env, env.source(module.loc.file), module.use_decls@[i])->0;
    if !v.spans.contains(target.loc().span) {
        assert(w.spans[v.spans.len() as int] == target.loc().span);
    }
}

/// Each of the finds touches the cursor.
pub open spec fn all_touch(cursor: Cursor, hits: Seq<Hit>) -> bool {
    forall|i: int| 0 <= i < hits.len() ==> cursor.touches((#[trigger] hits[i]).span)
}

/// Two lists of finds that touch the cursor are one such list.
proof fn lemma_all_touch_add(cursor: Cursor, a: Seq<Hit>, b: Seq<Hit>)
    requires
        all_touch(cursor, a),
        all_touch(cursor, b),
    ensures
        all_touch(cursor, a + b),
{
    assert forall|i: int| 0 <= i < (a + b).len() implies cursor.touches(
        (#[trigger] (a + b)[i]).span,
    ) by {
        if i < a.len() {
            assert((a + b)[i] == a[i]);
        } else {
            assert((a + b)[i] == b[i - a.len()]);
        }
    }
}

/// The types of fields are all found at the one place where the name stands.
proof fn lemma_field_hits_touch(
    cursor: Cursor,
    fields: Seq<FieldEnv>,
    name: Seq<char>,
    span: Span,
)
    requires
        cursor.touches(span),
    ensures
        all_touch(cursor, field_hits(fields, name, span)),
    decreases fields.len(),
{
    if fields.len() > 0 {
        lemma_field_hits_touch(cursor, fields.drop_last(), name, span);
    }
}

/// What is found at a field that is named in a pattern or a packed struct touches the cursor.
pub proof fn law_struct_field_hits_touch(
    cursor: Cursor,
    env: &GlobalEnv,
    loc: Loc,
    tokens: Seq<Token>,
    fields: Seq<FieldEnv>,
    n: int,
)
    ensures
        all_touch(cursor, cursor.struct_field_hits(env, loc, tokens, fields, n)),
    decreases n,
{
    if n > 0 {
        law_struct_field_hits_touch(cursor, env, loc, tokens, fields, n - 1);
        let place = token_loc(loc, tokens[n - 1]);
        if cursor.touches(place.span) {
            let more = field_hits(fields, source_or_empty(env, place), place.span);
            lemma_field_hits_touch(cursor, fields, source_or_empty(env, place), place.span);
            lemma_all_touch_add(
                cursor,
                cursor.struct_field_hits(env, loc, tokens, fields, n - 1),
                more,
            );
        }
    }
}

/// What is found at a pattern touches the cursor.
pub proof fn law_pattern_hits_touch(cursor: Cursor, env: &GlobalEnv, pattern: Pattern)
    ensures
        all_touch(cursor, cursor.pattern_hits(env, pattern)),
    decreases pattern, 0nat,
{
    match pattern {
        Pattern::Struct { loc, args, fields, tokens } => {
            if cursor.touches(loc.span) {
                lemma_patterns_hits_touch(cursor, env, args@, args@.len());
                let n = tokens@.len() as int;
                law_struct_field_hits_touch(cursor, env, loc, tokens@, fields@, n);
                lemma_all_touch_add(
                    cursor,
                    cursor.patterns_hits(env, args@, args@.len()),
                    cursor.struct_field_hits(env, loc, tokens@, fields@, n),
                );
            }
        },
        Pattern::Tuple { loc, args } => {
            lemma_patterns_hits_touch(cursor, env, args@, args@.len());
        },
        _ => {},
    }
}

/// What is found at the first `n` of some patterns touches the cursor.
proof fn lemma_patterns_hits_touch(
    cursor: Cursor,
    env: &GlobalEnv,
    patterns: Seq<Pattern>,
    n: nat,
)
    ensures
        all_touch(cursor, cursor.patterns_hits(env, patterns, n)),
    decreases patterns, n,
{
    if 0 < n <= patterns.len() {
        lemma_patterns_hits_touch(cursor, env, patterns, (n - 1) as nat);
        law_pattern_hits_touch(cursor, env, patterns[n - 1]);
        lemma_all_touch_add(
            cursor,
            cursor.patterns_hits(env, patterns, (n - 1) as nat),
            cursor.pattern_hits(env, patterns[n - 1]),
        );
    }
}

/// What is found at a node of an expression touches the cursor, but for the constants at a value and
/// the type arguments of a call of a specification function.
pub proof fn law_node_hits_touch(cursor: Cursor, env: &GlobalEnv, node: ExpData)
    requires
        !(node is Value),
        !(node matches ExpData::Call(loc, op) && op is SpecFunction),
    ensures
        all_touch(cursor, cursor.node_hits(env, node)),
{
    match node {
        ExpData::Call(loc, op) => {
            if let Operation::Pack { ty, fields, tokens } = op {
                if cursor.touches(loc.span) {
                    let n = tokens@.len() as int;
                    law_struct_field_hits_touch(cursor, env, loc, tokens@, fields@, n);
                    lemma_all_touch_add(
                        cursor,
                        known_type_hits(ty, loc.span),
                        cursor.struct_field_hits(env, loc, tokens@, fields@, n),
                    );
                }
            }
        },
        ExpData::Block(pattern) => law_pattern_hits_touch(cursor, env, pattern),
        ExpData::Assign(pattern) => law_pattern_hits_touch(cursor, env, pattern),
        _ => {},
    }
}

/// What is found at the declaration of a field touches the cursor.
pub proof fn law_field_decl_hits_touch(
    cursor: Cursor,
    env: &GlobalEnv,
    loc: Loc,
    fields: Seq<FieldEnv>,
)
    ensures
        all_touch(cursor, cursor.field_decl_hits(env, loc, fields)),
    decreases fields.len(),
{
    if fields.len() > 0 {
        law_field_decl_hits_touch(cursor, env, loc, fields.drop_last());
    }
}

/// Nothing above the first line documents it.
pub proof fn law_first_line_has_no_docs(text: Seq<char>)
    ensures
        documentation(text, 0).len() == 0,
{
}

/// A line above a declaration that is neither empty nor a documentation comment, such as an ordinary
/// comment, leaves it without documentation.
pub proof fn law_other_line_ends_docs(text: Seq<char>, line: u32)
    requires
        line > 0,
        trim(lines(text)[line - 1]).len() > 0,
        !starts_with(trim(lines(text)[line - 1]), "///"@),
    ensures
        documentation(text, line).len() == 0,
{
}

/// An empty line above a declaration does not part it from its documentation.
pub proof fn law_empty_line_keeps_docs(text: Seq<char>, line: u32)
    requires
        line > 0,
        trim(lines(text)[line - 1]).len() == 0,
    ensures
        documentation(text, line) == documentation(text, (line - 1) as u32),
{
    reveal_strlit("///");
}

/// What is declared on the same line of the same file has the same documentation.
pub proof fn law_docs_go_by_line(env: &GlobalEnv, a: Loc, b: Loc)
    requires
        a.file == b.file,
        env.location(a) matches Some(p) && env.location(b) matches Some(q) && p.line == q.line,
    ensures
        documentation_at(env, a) == documentation_at(env, b),
{
}

/// A name without white space is a word, and ends at the first white space.
pub proof fn lemma_word_len(word: Seq<char>, rest: Seq<char>)
    requires
        forall|i: int| 0 <= i < word.len() ==> !is_whitespace(#[trigger] word[i]),
        rest.len() == 0 || is_whitespace(rest[0]),
    ensures
        word_len(word + rest) == word.len(),
    decreases word.len(),
{
    let s = word + rest;
    if word.len() == 0 {
        assert(s =~= rest);
    } else {
        let less = word.drop_first();
        assert forall|i: int| 0 <= i < less.len() implies !is_whitespace(#[trigger] less[i]) by {
            assert(less[i] == word[i + 1]);
        }
        lemma_word_len(less, rest);
        assert(s.drop_first() =~= less + rest);
        assert(s[0] == word[0]);
    }
}

/// A text without the character stays as it is when the character is removed.
proof fn lemma_without(s: Seq<char>, c: char)
    requires
        !s.contains(c),
    ensures
        without(s, c) == s,
    decreases s.len(),
{
    reveal(Seq::filter);
    if s.len() > 0 {
        let less = s.drop_last();
        assert forall|i: int| 0 <= i < less.len() implies less[i] != c by {
            assert(s.contains(s[i]));
        }
        lemma_without(less, c);
        assert(s.contains(s.last()));
        assert(s =~= less.push(s.last()));
    }
}

/// A text that neither begins nor ends with white space has none to trim.
pub proof fn lemma_trim(s: Seq<char>)
    requires
        s.len() > 0,
        !is_whitespace(s[0]),
        !is_whitespace(s.last()),
    ensures
        trim(s) == s,
{
    assert(trim_start(s) == s);
}

/// A word is the only one of its words.
pub proof fn lemma_one_word(word: Seq<char>)
    requires
        word.len() > 0,
        forall|i: int| 0 <= i < word.len() ==> !is_whitespace(#[trigger] word[i]),
    ensures
        words(word) == seq![word],
{
    lemma_word_len(word, seq![]);
    assert(word + seq![] =~= word);
    assert(word.take(word.len() as int) =~= word);
    assert(word.skip(word.len() as int) =~= seq![]);
    assert(words(seq![]) =~= seq![]);
    assert(words(word) =~= seq![word]);
}

/// Two words with a space between them are two words.
proof fn lemma_two_words(a: Seq<char>, b: Seq<char>)
    requires
        a.len() > 0,
        b.len() > 0,
        forall|i: int| 0 <= i < a.len() ==> !is_whitespace(#[trigger] a[i]),
        forall|i: int| 0 <= i < b.len() ==> !is_whitespace(#[trigger] b[i]),
    ensures
        words(a + (seq![' '] + b)) == seq![a, b],
{
    let after = seq![' '] + b;
    let s = a + after;
    lemma_word_len(a, after);
    assert(s[0] == a[0]);
    assert(s.take(a.len() as int) =~= a);
    assert(s.skip(a.len() as int) =~= after);
    assert(after[0] == ' ');
    assert(after.drop_first() =~= b);
    lemma_one_word(b);
    assert(words(after) == seq![b]);
    assert(words(s) =~= seq![a, b]);
}

/// A `friend` declaration befriends the module that it names.
pub proof fn law_friend_is_named(name: Seq<char>)
    requires
        name.len() > 0,
        forall|i: int| 0 <= i < name.len() ==> !is_whitespace(#[trigger] name[i]),
        !name.contains(';'),
    ensures
        friend_name("friend "@ + name + ";"@) == Some(name),
{
    let line = "friend "@ + name + ";"@;
    let keyword = "friend"@;
    let word = name.push(';');
    assert(line =~= keyword + (seq![' '] + word) && keyword.len() == 6 && forall|i: int|
        0 <= i < keyword.len() ==> !is_whitespace(#[trigger] keyword[i])) by {
        reveal_strlit("friend ");
        reveal_strlit("friend");
        reveal_strlit(";");
    }
    assert(line[0] == keyword[0]);
    assert(line.last() == ';');
    lemma_trim(line);
    assert(line.subrange(0, 6) =~= keyword);
    assert forall|i: int| 0 <= i < word.len() implies !is_whitespace(#[trigger] word[i]) by {
        if i < name.len() {
            assert(word[i] == name[i]);
        }
    }
    lemma_two_words(keyword, word);
    assert(without(word, ';') == name) by {
        reveal(Seq::filter);
        assert(word.drop_last() =~= name);
        lemma_without(name, ';');
    }
}

/// Joining a first piece and others is joining it to the others joined.
proof fn lemma_join_first(piece: Seq<char>, pieces: Seq<Seq<char>>, sep: Seq<char>)
    requires
        pieces.len() > 0,
    ensures
        join(seq![piece] + pieces, sep) == piece + sep + join(pieces, sep),
    decreases pieces.len(),
{
    let all = seq![piece] + pieces;
    assert(all.drop_last() =~= seq![piece] + pieces.drop_last());
    assert(all.last() == pieces.last());
    if pieces.len() == 1 {
        assert(pieces.drop_last() =~= seq![]);
        assert(all.drop_last() =~= seq![piece]);
        assert(join(seq![piece], sep) == piece);
    } else {
        lemma_join_first(piece, pieces.drop_last(), sep);
        assert(join(all, sep) =~= piece + sep + join(pieces, sep));
    }
}

/// The first pieces of a path, joined, are a beginning of the path, and all of them are the path: so
/// each module that is shown for a `use` declaration without braces begins the name of the used one.
pub proof fn law_joined_pieces_begin_path(path: Seq<char>, n: int)
    requires
        1 <= n <= segments(path).len(),
    ensures
        join(segments(path).take(n), "::"@).is_prefix_of(path),
        n == segments(path).len() ==> join(segments(path).take(n), "::"@) == path,
    decreases path.len(),
{
    reveal_strlit("::");
    let colons = "::"@;
    assert(colons =~= seq![':', ':']);
    lemma_find(path, seq![':', ':']);
    let pieces = segments(path).take(n);
    match find(path, seq![':', ':']) {
        Some(p) => {
            let rest = path.skip(p + 2);
            assert(path.subrange(p, p + 2) =~= colons);
            assert(path =~= path.take(p) + colons + rest);
            if n == 1 {
                assert(pieces =~= seq![path.take(p)]);
                lemma_segments_nonempty(rest);
                assert(join(pieces, colons) == path.take(p));
            } else {
                law_joined_pieces_begin_path(rest, n - 1);
                let others = segments(rest).take(n - 1);
                assert(pieces =~= seq![path.take(p)] + others);
                lemma_join_first(path.take(p), others, colons);
                let joined = join(others, colons);
                assert(joined =~= rest.take(joined.len() as int));
                let whole = path.take(p) + colons + joined;
                assert(whole =~= path.take(whole.len() as int));
                if n == segments(path).len() {
                    assert(joined == rest);
                }
            }
        },
        None => {
            assert(pieces =~= seq![path]);
            assert(join(pieces, colons) == path);
            assert(path =~= path.take(path.len() as int));
        },
    }
}

} // verus!
