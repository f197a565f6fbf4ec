//! What is shown at `use` and `friend` declarations.

use vstd::prelude::*;
use crate::docs::documentation;
use crate::expr_laws::hovers;
use crate::expr_laws::lemma_first_char;
use crate::expr_laws::starts_at;
use crate::handler::HandlerView;
use crate::item_laws::ends_with_piece;
use crate::item_laws::goes_by;
use crate::item_laws::law_constant_is_found;
use crate::item_laws::law_function_is_found;
use crate::item_laws::law_item_of_the_named_module;
use crate::item_laws::law_last_piece_ends_path;
use crate::item_laws::law_struct_is_found;
use crate::item_laws::no_function;
use crate::item_laws::no_struct;
use crate::items::constant_text;
use crate::items::function_text;
use crate::items::item_details;
use crate::items::item_in_module;
use crate::items::struct_text;
use crate::model::GlobalEnv;
use crate::model::Loc;
use crate::model::UseDecl;
use crate::positions::law_cursor_span_len;
use crate::search::first;
use crate::search::lemma_first;
use crate::source::Span;
use crate::source::line_start;
use crate::text::byte_len;
use crate::text::contains;
use crate::text::find;
use crate::text::join;
use crate::text::lemma_find;
use crate::text::lines;
use crate::text::occurs_at;
use crate::text::segments;
use crate::text::starts_with;
use crate::text::trim;
use crate::text::words;
use crate::text_laws::law_find_first;
use crate::uses::UseTargetView;
use crate::uses::before_colon;
use crate::uses::brace_target;
use crate::uses::colon_positions;
use crate::uses::friend_text;
use crate::uses::module_shown;
use crate::uses::module_text;
use crate::uses::on_keyword;
use crate::uses::shows_module;
use crate::uses::up_to_brace;

verus! {

/// The documentation of what is declared at a place.
pub open spec fn docs_of(env: &GlobalEnv, loc: Loc) -> Seq<char> {
    match starts_at(env, loc) {
        Some(pos) => documentation(env.files@[loc.file as int]@, pos.line),
        None => seq![],
    }
}

/// `text` is `body`, followed by the documentation if there is any.
pub open spec fn documented(text: Seq<char>, body: Seq<char>, docs: Seq<char>) -> bool {
    if docs.len() == 0 {
        text == body
    } else {
        text == body + "\n\n**Documentation:**\n"@ + docs
    }
}

/// A text that speaks of the module `name`, or shows a module that is used or befriended.
pub open spec fn speaks_of_module(text: Seq<char>, name: Seq<char>) -> bool {
    ||| contains(text, "module "@ + name)
    ||| contains(text, "// Module contents"@)
    ||| contains(text, "// Friend module contents"@)
}

/// `r` is `v` with a span that is new and, unless a text speaks of the module already, a text that
/// shows it: a heading with its name, a comment on what it is, and its documentation.
pub open spec fn adds_module(
    v: HandlerView,
    r: HandlerView,
    span: Span,
    name: Seq<char>,
    comment: Seq<char>,
    docs: Seq<char>,
) -> bool {
    let body = "```move\nmodule "@ + name + " {\n    // "@ + comment + "\n}\n```"@;
    let spoken_of = exists|i: int|
        0 <= i < v.texts.len() && speaks_of_module(#[trigger] v.texts[i], name);
    &&& r.cursor == v.cursor
    &&& v.spans.contains(span) ==> r.spans == v.spans && r.texts == v.texts
    &&& !v.spans.contains(span) ==> {
        &&& r.spans == v.spans.push(span)
        &&& spoken_of ==> r.texts == v.texts
        &&& !spoken_of ==> {
            &&& r.texts.len() == v.texts.len() + 1
            &&& r.texts.drop_last() == v.texts
            &&& documented(r.texts.last(), body, docs)
        }
    }
}

/// A `use` declaration starts on another line than that of the cursor.
pub open spec fn is_elsewhere(v: HandlerView, env: &GlobalEnv, decl: UseDecl) -> bool {
    &&& starts_at(env, decl.loc) matches Some(pos)
    &&& pos.line != v.cursor.line
}

/// Number `d` is the first `use` declaration of the target module on the line of the cursor, but for
/// such without members over which the cursor does not hover.
pub open spec fn first_on_line(v: HandlerView, env: &GlobalEnv, d: int) -> bool {
    let uses = env.modules@[v.cursor.module as int].use_decls@;
    &&& 0 <= d < uses.len()
    &&& starts_at(env, uses[d].loc) matches Some(pos) ==> pos.line == v.cursor.line
    &&& forall|j: int|
        0 <= j < d ==> is_elsewhere(v, env, #[trigger] uses[j]) || (uses[j].members@.len() == 0
            && !hovers(v.cursor, env, uses[j].loc))
}

/// The cursor hovers over member `m` of a `use` declaration, and over none before it.
pub open spec fn over_member(v: HandlerView, env: &GlobalEnv, decl: UseDecl, m: int) -> bool {
    &&& 0 <= m < decl.members@.len()
    &&& hovers(v.cursor, env, decl.members@[m].loc)
    &&& forall|j: int| 0 <= j < m ==> !hovers(v.cursor, env, (#[trigger] decl.members@[j]).loc)
}

/// The cursor hovers over no member of a `use` declaration that has some.
pub open spec fn over_no_member(v: HandlerView, env: &GlobalEnv, decl: UseDecl) -> bool {
    &&& decl.members@.len() > 0
    &&& forall|j: int|
        0 <= j < decl.members@.len() ==> !hovers(v.cursor, env, (#[trigger] decl.members@[j]).loc)
}

proof fn lemma_first_use(v: HandlerView, env: &GlobalEnv, d: int)
    requires
        first_on_line(v, env, d),
        v.cursor.use_target(
            env,
            env.source(v.target(env).loc.file),
            v.target(env).use_decls@[d],
        ) is Some,
    ensures
        v.after_use_decl(env) == v.show_use(
            env,
            v.cursor.use_target(
                env,
                env.source(v.target(env).loc.file),
                v.target(env).use_decls@[d],
            )->0,
        ),
{
    let module = v.target(env);
    let p = v.cursor.use_under_cursor(env, module);
    let n = module.use_decls@.len();
    lemma_first(p, n);
    assert(p(d));
    let i = first(p, n)->0;
    if i < d {
        let decl = module.use_decls@[i];
        assert(is_elsewhere(v, env, decl) || (decl.members@.len() == 0 && !hovers(
            v.cursor,
            env,
            decl.loc,
        )));
    }
    assert(i == d);
}

proof fn lemma_over_member(v: HandlerView, env: &GlobalEnv, decl: UseDecl, m: int)
    requires
        over_member(v, env, decl, m),
    ensures
        first(v.cursor.member_under_cursor(env, decl), decl.members@.len()) == Some(m),
{
    let p = v.cursor.member_under_cursor(env, decl);
    lemma_first(p, decl.members@.len());
    assert(p(m));
    let i = first(p, decl.members@.len())->0;
    if i < m {
        assert(!hovers(v.cursor, env, decl.members@[i].loc));
    }
}

proof fn lemma_over_no_member(v: HandlerView, env: &GlobalEnv, decl: UseDecl)
    requires
        over_no_member(v, env, decl),
    ensures
        first(v.cursor.member_under_cursor(env, decl), decl.members@.len()) is None,
{
    let p = v.cursor.member_under_cursor(env, decl);
    lemma_first(p, decl.members@.len());
    if let Some(i) = first(p, decl.members@.len()) {
        assert(!hovers(v.cursor, env, decl.members@[i].loc));
    }
}

proof fn lemma_adds_module(v: HandlerView, env: &GlobalEnv, name: Seq<char>, loc: Loc)
    ensures
        adds_module(
            v,
            v.show_use(env, UseTargetView::Module { name, loc }),
            loc.span,
            name,
            "Module contents"@,
            docs_of(env, loc),
        ),
{
    reveal_strlit(" {\n    // Module contents\n}\n```");
    reveal_strlit(" {\n    // ");
    reveal_strlit("Module contents");
    reveal_strlit("\n}\n```");
    let body = "```move\nmodule "@ + name + " {\n    // "@ + "Module contents"@ + "\n}\n```"@;
    assert(module_text(name) =~= body);
    let r = v.show_use(env, UseTargetView::Module { name, loc });
    let spoken_of = exists|i: int|
        0 <= i < v.texts.len() && speaks_of_module(#[trigger] v.texts[i], name);
    assert(spoken_of <==> module_shown(v.texts, name)) by {
        if spoken_of {
            let i = choose|i: int|
                0 <= i < v.texts.len() && speaks_of_module(#[trigger] v.texts[i], name);
            assert(shows_module(v.texts[i], name));
        }
        if module_shown(v.texts, name) {
            let i = choose|i: int|
                0 <= i < v.texts.len() && shows_module(#[trigger] v.texts[i], name);
            assert(speaks_of_module(v.texts[i], name));
        }
    }
    if !v.spans.contains(loc.span) && !spoken_of {
        assert(r.texts.drop_last() =~= v.texts);
    }
}

/// Over a member of a `use` declaration, what the used module has for that member is shown with its
/// documentation, if no module before the used one has the last piece of its name in its own.
pub proof fn law_use_of_a_member(
    v: HandlerView,
    env: &GlobalEnv,
    d: int,
    m: int,
    k: int,
    last: Seq<char>,
)
    requires
        first_on_line(v, env, d),
        ({
            let decl = env.modules@[v.cursor.module as int].use_decls@[d];
            &&& over_member(v, env, decl, m)
            &&& 0 <= k < env.modules@.len()
            &&& env.modules@[k].full_name@ == decl.module_name@
            &&& ends_with_piece(decl.module_name@, last)
            &&& item_in_module(env.modules@[k], decl.members@[m].name@) is Some
            &&& forall|j: int|
                0 <= j < k ==> !contains((#[trigger] env.modules@[j]).full_name@, last)
            &&& !v.spans.contains(decl.members@[m].loc.span)
        }),
    ensures
        ({
            let member = env.modules@[v.cursor.module as int].use_decls@[d].members@[m];
            let r = v.after_use_decl(env);
            &&& r.spans == v.spans.push(member.loc.span)
            &&& r.texts.len() == v.texts.len() + 1
            &&& r.texts.drop_last() == v.texts
            &&& documented(
                r.texts.last(),
                item_in_module(env.modules@[k], member.name@)->0,
                docs_of(env, member.loc),
            )
        }),
{
    let decl = v.target(env).use_decls@[d];
    let member = decl.members@[m];
    lemma_over_member(v, env, decl, m);
    law_last_piece_ends_path(decl.module_name@, last);
    lemma_first_use(v, env, d);
    law_item_of_the_named_module(env.modules@, k, last, member.name@);
    let r = v.after_use_decl(env);
    assert(r.texts.drop_last() =~= v.texts);
}

/// Over a member of a `use` declaration that is a function of the used module, that function is
/// shown, under the full name of the module.
pub proof fn law_use_of_a_function(
    v: HandlerView,
    env: &GlobalEnv,
    d: int,
    m: int,
    k: int,
    f: int,
    last: Seq<char>,
)
    requires
        first_on_line(v, env, d),
        ({
            let decl = env.modules@[v.cursor.module as int].use_decls@[d];
            let used = env.modules@[k];
            let name = decl.members@[m].name@;
            &&& over_member(v, env, decl, m)
            &&& 0 <= k < env.modules@.len()
            &&& used.full_name@ == decl.module_name@
            &&& ends_with_piece(decl.module_name@, last)
            &&& 0 <= f < used.functions@.len()
            &&& goes_by(used.functions@[f].name@, used.functions@[f].full_name@, name)
            &&& forall|j: int|
                0 <= j < f ==> !goes_by(
                    (#[trigger] used.functions@[j]).name@,
                    used.functions@[j].full_name@,
                    name,
                )
            &&& forall|j: int|
                0 <= j < k ==> !contains((#[trigger] env.modules@[j]).full_name@, last)
            &&& !v.spans.contains(decl.members@[m].loc.span)
        }),
    ensures
        ({
            let decl = env.modules@[v.cursor.module as int].use_decls@[d];
            let r = v.after_use_decl(env);
            &&& r.spans == v.spans.push(decl.members@[m].loc.span)
            &&& r.texts.len() == v.texts.len() + 1
            &&& documented(
                r.texts.last(),
                decl.module_name@ + "\n"@ + function_text(env.modules@[k].functions@[f]),
                docs_of(env, decl.members@[m].loc),
            )
        }),
{
    let decl = v.target(env).use_decls@[d];
    law_function_is_found(env.modules@[k], f, decl.members@[m].name@);
    law_use_of_a_member(v, env, d, m, k, last);
}

/// Over a member of a `use` declaration that is a struct of the used module, that struct is shown,
/// under the full name of the module.
pub proof fn law_use_of_a_struct(
    v: HandlerView,
    env: &GlobalEnv,
    d: int,
    m: int,
    k: int,
    f: int,
    last: Seq<char>,
)
    requires
        first_on_line(v, env, d),
        ({
            let decl = env.modules@[v.cursor.module as int].use_decls@[d];
            let used = env.modules@[k];
            let name = decl.members@[m].name@;
            &&& over_member(v, env, decl, m)
            &&& 0 <= k < env.modules@.len()
            &&& used.full_name@ == decl.module_name@
            &&& ends_with_piece(decl.module_name@, last)
            &&& no_function(used, name)
            &&& 0 <= f < used.structs@.len()
            &&& goes_by(used.structs@[f].name@, used.structs@[f].full_name@, name)
            &&& forall|j: int|
                0 <= j < f ==> !goes_by(
                    (#[trigger] used.structs@[j]).name@,
                    used.structs@[j].full_name@,
                    name,
                )
            &&& forall|j: int|
                0 <= j < k ==> !contains((#[trigger] env.modules@[j]).full_name@, last)
            &&& !v.spans.contains(decl.members@[m].loc.span)
        }),
    ensures
        ({
            let decl = env.modules@[v.cursor.module as int].use_decls@[d];
            let r = v.after_use_decl(env);
            &&& r.spans == v.spans.push(decl.members@[m].loc.span)
            &&& r.texts.len() == v.texts.len() + 1
            &&& documented(
                r.texts.last(),
                decl.module_name@ + "\n"@ + struct_text(env.modules@[k].structs@[f]),
                docs_of(env, decl.members@[m].loc),
            )
        }),
{
    let decl = v.target(env).use_decls@[d];
    law_struct_is_found(env.modules@[k], f, decl.members@[m].name@);
    law_use_of_a_member(v, env, d, m, k, last);
}

/// Over a member of a `use` declaration that is a constant of the used module, that constant is
/// shown, under the full name of the module.
pub proof fn law_use_of_a_constant(
    v: HandlerView,
    env: &GlobalEnv,
    d: int,
    m: int,
    k: int,
    f: int,
    last: Seq<char>,
)
    requires
        first_on_line(v, env, d),
        ({
            let decl = env.modules@[v.cursor.module as int].use_decls@[d];
            let used = env.modules@[k];
            let name = decl.members@[m].name@;
            &&& over_member(v, env, decl, m)
            &&& 0 <= k < env.modules@.len()
            &&& used.full_name@ == decl.module_name@
            &&& ends_with_piece(decl.module_name@, last)
            &&& no_function(used, name)
            &&& no_struct(used, name)
            &&& 0 <= f < used.constants@.len()
            &&& goes_by(used.constants@[f].name@, used.full_name@, name)
            &&& forall|j: int|
                0 <= j < f ==> !goes_by(
                    (#[trigger] used.constants@[j]).name@,
                    used.full_name@,
                    name,
                )
            &&& forall|j: int|
                0 <= j < k ==> !contains((#[trigger] env.modules@[j]).full_name@, last)
            &&& !v.spans.contains(decl.members@[m].loc.span)
        }),
    ensures
        ({
            let decl = env.modules@[v.cursor.module as int].use_decls@[d];
            let r = v.after_use_decl(env);
            &&& r.spans == v.spans.push(decl.members@[m].loc.span)
            &&& r.texts.len() == v.texts.len() + 1
            &&& documented(
                r.texts.last(),
                decl.module_name@ + "\n"@ + constant_text(env.modules@[k].constants@[f]),
                docs_of(env, decl.members@[m].loc),
            )
        }),
{
    let decl = v.target(env).use_decls@[d];
    law_constant_is_found(env.modules@[k], f, decl.members@[m].name@);
    law_use_of_a_member(v, env, d, m, k, last);
}

/// Over a member of a `use` declaration, what is shown is looked up under the last piece of the name
/// of the used module, whether or not there is such a module.
pub proof fn law_use_of_any_member(
    v: HandlerView,
    env: &GlobalEnv,
    d: int,
    m: int,
    last: Seq<char>,
)
    requires
        first_on_line(v, env, d),
        over_member(v, env, env.modules@[v.cursor.module as int].use_decls@[d], m),
        ends_with_piece(
            env.modules@[v.cursor.module as int].use_decls@[d].module_name@,
            last,
        ),
    ensures
        ({
            let member = env.modules@[v.cursor.module as int].use_decls@[d].members@[m];
            let r = v.after_use_decl(env);
            &&& v.spans.contains(member.loc.span) ==> r == v
            &&& !v.spans.contains(member.loc.span) ==> {
                &&& r.spans == v.spans.push(member.loc.span)
                &&& r.texts.len() == v.texts.len() + 1
                &&& r.texts.drop_last() == v.texts
                &&& documented(
                    r.texts.last(),
                    item_details(env.modules@, last, member.name@),
                    docs_of(env, member.loc),
                )
            }
        }),
{
    let decl = v.target(env).use_decls@[d];
    let member = decl.members@[m];
    lemma_over_member(v, env, decl, m);
    law_last_piece_ends_path(decl.module_name@, last);
    lemma_first_use(v, env, d);
    let r = v.after_use_decl(env);
    if !v.spans.contains(member.loc.span) {
        assert(r.texts.drop_last() =~= v.texts);
    }
}

/// Over a `use` declaration without members, the used module is shown.
pub proof fn law_use_of_a_module(v: HandlerView, env: &GlobalEnv, d: int)
    requires
        first_on_line(v, env, d),
        env.modules@[v.cursor.module as int].use_decls@[d].members@.len() == 0,
        hovers(v.cursor, env, env.modules@[v.cursor.module as int].use_decls@[d].loc),
    ensures
        ({
            let decl = env.modules@[v.cursor.module as int].use_decls@[d];
            adds_module(
                v,
                v.after_use_decl(env),
                decl.loc.span,
                decl.module_name@,
                "Module contents"@,
                docs_of(env, decl.loc),
            )
        }),
{
    let decl = v.target(env).use_decls@[d];
    lemma_first_use(v, env, d);
    lemma_adds_module(v, env, decl.module_name@, decl.loc);
}

/// The line of the cursor in the file of the target module, which is `before` and `{` and `after`.
pub open spec fn braced_line(
    v: HandlerView,
    env: &GlobalEnv,
    before: Seq<char>,
    after: Seq<char>,
) -> bool {
    let ls = lines(env.files@[env.modules@[v.cursor.module as int].loc.file as int]@);
    &&& v.cursor.line < ls.len()
    &&& ls[v.cursor.line as int] == before + (seq!['{'] + after)
    &&& !before.contains('{')
}

proof fn lemma_braced_line(
    v: HandlerView,
    env: &GlobalEnv,
    decl: UseDecl,
    before: Seq<char>,
    after: Seq<char>,
)
    requires
        braced_line(v, env, before, after),
        over_no_member(v, env, decl),
    ensures
        ({
            let text = env.source(v.target(env).loc.file);
            let base = byte_len(before) + 1;
            let scanned = after + up_to_brace(lines(text), v.cursor.line as int);
            let col = v.cursor.col;
            &&& v.cursor.use_target(env, text, decl) == brace_target(
                lines(text),
                v.cursor.line,
                before.len() as int,
                decl,
                col,
            )
            &&& v.cursor.use_target(env, text, decl) == if col < base || on_keyword(
                scanned,
                base,
                "Self"@,
                col,
            ) {
                Some(UseTargetView::Module { name: decl.module_name@, loc: decl.loc })
            } else if on_keyword(scanned, base, "as"@, col) {
                Some(UseTargetView::Item { module: decl.module_name@, item: "as"@, loc: decl.loc })
            } else {
                None
            }
        }),
{
    lemma_over_no_member(v, env, decl);
    let text = env.source(v.target(env).loc.file);
    let line = lines(text)[v.cursor.line as int];
    let tail = seq!['{'] + after;
    lemma_first_char(before, tail, '{');
    assert(line.take(before.len() as int) =~= before);
    assert(line.skip(before.len() + 1int) =~= after);
}

/// Before the brace of a `use` declaration, and on it, the used module is shown.
pub proof fn law_use_before_the_brace(
    v: HandlerView,
    env: &GlobalEnv,
    d: int,
    before: Seq<char>,
    after: Seq<char>,
)
    requires
        first_on_line(v, env, d),
        over_no_member(v, env, env.modules@[v.cursor.module as int].use_decls@[d]),
        braced_line(v, env, before, after),
        v.cursor.col <= byte_len(before),
    ensures
        ({
            let decl = env.modules@[v.cursor.module as int].use_decls@[d];
            adds_module(
                v,
                v.after_use_decl(env),
                decl.loc.span,
                decl.module_name@,
                "Module contents"@,
                docs_of(env, decl.loc),
            )
        }),
{
    let decl = v.target(env).use_decls@[d];
    lemma_braced_line(v, env, decl, before, after);
    lemma_first_use(v, env, d);
    lemma_adds_module(v, env, decl.module_name@, decl.loc);
}

/// `word` stands first in `text` behind `left`, and the cursor stands in it or at one of its ends, if
/// `text` starts at byte `base`.
pub open spec fn over_word(
    text: Seq<char>,
    base: int,
    left: Seq<char>,
    word: Seq<char>,
    col: u32,
) -> bool {
    &&& word.len() > 0
    &&& (left + word).is_prefix_of(text)
    &&& !contains(left + word.drop_last(), word)
    &&& base + byte_len(left) <= col
    &&& col <= base + byte_len(left) + byte_len(word)
}

proof fn lemma_over_word(
    text: Seq<char>,
    more: Seq<char>,
    base: nat,
    left: Seq<char>,
    word: Seq<char>,
    col: u32,
)
    requires
        over_word(text, base as int, left, word, col),
    ensures
        on_keyword(text + more, base, word, col),
{
    let rest = text.skip((left.len() + word.len()) as int) + more;
    law_find_first(left, word, rest);
    assert(text + more =~= left + word + rest) by {
        assert((left + word) =~= text.take((left.len() + word.len()) as int));
    }
    assert((text + more).take(left.len() as int) =~= left);
}

/// On the first `Self` behind the brace of a `use` declaration, the used module is shown.
pub proof fn law_use_of_self(
    v: HandlerView,
    env: &GlobalEnv,
    d: int,
    before: Seq<char>,
    after: Seq<char>,
    left: Seq<char>,
)
    requires
        first_on_line(v, env, d),
        over_no_member(v, env, env.modules@[v.cursor.module as int].use_decls@[d]),
        braced_line(v, env, before, after),
        over_word(after, byte_len(before) + 1int, left, "Self"@, v.cursor.col),
    ensures
        ({
            let decl = env.modules@[v.cursor.module as int].use_decls@[d];
            adds_module(
                v,
                v.after_use_decl(env),
                decl.loc.span,
                decl.module_name@,
                "Module contents"@,
                docs_of(env, decl.loc),
            )
        }),
{
    let decl = v.target(env).use_decls@[d];
    lemma_braced_line(v, env, decl, before, after);
    let text = env.source(v.target(env).loc.file);
    let more = up_to_brace(lines(text), v.cursor.line as int);
    lemma_over_word(after, more, byte_len(before) + 1, left, "Self"@, v.cursor.col);
    lemma_first_use(v, env, d);
    lemma_adds_module(v, env, decl.module_name@, decl.loc);
}

/// On the first `as` behind the brace of a `use` declaration, with `Self` before it or nowhere on the
/// line, that word is looked up in the used module as if it were a member.
pub proof fn law_use_of_as(
    v: HandlerView,
    env: &GlobalEnv,
    d: int,
    before: Seq<char>,
    after: Seq<char>,
    left: Seq<char>,
)
    requires
        first_on_line(v, env, d),
        over_no_member(v, env, env.modules@[v.cursor.module as int].use_decls@[d]),
        braced_line(v, env, before, after),
        over_word(after, byte_len(before) + 1int, left, "as"@, v.cursor.col),
        starts_with(after, "Self"@) || {
            let text = env.files@[env.modules@[v.cursor.module as int].loc.file as int]@;
            !contains(after + up_to_brace(lines(text), v.cursor.line as int), "Self"@)
        },
        starts_with(after, "Self"@) ==> v.cursor.col > byte_len(before) + 5,
    ensures
        ({
            let decl = env.modules@[v.cursor.module as int].use_decls@[d];
            let r = v.after_use_decl(env);
            &&& v.spans.contains(decl.loc.span) ==> r == v
            &&& !v.spans.contains(decl.loc.span) ==> {
                &&& r.spans == v.spans.push(decl.loc.span)
                &&& r.texts.len() == v.texts.len() + 1
                &&& documented(
                    r.texts.last(),
                    item_details(env.modules@, decl.module_name@, "as"@),
                    docs_of(env, decl.loc),
                )
            }
        }),
{
    let decl = v.target(env).use_decls@[d];
    lemma_braced_line(v, env, decl, before, after);
    let text = env.source(v.target(env).loc.file);
    let more = up_to_brace(lines(text), v.cursor.line as int);
    let base = byte_len(before) + 1;
    lemma_over_word(after, more, base, left, "as"@, v.cursor.col);
    lemma_find(after + more, "Self"@);
    if starts_with(after, "Self"@) {
        assert((after + more).subrange(0, "Self"@.len() as int) =~= after.subrange(
            0,
            "Self"@.len() as int,
        ));
        assert(occurs_at(after + more, "Self"@, 0));
        assert(find(after + more, "Self"@) == Some(0int));
        assert((after + more).take(0) =~= seq![]);
        assert(byte_len(seq![]) == 0);
        assert(byte_len("Self"@) == 4) by {
            reveal_strlit("Self");
            assert(vstd::utf8::is_ascii_chars("Self"@));
            vstd::utf8::is_ascii_chars_encode_utf8("Self"@);
        }
    }
    lemma_first_use(v, env, d);
}

/// What is scanned behind a brace ends with the next closing brace, on the same line or on a later
/// one.
pub proof fn law_scan_ends_at_brace(ls: Seq<Seq<char>>, i: int, before: Seq<char>, after: Seq<char>)
    requires
        0 <= i < ls.len(),
        !before.contains('}'),
    ensures
        ls[i] == before + (seq!['}'] + after) ==> up_to_brace(ls, i) == before,
        ls[i] == before ==> up_to_brace(ls, i) == before + seq!['\n'] + up_to_brace(ls, i + 1),
        up_to_brace(ls, ls.len() as int).len() == 0,
{
    let tail = seq!['}'] + after;
    if ls[i] == before + tail {
        lemma_first_char(before, tail, '}');
        assert(ls[i].take(before.len() as int) =~= before);
    }
    if ls[i] == before {
        lemma_find(before, seq!['}']);
        if let Some(k) = find(before, seq!['}']) {
            assert(before.subrange(k, k + 1)[0] == '}');
            assert(before.contains(before[k]));
        }
    }
}

/// The number of colons in a text.
pub open spec fn colons(s: Seq<char>) -> nat
    decreases s.len(),
{
    if s.len() == 0 {
        0
    } else {
        colons(s.drop_last()) + if s.last() == ':' {
            1nat
        } else {
            0nat
        }
    }
}

proof fn lemma_colon_positions(line: Seq<char>, left: Seq<char>)
    requires
        left.len() < line.len(),
        left == line.take(left.len() as int),
        line[left.len() as int] == ':',
    ensures
        colon_positions(line).len() == colons(line),
        colons(left) < colons(line),
        colon_positions(line)[colons(left) as int] == byte_len(left),
    decreases line.len(),
{
    let less = line.drop_last();
    lemma_colon_count(less);
    if left.len() == less.len() {
        assert(left =~= less);
    } else {
        assert(left =~= less.take(left.len() as int));
        lemma_colon_positions(less, left);
    }
}

proof fn lemma_colon_count(line: Seq<char>)
    ensures
        colon_positions(line).len() == colons(line),
    decreases line.len(),
{
    if line.len() > 0 {
        lemma_colon_count(line.drop_last());
    }
}

proof fn lemma_colon_at(line: Seq<char>, i: int)
    requires
        0 <= i < colon_positions(line).len(),
    ensures
        exists|n: int|
            {
                &&& 0 <= n < line.len()
                &&& #[trigger] line[n] == ':'
                &&& colons(line.take(n)) == i
                &&& colon_positions(line)[i] == byte_len(line.take(n))
            },
    decreases line.len(),
{
    if line.len() > 0 {
        let less = line.drop_last();
        lemma_colon_count(less);
        if line.last() == ':' && i == colon_positions(less).len() {
            let n = line.len() - 1;
            assert(line.take(n) =~= less);
            assert(line[n] == ':');
        } else {
            lemma_colon_at(less, i);
            let n = choose|n: int|
                {
                    &&& 0 <= n < less.len()
                    &&& #[trigger] less[n] == ':'
                    &&& colons(less.take(n)) == i
                    &&& colon_positions(less)[i] == byte_len(less.take(n))
                };
            assert(line.take(n) =~= less.take(n));
            assert(line[n] == ':');
        }
    }
}

/// In a `use` declaration without a brace, with the cursor before or on a colon of its line and behind
/// all colons before that one, the module is shown that is made of the first pieces of the name of the
/// used one: one more than there are colons before.
pub proof fn law_use_of_a_piece(
    v: HandlerView,
    env: &GlobalEnv,
    d: int,
    line: Seq<char>,
    left: Seq<char>,
)
    requires
        first_on_line(v, env, d),
        over_no_member(v, env, env.modules@[v.cursor.module as int].use_decls@[d]),
        ({
            let ls = lines(env.files@[env.modules@[v.cursor.module as int].loc.file as int]@);
            &&& v.cursor.line < ls.len()
            &&& ls[v.cursor.line as int] == line
        }),
        !line.contains('{'),
        left.len() < line.len(),
        left == line.take(left.len() as int),
        line[left.len() as int] == ':',
        v.cursor.col <= byte_len(left),
        forall|n: int| 0 <= n < left.len() && #[trigger] line[n] == ':' ==> byte_len(line.take(n))
            < v.cursor.col,
        colons(left) < segments(
            env.modules@[v.cursor.module as int].use_decls@[d].module_name@,
        ).len(),
    ensures
        ({
            let decl = env.modules@[v.cursor.module as int].use_decls@[d];
            let pieces = segments(decl.module_name@).take(colons(left) + 1int);
            adds_module(
                v,
                v.after_use_decl(env),
                decl.loc.span,
                join(pieces, "::"@),
                "Module contents"@,
                docs_of(env, decl.loc),
            )
        }),
{
    let decl = v.target(env).use_decls@[d];
    let parts = segments(decl.module_name@);
    let found = colon_positions(line);
    let i = colons(left) as int;
    lemma_over_no_member(v, env, decl);
    lemma_find(line, seq!['{']);
    if let Some(k) = find(line, seq!['{']) {
        assert(line.subrange(k, k + 1)[0] == '{');
        assert(line.contains(line[k]));
    }
    lemma_colon_positions(line, left);
    let p = before_colon(found, v.cursor.col);
    let n = crate::uses::min(found.len(), parts.len());
    lemma_first(p, n);
    assert(p(i));
    let k = first(p, n)->0;
    if k < i {
        lemma_colon_at(line, k);
        let q = choose|q: int|
            {
                &&& 0 <= q < line.len()
                &&& #[trigger] line[q] == ':'
                &&& colons(line.take(q)) == k
                &&& found[k] == byte_len(line.take(q))
            };
        if q >= left.len() {
            assert(left =~= line.take(q).take(left.len() as int));
            lemma_colons_grow(line.take(q), left);
        }
        assert(q < left.len());
    }
    assert(k == i);
    lemma_first_use(v, env, d);
    lemma_adds_module(v, env, join(parts.take(i + 1), "::"@), decl.loc);
}

proof fn lemma_colons_grow(longer: Seq<char>, shorter: Seq<char>)
    requires
        shorter.len() <= longer.len(),
        shorter == longer.take(shorter.len() as int),
    ensures
        colons(shorter) <= colons(longer),
    decreases longer.len(),
{
    if shorter.len() == longer.len() {
        assert(shorter =~= longer);
    } else {
        assert(shorter =~= longer.drop_last().take(shorter.len() as int));
        lemma_colons_grow(longer.drop_last(), shorter);
    }
}

/// All `use` declarations of the target module start on other lines than that of the cursor.
pub open spec fn no_use_on_line(v: HandlerView, env: &GlobalEnv) -> bool {
    let uses = env.modules@[v.cursor.module as int].use_decls@;
    forall|j: int|
        0 <= j < uses.len() ==> {
            &&& starts_at(env, (#[trigger] uses[j]).loc) matches Some(pos)
            &&& pos.line != v.cursor.line
        }
}

/// A `use` declaration starts at most two lines from the cursor.
pub open spec fn is_near(v: HandlerView, env: &GlobalEnv, decl: UseDecl) -> bool {
    &&& starts_at(env, decl.loc) matches Some(pos)
    &&& pos.line <= v.cursor.line + 2
    &&& v.cursor.line <= pos.line + 2
}

proof fn lemma_no_use_on_line(v: HandlerView, env: &GlobalEnv)
    requires
        no_use_on_line(v, env),
    ensures
        first(
            v.cursor.use_under_cursor(env, v.target(env)),
            v.target(env).use_decls@.len(),
        ) is None,
{
    let module = v.target(env);
    let p = v.cursor.use_under_cursor(env, module);
    lemma_first(p, module.use_decls@.len());
    if let Some(i) = first(p, module.use_decls@.len()) {
        assert(starts_at(env, module.use_decls@[i].loc) is Some);
    }
}

/// With no `use` declaration on the line of the cursor, the module of the first one nearby with members
/// is shown, without a place.
pub proof fn law_use_nearby(v: HandlerView, env: &GlobalEnv, d: int)
    requires
        no_use_on_line(v, env),
        ({
            let uses = env.modules@[v.cursor.module as int].use_decls@;
            &&& 0 <= d < uses.len()
            &&& is_near(v, env, uses[d])
            &&& uses[d].members@.len() > 0
            &&& forall|j: int|
                0 <= j < d ==> !is_near(v, env, #[trigger] uses[j]) || uses[j].members@.len() == 0
        }),
    ensures
        ({
            let decl = env.modules@[v.cursor.module as int].use_decls@[d];
            let r = v.after_use_decl(env);
            &&& r.spans == v.spans
            &&& r.cursor == v.cursor
            &&& r.texts == v.texts.push(
                "```move\nmodule "@ + decl.module_name@ + " {\n    // Module contents\n}\n```"@,
            )
        }),
{
    lemma_no_use_on_line(v, env);
    let module = v.target(env);
    let p = v.cursor.use_nearby(env, module);
    lemma_first(p, module.use_decls@.len());
    assert(p(d));
    let i = first(p, module.use_decls@.len())->0;
    if i < d {
        assert(!is_near(v, env, module.use_decls@[i]) || module.use_decls@[i].members@.len() == 0);
    }
    assert(i == d);
}

/// With no `use` declaration on the line of the cursor, and none with members nearby, nothing is
/// shown.
pub proof fn law_no_use(v: HandlerView, env: &GlobalEnv)
    requires
        no_use_on_line(v, env),
        ({
            let uses = env.modules@[v.cursor.module as int].use_decls@;
            forall|j: int|
                0 <= j < uses.len() ==> !is_near(v, env, #[trigger] uses[j])
                    || uses[j].members@.len() == 0
        }),
    ensures
        v.after_use_decl(env) == v,
{
    lemma_no_use_on_line(v, env);
    let module = v.target(env);
    let p = v.cursor.use_nearby(env, module);
    lemma_first(p, module.use_decls@.len());
    if let Some(i) = first(p, module.use_decls@.len()) {
        assert(!is_near(v, env, module.use_decls@[i]) || module.use_decls@[i].members@.len() == 0);
    }
}

/// Of the `use` declarations of the target module only number `d` is not on another line than the
/// cursor.
pub open spec fn only_on_line(v: HandlerView, env: &GlobalEnv, d: int) -> bool {
    let uses = env.modules@[v.cursor.module as int].use_decls@;
    &&& 0 <= d < uses.len()
    &&& forall|j: int|
        0 <= j < uses.len() && j != d ==> {
            &&& starts_at(env, (#[trigger] uses[j]).loc) matches Some(pos)
            &&& pos.line != v.cursor.line
        }
}

proof fn lemma_no_target(v: HandlerView, env: &GlobalEnv, d: int)
    requires
        only_on_line(v, env, d),
        v.cursor.use_target(
            env,
            env.source(v.target(env).loc.file),
            v.target(env).use_decls@[d],
        ) is None,
    ensures
        v.after_use_decl(env).spans == v.spans,
{
    let module = v.target(env);
    let p = v.cursor.use_under_cursor(env, module);
    lemma_first(p, module.use_decls@.len());
    if let Some(i) = first(p, module.use_decls@.len()) {
        assert(i != d);
        assert(starts_at(env, module.use_decls@[i].loc) is Some);
    }
}

/// A `use` declaration without members over which the cursor does not hover names nothing there.
pub proof fn law_use_of_a_module_elsewhere(v: HandlerView, env: &GlobalEnv, d: int)
    requires
        only_on_line(v, env, d),
        env.modules@[v.cursor.module as int].use_decls@[d].members@.len() == 0,
        !hovers(v.cursor, env, env.modules@[v.cursor.module as int].use_decls@[d].loc),
    ensures
        v.after_use_decl(env).spans == v.spans,
{
    lemma_no_target(v, env, d);
}

/// `word` does not stand in `text`, or it stands first behind `left` and the cursor stands neither in
/// it nor at its ends, if `text` starts at byte `base`.
pub open spec fn clear_of_word(
    text: Seq<char>,
    base: int,
    left: Seq<char>,
    word: Seq<char>,
    col: u32,
) -> bool {
    ||| !contains(text, word)
    ||| {
        &&& word.len() > 0
        &&& (left + word).is_prefix_of(text)
        &&& !contains(left + word.drop_last(), word)
        &&& col < base + byte_len(left) || col > base + byte_len(left) + byte_len(word)
    }
}

proof fn lemma_clear_of_word(
    text: Seq<char>,
    base: nat,
    left: Seq<char>,
    word: Seq<char>,
    col: u32,
)
    requires
        clear_of_word(text, base as int, left, word, col),
    ensures
        !on_keyword(text, base, word, col),
{
    lemma_find(text, word);
    if contains(text, word) {
        let rest = text.skip((left.len() + word.len()) as int);
        law_find_first(left, word, rest);
        assert(text =~= left + word + rest) by {
            assert((left + word) =~= text.take((left.len() + word.len()) as int));
        }
        assert(text.take(left.len() as int) =~= left);
    }
}

/// Behind the brace of a `use` declaration, over no member and on none of the words `Self` and `as`,
/// nothing is named.
pub proof fn law_use_between_the_members(
    v: HandlerView,
    env: &GlobalEnv,
    d: int,
    before: Seq<char>,
    after: Seq<char>,
    left: Seq<char>,
    other: Seq<char>,
)
    requires
        only_on_line(v, env, d),
        over_no_member(v, env, env.modules@[v.cursor.module as int].use_decls@[d]),
        braced_line(v, env, before, after),
        v.cursor.col > byte_len(before),
        ({
            let text = env.files@[env.modules@[v.cursor.module as int].loc.file as int]@;
            let scanned = after + up_to_brace(lines(text), v.cursor.line as int);
            let base = byte_len(before) + 1int;
            &&& clear_of_word(scanned, base, left, "Self"@, v.cursor.col)
            &&& clear_of_word(scanned, base, other, "as"@, v.cursor.col)
        }),
    ensures
        v.after_use_decl(env).spans == v.spans,
{
    let decl = v.target(env).use_decls@[d];
    let text = env.source(v.target(env).loc.file);
    let scanned = after + up_to_brace(lines(text), v.cursor.line as int);
    let base = byte_len(before) + 1;
    lemma_braced_line(v, env, decl, before, after);
    lemma_clear_of_word(scanned, base, left, "Self"@, v.cursor.col);
    lemma_clear_of_word(scanned, base, other, "as"@, v.cursor.col);
    lemma_no_target(v, env, d);
}

/// In a `use` declaration without a brace, over no member and behind all colons of the line, nothing is
/// named.
pub proof fn law_use_behind_the_pieces(v: HandlerView, env: &GlobalEnv, d: int, line: Seq<char>)
    requires
        only_on_line(v, env, d),
        over_no_member(v, env, env.modules@[v.cursor.module as int].use_decls@[d]),
        ({
            let ls = lines(env.files@[env.modules@[v.cursor.module as int].loc.file as int]@);
            &&& v.cursor.line < ls.len()
            &&& ls[v.cursor.line as int] == line
        }),
        !line.contains('{'),
        forall|n: int| 0 <= n < line.len() && #[trigger] line[n] == ':' ==> byte_len(line.take(n))
            < v.cursor.col,
    ensures
        v.after_use_decl(env).spans == v.spans,
{
    let decl = v.target(env).use_decls@[d];
    let found = colon_positions(line);
    lemma_over_no_member(v, env, decl);
    lemma_find(line, seq!['{']);
    if let Some(k) = find(line, seq!['{']) {
        assert(line.subrange(k, k + 1)[0] == '{');
        assert(line.contains(line[k]));
    }
    let p = before_colon(found, v.cursor.col);
    let n = crate::uses::min(found.len(), segments(decl.module_name@).len());
    lemma_first(p, n);
    if let Some(k) = first(p, n) {
        lemma_colon_at(line, k);
    }
    lemma_no_target(v, env, d);
}

/// On a line whose first word begins with `friend`, the second word without its semicolons is shown as
/// a befriended module, at the part of the line before the cursor and with the documentation of the
/// line.
pub proof fn law_friend_is_shown(
    v: HandlerView,
    env: &GlobalEnv,
    line: Seq<char>,
    name: Seq<char>,
    from: int,
)
    requires
        ({
            let text = env.files@[env.modules@[v.cursor.module as int].loc.file as int]@;
            &&& v.cursor.line < lines(text).len()
            &&& lines(text)[v.cursor.line as int] == line
            &&& line_start(text, v.cursor.line) == Some(from)
            &&& from + v.cursor.col <= u32::MAX
        }),
        starts_with(trim(line), "friend"@),
        words(trim(line)).len() >= 2,
        name == crate::text::without(words(trim(line))[1], ';'),
    ensures
        ({
            let text = env.files@[env.modules@[v.cursor.module as int].loc.file as int]@;
            adds_module(
                v,
                v.after_friend_decl(env),
                Span { start: from as u32, end: (from + v.cursor.col) as u32 },
                name,
                "Friend module contents"@,
                documentation(text, v.cursor.line),
            )
        }),
        0 <= from <= u32::MAX,
{
    let text = env.files@[env.modules@[v.cursor.module as int].loc.file as int]@;
    law_cursor_span_len(text, v.cursor.line, v.cursor.col);
    reveal_strlit(" {\n    // Friend module contents\n}\n```");
    reveal_strlit(" {\n    // ");
    reveal_strlit("Friend module contents");
    reveal_strlit("\n}\n```");
    let body = "```move\nmodule "@ + name + " {\n    // "@ + "Friend module contents"@ + "\n}\n```"@;
    assert(friend_text(name) =~= body);
    let span = Span { start: from as u32, end: (from + v.cursor.col) as u32 };
    let r = v.after_friend_decl(env);
    let spoken_of = exists|i: int|
        0 <= i < v.texts.len() && speaks_of_module(#[trigger] v.texts[i], name);
    assert(spoken_of <==> module_shown(v.texts, name)) by {
        if spoken_of {
            let i = choose|i: int|
                0 <= i < v.texts.len() && speaks_of_module(#[trigger] v.texts[i], name);
            assert(shows_module(v.texts[i], name));
        }
        if module_shown(v.texts, name) {
            let i = choose|i: int|
                0 <= i < v.texts.len() && shows_module(#[trigger] v.texts[i], name);
            assert(speaks_of_module(v.texts[i], name));
        }
    }
    if !v.spans.contains(span) && !spoken_of {
        assert(r.texts.drop_last() =~= v.texts);
    }
}

/// On a line that does not begin with `friend`, or has no second word, or is not in the file, nothing
/// is befriended.
pub proof fn law_no_friend(v: HandlerView, env: &GlobalEnv)
    requires
        ({
            let text = env.files@[env.modules@[v.cursor.module as int].loc.file as int]@;
            let ls = lines(text);
            v.cursor.line < ls.len() ==> {
                let line = trim(ls[v.cursor.line as int]);
                !starts_with(line, "friend"@) || words(line).len() < 2
            }
        }),
    ensures
        v.after_friend_decl(env) == v,
{
    assert(words(trim(seq![])) =~= seq![]);
}

} // verus!
