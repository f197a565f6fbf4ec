//! What is found at the parts of an expression.

use vstd::prelude::*;
use crate::exprs::constant_hits;
use crate::exprs::field_hits;
use crate::exprs::generic_span;
use crate::exprs::known_type_hits;
use crate::exprs::source_or_empty;
use crate::exprs::token_loc;
use crate::exprs::type_hits;
use crate::handler::Cursor;
use crate::handler::Hit;
use crate::model::Condition;
use crate::model::Exp;
use crate::model::ExpData;
use crate::model::FieldEnv;
use crate::model::GlobalEnv;
use crate::model::Loc;
use crate::model::NamedConstantEnv;
use crate::model::Operation;
use crate::model::Pattern;
use crate::model::Tok;
use crate::model::Token;
use crate::source::Location;
use crate::source::Span;
use crate::source::located;
use crate::source::sliced;
use crate::text::byte_len;
use crate::text::contains;
use crate::text::find;
use crate::text::lemma_find;
use crate::text::occurs_at;
use crate::text_laws::law_find_first;

verus! {

/// The cursor stands between the two ends of a span, or at one of them.
pub open spec fn at_span(cursor: Cursor, span: Span) -> bool {
    span.start <= cursor.mouse.end && cursor.mouse.end <= span.end
}

/// The cursor stands between the two ends of a span.
pub open spec fn between_ends(cursor: Cursor, span: Span) -> bool {
    span.start < cursor.mouse.end && cursor.mouse.end < span.end
}

/// Where a place starts, as line and column.
pub open spec fn starts_at(env: &GlobalEnv, loc: Loc) -> Option<Location> {
    located(env.files@[loc.file as int]@, loc.span.start as int)
}

/// Where a place ends, as line and column.
pub open spec fn ends_at(env: &GlobalEnv, loc: Loc) -> Option<Location> {
    located(env.files@[loc.file as int]@, loc.span.end as int)
}

/// What is written at a place.
pub open spec fn written(env: &GlobalEnv, loc: Loc) -> Option<Seq<char>> {
    sliced(env.files@[loc.file as int]@, loc.span.start as int, loc.span.end as int)
}

/// The cursor stands on the line on which a place starts, behind its first column and before its
/// last.
pub open spec fn hovers(cursor: Cursor, env: &GlobalEnv, loc: Loc) -> bool {
    &&& starts_at(env, loc) matches Some(first)
    &&& ends_at(env, loc) matches Some(last)
    &&& first.line == cursor.line
    &&& first.column < cursor.col
    &&& cursor.col < last.column
}

/// The cursor stands inside a place exactly if it hovers over it.
pub proof fn law_inside(cursor: Cursor, env: &GlobalEnv, loc: Loc)
    ensures
        cursor.inside(env, loc) <==> hovers(cursor, env, loc),
        cursor.touches(loc.span) <==> at_span(cursor, loc.span),
        cursor.within(loc.span) <==> between_ends(cursor, loc.span),
        env.location(loc) == starts_at(env, loc),
        env.end_location(loc) == ends_at(env, loc),
        env.source_at(loc) == written(env, loc),
{
}

/// At a local variable of known type the type is found, and nothing else, unless the variable is one
/// of the two that the compiler makes for loops.
pub proof fn law_local_variable(
    cursor: Cursor,
    env: &GlobalEnv,
    loc: Loc,
    name: String,
    ty: Option<String>,
)
    ensures
        ({
            let hits = cursor.node_hits(env, ExpData::LocalVar { loc, name, ty });
            let made = name@ == "__update_iter_flag"@ || name@ == "__upper_bound_value"@;
            &&& at_span(cursor, loc.span) && !made ==> (ty matches Some(t) ==> hits == seq![
                Hit { span: loc.span, text: t@ },
            ])
            &&& !at_span(cursor, loc.span) || made || ty is None ==> hits.len() == 0
        }),
{
}

/// At a temporary of known type the type is found, and nothing else.
pub proof fn law_temporary(cursor: Cursor, env: &GlobalEnv, loc: Loc, ty: Option<String>)
    ensures
        ({
            let hits = cursor.node_hits(env, ExpData::Temporary { loc, ty });
            &&& at_span(cursor, loc.span) ==> (ty matches Some(t) ==> hits == seq![
                Hit { span: loc.span, text: t@ },
            ])
            &&& !at_span(cursor, loc.span) || ty is None ==> hits.len() == 0
        }),
{
}

/// At a binding or an assignment of a variable of known type the type is found, and nothing else.
pub proof fn law_bound_variable(cursor: Cursor, env: &GlobalEnv, loc: Loc, ty: Option<String>)
    ensures
        ({
            let pattern = Pattern::Var { loc, ty };
            let bound = cursor.node_hits(env, ExpData::Block(pattern));
            let assigned = cursor.node_hits(env, ExpData::Assign(pattern));
            &&& at_span(cursor, loc.span) ==> (ty matches Some(t) ==> bound == seq![
                Hit { span: loc.span, text: t@ },
            ])
            &&& !at_span(cursor, loc.span) || ty is None ==> bound.len() == 0
            &&& assigned == bound
        }),
{
}

/// A variable of a pattern, under the cursor with all patterns around it.
pub open spec fn binds(cursor: Cursor, pattern: Pattern, span: Span, ty: Seq<char>) -> bool
    decreases pattern,
{
    match pattern {
        Pattern::Var { loc, ty: known } => {
            &&& loc.span == span
            &&& at_span(cursor, span)
            &&& known matches Some(t)
            &&& t@ == ty
        },
        Pattern::Tuple { loc, args } => {
            &&& at_span(cursor, loc.span)
            &&& exists|i: int| 0 <= i < args@.len() && binds(cursor, #[trigger] args@[i], span, ty)
        },
        Pattern::Struct { loc, args, fields, tokens } => {
            &&& at_span(cursor, loc.span)
            &&& exists|i: int| 0 <= i < args@.len() && binds(cursor, #[trigger] args@[i], span, ty)
        },
        Pattern::Other => false,
    }
}

/// The type of every variable of a pattern is found that the cursor touches together with the
/// patterns around it, in a binding as in an assignment.
pub proof fn law_every_variable_is_found(
    cursor: Cursor,
    env: &GlobalEnv,
    pattern: Pattern,
    span: Span,
    ty: Seq<char>,
)
    requires
        binds(cursor, pattern, span, ty),
    ensures
        cursor.pattern_hits(env, pattern).contains(Hit { span, text: ty }),
        cursor.node_hits(env, ExpData::Block(pattern)).contains(Hit { span, text: ty }),
        cursor.node_hits(env, ExpData::Assign(pattern)).contains(Hit { span, text: ty }),
    decreases pattern,
{
    let hit = Hit { span, text: ty };
    match pattern {
        Pattern::Var { loc, ty: known } => {
            assert(cursor.pattern_hits(env, pattern)[0] == hit);
        },
        Pattern::Tuple { loc, args } => {
            let i = choose|i: int|
                0 <= i < args@.len() && binds(cursor, #[trigger] args@[i], span, ty);
            law_every_variable_is_found(cursor, env, args@[i], span, ty);
            lemma_in_patterns(cursor, env, args@, i, args@.len(), hit);
        },
        Pattern::Struct { loc, args, fields, tokens } => {
            let i = choose|i: int|
                0 <= i < args@.len() && binds(cursor, #[trigger] args@[i], span, ty);
            law_every_variable_is_found(cursor, env, args@[i], span, ty);
            lemma_in_patterns(cursor, env, args@, i, args@.len(), hit);
            lemma_in_sum(
                cursor.patterns_hits(env, args@, args@.len()),
                cursor.struct_field_hits(env, loc, tokens@, fields@, tokens@.len() as int),
                hit,
            );
        },
        Pattern::Other => {},
    }
}

pub proof fn lemma_in_sum(a: Seq<Hit>, b: Seq<Hit>, hit: Hit)
    ensures
        (a + b).contains(hit) <==> a.contains(hit) || b.contains(hit),
{
    if a.contains(hit) {
        let k = choose|k: int| 0 <= k < a.len() && a[k] == hit;
        assert((a + b)[k] == hit);
    }
    if b.contains(hit) {
        let k = choose|k: int| 0 <= k < b.len() && b[k] == hit;
        assert((a + b)[a.len() + k] == hit);
    }
    if (a + b).contains(hit) {
        let k = choose|k: int| 0 <= k < (a + b).len() && (a + b)[k] == hit;
        if k < a.len() {
            assert(a[k] == hit);
        } else {
            assert(b[k - a.len()] == hit);
        }
    }
}

proof fn lemma_in_patterns(
    cursor: Cursor,
    env: &GlobalEnv,
    patterns: Seq<Pattern>,
    i: int,
    n: nat,
    hit: Hit,
)
    requires
        0 <= i < n <= patterns.len(),
        cursor.pattern_hits(env, patterns[i]).contains(hit),
    ensures
        cursor.patterns_hits(env, patterns, n).contains(hit),
    decreases n,
{
    let less = (n - 1) as nat;
    if i < less {
        lemma_in_patterns(cursor, env, patterns, i, less, hit);
    }
    lemma_in_sum(
        cursor.patterns_hits(env, patterns, less),
        cursor.pattern_hits(env, patterns[n - 1]),
        hit,
    );
}

/// In a tuple under the cursor is found what is found in its parts, one after the other, and in one
/// elsewhere nothing.
pub proof fn law_tuple_pattern(cursor: Cursor, env: &GlobalEnv, loc: Loc, args: Vec<Pattern>)
    ensures
        ({
            let hits = cursor.pattern_hits(env, Pattern::Tuple { loc, args });
            &&& at_span(cursor, loc.span) ==> hits == cursor.patterns_hits(env, args@, args@.len())
            &&& !at_span(cursor, loc.span) ==> hits.len() == 0
        }),
{
}

/// In a struct under the cursor is found what is found in its parts, one after the other, and then
/// what is found at its fields, and in one elsewhere nothing.
pub proof fn law_struct_pattern(
    cursor: Cursor,
    env: &GlobalEnv,
    loc: Loc,
    args: Vec<Pattern>,
    fields: Vec<FieldEnv>,
    tokens: Vec<Token>,
)
    ensures
        ({
            let hits = cursor.pattern_hits(env, Pattern::Struct { loc, args, fields, tokens });
            &&& at_span(cursor, loc.span) ==> hits == cursor.patterns_hits(env, args@, args@.len())
                + cursor.struct_field_hits(env, loc, tokens@, fields@, tokens@.len() as int)
            &&& !at_span(cursor, loc.span) ==> hits.len() == 0
        }),
{
}

/// What is found in some patterns is what is found in each of them, one after the other.
pub proof fn law_patterns_in_order(cursor: Cursor, env: &GlobalEnv, patterns: Seq<Pattern>, n: nat)
    requires
        n < patterns.len(),
    ensures
        cursor.patterns_hits(env, patterns, 0).len() == 0,
        cursor.patterns_hits(env, patterns, n + 1) == cursor.patterns_hits(env, patterns, n)
            + cursor.pattern_hits(env, patterns[n as int]),
{
}

/// Token `i` of the source at `loc` is an identifier, followed by a colon, that stands at `span`.
pub open spec fn names_field_at(loc: Loc, tokens: Seq<Token>, i: int, span: Span) -> bool {
    &&& 0 <= i < tokens.len() - 1
    &&& tokens[i].kind == Tok::Identifier
    &&& tokens[i + 1].kind == Tok::Colon
    &&& span.start == loc.span.start + tokens[i].start
    &&& span.end == loc.span.start + tokens[i].end
}

/// At the name of a field, followed by a colon under the cursor, the type of the field of that name is
/// found.
pub proof fn law_named_field(
    cursor: Cursor,
    env: &GlobalEnv,
    loc: Loc,
    tokens: Seq<Token>,
    fields: Seq<FieldEnv>,
    i: int,
    span: Span,
    f: int,
)
    requires
        names_field_at(loc, tokens, i, span),
        at_span(cursor, span),
        0 <= f < fields.len(),
        written(env, Loc { file: loc.file, span }) == Some(fields[f].name@),
    ensures
        cursor.struct_field_hits(env, loc, tokens, fields, tokens.len() as int).contains(
            Hit { span, text: fields[f].ty@ },
        ),
{
    lemma_named_field(cursor, env, loc, tokens, fields, i, span, f, tokens.len() as int);
}

proof fn lemma_named_field(
    cursor: Cursor,
    env: &GlobalEnv,
    loc: Loc,
    tokens: Seq<Token>,
    fields: Seq<FieldEnv>,
    i: int,
    span: Span,
    f: int,
    n: int,
)
    requires
        names_field_at(loc, tokens, i, span),
        at_span(cursor, span),
        0 <= f < fields.len(),
        written(env, Loc { file: loc.file, span }) == Some(fields[f].name@),
        i < n <= tokens.len(),
    ensures
        cursor.struct_field_hits(env, loc, tokens, fields, n).contains(
            Hit { span, text: fields[f].ty@ },
        ),
    decreases n,
{
    let hit = Hit { span, text: fields[f].ty@ };
    let before = cursor.struct_field_hits(env, loc, tokens, fields, n - 1);
    let place = token_loc(loc, tokens[n - 1]);
    let more = field_hits(fields, source_or_empty(env, place), place.span);
    if i < n - 1 {
        lemma_named_field(cursor, env, loc, tokens, fields, i, span, f, n - 1);
        lemma_in_sum(before, more, hit);
    } else {
        assert(place.span == span);
        lemma_field_of_name(fields, fields[f].name@, span, f);
        lemma_in_sum(before, more, hit);
    }
}

proof fn lemma_field_of_name(fields: Seq<FieldEnv>, name: Seq<char>, span: Span, f: int)
    requires
        0 <= f < fields.len(),
        fields[f].name@ == name,
    ensures
        field_hits(fields, name, span).contains(Hit { span, text: fields[f].ty@ }),
    decreases fields.len(),
{
    let hit = Hit { span, text: fields[f].ty@ };
    let less = field_hits(fields.drop_last(), name, span);
    let all = field_hits(fields, name, span);
    if f == fields.len() - 1 {
        assert(all[less.len() as int] == hit);
    } else {
        assert(fields.drop_last()[f] == fields[f]);
        lemma_field_of_name(fields.drop_last(), name, span, f);
        let k = choose|k: int| 0 <= k < less.len() && less[k] == hit;
        assert(all[k] == hit);
    }
}

/// Whatever is found at the fields of a struct is the type of a field whose name, followed by a
/// colon, stands under the cursor.
pub proof fn law_only_named_fields(
    cursor: Cursor,
    env: &GlobalEnv,
    loc: Loc,
    tokens: Seq<Token>,
    fields: Seq<FieldEnv>,
    n: int,
    hit: Hit,
)
    requires
        crate::model::tokens_wf(loc, tokens),
        n <= tokens.len(),
        cursor.struct_field_hits(env, loc, tokens, fields, n).contains(hit),
    ensures
        exists|i: int, f: int|
            {
                &&& names_field_at(loc, tokens, i, hit.span)
                &&& at_span(cursor, hit.span)
                &&& 0 <= f < fields.len()
                &&& (#[trigger] fields[f]).ty@ == hit.text
                &&& match written(env, Loc { file: loc.file, span: hit.span }) {
                    Some(name) => name == fields[f].name@,
                    None => fields[f].name@.len() == 0,
                }
                &&& (#[trigger] tokens[i]).kind == Tok::Identifier
            },
    decreases n,
{
    if n > 0 {
        let before = cursor.struct_field_hits(env, loc, tokens, fields, n - 1);
        let place = token_loc(loc, tokens[n - 1]);
        let more = field_hits(fields, source_or_empty(env, place), place.span);
        if before.contains(hit) {
            law_only_named_fields(cursor, env, loc, tokens, fields, n - 1, hit);
        } else {
            lemma_in_sum(before, more, hit);
            lemma_field_hits_of_name(fields, source_or_empty(env, place), place.span, hit);
            assert(crate::model::names_field(tokens, n - 1));
            assert(names_field_at(loc, tokens, n - 1, hit.span));
            let f = choose|f: int|
                0 <= f < fields.len() && (#[trigger] fields[f]).ty@ == hit.text && fields[f].name@
                    == source_or_empty(env, place);
            assert(tokens[n - 1].kind == Tok::Identifier && fields[f].ty@ == hit.text);
        }
    }
}

proof fn lemma_field_hits_of_name(fields: Seq<FieldEnv>, name: Seq<char>, span: Span, hit: Hit)
    requires
        field_hits(fields, name, span).contains(hit),
    ensures
        hit.span == span,
        exists|f: int|
            0 <= f < fields.len() && (#[trigger] fields[f]).ty@ == hit.text && fields[f].name@
                == name,
    decreases fields.len(),
{
    if fields.len() > 0 {
        let less = field_hits(fields.drop_last(), name, span);
        let all = field_hits(fields, name, span);
        let k = choose|k: int| 0 <= k < all.len() && all[k] == hit;
        if k < less.len() {
            assert(less[k] == hit);
            lemma_field_hits_of_name(fields.drop_last(), name, span, hit);
            let f = choose|f: int|
                0 <= f < fields.drop_last().len() && (#[trigger] fields.drop_last()[f]).ty@
                    == hit.text && fields.drop_last()[f].name@ == name;
            assert(fields[f].ty@ == hit.text && fields[f].name@ == name);
        } else {
            let f = fields.len() - 1;
            assert(fields[f].ty@ == hit.text && fields[f].name@ == name);
        }
    }
}

/// Inside a call of a function the header of the function is found, and nothing else.
pub proof fn law_function_call(cursor: Cursor, env: &GlobalEnv, loc: Loc, header: String)
    ensures
        ({
            let op = Operation::MoveFunction { header };
            let hits = cursor.node_hits(env, ExpData::Call(loc, op));
            &&& between_ends(cursor, loc.span) ==> hits == seq![
                Hit { span: loc.span, text: header@ },
            ]
            &&& !between_ends(cursor, loc.span) ==> hits.len() == 0
        }),
{
}

/// At the selection of a field the type of the field is found, and nothing else.
pub proof fn law_field_selection(cursor: Cursor, env: &GlobalEnv, loc: Loc, field_type: String)
    ensures
        ({
            let op = Operation::Select { field_type };
            let hits = cursor.node_hits(env, ExpData::Call(loc, op));
            &&& at_span(cursor, loc.span) ==> hits == seq![
                Hit { span: loc.span, text: field_type@ },
            ]
            &&& !at_span(cursor, loc.span) ==> hits.len() == 0
        }),
{
}

/// Inside a call of a specification function its name is found and then its type arguments in order,
/// these from the first `<` of the call on, or at the whole call if it has none.
pub proof fn law_spec_function_call(
    cursor: Cursor,
    env: &GlobalEnv,
    loc: Loc,
    name: String,
    inst: Vec<String>,
    i: int,
)
    requires
        0 <= i < inst@.len(),
    ensures
        ({
            let op = Operation::SpecFunction { name, inst };
            let hits = cursor.node_hits(env, ExpData::Call(loc, op));
            &&& between_ends(cursor, loc.span) ==> {
                &&& hits.len() == 1 + inst@.len()
                &&& hits[0] == Hit { span: loc.span, text: name@ }
                &&& hits[1 + i].text == inst@[i]@
                &&& hits[1 + i].span.end == loc.span.end
                &&& written(env, loc) is None || !written(env, loc)->0.contains('<')
                    ==> hits[1 + i].span == loc.span
                &&& written(env, loc) matches Some(s) ==> forall|a: Seq<char>, b: Seq<char>|
                    s == #[trigger] (a + b) && b.len() > 0 && b[0] == '<' && !a.contains('<')
                        && loc.span.start + byte_len(a) <= u32::MAX ==> hits[1 + i].span.start
                        == loc.span.start + byte_len(a)
            }
            &&& !between_ends(cursor, loc.span) ==> hits.len() == 0
        }),
{
    let hits = type_hits(inst@, generic_span(env, loc));
    let op = Operation::SpecFunction { name, inst };
    if between_ends(cursor, loc.span) {
        assert(cursor.node_hits(env, ExpData::Call(loc, op))[1 + i] == hits[i]);
        lemma_find(source_or_empty(env, loc), seq!['<']);
        if let Some(k) = find(source_or_empty(env, loc), seq!['<']) {
            let s = source_or_empty(env, loc);
            assert(s.subrange(k, k + 1)[0] == '<');
            assert(s.contains(s[k]));
        }
        if let Some(s) = written(env, loc) {
            assert forall|a: Seq<char>, b: Seq<char>|
                s == #[trigger] (a + b) && b.len() > 0 && b[0] == '<' && !a.contains('<')
                    && loc.span.start + byte_len(a) <= u32::MAX implies hits[i].span.start
                == loc.span.start + byte_len(a) by {
                lemma_first_char(a, b, '<');
                assert(s.take(a.len() as int) =~= a);
            }
        }
    }
}

/// Inside a call of a specification function its name is found first, and there are as many other
/// finds as type arguments.
pub proof fn law_spec_function_name(
    cursor: Cursor,
    env: &GlobalEnv,
    loc: Loc,
    name: String,
    inst: Vec<String>,
)
    requires
        between_ends(cursor, loc.span),
    ensures
        ({
            let op = Operation::SpecFunction { name, inst };
            let hits = cursor.node_hits(env, ExpData::Call(loc, op));
            &&& hits.len() == 1 + inst@.len()
            &&& hits[0] == Hit { span: loc.span, text: name@ }
        }),
{
}

pub proof fn lemma_first_char(a: Seq<char>, b: Seq<char>, c: char)
    requires
        b.len() > 0,
        b[0] == c,
        !a.contains(c),
    ensures
        find(a + b, seq![c]) == Some(a.len() as int),
{
    let pat = seq![c];
    assert(pat.drop_last() =~= seq![]);
    assert(a + pat.drop_last() =~= a);
    if contains(a, pat) {
        let k = choose|k: int| occurs_at(a, pat, k);
        assert(a.subrange(k, k + 1)[0] == c);
        assert(a.contains(a[k]));
    }
    law_find_first(a, pat, b.drop_first());
    assert(a + pat + b.drop_first() =~= a + b);
}

/// At a packed struct its type is found first, if it is known, and then what is found at its fields.
pub proof fn law_pack(
    cursor: Cursor,
    env: &GlobalEnv,
    loc: Loc,
    ty: Option<String>,
    fields: Vec<FieldEnv>,
    tokens: Vec<Token>,
)
    ensures
        ({
            let op = Operation::Pack { ty, fields, tokens };
            let hits = cursor.node_hits(env, ExpData::Call(loc, op));
            let of_fields = cursor.struct_field_hits(
                env,
                loc,
                tokens@,
                fields@,
                tokens@.len() as int,
            );
            &&& at_span(cursor, loc.span) ==> match ty {
                Some(t) => hits == seq![Hit { span: loc.span, text: t@ }] + of_fields,
                None => hits == of_fields,
            }
            &&& !at_span(cursor, loc.span) ==> hits.len() == 0
        }),
{
    let of_fields = cursor.struct_field_hits(env, loc, tokens@, fields@, tokens@.len() as int);
    assert(known_type_hits(None, loc.span) + of_fields =~= of_fields);
}

/// Other calls, patterns and nodes show nothing.
pub proof fn law_other_nodes(cursor: Cursor, env: &GlobalEnv, loc: Loc)
    ensures
        cursor.node_hits(env, ExpData::Other).len() == 0,
        cursor.node_hits(env, ExpData::Call(loc, Operation::Other)).len() == 0,
        cursor.node_hits(env, ExpData::Block(Pattern::Other)).len() == 0,
        cursor.node_hits(env, ExpData::Assign(Pattern::Other)).len() == 0,
{
}

/// At a value whose source names constants of the target module, the value of the first of these
/// constants is found first.
pub proof fn law_named_constant(
    cursor: Cursor,
    env: &GlobalEnv,
    loc: Loc,
    source: Seq<char>,
    k: int,
)
    requires
        hovers(cursor, env, loc),
        written(env, loc) == Some(source),
        ({
            let constants = env.modules@[cursor.module as int].constants@;
            &&& 0 <= k < constants.len()
            &&& contains(source, constants[k].name@)
            &&& forall|j: int| 0 <= j < k ==> !contains(source, (#[trigger] constants[j]).name@)
        }),
    ensures
        ({
            let hits = cursor.node_hits(env, ExpData::Value(loc));
            let constant = env.modules@[cursor.module as int].constants@[k];
            &&& hits == cursor.value_hits(env, loc)
            &&& hits.len() > 0
            &&& hits[0] == Hit { span: loc.span, text: constant.value@ }
            &&& forall|i: int| 0 <= i < hits.len() ==> (#[trigger] hits[i]).span == loc.span
        }),
{
    lemma_first_constant(env.modules@[cursor.module as int].constants@, source, loc.span, k);
}

proof fn lemma_first_constant(
    constants: Seq<NamedConstantEnv>,
    source: Seq<char>,
    span: Span,
    k: int,
)
    requires
        0 <= k < constants.len(),
        contains(source, constants[k].name@),
        forall|j: int| 0 <= j < k ==> !contains(source, (#[trigger] constants[j]).name@),
    ensures
        ({
            let hits = constant_hits(constants, source, span);
            &&& hits.len() > 0
            &&& hits[0] == Hit { span, text: constants[k].value@ }
            &&& forall|i: int| 0 <= i < hits.len() ==> (#[trigger] hits[i]).span == span
        }),
    decreases constants.len(),
{
    let less = constants.drop_last();
    if k < less.len() {
        assert(less[k] == constants[k]);
        assert forall|j: int| 0 <= j < k implies !contains(source, (#[trigger] less[j]).name@) by {
            assert(less[j] == constants[j]);
        }
        lemma_first_constant(less, source, span, k);
    } else {
        assert forall|j: int| 0 <= j < less.len() implies !contains(
            source,
            (#[trigger] less[j]).name@,
        ) by {
            assert(less[j] == constants[j]);
        }
        lemma_no_constant(less, source, span);
    }
}

proof fn lemma_no_constant(constants: Seq<NamedConstantEnv>, source: Seq<char>, span: Span)
    requires
        forall|j: int|
            0 <= j < constants.len() ==> !contains(source, (#[trigger] constants[j]).name@),
    ensures
        constant_hits(constants, source, span).len() == 0,
    decreases constants.len(),
{
    if constants.len() > 0 {
        let less = constants.drop_last();
        assert forall|j: int| 0 <= j < less.len() implies !contains(
            source,
            (#[trigger] less[j]).name@,
        ) by {
            assert(less[j] == constants[j]);
        }
        lemma_no_constant(less, source, span);
        assert(constants[constants.len() - 1] == constants.last());
    }
}

/// At a value nothing is found where the cursor does not hover over it, nor where its source names no
/// constant of the target module.
pub proof fn law_unnamed_constant(cursor: Cursor, env: &GlobalEnv, loc: Loc, source: Seq<char>)
    requires
        !hovers(cursor, env, loc) || {
            let constants = env.modules@[cursor.module as int].constants@;
            &&& written(env, loc) == Some(source)
            &&& forall|j: int|
                0 <= j < constants.len() ==> !contains(source, (#[trigger] constants[j]).name@)
        },
    ensures
        cursor.node_hits(env, ExpData::Value(loc)).len() == 0,
{
    if hovers(cursor, env, loc) {
        lemma_no_constant(env.modules@[cursor.module as int].constants@, source, loc.span);
    }
}

/// What is found at a value depends on the constants of no module but the target module.
pub proof fn law_value_goes_by_target_module(
    cursor: Cursor,
    a: &GlobalEnv,
    b: &GlobalEnv,
    loc: Loc,
)
    requires
        a.files@ == b.files@,
        a.modules@[cursor.module as int].constants@ == b.modules@[cursor.module as int].constants@,
    ensures
        cursor.value_hits(a, loc) == cursor.value_hits(b, loc),
        cursor.node_hits(a, ExpData::Value(loc)) == cursor.node_hits(b, ExpData::Value(loc)),
{
}

/// What is found at some nodes is what is found at each of them, one after the other.
pub proof fn law_nodes_in_order(
    cursor: Cursor,
    env: &GlobalEnv,
    nodes: Seq<ExpData>,
    more: Seq<ExpData>,
    node: ExpData,
)
    ensures
        cursor.nodes_hits(env, seq![]).len() == 0,
        cursor.nodes_hits(env, seq![node]) == cursor.node_hits(env, node),
        cursor.nodes_hits(env, nodes + more) == cursor.nodes_hits(env, nodes) + cursor.nodes_hits(
            env,
            more,
        ),
    decreases more.len(),
{
    assert(seq![node].drop_last() =~= seq![]);
    assert(cursor.nodes_hits(env, seq![]) + cursor.node_hits(env, node) =~= cursor.node_hits(
        env,
        node,
    ));
    if more.len() == 0 {
        assert(nodes + more =~= nodes);
        assert(cursor.nodes_hits(env, nodes) + cursor.nodes_hits(env, more) =~= cursor.nodes_hits(
            env,
            nodes,
        ));
    } else {
        law_nodes_in_order(cursor, env, nodes, more.drop_last(), node);
        assert((nodes + more).drop_last() =~= nodes + more.drop_last());
        assert((nodes + more).last() == more.last());
        assert(cursor.nodes_hits(env, nodes + more) =~= cursor.nodes_hits(env, nodes)
            + cursor.nodes_hits(env, more));
    }
}

/// What is found at a node is found at the nodes among which it is.
pub proof fn law_each_node_is_visited(
    cursor: Cursor,
    env: &GlobalEnv,
    nodes: Seq<ExpData>,
    i: int,
    hit: Hit,
)
    requires
        0 <= i < nodes.len(),
        cursor.node_hits(env, nodes[i]).contains(hit),
    ensures
        cursor.nodes_hits(env, nodes).contains(hit),
    decreases nodes.len(),
{
    let less = nodes.drop_last();
    if i < less.len() {
        assert(less[i] == nodes[i]);
        law_each_node_is_visited(cursor, env, less, i, hit);
    }
    lemma_in_sum(cursor.nodes_hits(env, less), cursor.node_hits(env, nodes.last()), hit);
}

/// What is found at a node of an expression of a condition is found at the conditions among which the
/// condition is.
pub proof fn law_each_condition_is_visited(
    cursor: Cursor,
    env: &GlobalEnv,
    conditions: Seq<Condition>,
    c: int,
    e: int,
    i: int,
    hit: Hit,
)
    requires
        0 <= c < conditions.len(),
        0 <= e < conditions[c].exps@.len(),
        0 <= i < conditions[c].exps@[e].nodes@.len(),
        cursor.node_hits(env, conditions[c].exps@[e].nodes@[i]).contains(hit),
    ensures
        cursor.conditions_hits(env, conditions).contains(hit),
    decreases conditions.len(),
{
    let less = conditions.drop_last();
    if c < less.len() {
        assert(less[c] == conditions[c]);
        law_each_condition_is_visited(cursor, env, less, c, e, i, hit);
    } else {
        law_each_node_is_visited(cursor, env, conditions[c].exps@[e].nodes@, i, hit);
        lemma_in_exps(cursor, env, conditions[c].exps@, e, hit);
    }
    lemma_in_sum(
        cursor.conditions_hits(env, less),
        cursor.exps_hits(env, conditions.last().exps@),
        hit,
    );
}

proof fn lemma_in_exps(cursor: Cursor, env: &GlobalEnv, exps: Seq<Exp>, e: int, hit: Hit)
    requires
        0 <= e < exps.len(),
        cursor.nodes_hits(env, exps[e].nodes@).contains(hit),
    ensures
        cursor.exps_hits(env, exps).contains(hit),
    decreases exps.len(),
{
    let less = exps.drop_last();
    if e < less.len() {
        assert(less[e] == exps[e]);
        lemma_in_exps(cursor, env, less, e, hit);
    }
    lemma_in_sum(cursor.exps_hits(env, less), cursor.nodes_hits(env, exps.last().nodes@), hit);
}

/// What is found at a further expression of a condition, or at a further condition, comes behind what
/// is found at the others.
pub proof fn law_conditions_in_order(
    cursor: Cursor,
    env: &GlobalEnv,
    exps: Seq<Exp>,
    exp: Exp,
    conditions: Seq<Condition>,
    condition: Condition,
)
    ensures
        cursor.exps_hits(env, seq![]).len() == 0,
        cursor.exps_hits(env, exps.push(exp)) == cursor.exps_hits(env, exps) + cursor.nodes_hits(
            env,
            exp.nodes@,
        ),
        cursor.conditions_hits(env, seq![]).len() == 0,
        cursor.conditions_hits(env, conditions.push(condition)) == cursor.conditions_hits(
            env,
            conditions,
        ) + cursor.exps_hits(env, condition.exps@),
{
    assert(exps.push(exp).drop_last() =~= exps);
    assert(conditions.push(condition).drop_last() =~= conditions);
}

} // verus!
