//! Hovering over expressions and patterns.

use vstd::prelude::*;
use vstd::slice::slice_subrange;
use crate::handler::Cursor;
use crate::handler::Handler;
use crate::handler::Hit;
use crate::handler::lemma_record_all_add;
use crate::handler::lemma_record_all_frame;
use crate::handler::lemma_record_all_one;
use crate::model::Condition;
use crate::model::Exp;
use crate::model::ExpData;
use crate::model::FieldEnv;
use crate::model::GlobalEnv;
use crate::model::Loc;
use crate::model::NamedConstantEnv;
use crate::model::Operation;
use crate::model::Pattern;
use crate::model::Tok;
use crate::model::Token;
use crate::model::names_field;
use crate::model::tokens_wf;
use crate::source::Span;
use crate::source::advance;
use crate::source::lemma_sliced;
use crate::source::span;
use crate::text::byte_pos;
use crate::text::chars_of;
use crate::text::contains;
use crate::text::find;
use crate::text::find_char;
use crate::text::lemma_byte_pos_bound;
use crate::text::lemma_find;
use crate::text::same_text;
use crate::text::str_contains;
use crate::text::utf8_len;

verus! {

/// The source at `loc`; empty if there is none.
pub open spec fn source_or_empty(env: &GlobalEnv, loc: Loc) -> Seq<char> {
    match env.source_at(loc) {
        Some(s) => s,
        None => seq![],
    }
}

/// The values of the constants whose names stand in `source`.
pub open spec fn constant_hits(
    constants: Seq<NamedConstantEnv>,
    source: Seq<char>,
    span: Span,
) -> Seq<Hit>
    decreases constants.len(),
{
    if constants.len() == 0 {
        seq![]
    } else {
        let hits = constant_hits(constants.drop_last(), source, span);
        if contains(source, constants.last().name@) {
            hits.push(Hit { span, text: constants.last().value@ })
        } else {
            hits
        }
    }
}

/// The types of the fields with the given name.
pub open spec fn field_hits(fields: Seq<FieldEnv>, name: Seq<char>, span: Span) -> Seq<Hit>
    decreases fields.len(),
{
    if fields.len() == 0 {
        seq![]
    } else {
        let hits = field_hits(fields.drop_last(), name, span);
        if fields.last().name@ == name {
            hits.push(Hit { span, text: fields.last().ty@ })
        } else {
            hits
        }
    }
}

/// The place of a token, which is counted from the start of `loc`.
pub open spec fn token_loc(loc: Loc, token: Token) -> Loc {
    Loc {
        file: loc.file,
        span: Span {
            start: (loc.span.start + token.start) as u32,
            end: (loc.span.start + token.end) as u32,
        },
    }
}

/// The part of a call from its first `<` on; all of it if there is none.
pub open spec fn generic_span(env: &GlobalEnv, loc: Loc) -> Span {
    match find(source_or_empty(env, loc), seq!['<']) {
        Some(k) => Span {
            start: (loc.span.start + byte_pos(source_or_empty(env, loc), k)) as u32,
            end: loc.span.end,
        },
        None => loc.span,
    }
}

/// The given types, all at the same place.
pub open spec fn type_hits(types: Seq<String>, span: Span) -> Seq<Hit> {
    Seq::new(types.len(), |i: int| Hit { span, text: types[i]@ })
}

/// A type, if it is known.
pub open spec fn known_type_hits(ty: Option<String>, span: Span) -> Seq<Hit> {
    match ty {
        Some(ty) => seq![Hit { span, text: ty@ }],
        None => seq![],
    }
}

impl Cursor {
    /// What is found at a value: the constants of the target module that are named there.
    pub open spec fn value_hits(self, env: &GlobalEnv, loc: Loc) -> Seq<Hit> {
        if self.inside(env, loc) {
            constant_hits(
                env.modules@[self.module as int].constants@,
                source_or_empty(env, loc),
                loc.span,
            )
        } else {
            seq![]
        }
    }

    /// What is found at the first `n` tokens of `loc`: at an identifier that is followed by a
    /// colon, the types of the fields of that name.
    pub open spec fn struct_field_hits(
        self,
        env: &GlobalEnv,
        loc: Loc,
        tokens: Seq<Token>,
        fields: Seq<FieldEnv>,
        n: int,
    ) -> Seq<Hit>
        decreases n,
    {
        if n <= 0 {
            seq![]
        } else {
            let hits = self.struct_field_hits(env, loc, tokens, fields, n - 1);
            let place = token_loc(loc, tokens[n - 1]);
            if n < tokens.len() && tokens[n - 1].kind == Tok::Identifier && tokens[n].kind
                == Tok::Colon && self.touches(place.span) {
                hits + field_hits(fields, source_or_empty(env, place), place.span)
            } else {
                hits
            }
        }
    }

    /// What is found at a call.
    pub open spec fn call_hits(self, env: &GlobalEnv, loc: Loc, op: Operation) -> Seq<Hit> {
        match op {
            Operation::MoveFunction { header } => if self.within(loc.span) {
                seq![Hit { span: loc.span, text: header@ }]
            } else {
                seq![]
            },
            Operation::Select { field_type } => if self.touches(loc.span) {
                seq![Hit { span: loc.span, text: field_type@ }]
            } else {
                seq![]
            },
            Operation::SpecFunction { name, inst } => if self.within(loc.span) {
                seq![Hit { span: loc.span, text: name@ }] + type_hits(
                    inst@,
                    generic_span(env, loc),
                )
            } else {
                seq![]
            },
            Operation::Pack { ty, fields, tokens } => if self.touches(loc.span) {
                known_type_hits(ty, loc.span) + self.struct_field_hits(
                    env,
                    loc,
                    tokens@,
                    fields@,
                    tokens@.len() as int,
                )
            } else {
                seq![]
            },
            Operation::Other => seq![],
        }
    }

    /// What is found at a pattern: the types of the variables, then those of the fields.
    pub open spec fn pattern_hits(self, env: &GlobalEnv, pattern: Pattern) -> Seq<Hit>
        decreases pattern, 0nat,
    {
        match pattern {
            Pattern::Struct { loc, args, fields, tokens } => if self.touches(loc.span) {
                self.patterns_hits(env, args@, args@.len()) + self.struct_field_hits(
                    env,
                    loc,
                    tokens@,
                    fields@,
                    tokens@.len() as int,
                )
            } else {
                seq![]
            },
            Pattern::Tuple { loc, args } => if self.touches(loc.span) {
                self.patterns_hits(env, args@, args@.len())
            } else {
                seq![]
            },
            Pattern::Var { loc, ty } => if self.touches(loc.span) {
                known_type_hits(ty, loc.span)
            } else {
                seq![]
            },
            Pattern::Other => seq![],
        }
    }

    /// What is found at the first `n` of some patterns.
    pub open spec fn patterns_hits(self, env: &GlobalEnv, patterns: Seq<Pattern>, n: nat) -> Seq<
        Hit,
    >
        decreases patterns, n,
    {
        if n == 0 || n > patterns.len() {
            seq![]
        } else {
            self.patterns_hits(env, patterns, (n - 1) as nat) + self.pattern_hits(
                env,
                patterns[n - 1],
            )
        }
    }

    /// What is found at a node of an expression. Two variables that the compiler makes for loops
    /// are passed over.
    pub open spec fn node_hits(self, env: &GlobalEnv, node: ExpData) -> Seq<Hit> {
        match node {
            ExpData::Value(loc) => self.value_hits(env, loc),
            ExpData::Call(loc, op) => self.call_hits(env, loc, op),
            ExpData::LocalVar { loc, name, ty } => if self.touches(loc.span) && name@
                != "__update_iter_flag"@ && name@ != "__upper_bound_value"@ {
                known_type_hits(ty, loc.span)
            } else {
                seq![]
            },
            ExpData::Temporary { loc, ty } => if self.touches(loc.span) {
                known_type_hits(ty, loc.span)
            } else {
                seq![]
            },
            ExpData::Block(pattern) => self.pattern_hits(env, pattern),
            ExpData::Assign(pattern) => self.pattern_hits(env, pattern),
            ExpData::Other => seq![],
        }
    }

    /// What is found at some nodes.
    pub open spec fn nodes_hits(self, env: &GlobalEnv, nodes: Seq<ExpData>) -> Seq<Hit>
        decreases nodes.len(),
    {
        if nodes.len() == 0 {
            seq![]
        } else {
            self.nodes_hits(env, nodes.drop_last()) + self.node_hits(env, nodes.last())
        }
    }

    /// What is found at some expressions.
    pub open spec fn exps_hits(self, env: &GlobalEnv, exps: Seq<Exp>) -> Seq<Hit>
        decreases exps.len(),
    {
        if exps.len() == 0 {
            seq![]
        } else {
            self.exps_hits(env, exps.drop_last()) + self.nodes_hits(env, exps.last().nodes@)
        }
    }

    /// What is found at some conditions.
    pub open spec fn conditions_hits(self, env: &GlobalEnv, conditions: Seq<Condition>) -> Seq<Hit>
        decreases conditions.len(),
    {
        if conditions.len() == 0 {
            seq![]
        } else {
            self.conditions_hits(env, conditions.drop_last()) + self.exps_hits(
                env,
                conditions.last().exps@,
            )
        }
    }
}

impl Handler {
    /// Adds the values of the constants of the target module that are named at a value.
    pub fn process_value(&mut self, env: &GlobalEnv, value_loc: &Loc)
        requires
            env.loc_wf(*value_loc),
            old(self).target_module_id < env.modules@.len(),
        ensures
            final(self)@ == old(self)@.record_all(old(self)@.cursor.value_hits(env, *value_loc)),
    {
        if !self.check_move_model_loc_contains_mouse_pos(env, value_loc) {
            return;
        }
        let value_str = match env.get_source(value_loc) {
            Some(s) => s,
            None => String::new(),
        };
        assert(value_str@ =~= source_or_empty(env, *value_loc));
        let constants = &env.modules[self.target_module_id].constants;
        assert(constants@.take(0) =~= seq![]);
        for i in 0..constants.len()
            invariant
                self@ == old(self)@.record_all(
                    constant_hits(constants@.take(i as int), value_str@, value_loc.span),
                ),
        {
            let named_const = &constants[i];
            assert(constants@.take(i + 1).drop_last() =~= constants@.take(i as int));
            if str_contains(value_str.as_str(), named_const.name.as_str()) {
                self.record(&value_loc.span, named_const.value.as_str());
                proof {
                    let before = constant_hits(
                        constants@.take(i as int),
                        value_str@,
                        value_loc.span,
                    );
                    let hit = Hit { span: value_loc.span, text: named_const.value@ };
                    assert(before.push(hit).drop_last() =~= before);
                }
            }
        }
        assert(constants@.take(constants@.len() as int) =~= constants@);
    }

    /// Adds the types of the fields with the given name.
    fn process_fields(&mut self, fields: &Vec<FieldEnv>, name: &str, span: &Span)
        ensures
            final(self)@ == old(self)@.record_all(field_hits(fields@, name@, *span)),
    {
        let name_chars = chars_of(name);
        assert(fields@.take(0) =~= seq![]);
        for i in 0..fields.len()
            invariant
                name_chars@ == name@,
                self@ == old(self)@.record_all(field_hits(fields@.take(i as int), name@, *span)),
        {
            let field_env = &fields[i];
            assert(fields@.take(i + 1).drop_last() =~= fields@.take(i as int));
            let field_name = chars_of(field_env.name.as_str());
            if same_text(field_name.as_slice(), name_chars.as_slice()) {
                self.record(span, field_env.ty.as_str());
                proof {
                    let before = field_hits(fields@.take(i as int), name@, *span);
                    let hit = Hit { span: *span, text: field_env.ty@ };
                    assert(before.push(hit).drop_last() =~= before);
                }
            }
        }
        assert(fields@.take(fields@.len() as int) =~= fields@);
    }

    /// Adds the types of the fields that are named, in the source at `this_loc`, under the cursor.
    pub fn process_struct_field(
        &mut self,
        env: &GlobalEnv,
        this_loc: &Loc,
        tokens: &Vec<Token>,
        fields: &Vec<FieldEnv>,
    )
        requires
            this_loc.file < env.files@.len(),
            tokens_wf(*this_loc, tokens@),
        ensures
            final(self)@ == old(self)@.record_all(
                old(self)@.cursor.struct_field_hits(
                    env,
                    *this_loc,
                    tokens@,
                    fields@,
                    tokens@.len() as int,
                ),
            ),
    {
        let ghost cursor = self@.cursor;
        for i in 0..tokens.len()
            invariant
                this_loc.file < env.files@.len(),
                tokens_wf(*this_loc, tokens@),
                cursor == old(self)@.cursor,
                self@.cursor == cursor,
                self@ == old(self)@.record_all(
                    cursor.struct_field_hits(env, *this_loc, tokens@, fields@, i as int),
                ),
        {
            let ghost before = self@;
            if i + 1 < tokens.len() && tokens[i].kind == Tok::Identifier && tokens[i + 1].kind
                == Tok::Colon {
                assert(names_field(tokens@, i as int));
                let start: u32 = advance(this_loc.span.start, tokens[i].start as i64);
                let end: u32 = advance(this_loc.span.start, tokens[i].end as i64);
                let field_loc = Loc { file: this_loc.file, span: span(start, end) };
                assert(field_loc == token_loc(*this_loc, tokens@[i as int]));
                if !(field_loc.span.start > self.mouse_span.end || self.mouse_span.end
                    > field_loc.span.end) {
                    let field_source = match env.get_source(&field_loc) {
                        Some(s) => s,
                        None => String::new(),
                    };
                    assert(field_source@ =~= source_or_empty(env, field_loc));
                    self.process_fields(fields, field_source.as_str(), &field_loc.span);
                    proof {
                        let hits = field_hits(fields@, field_source@, field_loc.span);
                        lemma_record_all_frame(before, hits);
                        lemma_record_all_add(
                            old(self)@,
                            cursor.struct_field_hits(env, *this_loc, tokens@, fields@, i as int),
                            hits,
                        );
                    }
                }
            }
        }
    }

    /// The part of a call from its first `<` on.
    fn find_generic_span(&self, env: &GlobalEnv, this_call_loc: &Loc) -> (r: Span)
        requires
            env.source_wf(*this_call_loc),
        ensures
            r == generic_span(env, *this_call_loc),
    {
        if let Some(source) = env.get_source(this_call_loc) {
            let source = chars_of(source.as_str());
            if let Some(index) = find_char(source.as_slice(), '<') {
                let before = slice_subrange(source.as_slice(), 0, index);
                assert(before@ =~= source@.take(index as int));
                proof {
                    lemma_sliced(
                        env.source(this_call_loc.file),
                        this_call_loc.span.start as int,
                        this_call_loc.span.end as int,
                    );
                    lemma_byte_pos_bound(source@, index as int);
                }
                let offset: i64 = utf8_len(before) as i64;
                let start: u32 = advance(this_call_loc.span.start, offset);
                return span(start, this_call_loc.span.end);
            }
        } else {
            proof {
                lemma_find(seq![], seq!['<']);
            }
        }
        this_call_loc.span
    }

    /// Adds the type of what stands at `loc`, if it is known.
    fn process_known_type(&mut self, loc: &Loc, ty: &Option<String>)
        ensures
            final(self)@ == old(self)@.record_all(known_type_hits(*ty, loc.span)),
    {
        if let Some(ty) = ty {
            self.process_type(loc, ty.as_str());
            proof {
                lemma_record_all_one(old(self)@, Hit { span: loc.span, text: ty@ });
            }
        }
    }

    /// Adds what is found at a call.
    pub fn process_call(&mut self, env: &GlobalEnv, this_call_loc: &Loc, op: &Operation)
        requires
            env.call_wf(*this_call_loc, *op),
        ensures
            final(self)@ == old(self)@.record_all(
                old(self)@.cursor.call_hits(env, *this_call_loc, *op),
            ),
    {
        let span = this_call_loc.span;
        let mouse: u32 = self.mouse_span.end;
        match op {
            Operation::MoveFunction { header } => {
                if span.start < mouse && mouse < span.end {
                    self.record(&span, header.as_str());
                    proof {
                        lemma_record_all_one(old(self)@, Hit { span, text: header@ });
                    }
                }
            },
            Operation::Select { field_type } => {
                if span.start > mouse || mouse > span.end {
                    return;
                }
                self.process_type(this_call_loc, field_type.as_str());
                proof {
                    lemma_record_all_one(old(self)@, Hit { span, text: field_type@ });
                }
            },
            Operation::SpecFunction { name, inst } => {
                if span.start < mouse && mouse < span.end {
                    self.record(&span, name.as_str());
                    let generic_ty_loc = Loc {
                        file: this_call_loc.file,
                        span: self.find_generic_span(env, this_call_loc),
                    };
                    let ghost head = Hit { span, text: name@ };
                    proof {
                        lemma_record_all_one(old(self)@, head);
                        assert(type_hits(inst@, generic_ty_loc.span).take(0) =~= seq![]);
                    }
                    let ghost named = self@;
                    for i in 0..inst.len()
                        invariant
                            self@ == named.record_all(
                                type_hits(inst@, generic_ty_loc.span).take(i as int),
                            ),
                    {
                        self.process_type(&generic_ty_loc, inst[i].as_str());
                        proof {
                            let hits = type_hits(inst@, generic_ty_loc.span);
                            assert(hits.take(i + 1).drop_last() =~= hits.take(i as int));
                        }
                    }
                    proof {
                        let hits = type_hits(inst@, generic_ty_loc.span);
                        assert(hits.take(inst@.len() as int) =~= hits);
                        lemma_record_all_add(old(self)@, seq![head], hits);
                    }
                }
            },
            Operation::Pack { ty, fields, tokens } => {
                if span.start > mouse || mouse > span.end {
                    return;
                }
                self.process_known_type(this_call_loc, ty);
                proof {
                    lemma_record_all_frame(old(self)@, known_type_hits(*ty, span));
                    lemma_record_all_add(
                        old(self)@,
                        known_type_hits(*ty, span),
                        self@.cursor.struct_field_hits(
                            env,
                            *this_call_loc,
                            tokens@,
                            fields@,
                            tokens@.len() as int,
                        ),
                    );
                }
                self.process_struct_field(env, this_call_loc, tokens, fields);
            },
            Operation::Other => {},
        }
    }

    /// Adds what is found at the given patterns.
    fn match_patterns(&mut self, env: &GlobalEnv, patterns: &Vec<Pattern>)
        requires
            forall|i: int| 0 <= i < patterns@.len() ==> env.pattern_wf(#[trigger] patterns@[i]),
        ensures
            final(self)@ == old(self)@.record_all(
                old(self)@.cursor.patterns_hits(env, patterns@, patterns@.len()),
            ),
        decreases patterns@, 1nat,
    {
        let ghost cursor = self@.cursor;
        for i in 0..patterns.len()
            invariant
                forall|i: int| 0 <= i < patterns@.len() ==> env.pattern_wf(#[trigger] patterns@[i]),
                cursor == old(self)@.cursor,
                self@.cursor == cursor,
                self@ == old(self)@.record_all(cursor.patterns_hits(env, patterns@, i as nat)),
        {
            let ghost before = self@;
            self.match_pattern(env, &patterns[i]);
            proof {
                let hits = cursor.pattern_hits(env, patterns@[i as int]);
                lemma_record_all_frame(before, hits);
                lemma_record_all_add(
                    old(self)@,
                    cursor.patterns_hits(env, patterns@, i as nat),
                    hits,
                );
            }
        }
    }

    /// Adds what is found at a pattern.
    pub fn match_pattern(&mut self, env: &GlobalEnv, pattern: &Pattern)
        requires
            env.pattern_wf(*pattern),
        ensures
            final(self)@ == old(self)@.record_all(old(self)@.cursor.pattern_hits(env, *pattern)),
        decreases *pattern, 0nat,
    {
        let mouse: u32 = self.mouse_span.end;
        match pattern {
            Pattern::Struct { loc, args, fields, tokens } => {
                if loc.span.start > mouse || mouse > loc.span.end {
                    return;
                }
                // the variables
                self.match_patterns(env, args);
                proof {
                    let hits = old(self)@.cursor.patterns_hits(env, args@, args@.len());
                    lemma_record_all_frame(old(self)@, hits);
                    lemma_record_all_add(
                        old(self)@,
                        hits,
                        self@.cursor.struct_field_hits(
                            env,
                            *loc,
                            tokens@,
                            fields@,
                            tokens@.len() as int,
                        ),
                    );
                }
                // the fields
                self.process_struct_field(env, loc, tokens, fields);
            },
            Pattern::Tuple { loc, args } => {
                if loc.span.start > mouse || mouse > loc.span.end {
                    return;
                }
                self.match_patterns(env, args);
            },
            Pattern::Var { loc, ty } => {
                if loc.span.start > mouse || mouse > loc.span.end {
                    return;
                }
                self.process_known_type(loc, ty);
            },
            Pattern::Other => {},
        }
    }

    /// Adds what is found at a node of an expression.
    fn process_node(&mut self, env: &GlobalEnv, node: &ExpData)
        requires
            env.node_wf(*node),
            old(self).target_module_id < env.modules@.len(),
        ensures
            final(self)@ == old(self)@.record_all(old(self)@.cursor.node_hits(env, *node)),
    {
        match node {
            ExpData::Value(value_loc) => self.process_value(env, value_loc),
            ExpData::Call(loc, op) => self.process_call(env, loc, op),
            ExpData::LocalVar { loc, name, ty } => {
                if loc.span.start > self.mouse_span.end || self.mouse_span.end > loc.span.end {
                    return;
                }
                // made by the compiler for a loop over a range
                if *name == "__update_iter_flag".to_string() || *name
                    == "__upper_bound_value".to_string() {
                    return;
                }
                self.process_known_type(loc, ty);
            },
            ExpData::Temporary { loc, ty } => {
                if loc.span.start > self.mouse_span.end || self.mouse_span.end > loc.span.end {
                    return;
                }
                self.process_known_type(loc, ty);
            },
            ExpData::Block(pattern) => self.match_pattern(env, pattern),
            ExpData::Assign(pattern) => self.match_pattern(env, pattern),
            ExpData::Other => {},
        }
    }

    /// Adds what is found at the nodes of an expression, inner nodes first.
    pub fn process_expr(&mut self, env: &GlobalEnv, exp: &Exp)
        requires
            env.exp_wf(*exp),
            old(self).target_module_id < env.modules@.len(),
        ensures
            final(self)@ == old(self)@.record_all(old(self)@.cursor.nodes_hits(env, exp.nodes@)),
    {
        let ghost cursor = self@.cursor;
        assert(exp.nodes@.take(0) =~= seq![]);
        for i in 0..exp.nodes.len()
            invariant
                env.exp_wf(*exp),
                cursor == old(self)@.cursor,
                self@.cursor == cursor,
                cursor.module < env.modules@.len(),
                self@ == old(self)@.record_all(
                    cursor.nodes_hits(env, exp.nodes@.take(i as int)),
                ),
        {
            let ghost before = self@;
            self.process_node(env, &exp.nodes[i]);
            proof {
                let hits = cursor.node_hits(env, exp.nodes@[i as int]);
                lemma_record_all_frame(before, hits);
                assert(exp.nodes@.take(i + 1).drop_last() =~= exp.nodes@.take(i as int));
                lemma_record_all_add(
                    old(self)@,
                    cursor.nodes_hits(env, exp.nodes@.take(i as int)),
                    hits,
                );
            }
        }
        assert(exp.nodes@.take(exp.nodes@.len() as int) =~= exp.nodes@);
    }

    /// Adds what is found at some expressions.
    fn process_exps(&mut self, env: &GlobalEnv, exps: &Vec<Exp>)
        requires
            forall|i: int| 0 <= i < exps@.len() ==> env.exp_wf(#[trigger] exps@[i]),
            old(self).target_module_id < env.modules@.len(),
        ensures
            final(self)@ == old(self)@.record_all(old(self)@.cursor.exps_hits(env, exps@)),
    {
        let ghost cursor = self@.cursor;
        assert(exps@.take(0) =~= seq![]);
        for i in 0..exps.len()
            invariant
                forall|i: int| 0 <= i < exps@.len() ==> env.exp_wf(#[trigger] exps@[i]),
                cursor == old(self)@.cursor,
                self@.cursor == cursor,
                cursor.module < env.modules@.len(),
                self@ == old(self)@.record_all(cursor.exps_hits(env, exps@.take(i as int))),
        {
            let ghost before = self@;
            self.process_expr(env, &exps[i]);
            proof {
                let hits = cursor.nodes_hits(env, exps@[i as int].nodes@);
                lemma_record_all_frame(before, hits);
                assert(exps@.take(i + 1).drop_last() =~= exps@.take(i as int));
                lemma_record_all_add(
                    old(self)@,
                    cursor.exps_hits(env, exps@.take(i as int)),
                    hits,
                );
            }
        }
        assert(exps@.take(exps@.len() as int) =~= exps@);
    }

    /// Adds what is found at the conditions of a specification.
    pub fn process_conditions(&mut self, env: &GlobalEnv, conditions: &Vec<Condition>)
        requires
            env.conditions_wf(conditions@),
            old(self).target_module_id < env.modules@.len(),
        ensures
            final(self)@ == old(self)@.record_all(
                old(self)@.cursor.conditions_hits(env, conditions@),
            ),
    {
        let ghost cursor = self@.cursor;
        assert(conditions@.take(0) =~= seq![]);
        for i in 0..conditions.len()
            invariant
                env.conditions_wf(conditions@),
                cursor == old(self)@.cursor,
                self@.cursor == cursor,
                cursor.module < env.modules@.len(),
                self@ == old(self)@.record_all(
                    cursor.conditions_hits(env, conditions@.take(i as int)),
                ),
        {
            let ghost before = self@;
            assert(env.condition_wf(conditions@[i as int]));
            self.process_exps(env, &conditions[i].exps);
            proof {
                let hits = cursor.exps_hits(env, conditions@[i as int].exps@);
                lemma_record_all_frame(before, hits);
                assert(conditions@.take(i + 1).drop_last() =~= conditions@.take(i as int));
                lemma_record_all_add(
                    old(self)@,
                    cursor.conditions_hits(env, conditions@.take(i as int)),
                    hits,
                );
            }
        }
        assert(conditions@.take(conditions@.len() as int) =~= conditions@);
    }
}

} // verus!
