use move_hover::handler::Handler;
use move_hover::model::{
    Condition, Exp, ExpData, FieldEnv, FunctionEnv, GlobalEnv, Loc, ModuleEnv, NamedConstantEnv,
    SpecBlockInfo, SpecBlockTarget, StructEnv,
};
use move_hover::source::Span;

const SOURCE: &str = "module 0x1::m {
    const MAX: u64 =
        7;
    struct S {
        first: u64, // one
        second: vector<u8>,
    }
    fun f(x: u64): u64 {
        x + 1
    }
    native fun g();
    spec f {
        ensures result > x;
    }
    spec S {
        invariant first > 0;
    }
    // Far behind, so that there is enough of the file after each of the fields of the struct above.
}
";

fn at(text: &str) -> Span {
    let start = SOURCE.find(text).unwrap() as u32;
    Span { start, end: start + text.len() as u32 }
}

fn loc(text: &str) -> Loc {
    Loc { file: 0, span: at(text) }
}

fn from_to(from: &str, to: &str) -> Loc {
    let start = SOURCE.find(from).unwrap();
    let end = start + SOURCE[start..].find(to).unwrap() + to.len();
    Loc { file: 0, span: Span { start: start as u32, end: end as u32 } }
}

fn temporary(text: &str, ty: &str) -> Exp {
    Exp { nodes: vec![ExpData::Temporary { loc: loc(text), ty: Some(ty.to_string()) }] }
}

fn env() -> GlobalEnv {
    let function = |name: &str, loc: Loc, def: Option<Exp>| FunctionEnv {
        name: name.to_string(),
        full_name: format!("m::{}", name),
        loc,
        parameters: vec![],
        result_type: "()".to_string(),
        def,
        spec_conditions: vec![Condition { exps: vec![temporary("result", "num")] }],
    };
    let module = ModuleEnv {
        name: "m".to_string(),
        full_name: "0x1::m".to_string(),
        loc: Loc { file: 0, span: Span { start: 0, end: SOURCE.len() as u32 } },
        use_decls: vec![],
        functions: vec![
            function("g", loc("native fun g();"), None),
            function("f", from_to("fun f", "\n    }"), Some(temporary("x + 1", "u64"))),
        ],
        structs: vec![StructEnv {
            name: "S".to_string(),
            full_name: "m::S".to_string(),
            loc: from_to("struct S", "\n    }"),
            fields: vec![
                FieldEnv { name: "first".to_string(), ty: "u64".to_string() },
                FieldEnv { name: "second".to_string(), ty: "vector<u8>".to_string() },
                FieldEnv { name: "third".to_string(), ty: "bool".to_string() },
            ],
            spec_conditions: vec![Condition { exps: vec![temporary("first > 0", "bool")] }],
        }],
        constants: vec![NamedConstantEnv {
            name: "MAX".to_string(),
            loc: from_to("const MAX", ";"),
            ty: "u64".to_string(),
            value: "7".to_string(),
            value_debug: "Number(7)".to_string(),
        }],
        spec_blocks: vec![
            SpecBlockInfo { loc: from_to("spec f", "\n    }"), target: SpecBlockTarget::Other },
            SpecBlockInfo {
                loc: from_to("spec S", "\n    }"),
                target: SpecBlockTarget::Struct(0),
            },
            SpecBlockInfo {
                loc: from_to("spec f", "\n    }"),
                target: SpecBlockTarget::Function(1),
            },
        ],
    };
    GlobalEnv { files: vec![SOURCE.to_string()], modules: vec![module] }
}

/// Whether the first module can be hovered over, and whether its specifications can, at `text`.
fn admits(env: &GlobalEnv, text: &str) -> (bool, bool) {
    let handler = over(text);
    let module = &env.modules[0];
    (handler.admits_items(env, module), handler.admits_specs(env, module))
}

/// A handler whose cursor stands at the start of `text`.
fn over(text: &str) -> Handler {
    let before = &SOURCE[..at(text).start as usize];
    let line = before.matches('\n').count() as u32;
    let col = before.len() - before.rfind('\n').map_or(0, |k| k + 1);
    Handler::new(String::new(), line, col as u32)
}

#[test]
fn a_constant_on_each_of_its_lines() {
    for text in ["const MAX", "7;"] {
        let mut handler = over(text);
        handler.process_const(&env());
        handler.process_const(&env());
        assert_eq!(handler.capture_items_span, vec![from_to("const MAX", ";").span]);
        assert_eq!(handler.get_result().contents, "u64");
    }
    for text in ["module", "struct"] {
        let mut handler = over(text);
        handler.process_const(&env());
        assert!(handler.capture_items_span.is_empty());
    }
}

#[test]
fn the_body_of_a_function() {
    let mut handler = over("x + 1");
    handler.process_func(&env());
    handler.process_func(&env());
    assert_eq!(handler.target_function_id, None);
    assert_eq!(handler.mouse_span.end, at("x + 1").start);
    assert_eq!(handler.capture_items_span, vec![at("x + 1")]);
    assert_eq!(handler.get_result().contents, "u64");
}

#[test]
fn the_first_and_last_line_of_a_function_are_no_body() {
    for text in ["fun f", "native", "module"] {
        let mut handler = over(text);
        handler.process_func(&env());
        assert!(handler.capture_items_span.is_empty());
        assert_eq!(handler.mouse_span, Span { start: 0, end: 0 });
    }
}

#[test]
fn a_native_function_has_no_body() {
    let mut env = env();
    env.modules[0].functions[0].loc = from_to("fun f", "\n    }");
    let mut handler = over("x + 1");
    handler.process_func(&env);
    // the first function around the cursor is taken
    assert!(handler.capture_items_span.is_empty());
    assert_eq!(handler.mouse_span.end, at("x + 1").start);
}

#[test]
fn the_fields_of_a_struct() {
    let mut handler = over(": u64, // one");
    handler.process_struct(&env());
    handler.process_struct(&env());
    assert_eq!(handler.capture_items_span, vec![at(": u64, // one")]);
    assert_eq!(handler.get_result().contents, "u64");
    let mut handler = over("vector<u8>");
    handler.process_struct(&env());
    assert_eq!(handler.capture_items_span, vec![at(": vector<u8>,")]);
    assert_eq!(handler.get_result().contents, "vector<u8>");
    // on the name itself
    let mut handler = over("first");
    handler.process_struct(&env());
    assert!(handler.capture_items_span.is_empty());
    // on the first line
    let mut handler = over("struct");
    handler.process_struct(&env());
    assert!(handler.capture_items_span.is_empty());
}

#[test]
fn fields_near_the_end_of_a_file() {
    let source = "struct S {\n    a: u8\n}\n";
    let mut env = env();
    env.files.push(source.to_string());
    let stct = &mut env.modules[0].structs[0];
    stct.loc = Loc { file: 1, span: Span { start: 0, end: 22 } };
    stct.fields = vec![FieldEnv { name: "a".to_string(), ty: "u8".to_string() }];
    let mut handler = Handler::new(String::new(), 1, 6);
    handler.process_struct(&env);
    assert_eq!(handler.mouse_span, Span { start: 11, end: 17 });
    assert!(handler.capture_items_span.is_empty());
    // with enough text after the field it is found
    env.files[1].push_str(&"/".repeat(128));
    handler.process_struct(&env);
    assert_eq!(handler.capture_items_span, vec![Span { start: 16, end: 20 }]);
    assert_eq!(handler.get_result().contents, "u8");
}

#[test]
fn the_specification_of_a_function() {
    let mut handler = over("result");
    handler.process_spec_func(&env());
    handler.process_spec_func(&env());
    assert_eq!(handler.capture_items_span, vec![at("result")]);
    assert_eq!(handler.get_result().contents, "num");
    // its first line belongs to it
    let mut handler = over("spec f");
    handler.process_spec_func(&env());
    assert_eq!(handler.mouse_span.end, at("spec f").start);
    assert!(handler.capture_items_span.is_empty());
    // that of a struct does not
    let mut handler = over("invariant");
    handler.process_spec_func(&env());
    assert_eq!(handler.mouse_span, Span { start: 0, end: 0 });
}

#[test]
fn the_specification_of_a_struct() {
    let mut handler = over("first > 0");
    handler.process_spec_struct(&env());
    handler.process_spec_struct(&env());
    assert_eq!(handler.capture_items_span, vec![at("first > 0")]);
    assert_eq!(handler.get_result().contents, "bool");
    let mut handler = over("result");
    handler.process_spec_struct(&env());
    assert!(handler.capture_items_span.is_empty());
}

#[test]
fn a_specification_at_no_place() {
    let mut env = env();
    let nowhere = Span { start: 5, end: 4000000 };
    env.modules[0].spec_blocks[2].loc.span = nowhere;
    let mut handler = over("result");
    assert!(handler.admits_function_specs(&env, &env.modules[0]));
    handler.process_spec_func(&env);
    assert!(handler.capture_items_span.is_empty());
}

#[test]
fn everywhere_in_a_whole_project() {
    let env = env();
    for line in 0..25 {
        let handler = Handler::new(String::new(), line, 3);
        assert!(handler.admits_items(&env, &env.modules[0]));
        assert!(handler.admits_specs(&env, &env.modules[0]));
    }
}

#[test]
fn functions_up_to_the_one_around_the_cursor_need_a_place() {
    let mut broken = env();
    broken.modules[0].functions[0].loc.span.end = 4000000;
    assert_eq!(admits(&broken, "x + 1"), (false, true));
    // behind the one around the cursor none is looked at
    broken.modules[0].functions.swap(0, 1);
    assert_eq!(admits(&broken, "x + 1"), (true, true));
    assert_eq!(admits(&broken, "module"), (false, true));
}

#[test]
fn the_body_of_the_function_around_the_cursor_is_read() {
    let mut broken = env();
    let nowhere = Loc { file: 9, span: Span { start: 0, end: 0 } };
    broken.modules[0].functions[1].def = Some(Exp { nodes: vec![ExpData::Value(nowhere)] });
    assert_eq!(admits(&broken, "x + 1"), (false, true));
    assert_eq!(admits(&broken, "first"), (true, true));
}

#[test]
fn constants_and_structs_need_a_place() {
    let mut broken = env();
    broken.modules[0].constants[0].loc.span.start = u32::MAX;
    assert_eq!(admits(&broken, "first"), (false, true));
    let mut broken = env();
    broken.modules[0].structs[0].loc.file = 1;
    assert_eq!(admits(&broken, "first"), (false, true));
    let mut broken = env();
    broken.modules[0].loc.file = 1;
    assert_eq!(admits(&broken, "first"), (false, true));
}

#[test]
fn the_specification_around_the_cursor_needs_its_target() {
    let mut broken = env();
    broken.modules[0].spec_blocks[1].target = SpecBlockTarget::Struct(1);
    assert_eq!(admits(&broken, "invariant"), (true, false));
    assert_eq!(admits(&broken, "result"), (true, true));
    let mut broken = env();
    broken.modules[0].spec_blocks[2].target = SpecBlockTarget::Function(2);
    assert_eq!(admits(&broken, "result"), (true, false));
    assert_eq!(admits(&broken, "invariant"), (true, true));
}

#[test]
fn specifications_up_to_the_one_around_the_cursor_are_looked_up() {
    let mut broken = env();
    broken.modules[0].spec_blocks[1].loc.span.end = u32::MAX;
    assert_eq!(admits(&broken, "result"), (true, false));
    let mut broken = env();
    // one without a target that counts is not looked up
    broken.modules[0].spec_blocks[0].loc.span.end = u32::MAX;
    assert_eq!(admits(&broken, "result"), (true, true));
}

#[test]
fn columns_must_fit_where_the_cursor_is_placed() {
    let mut env = env();
    assert!(env.admits_cursor(0, 1, 1000));
    assert!(env.admits_cursor(0, 1000, u32::MAX));
    assert!(!env.admits_cursor(0, 1, u32::MAX));
    assert!(!env.admits_cursor(1, 0, 0));
    // a file in which the line starts later does no harm, unless the cursor is placed there
    let col = u32::MAX - SOURCE.len() as u32;
    env.files.push("\n".to_string() + &" ".repeat(2000) + "\n" + &"\n".repeat(99));
    assert!(!env.admits_cursor(1, 8, col));
    let handler = Handler::new(String::new(), 8, col);
    assert!(handler.admits_items(&env, &env.modules[0]));
    env.modules[0].functions[1].loc.file = 1;
    env.modules[0].functions[1].loc.span = Span { start: 0, end: 2050 };
    assert!(!handler.admits_items(&env, &env.modules[0]));
}
