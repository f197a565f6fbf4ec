use move_hover::handler::Handler;
use move_hover::model::{
    FieldEnv, FunctionEnv, GlobalEnv, Loc, ModuleEnv, NamedConstantEnv, Parameter, StructEnv,
};
use move_hover::source::Span;

fn handler() -> Handler {
    Handler::new(String::new(), 0, 0)
}

fn loc() -> Loc {
    Loc { file: 0, span: Span { start: 0, end: 0 } }
}

fn function(name: &str, parameters: &[(&str, &str)], result_type: &str) -> FunctionEnv {
    FunctionEnv {
        name: name.to_string(),
        full_name: format!("coin::{}", name),
        loc: loc(),
        parameters: parameters
            .iter()
            .map(|(name, ty)| Parameter { name: name.to_string(), ty: ty.to_string() })
            .collect(),
        result_type: result_type.to_string(),
        def: None,
        spec_conditions: vec![],
    }
}

fn structure(name: &str, fields: &[(&str, &str)]) -> StructEnv {
    StructEnv {
        name: name.to_string(),
        full_name: format!("coin::{}", name),
        loc: loc(),
        fields: fields
            .iter()
            .map(|(name, ty)| FieldEnv { name: name.to_string(), ty: ty.to_string() })
            .collect(),
        spec_conditions: vec![],
    }
}

fn constant(name: &str) -> NamedConstantEnv {
    NamedConstantEnv {
        name: name.to_string(),
        loc: loc(),
        ty: "u64".to_string(),
        value: "7".to_string(),
        value_debug: "Number(7)".to_string(),
    }
}

fn module(full_name: &str, name: &str) -> ModuleEnv {
    ModuleEnv {
        name: name.to_string(),
        full_name: full_name.to_string(),
        loc: loc(),
        use_decls: vec![],
        functions: vec![],
        structs: vec![],
        constants: vec![],
        spec_blocks: vec![],
    }
}

fn env() -> GlobalEnv {
    let mut coin = module("0x1::coin", "coin");
    coin.functions = vec![function("mint", &[("to", "address"), ("n", "u64")], "()")];
    coin.structs = vec![structure("Coin", &[("value", "u64")]), structure("Nothing", &[])];
    coin.constants = vec![constant("MAX"), constant("MIN")];
    let empty = module("0x2::token", "token");
    GlobalEnv { files: vec![String::new()], modules: vec![coin, empty] }
}

#[test]
fn a_function_is_shown_with_its_signature() {
    let none = function("f", &[], "bool");
    assert_eq!(handler().format_function_signature(&none), "```rust \npublic fun f() -> bool\n```");
    let two = function("g", &[("a", "u8"), ("b", "T")], "()");
    assert_eq!(
        handler().format_function_signature(&two),
        "```rust \npublic fun g(a: u8, b: T) -> ()\n```"
    );
}

#[test]
fn a_struct_is_shown_with_its_fields() {
    let none = structure("S", &[]);
    assert_eq!(
        handler().format_struct_definition(&none),
        "```rust \nstruct S {\n    // No fields\n}\n```"
    );
    let two = structure("S", &[("a", "u8"), ("b", "T")]);
    assert_eq!(
        handler().format_struct_definition(&two),
        "```rust \nstruct S {\n    a: u8,\n    b: T,\n}\n```"
    );
}

#[test]
fn a_constant_is_shown_with_its_value() {
    assert_eq!(
        handler().format_constant_definition(&constant("C")),
        "```rust \nconst C: u64 = Number(7)\n```"
    );
}

#[test]
fn imported_items() {
    let env = env();
    let shown = |module: &str, item: &str| handler().get_item_details(&env, module, item);
    assert_eq!(
        shown("coin", "mint"),
        "0x1::coin\n```rust \npublic fun mint(to: address, n: u64) -> ()\n```"
    );
    assert_eq!(
        shown("0x1::coin", "Coin"),
        "0x1::coin\n```rust \nstruct Coin {\n    value: u64,\n}\n```"
    );
    assert_eq!(shown("coin", "MIN"), "0x1::coin\n```rust \nconst MIN: u64 = Number(7)\n```");
    assert_eq!(shown("coin", "burn"), "**Type:** Unknown item");
    assert_eq!(shown("vault", "mint"), "**Type:** Unknown item");
}

#[test]
fn a_part_of_the_name_of_an_item_is_enough() {
    let env = env();
    let shown = |item: &str| handler().get_item_details(&env, "coin", item);
    assert!(shown("min").contains("public fun mint("));
    // the full names of the functions come before the structs
    assert!(shown("coin").contains("public fun mint("));
    assert!(shown("Noth").contains("struct Nothing"));
    // every constant goes by the full name of its module too
    assert!(shown("0x1").contains("const MAX"));
}

#[test]
fn a_module_that_is_imported_as_an_item() {
    let env = env();
    assert_eq!(
        handler().get_item_details(&env, "token", "token"),
        "```move \nmodule 0x2::token {\n    // Functions: 0\n    // Structs: 0\n    // Constants: 0\n}\n```"
    );
}

#[test]
fn a_module_with_a_long_summary() {
    let mut big = module("0x3::big", "self");
    big.functions = (0..12).map(|_| function("x", &[], "()")).collect();
    big.structs = (0..3).map(|_| structure("y", &[])).collect();
    let env = GlobalEnv { files: vec![String::new()], modules: vec![big] };
    assert_eq!(
        handler().get_item_details(&env, "big", "self"),
        "```move \nmodule 0x3::big {\n    // Functions: 12\n    // Structs: 3\n    // Constants: 0\n}\n```"
    );
}

#[test]
fn a_later_module_of_the_same_name_is_found() {
    let mut second = module("0x2::coin", "coin");
    second.functions = vec![function("burn", &[], "()")];
    let mut env = env();
    env.modules.push(second);
    let shown = handler().get_item_details(&env, "coin", "burn");
    assert_eq!(shown, "0x2::coin\n```rust \npublic fun burn() -> ()\n```");
}

#[test]
fn names_of_modules() {
    let matches = |used: &str, actual: &str| handler().module_names_match(used, actual);
    assert!(matches("0x1::coin", "0x1::coin"));
    assert!(matches("coin", "0x1::coin"));
    assert!(matches("0x1", "0x1::coin"));
    assert!(matches("oi", "0x1::coin"));
    assert!(matches("aptos_framework::coin", "0x1::coin"));
    assert!(matches("", "0x1::coin"));
    assert!(!matches("0x1::coins", "0x1::coin"));
    assert!(!matches("coin::mint", "0x1::coin"));
}

#[test]
fn own_items_are_known() {
    let env = env();
    for item in ["mint", "Coin", "Nothing", "MAX", "MIN", "coin"] {
        assert_ne!(handler().get_item_details(&env, "coin", item), "**Type:** Unknown item");
    }
}
