use move_hover::handler::Handler;
use move_hover::model::{FunctionEnv, GlobalEnv, Loc, ModuleEnv, Parameter, UseDecl, UseMember};
use move_hover::source::Span;

const SOURCE: &str = "module 0x1::main {
    /// Works with tokens.
    use std::token::{Self, Coin, mint as make};

    // An ordinary comment.
    use std::token::Coin;
    use std::signer;



    /// Trusted.

    /// Very much so.
    friend 0x1::vault;
    friend
    public fun f() {}
}
";

fn at(text: &str) -> Span {
    let start = SOURCE.find(text).unwrap() as u32;
    Span { start, end: start + text.len() as u32 }
}

fn loc(text: &str) -> Loc {
    Loc { file: 0, span: at(text) }
}

fn module(full_name: &str, name: &str) -> ModuleEnv {
    ModuleEnv {
        name: name.to_string(),
        full_name: full_name.to_string(),
        loc: Loc { file: 0, span: Span { start: 0, end: SOURCE.len() as u32 } },
        use_decls: vec![],
        functions: vec![],
        structs: vec![],
        constants: vec![],
        spec_blocks: vec![],
    }
}

fn decl(name: &str, text: &str, members: Vec<UseMember>) -> UseDecl {
    UseDecl { module_name: name.to_string(), loc: loc(text), members }
}

fn env() -> GlobalEnv {
    let mut main = module("0x1::main", "main");
    main.use_decls = vec![
        decl(
            "std::token",
            "use std::token::{Self, Coin, mint as make};",
            vec![
                UseMember { loc: loc("Coin, "), name: "Coin".to_string() },
                UseMember { loc: loc("mint as"), name: "mint".to_string() },
            ],
        ),
        decl(
            "std::token",
            "use std::token::Coin;",
            vec![UseMember { loc: loc("Coin;"), name: "Coin".to_string() }],
        ),
        decl("std::signer", "use std::signer;", vec![]),
    ];
    // a member ends with its name
    main.use_decls[0].members[0].loc.span.end -= 2;
    main.use_decls[0].members[1].loc.span.end -= 3;
    main.use_decls[1].members[0].loc.span.end -= 1;
    let mut token = module("std::token", "token");
    token.functions = vec![FunctionEnv {
        name: "mint".to_string(),
        full_name: "std::token::mint".to_string(),
        loc: loc("module"),
        parameters: vec![Parameter { name: "n".to_string(), ty: "u64".to_string() }],
        result_type: "Coin".to_string(),
        def: None,
        spec_conditions: vec![],
    }];
    GlobalEnv { files: vec![SOURCE.to_string()], modules: vec![main, token] }
}

fn used(line: u32, col: u32) -> Handler {
    let env = env();
    let mut handler = Handler::new(String::new(), line, col);
    assert!(handler.admits_uses(&env, &env.modules[0]));
    handler.process_use_decl(&env);
    handler
}

const TOKEN: &str = "```move\nmodule std::token {\n    // Module contents\n}\n```";
const MINT: &str = "std::token\n```rust \npublic fun mint(n: u64) -> Coin\n```";

#[test]
fn a_module_before_a_brace() {
    let docs = "\n\n**Documentation:**\nWorks with tokens.";
    for col in [0, 10, 20] {
        let mut handler = used(2, col);
        assert_eq!(handler.capture_items_span.len(), 1);
        assert_eq!(
            handler.capture_items_span[0],
            at("use std::token::{Self, Coin, mint as make};")
        );
        assert_eq!(handler.get_result().contents, format!("{}{}", TOKEN, docs));
    }
}

#[test]
fn the_keyword_self_shows_the_module() {
    // the keyword stands behind the brace, in columns 21 to 25
    for col in [21, 25] {
        let mut handler = used(2, col);
        assert!(handler.get_result().contents.starts_with(TOKEN));
    }
}

#[test]
fn a_member_in_braces() {
    let mut handler = used(2, 35);
    assert_eq!(handler.capture_items_span, vec![at("mint")]);
    let text = format!("{}\n\n**Documentation:**\nWorks with tokens.", MINT);
    assert_eq!(handler.get_result().contents, text);
    // no module has anything of that name
    let mut handler = used(2, 29);
    assert_eq!(handler.capture_items_span, vec![at("Coin")]);
    let text = "**Type:** Unknown item\n\n**Documentation:**\nWorks with tokens.";
    assert_eq!(handler.get_result().contents, text);
}

#[test]
fn the_keyword_as_is_an_item() {
    let mut handler = used(2, 39);
    assert_eq!(
        handler.capture_items_span,
        vec![at("use std::token::{Self, Coin, mint as make};")]
    );
    let text = "**Type:** Unknown item\n\n**Documentation:**\nWorks with tokens.";
    assert_eq!(handler.get_result().contents, text);
}

#[test]
fn between_the_members_a_module_nearby_is_shown() {
    let mut handler = used(2, 26);
    assert!(handler.capture_items_span.is_empty());
    assert_eq!(handler.get_result().contents, TOKEN);
}

#[test]
fn the_pieces_of_a_path_without_braces() {
    let shown = |col: u32| used(5, col).get_result().contents;
    // up to the first colon
    assert_eq!(shown(11), "```move\nmodule std {\n    // Module contents\n}\n```");
    // up to the second colon: an ordinary comment above it documents nothing
    assert_eq!(shown(12), TOKEN);
    // the name of the member
    assert_eq!(shown(22), "**Type:** Unknown item");
}

#[test]
fn behind_all_colons_and_no_member() {
    // the name starts in column 20, and the cursor must be behind its first character
    let mut handler = used(5, 20);
    assert!(handler.capture_items_span.is_empty());
    assert_eq!(handler.get_result().contents, TOKEN);
}

#[test]
fn a_use_without_members() {
    let mut handler = used(6, 8);
    assert_eq!(handler.capture_items_span, vec![at("use std::signer;")]);
    let text = "```move\nmodule std::signer {\n    // Module contents\n}\n```";
    assert_eq!(handler.get_result().contents, text);
}

#[test]
fn no_use_nearby() {
    let mut handler = used(12, 8);
    assert!(handler.result_candidates.is_empty());
    assert_eq!(handler.get_result().contents, "null");
}

#[test]
fn a_line_behind_the_end_of_the_file() {
    let mut handler = used(1000, 0);
    assert_eq!(handler.get_result().contents, "null");
}

#[test]
fn hovering_over_a_use_again_finds_nothing_new() {
    let env = env();
    let mut handler = Handler::new(String::new(), 2, 10);
    handler.process_use_decl(&env);
    handler.process_use_decl(&env);
    assert_eq!(handler.capture_items_span.len(), 1);
    assert_eq!(handler.result_candidates.len(), 1);
}

const VAULT: &str = "```move\nmodule 0x1::vault {\n    // Friend module contents\n}\n```";

#[test]
fn a_friend_is_shown_with_its_documentation() {
    let env = env();
    let mut handler = Handler::new(String::new(), 13, 9);
    handler.process_friend_decl(&env);
    handler.process_friend_decl(&env);
    let start = at("    friend 0x1::vault;").start;
    assert_eq!(handler.capture_items_span, vec![Span { start, end: start + 9 }]);
    let text = format!("{}\n\n**Documentation:**\nTrusted.\nVery much so.", VAULT);
    assert_eq!(handler.get_result().contents, text);
}

#[test]
fn a_friend_without_a_name() {
    let env = env();
    let mut handler = Handler::new(String::new(), 14, 5);
    handler.process_friend_decl(&env);
    assert!(handler.capture_items_span.is_empty());
    assert_eq!(handler.get_result().contents, "null");
}

#[test]
fn no_friend() {
    let env = env();
    for line in [0, 15, 17, 99] {
        let mut handler = Handler::new(String::new(), line, 5);
        handler.process_friend_decl(&env);
        assert!(handler.capture_items_span.is_empty());
        assert!(handler.result_candidates.is_empty());
    }
}

#[test]
fn one_module_is_shown_at_most() {
    let env = env();
    let mut handler = Handler::new(String::new(), 13, 9);
    handler.result_candidates.push(TOKEN.to_string());
    handler.process_friend_decl(&env);
    assert_eq!(handler.result_candidates, vec![TOKEN]);
    assert_eq!(handler.capture_items_span.len(), 1);
    // a text that names the module has the same effect
    let mut handler = Handler::new(String::new(), 13, 9);
    handler.result_candidates.push("see module 0x1::vault".to_string());
    handler.process_friend_decl(&env);
    assert_eq!(handler.result_candidates.len(), 1);
    // any other text has not
    let mut handler = Handler::new(String::new(), 13, 9);
    handler.result_candidates.push("u64".to_string());
    handler.process_friend_decl(&env);
    assert_eq!(handler.result_candidates.len(), 2);
}

#[test]
fn names_of_friends() {
    let handler = Handler::new(String::new(), 0, 0);
    let name = |line: &str| handler.extract_friend_module_name(line);
    assert_eq!(name("friend 0x1::vault;").as_deref(), Some("0x1::vault"));
    assert_eq!(name("  friend\ta::b ; // c").as_deref(), Some("a::b"));
    assert_eq!(name("friend ;").as_deref(), Some(""));
    assert_eq!(name("friends a;b;").as_deref(), Some("ab"));
    assert_eq!(name("friend"), None);
    assert_eq!(name("friend;"), None);
    assert_eq!(name("public friend a;"), None);
    assert_eq!(name(""), None);
}

#[test]
fn documentation_by_place_and_by_line() {
    let env = env();
    let handler = Handler::new(String::new(), 0, 0);
    let by_place = |text: &str| handler.extract_documentation_comments(&env, &loc(text));
    assert_eq!(by_place("use std::token::{"), "Works with tokens.");
    assert_eq!(by_place("Coin, "), "Works with tokens.");
    assert_eq!(by_place("use std::token::Coin"), "");
    assert_eq!(by_place("use std::signer"), "");
    assert_eq!(by_place("module"), "");
    assert_eq!(by_place("friend 0x1"), "Trusted.\nVery much so.");
    let nowhere = Loc { file: 0, span: Span { start: 100000, end: 100001 } };
    assert_eq!(handler.extract_documentation_comments(&env, &nowhere), "");
    let by_line = |line: u32| handler.extract_documentation_comments_for_line(&env, line);
    assert_eq!(by_line(0), "");
    assert_eq!(by_line(1), "");
    assert_eq!(by_line(2), "Works with tokens.");
    assert_eq!(by_line(5), "");
    assert_eq!(by_line(12), "Trusted.");
    assert_eq!(by_line(13), "Trusted.\nVery much so.");
}

#[test]
fn documentation_loses_its_slashes_only_in_front() {
    let source = "/////  a / b //  \n///\n\t///c\nfun f() {}\n";
    let mut main = module("0x1::main", "main");
    main.loc = Loc { file: 0, span: Span { start: 0, end: 3 } };
    let env = GlobalEnv { files: vec![source.to_string()], modules: vec![main] };
    let handler = Handler::new(String::new(), 0, 0);
    assert_eq!(handler.extract_documentation_comments_for_line(&env, 3), "a / b //\n\nc");
}

#[test]
fn uses_that_cannot_be_looked_up() {
    let broken = Loc { file: 0, span: Span { start: 0, end: u32::MAX } };
    let admits = |env: &GlobalEnv, line: u32, col: u32| {
        Handler::new(String::new(), line, col).admits_uses(env, &env.modules[0])
    };
    // a member is looked up where its declaration is on the line, up to the one under the cursor
    let mut env = env();
    env.modules[0].use_decls[0].members[1].loc = broken;
    assert!(!admits(&env, 2, 35));
    assert!(admits(&env, 2, 29));
    assert!(admits(&env, 5, 22));
    // a declaration behind the one under the cursor is not looked up
    let mut env = self::env();
    env.modules[0].use_decls[1].loc.file = 1;
    assert!(admits(&env, 2, 10));
    assert!(!admits(&env, 6, 8));
    // one without members is looked up as a whole
    let mut env = self::env();
    env.modules[0].use_decls[2].loc.span.end = u32::MAX;
    assert!(!admits(&env, 6, 8));
    assert!(admits(&env, 5, 8));
    // the file of the module is always read
    let mut env = self::env();
    env.modules[0].loc.file = 1;
    assert!(!admits(&env, 2, 10));
}
