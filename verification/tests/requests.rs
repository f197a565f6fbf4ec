use move_hover::handler::Handler;
use move_hover::model::{
    Condition, Exp, ExpData, FunctionEnv, GlobalEnv, Loc, ModuleEnv, NamedConstantEnv,
    SpecBlockInfo, SpecBlockTarget,
};
use move_hover::request::{
    answer, hover_at, hover_query, on_hover_request, HoverError, HoverQuery, ProjectFile,
};
use move_hover::source::Span;

const SOURCE: &str = "module 0x1::m {
    const MAX: u64 = 7;
    friend 0x1::vault;
    fun f(): u64 {
        MAX
    }
}
";

fn loc(start: u32, end: u32) -> Loc {
    Loc { file: 0, span: Span { start, end } }
}

fn at(text: &str) -> Loc {
    let start = SOURCE.find(text).unwrap() as u32;
    loc(start, start + text.len() as u32)
}

fn file(path: Option<&str>) -> ProjectFile {
    let body = SOURCE.rfind("MAX").unwrap() as u32;
    let fun = at("fun f");
    let fun = loc(fun.span.start, SOURCE.rfind("}\n}").unwrap() as u32 + 1);
    let shown = |ty: &str| Exp {
        nodes: vec![ExpData::Temporary { loc: loc(body, body + 3), ty: Some(ty.to_string()) }],
    };
    let module = ModuleEnv {
        name: "m".to_string(),
        full_name: "0x1::m".to_string(),
        loc: at("module"),
        use_decls: vec![],
        functions: vec![FunctionEnv {
            name: "f".to_string(),
            full_name: "m::f".to_string(),
            loc: fun,
            parameters: vec![],
            result_type: "u64".to_string(),
            def: Some(shown("u64")),
            spec_conditions: vec![Condition { exps: vec![shown("num")] }],
        }],
        structs: vec![],
        constants: vec![NamedConstantEnv {
            name: "MAX".to_string(),
            loc: at("const MAX: u64 = 7;"),
            ty: "u64".to_string(),
            value: "7".to_string(),
            value_debug: "Number(7)".to_string(),
        }],
        spec_blocks: vec![SpecBlockInfo { loc: fun, target: SpecBlockTarget::Function(0) }],
    };
    ProjectFile {
        env: GlobalEnv { files: vec![SOURCE.to_string()], modules: vec![module] },
        path: path.map(|path| path.to_string()),
        modules: vec![0],
    }
}

fn params(line: u32, character: u32) -> String {
    let position = lsp_types::TextDocumentPositionParams::new(
        lsp_types::TextDocumentIdentifier::new(
            lsp_types::Url::parse("file:///work/sources/m.move").unwrap(),
        ),
        lsp_types::Position::new(line, character),
    );
    let params = lsp_types::HoverParams {
        text_document_position_params: position,
        work_done_progress_params: Default::default(),
    };
    serde_json::to_string(&params).unwrap()
}

#[test]
fn parameters_are_read() {
    let query = hover_query(&params(4, 9)).unwrap();
    assert_eq!(query.uri, "file:///work/sources/m.move");
    assert_eq!((query.line, query.col), (4, 9));
    let text = "{\"textDocument\":{\"uri\":\"file:///a b\"},\"position\":{\"line\":1,\"character\":2}}";
    let query = hover_query(text).unwrap();
    assert_eq!(query.uri, "file:///a%20b");
    assert_eq!((query.line, query.col), (1, 2));
}

#[test]
fn other_parameters_are_refused() {
    for text in [
        "",
        "null",
        "{}",
        "{\"textDocument\":{\"uri\":\"not a uri\"},\"position\":{\"line\":1,\"character\":2}}",
        "{\"textDocument\":{\"uri\":\"file:///a\"},\"position\":{\"line\":-1,\"character\":2}}",
        "{\"textDocument\":{\"uri\":\"file:///a\"}}",
    ] {
        assert!(hover_query(text).is_none(), "{}", text);
        let error = on_hover_request("1", text, None).unwrap_err();
        assert_eq!(error, HoverError::Params);
    }
}

#[test]
fn a_hover_is_answered() {
    let file = file(Some("/work/sources/m.move"));
    let reply = on_hover_request("7", &params(4, 9), Some(&file)).unwrap();
    assert_eq!(reply.id, "7");
    assert!(reply.sent);
    assert_eq!(reply.result, "{\"contents\":\"u64\"}");
    let hover: lsp_types::Hover = serde_json::from_str(&reply.result).unwrap();
    let text = lsp_types::MarkedString::String("u64".to_string());
    assert_eq!(hover.contents, lsp_types::HoverContents::Scalar(text));
    assert_eq!(hover.range, None);
}

#[test]
fn special_characters_are_escaped() {
    let file = file(Some("/work/sources/m.move"));
    let reply = on_hover_request("\"a\"", &params(2, 11), Some(&file)).unwrap();
    assert_eq!(reply.id, "\"a\"");
    assert_eq!(
        reply.result,
        "{\"contents\":\"```move\\nmodule 0x1::vault {\\n    // Friend module contents\\n}\\n```\"}"
    );
}

#[test]
fn nothing_under_the_cursor_is_answered_with_null() {
    let file = file(Some("/work/sources/m.move"));
    let reply = on_hover_request("7", &params(6, 0), Some(&file)).unwrap();
    assert_eq!(reply.result, "{\"contents\":\"null\"}");
    assert!(reply.sent);
}

#[test]
fn no_project_is_answered_but_not_sent() {
    let reply = on_hover_request("7", &params(4, 9), None).unwrap();
    assert_eq!(reply.id, "\"\"");
    assert_eq!(reply.result, "{\"msg\":\"No available project\"}");
    assert!(!reply.sent);
    let id: lsp_server::RequestId = serde_json::from_str(&reply.id).unwrap();
    assert_eq!(id, lsp_server::RequestId::from("".to_string()));
}

#[test]
fn positions_that_no_span_reaches_are_refused() {
    for path in ["m.move", "m.spec.move"] {
        let file = file(Some(path));
        let query = HoverQuery { uri: String::new(), line: 4, col: u32::MAX };
        assert_eq!(answer("1", &query, Some(&file)).unwrap_err(), HoverError::Place);
        let error = on_hover_request("1", &params(4, u32::MAX), Some(&file)).unwrap_err();
        assert_eq!(error, HoverError::Place);
        let query = HoverQuery { uri: String::new(), line: 4, col: 9 };
        assert!(answer("1", &query, Some(&file)).is_ok());
    }
    // outside of the specifications the cursor is not placed
    let file = file(Some("m.spec.move"));
    let reply = on_hover_request("1", &params(1, u32::MAX), Some(&file)).unwrap();
    assert_eq!(reply.result, "{\"contents\":\"null\"}");
}

#[test]
fn unknown_modules_are_refused() {
    let mut broken = file(Some("m.move"));
    broken.modules.push(1);
    let query = HoverQuery { uri: String::new(), line: 1, col: 1 };
    assert_eq!(answer("1", &query, Some(&broken)).unwrap_err(), HoverError::Place);
}

#[test]
fn what_is_not_visited_is_not_refused() {
    let null = "{\"contents\":\"null\"}";
    // no path
    let reply = on_hover_request("1", &params(1, u32::MAX), Some(&file(None))).unwrap();
    assert_eq!(reply.result, null);
    assert!(reply.sent);
    // no modules
    let empty = ProjectFile {
        env: GlobalEnv { files: vec!["\n".to_string()], modules: vec![] },
        path: Some("m.move".to_string()),
        modules: vec![],
    };
    let reply = on_hover_request("1", &params(1, u32::MAX), Some(&empty)).unwrap();
    assert_eq!(reply.result, null);
    assert!(reply.sent);
    // a module that is not in the file
    let mut two = file(Some("m.move"));
    two.env.modules.push(file_module("other"));
    two.env.modules[1].loc.file = 9;
    let reply = on_hover_request("1", &params(4, 9), Some(&two)).unwrap();
    assert_eq!(reply.result, "{\"contents\":\"u64\"}");
}

#[test]
fn the_name_of_a_file_tells_whether_it_holds_specifications() {
    assert_eq!(hover_at(&file(Some("m.move")), 4, 9).contents, "u64");
    assert_eq!(hover_at(&file(Some("m.spec.move")), 4, 9).contents, "num");
    assert_eq!(hover_at(&file(Some("m.spec.move")), 1, 9).contents, "null");
    assert_eq!(hover_at(&file(None), 4, 9).contents, "null");
}

#[test]
fn a_file_without_modules() {
    let mut file = file(Some("m.move"));
    file.modules.clear();
    assert_eq!(hover_at(&file, 4, 9).contents, "null");
}

#[test]
fn modules_are_visited_one_after_the_other() {
    let file = file(Some("m.move"));
    let mut handler = Handler::new(String::new(), 1, 9);
    handler.run_move_model_visitor_internal(&file.env, Some("m.move"), &[0, 0]);
    assert_eq!(handler.result_candidates, vec!["u64"]);
    assert_eq!((handler.line, handler.col), (1, 9));
    let mut parts = Handler::new(String::new(), 1, 9);
    parts.handle_project_env(&file.env, Some("m.move"), &[0]);
    parts.handle_project_env(&file.env, Some("m.move"), &[0]);
    assert_eq!(parts.capture_items_span, handler.capture_items_span);
    assert_eq!(parts.result_candidates, handler.result_candidates);
}

#[test]
fn the_target_is_the_last_module() {
    let mut file = file(Some("m.move"));
    let mut other = file_module("other");
    other.loc = at("module");
    file.env.modules.push(other);
    let mut handler = Handler::new(String::new(), 6, 0);
    handler.handle_project_env(&file.env, None, &[0, 1]);
    assert_eq!(handler.target_module_id, 1);
    handler.handle_project_env(&file.env, None, &[]);
    assert_eq!(handler.target_module_id, 1);
    assert!(handler.result_candidates.is_empty());
}

fn file_module(name: &str) -> ModuleEnv {
    ModuleEnv {
        name: name.to_string(),
        full_name: format!("0x1::{}", name),
        loc: loc(0, 0),
        use_decls: vec![],
        functions: vec![],
        structs: vec![],
        constants: vec![],
        spec_blocks: vec![],
    }
}
