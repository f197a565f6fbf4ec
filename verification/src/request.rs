//! Answering a hover request.

use vstd::prelude::*;
use crate::handler::Handler;
use crate::handler::HandlerView;
use crate::handler::Hover;
use crate::handler::cursor_at;
use crate::model::GlobalEnv;
use crate::visit::can_visit;
use crate::visit::modules_wf;
use crate::visit::path_text;

verus! {

/// What is asked for: the document and the position in it.
#[derive(Debug)]
pub struct HoverQuery {
    pub uri: String,
    pub line: u32,
    pub col: u32,
}

/// A file in a project.
#[derive(Debug)]
pub struct ProjectFile {
    pub env: GlobalEnv,
    /// The path of the file, unless it cannot be written as text.
    pub path: Option<String>,
    /// The numbers of the modules in the file.
    pub modules: Vec<usize>,
}

/// The answer to a request.
#[derive(Debug)]
pub struct HoverReply {
    /// The identifier of the answered request, in JSON.
    pub id: String,
    /// The result, in JSON.
    pub result: String,
    /// Whether the answer is to be sent to the client.
    pub sent: bool,
}

/// Why there is no answer.
#[derive(Clone, Copy, Debug, PartialEq, Eq, Structural)]
pub enum HoverError {
    /// The parameters are not those of a hover request.
    Params,
    /// The file cannot be hovered over at the position.
    Place,
}

/// The document, line and character that the parameters of a hover request ask for, unless they are
/// not such parameters.
pub uninterp spec fn hover_params(params: Seq<char>) -> Option<(Seq<char>, u32, u32)>;

/// A hover with the given contents and no range, in JSON.
pub uninterp spec fn hover_json(contents: Seq<char>) -> Seq<char>;

/// `serde_json::from_str` for `lsp_types::HoverParams`: what it reads from a text, or that it fails,
/// depends on the text alone. Nothing is said of which texts it reads.
#[verifier::external_body]
fn parse_hover_params(params: &str) -> (r: Option<(String, u32, u32)>)
    ensures
        match r {
            Some((uri, line, col)) => hover_params(params@) == Some((uri@, line, col)),
            None => hover_params(params@) is None,
        },
{
    match serde_json::from_str::<lsp_types::HoverParams>(params) {
        Ok(params) => {
            let params = params.text_document_position_params;
            let uri = params.text_document.uri.to_string();
            Some((uri, params.position.line, params.position.character))
        },
        Err(_) => None,
    }
}

/// `serde_json::to_string` for a `lsp_types::Hover` that shows one string: it never fails on
/// strings, and what it writes depends on the string alone. Nothing is said of how it writes it.
#[verifier::external_body]
fn render_hover(contents: &str) -> (r: String)
    ensures
        r@ == hover_json(contents@),
{
    let text = lsp_types::MarkedString::String(contents.to_string());
    let hover = lsp_types::Hover { contents: lsp_types::HoverContents::Scalar(text), range: None };
    serde_json::to_string(&hover).unwrap()
}

impl ProjectFile {
    /// The path of the file.
    pub open spec fn path_text(&self) -> Option<Seq<char>> {
        match self.path {
            Some(path) => Some(path@),
            None => None,
        }
    }

    /// The file can be hovered over at the given position.
    pub open spec fn wf(&self, line: u32, col: u32) -> bool {
        modules_wf(&self.env, self.path_text(), self.modules@, line, col)
    }

    /// The path of the file.
    pub fn get_path(&self) -> (r: Option<&str>)
        ensures
            path_text(r) == self.path_text(),
    {
        match &self.path {
            Some(path) => Some(path.as_str()),
            None => None,
        }
    }

    /// Decides whether the file can be hovered over at the given position.
    pub fn is_well_formed(&self, line: u32, col: u32) -> (r: bool)
        ensures
            r == self.wf(line, col),
    {
        can_visit(&self.env, self.get_path(), self.modules.as_slice(), line, col)
    }
}

/// A handler before it has visited anything.
pub open spec fn start(filepath: Seq<char>, line: u32, col: u32) -> HandlerView {
    HandlerView {
        filepath,
        cursor: cursor_at(line, col),
        spans: seq![],
        texts: seq![],
        function: None,
    }
}

/// What is shown for the given position of a file.
pub open spec fn shown(file: &ProjectFile, line: u32, col: u32) -> Seq<char> {
    let filepath = match file.path_text() {
        Some(path) => path,
        None => seq![],
    };
    start(filepath, line, col).after_modules(
        &file.env,
        file.path_text(),
        file.modules@,
    ).hover_text()
}

/// Reads the parameters of a hover request.
pub fn hover_query(params: &str) -> (r: Option<HoverQuery>)
    ensures
        match r {
            Some(query) => hover_params(params@) == Some((query.uri@, query.line, query.col)),
            None => hover_params(params@) is None,
        },
{
    match parse_hover_params(params) {
        Some((uri, line, col)) => Some(HoverQuery { uri, line, col }),
        None => None,
    }
}

/// Finds what to show for a position of a file.
pub fn hover_at(file: &ProjectFile, line: u32, col: u32) -> (r: Hover)
    requires
        file.wf(line, col),
    ensures
        r.contents@ == shown(file, line, col),
{
    let path = file.get_path();
    let filepath = match path {
        Some(path) => path.to_string(),
        None => String::new(),
    };
    let mut handler = Handler::new(filepath, line, col);
    handler.handle_project_env(&file.env, path, file.modules.as_slice());
    handler.get_result()
}

/// The answer to the request `id` on a file, or on none if no project holds it.
pub open spec fn answers(
    reply: HoverReply,
    id: Seq<char>,
    line: u32,
    col: u32,
    file: Option<&ProjectFile>,
) -> bool {
    match file {
        Some(file) => {
            &&& reply.id@ == id
            &&& reply.result@ == hover_json(shown(file, line, col))
            &&& reply.sent
        },
        None => {
            &&& reply.id@ == "\"\""@
            &&& reply.result@ == "{\"msg\":\"No available project\"}"@
            &&& !reply.sent
        },
    }
}

/// Answers the query of the hover request `id` on a file. Without a project there is an answer that
/// says so, which is not sent.
pub fn answer(id: &str, query: &HoverQuery, file: Option<&ProjectFile>) -> (r: Result<
    HoverReply,
    HoverError,
>)
    ensures
        match r {
            Ok(reply) => {
                &&& file matches Some(file) ==> file.wf(query.line, query.col)
                &&& answers(reply, id@, query.line, query.col, file)
            },
            Err(error) => {
                &&& error == HoverError::Place
                &&& file matches Some(file)
                &&& !file.wf(query.line, query.col)
            },
        },
{
    match file {
        Some(file) => {
            if !file.is_well_formed(query.line, query.col) {
                return Err(HoverError::Place);
            }
            let hover = hover_at(file, query.line, query.col);
            let result = render_hover(hover.contents.as_str());
            Ok(HoverReply { id: id.to_string(), result, sent: true })
        },
        None => Ok(
            HoverReply {
                id: "\"\"".to_string(),
                result: "{\"msg\":\"No available project\"}".to_string(),
                sent: false,
            },
        ),
    }
}

/// Answers the hover request with the given identifier and parameters, both in JSON, on a file.
pub fn on_hover_request(id: &str, params: &str, file: Option<&ProjectFile>) -> (r: Result<
    HoverReply,
    HoverError,
>)
    ensures
        match hover_params(params@) {
            Some((uri, line, col)) => match r {
                Ok(reply) => {
                    &&& file matches Some(file) ==> file.wf(line, col)
                    &&& answers(reply, id@, line, col, file)
                },
                Err(error) => {
                    &&& error == HoverError::Place
                    &&& file matches Some(file)
                    &&& !file.wf(line, col)
                },
            },
            None => r == Err::<HoverReply, HoverError>(HoverError::Params),
        },
{
    match hover_query(params) {
        Some(query) => answer(id, &query, file),
        None => Err(HoverError::Params),
    }
}

} // verus!
