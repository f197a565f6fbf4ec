//! The state of one hover: where the cursor is, and what was found there so far.

use vstd::prelude::*;
use crate::model::GlobalEnv;
use crate::model::Loc;
use crate::model::ModuleEnv;
use crate::source::Span;
use crate::source::advance;
use crate::source::cursor_span;
use crate::source::distance;
use crate::source::span;
use crate::source::span_to_cursor;
use crate::text::decimal;
use crate::text::decimal_text;
use crate::text::texts;

verus! {

/// Collects what stands under the cursor.
#[derive(Debug)]
pub struct Handler {
    /// The file we are looking for.
    pub filepath: String,
    pub line: u32,
    pub col: u32,
    /// The span from the start of the line of the cursor to the cursor.
    pub mouse_span: Span,
    /// The spans of what was found.
    pub capture_items_span: Vec<Span>,
    /// The texts to show for what was found.
    pub result_candidates: Vec<String>,
    pub target_module_id: usize,
    pub target_function_id: Option<usize>,
}

/// What is shown to the user.
#[derive(Debug)]
pub struct Hover {
    pub contents: String,
}

/// Where the cursor is.
pub struct Cursor {
    pub line: u32,
    pub col: u32,
    /// The span from the start of the line of the cursor to the cursor.
    pub mouse: Span,
    /// The target module.
    pub module: usize,
}

/// The contents of a [`Handler`].
#[verifier::ext_equal]
pub struct HandlerView {
    pub filepath: Seq<char>,
    pub cursor: Cursor,
    pub spans: Seq<Span>,
    pub texts: Seq<Seq<char>>,
    pub function: Option<usize>,
}

impl View for Handler {
    type V = HandlerView;

    open spec fn view(&self) -> HandlerView {
        HandlerView {
            filepath: self.filepath@,
            cursor: Cursor {
                line: self.line,
                col: self.col,
                mouse: self.mouse_span,
                module: self.target_module_id,
            },
            spans: self.capture_items_span@,
            texts: texts(self.result_candidates@),
            function: self.target_function_id,
        }
    }
}

/// A cursor that was not placed in a file yet.
pub open spec fn cursor_at(line: u32, col: u32) -> Cursor {
    Cursor { line, col, mouse: Span { start: 0, end: 0 }, module: 0 }
}

/// Something that was found: where it stands and what to show for it.
pub struct Hit {
    pub span: Span,
    pub text: Seq<char>,
}

/// The number of bytes of a span.
pub open spec fn span_len(span: Span) -> int {
    span.end - span.start
}

/// `i` is the number of the first of the shortest spans.
pub open spec fn is_shortest(spans: Seq<Span>, i: int) -> bool {
    &&& 0 <= i < spans.len()
    &&& forall|j: int| 0 <= j < spans.len() ==> span_len(spans[i]) <= span_len(#[trigger] spans[j])
    &&& forall|j: int| 0 <= j < i ==> span_len(spans[i]) < span_len(#[trigger] spans[j])
}

/// The number of the first of the shortest spans; 0 if there is none.
pub open spec fn shortest(spans: Seq<Span>) -> int {
    if spans.len() == 0 {
        0
    } else {
        choose|i: int| is_shortest(spans, i)
    }
}

impl HandlerView {
    /// The target module.
    pub open spec fn target(self, env: &GlobalEnv) -> ModuleEnv {
        env.modules@[self.cursor.module as int]
    }

    /// Adds a find, unless one with the same span was added before.
    pub open spec fn record(self, hit: Hit) -> HandlerView {
        if self.spans.contains(hit.span) {
            self
        } else {
            HandlerView {
                spans: self.spans.push(hit.span),
                texts: self.texts.push(hit.text),
                ..self
            }
        }
    }

    /// Adds the given finds in order.
    pub open spec fn record_all(self, hits: Seq<Hit>) -> HandlerView
        decreases hits.len(),
    {
        if hits.len() == 0 {
            self
        } else {
            self.record_all(hits.drop_last()).record(hits.last())
        }
    }

    /// What is shown: the text with the number of the shortest span.
    pub open spec fn hover_text(self) -> Seq<char> {
        if shortest(self.spans) < self.texts.len() {
            self.texts[shortest(self.spans)]
        } else {
            "null"@
        }
    }

    /// Without finds.
    pub open spec fn cleared(self) -> HandlerView {
        HandlerView { spans: seq![], texts: seq![], ..self }
    }

    /// With the cursor placed in the given file.
    pub open spec fn placed(self, env: &GlobalEnv, file: usize) -> HandlerView {
        match cursor_span(env.source(file), self.cursor.line, self.cursor.col) {
            Some(mouse) => HandlerView { cursor: Cursor { mouse, ..self.cursor }, ..self },
            None => self,
        }
    }
}

impl Cursor {
    /// Whether the cursor stands inside `loc`, behind its first character and on its first line.
    pub open spec fn inside(self, env: &GlobalEnv, loc: Loc) -> bool {
        match (env.location(loc), env.end_location(loc)) {
            (Some(first), Some(last)) => {
                &&& first.line == self.line
                &&& first.column < self.col
                &&& self.col < last.column
            },
            _ => false,
        }
    }

    /// The cursor stands in the span or at one of its ends.
    pub open spec fn touches(self, span: Span) -> bool {
        span.start <= self.mouse.end <= span.end
    }

    /// The cursor stands in the span and at none of its ends.
    pub open spec fn within(self, span: Span) -> bool {
        span.start < self.mouse.end < span.end
    }
}

/// How a handler for the cursor at `line` and `col` introduces itself, where `file` is the debug form
/// of its path.
pub open spec fn introduction(file: Seq<char>, line: u32, col: u32) -> Seq<char> {
    "hover,file:"@ + file + " line:"@ + decimal(line as nat) + " col:"@ + decimal(col as nat)
}

/// The debug form of a path, as `std::path::Path` writes it. The standard library leaves this form
/// open, and it differs between platforms, so nothing is said of the result.
#[verifier::external_body]
fn debug_path(path: &str) -> (r: String) {
    format!("{:?}", std::path::Path::new(path))
}

/// Adding a list of finds after another is adding both lists as one.
pub proof fn lemma_record_all_add(v: HandlerView, a: Seq<Hit>, b: Seq<Hit>)
    ensures
        v.record_all(a + b) == v.record_all(a).record_all(b),
    decreases b.len(),
{
    if b.len() == 0 {
        assert(a + b =~= a);
    } else {
        lemma_record_all_add(v, a, b.drop_last());
        assert((a + b).drop_last() =~= a + b.drop_last());
    }
}

/// Adding a list of one find is adding the find.
pub proof fn lemma_record_all_one(v: HandlerView, hit: Hit)
    ensures
        v.record_all(seq![hit]) == v.record(hit),
{
    assert(seq![hit].drop_last() =~= seq![]);
    assert(v.record_all(seq![]) == v);
}

/// Finds change neither the cursor nor the target.
pub proof fn lemma_record_all_frame(v: HandlerView, hits: Seq<Hit>)
    ensures
        v.record_all(hits).filepath == v.filepath,
        v.record_all(hits).cursor == v.cursor,
        v.record_all(hits).function == v.function,
    decreases hits.len(),
{
    if hits.len() > 0 {
        lemma_record_all_frame(v, hits.drop_last());
    }
}

/// There is a first shortest span among at least one, and only one.
pub proof fn lemma_shortest(spans: Seq<Span>)
    requires
        spans.len() > 0,
    ensures
        is_shortest(spans, shortest(spans)),
        forall|i: int| is_shortest(spans, i) ==> i == shortest(spans),
    decreases spans.len(),
{
    if spans.len() == 1 {
        assert(is_shortest(spans, 0));
    } else {
        let rest = spans.drop_last();
        lemma_shortest(rest);
        let p = shortest(rest);
        let n = spans.len() - 1;
        assert(spans[p] == rest[p]);
        assert forall|j: int| 0 <= j < n implies span_len(rest[p]) <= span_len(
            #[trigger] spans[j],
        ) by {
            assert(spans[j] == rest[j]);
        }
        if span_len(spans[n]) < span_len(spans[p]) {
            assert(is_shortest(spans, n));
        } else {
            assert forall|j: int| 0 <= j < p implies span_len(spans[p]) < span_len(
                #[trigger] spans[j],
            ) by {
                assert(spans[j] == rest[j]);
            }
            assert(is_shortest(spans, p));
        }
    }
    assert forall|i: int| is_shortest(spans, i) implies i == shortest(spans) by {
        let k = shortest(spans);
        assert(span_len(spans[i]) <= span_len(spans[k]));
        assert(span_len(spans[k]) <= span_len(spans[i]));
    }
}

/// Finds the first of the shortest spans.
pub fn find_smallest_length_index(spans: &[Span]) -> (r: Option<usize>)
    ensures
        match r {
            Some(i) => is_shortest(spans@, i as int),
            None => spans@.len() == 0,
        },
{
    let mut smallest_length: i64 = i64::MAX;
    let mut smallest_index: Option<usize> = None;
    for index in 0..spans.len()
        invariant
            match smallest_index {
                Some(i) => {
                    &&& i < index
                    &&& smallest_length == span_len(spans@[i as int])
                    &&& is_shortest(spans@.take(index as int), i as int)
                },
                None => index == 0 && smallest_length == i64::MAX,
            },
    {
        let length: i64 = distance(spans[index].end, spans[index].start);
        let ghost before = smallest_index;
        if length < smallest_length {
            smallest_length = length;
            smallest_index = Some(index);
        }
        proof {
            let some = spans@.take(index as int);
            let more = spans@.take(index + 1);
            assert forall|j: int| 0 <= j < index implies more[j] == #[trigger] some[j] by {}
            if let Some(i) = before {
                assert(more[i as int] == some[i as int]);
                assert forall|j: int| 0 <= j < index implies span_len(some[i as int]) <= span_len(
                    #[trigger] more[j],
                ) by {
                    assert(more[j] == some[j]);
                }
                assert forall|j: int| 0 <= j < i implies span_len(some[i as int]) < span_len(
                    #[trigger] more[j],
                ) by {
                    assert(more[j] == some[j]);
                }
            }
        }
    }
    assert(spans@.take(spans@.len() as int) =~= spans@);
    smallest_index
}

impl Handler {
    /// A handler for the cursor at the given line and column of a file.
    pub fn new(filepath: String, line: u32, col: u32) -> (r: Handler)
        ensures
            r@ == (HandlerView {
                filepath: filepath@,
                cursor: cursor_at(line, col),
                spans: seq![],
                texts: seq![],
                function: None,
            }),
    {
        Handler {
            filepath,
            line,
            col,
            mouse_span: Span { start: 0, end: 0 },
            capture_items_span: Vec::new(),
            result_candidates: Vec::new(),
            target_module_id: 0,
            target_function_id: None,
        }
    }

    /// Decides whether the cursor stands inside `loc`, behind its first character and on its
    /// first line.
    pub fn check_move_model_loc_contains_mouse_pos(&self, env: &GlobalEnv, loc: &Loc) -> (r: bool)
        requires
            env.loc_wf(*loc),
        ensures
            r == self@.cursor.inside(env, *loc),
    {
        let first = Loc {
            file: loc.file,
            span: span(loc.span.start, advance(loc.span.start, 1)),
        };
        if let Some(first) = env.get_location(&first) {
            let last = Loc { file: loc.file, span: span(loc.span.end, advance(loc.span.end, 1)) };
            if let Some(last) = env.get_location(&last) {
                return first.line == self.line && first.column < self.col && self.col
                    < last.column;
            }
        }
        false
    }

    /// Takes out the text to show, and forgets what was found.
    pub fn get_result(&mut self) -> (r: Hover)
        ensures
            r.contents@ == old(self)@.hover_text(),
            final(self)@ == old(self)@.cleared(),
    {
        let mut most_clost_item_idx: usize = 0;
        if let Some(item_idx) = find_smallest_length_index(self.capture_items_span.as_slice()) {
            most_clost_item_idx = item_idx;
        }
        proof {
            if self@.spans.len() > 0 {
                lemma_shortest(self@.spans);
            }
        }
        assert(most_clost_item_idx == shortest(self@.spans));
        let contents: String = if most_clost_item_idx < self.result_candidates.len() {
            self.result_candidates[most_clost_item_idx].clone()
        } else {
            "null".to_string()
        };
        self.capture_items_span.clear();
        self.result_candidates.clear();
        assert(self@ =~= old(self)@.cleared());
        Hover { contents }
    }

    /// Places the cursor in the file of a function or struct.
    pub fn get_mouse_loc(&mut self, env: &GlobalEnv, target_fn_or_struct_loc: &Loc)
        requires
            env.cursor_wf(target_fn_or_struct_loc.file, old(self).line, old(self).col),
        ensures
            final(self)@ == old(self)@.placed(env, target_fn_or_struct_loc.file),
    {
        let file_source = env.get_file_source(target_fn_or_struct_loc.file);
        if let Some(mouse_span) = span_to_cursor(file_source, self.line, self.col) {
            self.mouse_span = mouse_span;
        }
        assert(self@ =~= old(self)@.placed(env, target_fn_or_struct_loc.file));
    }

    /// Remembers a span; false if it was remembered before.
    pub fn capture_items_span_push(&mut self, span: &Span) -> (r: bool)
        ensures
            r == !old(self)@.spans.contains(*span),
            final(self)@ == (HandlerView {
                spans: if r {
                    old(self)@.spans.push(*span)
                } else {
                    old(self)@.spans
                },
                ..old(self)@
            }),
            final(self).result_candidates == old(self).result_candidates,
    {
        for i in 0..self.capture_items_span.len()
            invariant
                *self == *old(self),
                forall|j: int| 0 <= j < i ==> self.capture_items_span@[j] != *span,
        {
            if self.capture_items_span[i] == *span {
                assert(self@.spans[i as int] == *span);
                return false;
            }
        }
        self.capture_items_span.push(*span);
        true
    }

    /// Adds a find, unless one with the same span was added before.
    pub fn record(&mut self, span: &Span, text: &str)
        ensures
            final(self)@ == old(self)@.record(Hit { span: *span, text: text@ }),
    {
        if self.capture_items_span_push(span) {
            let ghost before = self.result_candidates@;
            self.result_candidates.push(text.to_string());
            assert(texts(self.result_candidates@) =~= texts(before).push(text@));
        }
        assert(self@ =~= old(self)@.record(Hit { span: *span, text: text@ }));
    }

    /// Adds the type of what stands at `capture_items_loc`, given as it is displayed.
    pub fn process_type(&mut self, capture_items_loc: &Loc, ty: &str)
        ensures
            final(self)@ == old(self)@.record(Hit { span: capture_items_loc.span, text: ty@ }),
    {
        self.record(&capture_items_loc.span, ty);
    }

    /// Introduces the handler, given the debug form of its path.
    pub fn introduce(&self, file: &str) -> (r: String)
        ensures
            r@ == introduction(file@, self.line, self.col),
    {
        let mut r = "hover,file:".to_string();
        r.append(file);
        r.append(" line:");
        r.append(decimal_text(self.line as u64).as_str());
        r.append(" col:");
        r.append(decimal_text(self.col as u64).as_str());
        r
    }

    /// Introduces the handler.
    pub fn fmt(&self) -> (r: String)
        ensures
            exists|file: Seq<char>| r@ == #[trigger] introduction(file, self.line, self.col),
    {
        let file = debug_path(self.filepath.as_str());
        self.introduce(file.as_str())
    }

    /// Bodies are to be visited.
    pub fn visit_fun_or_spec_body(&self) -> (r: bool)
        ensures
            r,
    {
        true
    }

    /// There is always more to look for.
    pub fn finished(&self) -> (r: bool)
        ensures
            !r,
    {
        false
    }
}

} // verus!
