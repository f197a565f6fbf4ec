//! Hovering over `use` and `friend` declarations.

use vstd::prelude::*;
use vstd::slice::slice_subrange;
use crate::docs::documentation;
use crate::docs::documentation_at;
use crate::handler::Cursor;
use crate::handler::Handler;
use crate::handler::HandlerView;
use crate::items::item_details;
use crate::model::GlobalEnv;
use crate::model::Loc;
use crate::model::ModuleEnv;
use crate::model::UseDecl;
use crate::search::first;
use crate::search::first_from;
use crate::search::lemma_reached;
use crate::search::reached;
use crate::source::Span;
use crate::source::cursor_span;
use crate::source::span_to_cursor;
use crate::text::begins_with;
use crate::text::byte_len;
use crate::text::byte_pos;
use crate::text::chars_of;
use crate::text::contains;
use crate::text::find;
use crate::text::find_char;
use crate::text::find_text;
use crate::text::join;
use crate::text::join_first;
use crate::text::last_segment;
use crate::text::last_segment_of;
use crate::text::lemma_find;
use crate::text::lines;
use crate::text::lines_of;
use crate::text::segments;
use crate::text::segments_of;
use crate::text::starts_with;
use crate::text::str_contains;
use crate::text::string_of;
use crate::text::texts;
use crate::text::trim;
use crate::text::trimmed;
use crate::text::utf8_len;
use crate::text::views;
use crate::text::without;
use crate::text::without_char;
use crate::text::words;
use crate::text::words_of;

verus! {

/// What a `use` declaration names at the cursor.
#[derive(Debug)]
pub enum UseTarget {
    /// A module.
    Module { name: String, loc: Loc },
    /// An item of a module.
    Item { module: String, item: String, loc: Loc },
}

/// The contents of a [`UseTarget`].
pub enum UseTargetView {
    Module { name: Seq<char>, loc: Loc },
    Item { module: Seq<char>, item: Seq<char>, loc: Loc },
}

impl View for UseTarget {
    type V = UseTargetView;

    open spec fn view(&self) -> UseTargetView {
        match *self {
            UseTarget::Module { name, loc } => UseTargetView::Module { name: name@, loc },
            UseTarget::Item { module, item, loc } => UseTargetView::Item {
                module: module@,
                item: item@,
                loc,
            },
        }
    }
}

impl UseTargetView {
    /// Where the target stands.
    pub open spec fn loc(self) -> Loc {
        match self {
            UseTargetView::Module { name, loc } => loc,
            UseTargetView::Item { module, item, loc } => loc,
        }
    }
}

/// A used module as it is shown.
pub open spec fn module_text(name: Seq<char>) -> Seq<char> {
    "```move\nmodule "@ + name + " {\n    // Module contents\n}\n```"@
}

/// A befriended module as it is shown.
pub open spec fn friend_text(name: Seq<char>) -> Seq<char> {
    "```move\nmodule "@ + name + " {\n    // Friend module contents\n}\n```"@
}

/// A text followed by the documentation, if there is any.
pub open spec fn with_docs(body: Seq<char>, docs: Seq<char>) -> Seq<char> {
    if docs.len() == 0 {
        body
    } else {
        body + "\n\n**Documentation:**\n"@ + docs
    }
}

/// A text already shows the module `name`, or some used or befriended module.
pub open spec fn shows_module(text: Seq<char>, name: Seq<char>) -> bool {
    ||| contains(text, "module "@ + name)
    ||| contains(text, "// Module contents"@)
    ||| contains(text, "// Friend module contents"@)
}

/// One of the texts already shows the module `name`, or some used or befriended module.
pub open spec fn module_shown(texts: Seq<Seq<char>>, name: Seq<char>) -> bool {
    exists|i: int| 0 <= i < texts.len() && shows_module(#[trigger] texts[i], name)
}

/// Line `line` of a text; empty if there is no such line.
pub open spec fn line_text(text: Seq<char>, line: u32) -> Seq<char> {
    if line < lines(text).len() {
        lines(text)[line as int]
    } else {
        seq![]
    }
}

/// What stands from line `i` on before the next closing brace.
pub open spec fn up_to_brace(lines: Seq<Seq<char>>, i: int) -> Seq<char>
    decreases lines.len() - i,
{
    if i < 0 || i >= lines.len() {
        seq![]
    } else {
        match find(lines[i], seq!['}']) {
            Some(p) => lines[i].take(p),
            None => lines[i] + seq!['\n'] + up_to_brace(lines, i + 1),
        }
    }
}

/// The byte positions of the colons of a line.
pub open spec fn colon_positions(line: Seq<char>) -> Seq<nat>
    decreases line.len(),
{
    if line.len() == 0 {
        seq![]
    } else if line.last() == ':' {
        colon_positions(line.drop_last()).push(byte_len(line.drop_last()))
    } else {
        colon_positions(line.drop_last())
    }
}

/// Byte `col` stands in, before or after the first `keyword` of `scanned`, which starts at byte
/// `base`.
pub open spec fn on_keyword(scanned: Seq<char>, base: nat, keyword: Seq<char>, col: u32) -> bool {
    match find(scanned, keyword) {
        Some(p) => base + byte_pos(scanned, p) <= col <= base + byte_pos(scanned, p) + byte_len(
            keyword,
        ),
        None => false,
    }
}

/// Byte `col` stands before or on the given colon.
pub open spec fn before_colon(colons: Seq<nat>, col: u32) -> spec_fn(int) -> bool {
    |i: int| col <= colons[i]
}

/// The smaller of two numbers.
pub open spec fn min(a: nat, b: nat) -> nat {
    if a <= b {
        a
    } else {
        b
    }
}

/// What a `use` declaration without braces names at byte `col` of its line, its members apart: as
/// many pieces of the module's name as there are colons up to the cursor.
pub open spec fn path_target(line: Seq<char>, decl: UseDecl, col: u32) -> Option<UseTargetView> {
    let parts = segments(decl.module_name@);
    let colons = colon_positions(line);
    match first(before_colon(colons, col), min(colons.len(), parts.len())) {
        Some(i) => Some(
            UseTargetView::Module { name: join(parts.take(i + 1), "::"@), loc: decl.loc },
        ),
        None => None,
    }
}

/// What a `use` declaration with a brace at character `brace` of line `line` names at byte `col`,
/// its members apart: the module up to the brace, and the keywords `Self` and `as` after it.
pub open spec fn brace_target(
    lines: Seq<Seq<char>>,
    line: u32,
    brace: int,
    decl: UseDecl,
    col: u32,
) -> Option<UseTargetView> {
    let text = lines[line as int];
    let base = byte_pos(text, brace) + 1;
    let scanned = text.skip(brace + 1) + up_to_brace(lines, line as int);
    if col < base {
        Some(UseTargetView::Module { name: decl.module_name@, loc: decl.loc })
    } else if on_keyword(scanned, base, "Self"@, col) {
        Some(UseTargetView::Module { name: decl.module_name@, loc: decl.loc })
    } else if on_keyword(scanned, base, "as"@, col) {
        Some(UseTargetView::Item { module: decl.module_name@, item: "as"@, loc: decl.loc })
    } else {
        None
    }
}

impl Cursor {
    /// The members of a `use` declaration in which the cursor stands.
    pub open spec fn member_under_cursor(self, env: &GlobalEnv, decl: UseDecl) -> spec_fn(
        int,
    ) -> bool {
        |i: int| self.inside(env, decl.members@[i].loc)
    }

    /// What a `use` declaration in the file with source `text` names at the cursor.
    pub open spec fn use_target(self, env: &GlobalEnv, text: Seq<char>, decl: UseDecl) -> Option<
        UseTargetView,
    > {
        if decl.members@.len() == 0 {
            if self.inside(env, decl.loc) {
                Some(UseTargetView::Module { name: decl.module_name@, loc: decl.loc })
            } else {
                None
            }
        } else if let Some(i) = first(
            self.member_under_cursor(env, decl),
            decl.members@.len(),
        ) {
            Some(
                UseTargetView::Item {
                    module: last_segment(decl.module_name@),
                    item: decl.members@[i].name@,
                    loc: decl.members@[i].loc,
                },
            )
        } else if let Some(brace) = find(line_text(text, self.line), seq!['{']) {
            brace_target(lines(text), self.line, brace, decl, self.col)
        } else {
            path_target(line_text(text, self.line), decl, self.col)
        }
    }

    /// A `use` declaration is not known to start on another line than that of the cursor.
    pub open spec fn on_use(self, env: &GlobalEnv, decl: UseDecl) -> bool {
        env.location(decl.loc) matches Some(pos) ==> pos.line == self.line
    }

    /// The `use` declarations of a module that are not known to start on another line, and that
    /// name something at the cursor.
    pub open spec fn use_under_cursor(self, env: &GlobalEnv, module: ModuleEnv) -> spec_fn(
        int,
    ) -> bool {
        |i: int|
            {
                let decl = module.use_decls@[i];
                &&& self.on_use(env, decl)
                &&& self.use_target(env, env.source(module.loc.file), decl) is Some
            }
    }

    /// The `use` declarations of a module with members that start at most two lines away.
    pub open spec fn use_nearby(self, env: &GlobalEnv, module: ModuleEnv) -> spec_fn(int) -> bool {
        |i: int|
            {
                let decl = module.use_decls@[i];
                &&& env.location(decl.loc) matches Some(pos)
                &&& -2 <= pos.line - self.line <= 2
                &&& decl.members@.len() > 0
            }
    }

    /// A `use` declaration can be hovered over: it can be looked up and, on the line of the cursor,
    /// so can its members up to the one under the cursor.
    pub open spec fn use_decl_wf(self, env: &GlobalEnv, decl: UseDecl) -> bool {
        let p = self.member_under_cursor(env, decl);
        let n = decl.members@.len();
        &&& env.file_wf(decl.loc.file)
        &&& self.on_use(env, decl) ==> {
            &&& n == 0 ==> decl.loc.span.wf()
            &&& forall|i: int| #[trigger] reached(p, n, i) ==> env.loc_wf(decl.members@[i].loc)
        }
    }

    /// The `use` declarations of a module can be hovered over: those up to the one that names
    /// something at the cursor can.
    pub open spec fn uses_wf(self, env: &GlobalEnv, module: ModuleEnv) -> bool {
        let p = self.use_under_cursor(env, module);
        let n = module.use_decls@.len();
        &&& module.loc.file < env.files@.len()
        &&& forall|i: int| #[trigger]
            reached(p, n, i) ==> self.use_decl_wf(env, module.use_decls@[i])
    }
}

impl HandlerView {
    /// With a span added, and a text for the module `name` unless a module is shown already.
    pub open spec fn show_module(
        self,
        span: Span,
        name: Seq<char>,
        text: Seq<char>,
    ) -> HandlerView {
        if self.spans.contains(span) {
            self
        } else {
            HandlerView {
                spans: self.spans.push(span),
                texts: if module_shown(self.texts, name) {
                    self.texts
                } else {
                    self.texts.push(text)
                },
                ..self
            }
        }
    }

    /// With what a `use` declaration names added.
    pub open spec fn show_use(self, env: &GlobalEnv, target: UseTargetView) -> HandlerView {
        match target {
            UseTargetView::Module { name, loc } => self.show_module(
                loc.span,
                name,
                with_docs(module_text(name), documentation_at(env, loc)),
            ),
            UseTargetView::Item { module, item, loc } => self.record(
                crate::handler::Hit {
                    span: loc.span,
                    text: with_docs(
                        item_details(env.modules@, module, item),
                        documentation_at(env, loc),
                    ),
                },
            ),
        }
    }

    /// With what the `use` declarations of the target module name at the cursor; failing that, the
    /// module of one nearby.
    pub open spec fn after_use_decl(self, env: &GlobalEnv) -> HandlerView {
        let module = self.target(env);
        match first(self.cursor.use_under_cursor(env, module), module.use_decls@.len()) {
            Some(i) => self.show_use(
                env,
                self.cursor.use_target(env, env.source(module.loc.file), module.use_decls@[i])->0,
            ),
            None => match first(self.cursor.use_nearby(env, module), module.use_decls@.len()) {
                Some(i) => HandlerView {
                    texts: self.texts.push(module_text(module.use_decls@[i].module_name@)),
                    ..self
                },
                None => self,
            },
        }
    }

    /// With what the line of the cursor, in the file of the target module, befriends.
    pub open spec fn after_friend_decl(self, env: &GlobalEnv) -> HandlerView {
        let text = env.source(self.target(env).loc.file);
        let line = self.cursor.line;
        match (cursor_span(text, line, self.cursor.col), friend_name(line_text(text, line))) {
            (Some(span), Some(name)) => self.show_module(
                span,
                name,
                with_docs(friend_text(name), documentation(text, line)),
            ),
            _ => self,
        }
    }
}

/// The module that a line befriends.
pub open spec fn friend_name(line: Seq<char>) -> Option<Seq<char>> {
    let line = trim(line);
    if starts_with(line, "friend"@) && words(line).len() >= 2 {
        Some(without(words(line)[1], ';'))
    } else {
        None
    }
}

/// Collects what stands from line `line` on before the next closing brace.
fn scan_to_brace(lines: &Vec<&[char]>, line: usize) -> (r: Vec<char>)
    ensures
        r@ == up_to_brace(views(lines@), line as int),
{
    let mut r: Vec<char> = Vec::new();
    let mut i: usize = line;
    let ghost all = views(lines@);
    assert(r@ + up_to_brace(all, line as int) =~= up_to_brace(all, line as int));
    while i < lines.len()
        invariant
            all == views(lines@),
            r@ + up_to_brace(all, i as int) == up_to_brace(all, line as int),
        decreases lines@.len() - i,
    {
        let ghost before = r@;
        let text: &[char] = lines[i];
        assert(all[i as int] == text@);
        match find_char(text, '}') {
            Some(p) => {
                push_all(&mut r, slice_subrange(text, 0, p));
                assert(text@.subrange(0, p as int) =~= text@.take(p as int));
                return r;
            },
            None => {
                push_all(&mut r, text);
                r.push('\n');
                i += 1;
                assert(before + (text@ + seq!['\n'] + up_to_brace(all, i as int)) =~= r@
                    + up_to_brace(all, i as int));
            },
        }
    }
    assert(r@ + up_to_brace(all, i as int) =~= r@);
    r
}

/// Appends `more` to `r`.
fn push_all(r: &mut Vec<char>, more: &[char])
    ensures
        final(r)@ == old(r)@ + more@,
{
    for i in 0..more.len()
        invariant
            r@ == old(r)@ + more@.take(i as int),
    {
        r.push(more[i]);
        assert(old(r)@ + more@.take(i + 1) =~= (old(r)@ + more@.take(i as int)).push(
            more@[i as int],
        ));
    }
    assert(more@.take(more@.len() as int) =~= more@);
}

/// Decides whether byte `col` stands in, before or after the first `keyword` of `scanned`.
fn hovers_keyword(scanned: &[char], base: u128, keyword: &str, col: u32) -> (r: bool)
    requires
        base <= 8 * 0xffff_ffff_ffff_ffff,
    ensures
        r == on_keyword(scanned@, base as nat, keyword@, col),
{
    let keyword = chars_of(keyword);
    match find_text(scanned, keyword.as_slice()) {
        Some(p) => {
            proof {
                lemma_find(scanned@, keyword@);
            }
            let before = slice_subrange(scanned, 0, p);
            assert(before@ =~= scanned@.take(p as int));
            let start: u128 = base + utf8_len(before);
            let col: u128 = col as u128;
            start <= col && col <= start + utf8_len(keyword.as_slice())
        },
        None => false,
    }
}

/// Two lists hold the same numbers.
spec fn same_numbers(a: Seq<u128>, b: Seq<nat>) -> bool {
    a.len() == b.len() && forall|i: int| 0 <= i < a.len() ==> #[trigger] a[i] == b[i]
}

/// Collects the byte positions of the colons of a line.
fn find_colons(line: &[char]) -> (r: Vec<u128>)
    ensures
        same_numbers(r@, colon_positions(line@)),
{
    let mut r: Vec<u128> = Vec::new();
    for i in 0..line.len()
        invariant
            same_numbers(r@, colon_positions(line@.take(i as int))),
    {
        let before = slice_subrange(line, 0, i);
        assert(before@ =~= line@.take(i as int));
        assert(line@.take(i + 1).drop_last() =~= line@.take(i as int));
        if line[i] == ':' {
            r.push(utf8_len(before));
        }
    }
    assert(line@.take(line@.len() as int) =~= line@);
    r
}

impl Handler {
    /// What a `use` declaration with a brace at character `brace` of the line of the cursor names
    /// there, its members apart.
    fn find_brace_target(&self, lines: &Vec<&[char]>, brace: usize, decl: &UseDecl) -> (r: Option<
        UseTarget,
    >)
        requires
            self.line < lines@.len(),
            brace < lines@[self.line as int]@.len(),
        ensures
            match r {
                Some(target) => brace_target(
                    views(lines@),
                    self.line,
                    brace as int,
                    *decl,
                    self.col,
                ) == Some(target@),
                None => brace_target(
                    views(lines@),
                    self.line,
                    brace as int,
                    *decl,
                    self.col,
                ) is None,
            },
    {
        let line: &[char] = lines[self.line as usize];
        assert(views(lines@)[self.line as int] == line@);
        let before = slice_subrange(line, 0, brace);
        assert(before@ =~= line@.take(brace as int));
        let base: u128 = utf8_len(before) + 1;
        if (self.col as u128) < base {
            // on the name of the module
            return Some(UseTarget::Module { name: decl.module_name.clone(), loc: decl.loc });
        }
        let n: usize = line.len();
        let mut scanned: Vec<char> = Vec::new();
        push_all(&mut scanned, slice_subrange(line, brace + 1, n));
        push_all(&mut scanned, scan_to_brace(lines, self.line as usize).as_slice());
        assert(scanned@ =~= line@.skip(brace + 1) + up_to_brace(views(lines@), self.line as int));
        if hovers_keyword(scanned.as_slice(), base, "Self", self.col) {
            Some(UseTarget::Module { name: decl.module_name.clone(), loc: decl.loc })
        } else if hovers_keyword(scanned.as_slice(), base, "as", self.col) {
            Some(
                UseTarget::Item {
                    module: decl.module_name.clone(),
                    item: "as".to_string(),
                    loc: decl.loc,
                },
            )
        } else {
            None
        }
    }

    /// What a `use` declaration without braces names at the cursor, its members apart.
    fn find_path_target(&self, line: &[char], decl: &UseDecl) -> (r: Option<UseTarget>)
        ensures
            match r {
                Some(target) => path_target(line@, *decl, self.col) == Some(target@),
                None => path_target(line@, *decl, self.col) is None,
            },
    {
        let full_module_name = chars_of(decl.module_name.as_str());
        let module_parts = segments_of(full_module_name.as_slice());
        let colon_positions = find_colons(line);
        let n: usize = if colon_positions.len() <= module_parts.len() {
            colon_positions.len()
        } else {
            module_parts.len()
        };
        let ghost p = before_colon(self::colon_positions(line@), self.col);
        for i in 0..n
            invariant
                n <= module_parts@.len(),
                n <= colon_positions@.len(),
                n == min(
                    self::colon_positions(line@).len(),
                    segments(decl.module_name@).len(),
                ),
                p == before_colon(self::colon_positions(line@), self.col),
                views(module_parts@) == segments(decl.module_name@),
                same_numbers(colon_positions@, self::colon_positions(line@)),
                first(p, n as nat) == first_from(p, i as int, n as int),
        {
            let colon: u128 = colon_positions[i];
            assert(colon_positions@[i as int] == self::colon_positions(line@)[i as int]);
            if self.col as u128 <= colon {
                return Some(
                    UseTarget::Module {
                        name: join_first(&module_parts, i + 1, "::"),
                        loc: decl.loc,
                    },
                );
            }
        }
        None
    }

    /// What a `use` declaration in a file, whose lines are given, names at the cursor.
    fn find_use_target(
        &self,
        env: &GlobalEnv,
        file: usize,
        lines: &Vec<&[char]>,
        decl: &UseDecl,
    ) -> (r: Option<UseTarget>)
        requires
            self@.cursor.use_decl_wf(env, *decl),
            self@.cursor.on_use(env, *decl),
            views(lines@) == self::lines(env.source(file)),
        ensures
            match r {
                Some(target) => self@.cursor.use_target(env, env.source(file), *decl) == Some(
                    target@,
                ),
                None => self@.cursor.use_target(env, env.source(file), *decl) is None,
            },
            r matches Some(target) ==> env.file_wf(target@.loc().file),
    {
        if decl.members.len() == 0 {
            return if self.check_move_model_loc_contains_mouse_pos(env, &decl.loc) {
                Some(UseTarget::Module { name: decl.module_name.clone(), loc: decl.loc })
            } else {
                None
            };
        }
        let ghost p = self@.cursor.member_under_cursor(env, *decl);
        for i in 0..decl.members.len()
            invariant
                self@.cursor.use_decl_wf(env, *decl),
                self@.cursor.on_use(env, *decl),
                decl.members@.len() > 0,
                p == self@.cursor.member_under_cursor(env, *decl),
                first(p, decl.members@.len()) == first_from(
                    p,
                    i as int,
                    decl.members@.len() as int,
                ),
        {
            let member = &decl.members[i];
            proof {
                lemma_reached(p, decl.members@.len(), i as int);
            }
            if self.check_move_model_loc_contains_mouse_pos(env, &member.loc) {
                let full_module_name = chars_of(decl.module_name.as_str());
                return Some(
                    UseTarget::Item {
                        module: string_of(last_segment_of(full_module_name.as_slice())),
                        item: member.name.clone(),
                        loc: member.loc,
                    },
                );
            }
        }
        if (self.line as usize) < lines.len() {
            let line: &[char] = lines[self.line as usize];
            assert(views(lines@)[self.line as int] == line@);
            match find_char(line, '{') {
                Some(brace) => self.find_brace_target(lines, brace, decl),
                None => self.find_path_target(line, decl),
            }
        } else {
            let empty: Vec<char> = Vec::new();
            proof {
                lemma_find(seq![], seq!['{']);
                assert(empty@ =~= seq![]);
            }
            self.find_path_target(empty.as_slice(), decl)
        }
    }

    /// Decides whether one of the candidates already shows the module `name`, or some used or
    /// befriended module.
    fn shows_module_already(&self, name: &str) -> (r: bool)
        ensures
            r == module_shown(self@.texts, name@),
    {
        let mut heading = "module ".to_string();
        heading.append(name);
        for i in 0..self.result_candidates.len()
            invariant
                heading@ == "module "@ + name@,
                forall|j: int| 0 <= j < i ==> !shows_module(#[trigger] self@.texts[j], name@),
        {
            let existing = self.result_candidates[i].as_str();
            if str_contains(existing, heading.as_str()) || str_contains(
                existing,
                "// Module contents",
            ) || str_contains(existing, "// Friend module contents") {
                assert(shows_module(self@.texts[i as int], name@));
                return true;
            }
        }
        false
    }

    /// Adds a span, and a text for the module `name` unless a module is shown already.
    fn add_module(&mut self, span: &Span, name: &str, text: String)
        ensures
            final(self)@ == old(self)@.show_module(*span, name@, text@),
    {
        if self.capture_items_span_push(span) {
            if !self.shows_module_already(name) {
                let ghost before = self.result_candidates@;
                self.result_candidates.push(text);
                assert(texts(self.result_candidates@) =~= texts(before).push(text@));
            }
        }
        assert(self@ =~= old(self)@.show_module(*span, name@, text@));
    }

    /// Adds what the `use` declarations of the target module name at the cursor; failing that, the
    /// module of one nearby.
    pub fn process_use_decl(&mut self, env: &GlobalEnv)
        requires
            old(self).target_module_id < env.modules@.len(),
            old(self)@.cursor.uses_wf(env, old(self)@.target(env)),
        ensures
            final(self)@ == old(self)@.after_use_decl(env),
    {
        let target_module = &env.modules[self.target_module_id];
        let file: usize = target_module.loc.file;
        let file_source = chars_of(env.get_file_source(file));
        let lines = lines_of(file_source.as_slice());
        let ghost p = self@.cursor.use_under_cursor(env, *target_module);
        for i in 0..target_module.use_decls.len()
            invariant
                *self == *old(self),
                self@.cursor.uses_wf(env, *target_module),
                *target_module == self@.target(env),
                file == target_module.loc.file,
                views(lines@) == self::lines(env.source(file)),
                p == self@.cursor.use_under_cursor(env, *target_module),
                first(p, target_module.use_decls@.len()) == first_from(
                    p,
                    i as int,
                    target_module.use_decls@.len() as int,
                ),
        {
            let use_decl = &target_module.use_decls[i];
            proof {
                lemma_reached(p, target_module.use_decls@.len(), i as int);
            }
            let elsewhere = match env.get_location(&use_decl.loc) {
                Some(use_pos) => use_pos.line != self.line,
                None => false,
            };
            if !elsewhere {
                if let Some(target) = self.find_use_target(env, file, &lines, use_decl) {
                    self.add_use_target(env, target);
                    return;
                }
            }
        }
        let ghost q = self@.cursor.use_nearby(env, *target_module);
        for i in 0..target_module.use_decls.len()
            invariant
                *self == *old(self),
                self@.cursor.uses_wf(env, *target_module),
                *target_module == self@.target(env),
                first(
                    self@.cursor.use_under_cursor(env, *target_module),
                    target_module.use_decls@.len(),
                ) is None,
                p == self@.cursor.use_under_cursor(env, *target_module),
                q == self@.cursor.use_nearby(env, *target_module),
                first(q, target_module.use_decls@.len()) == first_from(
                    q,
                    i as int,
                    target_module.use_decls@.len() as int,
                ),
        {
            let use_decl = &target_module.use_decls[i];
            assert(reached(p, target_module.use_decls@.len(), i as int));
            if let Some(use_pos) = env.get_location(&use_decl.loc) {
                let line_diff: u32 = if use_pos.line > self.line {
                    use_pos.line - self.line
                } else {
                    self.line - use_pos.line
                };
                if line_diff <= 2 && use_decl.members.len() > 0 {
                    let result = format_module(use_decl.module_name.as_str());
                    let ghost before = self.result_candidates@;
                    self.result_candidates.push(result);
                    assert(texts(self.result_candidates@) =~= texts(before).push(result@));
                    assert(self@ =~= old(self)@.after_use_decl(env));
                    return;
                }
            }
        }
    }

    /// Adds what a `use` declaration names.
    fn add_use_target(&mut self, env: &GlobalEnv, target: UseTarget)
        requires
            env.file_wf(target@.loc().file),
        ensures
            final(self)@ == old(self)@.show_use(env, target@),
    {
        match target {
            UseTarget::Module { name, loc } => {
                let docs = self.extract_documentation_comments(env, &loc);
                let result = add_docs(format_module(name.as_str()), docs.as_str());
                self.add_module(&loc.span, name.as_str(), result);
            },
            UseTarget::Item { module, item, loc } => {
                let docs = self.extract_documentation_comments(env, &loc);
                let details = self.get_item_details(env, module.as_str(), item.as_str());
                let result = add_docs(details, docs.as_str());
                self.record(&loc.span, result.as_str());
            },
        }
    }

    /// The module that a line befriends.
    pub fn extract_friend_module_name(&self, line_source: &str) -> (r: Option<String>)
        ensures
            match r {
                Some(name) => friend_name(line_source@) == Some(name@),
                None => friend_name(line_source@) is None,
            },
    {
        let line = chars_of(line_source);
        let trimmed = trimmed(line.as_slice());
        if begins_with(trimmed, "friend") {
            let parts = words_of(trimmed);
            if parts.len() >= 2 {
                assert(views(parts@)[1] == parts@[1]@);
                return Some(without_char(parts[1], ';'));
            }
        }
        None
    }

    /// Adds what the line of the cursor, in the file of the target module, befriends.
    pub fn process_friend_decl(&mut self, env: &GlobalEnv)
        requires
            old(self).target_module_id < env.modules@.len(),
            env.cursor_wf(
                old(self)@.target(env).loc.file,
                old(self).line,
                old(self).col,
            ),
        ensures
            final(self)@ == old(self)@.after_friend_decl(env),
    {
        let target_module = &env.modules[self.target_module_id];
        let file_source = env.get_file_source(target_module.loc.file);
        if let Some(span) = span_to_cursor(file_source, self.line, self.col) {
            let chars = chars_of(file_source);
            let lines = lines_of(chars.as_slice());
            if (self.line as usize) < lines.len() {
                assert(views(lines@)[self.line as int] == lines@[self.line as int]@);
                let line = string_of(lines[self.line as usize]);
                if let Some(friend_module) = self.extract_friend_module_name(line.as_str()) {
                    let docs = self.extract_documentation_comments_for_line(env, self.line);
                    let result = add_docs(
                        format_friend(friend_module.as_str()),
                        docs.as_str(),
                    );
                    self.add_module(&span, friend_module.as_str(), result);
                }
            } else {
                proof {
                    lemma_empty_line_befriends_none();
                }
            }
        }
    }
}

impl Handler {
    /// Decides whether a `use` declaration can be hovered over.
    fn admits_use(&self, env: &GlobalEnv, decl: &UseDecl) -> (r: bool)
        ensures
            r == self@.cursor.use_decl_wf(env, *decl),
    {
        if !env.admits_file(decl.loc.file) {
            return false;
        }
        if let Some(use_pos) = env.get_location(&decl.loc) {
            if use_pos.line != self.line {
                return true;
            }
        }
        if decl.members.len() == 0 {
            return env.admits_loc(&decl.loc);
        }
        let ghost p = self@.cursor.member_under_cursor(env, *decl);
        for i in 0..decl.members.len()
            invariant
                self@.cursor.on_use(env, *decl),
                p == self@.cursor.member_under_cursor(env, *decl),
                first(p, decl.members@.len()) == first_from(
                    p,
                    i as int,
                    decl.members@.len() as int,
                ),
                env.file_wf(decl.loc.file),
                forall|j: int| 0 <= j < i ==> env.loc_wf((#[trigger] decl.members@[j]).loc),
        {
            proof {
                lemma_reached(p, decl.members@.len(), i as int);
            }
            if !env.admits_loc(&decl.members[i].loc) {
                return false;
            }
            if self.check_move_model_loc_contains_mouse_pos(env, &decl.members[i].loc) {
                return true;
            }
        }
        true
    }

    /// Decides whether the `use` declarations of a module can be hovered over.
    pub fn admits_uses(&self, env: &GlobalEnv, module: &ModuleEnv) -> (r: bool)
        ensures
            r == self@.cursor.uses_wf(env, *module),
    {
        let file: usize = module.loc.file;
        if file >= env.files.len() {
            return false;
        }
        let file_source = chars_of(env.get_file_source(file));
        let lines = lines_of(file_source.as_slice());
        let ghost p = self@.cursor.use_under_cursor(env, *module);
        for i in 0..module.use_decls.len()
            invariant
                file == module.loc.file < env.files@.len(),
                views(lines@) == self::lines(env.source(file)),
                p == self@.cursor.use_under_cursor(env, *module),
                first(p, module.use_decls@.len()) == first_from(
                    p,
                    i as int,
                    module.use_decls@.len() as int,
                ),
                forall|j: int|
                    0 <= j < i ==> self@.cursor.use_decl_wf(env, #[trigger] module.use_decls@[j]),
        {
            let use_decl = &module.use_decls[i];
            proof {
                lemma_reached(p, module.use_decls@.len(), i as int);
            }
            if !self.admits_use(env, use_decl) {
                return false;
            }
            let elsewhere = match env.get_location(&use_decl.loc) {
                Some(use_pos) => use_pos.line != self.line,
                None => false,
            };
            if !elsewhere && self.find_use_target(env, file, &lines, use_decl).is_some() {
                return true;
            }
        }
        true
    }
}

/// An empty line befriends no module.
proof fn lemma_empty_line_befriends_none()
    ensures
        friend_name(seq![]) is None,
{
    assert(words(trim(seq![])) =~= seq![]);
}

/// Formats a used module.
fn format_module(name: &str) -> (r: String)
    ensures
        r@ == module_text(name@),
{
    let mut result = "```move\nmodule ".to_string();
    result.append(name);
    result.append(" {\n    // Module contents\n}\n```");
    result
}

/// Formats a befriended module.
fn format_friend(name: &str) -> (r: String)
    ensures
        r@ == friend_text(name@),
{
    let mut result = "```move\nmodule ".to_string();
    result.append(name);
    result.append(" {\n    // Friend module contents\n}\n```");
    result
}

/// Adds the documentation to a text, if there is any.
fn add_docs(body: String, docs: &str) -> (r: String)
    ensures
        r@ == with_docs(body@, docs@),
{
    if docs.is_empty() {
        body
    } else {
        let mut result = body;
        result.append("\n\n**Documentation:**\n");
        result.append(docs);
        result
    }
}

} // verus!
