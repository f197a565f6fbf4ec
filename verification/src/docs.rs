//! The documentation comments above a declaration.

use vstd::prelude::*;
use vstd::utf8::decode_utf8;
use vstd::utf8::encode_utf8;
use crate::handler::Handler;
use crate::model::GlobalEnv;
use crate::model::Loc;
use crate::source::newline_count;
use crate::source::text_before;
use crate::text::begins_with;
use crate::text::byte_len;
use crate::text::chars_of;
use crate::text::find;
use crate::text::lemma_byte_len_one;
use crate::text::lemma_encode_add;
use crate::text::lemma_find;
use crate::text::lines;
use crate::text::lines_of;
use crate::text::occurs_at;
use crate::text::starts_with;
use crate::text::string_of;
use crate::text::strip_slashes;
use crate::text::trim;
use crate::text::trimmed;
use crate::text::views;
use crate::text::without_slashes;

verus! {

/// The documentation comments directly above line `n`, one per line, without their slashes. Empty
/// lines may stand between them; any other line ends them.
pub open spec fn doc_block(lines: Seq<Seq<char>>, n: int) -> Seq<char>
    decreases n,
{
    if n <= 0 {
        seq![]
    } else {
        let line = trim(lines[n - 1]);
        if starts_with(line, "///"@) {
            doc_block(lines, n - 1) + trim(strip_slashes(line)) + "\n"@
        } else if line.len() == 0 {
            doc_block(lines, n - 1)
        } else {
            seq![]
        }
    }
}

/// The documentation of what is declared on line `line` of a text.
pub open spec fn documentation(text: Seq<char>, line: u32) -> Seq<char> {
    trim(doc_block(lines(text), line as int))
}

/// The documentation of what is declared at `loc`.
pub open spec fn documentation_at(env: &GlobalEnv, loc: Loc) -> Seq<char> {
    match env.location(loc) {
        Some(pos) => documentation(env.source(loc.file), pos.line),
        None => seq![],
    }
}

/// What stands before a byte of a text is a beginning of the text.
pub proof fn lemma_text_before(text: Seq<char>, index: int)
    ensures
        text_before(text, index) matches Some(before) ==> exists|after: Seq<char>|
            text == #[trigger] (before + after),
{
    if let Some(before) = text_before(text, index) {
        let bytes = encode_utf8(text);
        vstd::utf8::encode_utf8_valid_utf8(text);
        vstd::utf8::encode_utf8_decode_utf8(text);
        vstd::utf8::decode_utf8_split(bytes, index);
        let after = decode_utf8(bytes.subrange(index, bytes.len() as int));
        assert(text == before + after);
    }
}

/// The line feeds of a text are those of its two halves.
pub proof fn lemma_newline_count_add(a: Seq<char>, b: Seq<char>)
    ensures
        newline_count(a + b) == newline_count(a) + newline_count(b),
    decreases b.len(),
{
    if b.len() == 0 {
        assert(a + b =~= a);
    } else {
        lemma_newline_count_add(a, b.drop_last());
        assert((a + b).drop_last() =~= a + b.drop_last());
    }
}

/// A text without line feeds has none to count.
pub proof fn lemma_no_newline(s: Seq<char>)
    requires
        forall|i: int| 0 <= i < s.len() ==> s[i] != '\n',
    ensures
        newline_count(s) == 0,
    decreases s.len(),
{
    if s.len() > 0 {
        lemma_no_newline(s.drop_last());
    }
}

/// A text has no more line feeds than bytes.
proof fn lemma_newline_count_bound(s: Seq<char>)
    ensures
        newline_count(s) <= s.len() <= byte_len(s),
    decreases s.len(),
{
    if s.len() > 0 {
        lemma_newline_count_bound(s.drop_last());
        lemma_byte_len_one(s.last());
        lemma_encode_add(s.drop_last(), seq![s.last()]);
        assert(s =~= s.drop_last() + seq![s.last()]);
    }
}

/// Each line feed of a text ends one of its lines.
pub proof fn lemma_newline_count_lines(s: Seq<char>)
    ensures
        newline_count(s) <= lines(s).len(),
    decreases s.len(),
{
    if s.len() > 0 {
        lemma_find(s, seq!['\n']);
        match find(s, seq!['\n']) {
            Some(p) => {
                assert(s.subrange(p, p + 1)[0] == '\n');
                let head = s.take(p);
                let rest = s.skip(p + 1);
                assert forall|i: int| 0 <= i < head.len() implies head[i] != '\n' by {
                    if head[i] == '\n' {
                        assert(s.subrange(i, i + 1) =~= seq!['\n']);
                        assert(occurs_at(s, seq!['\n'], i));
                    }
                }
                lemma_no_newline(head);
                lemma_newline_count_lines(rest);
                assert(s =~= head + (seq!['\n'] + rest));
                lemma_newline_count_add(head, seq!['\n'] + rest);
                lemma_newline_count_add(seq!['\n'], rest);
                assert(seq!['\n'].drop_last() =~= seq![]);
                assert(newline_count(seq!['\n']) == 1) by {
                    reveal_with_fuel(newline_count, 2);
                }
            },
            None => {
                assert forall|i: int| 0 <= i < s.len() implies s[i] != '\n' by {
                    if s[i] == '\n' {
                        assert(s.subrange(i, i + 1) =~= seq!['\n']);
                        assert(occurs_at(s, seq!['\n'], i));
                    }
                }
                lemma_no_newline(s);
            },
        }
    }
}

/// What stands before a line on which something stands are lines of the text.
pub proof fn lemma_located_line(env: &GlobalEnv, loc: Loc)
    requires
        env.file_wf(loc.file),
    ensures
        env.location(loc) matches Some(pos) ==> pos.line <= lines(env.source(loc.file)).len(),
{
    let text = env.source(loc.file);
    let index = loc.span.start as int;
    if let Some(before) = text_before(text, index) {
        lemma_text_before(text, index);
        let after = choose|after: Seq<char>| text == #[trigger] (before + after);
        lemma_newline_count_add(before, after);
        lemma_newline_count_lines(text);
        lemma_newline_count_bound(text);
    }
}

/// Collects the documentation comments directly above line `line_num`.
fn documentation_above(lines: &Vec<&[char]>, line_num: usize) -> (r: String)
    requires
        line_num <= lines@.len(),
    ensures
        r@ == trim(doc_block(views(lines@), line_num as int)),
{
    let mut docs = String::new();
    let mut i: usize = line_num;
    let ghost texts = views(lines@);
    assert(doc_block(texts, line_num as int) =~= doc_block(texts, i as int) + docs@);
    while i > 0
        invariant_except_break
            doc_block(texts, line_num as int) == doc_block(texts, i as int) + docs@,
        invariant
            i <= line_num <= lines@.len(),
            texts == views(lines@),
        ensures
            docs@ == doc_block(texts, line_num as int),
        decreases i,
    {
        i -= 1;
        let line = trimmed(lines[i]);
        if begins_with(line, "///") {
            let mut longer = string_of(trimmed(without_slashes(line)));
            longer.append("\n");
            longer.append(docs.as_str());
            proof {
                let above = doc_block(texts, i as int);
                let own = trim(strip_slashes(line@));
                assert((above + own + "\n"@) + docs@ =~= above + (own + "\n"@ + docs@));
            }
            docs = longer;
        } else if line.len() == 0 {
            continue;
        } else {
            assert(seq![] + docs@ =~= docs@);
            break;
        }
    }
    proof {
        if i == 0 {
            assert(doc_block(texts, 0) + docs@ =~= docs@);
        }
    }
    let docs = chars_of(docs.as_str());
    string_of(trimmed(docs.as_slice()))
}

impl Handler {
    /// The documentation of what is declared at `loc`.
    pub fn extract_documentation_comments(&self, env: &GlobalEnv, loc: &Loc) -> (r: String)
        requires
            env.file_wf(loc.file),
        ensures
            r@ == documentation_at(env, *loc),
    {
        let file_source = chars_of(env.get_file_source(loc.file));
        let lines = lines_of(file_source.as_slice());
        if let Some(pos) = env.get_location(loc) {
            proof {
                lemma_located_line(env, *loc);
            }
            documentation_above(&lines, pos.line as usize)
        } else {
            String::new()
        }
    }

    /// The documentation of what is declared on a line of the file of the target module.
    pub fn extract_documentation_comments_for_line(&self, env: &GlobalEnv, line: u32) -> (r: String)
        requires
            self.target_module_id < env.modules@.len(),
            env.modules@[self.target_module_id as int].loc.file < env.files@.len(),
            line <= lines(env.source(env.modules@[self.target_module_id as int].loc.file)).len(),
        ensures
            r@ == documentation(
                env.source(env.modules@[self.target_module_id as int].loc.file),
                line,
            ),
    {
        let target_module = &env.modules[self.target_module_id];
        let file_source = chars_of(env.get_file_source(target_module.loc.file));
        let lines = lines_of(file_source.as_slice());
        documentation_above(&lines, line as usize)
    }
}

} // verus!
