//! What is kept of what was found, what is shown of it, and with what documentation.

use vstd::prelude::*;
use crate::docs::doc_block;
use crate::docs::documentation;
use crate::handler::HandlerView;
use crate::handler::Hit;
use crate::handler::introduction;
use crate::handler::is_shortest;
use crate::handler::lemma_shortest;
use crate::laws::law_record_all_spans;
use crate::laws::lemma_trim;
use crate::model::GlobalEnv;
use crate::positions::law_cursor_span_len;
use crate::request::start;
use crate::source::Span;
use crate::source::column_fits;
use crate::source::line_start;
use crate::text::decimal;
use crate::text::is_whitespace;
use crate::text::join;
use crate::text::lines;
use crate::text::skip_start;
use crate::text::starts_with;
use crate::text::strip_slashes;
use crate::text::trim;
use crate::text::trim_end;
use crate::text::trim_start;
use crate::text_laws::law_decimal;
use crate::text_laws::numeral;

verus! {

/// A new handler stands at the given position, and has found nothing.
pub proof fn law_start(filepath: Seq<char>, line: u32, col: u32)
    ensures
        start(filepath, line, col).filepath == filepath,
        start(filepath, line, col).cursor.line == line,
        start(filepath, line, col).cursor.col == col,
        start(filepath, line, col).spans.len() == 0,
        start(filepath, line, col).texts.len() == 0,
        start(filepath, line, col).function is None,
{
}

/// A find with a new span is added with its text, behind all others; one with a known span is not.
pub proof fn law_record(v: HandlerView, hit: Hit)
    ensures
        !v.spans.contains(hit.span) ==> {
            &&& v.record(hit).spans == v.spans.push(hit.span)
            &&& v.record(hit).texts == v.texts.push(hit.text)
        },
        v.spans.contains(hit.span) ==> v.record(hit) == v,
        v.record(hit).cursor == v.cursor,
        v.record_all(seq![hit]) == v.record(hit),
        v.record_all(seq![]) == v,
{
    crate::handler::lemma_record_all_one(v, hit);
}

/// Of several finds with a new span the first is kept, and its text stands with its span.
pub proof fn law_first_find_is_kept(v: HandlerView, hits: Seq<Hit>, i: int)
    requires
        v.spans.len() == v.texts.len(),
        0 <= i < hits.len(),
        !v.spans.contains(hits[i].span),
        forall|j: int| 0 <= j < i ==> (#[trigger] hits[j]).span != hits[i].span,
    ensures
        v.record_all(hits).spans.len() == v.record_all(hits).texts.len(),
        exists|k: int|
            {
                &&& 0 <= k < v.record_all(hits).spans.len()
                &&& #[trigger] v.record_all(hits).spans[k] == hits[i].span
                &&& v.record_all(hits).texts[k] == hits[i].text
            },
    decreases hits.len(),
{
    let less = hits.drop_last();
    let w = v.record_all(less);
    let r = v.record_all(hits);
    crate::laws::law_record_all(v, less);
    if i < less.len() {
        assert(less[i] == hits[i]);
        assert forall|j: int| 0 <= j < i implies (#[trigger] less[j]).span != less[i].span by {
            assert(less[j] == hits[j]);
        }
        law_first_find_is_kept(v, less, i);
        let k = choose|k: int|
            {
                &&& 0 <= k < w.spans.len()
                &&& #[trigger] w.spans[k] == less[i].span
                &&& w.texts[k] == less[i].text
            };
        assert(r.spans[k] == hits[i].span);
        assert(r.texts[k] == hits[i].text);
    } else {
        law_record_all_spans(v, less, hits[i].span);
        assert(!w.spans.contains(hits[i].span)) by {
            if w.spans.contains(hits[i].span) {
                let j = choose|j: int|
                    0 <= j < less.len() && (#[trigger] less[j]).span == hits[i].span;
                assert(hits[j].span != hits[i].span);
            }
        }
        assert(r.spans[w.spans.len() as int] == hits[i].span);
    }
}

/// Span `k` is shorter than all before it, and no longer than any other.
pub open spec fn first_shortest(spans: Seq<Span>, k: int) -> bool {
    &&& 0 <= k < spans.len()
    &&& forall|j: int|
        0 <= j < spans.len() ==> spans[k].end - spans[k].start <= (#[trigger] spans[j]).end
            - spans[j].start
    &&& forall|j: int|
        0 <= j < k ==> spans[k].end - spans[k].start < (#[trigger] spans[j]).end - spans[j].start
}

/// The text with the number of the first of the shortest spans is shown, if there is one; without
/// spans the first text, and without that the word `null`.
pub proof fn law_hover_text(v: HandlerView, k: int)
    requires
        first_shortest(v.spans, k) || (v.spans.len() == 0 && k == 0),
    ensures
        k < v.texts.len() ==> v.hover_text() == v.texts[k],
        k >= v.texts.len() ==> v.hover_text() == "null"@,
        v.spans.len() > 0 ==> is_shortest(v.spans, k),
{
    if v.spans.len() > 0 {
        assert(is_shortest(v.spans, k));
        lemma_shortest(v.spans);
    }
}

/// After the result was taken nothing is left, and everything but the finds is as before.
pub proof fn law_cleared(v: HandlerView)
    ensures
        v.cleared().spans.len() == 0,
        v.cleared().texts.len() == 0,
        v.cleared().cursor == v.cursor,
        v.cleared().filepath == v.filepath,
        v.cleared().function == v.function,
{
}

/// The cursor is placed in a file as many bytes behind the start of its line as its column says, if
/// the file has that line; otherwise it stays. Nothing else changes.
pub proof fn law_placed(v: HandlerView, env: &GlobalEnv, file: usize)
    ensures
        ({
            let w = v.placed(env, file);
            let from = line_start(env.files@[file as int]@, v.cursor.line);
            &&& from matches Some(s) ==> (s + v.cursor.col <= u32::MAX ==> {
                &&& w.cursor.mouse.start == s
                &&& w.cursor.mouse.end == s + v.cursor.col
            })
            &&& from is None ==> w == v
            &&& w.spans == v.spans
            &&& w.texts == v.texts
            &&& w.cursor.line == v.cursor.line
            &&& w.cursor.col == v.cursor.col
            &&& w.cursor.module == v.cursor.module
        }),
{
    let text = env.files@[file as int]@;
    if column_fits(text, v.cursor.line, v.cursor.col) {
        law_cursor_span_len(text, v.cursor.line, v.cursor.col);
    }
}

/// A handler introduces itself with its file, its line and its column.
pub proof fn law_introduction(file: Seq<char>, line: u32, col: u32)
    ensures
        exists|l: Seq<char>, c: Seq<char>|
            {
                &&& numeral(l) == line
                &&& numeral(c) == col
                &&& introduction(file, line, col) == #[trigger] ("hover,file:"@ + file + " line:"@
                    + l + " col:"@ + c)
            },
{
    law_decimal(line as nat);
    law_decimal(col as nat);
    let l = decimal(line as nat);
    let c = decimal(col as nat);
    assert(introduction(file, line, col) == "hover,file:"@ + file + " line:"@ + l + " col:"@ + c);
}

/// A line that documents what follows: three slashes, a space and a text that neither begins nor ends
/// with white space, nor begins with a slash.
pub open spec fn comment_of(line: Seq<char>, body: Seq<char>) -> bool {
    &&& trim(line) == seq!['/', '/', '/', ' '] + body
    &&& body.len() > 0
    &&& !is_whitespace(body[0])
    &&& !is_whitespace(body.last())
}

/// The documentation of a line is made of the documentation comments directly above it, each on a
/// line of its own, in their order.
pub proof fn law_docs_are_the_comments_above(
    text: Seq<char>,
    from: int,
    line: u32,
    bodies: Seq<Seq<char>>,
)
    requires
        0 <= from < line,
        bodies.len() == line - from,
        forall|i: int|
            0 <= i < bodies.len() ==> comment_of(lines(text)[from + i], #[trigger] bodies[i]),
        from == 0 || {
            let above = trim(lines(text)[from - 1]);
            above.len() > 0 && (above.len() < 3 || above.take(3) != seq!['/', '/', '/'])
        },
    ensures
        documentation(text, line) == join(bodies, seq!['\n']),
{
    lemma_comment_lines(lines(text), from, line as int, bodies);
    let all = join(bodies, seq!['\n']);
    let s = all + seq!['\n'];
    lemma_joined_ends(bodies);
    reveal_strlit("\n");
    assert("\n"@ =~= seq!['\n']);
    assert(doc_block(lines(text), line as int) == s);
    let skip = |c: char| is_whitespace(c);
    assert(s[0] == all[0]);
    assert(trim_start(s) == s);
    assert(s.drop_last() =~= all);
    assert(trim_end(s) == trim_end(all));
    lemma_trim(all);
    assert(trim_end(all) == all);
}

proof fn lemma_joined_ends(bodies: Seq<Seq<char>>)
    requires
        bodies.len() > 0,
        forall|i: int|
            0 <= i < bodies.len() ==> (#[trigger] bodies[i]).len() > 0 && !is_whitespace(
                bodies[i][0],
            ) && !is_whitespace(bodies[i].last()),
    ensures
        ({
            let all = join(bodies, seq!['\n']);
            &&& all.len() > 0
            &&& !is_whitespace(all[0])
            &&& !is_whitespace(all.last())
        }),
    decreases bodies.len(),
{
    if bodies.len() > 1 {
        let less = bodies.drop_last();
        assert forall|i: int| 0 <= i < less.len() implies (#[trigger] less[i]).len() > 0
            && !is_whitespace(less[i][0]) && !is_whitespace(less[i].last()) by {
            assert(less[i] == bodies[i]);
        }
        lemma_joined_ends(less);
        let all = join(bodies, seq!['\n']);
        assert(all[0] == join(less, seq!['\n'])[0]);
        assert(bodies[bodies.len() - 1] == bodies.last());
        assert(all.last() == bodies.last().last());
    }
}

proof fn lemma_comment_lines(ls: Seq<Seq<char>>, from: int, n: int, bodies: Seq<Seq<char>>)
    requires
        0 <= from < n,
        bodies.len() == n - from,
        forall|i: int| 0 <= i < bodies.len() ==> comment_of(ls[from + i], #[trigger] bodies[i]),
        from == 0 || {
            let above = trim(ls[from - 1]);
            above.len() > 0 && (above.len() < 3 || above.take(3) != seq!['/', '/', '/'])
        },
    ensures
        doc_block(ls, n) == join(bodies, seq!['\n']) + seq!['\n'],
    decreases n,
{
    reveal_strlit("///");
    reveal_strlit("\n");
    let slashes = "///"@;
    assert(slashes =~= seq!['/', '/', '/']);
    assert("\n"@ =~= seq!['\n']);
    let body = bodies.last();
    assert(bodies[n - 1 - from] == body);
    let line = trim(ls[n - 1]);
    assert(comment_of(ls[from + (n - 1 - from)], body));
    assert(line == seq!['/', '/', '/', ' '] + body);
    assert(line.subrange(0, 3) =~= slashes);
    assert(starts_with(line, slashes));
    lemma_comment_body(line, body);
    if n - 1 == from {
        assert(bodies =~= seq![body]);
        if from > 0 {
            let above = trim(ls[from - 1]);
            if starts_with(above, slashes) {
                assert(above.take(3) =~= above.subrange(0, 3));
            }
            assert(!starts_with(above, slashes));
        }
        assert(doc_block(ls, from) =~= seq![]);
        assert(doc_block(ls, n) =~= body + seq!['\n']);
    } else {
        let less = bodies.drop_last();
        assert forall|i: int| 0 <= i < less.len() implies comment_of(
            ls[from + i],
            #[trigger] less[i],
        ) by {
            assert(less[i] == bodies[i]);
        }
        lemma_comment_lines(ls, from, n - 1, less);
        assert(doc_block(ls, n) =~= (join(less, seq!['\n']) + seq!['\n']) + body + seq!['\n']);
    }
}

proof fn lemma_comment_body(line: Seq<char>, body: Seq<char>)
    requires
        line == seq!['/', '/', '/', ' '] + body,
        body.len() > 0,
        !is_whitespace(body[0]),
        !is_whitespace(body.last()),
    ensures
        trim(strip_slashes(line)) == body,
{
    let slash = |c: char| c == '/';
    reveal_with_fuel(skip_start, 5);
    let a = line.drop_first();
    let b = a.drop_first();
    let c = b.drop_first();
    assert(line[0] == '/' && a[0] == '/' && b[0] == '/' && c[0] == ' ');
    assert(skip_start(line, slash) == c);
    assert(strip_slashes(line) == c);
    let skip = |c: char| is_whitespace(c);
    assert(c.drop_first() =~= body);
    assert(trim_start(c) == skip_start(body, skip));
    assert(trim_start(c) == body);
    assert(trim_end(body) == body);
}

} // verus!
