//! Operations on texts, seen as sequences of characters.

use vstd::prelude::*;
use vstd::slice::slice_subrange;
use vstd::utf8::encode_scalar;
use vstd::utf8::encode_utf8;

verus! {

/// `String::push` appends the given character to the end of the string.
pub assume_specification[ String::push ](s: &mut String, c: char)
    ensures
        final(s)@ == old(s)@.push(c),
;

/// The characters with the Unicode property `White_Space`.
pub open spec fn is_whitespace(c: char) -> bool {
    ||| '\u{9}' <= c <= '\u{d}'
    ||| c == '\u{20}'
    ||| c == '\u{85}'
    ||| c == '\u{a0}'
    ||| c == '\u{1680}'
    ||| '\u{2000}' <= c <= '\u{200a}'
    ||| '\u{2028}' <= c <= '\u{2029}'
    ||| c == '\u{202f}'
    ||| c == '\u{205f}'
    ||| c == '\u{3000}'
}

/// Decides whether `c` is white space.
pub fn whitespace(c: char) -> (r: bool)
    ensures
        r == is_whitespace(c),
{
    ('\u{9}' <= c && c <= '\u{d}') || c == '\u{20}' || c == '\u{85}' || c == '\u{a0}' || c
        == '\u{1680}' || ('\u{2000}' <= c && c <= '\u{200a}') || ('\u{2028}' <= c && c
        <= '\u{2029}') || c == '\u{202f}' || c == '\u{205f}' || c == '\u{3000}'
}

/// The characters of a string.
pub fn chars_of(s: &str) -> (r: Vec<char>)
    ensures
        r@ == s@,
{
    let mut r: Vec<char> = Vec::new();
    for c in it: s.chars()
        invariant
            it.seq() == s@,
            r@ == s@.take(it.index()),
    {
        r.push(c);
    }
    r
}

/// The string made of the given characters.
pub fn string_of(chars: &[char]) -> (r: String)
    ensures
        r@ == chars@,
{
    let mut r = String::new();
    for i in 0..chars.len()
        invariant
            r@ == chars@.take(i as int),
    {
        r.push(chars[i]);
    }
    r
}

/// The texts that a list of character slices stands for.
pub open spec fn views(parts: Seq<&[char]>) -> Seq<Seq<char>> {
    Seq::new(parts.len(), |i: int| parts[i]@)
}

/// The texts that a list of strings stands for.
pub open spec fn texts(strings: Seq<String>) -> Seq<Seq<char>> {
    Seq::new(strings.len(), |i: int| strings[i]@)
}

/// `pat` stands in `s` at character position `k`.
pub open spec fn occurs_at(s: Seq<char>, pat: Seq<char>, k: int) -> bool {
    &&& 0 <= k
    &&& k + pat.len() <= s.len()
    &&& s.subrange(k, k + pat.len()) == pat
}

/// `pat` stands somewhere in `s`.
pub open spec fn contains(s: Seq<char>, pat: Seq<char>) -> bool {
    exists|k: int| occurs_at(s, pat, k)
}

/// The first position at or after `k` at which `pat` stands in `s`.
pub open spec fn find_from(s: Seq<char>, pat: Seq<char>, k: int) -> Option<int>
    decreases s.len() - k + 1,
{
    if k < 0 || k + pat.len() > s.len() {
        None
    } else if occurs_at(s, pat, k) {
        Some(k)
    } else {
        find_from(s, pat, k + 1)
    }
}

/// The first position at which `pat` stands in `s`.
pub open spec fn find(s: Seq<char>, pat: Seq<char>) -> Option<int> {
    find_from(s, pat, 0)
}

/// What `find_from` finds is an occurrence, and none stands before it.
proof fn lemma_find_from(s: Seq<char>, pat: Seq<char>, k: int)
    requires
        0 <= k,
    ensures
        match find_from(s, pat, k) {
            Some(p) => k <= p && occurs_at(s, pat, p) && forall|j: int|
                k <= j < p ==> !occurs_at(s, pat, j),
            None => forall|j: int| k <= j ==> !occurs_at(s, pat, j),
        },
    decreases s.len() - k + 1,
{
    if k + pat.len() <= s.len() && !occurs_at(s, pat, k) {
        lemma_find_from(s, pat, k + 1);
    }
}

/// `find` gives the first occurrence, and gives one exactly when the text contains the pattern.
pub proof fn lemma_find(s: Seq<char>, pat: Seq<char>)
    ensures
        match find(s, pat) {
            Some(p) => occurs_at(s, pat, p) && forall|j: int| j < p ==> !occurs_at(s, pat, j),
            None => !contains(s, pat),
        },
        find(s, pat) is Some <==> contains(s, pat),
{
    lemma_find_from(s, pat, 0);
}

/// Decides whether `pat` stands in `s` at position `k`.
fn matches_at(s: &[char], pat: &[char], k: usize) -> (r: bool)
    requires
        k + pat@.len() <= s@.len(),
    ensures
        r == occurs_at(s@, pat@, k as int),
{
    let n: usize = s.len();
    for i in 0..pat.len()
        invariant
            n == s@.len(),
            k + pat@.len() <= n,
            forall|j: int| 0 <= j < i ==> s@[k + j] == pat@[j],
    {
        if s[k + i] != pat[i] {
            assert(s@.subrange(k as int, k + pat@.len())[i as int] != pat@[i as int]);
            return false;
        }
    }
    assert(s@.subrange(k as int, k + pat@.len()) =~= pat@);
    true
}

/// The position of the first occurrence of `pat` in `s`, counted in characters.
pub fn find_text(s: &[char], pat: &[char]) -> (r: Option<usize>)
    ensures
        match r {
            Some(k) => find(s@, pat@) == Some(k as int),
            None => find(s@, pat@) is None,
        },
{
    if pat.len() > s.len() {
        return None;
    }
    let last: usize = s.len() - pat.len();
    let mut k: usize = 0;
    while k < last
        invariant
            last + pat@.len() == s@.len(),
            k <= last,
            find(s@, pat@) == find_from(s@, pat@, k as int),
        decreases last - k,
    {
        if matches_at(s, pat, k) {
            return Some(k);
        }
        k += 1;
    }
    if matches_at(s, pat, last) {
        Some(last)
    } else {
        assert(find_from(s@, pat@, last + 1) is None);
        None
    }
}

/// Decides whether `pat` stands somewhere in `s`.
pub fn contains_text(s: &[char], pat: &[char]) -> (r: bool)
    ensures
        r == contains(s@, pat@),
{
    proof {
        lemma_find(s@, pat@);
    }
    find_text(s, pat).is_some()
}

/// Decides whether the string `pat` stands somewhere in the string `s`.
pub fn str_contains(s: &str, pat: &str) -> (r: bool)
    ensures
        r == contains(s@, pat@),
{
    let s = chars_of(s);
    let pat = chars_of(pat);
    contains_text(s.as_slice(), pat.as_slice())
}

/// Decides whether two texts are equal.
pub fn same_text(s: &[char], t: &[char]) -> (r: bool)
    ensures
        r == (s@ == t@),
{
    if s.len() != t.len() {
        return false;
    }
    proof {
        assert(s@.subrange(0, t@.len() as int) =~= s@);
    }
    matches_at(s, t, 0)
}

/// `s` begins with `pat`.
pub open spec fn starts_with(s: Seq<char>, pat: Seq<char>) -> bool {
    occurs_at(s, pat, 0)
}

/// Decides whether `s` begins with `pat`.
pub fn begins_with(s: &[char], pat: &str) -> (r: bool)
    ensures
        r == starts_with(s@, pat@),
{
    let pat = chars_of(pat);
    pat.len() <= s.len() && matches_at(s, pat.as_slice(), 0)
}

/// `s` without the characters of the class `skip` at its beginning.
pub open spec fn skip_start(s: Seq<char>, skip: spec_fn(char) -> bool) -> Seq<char>
    decreases s.len(),
{
    if s.len() > 0 && skip(s[0]) {
        skip_start(s.drop_first(), skip)
    } else {
        s
    }
}

/// `s` without the white space at its end.
pub open spec fn trim_end(s: Seq<char>) -> Seq<char>
    decreases s.len(),
{
    if s.len() > 0 && is_whitespace(s.last()) {
        trim_end(s.drop_last())
    } else {
        s
    }
}

/// `s` without the white space at its beginning.
pub open spec fn trim_start(s: Seq<char>) -> Seq<char> {
    skip_start(s, |c: char| is_whitespace(c))
}

/// `s` without the white space at either end.
pub open spec fn trim(s: Seq<char>) -> Seq<char> {
    trim_end(trim_start(s))
}

/// `s` without the slashes at its beginning.
pub open spec fn strip_slashes(s: Seq<char>) -> Seq<char> {
    skip_start(s, |c: char| c == '/')
}

/// Removes the white space at the beginning of `s`.
fn trimmed_start(s: &[char]) -> (r: &[char])
    ensures
        r@ == trim_start(s@),
{
    let ghost skip = |c: char| is_whitespace(c);
    let mut i: usize = 0;
    assert(s@.skip(0) =~= s@);
    while i < s.len() && whitespace(s[i])
        invariant
            i <= s@.len(),
            skip == (|c: char| is_whitespace(c)),
            trim_start(s@) == skip_start(s@.skip(i as int), skip),
        decreases s@.len() - i,
    {
        assert(s@.skip(i as int).drop_first() =~= s@.skip(i + 1));
        i += 1;
    }
    assert(s@.skip(i as int) =~= s@.subrange(i as int, s@.len() as int));
    slice_subrange(s, i, s.len())
}

/// Removes the white space at both ends of `s`.
pub fn trimmed(s: &[char]) -> (r: &[char])
    ensures
        r@ == trim(s@),
{
    let s = trimmed_start(s);
    let mut n: usize = s.len();
    assert(s@.take(n as int) =~= s@);
    while n > 0 && whitespace(s[n - 1])
        invariant
            n <= s@.len(),
            trim_end(s@) == trim_end(s@.take(n as int)),
        decreases n,
    {
        assert(s@.take(n as int).drop_last() =~= s@.take(n - 1));
        n -= 1;
    }
    slice_subrange(s, 0, n)
}

/// Removes the slashes at the beginning of `s`.
pub fn without_slashes(s: &[char]) -> (r: &[char])
    ensures
        r@ == strip_slashes(s@),
{
    let ghost skip = |c: char| c == '/';
    let mut i: usize = 0;
    assert(s@.skip(0) =~= s@);
    while i < s.len() && s[i] == '/'
        invariant
            i <= s@.len(),
            skip == (|c: char| c == '/'),
            strip_slashes(s@) == skip_start(s@.skip(i as int), skip),
        decreases s@.len() - i,
    {
        assert(s@.skip(i as int).drop_first() =~= s@.skip(i + 1));
        i += 1;
    }
    assert(s@.skip(i as int) =~= s@.subrange(i as int, s@.len() as int));
    slice_subrange(s, i, s.len())
}

/// `s` without a carriage return at its end.
pub open spec fn strip_return(s: Seq<char>) -> Seq<char> {
    if s.len() > 0 && s.last() == '\r' {
        s.drop_last()
    } else {
        s
    }
}

/// The lines of a text. A line ends with a line feed, or with a carriage return and a line feed;
/// neither belongs to the line. The last line may lack this end, and is then left out if empty.
pub open spec fn lines(s: Seq<char>) -> Seq<Seq<char>>
    decreases s.len(),
{
    if s.len() == 0 {
        seq![]
    } else {
        match find(s, seq!['\n']) {
            Some(p) => if 0 <= p < s.len() {
                seq![strip_return(s.take(p))] + lines(s.skip(p + 1))
            } else {
                seq![s]
            },
            None => seq![s],
        }
    }
}

/// The position of the first `c` in `s`, counted in characters.
pub fn find_char(s: &[char], c: char) -> (r: Option<usize>)
    ensures
        match r {
            Some(k) => find(s@, seq![c]) == Some(k as int) && k < s@.len() && s@[k as int] == c,
            None => find(s@, seq![c]) is None,
        },
{
    let mut pat: Vec<char> = Vec::new();
    pat.push(c);
    assert(pat@ =~= seq![c]);
    let r = find_text(s, pat.as_slice());
    proof {
        lemma_find(s@, seq![c]);
        if let Some(k) = r {
            assert(s@.subrange(k as int, k + 1)[0] == c);
        }
    }
    r
}

/// Splits a text into its lines.
pub fn lines_of<'a>(s: &'a [char]) -> (r: Vec<&'a [char]>)
    ensures
        views(r@) == lines(s@),
{
    let mut r: Vec<&'a [char]> = Vec::new();
    let mut rest: &'a [char] = s;
    assert(views(r@) + lines(s@) =~= lines(s@));
    while rest.len() > 0
        invariant
            views(r@) + lines(rest@) == lines(s@),
        decreases rest@.len(),
    {
        let ghost before = r@;
        match find_char(rest, '\n') {
            None => {
                r.push(rest);
                assert(views(r@) =~= views(before).push(rest@));
                assert(views(before) + seq![rest@] =~= views(r@));
                return r;
            },
            Some(p) => {
                let line: &'a [char] = if p > 0 && rest[p - 1] == '\r' {
                    slice_subrange(rest, 0, p - 1)
                } else {
                    slice_subrange(rest, 0, p)
                };
                let ghost whole = rest@;
                assert(line@ =~= strip_return(whole.take(p as int)));
                r.push(line);
                rest = slice_subrange(rest, p + 1, rest.len());
                proof {
                    assert(rest@ =~= whole.skip(p + 1));
                    assert(views(r@) =~= views(before).push(line@));
                    assert(views(before) + (seq![line@] + lines(rest@)) =~= views(r@) + lines(
                        rest@,
                    ));
                }
            },
        }
    }
    assert(views(r@) + lines(rest@) =~= views(r@));
    r
}

/// The number of characters before the first white space of `s`.
pub open spec fn word_len(s: Seq<char>) -> nat
    decreases s.len(),
{
    if s.len() == 0 || is_whitespace(s[0]) {
        0
    } else {
        1 + word_len(s.drop_first())
    }
}

/// The words of a text: its longest pieces without white space.
pub open spec fn words(s: Seq<char>) -> Seq<Seq<char>>
    decreases s.len(),
{
    if s.len() == 0 {
        seq![]
    } else if is_whitespace(s[0]) {
        words(s.drop_first())
    } else {
        let n = word_len(s) as int;
        if 0 < n <= s.len() {
            seq![s.take(n)] + words(s.skip(n))
        } else {
            seq![]
        }
    }
}

/// Splits a text into its words.
pub fn words_of<'a>(s: &'a [char]) -> (r: Vec<&'a [char]>)
    ensures
        views(r@) == words(s@),
{
    let mut r: Vec<&'a [char]> = Vec::new();
    let mut rest: &'a [char] = s;
    assert(views(r@) + words(s@) =~= words(s@));
    while rest.len() > 0
        invariant
            views(r@) + words(rest@) == words(s@),
        decreases rest@.len(),
    {
        let ghost whole = rest@;
        if whitespace(rest[0]) {
            rest = slice_subrange(rest, 1, rest.len());
            assert(rest@ =~= whole.drop_first());
        } else {
            let ghost before = r@;
            let mut n: usize = 0;
            assert(whole.skip(0) =~= whole);
            while n < rest.len() && !whitespace(rest[n])
                invariant
                    n <= rest@.len(),
                    rest@ == whole,
                    word_len(whole) == n + word_len(whole.skip(n as int)),
                decreases rest@.len() - n,
            {
                assert(whole.skip(n as int).drop_first() =~= whole.skip(n + 1));
                n += 1;
            }
            let word: &'a [char] = slice_subrange(rest, 0, n);
            assert(word@ =~= whole.take(n as int));
            r.push(word);
            rest = slice_subrange(rest, n, rest.len());
            proof {
                assert(n == word_len(whole));
                assert(n > 0);
                assert(rest@ =~= whole.skip(n as int));
                assert(views(r@) =~= views(before).push(word@));
                assert(views(before) + (seq![word@] + words(rest@)) =~= views(r@) + words(rest@));
            }
        }
    }
    assert(views(r@) + words(rest@) =~= views(r@));
    r
}

/// The class of the characters other than `c`.
pub open spec fn other_than(c: char) -> spec_fn(char) -> bool {
    |x: char| x != c
}

/// `s` without its characters `c`.
pub open spec fn without(s: Seq<char>, c: char) -> Seq<char> {
    s.filter(other_than(c))
}

/// Removes each `c` from `s`.
pub fn without_char(s: &[char], c: char) -> (r: String)
    ensures
        r@ == without(s@, c),
{
    let mut r = String::new();
    let ghost keep = other_than(c);
    proof {
        reveal(Seq::filter);
        assert(s@.take(0).filter(keep) =~= seq![]);
    }
    for i in 0..s.len()
        invariant
            keep == other_than(c),
            r@ == s@.take(i as int).filter(keep),
    {
        proof {
            reveal(Seq::filter);
            assert(s@.take(i + 1).drop_last() =~= s@.take(i as int));
        }
        if s[i] != c {
            r.push(s[i]);
        }
    }
    assert(s@.take(s@.len() as int) =~= s@);
    r
}

/// The pieces of a path whose parts are separated by two colons.
pub open spec fn segments(s: Seq<char>) -> Seq<Seq<char>>
    decreases s.len(),
{
    match find(s, seq![':', ':']) {
        Some(p) => if 0 <= p && p + 2 <= s.len() {
            seq![s.take(p)] + segments(s.skip(p + 2))
        } else {
            seq![s]
        },
        None => seq![s],
    }
}

/// A path has at least one piece.
pub proof fn lemma_segments_nonempty(s: Seq<char>)
    ensures
        segments(s).len() > 0,
{
}

/// The last piece of a path.
pub open spec fn last_segment(s: Seq<char>) -> Seq<char> {
    segments(s).last()
}

/// Splits a path into its pieces.
pub fn segments_of<'a>(s: &'a [char]) -> (r: Vec<&'a [char]>)
    ensures
        views(r@) == segments(s@),
        r@.len() > 0,
{
    let mut r: Vec<&'a [char]> = Vec::new();
    let mut rest: &'a [char] = s;
    let mut pat: Vec<char> = Vec::new();
    pat.push(':');
    pat.push(':');
    assert(pat@ =~= seq![':', ':']);
    assert(views(r@) + segments(s@) =~= segments(s@));
    loop
        invariant
            pat@ == seq![':', ':'],
            views(r@) + segments(rest@) == segments(s@),
        decreases rest@.len(),
    {
        let ghost before = r@;
        let ghost whole = rest@;
        match find_text(rest, pat.as_slice()) {
            None => {
                r.push(rest);
                assert(views(r@) =~= views(before).push(rest@));
                assert(views(before) + seq![rest@] =~= views(r@));
                return r;
            },
            Some(p) => {
                proof {
                    lemma_find(rest@, pat@);
                }
                let n: usize = rest.len();
                let part: &'a [char] = slice_subrange(rest, 0, p);
                assert(part@ =~= whole.take(p as int));
                r.push(part);
                rest = slice_subrange(rest, p + 2, n);
                proof {
                    assert(rest@ =~= whole.skip(p + 2));
                    assert(views(r@) =~= views(before).push(part@));
                    assert(views(before) + (seq![part@] + segments(rest@)) =~= views(r@)
                        + segments(rest@));
                }
            },
        }
    }
}

/// The last piece of the path `s`.
pub fn last_segment_of<'a>(s: &'a [char]) -> (r: &'a [char])
    ensures
        r@ == last_segment(s@),
{
    let parts = segments_of(s);
    assert(views(parts@).last() == parts@.last()@);
    parts[parts.len() - 1]
}

/// The given texts one after the other, with `sep` between each two.
pub open spec fn join(parts: Seq<Seq<char>>, sep: Seq<char>) -> Seq<char>
    decreases parts.len(),
{
    if parts.len() == 0 {
        seq![]
    } else if parts.len() == 1 {
        parts[0]
    } else {
        join(parts.drop_last(), sep) + sep + parts.last()
    }
}

/// Joins the first `n` of `parts`, with `sep` between each two.
pub fn join_first(parts: &Vec<&[char]>, n: usize, sep: &str) -> (r: String)
    requires
        n <= parts@.len(),
    ensures
        r@ == join(views(parts@).take(n as int), sep@),
{
    let mut r = String::new();
    assert(views(parts@).take(0) =~= seq![]);
    for i in 0..n
        invariant
            n <= parts@.len(),
            r@ == join(views(parts@).take(i as int), sep@),
    {
        if i > 0 {
            r.append(sep);
        }
        let part = string_of(parts[i]);
        r.append(part.as_str());
        proof {
            let so_far = views(parts@).take(i + 1);
            assert(so_far.drop_last() =~= views(parts@).take(i as int));
            assert(so_far.last() == parts@[i as int]@);
            if i == 0 {
                assert(r@ =~= so_far[0]);
            }
        }
    }
    r
}

/// Joins `parts`, with `sep` between each two.
pub fn join_strings(parts: &Vec<String>, sep: &str) -> (r: String)
    ensures
        r@ == join(texts(parts@), sep@),
{
    let mut r = String::new();
    assert(texts(parts@).take(0) =~= seq![]);
    for i in 0..parts.len()
        invariant
            r@ == join(texts(parts@).take(i as int), sep@),
    {
        if i > 0 {
            r.append(sep);
        }
        r.append(parts[i].as_str());
        proof {
            let so_far = texts(parts@).take(i + 1);
            assert(so_far.drop_last() =~= texts(parts@).take(i as int));
            assert(so_far.last() == parts@[i as int]@);
            if i == 0 {
                assert(r@ =~= so_far[0]);
            }
        }
    }
    assert(texts(parts@).take(parts@.len() as int) =~= texts(parts@));
    r
}

/// The number of bytes of a text in UTF-8.
pub open spec fn byte_len(s: Seq<char>) -> nat {
    encode_utf8(s).len()
}

/// The UTF-8 form of a text is that of its two halves, one after the other.
pub proof fn lemma_encode_add(a: Seq<char>, b: Seq<char>)
    ensures
        encode_utf8(a + b) == encode_utf8(a) + encode_utf8(b),
        byte_len(a + b) == byte_len(a) + byte_len(b),
    decreases a.len(),
{
    if a.len() == 0 {
        assert(a + b =~= b);
        assert(encode_utf8(a) + encode_utf8(b) =~= encode_utf8(b));
    } else {
        lemma_encode_add(a.drop_first(), b);
        assert((a + b).drop_first() =~= a.drop_first() + b);
        assert((a + b)[0] == a[0]);
        assert(encode_utf8(a + b) =~= encode_utf8(a) + encode_utf8(b));
    }
}

/// A character has one to four bytes.
pub proof fn lemma_byte_len_one(c: char)
    ensures
        encode_utf8(seq![c]) == encode_scalar(c as u32),
        byte_len(seq![c]) == encode_scalar(c as u32).len(),
        1 <= byte_len(seq![c]) <= 4,
{
    assert(seq![c].drop_first() =~= seq![]);
    assert(encode_utf8(seq![]) =~= seq![]);
    assert(encode_utf8(seq![c]) =~= encode_scalar(c as u32));
}

/// The number of bytes of a text in UTF-8, in a type that no length exceeds.
pub fn utf8_len(s: &[char]) -> (r: u128)
    ensures
        r == byte_len(s@),
        r <= 4 * 0xffff_ffff_ffff_ffff,
{
    let mut r: u128 = 0;
    let n: usize = s.len();
    for i in 0..n
        invariant
            n == s@.len(),
            r == byte_len(s@.take(i as int)),
            r <= 4 * i,
    {
        let c = s[i];
        proof {
            lemma_byte_len_one(c);
            lemma_encode_add(s@.take(i as int), seq![c]);
            assert(s@.take(i + 1) =~= s@.take(i as int) + seq![c]);
        }
        let code: u32 = c as u32;
        proof {
            vstd::utf8::char_is_scalar(c);
        }
        assert(encode_scalar(code).len() == if code <= 0x7f {
            1int
        } else if code <= 0x7ff {
            2
        } else if code <= 0xffff {
            3
        } else {
            4
        });
        r = r + (if code <= 0x7f {
            1u128
        } else if code <= 0x7ff {
            2u128
        } else if code <= 0xffff {
            3u128
        } else {
            4u128
        });
    }
    assert(s@.take(n as int) =~= s@);
    r
}

/// The byte position, in the UTF-8 form of `s`, of the character at position `k`.
pub open spec fn byte_pos(s: Seq<char>, k: int) -> nat {
    byte_len(s.take(k))
}

/// A character of a text does not start after the end of the text.
pub proof fn lemma_byte_pos_bound(s: Seq<char>, k: int)
    requires
        0 <= k <= s.len(),
    ensures
        byte_len(s) == byte_pos(s, k) + byte_len(s.skip(k)),
{
    lemma_encode_add(s.take(k), s.skip(k));
    assert(s =~= s.take(k) + s.skip(k));
}

/// The ten decimal digits.
pub open spec fn digits() -> Seq<char> {
    seq!['0', '1', '2', '3', '4', '5', '6', '7', '8', '9']
}

/// A number in decimal notation.
pub open spec fn decimal(n: nat) -> Seq<char>
    decreases n,
{
    if n < 10 {
        seq![digits()[n as int]]
    } else {
        decimal(n / 10).push(digits()[(n % 10) as int])
    }
}

/// The decimal digit of `n`.
fn digit(n: u64) -> (r: char)
    requires
        n < 10,
    ensures
        r == digits()[n as int],
{
    match n {
        0 => '0',
        1 => '1',
        2 => '2',
        3 => '3',
        4 => '4',
        5 => '5',
        6 => '6',
        7 => '7',
        8 => '8',
        _ => '9',
    }
}

/// Writes a number in decimal notation.
pub fn decimal_text(n: u64) -> (r: String)
    ensures
        r@ == decimal(n as nat),
    decreases n,
{
    let mut r = if n < 10 {
        String::new()
    } else {
        decimal_text(n / 10)
    };
    r.push(digit(n % 10));
    assert(n < 10 ==> r@ =~= decimal(n as nat));
    r
}

} // verus!
