//! What holds of texts.

use vstd::prelude::*;
use crate::laws::lemma_one_word;
use crate::laws::lemma_word_len;
use crate::text::contains;
use crate::text::decimal;
use crate::text::digits;
use crate::text::find;
use crate::text::is_whitespace;
use crate::text::join;
use crate::text::last_segment;
use crate::text::lemma_find;
use crate::text::lemma_segments_nonempty;
use crate::text::lines;
use crate::text::occurs_at;
use crate::text::segments;
use crate::text::skip_start;
use crate::text::strip_return;
use crate::text::strip_slashes;
use crate::text::trim;
use crate::text::trim_end;
use crate::text::trim_start;
use crate::text::without;
use crate::text::word_len;
use crate::text::words;

verus! {

/// What is put between two texts stands in the whole.
pub proof fn law_contains_middle(a: Seq<char>, b: Seq<char>, c: Seq<char>)
    ensures
        contains(a + b + c, b),
{
    let s = a + b + c;
    assert(s.subrange(a.len() as int, (a.len() + b.len()) as int) =~= b);
    assert(occurs_at(s, b, a.len() as int));
}

/// What stands in a text parts it into what comes before and what comes after.
pub proof fn law_contained_parts(s: Seq<char>, pat: Seq<char>)
    requires
        contains(s, pat),
    ensures
        exists|a: Seq<char>, c: Seq<char>| s == #[trigger] (a + pat + c),
{
    let k = choose|k: int| occurs_at(s, pat, k);
    let a = s.take(k);
    let c = s.skip(k + pat.len());
    assert(s =~= a + pat + c);
}

/// A text that is longer than another does not stand in it.
pub proof fn law_longer_is_not_contained(s: Seq<char>, pat: Seq<char>)
    requires
        pat.len() > s.len(),
    ensures
        !contains(s, pat),
{
}

/// What is found first stands there, and nowhere before.
pub proof fn law_find_first(a: Seq<char>, pat: Seq<char>, c: Seq<char>)
    requires
        pat.len() > 0,
        !contains(a + pat.drop_last(), pat),
    ensures
        find(a + pat + c, pat) == Some(a.len() as int),
{
    let s = a + pat + c;
    let n = a.len() as int;
    lemma_find(s, pat);
    assert(s.subrange(n, n + pat.len()) =~= pat);
    assert(occurs_at(s, pat, n));
    let k = find(s, pat)->0;
    if k < n {
        let t = a + pat.drop_last();
        assert(t.subrange(k, k + pat.len()) =~= s.subrange(k, k + pat.len()));
        assert(occurs_at(t, pat, k));
    }
}

/// All characters of a text are white space.
pub open spec fn blank(s: Seq<char>) -> bool {
    forall|i: int| 0 <= i < s.len() ==> is_whitespace(#[trigger] s[i])
}

proof fn lemma_skip_start(s: Seq<char>, skip: spec_fn(char) -> bool)
    ensures
        ({
            let t = skip_start(s, skip);
            let n = s.len() - t.len();
            &&& 0 <= n
            &&& t == s.skip(n)
            &&& forall|i: int| 0 <= i < n ==> skip(#[trigger] s[i])
            &&& t.len() > 0 ==> !skip(t[0])
        }),
    decreases s.len(),
{
    if s.len() > 0 && skip(s[0]) {
        let rest = s.drop_first();
        lemma_skip_start(rest, skip);
        let t = skip_start(s, skip);
        let n = s.len() - t.len();
        assert(t =~= s.skip(n));
        assert forall|i: int| 0 <= i < n implies skip(#[trigger] s[i]) by {
            if i > 0 {
                assert(rest[i - 1] == s[i]);
            }
        }
    } else {
        assert(s =~= s.skip(0));
    }
}

proof fn lemma_trim_end(s: Seq<char>)
    ensures
        ({
            let t = trim_end(s);
            &&& t.len() <= s.len()
            &&& t == s.take(t.len() as int)
            &&& blank(s.skip(t.len() as int))
            &&& t.len() > 0 ==> !is_whitespace(t.last())
        }),
    decreases s.len(),
{
    if s.len() > 0 && is_whitespace(s.last()) {
        let less = s.drop_last();
        lemma_trim_end(less);
        let n = trim_end(s).len() as int;
        assert(trim_end(s) =~= s.take(n));
        assert forall|i: int| 0 <= i < s.skip(n).len() implies is_whitespace(
            #[trigger] s.skip(n)[i],
        ) by {
            if i < less.skip(n).len() {
                assert(less.skip(n)[i] == s.skip(n)[i]);
            }
        }
    } else {
        assert(s =~= s.take(s.len() as int));
    }
}

/// Trimming takes away nothing but white space at the two ends, and all of that.
pub proof fn law_trim(s: Seq<char>)
    ensures
        exists|a: Seq<char>, b: Seq<char>|
            s == #[trigger] (a + trim(s) + b) && blank(a) && blank(b),
        trim(s).len() > 0 ==> !is_whitespace(trim(s)[0]) && !is_whitespace(trim(s).last()),
{
    let skip = |c: char| is_whitespace(c);
    let t = trim_start(s);
    lemma_skip_start(s, skip);
    lemma_trim_end(t);
    let a = s.take(s.len() - t.len());
    let b = t.skip(trim(s).len() as int);
    assert(s =~= a + trim(s) + b);
    assert(blank(a) && blank(b));
    if trim(s).len() > 0 {
        assert(trim(s)[0] == t[0]);
    }
}

/// Stripping the slashes of a text takes away nothing but slashes in front, and all of them.
pub proof fn law_strip_slashes(s: Seq<char>)
    ensures
        exists|a: Seq<char>|
            s == #[trigger] (a + strip_slashes(s)) && forall|i: int|
                0 <= i < a.len() ==> a[i] == '/',
        strip_slashes(s).len() > 0 ==> strip_slashes(s)[0] != '/',
{
    let skip = |c: char| c == '/';
    lemma_skip_start(s, skip);
    let a = s.take(s.len() - strip_slashes(s).len());
    assert(s =~= a + strip_slashes(s));
    assert forall|i: int| 0 <= i < a.len() implies a[i] == '/' by {
        assert(skip(s[i]));
    }
}

/// The first line of a text is what stands before the first line feed, without a carriage return
/// there; the other lines are those of the rest.
pub proof fn law_lines(first: Seq<char>, rest: Seq<char>)
    requires
        !first.contains('\n'),
    ensures
        first.len() == 0 || first.last() != '\r' ==> lines(first + seq!['\n'] + rest) == seq![first]
            + lines(rest),
        lines(first + seq!['\r', '\n'] + rest) == seq![first] + lines(rest),
        first.len() > 0 ==> lines(first) == seq![first],
        lines(seq![]) == Seq::<Seq<char>>::empty(),
{
    lemma_first_line(first, rest);
    let long = first.push('\r');
    assert forall|i: int| 0 <= i < long.len() implies long[i] != '\n' by {
        if i < first.len() {
            assert(first.contains(first[i]));
        }
    }
    lemma_first_line(long, rest);
    assert(first + seq!['\r', '\n'] + rest =~= long + seq!['\n'] + rest);
    assert(long.drop_last() =~= first);
    lemma_find(first, seq!['\n']);
    if let Some(k) = find(first, seq!['\n']) {
        assert(first.subrange(k, k + 1)[0] == '\n');
        assert(first.contains(first[k]));
    }
}

proof fn lemma_first_line(first: Seq<char>, rest: Seq<char>)
    requires
        !first.contains('\n'),
    ensures
        lines(first + seq!['\n'] + rest) == seq![strip_return(first)] + lines(rest),
{
    let s = first + seq!['\n'] + rest;
    let nl = seq!['\n'];
    assert(nl.drop_last() =~= seq![]);
    if contains(first + nl.drop_last(), nl) {
        let k = choose|k: int| occurs_at(first + nl.drop_last(), nl, k);
        assert((first + nl.drop_last()).subrange(k, k + 1)[0] == '\n');
        assert(first[k] == '\n');
    }
    law_find_first(first, nl, rest);
    assert(s.take(first.len() as int) =~= first);
    assert(s.skip(first.len() + 1int) =~= rest);
}

/// The words of two texts with white space between them are those of the one and then those of the
/// other.
pub proof fn law_words(a: Seq<char>, c: char, b: Seq<char>)
    requires
        is_whitespace(c),
    ensures
        words(a + seq![c] + b) == words(a) + words(b),
    decreases a.len(),
{
    let s = a + seq![c] + b;
    if a.len() == 0 {
        assert(s.drop_first() =~= b);
        assert(words(a) + words(b) =~= words(b));
    } else if is_whitespace(a[0]) {
        assert(s.drop_first() =~= a.drop_first() + seq![c] + b);
        law_words(a.drop_first(), c, b);
    } else {
        lemma_word_end(a);
        let n = word_len(a) as int;
        let word = a.take(n);
        lemma_word_len(word, s.skip(n));
        assert(s =~= word + s.skip(n));
        assert(s.take(n) =~= word);
        assert(s.skip(n) =~= a.skip(n) + seq![c] + b);
        law_words(a.skip(n), c, b);
        assert(words(s) =~= words(a) + words(b));
    }
}

proof fn lemma_word_end(a: Seq<char>)
    requires
        a.len() > 0,
        !is_whitespace(a[0]),
    ensures
        0 < word_len(a) <= a.len(),
        forall|i: int| 0 <= i < word_len(a) ==> !is_whitespace(#[trigger] a[i]),
        word_len(a) < a.len() ==> is_whitespace(
            a[word_len(a) as int],
        ),
    decreases a.len(),
{
    let rest = a.drop_first();
    if rest.len() > 0 && !is_whitespace(rest[0]) {
        lemma_word_end(rest);
    } else {
        assert(word_len(rest) == 0);
    }
    assert(word_len(a) == 1 + word_len(rest));
    assert forall|i: int| 0 <= i < word_len(a) implies !is_whitespace(
        #[trigger] a[i],
    ) by {
        if i > 0 {
            assert(rest[i - 1] == a[i]);
        }
    }
}

/// A text without white space is one word, an empty one none.
pub proof fn law_word(word: Seq<char>)
    requires
        forall|i: int| 0 <= i < word.len() ==> !is_whitespace(#[trigger] word[i]),
    ensures
        word.len() > 0 ==> words(word) == seq![word],
        word.len() == 0 ==> words(word).len() == 0,
{
    if word.len() > 0 {
        lemma_one_word(word);
    }
}

/// Removing a character from two texts is removing it from the whole, and leaves every other
/// character in place.
pub proof fn law_without(a: Seq<char>, b: Seq<char>, c: char, d: char)
    requires
        c != d,
    ensures
        without(a + b, c) == without(a, c) + without(b, c),
        without(seq![c], c).len() == 0,
        without(seq![d], c) == seq![d],
    decreases b.len(),
{
    reveal_with_fuel(Seq::filter, 2);
    assert(seq![c].drop_last() =~= seq![]);
    assert(seq![d].drop_last() =~= seq![]);
    assert(without(seq![d], c) =~= seq![d]);
    if b.len() == 0 {
        assert(a + b =~= a);
        assert(without(a, c) + without(b, c) =~= without(a, c));
    } else {
        law_without(a, b.drop_last(), c, d);
        assert((a + b).drop_last() =~= a + b.drop_last());
        assert((a + b).last() == b.last());
        assert(without(a + b, c) =~= without(a, c) + without(b, c));
    }
}

/// A further part is joined with the separator before it, a single part as it is.
pub proof fn law_join(parts: Seq<Seq<char>>, part: Seq<char>, sep: Seq<char>)
    ensures
        join(seq![], sep).len() == 0,
        join(seq![part], sep) == part,
        parts.len() > 0 ==> join(parts.push(part), sep) == join(parts, sep) + sep + part,
{
    assert(parts.push(part).drop_last() =~= parts);
}

/// No piece of a path holds the separator.
pub proof fn law_pieces_are_whole(path: Seq<char>, i: int)
    requires
        0 <= i < segments(path).len(),
    ensures
        !contains(segments(path)[i], seq![':', ':']),
    decreases path.len(),
{
    let colons = seq![':', ':'];
    lemma_find(path, colons);
    if let Some(p) = find(path, colons) {
        let rest = path.skip(p + 2);
        if i == 0 {
            let piece = path.take(p);
            assert(segments(path)[0] == piece);
            if contains(piece, colons) {
                let k = choose|k: int| occurs_at(piece, colons, k);
                assert(path.subrange(k, k + 2) =~= piece.subrange(k, k + 2));
                assert(occurs_at(path, colons, k));
            }
        } else {
            law_pieces_are_whole(rest, i - 1);
            assert(segments(path)[i] == segments(rest)[i - 1]);
        }
    }
}

/// The last piece of a path is what stands behind its last separator.
pub proof fn law_last_piece(a: Seq<char>, last: Seq<char>)
    requires
        !contains(last, seq![':', ':']),
        a.len() > 0 ==> a.last() != ':',
    ensures
        last_segment(last) == last,
        last_segment(a + seq![':', ':'] + last) == last,
    decreases a.len(),
{
    let colons = seq![':', ':'];
    let s = a + colons + last;
    lemma_find(last, colons);
    lemma_find(s, colons);
    assert(segments(last) =~= seq![last]);
    assert(s.subrange(a.len() as int, a.len() + 2int) =~= colons);
    assert(occurs_at(s, colons, a.len() as int));
    let p = find(s, colons)->0;
    assert(p <= a.len());
    let rest = s.skip(p + 2);
    assert(s.subrange(p, p + 2)[0] == ':');
    assert(s.subrange(p, p + 2)[1] == ':');
    lemma_segments_nonempty(rest);
    assert(segments(s).last() == segments(rest).last());
    if p == a.len() {
        assert(rest =~= last);
    } else {
        assert(s[p] == a[p]);
        assert(p + 2 <= a.len());
        assert(rest =~= a.skip(p + 2) + colons + last);
        law_last_piece(a.skip(p + 2), last);
    }
}

/// A path with a single separator has the two pieces around it, and one without has only itself.
pub proof fn law_first_piece(first: Seq<char>, rest: Seq<char>)
    requires
        !contains(first, seq![':', ':']),
        first.len() > 0 ==> first.last() != ':',
    ensures
        segments(first) == seq![first],
        segments(first + seq![':', ':'] + rest) == seq![first] + segments(rest),
{
    let colons = seq![':', ':'];
    let s = first + colons + rest;
    lemma_find(first, colons);
    assert(colons.drop_last() =~= seq![':']);
    let t = first + colons.drop_last();
    if contains(t, colons) {
        let k = choose|k: int| occurs_at(t, colons, k);
        assert(t.subrange(k, k + 2)[0] == ':');
        assert(t.subrange(k, k + 2)[1] == ':');
        if k + 2 <= first.len() {
            assert(first.subrange(k, k + 2) =~= colons);
            assert(occurs_at(first, colons, k));
        } else {
            assert(t[k] == first.last());
        }
    }
    law_find_first(first, colons, rest);
    assert(s.take(first.len() as int) =~= first);
    assert(s.skip(first.len() + 2int) =~= rest);
}

/// The number that a decimal numeral stands for.
pub open spec fn numeral(s: Seq<char>) -> int
    decreases s.len(),
{
    if s.len() == 0 {
        0
    } else {
        10 * numeral(s.drop_last()) + (s.last() as int - '0' as int)
    }
}

/// A number in decimal notation is a numeral for it, made of digits, without needless zeros.
pub proof fn law_decimal(n: nat)
    ensures
        numeral(decimal(n)) == n,
        forall|i: int| 0 <= i < decimal(n).len() ==> '0' <= #[trigger] decimal(n)[i] <= '9',
        decimal(n).len() > 0,
        n > 0 ==> decimal(n)[0] != '0',
        n == 0 ==> decimal(n).len() == 1,
    decreases n,
{
    assert(digits()[0] == '0' && digits()[1] == '1' && digits()[2] == '2' && digits()[3] == '3'
        && digits()[4] == '4' && digits()[5] == '5' && digits()[6] == '6' && digits()[7] == '7'
        && digits()[8] == '8' && digits()[9] == '9');
    assert forall|k: int| 0 <= k < 10 implies digits()[k] as int == '0' as int + k by {
        assert(k == 0 || k == 1 || k == 2 || k == 3 || k == 4 || k == 5 || k == 6 || k == 7 || k == 8
            || k == 9);
    }
    if n < 10 {
        assert(decimal(n).drop_last() =~= seq![]);
        reveal_with_fuel(numeral, 2);
        assert(digits()[n as int] as int == '0' as int + n);
    } else {
        law_decimal(n / 10);
        let d = digits()[(n % 10) as int];
        assert(decimal(n).drop_last() =~= decimal(n / 10));
        assert(d as int == '0' as int + (n % 10));
        assert(decimal(n)[0] == decimal(n / 10)[0]);
    }
}

} // verus!
