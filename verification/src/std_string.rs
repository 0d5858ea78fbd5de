//! String helpers that generated aski code calls through its `StdString` library.
use vstd::prelude::*;
use vstd::std_specs::iter::IteratorSpec;
use vstd::string::StrSliceExecFns;
use vstd::string::StringExecFns;
use vstd::string::StringSliceAdditionalSpecFns;
use vstd::utf8::encode_utf8;

verus! {

broadcast use vstd::string::group_string_axioms;

/// The abstract contents of a list of strings.
pub open spec fn views(v: Seq<String>) -> Seq<Seq<char>> {
    v.map_values(|x: String| x@)
}

/// Splits `s` at every occurrence of `sep`; `n` separators give `n + 1` pieces.
pub open spec fn split_on(s: Seq<char>, sep: char) -> Seq<Seq<char>>
    decreases s.len(),
{
    if s.len() == 0 {
        seq![Seq::<char>::empty()]
    } else {
        let p = split_on(s.drop_last(), sep);
        if s.last() == sep {
            p.push(Seq::<char>::empty())
        } else {
            p.update(p.len() - 1, p.last().push(s.last()))
        }
    }
}

/// `line` without one trailing carriage return.
pub open spec fn strip_cr(line: Seq<char>) -> Seq<char> {
    if line.len() > 0 && line.last() == '\r' {
        line.drop_last()
    } else {
        line
    }
}

/// The lines of `s`: the pieces between line feeds, each that ended in a line feed
/// losing one trailing carriage return, and no empty piece after a final line feed.
pub open spec fn lines_of(s: Seq<char>) -> Seq<Seq<char>> {
    let p = split_on(s, '\n');
    let n = p.len() - 1;
    Seq::new(n as nat, |i: int| strip_cr(p[i])) + if p[n].len() > 0 {
        seq![p[n]]
    } else {
        Seq::<Seq<char>>::empty()
    }
}

/// Unicode `White_Space`, the property behind `char::is_whitespace`.
pub open spec fn is_white_space(c: char) -> bool {
    ||| '\t' <= c <= '\r'
    ||| c == ' '
    ||| c == '\u{85}'
    ||| c == '\u{A0}'
    ||| c == '\u{1680}'
    ||| '\u{2000}' <= c <= '\u{200A}'
    ||| c == '\u{2028}'
    ||| c == '\u{2029}'
    ||| c == '\u{202F}'
    ||| c == '\u{205F}'
    ||| c == '\u{3000}'
}

/// `s` without leading white space.
pub open spec fn trim_start_of(s: Seq<char>) -> Seq<char>
    decreases s.len(),
{
    if s.len() > 0 && is_white_space(s[0]) {
        trim_start_of(s.drop_first())
    } else {
        s
    }
}

/// `s` without trailing white space.
pub open spec fn trim_end_of(s: Seq<char>) -> Seq<char>
    decreases s.len(),
{
    if s.len() > 0 && is_white_space(s.last()) {
        trim_end_of(s.drop_last())
    } else {
        s
    }
}

/// `s` without leading and trailing white space.
pub open spec fn trim_of(s: Seq<char>) -> Seq<char> {
    trim_end_of(trim_start_of(s))
}

/// `needle` occurs in `s` starting at character index `i`.
pub open spec fn occurs_at(s: Seq<char>, needle: Seq<char>, i: int) -> bool {
    0 <= i && i + needle.len() <= s.len() && s.subrange(i, i + needle.len()) == needle
}

/// The first character index at or after `k` where `needle` occurs in `s`.
pub open spec fn first_occurrence_from(s: Seq<char>, needle: Seq<char>, k: int) -> Option<int>
    decreases s.len() + 1 - k,
{
    if k < 0 || k + needle.len() > s.len() {
        None
    } else if occurs_at(s, needle, k) {
        Some(k)
    } else {
        first_occurrence_from(s, needle, k + 1)
    }
}

/// The first character index where `needle` occurs in `s`.
pub open spec fn first_occurrence(s: Seq<char>, needle: Seq<char>) -> Option<int> {
    first_occurrence_from(s, needle, 0)
}

/// The UTF-8 byte offset of character index `i` in `s`.
pub open spec fn byte_index(s: Seq<char>, i: int) -> nat {
    encode_utf8(s.take(i)).len()
}

/// `s` with every non-overlapping occurrence of `from`, scanned left to right, replaced
/// by `to`; an empty `from` matches before every character and at the end.
pub open spec fn replace_of(s: Seq<char>, from: Seq<char>, to: Seq<char>) -> Seq<char>
    decreases s.len(),
{
    if from.len() == 0 {
        if s.len() == 0 {
            to
        } else {
            to + seq![s[0]] + replace_of(s.drop_first(), from, to)
        }
    } else if s.len() == 0 {
        s
    } else if occurs_at(s, from, 0) {
        to + replace_of(s.skip(from.len() as int), from, to)
    } else {
        seq![s[0]] + replace_of(s.drop_first(), from, to)
    }
}

/// The result of std's Unicode lowercase mapping of `s`.
pub uninterp spec fn lowercase_of(s: Seq<char>) -> Seq<char>;

proof fn lemma_split_on_nonempty(s: Seq<char>, sep: char)
    ensures
        split_on(s, sep).len() >= 1,
    decreases s.len(),
{
    if s.len() > 0 {
        lemma_split_on_nonempty(s.drop_last(), sep);
    }
}

/// `pieces` joined with `sep` between each two of them.
pub open spec fn join_with(pieces: Seq<Seq<char>>, sep: char) -> Seq<char>
    decreases pieces.len(),
{
    if pieces.len() == 0 {
        Seq::empty()
    } else if pieces.len() == 1 {
        pieces[0]
    } else {
        join_with(pieces.drop_last(), sep) + seq![sep] + pieces.last()
    }
}

/// Splitting loses nothing: the pieces of `s` split at `sep`, joined again with `sep`,
/// give `s` back.
pub proof fn law_split_rejoins(s: Seq<char>, sep: char)
    ensures
        join_with(split_on(s, sep), sep) == s,
    decreases s.len(),
{
    if s.len() > 0 {
        let t = s.drop_last();
        let c = s.last();
        let p = split_on(t, sep);
        law_split_rejoins(t, sep);
        lemma_split_on_nonempty(t, sep);
        if c == sep {
            let q = p.push(Seq::<char>::empty());
            assert(q.drop_last() =~= p);
            assert(join_with(q, sep) =~= t + seq![sep] + Seq::<char>::empty());
            assert(s =~= t + seq![sep]);
        } else {
            let q = p.update(p.len() - 1, p.last().push(c));
            if p.len() == 1 {
                assert(join_with(q, sep) == q[0]);
                assert(s =~= t.push(c));
            } else {
                assert(q.drop_last() =~= p.drop_last());
                assert(join_with(q, sep) == join_with(p.drop_last(), sep) + seq![sep] + p.last().push(c));
                assert(join_with(p, sep) == join_with(p.drop_last(), sep) + seq![sep] + p.last());
                assert(join_with(q, sep) =~= join_with(p, sep).push(c));
                assert(s =~= t.push(c));
            }
        }
    }
}

proof fn lemma_trim_end_twice(s: Seq<char>)
    ensures
        trim_end_of(trim_end_of(s)) == trim_end_of(s),
        trim_end_of(s).len() > 0 ==> !is_white_space(trim_end_of(s).last()),
        trim_end_of(s).len() <= s.len(),
        trim_end_of(s) == s.take(trim_end_of(s).len() as int),
    decreases s.len(),
{
    if s.len() > 0 && is_white_space(s.last()) {
        lemma_trim_end_twice(s.drop_last());
        assert(s.drop_last().take(trim_end_of(s).len() as int) =~= s.take(trim_end_of(s).len() as int));
    } else {
        assert(s.take(s.len() as int) =~= s);
    }
}

proof fn lemma_trim_start_front(s: Seq<char>)
    ensures
        trim_start_of(s).len() > 0 ==> !is_white_space(trim_start_of(s)[0]),
    decreases s.len(),
{
    if s.len() > 0 && is_white_space(s[0]) {
        lemma_trim_start_front(s.drop_first());
    }
}

proof fn lemma_trim_start_of_clean(s: Seq<char>)
    requires
        s.len() > 0 ==> !is_white_space(s[0]),
    ensures
        trim_start_of(s) == s,
{
}

/// Trimming twice is trimming once.
pub proof fn law_trim_idempotent(s: Seq<char>)
    ensures
        trim_of(trim_of(s)) == trim_of(s),
{
    let a = trim_start_of(s);
    let b = trim_end_of(a);
    lemma_trim_start_front(s);
    lemma_trim_end_twice(a);
    if b.len() > 0 {
        assert(b[0] == a[0]);
    }
    lemma_trim_start_of_clean(b);
}

/// A needle occurs at the very start of `s` exactly when `s` starts with it.
pub proof fn law_prefix_is_first_occurrence(s: Seq<char>, needle: Seq<char>)
    ensures
        (needle.len() <= s.len() && s.subrange(0, needle.len() as int) == needle)
            <==> first_occurrence(s, needle) == Some(0int),
{
    lemma_first_occurrence_from_at_least(s, needle, 1);
}

proof fn lemma_first_occurrence_from_at_least(s: Seq<char>, needle: Seq<char>, k: int)
    ensures
        first_occurrence_from(s, needle, k) matches Some(i) ==> k <= i && i + needle.len() <= s.len(),
    decreases s.len() + 1 - k,
{
    if !(k < 0 || k + needle.len() > s.len()) && !occurs_at(s, needle, k) {
        lemma_first_occurrence_from_at_least(s, needle, k + 1);
    }
}

/// A needle found in `s` is no longer than `s`, and is found where it occurs.
pub proof fn law_found_needle_fits(s: Seq<char>, needle: Seq<char>)
    ensures
        first_occurrence(s, needle) matches Some(i) ==> 0 <= i && i + needle.len() <= s.len()
            && occurs_at(s, needle, i),
{
    lemma_first_occurrence_from_at_least(s, needle, 0);
    lemma_first_occurrence_from_occurs(s, needle, 0);
}

proof fn lemma_first_occurrence_from_occurs(s: Seq<char>, needle: Seq<char>, k: int)
    ensures
        first_occurrence_from(s, needle, k) matches Some(i) ==> occurs_at(s, needle, i),
    decreases s.len() + 1 - k,
{
    if !(k < 0 || k + needle.len() > s.len()) && !occurs_at(s, needle, k) {
        lemma_first_occurrence_from_occurs(s, needle, k + 1);
    }
}

proof fn lemma_occurs_shift(s: Seq<char>, from: Seq<char>, i: int)
    requires
        s.len() > 0,
        i >= 0,
    ensures
        occurs_at(s.drop_first(), from, i) == occurs_at(s, from, i + 1),
{
    if i + from.len() <= s.len() - 1 {
        assert(s.drop_first().subrange(i, i + from.len()) =~= s.subrange(i + 1, i + 1 + from.len()));
    }
}

/// Replacing scans left to right: when a non-empty `from` occurs nowhere in `a + from + b`
/// before the end of `a`, the result keeps `a`, puts `to` in place of that occurrence,
/// and goes on with what follows it.
pub proof fn law_replace_at_first_occurrence(a: Seq<char>, b: Seq<char>, from: Seq<char>, to: Seq<char>)
    requires
        from.len() > 0,
        forall|i: int| 0 <= i < a.len() ==> !#[trigger] occurs_at(a + from + b, from, i),
    ensures
        replace_of(a + from + b, from, to) == a + to + replace_of(b, from, to),
    decreases a.len(),
{
    let s = a + from + b;
    if a.len() == 0 {
        assert(s =~= from + b);
        assert(s.subrange(0, from.len() as int) =~= from);
        assert(occurs_at(s, from, 0));
        assert(s.skip(from.len() as int) =~= b);
        assert(a + to + replace_of(b, from, to) =~= to + replace_of(b, from, to));
    } else {
        let a2 = a.drop_first();
        assert(s.drop_first() =~= a2 + from + b);
        assert(!occurs_at(s, from, 0));
        assert forall|i: int| 0 <= i < a2.len() implies !#[trigger] occurs_at(a2 + from + b, from, i) by {
            lemma_occurs_shift(s, from, i);
            assert(!occurs_at(s, from, i + 1));
        }
        law_replace_at_first_occurrence(a2, b, from, to);
        assert(s[0] == a[0]);
        assert(seq![a[0]] + (a2 + to + replace_of(b, from, to)) =~= a + to + replace_of(b, from, to));
    }
}

/// Where a non-empty `from` occurs nowhere in `s`, replacing leaves `s` as it is.
pub proof fn law_replace_without_occurrence(s: Seq<char>, from: Seq<char>, to: Seq<char>)
    requires
        from.len() > 0,
        forall|i: int| 0 <= i < s.len() ==> !#[trigger] occurs_at(s, from, i),
    ensures
        replace_of(s, from, to) == s,
    decreases s.len(),
{
    if s.len() > 0 {
        assert(!occurs_at(s, from, 0));
        assert forall|i: int| 0 <= i < s.drop_first().len() implies !#[trigger] occurs_at(s.drop_first(), from, i) by {
            lemma_occurs_shift(s, from, i);
            assert(!occurs_at(s, from, i + 1));
        }
        law_replace_without_occurrence(s.drop_first(), from, to);
        assert(seq![s[0]] + s.drop_first() =~= s);
    }
}

proof fn lemma_first_occurrence_from_none_before(s: Seq<char>, needle: Seq<char>, k: int, j: int)
    requires
        0 <= k <= j,
        first_occurrence_from(s, needle, k) matches Some(i) ==> j < i,
    ensures
        !occurs_at(s, needle, j),
    decreases j - k,
{
    if j > k {
        if !(k + needle.len() > s.len()) && !occurs_at(s, needle, k) {
            lemma_first_occurrence_from_none_before(s, needle, k + 1, j);
        } else if k + needle.len() > s.len() {
        }
    }
}

/// Replacing substitutes the first occurrence that `find` reports, wherever it is, even
/// one that ends the text: the text before it is kept, `to` takes its place, and the
/// rest is replaced in turn; with no occurrence, the text is kept whole.
pub proof fn law_replace_first_found(s: Seq<char>, from: Seq<char>, to: Seq<char>)
    requires
        from.len() > 0,
    ensures
        first_occurrence(s, from) matches Some(i) ==> replace_of(s, from, to) == s.take(i) + to
            + replace_of(s.skip(i + from.len()), from, to),
        first_occurrence(s, from) is None ==> replace_of(s, from, to) == s,
{
    lemma_first_occurrence_from_at_least(s, from, 0);
    lemma_first_occurrence_from_occurs(s, from, 0);
    match first_occurrence(s, from) {
        Some(i) => {
            let a = s.take(i);
            let b = s.skip(i + from.len());
            assert(s.subrange(i, i + from.len()) == from);
            assert(a + from + b =~= s);
            assert forall|j: int| 0 <= j < a.len() implies !#[trigger] occurs_at(a + from + b, from, j) by {
                lemma_first_occurrence_from_none_before(s, from, 0, j);
            }
            law_replace_at_first_occurrence(a, b, from, to);
        },
        None => {
            assert forall|j: int| 0 <= j < s.len() implies !#[trigger] occurs_at(s, from, j) by {
                lemma_first_occurrence_from_none_before(s, from, 0, j);
            }
            law_replace_without_occurrence(s, from, to);
        },
    }
}

/// White space is exactly the Unicode `White_Space` set, code point by code point:
/// tab, line feed, vertical tab, form feed, carriage return, space, next line, no-break
/// space, Ogham space mark, the eleven spaces from en quad to hair space, line and
/// paragraph separators, narrow no-break space, medium mathematical space and
/// ideographic space.
pub proof fn law_white_space_table(c: char)
    ensures
        is_white_space(c) <==> set![
            '\u{9}', '\u{A}', '\u{B}', '\u{C}', '\u{D}', '\u{20}', '\u{85}', '\u{A0}',
            '\u{1680}', '\u{2000}', '\u{2001}', '\u{2002}', '\u{2003}', '\u{2004}',
            '\u{2005}', '\u{2006}', '\u{2007}', '\u{2008}', '\u{2009}', '\u{200A}',
            '\u{2028}', '\u{2029}', '\u{202F}', '\u{205F}', '\u{3000}'
        ].contains(c),
{
}

/// The characters of `s`, in order.
pub fn chars_of(s: &str) -> (v: Vec<char>)
    ensures
        v@ == s@,
{
    let mut v: Vec<char> = Vec::new();
    for c in it: s.chars()
        invariant
            v@ == it.seq().take(it.index() as int),
            it.seq() == s@,
    {
        v.push(c);
    }
    v
}

/// A new `String` holding the characters `from..to` of `s`.
pub(crate) fn piece(s: &str, from: usize, to: usize) -> (r: String)
    requires
        from <= to <= s@.len(),
    ensures
        r@ == s@.subrange(from as int, to as int),
{
    String::from_str(s.substring_char(from, to))
}

/// The pieces of `s` between line feeds; a string with `n` line feeds gives `n + 1` pieces.
pub fn split_newlines(s: &str) -> (r: Vec<String>)
    ensures
        views(r@) == split_on(s@, '\n'),
{
    let cs = chars_of(s);
    let n = cs.len();
    let mut out: Vec<String> = Vec::new();
    let mut start: usize = 0;
    let mut i: usize = 0;
    assert(s@.take(0) =~= Seq::<char>::empty());
    while i < n
        invariant
            n == cs@.len(),
            cs@ == s@,
            start <= i <= n,
            split_on(s@.take(i as int), '\n') =~= views(out@).push(s@.subrange(start as int, i as int)),
        decreases n - i,
    {
        let ghost pre = s@.take(i as int);
        assert(s@.take(i + 1).drop_last() =~= pre);
        proof { lemma_split_on_nonempty(pre, '\n'); }
        if cs[i] == '\n' {
            let p = piece(s, start, i);
            out.push(p);
            start = i + 1;
            assert(s@.subrange(start as int, i + 1) =~= Seq::<char>::empty());
        } else {
            assert(s@.subrange(start as int, i + 1) =~= s@.subrange(start as int, i as int).push(
                cs@[i as int],
            ));
        }
        i = i + 1;
    }
    let last = piece(s, start, n);
    out.push(last);
    assert(s@.take(n as int) =~= s@);
    assert(views(out@) =~= split_on(s@, '\n'));
    out
}

/// The lines of `s`, as std's `str::lines` yields them.
pub fn lines(s: &str) -> (r: Vec<String>)
    ensures
        views(r@) == lines_of(s@),
{
    let cs = chars_of(s);
    let n = cs.len();
    let mut out: Vec<String> = Vec::new();
    let mut start: usize = 0;
    let mut i: usize = 0;
    assert(s@.take(0) =~= Seq::<char>::empty());
    while i < n
        invariant
            n == cs@.len(),
            cs@ == s@,
            start <= i <= n,
            ({
                let p = split_on(s@.take(i as int), '\n');
                &&& p.len() == out@.len() + 1
                &&& p.last() == s@.subrange(start as int, i as int)
                &&& forall|j: int|
                    0 <= j < out@.len() ==> #[trigger] out@[j]@ == strip_cr(p[j])
            }),
        decreases n - i,
    {
        let ghost pre = s@.take(i as int);
        let ghost p0 = split_on(pre, '\n');
        assert(s@.take(i + 1).drop_last() =~= pre);
        proof { lemma_split_on_nonempty(pre, '\n'); }
        if cs[i] == '\n' {
            let end = if i > start && cs[i - 1] == '\r' {
                i - 1
            } else {
                i
            };
            assert(strip_cr(s@.subrange(start as int, i as int)) =~= s@.subrange(
                start as int,
                end as int,
            ));
            let p = piece(s, start, end);
            out.push(p);
            start = i + 1;
            assert(s@.subrange(start as int, i + 1) =~= Seq::<char>::empty());
        } else {
            assert(s@.subrange(start as int, i + 1) =~= s@.subrange(start as int, i as int).push(
                cs@[i as int],
            ));
        }
        i = i + 1;
    }
    assert(s@.take(n as int) =~= s@);
    let ghost p = split_on(s@, '\n');
    if start < n {
        let last = piece(s, start, n);
        out.push(last);
    }
    assert(views(out@) =~= lines_of(s@));
    out
}

/// `s` without leading and trailing white space.
pub fn trim(s: &str) -> (r: String)
    ensures
        r@ == trim_of(s@),
{
    let cs = chars_of(s);
    let n = cs.len();
    let mut i: usize = 0;
    assert(s@.subrange(0, n as int) =~= s@);
    while i < n && is_whitespace(cs[i])
        invariant
            n == cs@.len(),
            cs@ == s@,
            i <= n,
            trim_start_of(s@) == trim_start_of(s@.subrange(i as int, n as int)),
        decreases n - i,
    {
        assert(s@.subrange(i as int, n as int).drop_first() =~= s@.subrange(i + 1, n as int));
        i = i + 1;
    }
    assert(trim_start_of(s@) == s@.subrange(i as int, n as int));
    let mut j: usize = n;
    while j > i && is_whitespace(cs[j - 1])
        invariant
            n == cs@.len(),
            cs@ == s@,
            i <= j <= n,
            trim_of(s@) == trim_end_of(s@.subrange(i as int, j as int)),
        decreases j,
    {
        assert(s@.subrange(i as int, j as int).drop_last() =~= s@.subrange(i as int, j - 1));
        j = j - 1;
    }
    piece(s, i, j)
}

/// Whether `c` is Unicode white space.
pub fn is_whitespace(c: char) -> (r: bool)
    ensures
        r == is_white_space(c),
{
    ('\t' <= c && c <= '\r') || c == ' ' || c == '\u{85}' || c == '\u{A0}' || c == '\u{1680}' || (
    '\u{2000}' <= c && c <= '\u{200A}') || c == '\u{2028}' || c == '\u{2029}' || c == '\u{202F}'
        || c == '\u{205F}' || c == '\u{3000}'
}

/// The code point of character `idx` of `s`, or 0 past the end.
pub fn char_at(s: &str, idx: u32) -> (r: u32)
    ensures
        r == if (idx as int) < s@.len() {
            s@[idx as int] as u32
        } else {
            0u32
        },
{
    let cs = chars_of(s);
    let i = idx as usize;
    if i < cs.len() {
        cs[i] as u32
    } else {
        0
    }
}

/// Characters `start..end` of `s`, cut off at the end of `s`.
pub fn substring(s: &str, start: u32, end: u32) -> (r: String)
    requires
        start <= end,
    ensures
        ({
            let a = if (start as int) < s@.len() { start as int } else { s@.len() as int };
            let b = if (end as int) < s@.len() { end as int } else { s@.len() as int };
            r@ == s@.subrange(a, b)
        }),
{
    let n = s.unicode_len();
    let a = if (start as usize) < n { start as usize } else { n };
    let b = if (end as usize) < n { end as usize } else { n };
    piece(s, a, b)
}

/// Whether `s` begins with `prefix`.
pub fn starts_with(s: &str, prefix: &str) -> (r: bool)
    ensures
        r == (prefix@.len() <= s@.len() && s@.subrange(0, prefix@.len() as int) == prefix@),
{
    let cs = chars_of(s);
    let ps = chars_of(prefix);
    matches_at(&cs, &ps, 0)
}

/// Whether `needle` occurs in `hay` at index `i`.
fn matches_at(hay: &Vec<char>, needle: &Vec<char>, i: usize) -> (r: bool)
    requires
        i <= hay@.len(),
    ensures
        r == occurs_at(hay@, needle@, i as int),
{
    if needle.len() > hay.len() - i {
        return false;
    }
    let hl = hay.len();
    let mut k: usize = 0;
    while k < needle.len()
        invariant
            hl == hay@.len(),
            i + needle@.len() <= hay@.len(),
            k <= needle@.len(),
            i + k <= hay@.len(),
            forall|m: int| 0 <= m < k ==> hay@[i + m] == needle@[m],
        decreases needle@.len() - k,
    {
        if hay[i + k] != needle[k] {
            assert(hay@.subrange(i as int, i + needle@.len())[k as int] != needle@[k as int]);
            return false;
        }
        k = k + 1;
    }
    assert(hay@.subrange(i as int, i + needle@.len()) =~= needle@);
    true
}

/// The first character index where `needle` occurs in `hay`.
fn first_index(hay: &Vec<char>, needle: &Vec<char>) -> (r: Option<usize>)
    ensures
        r matches Some(i) ==> first_occurrence(hay@, needle@) == Some(i as int),
        r is None ==> first_occurrence(hay@, needle@) is None,
{
    if needle.len() > hay.len() {
        return None;
    }
    let last = hay.len() - needle.len();
    let mut k: usize = 0;
    loop
        invariant
            last + needle@.len() == hay@.len(),
            k <= last,
            first_occurrence(hay@, needle@) == first_occurrence_from(hay@, needle@, k as int),
        decreases last - k,
    {
        if matches_at(hay, needle, k) {
            return Some(k);
        }
        if k == last {
            assert(first_occurrence_from(hay@, needle@, k + 1) is None);
            return None;
        }
        k = k + 1;
    }
}

/// The byte length of `s`, truncated to 32 bits.
pub fn len(s: &str) -> (r: u32)
    ensures
        r == s.spec_bytes().len() as usize as u32,
{
    s.len() as u32
}

/// Whether `s` holds no characters.
pub fn is_empty(s: &str) -> (r: bool)
    ensures
        r == (s@.len() == 0),
{
    s.is_empty()
}

/// The byte offset of the first occurrence of `needle` in `s`, truncated to 32 bits.
pub fn find(s: &str, needle: &str) -> (r: Option<u32>)
    ensures
        r == match first_occurrence(s@, needle@) {
            Some(i) => Some(byte_index(s@, i) as usize as u32),
            None => None::<u32>,
        },
{
    let cs = chars_of(s);
    let ns = chars_of(needle);
    match first_index(&cs, &ns) {
        Some(i) => {
            proof {
                lemma_first_occurrence_bound(s@, needle@, 0);
            }
            let prefix = s.substring_char(0, i);
            assert(prefix@ =~= s@.take(i as int));
            Some(prefix.len() as u32)
        },
        None => None,
    }
}

proof fn lemma_first_occurrence_bound(s: Seq<char>, needle: Seq<char>, k: int)
    ensures
        first_occurrence_from(s, needle, k) matches Some(i) ==> k <= i && i + needle.len()
            <= s.len(),
    decreases s.len() + 1 - k,
{
    if !(k < 0 || k + needle.len() > s.len()) && !occurs_at(s, needle, k) {
        lemma_first_occurrence_bound(s, needle, k + 1);
    }
}

/// Whether `needle` occurs in `s`.
pub fn contains(s: &str, needle: &str) -> (r: bool)
    ensures
        r == first_occurrence(s@, needle@) is Some,
{
    let cs = chars_of(s);
    let ns = chars_of(needle);
    first_index(&cs, &ns).is_some()
}

/// `s` with every occurrence of `from` replaced by `to`.
pub fn replace(s: &str, from: &str, to: &str) -> (r: String)
    ensures
        r@ == replace_of(s@, from@, to@),
{
    let cs = chars_of(s);
    let fs = chars_of(from);
    let n = cs.len();
    let mut out = String::new();
    let mut i: usize = 0;
    assert(s@.skip(0) =~= s@);
    assert(s@.subrange(0, 0) =~= Seq::<char>::empty());
    if fs.len() == 0 {
        while i < n
            invariant
                n == cs@.len(),
                cs@ == s@,
                fs@ == from@,
                from@.len() == 0,
                i <= n,
                out@ + replace_of(s@.skip(i as int), from@, to@) == replace_of(s@, from@, to@),
            decreases n - i,
        {
            let ghost rest = s@.skip(i as int);
            assert(rest.drop_first() =~= s@.skip(i + 1));
            out.append(to);
            let p = piece(s, i, i + 1);
            out.append(p.as_str());
            assert(p@ =~= seq![rest[0]]);
            i = i + 1;
        }
        assert(s@.skip(n as int) =~= Seq::<char>::empty());
        out.append(to);
        return out;
    }
    let mut run: usize = 0;
    while i < n
        invariant
            n == cs@.len(),
            cs@ == s@,
            fs@ == from@,
            from@.len() > 0,
            run <= i <= n,
            out@ + s@.subrange(run as int, i as int) + replace_of(s@.skip(i as int), from@, to@)
                == replace_of(s@, from@, to@),
        decreases n - i,
    {
        let ghost rest = s@.skip(i as int);
        if matches_at(&cs, &fs, i) {
            assert(rest.subrange(0, from@.len() as int) =~= s@.subrange(
                i as int,
                i + from@.len(),
            ));
            assert(rest.skip(from@.len() as int) =~= s@.skip(i + from@.len()));
            let p = piece(s, run, i);
            out.append(p.as_str());
            out.append(to);
            i = i + fs.len();
            run = i;
            assert(s@.subrange(run as int, i as int) =~= Seq::<char>::empty());
        } else {
            assert(!occurs_at(rest, from@, 0)) by {
                if occurs_at(rest, from@, 0) {
                    assert(s@.subrange(i as int, i + from@.len()) =~= rest.subrange(
                        0,
                        from@.len() as int,
                    ));
                }
            }
            assert(rest.drop_first() =~= s@.skip(i + 1));
            assert(s@.subrange(run as int, i + 1) =~= s@.subrange(run as int, i as int) + seq![
                rest[0],
            ]);
            i = i + 1;
        }
    }
    assert(s@.skip(n as int) =~= Seq::<char>::empty());
    let p = piece(s, run, n);
    out.append(p.as_str());
    out
}

/// Calls std's `str::to_lowercase`. The contract claims only that the result is the
/// fixed, context-aware Unicode lowercase mapping of the input characters, named
/// `lowercase_of`; which characters that mapping produces is left unsaid.
#[verifier::external_body]
fn std_to_lowercase(s: &str) -> (r: String)
    ensures
        r@ == lowercase_of(s@),
{
    s.to_lowercase()
}

/// `s` in lowercase, by std's Unicode mapping.
pub fn to_lowercase(s: &str) -> (r: String)
    ensures
        r@ == lowercase_of(s@),
{
    std_to_lowercase(s)
}

} // verus!
