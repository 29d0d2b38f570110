//! Character-level text operations: whitespace, trimming, words, lines and joining.
//!
//! Every text is modelled by its sequence of Unicode scalar values (`Seq<char>`),
//! which is the view that vstd gives `str` and `String`.

use vstd::prelude::*;

verus! {

/// Whether `c` has the Unicode `White_Space` property (what `char::is_whitespace` tests).
pub open spec fn is_white(c: char) -> bool {
    ||| ('\u{9}' <= c && c <= '\u{d}')
    ||| c == ' '
    ||| c == '\u{85}'
    ||| c == '\u{a0}'
    ||| c == '\u{1680}'
    ||| ('\u{2000}' <= c && c <= '\u{200a}')
    ||| c == '\u{2028}'
    ||| c == '\u{2029}'
    ||| c == '\u{202f}'
    ||| c == '\u{205f}'
    ||| c == '\u{3000}'
}

/// Executable test for [`is_white`].
pub fn char_is_white(c: char) -> (b: bool)
    ensures
        b == is_white(c),
{
    ('\u{9}' <= c && c <= '\u{d}') || c == ' ' || c == '\u{85}' || c == '\u{a0}' || c == '\u{1680}'
        || ('\u{2000}' <= c && c <= '\u{200a}') || c == '\u{2028}' || c == '\u{2029}'
        || c == '\u{202f}' || c == '\u{205f}' || c == '\u{3000}'
}

/// `s` without its leading whitespace.
pub open spec fn trim_start(s: Seq<char>) -> Seq<char>
    decreases s.len(),
{
    if s.len() > 0 && is_white(s[0]) {
        trim_start(s.drop_first())
    } else {
        s
    }
}

/// `s` without its trailing whitespace.
pub open spec fn trim_end(s: Seq<char>) -> Seq<char>
    decreases s.len(),
{
    if s.len() > 0 && is_white(s.last()) {
        trim_end(s.drop_last())
    } else {
        s
    }
}

/// `s` without leading and trailing whitespace (what `str::trim` returns).
pub open spec fn trim(s: Seq<char>) -> Seq<char> {
    trim_end(trim_start(s))
}

/// The parts joined with `sep` between each two neighbours (what `join` on a slice returns).
pub open spec fn join(parts: Seq<Seq<char>>, sep: Seq<char>) -> Seq<char>
    decreases parts.len(),
{
    if parts.len() == 0 {
        seq![]
    } else if parts.len() == 1 {
        parts[0]
    } else {
        join(parts.drop_last(), sep) + sep + parts.last()
    }
}

/// A list of finished pieces with the piece under construction appended when it is not empty.
pub open spec fn with_pending(done: Seq<Seq<char>>, pending: Seq<char>) -> Seq<Seq<char>> {
    if pending.len() == 0 {
        done
    } else {
        done.push(pending)
    }
}

/// Reading `s` from the left: the words finished so far, and the word being read.
pub open spec fn words_scan(s: Seq<char>) -> (Seq<Seq<char>>, Seq<char>)
    decreases s.len(),
{
    if s.len() == 0 {
        (seq![], seq![])
    } else {
        let (done, cur) = words_scan(s.drop_last());
        if is_white(s.last()) {
            (with_pending(done, cur), seq![])
        } else {
            (done, cur.push(s.last()))
        }
    }
}

/// The maximal runs of non-whitespace characters of `s`, in order
/// (what `str::split_whitespace` yields).
pub open spec fn words(s: Seq<char>) -> Seq<Seq<char>> {
    with_pending(words_scan(s).0, words_scan(s).1)
}

/// The first `n` items of `s`, or all of them when there are fewer.
pub open spec fn take_at_most<A>(s: Seq<A>, n: nat) -> Seq<A> {
    if s.len() <= n {
        s
    } else {
        s.take(n as int)
    }
}

/// `line` without one trailing carriage return.
pub open spec fn strip_cr(line: Seq<char>) -> Seq<char> {
    if line.len() > 0 && line.last() == '\r' {
        line.drop_last()
    } else {
        line
    }
}

/// Reading `s` from the left: the lines finished by a `'\n'` so far (each without its
/// `"\n"` or `"\r\n"` terminator), and the line being read.
pub open spec fn lines_scan(s: Seq<char>) -> (Seq<Seq<char>>, Seq<char>)
    decreases s.len(),
{
    if s.len() == 0 {
        (seq![], seq![])
    } else {
        let (done, cur) = lines_scan(s.drop_last());
        if s.last() == '\n' {
            (done.push(strip_cr(cur)), seq![])
        } else {
            (done, cur.push(s.last()))
        }
    }
}

/// The lines of `s` (what `str::lines` yields): split at `"\n"` or `"\r\n"`, with no
/// empty line after a final terminator, and a last unterminated line kept as it is.
pub open spec fn lines(s: Seq<char>) -> Seq<Seq<char>> {
    with_pending(lines_scan(s).0, lines_scan(s).1)
}

// ---------------------------------------------------------------------------
// Lemmas
// ---------------------------------------------------------------------------

/// Joining after pushing one more part.
pub proof fn lemma_join_push(parts: Seq<Seq<char>>, sep: Seq<char>, x: Seq<char>)
    ensures
        join(parts.push(x), sep) == if parts.len() == 0 {
            x
        } else {
            join(parts, sep) + sep + x
        },
{
    assert(parts.push(x).drop_last() =~= parts);
    if parts.len() == 0 {
        assert(parts.push(x)[0] == x);
    }
}

/// Extending the last part by one character extends the joined text by that character.
pub proof fn lemma_join_extend_last(parts: Seq<Seq<char>>, sep: Seq<char>, c: char)
    requires
        parts.len() > 0,
    ensures
        join(parts.drop_last().push(parts.last().push(c)), sep) == join(parts, sep).push(c),
{
    let p2 = parts.drop_last().push(parts.last().push(c));
    lemma_join_push(parts.drop_last(), sep, parts.last().push(c));
    if parts.len() == 1 {
        assert(parts =~= seq![parts[0]]);
    } else {
        assert(parts.drop_last().push(parts.last()) =~= parts);
        lemma_join_push(parts.drop_last(), sep, parts.last());
        assert(join(parts.drop_last(), sep) + sep + parts.last().push(c) =~= (join(
            parts.drop_last(),
            sep,
        ) + sep + parts.last()).push(c));
    }
}

/// There are never more words than characters.
pub proof fn lemma_words_len(s: Seq<char>)
    ensures
        words(s).len() <= s.len(),
        words_scan(s).0.len() + (if words_scan(s).1.len() > 0 { 1int } else { 0int }) <= s.len(),
    decreases s.len(),
{
    if s.len() > 0 {
        lemma_words_len(s.drop_last());
    }
}

/// If the first `i` characters are whitespace and the next one is not (or there is none),
/// trimming the start drops exactly those `i` characters.
pub proof fn lemma_trim_start_at(s: Seq<char>, i: int)
    requires
        0 <= i <= s.len(),
        forall|k: int| 0 <= k < i ==> is_white(#[trigger] s[k]),
        i == s.len() || !is_white(s[i]),
    ensures
        trim_start(s) == s.subrange(i, s.len() as int),
    decreases i,
{
    if i == 0 {
        assert(s.subrange(0, s.len() as int) =~= s);
    } else {
        assert forall|k: int| 0 <= k < i - 1 implies is_white(#[trigger] s.drop_first()[k]) by {
            assert(s.drop_first()[k] == s[k + 1]);
        }
        if i < s.len() {
            assert(s.drop_first()[i - 1] == s[i]);
        }
        lemma_trim_start_at(s.drop_first(), i - 1);
        assert(s.drop_first().subrange(i - 1, s.len() - 1) =~= s.subrange(i, s.len() as int));
    }
}

/// If the characters from `j` on are whitespace and the one before is not (or `j == 0`),
/// trimming the end keeps exactly the first `j` characters.
pub proof fn lemma_trim_end_at(s: Seq<char>, j: int)
    requires
        0 <= j <= s.len(),
        forall|k: int| j <= k < s.len() ==> is_white(#[trigger] s[k]),
        j == 0 || !is_white(s[j - 1]),
    ensures
        trim_end(s) == s.take(j),
    decreases s.len() - j,
{
    if j == s.len() {
        assert(s.take(j) =~= s);
    } else {
        assert forall|k: int| j <= k < s.len() - 1 implies is_white(#[trigger] s.drop_last()[k]) by {
            assert(s.drop_last()[k] == s[k]);
        }
        if j > 0 {
            assert(s.drop_last()[j - 1] == s[j - 1]);
        }
        lemma_trim_end_at(s.drop_last(), j);
        assert(s.drop_last().take(j) =~= s.take(j));
    }
}

/// A word as `split_whitespace` yields it: not empty, and without whitespace.
pub open spec fn clean_word(w: Seq<char>) -> bool {
    w.len() > 0 && forall|k: int| 0 <= k < w.len() ==> !is_white(#[trigger] w[k])
}

/// Every word of `s` is a clean word.
pub proof fn lemma_words_clean(s: Seq<char>)
    ensures
        forall|i: int| 0 <= i < words(s).len() ==> clean_word(#[trigger] words(s)[i]),
        forall|i: int|
            0 <= i < words_scan(s).0.len() ==> clean_word(#[trigger] words_scan(s).0[i]),
        forall|k: int|
            0 <= k < words_scan(s).1.len() ==> !is_white(#[trigger] words_scan(s).1[k]),
    decreases s.len(),
{
    if s.len() > 0 {
        lemma_words_clean(s.drop_last());
        let (done, cur) = words_scan(s.drop_last());
        if !is_white(s.last()) {
            assert forall|k: int| 0 <= k < cur.push(s.last()).len() implies !is_white(
                #[trigger] cur.push(s.last())[k],
            ) by {
                if k < cur.len() {
                    assert(cur.push(s.last())[k] == cur[k]);
                }
            }
        }
    }
}

/// Reading a run of non-whitespace characters only extends the word being read.
pub proof fn lemma_scan_append_run(s: Seq<char>, w: Seq<char>)
    requires
        forall|k: int| 0 <= k < w.len() ==> !is_white(#[trigger] w[k]),
    ensures
        words_scan(s + w) == (words_scan(s).0, words_scan(s).1 + w),
    decreases w.len(),
{
    if w.len() == 0 {
        assert(s + w =~= s);
        assert(words_scan(s).1 + w =~= words_scan(s).1);
    } else {
        let w0 = w.drop_last();
        assert forall|k: int| 0 <= k < w0.len() implies !is_white(#[trigger] w0[k]) by {
            assert(w0[k] == w[k]);
        }
        lemma_scan_append_run(s, w0);
        assert((s + w).drop_last() =~= s + w0);
        assert((s + w).last() == w[w.len() - 1]);
        assert(words_scan(s).1 + w0 + seq![w.last()] =~= words_scan(s).1 + w);
        assert((words_scan(s).1 + w0).push(w.last()) =~= words_scan(s).1 + w);
    }
}

/// Reading a whitespace character finishes the word being read.
pub proof fn lemma_scan_append_white(s: Seq<char>, c: char)
    requires
        is_white(c),
    ensures
        words_scan(s.push(c)) == (words(s), Seq::<char>::empty()),
{
    assert(s.push(c).drop_last() =~= s);
}

/// Splitting clean words joined by single spaces gives the words back.
pub proof fn lemma_words_of_spaced(ws: Seq<Seq<char>>)
    requires
        forall|i: int| 0 <= i < ws.len() ==> clean_word(#[trigger] ws[i]),
    ensures
        words(join(ws, seq![' '])) == ws,
    decreases ws.len(),
{
    let empty = Seq::<char>::empty();
    if ws.len() == 0 {
        assert(words_scan(empty) == (Seq::<Seq<char>>::empty(), empty));
        assert(words(empty) =~= ws);
    } else if ws.len() == 1 {
        assert(clean_word(ws[0]));
        lemma_scan_append_run(empty, ws[0]);
        assert(empty + ws[0] =~= ws[0]);
        assert(words(ws[0]) =~= seq![ws[0]]);
        assert(ws =~= seq![ws[0]]);
    } else {
        let prev = ws.drop_last();
        let w = ws.last();
        assert(clean_word(w));
        assert forall|i: int| 0 <= i < prev.len() implies clean_word(#[trigger] prev[i]) by {
            assert(prev[i] == ws[i]);
        }
        lemma_words_of_spaced(prev);
        let j = join(prev, seq![' ']);
        lemma_scan_append_white(j, ' ');
        assert(j + seq![' '] =~= j.push(' '));
        lemma_scan_append_run(j.push(' '), w);
        assert(empty + w =~= w);
        assert(join(ws, seq![' ']) == j + seq![' '] + w);
        assert(ws =~= prev.push(w));
    }
}

/// Clean words joined by single spaces: whitespace occurs only as single spaces, each
/// between two non-whitespace characters.
pub proof fn lemma_spaced_shape(ws: Seq<Seq<char>>)
    requires
        forall|i: int| 0 <= i < ws.len() ==> clean_word(#[trigger] ws[i]),
    ensures
        ({
            let r = join(ws, seq![' ']);
            &&& ws.len() > 0 ==> r.len() > 0 && !is_white(r[0]) && !is_white(r.last())
            &&& forall|k: int|
                0 <= k < r.len() && is_white(#[trigger] r[k]) ==> {
                    &&& r[k] == ' '
                    &&& 0 < k < r.len() - 1
                    &&& !is_white(r[k - 1])
                    &&& !is_white(r[k + 1])
                }
        }),
    decreases ws.len(),
{
    if ws.len() == 1 {
        assert(clean_word(ws[0]));
    } else if ws.len() > 1 {
        let prev = ws.drop_last();
        let w = ws.last();
        assert(clean_word(w));
        assert forall|i: int| 0 <= i < prev.len() implies clean_word(#[trigger] prev[i]) by {
            assert(prev[i] == ws[i]);
        }
        lemma_spaced_shape(prev);
        let j = join(prev, seq![' ']);
        let r = join(ws, seq![' ']);
        assert(r == j + seq![' '] + w);
        assert forall|k: int| 0 <= k < r.len() && is_white(#[trigger] r[k]) implies {
            &&& r[k] == ' '
            &&& 0 < k < r.len() - 1
            &&& !is_white(r[k - 1])
            &&& !is_white(r[k + 1])
        } by {
            if k < j.len() {
                assert(r[k] == j[k]);
                assert(r[k - 1] == j[k - 1]);
                assert(r[k + 1] == j[k + 1]);
            } else if k == j.len() {
                assert(r[k - 1] == j[j.len() - 1]);
                assert(r[k + 1] == w[0]);
            } else {
                assert(r[k] == w[k - j.len() - 1]);
            }
        }
        assert(r[0] == j[0]);
        assert(r.last() == w[w.len() - 1]);
    }
}

/// `trim_start` keeps a suffix of the text, starting with a non-whitespace character.
pub proof fn lemma_trim_start_shape(s: Seq<char>)
    ensures
        trim_start(s).len() <= s.len(),
        trim_start(s) == s.subrange(s.len() - trim_start(s).len(), s.len() as int),
        trim_start(s).len() > 0 ==> !is_white(trim_start(s)[0]),
        forall|k: int| 0 <= k < s.len() - trim_start(s).len() ==> is_white(#[trigger] s[k]),
    decreases s.len(),
{
    if s.len() > 0 && is_white(s[0]) {
        lemma_trim_start_shape(s.drop_first());
        let t = trim_start(s.drop_first());
        assert forall|k: int| 0 <= k < s.len() - t.len() implies is_white(#[trigger] s[k]) by {
            if k > 0 {
                assert(s[k] == s.drop_first()[k - 1]);
            }
        }
        assert(s.drop_first().subrange(s.len() - 1 - t.len(), s.len() - 1) =~= s.subrange(
            s.len() - t.len(),
            s.len() as int,
        ));
    } else {
        assert(s.subrange(0, s.len() as int) =~= s);
    }
}

/// `trim_end` keeps a prefix of the text, ending with a non-whitespace character.
pub proof fn lemma_trim_end_shape(s: Seq<char>)
    ensures
        trim_end(s).len() <= s.len(),
        trim_end(s) == s.take(trim_end(s).len() as int),
        trim_end(s).len() > 0 ==> !is_white(trim_end(s).last()),
        forall|k: int| trim_end(s).len() <= k < s.len() ==> is_white(#[trigger] s[k]),
    decreases s.len(),
{
    if s.len() > 0 && is_white(s.last()) {
        lemma_trim_end_shape(s.drop_last());
        let t = trim_end(s.drop_last());
        assert forall|k: int| t.len() <= k < s.len() implies is_white(#[trigger] s[k]) by {
            if k < s.len() - 1 {
                assert(s[k] == s.drop_last()[k]);
            }
        }
        assert(s.drop_last().take(t.len() as int) =~= s.take(t.len() as int));
    } else {
        assert(s.take(s.len() as int) =~= s);
    }
}

/// `line` holds no line feed.
pub open spec fn no_newline(line: Seq<char>) -> bool {
    forall|k: int| 0 <= k < line.len() ==> #[trigger] line[k] != '\n'
}

/// Reading characters other than `'\n'` only extends the line being read.
pub proof fn lemma_lines_scan_append_run(s: Seq<char>, w: Seq<char>)
    requires
        no_newline(w),
    ensures
        lines_scan(s + w) == (lines_scan(s).0, lines_scan(s).1 + w),
    decreases w.len(),
{
    if w.len() == 0 {
        assert(s + w =~= s);
        assert(lines_scan(s).1 + w =~= lines_scan(s).1);
    } else {
        let w0 = w.drop_last();
        assert forall|k: int| 0 <= k < w0.len() implies #[trigger] w0[k] != '\n' by {
            assert(w0[k] == w[k]);
        }
        lemma_lines_scan_append_run(s, w0);
        assert((s + w).drop_last() =~= s + w0);
        assert((s + w).last() == w[w.len() - 1]);
        assert((lines_scan(s).1 + w0).push(w.last()) =~= lines_scan(s).1 + w);
    }
}

/// Lines joined by `'\n'`, none holding a line feed and none but the last ending with a
/// carriage return, are read back as those lines: the last one is still being read.
pub proof fn lemma_lines_scan_of_joined(ls: Seq<Seq<char>>)
    requires
        ls.len() > 0,
        forall|i: int| 0 <= i < ls.len() ==> no_newline(#[trigger] ls[i]),
        forall|i: int| 0 <= i < ls.len() - 1 ==> strip_cr(#[trigger] ls[i]) == ls[i],
    ensures
        lines_scan(join(ls, seq!['\n'])) == (ls.drop_last(), ls.last()),
    decreases ls.len(),
{
    let empty = Seq::<char>::empty();
    if ls.len() == 1 {
        assert(no_newline(ls[0]));
        lemma_lines_scan_append_run(empty, ls[0]);
        assert(empty + ls[0] =~= ls[0]);
        assert(lines_scan(empty) == (Seq::<Seq<char>>::empty(), empty));
        assert(ls.drop_last() =~= Seq::<Seq<char>>::empty());
    } else {
        let prev = ls.drop_last();
        let w = ls.last();
        assert(no_newline(w));
        assert forall|i: int| 0 <= i < prev.len() implies no_newline(#[trigger] prev[i]) by {
            assert(prev[i] == ls[i]);
        }
        assert forall|i: int| 0 <= i < prev.len() - 1 implies strip_cr(#[trigger] prev[i])
            == prev[i] by {
            assert(prev[i] == ls[i]);
        }
        lemma_lines_scan_of_joined(prev);
        let j = join(prev, seq!['\n']);
        assert(strip_cr(ls[ls.len() - 2]) == ls[ls.len() - 2]);
        assert(j.push('\n').drop_last() =~= j);
        assert(prev.drop_last().push(prev.last()) =~= prev);
        assert(lines_scan(j.push('\n')) == (prev, empty));
        assert(j + seq!['\n'] =~= j.push('\n'));
        lemma_lines_scan_append_run(j.push('\n'), w);
        assert(empty + w =~= w);
        assert(join(ls, seq!['\n']) == j + seq!['\n'] + w);
    }
}

/// No line of a text holds a line feed.
pub proof fn lemma_lines_no_newline(s: Seq<char>)
    ensures
        forall|i: int| 0 <= i < lines(s).len() ==> no_newline(#[trigger] lines(s)[i]),
        forall|i: int|
            0 <= i < lines_scan(s).0.len() ==> no_newline(#[trigger] lines_scan(s).0[i]),
        no_newline(lines_scan(s).1),
    decreases s.len(),
{
    if s.len() > 0 {
        lemma_lines_no_newline(s.drop_last());
        let (done, cur) = lines_scan(s.drop_last());
        if s.last() == '\n' {
            let l = strip_cr(cur);
            assert forall|k: int| 0 <= k < l.len() implies #[trigger] l[k] != '\n' by {
                assert(l[k] == cur[k]);
            }
            assert forall|i: int| 0 <= i < done.push(l).len() implies no_newline(
                #[trigger] done.push(l)[i],
            ) by {
                if i < done.len() {
                    assert(done.push(l)[i] == done[i]);
                }
            }
        } else {
            assert forall|k: int| 0 <= k < cur.push(s.last()).len() implies #[trigger] cur.push(
                s.last(),
            )[k] != '\n' by {
                if k < cur.len() {
                    assert(cur.push(s.last())[k] == cur[k]);
                }
            }
        }
    }
}

// ---------------------------------------------------------------------------
// Executable operations
// ---------------------------------------------------------------------------

/// Appends one character to a `String` (`String::push`, which vstd does not specify).
#[verifier::external_body]
pub(crate) fn push_char(s: &mut String, c: char)
    ensures
        final(s)@ == old(s)@.push(c),
{
    s.push(c);
}

/// The characters of `s`, in order.
pub fn chars_of(s: &str) -> (v: Vec<char>)
    ensures
        v@ == s@,
{
    broadcast use vstd::string::group_string_axioms;

    let mut v: Vec<char> = Vec::new();
    for c in it: s.chars()
        invariant
            v@ == it.seq().take(it.index()),
    {
        v.push(c);
    }
    assert(v@ =~= s@);
    v
}

/// A `String` holding the first `end` characters of `cs`.
pub fn string_of_prefix(cs: &Vec<char>, end: usize) -> (r: String)
    requires
        end <= cs@.len(),
    ensures
        r@ == cs@.take(end as int),
{
    let mut r = String::new();
    let mut i: usize = 0;
    while i < end
        invariant
            i <= end <= cs@.len(),
            r@ == cs@.take(i as int),
        decreases end - i,
    {
        push_char(&mut r, cs[i]);
        i = i + 1;
        assert(r@ =~= cs@.take(i as int));
    }
    r
}

/// `text` without leading and trailing whitespace (`str::trim`).
pub fn trim_text(text: &str) -> (r: String)
    ensures
        r@ == trim(text@),
{
    let cs = chars_of(text);
    let len: usize = cs.len();
    let mut i: usize = 0;
    while i < len && char_is_white(cs[i])
        invariant
            i <= len == cs@.len(),
            forall|k: int| 0 <= k < i ==> is_white(#[trigger] cs@[k]),
        decreases len - i,
    {
        i = i + 1;
    }
    proof {
        lemma_trim_start_at(cs@, i as int);
    }
    let ghost rest = cs@.subrange(i as int, len as int);
    let mut j: usize = len;
    while j > i && char_is_white(cs[j - 1])
        invariant
            i <= j <= len == cs@.len(),
            rest == cs@.subrange(i as int, len as int),
            forall|k: int| j <= k < len ==> is_white(#[trigger] cs@[k]),
        decreases j,
    {
        j = j - 1;
    }
    proof {
        assert forall|k: int| j - i <= k < rest.len() implies is_white(#[trigger] rest[k]) by {
            assert(rest[k] == cs@[k + i]);
        }
        if j > i {
            assert(rest[j - i - 1] == cs@[j - 1]);
        }
        lemma_trim_end_at(rest, j - i);
        assert(rest.take(j - i) =~= cs@.subrange(i as int, j as int));
    }
    let r = text.substring_char(i, j);
    String::from_str(r)
}

/// The words of `text` (runs of non-whitespace), keeping at most `n` of them,
/// joined by single spaces.
pub fn join_words(text: &str, n: usize) -> (r: String)
    ensures
        r@ == join(take_at_most(words(text@), n as nat), seq![' ']),
        text@.len() <= usize::MAX,
{
    let cs = chars_of(text);
    let len: usize = cs.len();
    let mut out = String::new();
    let mut count: usize = 0;
    let mut in_word = false;
    let mut writing = false;
    let mut i: usize = 0;
    proof {
        assert(cs@.take(0) =~= Seq::<char>::empty());
    }
    while i < len
        invariant
            i <= len == cs@.len(),
            cs@ == text@,
            ({
                let (done, cur) = words_scan(cs@.take(i as int));
                &&& out@ == join(take_at_most(with_pending(done, cur), n as nat), seq![' '])
                &&& count as nat == if with_pending(done, cur).len() <= n {
                    with_pending(done, cur).len()
                } else {
                    n as nat
                }
                &&& in_word == (cur.len() > 0)
                &&& in_word ==> (writing == (with_pending(done, cur).len() <= n))
            }),
        decreases len - i,
    {
        let c = cs[i];
        let ghost prev = words_scan(cs@.take(i as int));
        let ghost before = with_pending(prev.0, prev.1);
        assert(cs@.take(i + 1).drop_last() =~= cs@.take(i as int));
        assert(cs@.take(i + 1).last() == c);
        if char_is_white(c) {
            in_word = false;
        } else if in_word {
            // extends the word being read, the last one of `before`
            let ghost after = prev.0.push(prev.1.push(c));
            assert(before == prev.0.push(prev.1));
            assert(after =~= before.drop_last().push(before.last().push(c)));
            if writing {
                proof {
                    lemma_join_extend_last(before, seq![' '], c);
                }
                push_char(&mut out, c);
            } else {
                assert(take_at_most(after, n as nat) =~= take_at_most(before, n as nat));
            }
        } else {
            // starts a new word
            let ghost after = prev.0.push(seq![c]);
            assert(before == prev.0);
            if count < n {
                proof {
                    lemma_join_push(before, seq![' '], seq![c]);
                    assert(take_at_most(before, n as nat) == before);
                    assert(take_at_most(after, n as nat) == after);
                }
                if count > 0 {
                    push_char(&mut out, ' ');
                }
                push_char(&mut out, c);
                assert(out@ =~= join(after, seq![' ']));
                count = count + 1;
                writing = true;
            } else {
                writing = false;
                assert(take_at_most(after, n as nat) =~= take_at_most(before, n as nat));
            }
            in_word = true;
        }
        i = i + 1;
    }
    assert(cs@.take(len as int) =~= cs@);
    out
}

/// The first `n` characters of `text`, or all of it when it is shorter.
pub fn take_chars(text: &str, n: usize) -> (r: String)
    ensures
        r@ == take_at_most(text@, n as nat),
{
    let len: usize = text.unicode_len();
    let end: usize = if n < len { n } else { len };
    let r = text.substring_char(0, end);
    assert(text@.subrange(0, end as int) =~= take_at_most(text@, n as nat));
    String::from_str(r)
}

/// `a` followed by `b`.
pub fn concat_text(a: &str, b: &str) -> (r: String)
    ensures
        r@ == a@ + b@,
{
    let mut r = String::from_str(a);
    r.append(b);
    r
}

/// What `str::to_lowercase` returns for `s` (Unicode lowercase mapping, applied to the
/// whole text).
pub uninterp spec fn lowercase(s: Seq<char>) -> Seq<char>;

/// What `str::to_uppercase` returns for `s` (Unicode uppercase mapping, applied to the
/// whole text).
pub uninterp spec fn uppercase(s: Seq<char>) -> Seq<char>;

/// `str::to_lowercase`.
///
/// Trusted: the result is the named value [`lowercase`] of the text; nothing more of the
/// Unicode case tables is stated.
#[verifier::external_body]
pub fn lowercase_text(text: &str) -> (r: String)
    ensures
        r@ == lowercase(text@),
{
    text.to_lowercase()
}

/// `str::to_uppercase`.
///
/// Trusted: the result is the named value [`uppercase`] of the text; nothing more of the
/// Unicode case tables is stated.
#[verifier::external_body]
pub fn uppercase_text(text: &str) -> (r: String)
    ensures
        r@ == uppercase(text@),
{
    text.to_uppercase()
}

} // verus!
