//! Text as sequences of characters: conversions between `String` and
//! `Vec<char>`, dotted paths, joining, and literal find-and-replace.

use vstd::prelude::*;
use vstd::string::*;

verus! {

/// `String::push` appends one character to the end of the string.
pub assume_specification[ String::push ](s: &mut String, c: char)
    ensures
        final(s)@ == old(s)@.push(c),
;

/// The texts held by a sequence of strings.
pub open spec fn texts(v: Seq<String>) -> Seq<Seq<char>> {
    v.map_values(|s: String| s@)
}

/// Whether `p` occurs in `s` starting at index `i`.
pub open spec fn has_at(s: Seq<char>, p: Seq<char>, i: int) -> bool {
    0 <= i && i + p.len() <= s.len() && s.subrange(i, i + p.len()) == p
}

/// Whether `p` occurs anywhere in `s`.
pub open spec fn occurs_in(s: Seq<char>, p: Seq<char>) -> bool {
    exists|i: int| has_at(s, p, i)
}

/// Scanning `s` from the left for dot-separated segments: the non-empty
/// segments already closed by a dot, and the characters read since the last
/// dot.
pub open spec fn segment_scan(s: Seq<char>) -> (Seq<Seq<char>>, Seq<char>)
    decreases s.len(),
{
    if s.len() == 0 {
        (Seq::empty(), Seq::empty())
    } else {
        let (closed, open) = segment_scan(s.drop_last());
        if s.last() == '.' {
            (
                if open.len() > 0 {
                    closed.push(open)
                } else {
                    closed
                },
                Seq::empty(),
            )
        } else {
            (closed, open.push(s.last()))
        }
    }
}

/// The segments of a dotted path: its maximal dot-free pieces, in order, with
/// empty pieces left out. `".a.b"`, `"a.b"` and `"a..b."` all have the
/// segments `a`, `b`.
pub open spec fn path_segments(s: Seq<char>) -> Seq<Seq<char>> {
    let (closed, open) = segment_scan(s);
    if open.len() > 0 {
        closed.push(open)
    } else {
        closed
    }
}

/// Whether `x` can be one segment of a dotted path: not empty, and free of
/// dots.
pub open spec fn is_segment(x: Seq<char>) -> bool {
    x.len() > 0 && forall|k: int| 0 <= k < x.len() ==> x[k] != '.'
}

/// `parts` written one after another with `sep` between neighbours.
pub open spec fn join(parts: Seq<Seq<char>>, sep: Seq<char>) -> Seq<char>
    decreases parts.len(),
{
    if parts.len() == 0 {
        Seq::empty()
    } else if parts.len() == 1 {
        parts[0]
    } else {
        join(parts.drop_last(), sep) + sep + parts.last()
    }
}

/// `text`, ended by a line break if it is not already.
pub open spec fn line_ended(text: Seq<char>) -> Seq<char> {
    if text.len() > 0 && text.last() == '\n' {
        text
    } else {
        text.push('\n')
    }
}

/// `s` with `to` written after each of its characters.
pub open spec fn interleaved(s: Seq<char>, to: Seq<char>) -> Seq<char>
    decreases s.len(),
{
    if s.len() == 0 {
        Seq::empty()
    } else {
        seq![s[0]] + to + interleaved(s.subrange(1, s.len() as int), to)
    }
}

/// `s` with every occurrence of the pattern `from` replaced by `to`,
/// matching from the left and never inside an earlier match. The empty
/// pattern occurs before every character and at the end.
pub open spec fn replace_all(s: Seq<char>, from: Seq<char>, to: Seq<char>) -> Seq<char>
    decreases s.len(),
{
    if from.len() == 0 {
        to + interleaved(s, to)
    } else if s.len() < from.len() {
        s
    } else if s.subrange(0, from.len() as int) == from {
        to + replace_all(s.subrange(from.len() as int, s.len() as int), from, to)
    } else {
        seq![s[0]] + replace_all(s.subrange(1, s.len() as int), from, to)
    }
}

proof fn lemma_scan_yields_segments(s: Seq<char>)
    ensures
        forall|i: int|
            0 <= i < segment_scan(s).0.len() ==> is_segment(#[trigger] segment_scan(s).0[i]),
        forall|k: int| 0 <= k < segment_scan(s).1.len() ==> segment_scan(s).1[k] != '.',
    decreases s.len(),
{
    if s.len() > 0 {
        lemma_scan_yields_segments(s.drop_last());
        let (closed, open) = segment_scan(s.drop_last());
        let (closed2, open2) = segment_scan(s);
        if s.last() == '.' {
            assert forall|i: int| 0 <= i < closed2.len() implies is_segment(
                #[trigger] closed2[i],
            ) by {
                if i < closed.len() {
                    assert(closed2[i] == closed[i]);
                } else {
                    assert(closed2[i] == open);
                }
            }
        } else {
            assert forall|k: int| 0 <= k < open2.len() implies open2[k] != '.' by {
                if k < open.len() {
                    assert(open2[k] == open[k]);
                }
            }
        }
    }
}

/// Every segment of a dotted path is non-empty and free of dots.
pub proof fn lemma_each_segment_is_plain(s: Seq<char>)
    ensures
        forall|i: int|
            0 <= i < path_segments(s).len() ==> is_segment(#[trigger] path_segments(s)[i]),
{
    lemma_scan_yields_segments(s);
    let (closed, open) = segment_scan(s);
    assert forall|i: int| 0 <= i < path_segments(s).len() implies is_segment(
        #[trigger] path_segments(s)[i],
    ) by {
        if i < closed.len() {
            assert(path_segments(s)[i] == closed[i]);
        } else {
            assert(path_segments(s)[i] == open);
        }
    }
}

/// A single segment is its own only segment.
pub proof fn lemma_segments_of_segment(x: Seq<char>)
    requires
        is_segment(x),
    ensures
        path_segments(x) == seq![x],
{
    lemma_scan_of_plain(x);
    assert(Seq::<Seq<char>>::empty().push(x) =~= seq![x]);
}

proof fn lemma_scan_of_plain(x: Seq<char>)
    requires
        forall|k: int| 0 <= k < x.len() ==> x[k] != '.',
    ensures
        segment_scan(x) == (Seq::<Seq<char>>::empty(), x),
    decreases x.len(),
{
    if x.len() > 0 {
        lemma_scan_of_plain(x.drop_last());
        assert(x.drop_last().push(x.last()) =~= x);
    } else {
        assert(x =~= Seq::empty());
    }
}

/// The characters of `s`, in order.
pub fn chars_of(s: &str) -> (out: Vec<char>)
    ensures
        out@ == s@,
{
    let mut out: Vec<char> = Vec::new();
    for c in it: s.chars()
        invariant
            out@ == it.seq().take(it.index() as int),
            it.seq() == s@,
    {
        out.push(c);
    }
    out
}

/// The string whose characters are `chars`, in order.
pub fn string_of(chars: &Vec<char>) -> (out: String)
    ensures
        out@ == chars@,
{
    let mut out = String::new();
    let mut i: usize = 0;
    while i < chars.len()
        invariant
            i <= chars.len(),
            out@ == chars@.take(i as int),
        decreases chars.len() - i,
    {
        out.push(chars[i]);
        assert(chars@.take(i as int).push(chars@[i as int]) =~= chars@.take(i + 1));
        i += 1;
    }
    assert(chars@.take(chars.len() as int) =~= chars@);
    out
}

/// Whether two strings hold the same text.
pub fn same_text(a: &str, b: &str) -> (r: bool)
    ensures
        r == (a@ == b@),
{
    let x = chars_of(a);
    let y = chars_of(b);
    if x.len() != y.len() {
        return false;
    }
    let mut i: usize = 0;
    while i < x.len()
        invariant
            i <= x.len(),
            x.len() == y.len(),
            x@ == a@,
            y@ == b@,
            x@.take(i as int) == y@.take(i as int),
        decreases x.len() - i,
    {
        if x[i] != y[i] {
            assert(a@[i as int] != b@[i as int]);
            return false;
        }
        assert(x@.take(i + 1) =~= x@.take(i as int).push(x@[i as int]));
        assert(y@.take(i + 1) =~= y@.take(i as int).push(y@[i as int]));
        i += 1;
    }
    assert(x@.take(x.len() as int) =~= x@);
    assert(y@.take(y.len() as int) =~= y@);
    true
}

/// Whether `s` ends with the character `c`.
pub fn ends_with_char(s: &str, c: char) -> (r: bool)
    ensures
        r == (s@.len() > 0 && s@.last() == c),
{
    let chars = chars_of(s);
    chars.len() > 0 && chars[chars.len() - 1] == c
}

/// Ends `text` by a line break if it is not ended by one already.
pub fn end_line(text: String) -> (out: String)
    ensures
        out@ == line_ended(text@),
{
    let mut out = text;
    if !ends_with_char(out.as_str(), '\n') {
        out.push('\n');
    }
    out
}

/// Whether `prefix` holds the first texts of `whole`, in order.
pub fn starts_with(whole: &Vec<String>, prefix: &Vec<String>) -> (r: bool)
    ensures
        r == texts(prefix@).is_prefix_of(texts(whole@)),
{
    if prefix.len() > whole.len() {
        return false;
    }
    let mut i: usize = 0;
    while i < prefix.len()
        invariant
            i <= prefix.len(),
            prefix.len() <= whole.len(),
            texts(prefix@).take(i as int) == texts(whole@).take(i as int),
        decreases prefix.len() - i,
    {
        if !same_text(prefix[i].as_str(), whole[i].as_str()) {
            assert(texts(prefix@)[i as int] != texts(whole@).subrange(0, prefix.len() as int)[i as int]);
            return false;
        }
        assert(texts(prefix@).take(i + 1) =~= texts(prefix@).take(i as int).push(
            prefix@[i as int]@,
        ));
        assert(texts(whole@).take(i + 1) =~= texts(whole@).take(i as int).push(whole@[i as int]@));
        i += 1;
    }
    assert(texts(prefix@).take(prefix.len() as int) =~= texts(prefix@));
    true
}

/// Whether two lists of strings hold the same texts, in order.
pub fn same_texts(a: &Vec<String>, b: &Vec<String>) -> (r: bool)
    ensures
        r == (texts(a@) == texts(b@)),
{
    let r = a.len() == b.len() && starts_with(a, b);
    proof {
        assert(texts(a@).len() == a.len() && texts(b@).len() == b.len());
        if a.len() == b.len() {
            assert(texts(a@).subrange(0, b.len() as int) =~= texts(a@));
        }
    }
    r
}

/// Splits a dotted path into its segments.
pub fn split_path(s: &str) -> (out: Vec<String>)
    ensures
        texts(out@) == path_segments(s@),
{
    let chars = chars_of(s);
    let mut closed: Vec<String> = Vec::new();
    let mut open = String::new();
    let mut i: usize = 0;
    assert(texts(closed@) =~= Seq::empty());
    while i < chars.len()
        invariant
            i <= chars.len(),
            segment_scan(chars@.take(i as int)) == (texts(closed@), open@),
        decreases chars.len() - i,
    {
        let c = chars[i];
        let ghost before = closed@;
        assert(chars@.take(i + 1).drop_last() =~= chars@.take(i as int));
        if c == '.' {
            if !open.as_str().is_empty() {
                closed.push(open);
                assert(texts(closed@) =~= texts(before).push(closed@.last()@));
            }
            open = String::new();
        } else {
            open.push(c);
        }
        i += 1;
    }
    assert(chars@.take(chars.len() as int) =~= chars@);
    if !open.as_str().is_empty() {
        let ghost before = closed@;
        closed.push(open);
        assert(texts(closed@) =~= texts(before).push(closed@.last()@));
    }
    closed
}

/// Writes `parts` one after another with `sep` between neighbours.
pub fn join_strings(parts: &Vec<String>, sep: &str) -> (out: String)
    ensures
        out@ == join(texts(parts@), sep@),
{
    let mut out = String::new();
    let mut i: usize = 0;
    while i < parts.len()
        invariant
            i <= parts.len(),
            out@ == join(texts(parts@).take(i as int), sep@),
        decreases parts.len() - i,
    {
        let ghost upto = texts(parts@).take(i + 1);
        assert(upto.drop_last() =~= texts(parts@).take(i as int));
        assert(upto.last() == parts@[i as int]@);
        if i > 0 {
            out.append(sep);
        } else {
            assert(out@ + parts@[i as int]@ =~= parts@[i as int]@);
        }
        out.append(parts[i].as_str());
        i += 1;
    }
    assert(texts(parts@).take(parts.len() as int) =~= texts(parts@));
    out
}

/// Whether `p` occurs in `s` starting at index `i`.
fn matches_at(s: &Vec<char>, p: &Vec<char>, i: usize) -> (r: bool)
    requires
        i <= s.len(),
    ensures
        r == has_at(s@, p@, i as int),
{
    if p.len() > s.len() - i {
        return false;
    }
    let mut k: usize = 0;
    while k < p.len()
        invariant
            k <= p.len(),
            i + p.len() <= s.len(),
            s@.subrange(i as int, i + k) == p@.take(k as int),
        decreases p.len() - k,
    {
        if s[i + k] != p[k] {
            assert(s@.subrange(i as int, i + p.len())[k as int] != p@[k as int]);
            return false;
        }
        assert(s@.subrange(i as int, i + k + 1) =~= s@.subrange(i as int, i + k).push(
            s@[i + k],
        ));
        assert(p@.take(k + 1) =~= p@.take(k as int).push(p@[k as int]));
        k += 1;
    }
    assert(p@.take(p.len() as int) =~= p@);
    true
}

/// Writes `to` before every character of `s` and at the end.
fn interleave(s: &str, to: &str) -> (out: String)
    ensures
        out@ == to@ + interleaved(s@, to@),
{
    let src = chars_of(s);
    let mut out = to.to_owned();
    let mut i: usize = 0;
    assert(src@.subrange(0, src.len() as int) =~= src@);
    while i < src.len()
        invariant
            i <= src.len(),
            out@ + interleaved(src@.subrange(i as int, src.len() as int), to@) == to@ + interleaved(
                src@,
                to@,
            ),
        decreases src.len() - i,
    {
        let ghost rest = src@.subrange(i as int, src.len() as int);
        let ghost tail = src@.subrange(i + 1, src.len() as int);
        let ghost before = out@;
        assert(rest.subrange(1, rest.len() as int) =~= tail);
        out.push(src[i]);
        out.append(to);
        assert(before + (seq![rest[0]] + to@ + interleaved(tail, to@)) =~= out@ + interleaved(
            tail,
            to@,
        ));
        i += 1;
    }
    assert(src@.subrange(src.len() as int, src.len() as int) =~= Seq::empty());
    assert(out@ + Seq::<char>::empty() =~= out@);
    out
}

/// Replaces every occurrence of `from` in `s` by `to`, as `str::replace`
/// does.
pub fn replace(s: &str, from: &str, to: &str) -> (out: String)
    ensures
        out@ == replace_all(s@, from@, to@),
{
    if from.is_empty() {
        return interleave(s, to);
    }
    let src = chars_of(s);
    let pat = chars_of(from);
    let mut out = String::new();
    let mut i: usize = 0;
    assert(src@.subrange(0, src.len() as int) =~= src@);
    while i < src.len()
        invariant
            i <= src.len(),
            pat@ == from@,
            pat.len() > 0,
            out@ + replace_all(src@.subrange(i as int, src.len() as int), pat@, to@)
                == replace_all(src@, pat@, to@),
        decreases src.len() - i,
    {
        let ghost rest = src@.subrange(i as int, src.len() as int);
        if matches_at(&src, &pat, i) {
            assert(rest.subrange(0, pat.len() as int) =~= src@.subrange(
                i as int,
                i + pat.len(),
            ));
            assert(rest.subrange(pat.len() as int, rest.len() as int) =~= src@.subrange(
                i + pat.len(),
                src.len() as int,
            ));
            let ghost before = out@;
            out.append(to);
            assert(before + (to@ + replace_all(
                src@.subrange(i + pat.len(), src.len() as int),
                pat@,
                to@,
            )) =~= out@ + replace_all(
                src@.subrange(i + pat.len(), src.len() as int),
                pat@,
                to@,
            ));
            i += pat.len();
        } else {
            let ghost tail = src@.subrange(i + 1, src.len() as int);
            assert(rest.subrange(1, rest.len() as int) =~= tail);
            assert(rest.len() >= pat.len() ==> rest.subrange(0, pat.len() as int)
                =~= src@.subrange(i as int, i + pat.len()));
            assert(replace_all(rest, pat@, to@) =~= seq![rest[0]] + replace_all(tail, pat@, to@))
                by {
                if rest.len() < pat.len() {
                    assert(replace_all(tail, pat@, to@) == tail);
                    assert(rest =~= seq![rest[0]] + tail);
                }
            }
            let ghost before = out@;
            out.push(src[i]);
            assert(before + (seq![rest[0]] + replace_all(tail, pat@, to@)) =~= out@ + replace_all(
                tail,
                pat@,
                to@,
            ));
            i += 1;
        }
    }
    assert(src@.subrange(src.len() as int, src.len() as int) =~= Seq::empty());
    assert(out@ + Seq::<char>::empty() =~= out@);
    out
}

/// Whether the character `c` occurs nowhere in `s` from index `from` on.
pub open spec fn absent_from(s: Seq<char>, c: char, from: int) -> bool {
    forall|k: int| from <= k < s.len() ==> s[k] != c
}

/// Whether every occurrence of `p` in `s` has `q` directly before it.
pub open spec fn qualified(s: Seq<char>, p: Seq<char>, q: Seq<char>) -> bool {
    forall|i: int| has_at(s, p, i) ==> has_at(s, q, i - q.len())
}

/// Whether putting `q` before `p` can be told from the result: the first
/// character of `p` occurs nowhere else in `p` and nowhere in `q`, and the
/// first character of `q` occurs nowhere in `p`.
pub open spec fn distinct_heads(p: Seq<char>, q: Seq<char>) -> bool {
    &&& p.len() > 0
    &&& q.len() > 0
    &&& absent_from(p, p[0], 1)
    &&& absent_from(q, p[0], 0)
    &&& absent_from(p, q[0], 0)
}

/// `p` occurs in `s` at `i` exactly when the characters of `s` from `i` on
/// are those of `p`, one by one.
pub proof fn lemma_has_at_pointwise(s: Seq<char>, p: Seq<char>, i: int)
    ensures
        has_at(s, p, i) <==> (0 <= i && i + p.len() <= s.len() && forall|k: int|
            0 <= k < p.len() ==> s[i + k] == #[trigger] p[k]),
{
    if 0 <= i && i + p.len() <= s.len() {
        if has_at(s, p, i) {
            assert forall|k: int| 0 <= k < p.len() implies s[i + k] == #[trigger] p[k] by {
                assert(s.subrange(i, i + p.len())[k] == s[i + k]);
            }
        }
        if forall|k: int| 0 <= k < p.len() ==> s[i + k] == #[trigger] p[k] {
            assert(s.subrange(i, i + p.len()) =~= p);
        }
    }
}

/// A text without an occurrence of the pattern is left as it is.
pub proof fn lemma_replace_without_occurrence(s: Seq<char>, from: Seq<char>, to: Seq<char>)
    requires
        from.len() > 0,
        !occurs_in(s, from),
    ensures
        replace_all(s, from, to) == s,
    decreases s.len(),
{
    if s.len() >= from.len() {
        assert(!has_at(s, from, 0));
        let tail = s.subrange(1, s.len() as int);
        assert forall|i: int| !has_at(tail, from, i) by {
            if has_at(tail, from, i) {
                assert(tail.subrange(i, i + from.len()) =~= s.subrange(i + 1, i + 1 + from.len()));
                assert(has_at(s, from, i + 1));
            }
        }
        lemma_replace_without_occurrence(tail, from, to);
        assert(seq![s[0]] + tail =~= s);
    }
}

proof fn lemma_replace_qualifies_from(ctx: Seq<char>, t: Seq<char>, p: Seq<char>, q: Seq<char>)
    requires
        distinct_heads(p, q),
        forall|j: int| has_at(ctx + t, p, j) && j < ctx.len() ==> has_at(ctx + t, q, j - q.len()),
    ensures
        qualified(ctx + replace_all(t, p, q + p), p, q),
    decreases t.len(),
{
    let whole = ctx + t;
    if t.len() < p.len() {
        assert forall|j: int| has_at(whole, p, j) implies has_at(whole, q, j - q.len()) by {
            assert(j < ctx.len());
        }
    } else if t.subrange(0, p.len() as int) == p {
        let rest = t.subrange(p.len() as int, t.len() as int);
        let done = ctx + (q + p);
        let next = done + rest;
        assert(t =~= p + rest);
        assert forall|j: int| has_at(next, p, j) && j < done.len() implies has_at(
            next,
            q,
            j - q.len(),
        ) by {
            lemma_has_at_pointwise(next, p, j);
            lemma_has_at_pointwise(next, q, j - q.len());
            if j < ctx.len() {
                if j + p.len() <= ctx.len() {
                    lemma_has_at_pointwise(whole, p, j);
                    assert forall|k: int| 0 <= k < p.len() implies whole[j + k] == #[trigger] p[k] by {
                        assert(next[j + k] == p[k]);
                    }
                    assert(has_at(whole, p, j));
                    lemma_has_at_pointwise(whole, q, j - q.len());
                    assert forall|k: int| 0 <= k < q.len() implies next[j - q.len() + k]
                        == #[trigger] q[k] by {
                        assert(whole[j - q.len() + k] == q[k]);
                    }
                } else {
                    let m = ctx.len() - j;
                    assert(next[j + m] == p[m]);
                    assert(next[ctx.len() as int] == q[0]);
                    assert(false);
                }
            } else if j < ctx.len() + q.len() {
                assert(next[j + 0] == p[0]);
                assert(next[j] == q[j - ctx.len()]);
                assert(false);
            } else if j == ctx.len() + q.len() {
                assert forall|k: int| 0 <= k < q.len() implies next[j - q.len() + k]
                    == #[trigger] q[k] by {}
            } else {
                assert(next[j + 0] == p[0]);
                assert(next[j] == p[j - ctx.len() - q.len()]);
                assert(false);
            }
        }
        lemma_replace_qualifies_from(done, rest, p, q);
        assert(ctx + ((q + p) + replace_all(rest, p, q + p)) =~= done + replace_all(
            rest,
            p,
            q + p,
        ));
    } else {
        let rest = t.subrange(1, t.len() as int);
        let done = ctx.push(t[0]);
        assert(done + rest =~= whole);
        assert forall|j: int| has_at(whole, p, j) && j < done.len() implies has_at(
            whole,
            q,
            j - q.len(),
        ) by {
            if j == ctx.len() {
                assert(whole.subrange(j, j + p.len()) =~= t.subrange(0, p.len() as int));
                assert(false);
            }
        }
        lemma_replace_qualifies_from(done, rest, p, q);
        assert(ctx + (seq![t[0]] + replace_all(rest, p, q + p)) =~= done + replace_all(
            rest,
            p,
            q + p,
        ));
    }
}

/// After every `p` in a text got `q` put before it, every `p` in the text
/// has `q` before it: the replacing leaves no occurrence out and makes no
/// new one.
pub proof fn lemma_replace_qualifies(s: Seq<char>, p: Seq<char>, q: Seq<char>)
    requires
        distinct_heads(p, q),
    ensures
        qualified(replace_all(s, p, q + p), p, q),
{
    let ctx = Seq::<char>::empty();
    assert(ctx + s =~= s);
    lemma_replace_qualifies_from(ctx, s, p, q);
    assert(ctx + replace_all(s, p, q + p) =~= replace_all(s, p, q + p));
}

proof fn lemma_replace_keeps_qualified_from(
    ctx: Seq<char>,
    t: Seq<char>,
    p: Seq<char>,
    q: Seq<char>,
    w: Seq<char>,
)
    requires
        p.len() > 0,
        q.len() > 0,
        w.len() > 0,
        absent_from(w, q[0], 0),
        absent_from(q, w[0], 0),
        absent_from(q, p[0], 0),
        qualified(ctx + t, w, q),
    ensures
        qualified(ctx + replace_all(t, p, q + p), w, q),
    decreases t.len(),
{
    let whole = ctx + t;
    if t.len() < p.len() {
    } else if t.subrange(0, p.len() as int) == p {
        let rest = t.subrange(p.len() as int, t.len() as int);
        let done = ctx + (q + p);
        let next = done + rest;
        assert(t =~= p + rest);
        assert forall|j: int| has_at(next, w, j) implies has_at(next, q, j - q.len()) by {
            lemma_has_at_pointwise(next, w, j);
            lemma_has_at_pointwise(next, q, j - q.len());
            if j + w.len() <= ctx.len() {
                lemma_has_at_pointwise(whole, w, j);
                assert forall|k: int| 0 <= k < w.len() implies whole[j + k] == #[trigger] w[k] by {
                    assert(next[j + k] == w[k]);
                }
                assert(has_at(whole, w, j));
                lemma_has_at_pointwise(whole, q, j - q.len());
                assert forall|k: int| 0 <= k < q.len() implies next[j - q.len() + k]
                    == #[trigger] q[k] by {
                    assert(whole[j - q.len() + k] == q[k]);
                }
            } else if j < ctx.len() {
                let m = ctx.len() - j;
                assert(next[j + m] == w[m]);
                assert(next[ctx.len() as int] == q[0]);
                assert(false);
            } else if j < ctx.len() + q.len() {
                assert(next[j + 0] == w[0]);
                assert(next[j] == q[j - ctx.len()]);
                assert(false);
            } else {
                let back = j - q.len();
                lemma_has_at_pointwise(whole, w, back);
                assert forall|k: int| 0 <= k < w.len() implies whole[back + k] == #[trigger] w[k] by {
                    assert(next[j + k] == w[k]);
                    assert(next[j + k] == whole[back + k]);
                }
                assert(has_at(whole, w, back));
                lemma_has_at_pointwise(whole, q, back - q.len());
                if back == ctx.len() {
                    assert forall|k: int| 0 <= k < q.len() implies next[j - q.len() + k]
                        == #[trigger] q[k] by {}
                } else if back - q.len() >= ctx.len() {
                    assert forall|k: int| 0 <= k < q.len() implies next[j - q.len() + k]
                        == #[trigger] q[k] by {
                        assert(whole[back - q.len() + k] == q[k]);
                        assert(next[j - q.len() + k] == whole[back - q.len() + k]);
                    }
                } else {
                    let m = ctx.len() - (back - q.len());
                    assert(whole[back - q.len() + m] == q[m]);
                    assert(whole[ctx.len() as int] == p[0]);
                    assert(false);
                }
            }
        }
        lemma_replace_keeps_qualified_from(done, rest, p, q, w);
        assert(ctx + ((q + p) + replace_all(rest, p, q + p)) =~= done + replace_all(
            rest,
            p,
            q + p,
        ));
    } else {
        let rest = t.subrange(1, t.len() as int);
        let done = ctx.push(t[0]);
        assert(done + rest =~= whole);
        lemma_replace_keeps_qualified_from(done, rest, p, q, w);
        assert(ctx + (seq![t[0]] + replace_all(rest, p, q + p)) =~= done + replace_all(
            rest,
            p,
            q + p,
        ));
    }
}

/// Putting `q` before every `p` in a text leaves every `w` in the text
/// with `q` before it, if every `w` had `q` before it: where `q` shares no
/// first character with `w` or `p` and its first character is not in `w`.
pub proof fn lemma_replace_keeps_qualified(s: Seq<char>, p: Seq<char>, q: Seq<char>, w: Seq<char>)
    requires
        p.len() > 0,
        q.len() > 0,
        w.len() > 0,
        absent_from(w, q[0], 0),
        absent_from(q, w[0], 0),
        absent_from(q, p[0], 0),
        qualified(s, w, q),
    ensures
        qualified(replace_all(s, p, q + p), w, q),
{
    let ctx = Seq::<char>::empty();
    assert(ctx + s =~= s);
    lemma_replace_keeps_qualified_from(ctx, s, p, q, w);
    assert(ctx + replace_all(s, p, q + p) =~= replace_all(s, p, q + p));
}

/// Writing a text `h` before `s` keeps every `p` with `q` before it, where
/// the first character of `p` is not in `h`.
pub proof fn lemma_qualified_after_prefix(h: Seq<char>, s: Seq<char>, p: Seq<char>, q: Seq<char>)
    requires
        p.len() > 0,
        absent_from(h, p[0], 0),
        qualified(s, p, q),
    ensures
        qualified(h + s, p, q),
{
    let whole = h + s;
    assert forall|j: int| has_at(whole, p, j) implies has_at(whole, q, j - q.len()) by {
        lemma_has_at_pointwise(whole, p, j);
        if j < h.len() {
            assert(whole[j + 0] == p[0]);
            assert(false);
        } else {
            let back = j - h.len();
            assert(s.subrange(back, back + p.len()) =~= whole.subrange(j, j + p.len()));
            assert(has_at(s, p, back));
            assert(has_at(s, q, back - q.len()));
            assert(whole.subrange(j - q.len(), j) =~= s.subrange(back - q.len(), back));
        }
    }
}

/// Writing a character `c` after `s` keeps every `p` with `q` before it,
/// where `c` is not in `p`.
pub proof fn lemma_qualified_before_char(s: Seq<char>, c: char, p: Seq<char>, q: Seq<char>)
    requires
        p.len() > 0,
        absent_from(p, c, 0),
        qualified(s, p, q),
    ensures
        qualified(s.push(c), p, q),
{
    let whole = s.push(c);
    assert forall|j: int| has_at(whole, p, j) implies has_at(whole, q, j - q.len()) by {
        lemma_has_at_pointwise(whole, p, j);
        if j + p.len() <= s.len() {
            assert(s.subrange(j, j + p.len()) =~= whole.subrange(j, j + p.len()));
            assert(has_at(s, p, j));
            assert(has_at(s, q, j - q.len()));
            assert(whole.subrange(j - q.len(), j) =~= s.subrange(j - q.len(), j));
        } else {
            assert(whole[j + (p.len() - 1)] == p[p.len() - 1]);
            assert(false);
        }
    }
}

proof fn lemma_scan_after_dot(a: Seq<char>, b: Seq<char>)
    ensures
        segment_scan(a.push('.') + b) == (path_segments(a) + segment_scan(b).0, segment_scan(b).1),
    decreases b.len(),
{
    let whole = a.push('.') + b;
    if b.len() == 0 {
        assert(whole =~= a.push('.'));
        assert(whole.drop_last() =~= a);
        assert(path_segments(a) + Seq::<Seq<char>>::empty() =~= path_segments(a));
    } else {
        lemma_scan_after_dot(a, b.drop_last());
        assert(whole.drop_last() =~= a.push('.') + b.drop_last());
        let (closed, open) = segment_scan(b.drop_last());
        assert((path_segments(a) + closed).push(open) =~= path_segments(a) + closed.push(open));
    }
}

/// The segments of two paths written with a dot between them are the
/// segments of the first followed by those of the second.
pub proof fn lemma_segments_of_dotted(a: Seq<char>, b: Seq<char>)
    ensures
        path_segments(a.push('.') + b) == path_segments(a) + path_segments(b),
{
    lemma_scan_after_dot(a, b);
    let (closed, open) = segment_scan(b);
    assert((path_segments(a) + closed).push(open) =~= path_segments(a) + closed.push(open));
}

/// The empty path has no segments.
pub proof fn lemma_segments_of_empty()
    ensures
        path_segments(Seq::<char>::empty()).len() == 0,
{
}

} // verus!
