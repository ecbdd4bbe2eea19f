//! Character-level text processing with exact specifications: the
//! whitespace class of `char::is_whitespace`, trimming, splitting, line and
//! token splitting, and decimal rendering and parsing of unsigned integers.

use vstd::prelude::*;

verus! {

/// The Unicode `White_Space` property, which is what `char::is_whitespace` tests.
pub open spec fn is_ws(c: char) -> bool {
    ||| '\u{9}' <= c <= '\u{d}'
    ||| c == ' '
    ||| c == '\u{85}'
    ||| c == '\u{a0}'
    ||| c == '\u{1680}'
    ||| '\u{2000}' <= c <= '\u{200a}'
    ||| c == '\u{2028}'
    ||| c == '\u{2029}'
    ||| c == '\u{202f}'
    ||| c == '\u{205f}'
    ||| c == '\u{3000}'
}

/// Executable test of the whitespace class.
pub fn char_is_ws(c: char) -> (r: bool)
    ensures
        r == is_ws(c),
{
    ('\u{9}' <= c && c <= '\u{d}') || c == ' ' || c == '\u{85}' || c == '\u{a0}' || c == '\u{1680}'
        || ('\u{2000}' <= c && c <= '\u{200a}') || c == '\u{2028}' || c == '\u{2029}' || c
        == '\u{202f}' || c == '\u{205f}' || c == '\u{3000}'
}

/// The characters of a string slice, in order.
pub fn chars_of(s: &str) -> (v: Vec<char>)
    ensures
        v@ == s@,
{
    let mut v: Vec<char> = Vec::new();
    for c in it: s.chars()
        invariant
            v@ == it.seq().take(it.index() as int),
            it.seq() == s@,
    {
        v.push(c);
    }
    v
}


/// `s` with its leading whitespace removed (`str::trim_start`).
pub open spec fn trim_start(s: Seq<char>) -> Seq<char>
    decreases s.len(),
{
    if s.len() > 0 && is_ws(s[0]) {
        trim_start(s.drop_first())
    } else {
        s
    }
}

/// `s` with its trailing whitespace removed (`str::trim_end`).
pub open spec fn trim_end(s: Seq<char>) -> Seq<char>
    decreases s.len(),
{
    if s.len() > 0 && is_ws(s.last()) {
        trim_end(s.drop_last())
    } else {
        s
    }
}

/// `s` with leading and trailing whitespace removed (`str::trim`).
pub open spec fn trim(s: Seq<char>) -> Seq<char> {
    trim_end(trim_start(s))
}

/// The bounds `lo..hi` of the trimmed part of `s`.
pub fn trim_bounds(s: &[char]) -> (r: (usize, usize))
    ensures
        r.0 <= r.1 <= s@.len(),
        s@.subrange(r.0 as int, r.1 as int) == trim(s@),
{
    let len = s.len();
    let mut lo: usize = 0;
    assert(s@.subrange(0, len as int) == s@);
    while lo < len && char_is_ws(s[lo])
        invariant
            lo <= len == s@.len(),
            trim_start(s@) == trim_start(s@.subrange(lo as int, len as int)),
        decreases len - lo,
    {
        assert(s@.subrange(lo as int, len as int).drop_first() == s@.subrange(
            lo + 1,
            len as int,
        ));
        lo = lo + 1;
    }
    let ghost t = s@.subrange(lo as int, len as int);
    assert(trim_start(t) == t);
    let mut hi: usize = len;
    while hi > lo && char_is_ws(s[hi - 1])
        invariant
            lo <= hi <= len == s@.len(),
            t == s@.subrange(lo as int, len as int),
            trim_end(t) == trim_end(s@.subrange(lo as int, hi as int)),
        decreases hi,
    {
        assert(s@.subrange(lo as int, hi as int).drop_last() == s@.subrange(
            lo as int,
            hi - 1,
        ));
        hi = hi - 1;
    }
    (lo, hi)
}

/// `s` with leading and trailing whitespace removed.
pub fn trimmed(s: &[char]) -> (r: Vec<char>)
    ensures
        r@ == trim(s@),
{
    let (lo, hi) = trim_bounds(s);
    let mut r: Vec<char> = Vec::new();
    for i in lo..hi
        invariant
            lo <= hi <= s@.len(),
            r@ == s@.subrange(lo as int, i as int),
    {
        r.push(s[i]);
        assert(s@.subrange(lo as int, i + 1) == s@.subrange(lo as int, i as int).push(s@[i as int]));
    }
    r
}

/// The pieces of `s` between occurrences of `sep`, empty pieces included
/// (`str::split` with a `char` pattern). There is always at least one piece.
pub open spec fn split_on(s: Seq<char>, sep: char) -> Seq<Seq<char>>
    decreases s.len(),
{
    if s.len() == 0 {
        seq![Seq::<char>::empty()]
    } else {
        let r = split_on(s.drop_last(), sep);
        if s.last() == sep {
            r.push(Seq::<char>::empty())
        } else {
            r.update(r.len() - 1, r.last().push(s.last()))
        }
    }
}

/// There is always at least one piece.
pub proof fn lemma_split_on_nonempty(s: Seq<char>, sep: char)
    ensures
        split_on(s, sep).len() >= 1,
    decreases s.len(),
{
    if s.len() > 0 {
        lemma_split_on_nonempty(s.drop_last(), sep);
    }
}

/// Appending text without the separator extends the last piece only.
pub proof fn lemma_split_append_nosep(a: Seq<char>, b: Seq<char>, sep: char)
    requires
        forall|i: int| 0 <= i < b.len() ==> b[i] != sep,
    ensures
        split_on(a, sep).len() >= 1,
        split_on(a + b, sep) == split_on(a, sep).update(
            split_on(a, sep).len() - 1,
            split_on(a, sep).last() + b,
        ),
    decreases b.len(),
{
    lemma_split_on_nonempty(a, sep);
    if b.len() == 0 {
        assert(a + b == a);
        assert(split_on(a, sep).last() + b == split_on(a, sep).last());
        assert(split_on(a, sep).update(split_on(a, sep).len() - 1, split_on(a, sep).last())
            =~= split_on(a, sep));
    } else {
        let b0 = b.drop_last();
        lemma_split_append_nosep(a, b0, sep);
        assert((a + b).drop_last() == a + b0);
        assert((a + b).last() == b.last());
        let p = split_on(a, sep);
        let q = split_on(a + b0, sep);
        assert(q.len() == p.len());
        assert(split_on(a + b, sep) == q.update(q.len() - 1, q.last().push(b.last())));
        assert(q.last() == p.last() + b0);
        assert((p.last() + b0).push(b.last()) =~= p.last() + b);
        assert(split_on(a + b, sep) =~= p.update(p.len() - 1, p.last() + b));
    }
}

/// Text without whitespace is its own trimmed form.
pub proof fn lemma_trim_no_ws(s: Seq<char>)
    requires
        forall|i: int| 0 <= i < s.len() ==> !is_ws(s[i]),
    ensures
        trim(s) == s,
{
    if s.len() > 0 {
        assert(!is_ws(s[0]));
        assert(!is_ws(s.last()));
    }
}

/// Pieces put back together with `sep` between them.
pub open spec fn join_with(pieces: Seq<Seq<char>>, sep: char) -> Seq<char>
    decreases pieces.len(),
{
    if pieces.len() == 0 {
        Seq::<char>::empty()
    } else if pieces.len() == 1 {
        pieces[0]
    } else {
        join_with(pieces.drop_last(), sep).push(sep) + pieces.last()
    }
}

proof fn lemma_join_with_extend_last(p: Seq<Seq<char>>, y: Seq<char>, sep: char)
    requires
        p.len() >= 1,
    ensures
        join_with(p.update(p.len() - 1, p.last() + y), sep) == join_with(p, sep) + y,
{
    let q = p.update(p.len() - 1, p.last() + y);
    if p.len() == 1 {
        assert(q[0] == p[0] + y);
    } else {
        assert(q.drop_last() == p.drop_last());
        assert(q.last() == p.last() + y);
        let j = join_with(p.drop_last(), sep).push(sep);
        assert(join_with(q, sep) == j + (p.last() + y));
        assert(join_with(p, sep) == j + p.last());
        assert(j + (p.last() + y) =~= (j + p.last()) + y);
        assert(join_with(q, sep) =~= join_with(p, sep) + y);
    }
}

/// Splitting at a separator loses nothing and finds every separator: the
/// pieces hold no separator, and joined with it they give the text back.
pub proof fn law_split_rejoins(s: Seq<char>, sep: char)
    ensures
        join_with(split_on(s, sep), sep) == s,
        forall|k: int, i: int|
            0 <= k < split_on(s, sep).len() && 0 <= i < split_on(s, sep)[k].len() ==> #[trigger] split_on(
                s,
                sep,
            )[k][i] != sep,
    decreases s.len(),
{
    if s.len() > 0 {
        let prev = s.drop_last();
        law_split_rejoins(prev, sep);
        lemma_split_on_nonempty(prev, sep);
        let p = split_on(prev, sep);
        let c = s.last();
        if c == sep {
            let q = p.push(Seq::<char>::empty());
            assert(split_on(s, sep) == q);
            assert(q.drop_last() == p);
            assert(join_with(q, sep) =~= s);
            assert forall|k: int, i: int|
                0 <= k < q.len() && 0 <= i < q[k].len() implies #[trigger] q[k][i] != sep by {
                assert(k < p.len());
                assert(q[k] == p[k]);
            }
        } else {
            let q = p.update(p.len() - 1, p.last().push(c));
            assert(split_on(s, sep) == q);
            assert(p.last().push(c) == p.last() + seq![c]);
            lemma_join_with_extend_last(p, seq![c], sep);
            assert(join_with(q, sep) =~= s);
            assert forall|k: int, i: int|
                0 <= k < q.len() && 0 <= i < q[k].len() implies #[trigger] q[k][i] != sep by {
                if k < p.len() - 1 {
                    assert(q[k] == p[k]);
                } else if i < p.last().len() {
                    assert(q[k][i] == p[k][i]);
                }
            }
        }
    }
}

proof fn lemma_trim_start_shape(s: Seq<char>)
    ensures
        trim_start(s).len() <= s.len(),
        trim_start(s) == s.subrange(s.len() - trim_start(s).len(), s.len() as int),
        forall|i: int| 0 <= i < s.len() - trim_start(s).len() ==> is_ws(#[trigger] s[i]),
        trim_start(s).len() > 0 ==> !is_ws(trim_start(s)[0]),
    decreases s.len(),
{
    if s.len() > 0 && is_ws(s[0]) {
        let r = s.drop_first();
        lemma_trim_start_shape(r);
        assert forall|i: int| 0 <= i < s.len() - trim_start(s).len() implies is_ws(#[trigger] s[i]) by {
            if i > 0 {
                assert(s[i] == r[i - 1]);
            }
        }
        assert(r.subrange(r.len() - trim_start(r).len(), r.len() as int) =~= s.subrange(
            s.len() - trim_start(s).len(),
            s.len() as int,
        ));
    } else {
        assert(s.subrange(0, s.len() as int) =~= s);
    }
}

proof fn lemma_trim_end_shape(s: Seq<char>)
    ensures
        trim_end(s).len() <= s.len(),
        trim_end(s) == s.subrange(0, trim_end(s).len() as int),
        forall|i: int| trim_end(s).len() <= i < s.len() ==> is_ws(#[trigger] s[i]),
        trim_end(s).len() > 0 ==> !is_ws(trim_end(s).last()),
    decreases s.len(),
{
    if s.len() > 0 && is_ws(s.last()) {
        let r = s.drop_last();
        lemma_trim_end_shape(r);
        assert forall|i: int| trim_end(s).len() <= i < s.len() implies is_ws(#[trigger] s[i]) by {
            if i < s.len() - 1 {
                assert(s[i] == r[i]);
            }
        }
        assert(r.subrange(0, trim_end(r).len() as int) =~= s.subrange(0, trim_end(s).len() as int));
    } else {
        assert(s.subrange(0, s.len() as int) =~= s);
    }
}

/// Trimming removes exactly the whitespace at both ends: the result is a
/// stretch of the text, everything before and after it is whitespace, and it
/// neither begins nor ends with whitespace.
pub proof fn law_trim_removes_outer_whitespace(s: Seq<char>)
    ensures
        exists|lo: int|
            0 <= lo && lo + trim(s).len() <= s.len() && #[trigger] s.subrange(
                lo,
                lo + trim(s).len(),
            ) == trim(s) && (forall|i: int| 0 <= i < lo ==> is_ws(#[trigger] s[i])) && (forall|
                i: int,
            |
                lo + trim(s).len() <= i < s.len() ==> is_ws(#[trigger] s[i])),
        trim(s).len() > 0 ==> !is_ws(trim(s)[0]) && !is_ws(trim(s).last()),
{
    let a = trim_start(s);
    lemma_trim_start_shape(s);
    lemma_trim_end_shape(a);
    let t = trim(s);
    let lo = s.len() - a.len();
    assert(s.subrange(lo, lo + t.len()) =~= t) by {
        assert forall|i: int| 0 <= i < t.len() implies s.subrange(lo, lo + t.len())[i] == t[i] by {
            assert(t[i] == a[i]);
            assert(a[i] == s[lo + i]);
        }
    }
    assert forall|i: int| lo + t.len() <= i < s.len() implies is_ws(#[trigger] s[i]) by {
        assert(s[i] == a[i - lo]);
    }
    if t.len() > 0 {
        assert(t[0] == a[0]);
    }
}

/// The deep view of a vector of character vectors.
pub open spec fn seqs_of(v: Seq<Vec<char>>) -> Seq<Seq<char>> {
    v.map_values(|x: Vec<char>| x@)
}

/// Splits `s` at every `sep`.
pub fn split_chars(s: &[char], sep: char) -> (r: Vec<Vec<char>>)
    ensures
        seqs_of(r@) == split_on(s@, sep),
{
    let mut done: Vec<Vec<char>> = Vec::new();
    let mut cur: Vec<char> = Vec::new();
    let len = s.len();
    assert(s@.take(0) == Seq::<char>::empty());
    for i in 0..len
        invariant
            len == s@.len(),
            split_on(s@.take(i as int), sep) == seqs_of(done@).push(cur@),
    {
        let c = s[i];
        let ghost before = s@.take(i as int);
        assert(s@.take(i + 1).drop_last() == before);
        assert(s@.take(i + 1).last() == c);
        proof {
            lemma_split_on_nonempty(before, sep);
        }
        if c == sep {
            done.push(cur);
            cur = Vec::new();
            assert(seqs_of(done@) == seqs_of(done@).drop_last().push(done@.last()@));
        } else {
            cur.push(c);
        }
        assert(split_on(s@.take(i + 1), sep) == seqs_of(done@).push(cur@));
    }
    assert(s@.take(len as int) == s@);
    done.push(cur);
    assert(seqs_of(done@) == split_on(s@, sep));
    done
}


/// A line of `str::lines` that was ended by a line feed loses one carriage
/// return before it.
pub open spec fn strip_cr(p: Seq<char>) -> Seq<char> {
    if p.len() > 0 && p.last() == '\r' {
        p.drop_last()
    } else {
        p
    }
}

/// The lines of `s` as `str::lines` yields them: split at line feeds, a line
/// that was ended by `\n` loses a trailing `\r`, and a final empty piece (after
/// a final line feed, or of an empty text) is not a line.
pub open spec fn lines(s: Seq<char>) -> Seq<Seq<char>> {
    let parts = split_on(s, '\n');
    let n = parts.len();
    let body = parts.subrange(0, n - 1).map_values(|p: Seq<char>| strip_cr(p));
    if parts[n - 1].len() == 0 {
        body
    } else {
        body.push(parts[n - 1])
    }
}

/// The lines of `s`.
pub fn lines_of(s: &[char]) -> (r: Vec<Vec<char>>)
    ensures
        seqs_of(r@) == lines(s@),
{
    let mut done: Vec<Vec<char>> = Vec::new();
    let mut cur: Vec<char> = Vec::new();
    let len = s.len();
    assert(s@.take(0) == Seq::<char>::empty());
    for i in 0..len
        invariant
            len == s@.len(),
            split_on(s@.take(i as int), '\n').len() >= 1,
            seqs_of(done@) == split_on(s@.take(i as int), '\n').drop_last().map_values(
                |p: Seq<char>| strip_cr(p),
            ),
            cur@ == split_on(s@.take(i as int), '\n').last(),
    {
        let c = s[i];
        let ghost before = s@.take(i as int);
        let ghost pb = split_on(before, '\n');
        assert(s@.take(i + 1).drop_last() == before);
        assert(s@.take(i + 1).last() == c);
        let ghost pa = split_on(s@.take(i + 1), '\n');
        if c == '\n' {
            assert(pa == pb.push(Seq::<char>::empty()));
            let mut line = cur;
            if line.len() > 0 && line[line.len() - 1] == '\r' {
                line.pop();
            }
            assert(line@ == strip_cr(pb.last()));
            let ghost old_done = seqs_of(done@);
            done.push(line);
            assert(seqs_of(done@) =~= old_done.push(line@));
            assert(pb.map_values(|p: Seq<char>| strip_cr(p)) =~= pb.drop_last().map_values(
                |p: Seq<char>| strip_cr(p),
            ).push(strip_cr(pb.last())));
            cur = Vec::new();
            assert(pa.drop_last() == pb);
            assert(seqs_of(done@) =~= pa.drop_last().map_values(|p: Seq<char>| strip_cr(p)));
        } else {
            cur.push(c);
            assert(pa == pb.update(pb.len() - 1, pb.last().push(c)));
            assert(pa.drop_last() =~= pb.drop_last());
        }
    }
    assert(s@.take(len as int) == s@);
    let ghost parts = split_on(s@, '\n');
    assert(parts.subrange(0, parts.len() - 1) == parts.drop_last());
    if cur.len() > 0 {
        done.push(cur);
        assert(seqs_of(done@) =~= seqs_of(done@).drop_last().push(done@.last()@));
    }
    done
}

/// The whitespace-separated tokens of `s` (`str::split_whitespace`): maximal
/// runs of non-whitespace characters, in order.
pub open spec fn tokens(s: Seq<char>) -> Seq<Seq<char>>
    decreases s.len(),
{
    if s.len() == 0 {
        Seq::<Seq<char>>::empty()
    } else {
        let r = tokens(s.drop_last());
        let c = s.last();
        if is_ws(c) {
            r
        } else if s.len() >= 2 && !is_ws(s[s.len() - 2]) {
            r.update(r.len() - 1, r.last().push(c))
        } else {
            r.push(seq![c])
        }
    }
}

/// The characters of `s` that are not whitespace, in order.
pub open spec fn non_ws(s: Seq<char>) -> Seq<char>
    decreases s.len(),
{
    if s.len() == 0 {
        Seq::<char>::empty()
    } else if is_ws(s.last()) {
        non_ws(s.drop_last())
    } else {
        non_ws(s.drop_last()).push(s.last())
    }
}

/// Pieces put one after the other.
pub open spec fn concat_all(ts: Seq<Seq<char>>) -> Seq<char>
    decreases ts.len(),
{
    if ts.len() == 0 {
        Seq::<char>::empty()
    } else {
        concat_all(ts.drop_last()) + ts.last()
    }
}

/// How many positions of `s` begin a run of non-whitespace characters.
pub open spec fn run_starts(s: Seq<char>) -> nat
    decreases s.len(),
{
    if s.len() == 0 {
        0
    } else {
        run_starts(s.drop_last()) + (if !is_ws(s.last()) && (s.len() == 1 || is_ws(
            s[s.len() - 2],
        )) {
            1nat
        } else {
            0nat
        })
    }
}

/// Tokens are the maximal runs of non-whitespace: each is non-empty and holds
/// no whitespace, together they hold every non-whitespace character in order,
/// and there is one for each place where such a run begins.
pub proof fn law_tokens_are_runs(s: Seq<char>)
    ensures
        forall|k: int| 0 <= k < tokens(s).len() ==> (#[trigger] tokens(s)[k]).len() > 0,
        forall|k: int, i: int|
            0 <= k < tokens(s).len() && 0 <= i < tokens(s)[k].len() ==> !is_ws(
                #[trigger] tokens(s)[k][i],
            ),
        concat_all(tokens(s)) == non_ws(s),
        tokens(s).len() == run_starts(s),
        s.len() > 0 && !is_ws(s.last()) ==> tokens(s).len() > 0,
    decreases s.len(),
{
    if s.len() > 0 {
        let prev = s.drop_last();
        law_tokens_are_runs(prev);
        let r = tokens(prev);
        let c = s.last();
        if is_ws(c) {
        } else if s.len() >= 2 && !is_ws(s[s.len() - 2]) {
            assert(prev.last() == s[s.len() - 2]);
            assert(r.len() > 0);
            let q = r.update(r.len() - 1, r.last().push(c));
            assert(tokens(s) == q);
            assert(q.drop_last() == r.drop_last());
            assert(concat_all(q) =~= concat_all(r).push(c));
            assert forall|k: int, i: int| 0 <= k < q.len() && 0 <= i < q[k].len() implies !is_ws(
                #[trigger] q[k][i],
            ) by {
                if k < r.len() - 1 {
                    assert(q[k] == r[k]);
                } else if i < r.last().len() {
                    assert(q[k][i] == r[k][i]);
                }
            }
            assert forall|k: int| 0 <= k < q.len() implies (#[trigger] q[k]).len() > 0 by {
                if k < r.len() - 1 {
                    assert(q[k] == r[k]);
                }
            }
        } else {
            let q = r.push(seq![c]);
            assert(tokens(s) == q);
            assert(q.drop_last() == r);
            assert(concat_all(q) =~= concat_all(r).push(c));
            assert forall|k: int, i: int| 0 <= k < q.len() && 0 <= i < q[k].len() implies !is_ws(
                #[trigger] q[k][i],
            ) by {
                if k < r.len() {
                    assert(q[k] == r[k]);
                }
            }
            assert forall|k: int| 0 <= k < q.len() implies (#[trigger] q[k]).len() > 0 by {
                if k < r.len() {
                    assert(q[k] == r[k]);
                }
            }
        }
    }
}

/// The whitespace-separated tokens of `s`.
pub fn tokens_of(s: &[char]) -> (r: Vec<Vec<char>>)
    ensures
        seqs_of(r@) == tokens(s@),
{
    let mut done: Vec<Vec<char>> = Vec::new();
    let mut cur: Vec<char> = Vec::new();
    let len = s.len();
    assert(s@.take(0) == Seq::<char>::empty());
    for i in 0..len
        invariant
            len == s@.len(),
            cur@.len() > 0 <==> (i > 0 && !is_ws(s@[i - 1])),
            tokens(s@.take(i as int)) == (if cur@.len() > 0 {
                seqs_of(done@).push(cur@)
            } else {
                seqs_of(done@)
            }),
    {
        let c = s[i];
        let ghost before = s@.take(i as int);
        assert(s@.take(i + 1).drop_last() == before);
        assert(s@.take(i + 1).last() == c);
        if i > 0 {
            assert(s@.take(i + 1)[i - 1] == s@[i - 1]);
        }
        let ghost after = s@.take(i + 1);
        let ghost r = tokens(before);
        if char_is_ws(c) {
            assert(tokens(after) == r);
            if cur.len() > 0 {
                done.push(cur);
                cur = Vec::new();
                assert(seqs_of(done@) =~= seqs_of(done@).drop_last().push(done@.last()@));
            }
        } else {
            if i > 0 && !char_is_ws(s[i - 1]) {
                assert(after.len() >= 2 && after[after.len() - 2] == s@[i - 1]);
                assert(tokens(after) == r.update(r.len() - 1, r.last().push(c)));
                cur.push(c);
                assert(tokens(after) =~= seqs_of(done@).push(cur@));
            } else {
                assert(!(after.len() >= 2 && !is_ws(after[after.len() - 2])));
                assert(tokens(after) == r.push(seq![c]));
                cur.push(c);
                assert(cur@ =~= seq![c]);
            }
        }
        assert(tokens(s@.take(i + 1)) == (if cur@.len() > 0 {
            seqs_of(done@).push(cur@)
        } else {
            seqs_of(done@)
        }));
    }
    assert(s@.take(len as int) == s@);
    if cur.len() > 0 {
        done.push(cur);
        assert(seqs_of(done@) == seqs_of(done@).drop_last().push(done@.last()@));
    }
    done
}


/// An ASCII decimal digit.
pub open spec fn is_digit(c: char) -> bool {
    '0' <= c <= '9'
}

/// The value of an ASCII decimal digit.
pub open spec fn digit_value(c: char) -> nat {
    (c as int - '0' as int) as nat
}

/// Every character is an ASCII decimal digit.
pub open spec fn all_digits(d: Seq<char>) -> bool {
    forall|i: int| 0 <= i < d.len() ==> is_digit(#[trigger] d[i])
}

/// The number that a string of decimal digits denotes.
pub open spec fn digits_value(d: Seq<char>) -> nat
    decreases d.len(),
{
    if d.len() == 0 {
        0
    } else {
        digits_value(d.drop_last()) * 10 + digit_value(d.last())
    }
}

/// What follows an optional leading `+`.
pub open spec fn unsigned_digits(s: Seq<char>) -> Seq<char> {
    if s.len() > 0 && s[0] == '+' {
        s.drop_first()
    } else {
        s
    }
}

/// The number that `s` denotes as an unsigned decimal integer in the syntax
/// that `str::parse` accepts for unsigned integer types: an optional `+`,
/// then one or more ASCII digits, nothing else; `None` for any other text.
/// The bound of the target type is applied separately.
pub open spec fn parse_unsigned(s: Seq<char>) -> Option<nat> {
    let d = unsigned_digits(s);
    if d.len() > 0 && all_digits(d) {
        Some(digits_value(d))
    } else {
        None
    }
}

/// `str::parse::<T>` for an unsigned type whose largest value is `max`.
pub open spec fn parse_bounded(s: Seq<char>, max: nat) -> Option<nat> {
    match parse_unsigned(s) {
        Some(v) => if v <= max {
            Some(v)
        } else {
            None
        },
        None => None,
    }
}

/// A longer digit string is worth at least as much as its prefix.
proof fn lemma_digits_value_prefix(d: Seq<char>, k: int)
    requires
        0 <= k <= d.len(),
    ensures
        digits_value(d.take(k)) <= digits_value(d),
    decreases d.len() - k,
{
    if k < d.len() {
        lemma_digits_value_prefix(d, k + 1);
        assert(d.take(k + 1).drop_last() == d.take(k));
    } else {
        assert(d.take(k) == d);
    }
}

/// Parses `s` as `str::parse::<u64>` does.
pub fn parse_u64(s: &[char]) -> (r: Option<u64>)
    ensures
        match r {
            Some(v) => parse_bounded(s@, u64::MAX as nat) == Some(v as nat),
            None => parse_bounded(s@, u64::MAX as nat) is None,
        },
{
    let len = s.len();
    let start: usize = if len > 0 && s[0] == '+' {
        1
    } else {
        0
    };
    let ghost d = unsigned_digits(s@);
    assert(d == s@.subrange(start as int, len as int));
    if start == len {
        return None;
    }
    let mut acc: u64 = 0;
    let mut i: usize = start;
    assert(d.take(0) == Seq::<char>::empty());
    while i < len
        invariant
            start <= i <= len == s@.len(),
            d == unsigned_digits(s@),
            d == s@.subrange(start as int, len as int),
            all_digits(d.take(i - start)),
            acc as nat == digits_value(d.take(i - start)),
        decreases len - i,
    {
        let c = s[i];
        assert(d[i - start] == c);
        if !('0' <= c && c <= '9') {
            assert(!is_digit(d[i - start]));
            assert(!all_digits(d));
            assert(parse_unsigned(s@) is None);
            return None;
        }
        let digit = (c as u32 - '0' as u32) as u64;
        assert(d.take(i - start + 1).drop_last() == d.take(i - start));
        assert(d.take(i - start + 1).last() == c);
        let next = match acc.checked_mul(10) {
            Some(m) => m.checked_add(digit),
            None => None,
        };
        match next {
            Some(v) => {
                acc = v;
            },
            None => {
                proof {
                    assert(digits_value(d.take(i - start + 1)) == acc * 10 + digit);
                    if all_digits(d) {
                        lemma_digits_value_prefix(d, i - start + 1);
                        assert(digits_value(d) > u64::MAX);
                    }
                    assert(parse_bounded(s@, u64::MAX as nat) is None);
                }
                return None;
            },
        }
        i = i + 1;
    }
    assert(d.take(i - start) == d);
    Some(acc)
}

/// Parses `s` as `str::parse::<usize>` does.
pub fn parse_usize(s: &[char]) -> (r: Option<usize>)
    ensures
        match r {
            Some(v) => parse_bounded(s@, usize::MAX as nat) == Some(v as nat),
            None => parse_bounded(s@, usize::MAX as nat) is None,
        },
{
    match parse_u64(s) {
        Some(v) => if v as u128 <= usize::MAX as u128 {
            Some(v as usize)
        } else {
            None
        },
        None => None,
    }
}

/// The decimal digit character for `d < 10`.
pub open spec fn digit_char(d: nat) -> char {
    seq!['0', '1', '2', '3', '4', '5', '6', '7', '8', '9'][d as int]
}

/// The decimal rendering of `n` (what `Display` prints for an unsigned integer).
pub open spec fn decimal(n: nat) -> Seq<char>
    decreases n,
{
    if n < 10 {
        seq![digit_char(n)]
    } else {
        decimal(n / 10).push(digit_char(n % 10))
    }
}

/// `String::push`. Claimed, as its documentation says: the string afterwards
/// is the string before with `c` appended.
#[verifier::external_body]
fn string_push(s: &mut String, c: char)
    ensures
        final(s)@ == old(s)@.push(c),
{
    s.push(c);
}

fn digit_char_exec(d: u64) -> (c: char)
    requires
        d < 10,
    ensures
        c == digit_char(d as nat),
{
    if d == 0 {
        '0'
    } else if d == 1 {
        '1'
    } else if d == 2 {
        '2'
    } else if d == 3 {
        '3'
    } else if d == 4 {
        '4'
    } else if d == 5 {
        '5'
    } else if d == 6 {
        '6'
    } else if d == 7 {
        '7'
    } else if d == 8 {
        '8'
    } else {
        '9'
    }
}

/// Appends the decimal rendering of `n` to `out`.
pub fn push_decimal(out: &mut String, n: u64)
    ensures
        final(out)@ == old(out)@ + decimal(n as nat),
    decreases n,
{
    if n >= 10 {
        push_decimal(out, n / 10);
    }
    string_push(out, digit_char_exec(n % 10));
    assert(old(out)@ + decimal(n as nat) =~= final(out)@) by {
        if n >= 10 {
            assert(decimal(n as nat) == decimal((n / 10) as nat).push(digit_char((n % 10) as nat)));
        }
    }
}

/// A string made of the characters `cs`.
pub fn string_of(cs: &[char]) -> (r: String)
    ensures
        r@ == cs@,
{
    let mut r = String::new();
    for i in 0..cs.len()
        invariant
            r@ == cs@.take(i as int),
    {
        string_push(&mut r, cs[i]);
        assert(cs@.take(i + 1) == cs@.take(i as int).push(cs@[i as int]));
    }
    assert(cs@.take(cs@.len() as int) == cs@);
    r
}

/// Every decimal rendering reads back as the number it renders.
pub proof fn lemma_decimal_parses(n: nat)
    ensures
        decimal(n).len() > 0,
        all_digits(decimal(n)),
        digits_value(decimal(n)) == n,
        parse_unsigned(decimal(n)) == Some(n),
    decreases n,
{
    let ds = seq!['0', '1', '2', '3', '4', '5', '6', '7', '8', '9'];
    assert(forall|d: nat|
        d < 10 ==> is_digit(#[trigger] digit_char(d)) && digit_value(digit_char(d)) == d) by {
        assert(ds[0] == '0' && ds[1] == '1' && ds[2] == '2' && ds[3] == '3' && ds[4] == '4');
        assert(ds[5] == '5' && ds[6] == '6' && ds[7] == '7' && ds[8] == '8' && ds[9] == '9');
    }
    if n >= 10 {
        lemma_decimal_parses(n / 10);
        let d = decimal(n);
        assert(d.drop_last() == decimal(n / 10));
        assert(d.last() == digit_char(n % 10));
        assert(digit_value(digit_char(n % 10)) == n % 10);
        assert(digits_value(d) == digits_value(decimal(n / 10)) * 10 + n % 10);
        vstd::arithmetic::div_mod::lemma_fundamental_div_mod(n as int, 10);
        assert(digits_value(d) == n);
        assert(all_digits(d)) by {
            assert forall|i: int| 0 <= i < d.len() implies is_digit(#[trigger] d[i]) by {
                if i < d.len() - 1 {
                    assert(d[i] == decimal(n / 10)[i]);
                }
            }
        }
    } else {
        assert(decimal(n).drop_last() =~= Seq::<char>::empty());
        assert(digit_value(digit_char(n)) == n);
        assert(decimal(n).last() == digit_char(n));
        assert(digits_value(Seq::<char>::empty()) == 0);
        assert(digits_value(decimal(n)) == n);
    }
    assert(decimal(n)[0] != '+');
}

} // verus!
