//! Character-level utilities shared by the tokenizer, the history store and
//! the builtin dispatch rules: conversion between strings and character
//! vectors, string equality, trimming, and splitting/joining of lines.
use vstd::prelude::*;
use vstd::string::StrSliceExecFns;

verus! {

/// The characters of a string slice, one `char` per element.
pub fn str_chars(s: &str) -> (r: Vec<char>)
    ensures
        r@ == s@,
{
    let n = s.unicode_len();
    let mut r: Vec<char> = Vec::new();
    let mut i: usize = 0;
    while i < n
        invariant
            n == s@.len(),
            i <= n,
            r@ =~= s@.subrange(0, i as int),
        decreases n - i,
    {
        r.push(s.get_char(i));
        i += 1;
    }
    proof {
        assert(r@ =~= s@);
    }
    r
}

/// Relies on `String`'s `FromIterator` implementation over `char`:
/// collecting characters yields the string of exactly those characters,
/// in order.
#[verifier::external_body]
pub(crate) fn chars_to_string(v: &[char]) -> (s: String)
    ensures
        s@ == v@,
{
    v.iter().collect()
}

/// Character-wise string equality.
pub fn str_eq(a: &str, b: &str) -> (r: bool)
    ensures
        r == (a@ == b@),
{
    let na = a.unicode_len();
    let nb = b.unicode_len();
    if na != nb {
        return false;
    }
    let mut i: usize = 0;
    while i < na
        invariant
            na == a@.len(),
            na == b@.len(),
            i <= na,
            forall|j: int| 0 <= j < i ==> a@[j] == b@[j],
        decreases na - i,
    {
        if a.get_char(i) != b.get_char(i) {
            return false;
        }
        i += 1;
    }
    proof {
        assert(a@ =~= b@);
    }
    true
}

/// A blank character: the token separators the shell recognizes.
pub open spec fn is_blank(c: char) -> bool {
    c == ' ' || c == '\t'
}

/// `s` with leading blanks removed.
pub open spec fn trim_front(s: Seq<char>) -> Seq<char>
    decreases s.len(),
{
    if s.len() > 0 && is_blank(s[0]) {
        trim_front(s.drop_first())
    } else {
        s
    }
}

/// `s` with trailing blanks removed.
pub open spec fn trim_back(s: Seq<char>) -> Seq<char>
    decreases s.len(),
{
    if s.len() > 0 && is_blank(s[s.len() - 1]) {
        trim_back(s.drop_last())
    } else {
        s
    }
}

/// `s` with leading and trailing blanks removed.
pub open spec fn spec_trim(s: Seq<char>) -> Seq<char> {
    trim_back(trim_front(s))
}

proof fn lemma_trim_front_subrange(s: Seq<char>, lo: int)
    requires
        0 <= lo < s.len(),
        is_blank(s[lo]),
        trim_front(s) == trim_front(s.subrange(lo, s.len() as int)),
    ensures
        trim_front(s) == trim_front(s.subrange(lo + 1, s.len() as int)),
{
    assert(s.subrange(lo, s.len() as int).drop_first() =~= s.subrange(lo + 1, s.len() as int));
}

proof fn lemma_trim_back_subrange(s: Seq<char>, lo: int, hi: int)
    requires
        0 <= lo < hi <= s.len(),
        is_blank(s[hi - 1]),
        trim_back(s.subrange(lo, s.len() as int)) == trim_back(s.subrange(lo, hi)),
    ensures
        trim_back(s.subrange(lo, s.len() as int)) == trim_back(s.subrange(lo, hi - 1)),
{
    assert(s.subrange(lo, hi).drop_last() =~= s.subrange(lo, hi - 1));
}

/// `line` with leading and trailing blanks removed.
pub fn trim(line: &str) -> (r: String)
    ensures
        r@ == spec_trim(line@),
{
    let cs = str_chars(line);
    let n = cs.len();
    proof {
        assert(line@.subrange(0, n as int) =~= line@);
    }
    let mut lo: usize = 0;
    while lo < n && (cs[lo] == ' ' || cs[lo] == '\t')
        invariant
            cs@ == line@,
            n == cs@.len(),
            lo <= n,
            trim_front(line@) == trim_front(line@.subrange(lo as int, n as int)),
        decreases n - lo,
    {
        proof {
            lemma_trim_front_subrange(line@, lo as int);
        }
        lo += 1;
    }
    proof {
        assert(trim_front(line@.subrange(lo as int, n as int)) == line@.subrange(
            lo as int,
            n as int,
        ));
    }
    let mut hi: usize = n;
    while hi > lo && (cs[hi - 1] == ' ' || cs[hi - 1] == '\t')
        invariant
            cs@ == line@,
            n == cs@.len(),
            lo <= hi <= n,
            trim_front(line@) == line@.subrange(lo as int, n as int),
            trim_back(line@.subrange(lo as int, n as int)) == trim_back(
                line@.subrange(lo as int, hi as int),
            ),
        decreases hi,
    {
        proof {
            lemma_trim_back_subrange(line@, lo as int, hi as int);
        }
        hi -= 1;
    }
    proof {
        assert(trim_back(line@.subrange(lo as int, hi as int)) == line@.subrange(
            lo as int,
            hi as int,
        ));
    }
    let mut out: Vec<char> = Vec::new();
    let mut i: usize = lo;
    while i < hi
        invariant
            cs@ == line@,
            lo <= i <= hi <= cs@.len(),
            out@ =~= line@.subrange(lo as int, i as int),
        decreases hi - i,
    {
        out.push(cs[i]);
        i += 1;
    }
    proof {
        assert(out@ =~= line@.subrange(lo as int, hi as int));
    }
    chars_to_string(out.as_slice())
}

/// `t` with one trailing carriage return removed, as a line split drops it.
pub open spec fn strip_cr(t: Seq<char>) -> Seq<char> {
    if t.len() > 0 && t[t.len() - 1] == '\r' {
        t.drop_last()
    } else {
        t
    }
}

/// The lines of `s` from position `i` on, given the characters of the
/// current unfinished line and the lines already complete: a line ends at
/// `'\n'` (dropping a `'\r'` just before it), and a last line without a
/// newline still counts.
pub open spec fn lines_from(s: Seq<char>, i: int, cur: Seq<char>, acc: Seq<Seq<char>>) -> Seq<
    Seq<char>,
>
    decreases s.len() - i,
{
    if i < 0 || i >= s.len() {
        if cur.len() == 0 {
            acc
        } else {
            acc.push(cur)
        }
    } else if s[i] == '\n' {
        lines_from(s, i + 1, Seq::empty(), acc.push(strip_cr(cur)))
    } else {
        lines_from(s, i + 1, cur.push(s[i]), acc)
    }
}

/// The lines of a history file's text.
pub open spec fn spec_lines(s: Seq<char>) -> Seq<Seq<char>> {
    lines_from(s, 0, Seq::empty(), Seq::empty())
}

/// The texts joined back into file form, each line newline-terminated.
pub open spec fn spec_unlines(ts: Seq<Seq<char>>) -> Seq<char>
    decreases ts.len(),
{
    if ts.len() == 0 {
        Seq::empty()
    } else {
        ts[0].push('\n') + spec_unlines(ts.drop_first())
    }
}

/// Split a file's text into lines.
pub fn split_lines(text: &str) -> (r: Vec<String>)
    ensures
        r.deep_view() == spec_lines(text@),
{
    let cs = str_chars(text);
    let n = cs.len();
    let mut cur: Vec<char> = Vec::new();
    let mut acc: Vec<String> = Vec::new();
    let mut i: usize = 0;
    proof {
        assert(acc.deep_view() =~= Seq::<Seq<char>>::empty());
    }
    while i < n
        invariant
            cs@ == text@,
            n == cs@.len(),
            i <= n,
            spec_lines(text@) == lines_from(text@, i as int, cur@, acc.deep_view()),
        decreases n - i,
    {
        let c = cs[i];
        if c == '\n' {
            if cur.len() > 0 && cur[cur.len() - 1] == '\r' {
                cur.pop();
            }
            let ghost old_acc = acc.deep_view();
            acc.push(chars_to_string(cur.as_slice()));
            proof {
                assert(acc.deep_view() =~= old_acc.push(cur@));
            }
            cur = Vec::new();
        } else {
            cur.push(c);
        }
        i += 1;
    }
    if cur.len() > 0 {
        let ghost old_acc = acc.deep_view();
        acc.push(chars_to_string(cur.as_slice()));
        proof {
            assert(acc.deep_view() =~= old_acc.push(cur@));
        }
    }
    acc
}

/// Join line texts into file form, one newline after each.
pub fn unlines(ts: &Vec<String>) -> (r: String)
    ensures
        r@ == spec_unlines(ts.deep_view()),
{
    let ghost tss = ts.deep_view();
    let mut out: Vec<char> = Vec::new();
    let mut i: usize = 0;
    proof {
        assert(tss.subrange(0, tss.len() as int) =~= tss);
    }
    while i < ts.len()
        invariant
            tss == ts.deep_view(),
            i <= tss.len(),
            out@ + spec_unlines(tss.subrange(i as int, tss.len() as int)) =~= spec_unlines(tss),
        decreases tss.len() - i,
    {
        let line = str_chars(ts[i].as_str());
        let ghost out0 = out@;
        let mut j: usize = 0;
        while j < line.len()
            invariant
                j <= line@.len(),
                out@ =~= out0 + line@.subrange(0, j as int),
            decreases line@.len() - j,
        {
            out.push(line[j]);
            j += 1;
        }
        out.push('\n');
        proof {
            assert(line@.subrange(0, line@.len() as int) =~= line@);
            assert(out@ =~= out0 + tss[i as int].push('\n'));
        }
        i += 1;
        proof {
            let tail = tss.subrange(i - 1, tss.len() as int);
            assert(tail.drop_first() =~= tss.subrange(i as int, tss.len() as int));
            assert(tail[0] == tss[i - 1]);
            assert(out0 + (tss[i - 1].push('\n') + spec_unlines(tail.drop_first()))
                =~= spec_unlines(tss));
            assert(out@ + spec_unlines(tss.subrange(i as int, tss.len() as int)) =~= spec_unlines(
                tss,
            ));
        }
    }
    proof {
        assert(tss.subrange(tss.len() as int, tss.len() as int) =~= Seq::<Seq<char>>::empty());
        assert(out@ =~= spec_unlines(tss));
    }
    chars_to_string(out.as_slice())
}

/// Splitting consumes the characters of a newline-free line into the
/// current accumulation unchanged.
proof fn lemma_lines_consume(s: Seq<char>, i: int, cur: Seq<char>, acc: Seq<Seq<char>>, t: Seq<char>)
    requires
        0 <= i,
        i + t.len() <= s.len(),
        s.subrange(i, i + t.len()) == t,
        forall|j: int| 0 <= j < t.len() ==> t[j] != '\n',
    ensures
        lines_from(s, i, cur, acc) == lines_from(s, i + t.len(), cur + t, acc),
    decreases t.len(),
{
    if t.len() == 0 {
        assert(cur + t =~= cur);
    } else {
        assert(s[i] == t[0]);
        assert(s.subrange(i + 1, i + 1 + (t.len() - 1)) =~= t.drop_first());
        lemma_lines_consume(s, i + 1, cur.push(t[0]), acc, t.drop_first());
        assert(cur.push(t[0]) + t.drop_first() =~= cur + t);
    }
}

/// Splitting the joined lines yields the lines back, one by one.
proof fn lemma_lines_unlines_from(s: Seq<char>, i: int, acc: Seq<Seq<char>>, ts: Seq<Seq<char>>)
    requires
        0 <= i <= s.len(),
        s.subrange(i, s.len() as int) == spec_unlines(ts),
        forall|k: int|
            0 <= k < ts.len() ==> !(#[trigger] ts[k]).contains('\n') && (ts[k].len() == 0
                || ts[k].last() != '\r'),
    ensures
        lines_from(s, i, Seq::empty(), acc) == acc + ts,
    decreases ts.len(),
{
    if ts.len() == 0 {
        assert(spec_unlines(ts).len() == 0);
        assert(i == s.len());
        assert(acc + ts =~= acc);
    } else {
        let t = ts[0];
        let rest = spec_unlines(ts.drop_first());
        assert(spec_unlines(ts) == t.push('\n') + rest);
        assert forall|j: int| 0 <= j < t.len() implies t[j] != '\n' by {
            if t[j] == '\n' {
                assert(t.contains('\n'));
            }
        }
        assert forall|j: int| 0 <= j < t.len() implies s[i + j] == t[j] by {
            assert(s[i + j] == s.subrange(i, s.len() as int)[j]);
            assert((t.push('\n') + rest)[j] == t[j]);
        }
        assert(s.subrange(i, i + t.len()) =~= t);
        lemma_lines_consume(s, i, Seq::empty(), acc, t);
        let i1 = i + t.len();
        assert(s[i1] == (t.push('\n') + rest)[t.len() as int]);
        assert(s[i1] == '\n');
        assert(Seq::empty() + t =~= t);
        assert(strip_cr(t) == t);
        assert(lines_from(s, i1, t, acc) == lines_from(s, i1 + 1, Seq::empty(), acc.push(t)));
        assert forall|j: int| 0 <= j < rest.len() implies s[i1 + 1 + j] == rest[j] by {
            assert(s[i1 + 1 + j] == s.subrange(i, s.len() as int)[t.len() + 1 + j]);
            assert((t.push('\n') + rest)[t.len() + 1 + j] == rest[j]);
        }
        assert(s.subrange(i1 + 1, s.len() as int) =~= rest);
        lemma_lines_unlines_from(s, i1 + 1, acc.push(t), ts.drop_first());
        assert(acc.push(t) + ts.drop_first() =~= acc + ts);
    }
}

/// Law: texts written out as newline-terminated lines and split back yield
/// the same texts — provided no text holds a newline of its own or ends in
/// a carriage return (which a split would strip).
pub proof fn lemma_lines_round_trip(ts: Seq<Seq<char>>)
    requires
        forall|k: int|
            0 <= k < ts.len() ==> !(#[trigger] ts[k]).contains('\n') && (ts[k].len() == 0
                || ts[k].last() != '\r'),
    ensures
        spec_lines(spec_unlines(ts)) == ts,
{
    let s = spec_unlines(ts);
    assert(s.subrange(0, s.len() as int) =~= s);
    lemma_lines_unlines_from(s, 0, Seq::empty(), ts);
    assert(Seq::<Seq<char>>::empty() + ts =~= ts);
}

/// The pieces of `s` from `i` on, split at `sep`, given the piece being
/// accumulated and the pieces already complete. Splitting the empty string
/// still yields one empty piece.
pub open spec fn split_from(s: Seq<char>, i: int, sep: char, cur: Seq<char>, acc: Seq<Seq<char>>) -> Seq<
    Seq<char>,
>
    decreases s.len() - i,
{
    if i < 0 || i >= s.len() {
        acc.push(cur)
    } else if s[i] == sep {
        split_from(s, i + 1, sep, Seq::empty(), acc.push(cur))
    } else {
        split_from(s, i + 1, sep, cur.push(s[i]), acc)
    }
}

/// The pieces of `s` split at `sep`.
pub open spec fn spec_split(s: Seq<char>, sep: char) -> Seq<Seq<char>> {
    split_from(s, 0, sep, Seq::empty(), Seq::empty())
}

/// Split `s` at every occurrence of `sep`; used for the `PATH` walk.
pub fn split_on(s: &str, sep: char) -> (r: Vec<String>)
    ensures
        r.deep_view() == spec_split(s@, sep),
{
    let cs = str_chars(s);
    let n = cs.len();
    let mut cur: Vec<char> = Vec::new();
    let mut acc: Vec<String> = Vec::new();
    let mut i: usize = 0;
    proof {
        assert(acc.deep_view() =~= Seq::<Seq<char>>::empty());
    }
    while i < n
        invariant
            cs@ == s@,
            n == cs@.len(),
            i <= n,
            spec_split(s@, sep) == split_from(s@, i as int, sep, cur@, acc.deep_view()),
        decreases n - i,
    {
        let c = cs[i];
        if c == sep {
            let ghost old_acc = acc.deep_view();
            acc.push(chars_to_string(cur.as_slice()));
            proof {
                assert(acc.deep_view() =~= old_acc.push(cur@));
            }
            cur = Vec::new();
        } else {
            cur.push(c);
        }
        i += 1;
    }
    let ghost old_acc = acc.deep_view();
    acc.push(chars_to_string(cur.as_slice()));
    proof {
        assert(acc.deep_view() =~= old_acc.push(cur@));
    }
    acc
}

} // verus!
