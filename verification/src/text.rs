//! Literal substitution on text.
//!
//! Text is modelled as a sequence of characters. The one operation that the
//! resolver needs is to replace every occurrence of a needle by another text,
//! scanning from the left and never looking at an occurrence twice.

use vstd::prelude::*;

verus! {

/// `needle` stands in `text` at position `at`.
pub open spec fn occurs_at(text: Seq<char>, needle: Seq<char>, at: int) -> bool {
    &&& 0 <= at
    &&& at + needle.len() <= text.len()
    &&& text.subrange(at, at + needle.len()) == needle
}

/// `needle` stands somewhere in `text`.
pub open spec fn occurs_in(text: Seq<char>, needle: Seq<char>) -> bool {
    exists|at: int| occurs_at(text, needle, at)
}

/// `text` with every occurrence of `from` replaced by `to`.
///
/// Occurrences are taken from the left and do not overlap: after one is
/// replaced, the scan goes on behind it. An empty `from` occurs before every
/// character and at the end of the text.
pub open spec fn replace_all(text: Seq<char>, from: Seq<char>, to: Seq<char>) -> Seq<char>
    decreases text.len(),
{
    if occurs_at(text, from, 0) {
        if from.len() == 0 {
            if text.len() == 0 {
                to
            } else {
                to.push(text[0]) + replace_all(text.skip(1), from, to)
            }
        } else {
            to + replace_all(text.skip(from.len() as int), from, to)
        }
    } else if text.len() == 0 {
        text
    } else {
        seq![text[0]] + replace_all(text.skip(1), from, to)
    }
}

/// An occurrence in a suffix is an occurrence in the whole text, further right.
pub proof fn lemma_occurs_at_skip(text: Seq<char>, needle: Seq<char>, start: int, at: int)
    requires
        0 <= start <= text.len(),
    ensures
        occurs_at(text.skip(start), needle, at) <==> (0 <= at && occurs_at(
            text,
            needle,
            start + at,
        )),
{
    if 0 <= at && start + at + needle.len() <= text.len() {
        assert(text.skip(start).subrange(at, at + needle.len()) =~= text.subrange(
            start + at,
            start + at + needle.len(),
        ));
    }
}

/// Replacing by something no longer than the needle does not lengthen the text.
pub proof fn lemma_replace_all_no_longer(text: Seq<char>, from: Seq<char>, to: Seq<char>)
    requires
        to.len() <= from.len(),
    ensures
        replace_all(text, from, to).len() <= text.len(),
    decreases text.len(),
{
    if occurs_at(text, from, 0) {
        if from.len() == 0 {
            if text.len() > 0 {
                lemma_replace_all_no_longer(text.skip(1), from, to);
            }
        } else {
            lemma_replace_all_no_longer(text.skip(from.len() as int), from, to);
        }
    } else if text.len() > 0 {
        lemma_replace_all_no_longer(text.skip(1), from, to);
    }
}

/// Replacing a needle that occurs by something shorter shortens the text.
pub proof fn lemma_replace_all_shorter(text: Seq<char>, from: Seq<char>, to: Seq<char>)
    requires
        to.len() < from.len(),
        occurs_in(text, from),
    ensures
        replace_all(text, from, to).len() < text.len(),
    decreases text.len(),
{
    if occurs_at(text, from, 0) {
        lemma_replace_all_no_longer(text.skip(from.len() as int), from, to);
    } else {
        let at = choose|at: int| occurs_at(text, from, at);
        assert(at >= 1);
        lemma_occurs_at_skip(text, from, 1, at - 1);
        assert(occurs_at(text.skip(1), from, at - 1));
        lemma_replace_all_shorter(text.skip(1), from, to);
    }
}

/// Whether two texts are the same.
pub fn same_text(a: &str, b: &str) -> (same: bool)
    ensures
        same == (a@ == b@),
{
    a.to_owned() == b.to_owned()
}

/// The characters of a string, one by one.
pub fn to_chars(s: &str) -> (v: Vec<char>)
    ensures
        v@ == s@,
{
    let mut v: Vec<char> = Vec::new();
    for c in it: s.chars()
        invariant
            v@ == it.seq().take(it.index() as int),
            it.seq() == s@,
    {
        v.push(c);
    }
    v
}

/// Calls `String::push`, which appends one character to the string.
#[verifier::external_body]
fn push_char(s: &mut String, c: char)
    ensures
        final(s)@ == old(s)@.push(c),
{
    s.push(c)
}

/// The string that holds the characters of `v`, from position `start` on.
fn from_chars(v: &Vec<char>, start: usize) -> (s: String)
    requires
        start <= v.len(),
    ensures
        s@ == v@.skip(start as int),
{
    let mut s = String::new();
    let mut i: usize = start;
    while i < v.len()
        invariant
            start <= i <= v.len(),
            s@ == v@.subrange(start as int, i as int),
        decreases v.len() - i,
    {
        push_char(&mut s, v[i]);
        i += 1;
        proof {
            assert(s@ =~= v@.subrange(start as int, i as int));
        }
    }
    proof {
        assert(s@ =~= v@.skip(start as int));
    }
    s
}

/// Whether `needle` stands in `text` at position `at`.
fn stands_at(text: &Vec<char>, needle: &Vec<char>, at: usize) -> (b: bool)
    requires
        at <= text.len(),
    ensures
        b == occurs_at(text@, needle@, at as int),
{
    if needle.len() > text.len() - at {
        return false;
    }
    let mut k: usize = 0;
    while k < needle.len()
        invariant
            at + needle.len() <= text.len(),
            k <= needle.len(),
            forall|j: int| 0 <= j < k ==> text@[at + j] == needle@[j],
        decreases needle.len() - k,
    {
        if text[at + k] != needle[k] {
            proof {
                let part = text@.subrange(at as int, at + needle.len());
                assert(part[k as int] == text@[at + k]);
            }
            return false;
        }
        k += 1;
    }
    proof {
        assert(text@.subrange(at as int, at + needle.len()) =~= needle@);
    }
    true
}

/// Appends the characters of `more` to `out`.
fn append_chars(out: &mut Vec<char>, more: &Vec<char>)
    ensures
        final(out)@ == old(out)@ + more@,
{
    let ghost before = out@;
    let mut k: usize = 0;
    proof {
        assert(out@ =~= before + more@.take(0));
    }
    while k < more.len()
        invariant
            k <= more.len(),
            out@ == before + more@.take(k as int),
        decreases more.len() - k,
    {
        out.push(more[k]);
        k += 1;
        proof {
            assert(more@.take(k as int) =~= more@.take(k - 1).push(more@[k - 1]));
            assert(out@ =~= before + more@.take(k as int));
        }
    }
    proof {
        assert(more@.take(more@.len() as int) =~= more@);
    }
}

/// `replace_all` on vectors of characters.
fn replace_chars(text: &Vec<char>, from: &Vec<char>, to: &Vec<char>) -> (out: Vec<char>)
    ensures
        out@ == replace_all(text@, from@, to@),
{
    let mut out: Vec<char> = Vec::new();
    let mut i: usize = 0;
    proof {
        assert(text@.skip(0) =~= text@);
        assert(out@ + replace_all(text@, from@, to@) =~= replace_all(text@, from@, to@));
    }
    while i < text.len()
        invariant
            i <= text.len(),
            out@ + replace_all(text@.skip(i as int), from@, to@) == replace_all(
                text@,
                from@,
                to@,
            ),
        decreases text.len() - i,
    {
        let ghost rest = text@.skip(i as int);
        let ghost done = out@;
        proof {
            lemma_occurs_at_skip(text@, from@, i as int, 0);
            assert(rest[0] == text@[i as int]);
        }
        if stands_at(text, from, i) {
            append_chars(&mut out, to);
            if from.len() == 0 {
                out.push(text[i]);
                i += 1;
                proof {
                    assert(rest.skip(1) =~= text@.skip(i as int));
                    assert(out@ + replace_all(text@.skip(i as int), from@, to@) =~= done + (
                    to@.push(rest[0]) + replace_all(rest.skip(1), from@, to@)));
                }
            } else {
                i += from.len();
                proof {
                    assert(rest.skip(from@.len() as int) =~= text@.skip(i as int));
                    assert(out@ + replace_all(text@.skip(i as int), from@, to@) =~= done + (to@
                        + replace_all(rest.skip(from@.len() as int), from@, to@)));
                }
            }
        } else {
            out.push(text[i]);
            i += 1;
            proof {
                assert(rest.skip(1) =~= text@.skip(i as int));
                assert(out@ + replace_all(text@.skip(i as int), from@, to@) =~= done + (
                seq![rest[0]] + replace_all(rest.skip(1), from@, to@)));
            }
        }
    }
    let ghost done = out@;
    proof {
        assert(text@.skip(i as int) =~= Seq::<char>::empty());
        assert(occurs_at(Seq::<char>::empty(), from@, 0) <==> from@.len() == 0) by {
            if from@.len() == 0 {
                assert(Seq::<char>::empty().subrange(0, 0) =~= from@);
            }
        }
    }
    if from.len() == 0 {
        append_chars(&mut out, to);
    } else {
        proof {
            assert(done + Seq::<char>::empty() =~= done);
        }
    }
    out
}

/// Replaces every occurrence of `from` in `text` by `to`.
pub fn substitute(text: &str, from: &str, to: &str) -> (r: String)
    ensures
        r@ == replace_all(text@, from@, to@),
{
    let out = replace_chars(&to_chars(text), &to_chars(from), &to_chars(to));
    let r = from_chars(&out, 0);
    proof {
        assert(out@.skip(0) =~= out@);
    }
    r
}

/// `text` without `prefix` at its start; `text` itself where it does not
/// start with `prefix`.
pub open spec fn without_prefix(text: Seq<char>, prefix: Seq<char>) -> Seq<char> {
    if occurs_at(text, prefix, 0) {
        text.skip(prefix.len() as int)
    } else {
        text
    }
}

/// Takes `prefix` off the start of `text`, where `text` starts with it.
pub fn strip_prefix(text: &str, prefix: &str) -> (r: String)
    ensures
        r@ == without_prefix(text@, prefix@),
{
    let chars = to_chars(text);
    let marker = to_chars(prefix);
    if stands_at(&chars, &marker, 0) {
        from_chars(&chars, marker.len())
    } else {
        text.to_owned()
    }
}

} // verus!
