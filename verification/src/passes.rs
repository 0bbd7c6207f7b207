//! One pass of the resolver, as functions of plain values.
//!
//! A pass scans the text once, resolves every placeholder that is not
//! escaped, and substitutes the resolved values into the text. The values
//! come from commands; here they are arguments, so that what a pass makes
//! of them is stated exactly.

use crate::matcher::{Placeholder, PlaceholderMatch};
use crate::text::{
    lemma_replace_all_no_longer, lemma_replace_all_shorter, occurs_in, replace_all, strip_prefix,
    substitute, without_prefix,
};
use vstd::prelude::*;

verus! {

/// Every placeholder of `found` is escaped: a pass over them resolves nothing.
pub open spec fn exclusion_only(found: Seq<Placeholder>) -> bool {
    forall|i: int| 0 <= i < found.len() ==> (#[trigger] found[i]).escaped()
}

/// The text after one pass: for each placeholder of `found` that is not
/// escaped, in their order, every occurrence of its full text in the working
/// text is replaced by its value. Escaped placeholders are left as they are.
///
/// The substitution is literal and goes over the whole working text, so the
/// first of two equal placeholders replaces both.
pub open spec fn pass_text(text: Seq<char>, found: Seq<Placeholder>, values: Seq<Seq<char>>) -> Seq<
    char,
>
    decreases found.len(),
{
    if found.len() == 0 {
        text
    } else {
        let before = pass_text(text, found.drop_last(), values.drop_last());
        if found.last().escaped() {
            before
        } else {
            replace_all(before, found.last().full_text, values.last())
        }
    }
}

/// An escaped placeholder without its escape marker.
pub open spec fn unmarked(p: Placeholder) -> Seq<char> {
    match p.exclude {
        Some(marker) => without_prefix(p.full_text, marker),
        None => p.full_text,
    }
}

/// The text after the final pass: every occurrence of an escaped placeholder
/// of `found` is replaced by the placeholder without its marker. Placeholders
/// that are not escaped are left as they are.
pub open spec fn unescaped_text(text: Seq<char>, found: Seq<Placeholder>) -> Seq<char>
    decreases found.len(),
{
    if found.len() == 0 {
        text
    } else {
        let before = unescaped_text(text, found.drop_last());
        if found.last().escaped() {
            replace_all(before, found.last().full_text, unmarked(found.last()))
        } else {
            before
        }
    }
}

/// Every value is shorter than the placeholder it stands for.
pub open spec fn values_shorter(found: Seq<Placeholder>, values: Seq<Seq<char>>) -> bool {
    forall|i: int|
        0 <= i < found.len() && !(#[trigger] found[i]).escaped() ==> values[i].len()
            < found[i].full_text.len()
}

/// A pass over escaped placeholders only leaves the text as it is.
pub proof fn lemma_pass_exclusion_only(
    text: Seq<char>,
    found: Seq<Placeholder>,
    values: Seq<Seq<char>>,
)
    requires
        exclusion_only(found),
    ensures
        pass_text(text, found, values) == text,
    decreases found.len(),
{
    if found.len() > 0 {
        assert(found.last().escaped());
        assert forall|i: int| 0 <= i < found.drop_last().len() implies (
        #[trigger] found.drop_last()[i]).escaped() by {
            assert(found.drop_last()[i] == found[i]);
        }
        lemma_pass_exclusion_only(text, found.drop_last(), values.drop_last());
    }
}

/// A pass shortens the text where it resolves a placeholder at all, every
/// placeholder stands in the text, and every value is shorter than the
/// placeholder it stands for.
pub proof fn lemma_pass_shorter(text: Seq<char>, found: Seq<Placeholder>, values: Seq<Seq<char>>)
    requires
        values.len() == found.len(),
        values_shorter(found, values),
        !exclusion_only(found),
        forall|i: int| 0 <= i < found.len() ==> occurs_in(text, (#[trigger] found[i]).full_text),
    ensures
        pass_text(text, found, values).len() < text.len(),
    decreases found.len(),
{
    assert(found.len() > 0);
    let n = found.len() - 1;
    let head = found.drop_last();
    let before = pass_text(text, head, values.drop_last());
    assert forall|i: int| 0 <= i < head.len() implies (#[trigger] head[i]) == found[i] by {}
    assert forall|i: int| 0 <= i < head.len() && !(#[trigger] head[i]).escaped() implies values.drop_last()[i].len()
        < head[i].full_text.len() by {
        assert(head[i] == found[i]);
    }
    assert(found[n] == found.last());
    if exclusion_only(head) {
        // The last placeholder is the first to be resolved: it works on the
        // text as it was scanned.
        lemma_pass_exclusion_only(text, head, values.drop_last());
        assert(!found.last().escaped()) by {
            if found.last().escaped() {
                assert forall|i: int| 0 <= i < found.len() implies (#[trigger] found[i]).escaped() by {
                    if i < n {
                        assert(head[i] == found[i]);
                    }
                }
            }
        }
        assert(values[n].len() < found[n].full_text.len());
        lemma_replace_all_shorter(text, found.last().full_text, values.last());
    } else {
        assert forall|i: int| 0 <= i < head.len() implies occurs_in(
            text,
            (#[trigger] head[i]).full_text,
        ) by {
            assert(head[i] == found[i]);
        }
        lemma_pass_shorter(text, head, values.drop_last());
        if !found.last().escaped() {
            assert(values[n].len() < found[n].full_text.len());
            lemma_replace_all_no_longer(before, found.last().full_text, values.last());
        }
    }
}

/// Whether every placeholder of `found` is escaped.
pub fn is_exclusion_only(found: &Vec<PlaceholderMatch>) -> (b: bool)
    ensures
        b == exclusion_only(found.deep_view()),
{
    let mut i: usize = 0;
    while i < found.len()
        invariant
            i <= found.len(),
            forall|k: int| 0 <= k < i ==> (#[trigger] found.deep_view()[k]).escaped(),
        decreases found.len() - i,
    {
        if !found[i].is_escaped() {
            proof {
                assert(found.deep_view()[i as int] == found[i as int]@);
            }
            return false;
        }
        proof {
            assert(found.deep_view()[i as int] == found[i as int]@);
        }
        i += 1;
    }
    true
}

/// Substitutes the values of one pass into the text. `values` holds one
/// value for each placeholder of `found`; that of an escaped placeholder is
/// not looked at.
pub fn apply_values(text: &str, found: &Vec<PlaceholderMatch>, values: &Vec<String>) -> (r: String)
    requires
        values.len() == found.len(),
    ensures
        r@ == pass_text(text@, found.deep_view(), values.deep_view()),
{
    let mut working = text.to_owned();
    let mut i: usize = 0;
    while i < found.len()
        invariant
            i <= found.len(),
            values.len() == found.len(),
            working@ == pass_text(
                text@,
                found.deep_view().take(i as int),
                values.deep_view().take(i as int),
            ),
        decreases found.len() - i,
    {
        proof {
            let f = found.deep_view().take(i + 1);
            let v = values.deep_view().take(i + 1);
            assert(f.drop_last() =~= found.deep_view().take(i as int));
            assert(v.drop_last() =~= values.deep_view().take(i as int));
            assert(f.last() == found[i as int]@);
            assert(v.last() == values[i as int]@);
        }
        if !found[i].is_escaped() {
            working = substitute(working.as_str(), found[i].full_text.as_str(), values[i].as_str());
        }
        i += 1;
    }
    proof {
        assert(found.deep_view().take(i as int) =~= found.deep_view());
        assert(values.deep_view().take(i as int) =~= values.deep_view());
    }
    working
}

/// Takes the escape marker off every escaped placeholder of `found` that
/// stands in the text.
pub fn strip_exclusions(text: &str, found: &Vec<PlaceholderMatch>) -> (r: String)
    ensures
        r@ == unescaped_text(text@, found.deep_view()),
{
    let mut working = text.to_owned();
    let mut i: usize = 0;
    while i < found.len()
        invariant
            i <= found.len(),
            working@ == unescaped_text(text@, found.deep_view().take(i as int)),
        decreases found.len() - i,
    {
        proof {
            let f = found.deep_view().take(i + 1);
            assert(f.drop_last() =~= found.deep_view().take(i as int));
            assert(f.last() == found[i as int]@);
        }
        match &found[i].exclude {
            Some(marker) => {
                let plain = strip_prefix(found[i].full_text.as_str(), marker.as_str());
                working = substitute(working.as_str(), found[i].full_text.as_str(), plain.as_str());
            },
            None => {},
        }
        i += 1;
    }
    proof {
        assert(found.deep_view().take(i as int) =~= found.deep_view());
    }
    working
}

} // verus!
