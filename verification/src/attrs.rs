//! Pure classification predicates over attribute records: class membership,
//! first-match key/value lookup, and the tag tests that gate the filter
//! policies.

use vstd::prelude::*;
use crate::ast::{Attrs, AttrsView};
use crate::strutil::{contains_seq, contains_substr, str_eq, string_eq_str};

verus! {

/// Class-tag membership, exact match, case-sensitive.
pub open spec fn spec_has_class(a: AttrsView, class: Seq<char>) -> bool {
    a.classes.contains(class)
}

/// First-match lookup among key/value pairs; duplicate keys are legal and
/// the earliest pair with the given key wins.
pub open spec fn spec_pair_lookup(
    pairs: Seq<(Seq<char>, Seq<char>)>,
    key: Seq<char>,
) -> Option<Seq<char>>
    decreases pairs,
{
    if pairs.len() == 0 {
        None
    } else if pairs[0].0 == key {
        Some(pairs[0].1)
    } else {
        spec_pair_lookup(pairs.drop_first(), key)
    }
}

/// A container is hidden when it carries the class `hidden`, or some pair
/// has key `tags` and a value containing the substring `hidden`.
pub open spec fn spec_is_hidden(a: AttrsView) -> bool {
    spec_has_class(a, "hidden"@) || exists|i: int|
        0 <= i < a.pairs.len() && (#[trigger] a.pairs[i]).0 == "tags"@ && contains_seq(
            a.pairs[i].1,
            "hidden"@,
        )
}

/// A container is visible when it carries the class `visible`, or some pair
/// has key `tags` or a value containing the substring `visible`. (The
/// disjunction over pair keys and values is deliberately broad: any `tags`
/// pair at all counts as visibility.)
pub open spec fn spec_is_visible(a: AttrsView) -> bool {
    spec_has_class(a, "visible"@) || exists|i: int|
        0 <= i < a.pairs.len() && ((#[trigger] a.pairs[i]).0 == "tags"@ || contains_seq(
            a.pairs[i].1,
            "visible"@,
        ))
}

/// A notebook cell: class `cell`.
pub open spec fn spec_is_ipynb_cell(a: AttrsView) -> bool {
    spec_has_class(a, "cell"@)
}

/// A code cell: both classes `cell` and `code`.
pub open spec fn spec_is_code_cell(a: AttrsView) -> bool {
    spec_has_class(a, "cell"@) && spec_has_class(a, "code"@)
}

/// A code block produced by the given kernel: its class tags contain the
/// kernel language.
pub open spec fn spec_is_kernel_code_block(a: AttrsView, language: Seq<char>) -> bool {
    spec_has_class(a, language)
}

/// Class-tag membership test.
pub fn has_class(attr: &Attrs, class: &str) -> (r: bool)
    ensures
        r == spec_has_class(attr@, class@),
{
    let n = attr.classes.len();
    let mut i: usize = 0;
    while i < n
        invariant
            0 <= i <= n,
            n == attr.classes.len(),
            forall|k: int| 0 <= k < i ==> attr@.classes[k] != class@,
        decreases n - i,
    {
        if string_eq_str(&attr.classes[i], class) {
            assert(attr@.classes[i as int] == class@);
            return true;
        }
        i += 1;
    }
    assert(forall|k: int| 0 <= k < attr@.classes.len() ==> attr@.classes[k] != class@);
    false
}

proof fn lemma_pair_lookup_skip(s: Seq<(Seq<char>, Seq<char>)>, key: Seq<char>, i: int)
    requires
        0 <= i <= s.len(),
        forall|k: int| 0 <= k < i ==> (#[trigger] s[k]).0 != key,
    ensures
        spec_pair_lookup(s, key) == spec_pair_lookup(s.skip(i), key),
    decreases i,
{
    if i > 0 {
        assert(s.drop_first().skip(i - 1) =~= s.skip(i));
        lemma_pair_lookup_skip(s.drop_first(), key, i - 1);
    } else {
        assert(s.skip(0) =~= s);
    }
}

/// First-match lookup of a pair value by key, as the original predicates
/// use it for the `options` and `arguments` attributes.
pub fn get<'a>(pairs: &'a Vec<(String, String)>, selector: &str) -> (r: Option<&'a String>)
    ensures
        match r {
            Some(v) => spec_pair_lookup(crate::ast::abs_string_pairs(pairs@), selector@)
                == Some(v@),
            None => spec_pair_lookup(crate::ast::abs_string_pairs(pairs@), selector@) is None,
        },
{
    let ghost pv = crate::ast::abs_string_pairs(pairs@);
    let n = pairs.len();
    let mut i: usize = 0;
    while i < n
        invariant
            0 <= i <= n,
            n == pairs.len(),
            pv == crate::ast::abs_string_pairs(pairs@),
            forall|k: int| 0 <= k < i ==> (#[trigger] pv[k]).0 != selector@,
        decreases n - i,
    {
        if string_eq_str(&pairs[i].0, selector) {
            proof {
                lemma_pair_lookup_skip(pv, selector@, i as int);
                assert(pv.skip(i as int)[0] == pv[i as int]);
            }
            return Some(&pairs[i].1);
        }
        i += 1;
    }
    proof {
        lemma_pair_lookup_skip(pv, selector@, n as int);
        assert(pv.skip(n as int) =~= Seq::empty());
    }
    None
}

/// Hidden-tag test gating unconditional hiding.
pub fn is_hidden(attr: &Attrs) -> (r: bool)
    ensures
        r == spec_is_hidden(attr@),
{
    if has_class(attr, "hidden") {
        return true;
    }
    let n = attr.pairs.len();
    let mut i: usize = 0;
    while i < n
        invariant
            0 <= i <= n,
            n == attr.pairs.len(),
            forall|k: int|
                0 <= k < i ==> !((#[trigger] attr@.pairs[k]).0 == "tags"@ && contains_seq(
                    attr@.pairs[k].1,
                    "hidden"@,
                )),
        decreases n - i,
    {
        if string_eq_str(&attr.pairs[i].0, "tags") && contains_substr(
            attr.pairs[i].1.as_str(),
            "hidden",
        ) {
            assert(attr@.pairs[i as int].0 == "tags"@);
            return true;
        }
        i += 1;
    }
    false
}

/// Visibility test overriding automatic hiding.
pub fn is_visible(attr: &Attrs) -> (r: bool)
    ensures
        r == spec_is_visible(attr@),
{
    if has_class(attr, "visible") {
        return true;
    }
    let n = attr.pairs.len();
    let mut i: usize = 0;
    while i < n
        invariant
            0 <= i <= n,
            n == attr.pairs.len(),
            forall|k: int|
                0 <= k < i ==> !((#[trigger] attr@.pairs[k]).0 == "tags"@ || contains_seq(
                    attr@.pairs[k].1,
                    "visible"@,
                )),
        decreases n - i,
    {
        if string_eq_str(&attr.pairs[i].0, "tags") || contains_substr(
            attr.pairs[i].1.as_str(),
            "visible",
        ) {
            assert(attr@.pairs[i as int].0 == "tags"@ || contains_seq(
                attr@.pairs[i as int].1,
                "visible"@,
            ));
            return true;
        }
        i += 1;
    }
    false
}

/// Notebook-cell test.
pub fn is_ipynb_cell(attr: &Attrs) -> (r: bool)
    ensures
        r == spec_is_ipynb_cell(attr@),
{
    has_class(attr, "cell")
}

/// Code-cell test.
pub fn is_code_cell(attr: &Attrs) -> (r: bool)
    ensures
        r == spec_is_code_cell(attr@),
{
    has_class(attr, "cell") && has_class(attr, "code")
}

/// Kernel code-block test.
pub fn is_kernel_code_block(attr: &Attrs, kernel_language: &String) -> (r: bool)
    ensures
        r == spec_is_kernel_code_block(attr@, kernel_language@),
{
    has_class(attr, kernel_language.as_str())
}

} // verus!
