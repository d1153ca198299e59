//! Flat name-to-string tables extracted from weakly-typed metadata.
//!
//! `StringTable` replaces a hash map: an association vector with unique
//! keys, whose mathematical content is the `Map` built by last-write-wins
//! insertion. Extraction accepts a metadata entry shaped as a list of
//! strings, a list of maps, or a single map, coercing values through the
//! text-coercion engine and silently skipping unusable entries.

use vstd::prelude::*;
use crate::ast::{abs_meta_map, abs_meta_seq, MetaValue, MetaValueView};
use crate::coerce::{opt_view, spec_coerce_meta};
use crate::strutil::string_eq_str;

verus! {

/// Keys pairwise distinct.
pub open spec fn table_keys_unique(s: Seq<(Seq<char>, Seq<char>)>) -> bool {
    forall|i: int, j: int| 0 <= i < j < s.len() ==> (#[trigger] s[i]).0 != (#[trigger] s[j]).0
}

/// The mapping an association sequence denotes: entries inserted in
/// order, so a later entry with the same key wins.
pub open spec fn table_as_map(s: Seq<(Seq<char>, Seq<char>)>) -> Map<Seq<char>, Seq<char>>
    decreases s,
{
    if s.len() == 0 {
        Map::empty()
    } else {
        table_as_map(s.drop_last()).insert(s.last().0, s.last().1)
    }
}

/// A key absent from every entry is absent from the denoted map.
pub proof fn lemma_as_map_absent(s: Seq<(Seq<char>, Seq<char>)>, key: Seq<char>)
    requires
        forall|i: int| 0 <= i < s.len() ==> (#[trigger] s[i]).0 != key,
    ensures
        !table_as_map(s).dom().contains(key),
    decreases s,
{
    if s.len() > 0 {
        assert(forall|i: int|
            0 <= i < s.drop_last().len() ==> (#[trigger] s.drop_last()[i]).0 != key);
        lemma_as_map_absent(s.drop_last(), key);
    }
}

/// Under unique keys, every entry is reflected exactly in the denoted map.
pub proof fn lemma_as_map_index(s: Seq<(Seq<char>, Seq<char>)>, i: int)
    requires
        table_keys_unique(s),
        0 <= i < s.len(),
    ensures
        table_as_map(s).dom().contains(s[i].0),
        table_as_map(s)[s[i].0] == s[i].1,
    decreases s,
{
    if i == s.len() - 1 {
    } else {
        assert(forall|k: int|
            0 <= k < s.drop_last().len() ==> s.drop_last()[k] == (#[trigger] s[k]));
        lemma_as_map_index(s.drop_last(), i);
        assert(s[i].0 != s.last().0);
    }
}

/// An association table with string keys and string values: the verified
/// replacement for a hash map with last-write-wins insertion.
pub struct StringTable {
    entries: Vec<(String, String)>,
}

impl View for StringTable {
    type V = Seq<(Seq<char>, Seq<char>)>;

    closed spec fn view(&self) -> Seq<(Seq<char>, Seq<char>)> {
        crate::ast::abs_string_pairs(self.entries@)
    }
}

impl StringTable {
    /// Keys are pairwise distinct.
    pub open spec fn wf(&self) -> bool {
        table_keys_unique(self@)
    }

    /// The mapping this table denotes.
    pub open spec fn as_map(&self) -> Map<Seq<char>, Seq<char>> {
        table_as_map(self@)
    }

    /// The empty table.
    pub fn new() -> (r: StringTable)
        ensures
            r.wf(),
            r@ == Seq::<(Seq<char>, Seq<char>)>::empty(),
            r.as_map() == Map::<Seq<char>, Seq<char>>::empty(),
    {
        let r = StringTable { entries: Vec::new() };
        proof {
            assert(r@ =~= Seq::<(Seq<char>, Seq<char>)>::empty());
        }
        r
    }

    /// Number of entries.
    pub fn len(&self) -> (n: usize)
        ensures
            n == self@.len(),
    {
        self.entries.len()
    }

    /// Insert with overwrite: a previous entry with the same key is
    /// dropped, and the new pair appended.
    pub fn insert(&mut self, key: String, value: String)
        requires
            old(self).wf(),
        ensures
            final(self).wf(),
            final(self).as_map() == old(self).as_map().insert(key@, value@),
            final(self)@.len() <= old(self)@.len() + 1,
    {
        let ghost sv = self@;
        let n = self.entries.len();
        let mut i: usize = 0;
        while i < n
            invariant
                0 <= i <= n,
                n == self.entries.len(),
                sv == self@,
                sv == old(self)@,
                old(self).wf(),
                sv == crate::ast::abs_string_pairs(self.entries@),
                forall|k: int| 0 <= k < i ==> (#[trigger] sv[k]).0 != key@,
            decreases n - i,
        {
            if string_eq_str(&self.entries[i].0, key.as_str()) {
                proof {
                    assert(sv[i as int].0 == key@);
                }
                self.entries.remove(i);
                self.entries.push((key, value));
                proof {
                    let t = self@;
                    assert(t =~= sv.remove(i as int).push((key@, value@)));
                    lemma_remove_keeps_unique(sv, i as int);
                    lemma_remove_then_push_unique(sv, i as int, (key@, value@));
                    assert(t.drop_last() =~= sv.remove(i as int));
                    lemma_as_map_remove(sv, i as int);
                    assert(table_as_map(t) =~= table_as_map(sv).insert(key@, value@));
                }
                return;
            }
            i += 1;
        }
        self.entries.push((key, value));
        proof {
            let t = self@;
            assert(t =~= sv.push((key@, value@)));
            assert(t.drop_last() =~= sv);
            assert(forall|k: int| 0 <= k < sv.len() ==> (#[trigger] sv[k]).0 != key@);
            assert forall|a: int, b: int| 0 <= a < b < t.len() implies (#[trigger] t[a]).0 != (
            #[trigger] t[b]).0 by {
                if b < t.len() - 1 {
                    assert(sv[a].0 != sv[b].0);
                }
            }
        }
    }

    /// First-match lookup by key; under `wf` this is exactly lookup in the
    /// denoted map.
    pub fn get<'a>(&'a self, key: &str) -> (r: Option<&'a String>)
        requires
            self.wf(),
        ensures
            match r {
                Some(v) => self.as_map().dom().contains(key@) && v@ == self.as_map()[key@],
                None => !self.as_map().dom().contains(key@),
            },
    {
        let n = self.entries.len();
        let mut i: usize = 0;
        while i < n
            invariant
                0 <= i <= n,
                n == self.entries.len(),
                self.wf(),
                forall|k: int| 0 <= k < i ==> (#[trigger] self@[k]).0 != key@,
            decreases n - i,
        {
            if string_eq_str(&self.entries[i].0, key) {
                proof {
                    assert(self@[i as int].0 == key@);
                    lemma_as_map_index(self@, i as int);
                }
                return Some(&self.entries[i].1);
            }
            i += 1;
        }
        proof {
            lemma_as_map_absent(self@, key@);
        }
        None
    }
}

proof fn lemma_remove_keeps_unique(s: Seq<(Seq<char>, Seq<char>)>, i: int)
    requires
        table_keys_unique(s),
        0 <= i < s.len(),
    ensures
        table_keys_unique(s.remove(i)),
{
    let t = s.remove(i);
    assert forall|a: int, b: int| 0 <= a < b < t.len() implies (#[trigger] t[a]).0 != (
    #[trigger] t[b]).0 by {
        let a0: int = if a < i {
            a
        } else {
            a + 1
        };
        let b0: int = if b < i {
            b
        } else {
            b + 1
        };
        assert(t[a] == s[a0]);
        assert(t[b] == s[b0]);
        assert(s[a0].0 != s[b0].0);
    }
}

proof fn lemma_remove_then_push_unique(
    s: Seq<(Seq<char>, Seq<char>)>,
    i: int,
    e: (Seq<char>, Seq<char>),
)
    requires
        table_keys_unique(s),
        0 <= i < s.len(),
        e.0 == s[i].0,
    ensures
        table_keys_unique(s.remove(i).push(e)),
{
    lemma_remove_keeps_unique(s, i);
    let t = s.remove(i).push(e);
    assert forall|a: int, b: int| 0 <= a < b < t.len() implies (#[trigger] t[a]).0 != (
    #[trigger] t[b]).0 by {
        if b < t.len() - 1 {
            assert(t[a] == s.remove(i)[a]);
            assert(t[b] == s.remove(i)[b]);
        } else {
            let a0: int = if a < i {
                a
            } else {
                a + 1
            };
            assert(t[a] == s[a0]);
            assert(t[b] == e);
            assert(s[a0].0 != s[i].0);
        }
    }
}

/// Under unique keys, removing the entry at `i` removes its key from the
/// denoted map.
proof fn lemma_as_map_remove(s: Seq<(Seq<char>, Seq<char>)>, i: int)
    requires
        table_keys_unique(s),
        0 <= i < s.len(),
    ensures
        table_as_map(s.remove(i)) == table_as_map(s).remove(s[i].0),
    decreases s,
{
    if i == s.len() - 1 {
        assert(s.remove(i) =~= s.drop_last());
        assert(forall|k: int|
            0 <= k < s.drop_last().len() ==> (#[trigger] s.drop_last()[k]) == s[k]);
        assert(forall|k: int| 0 <= k < s.len() - 1 ==> (#[trigger] s[k]).0 != s[i].0);
        lemma_as_map_absent(s.drop_last(), s[i].0);
        assert(table_as_map(s).remove(s[i].0) =~= table_as_map(s.drop_last()));
    } else {
        assert(forall|k: int|
            0 <= k < s.drop_last().len() ==> (#[trigger] s.drop_last()[k]) == s[k]);
        lemma_as_map_remove(s.drop_last(), i);
        assert(s.remove(i).drop_last() =~= s.drop_last().remove(i));
        assert(s.remove(i).last() == s.last());
        assert(s[i].0 != s.last().0);
        assert(table_as_map(s.drop_last()).remove(s[i].0).insert(s.last().0, s.last().1)
            =~= table_as_map(s.drop_last()).insert(s.last().0, s.last().1).remove(s[i].0));
    }
}

/// First-match lookup of a metadata entry.
pub open spec fn spec_meta_lookup(
    meta: Seq<(Seq<char>, MetaValueView)>,
    key: Seq<char>,
) -> Option<MetaValueView>
    decreases meta,
{
    if meta.len() == 0 {
        None
    } else if meta[0].0 == key {
        Some(meta[0].1)
    } else {
        spec_meta_lookup(meta.drop_first(), key)
    }
}

proof fn lemma_meta_lookup_skip(meta: Seq<(Seq<char>, MetaValueView)>, key: Seq<char>, i: int)
    requires
        0 <= i <= meta.len(),
        forall|k: int| 0 <= k < i ==> (#[trigger] meta[k]).0 != key,
    ensures
        spec_meta_lookup(meta, key) == spec_meta_lookup(meta.skip(i), key),
    decreases i,
{
    if i > 0 {
        assert(meta.drop_first().skip(i - 1) =~= meta.skip(i));
        lemma_meta_lookup_skip(meta.drop_first(), key, i - 1);
    } else {
        assert(meta.skip(0) =~= meta);
    }
}

/// First-match lookup of a metadata entry by key.
pub fn meta_get<'a>(meta: &'a Vec<(String, MetaValue)>, key: &str) -> (r: Option<&'a MetaValue>)
    ensures
        match r {
            Some(v) => spec_meta_lookup(abs_meta_map(meta@), key@) == Some(v@),
            None => spec_meta_lookup(abs_meta_map(meta@), key@) is None,
        },
{
    let ghost mv = abs_meta_map(meta@);
    let n = meta.len();
    let mut i: usize = 0;
    while i < n
        invariant
            0 <= i <= n,
            n == meta.len(),
            mv == abs_meta_map(meta@),
            forall|k: int| 0 <= k < i ==> (#[trigger] mv[k]).0 != key@,
        decreases n - i,
    {
        proof {
            crate::ast::lemma_abs_meta_map_index(meta@, i as int);
        }
        if string_eq_str(&meta[i].0, key) {
            proof {
                lemma_meta_lookup_skip(mv, key@, i as int);
                assert(mv.skip(i as int)[0] == mv[i as int]);
            }
            return Some(&meta[i].1);
        }
        i += 1;
    }
    proof {
        crate::ast::lemma_abs_meta_map_len(meta@);
        lemma_meta_lookup_skip(mv, key@, n as int);
        assert(mv.skip(n as int) =~= Seq::empty());
    }
    None
}

/// Entries of a metadata map folded into an accumulated table: each value
/// whose coercion is present and non-empty is inserted under its key, in
/// entry order.
pub open spec fn table_of_entries_into(
    m: Map<Seq<char>, Seq<char>>,
    es: Seq<(Seq<char>, MetaValueView)>,
) -> Map<Seq<char>, Seq<char>>
    decreases es,
{
    if es.len() == 0 {
        m
    } else {
        let prev = table_of_entries_into(m, es.drop_last());
        let e = es.last();
        match spec_coerce_meta(e.1) {
            Some(v) => if v.len() > 0 {
                prev.insert(e.0, v)
            } else {
                prev
            },
            None => prev,
        }
    }
}

/// List items folded into a table: a map item contributes its coerced
/// entries, any other item contributes an identity mapping of its own
/// coerced text, and unusable items are skipped.
pub open spec fn table_of_list(items: Seq<MetaValueView>) -> Map<Seq<char>, Seq<char>>
    decreases items,
{
    if items.len() == 0 {
        Map::empty()
    } else {
        let prev = table_of_list(items.drop_last());
        match items.last() {
            MetaValueView::MetaMap(es) => table_of_entries_into(prev, es),
            other => match spec_coerce_meta(other) {
                Some(v) => if v.len() > 0 {
                    prev.insert(v, v)
                } else {
                    prev
                },
                None => prev,
            },
        }
    }
}

/// The table extracted from the metadata entry at `key`: a list is folded
/// item by item, a single map entry by entry, and any other shape (or a
/// missing key) yields the empty table.
pub open spec fn spec_extract(
    meta: Seq<(Seq<char>, MetaValueView)>,
    key: Seq<char>,
) -> Map<Seq<char>, Seq<char>> {
    match spec_meta_lookup(meta, key) {
        Some(MetaValueView::MetaList(items)) => table_of_list(items),
        Some(MetaValueView::MetaMap(es)) => table_of_entries_into(Map::empty(), es),
        _ => Map::empty(),
    }
}

/// Builds the flat configuration table for the metadata entry at `key`.
pub fn extract(meta: &Vec<(String, MetaValue)>, key: &str) -> (t: StringTable)
    ensures
        t.wf(),
        t.as_map() == spec_extract(abs_meta_map(meta@), key@),
{
    let mut t = StringTable::new();
    match meta_get(meta, key) {
        Some(MetaValue::MetaList(items)) => {
            let ghost iv = abs_meta_seq(items@);
            let n = items.len();
            let mut i: usize = 0;
            proof {
                crate::ast::lemma_abs_meta_seq_len(items@);
                assert(iv.take(0) =~= Seq::empty());
            }
            while i < n
                invariant
                    0 <= i <= n,
                    n == items.len(),
                    iv == abs_meta_seq(items@),
                    iv.len() == n,
                    t.wf(),
                    t.as_map() == table_of_list(iv.take(i as int)),
                decreases n - i,
            {
                proof {
                    crate::ast::lemma_abs_meta_seq_index(items@, i as int);
                    assert(iv.take(i + 1 as int).drop_last() =~= iv.take(i as int));
                    assert(iv.take(i + 1 as int).last() == iv[i as int]);
                }
                match &items[i] {
                    MetaValue::MetaMap(es) => {
                        let ghost m0 = t.as_map();
                        let ghost ev = abs_meta_map(es@);
                        let en = es.len();
                        let mut j: usize = 0;
                        proof {
                            crate::ast::lemma_abs_meta_map_len(es@);
                            assert(ev.take(0) =~= Seq::empty());
                        }
                        while j < en
                            invariant
                                0 <= j <= en,
                                en == es.len(),
                                ev == abs_meta_map(es@),
                                ev.len() == en,
                                t.wf(),
                                t.as_map() == table_of_entries_into(m0, ev.take(j as int)),
                            decreases en - j,
                        {
                            proof {
                                crate::ast::lemma_abs_meta_map_index(es@, j as int);
                                assert(ev.take(j + 1 as int).drop_last() =~= ev.take(j as int));
                                assert(ev.take(j + 1 as int).last() == ev[j as int]);
                            }
                            if let Some(v) = es[j].1.to_string_or_none() {
                                if !v.as_str().is_empty() {
                                    t.insert(es[j].0.clone(), v);
                                }
                            }
                            j += 1;
                        }
                        proof {
                            assert(ev.take(en as int) =~= ev);
                        }
                    },
                    other => {
                        if let Some(v) = other.to_string_or_none() {
                            if !v.as_str().is_empty() {
                                let k = v.clone();
                                t.insert(k, v);
                            }
                        }
                    },
                }
                i += 1;
            }
            proof {
                assert(iv.take(n as int) =~= iv);
            }
        },
        Some(MetaValue::MetaMap(es)) => {
            let ghost ev = abs_meta_map(es@);
            let en = es.len();
            let mut j: usize = 0;
            proof {
                crate::ast::lemma_abs_meta_map_len(es@);
                assert(ev.take(0) =~= Seq::empty());
            }
            while j < en
                invariant
                    0 <= j <= en,
                    en == es.len(),
                    ev == abs_meta_map(es@),
                    ev.len() == en,
                    t.wf(),
                    t.as_map() == table_of_entries_into(Map::empty(), ev.take(j as int)),
                decreases en - j,
            {
                proof {
                    crate::ast::lemma_abs_meta_map_index(es@, j as int);
                    assert(ev.take(j + 1 as int).drop_last() =~= ev.take(j as int));
                    assert(ev.take(j + 1 as int).last() == ev[j as int]);
                }
                if let Some(v) = es[j].1.to_string_or_none() {
                    if !v.as_str().is_empty() {
                        t.insert(es[j].0.clone(), v);
                    }
                }
                j += 1;
            }
            proof {
                assert(ev.take(en as int) =~= ev);
            }
        },
        _ => {},
    }
    t
}

/// The environments table for macro injection.
pub fn extract_environments(meta: &Vec<(String, MetaValue)>) -> (t: StringTable)
    ensures
        t.wf(),
        t.as_map() == spec_extract(abs_meta_map(meta@), "environments"@),
{
    extract(meta, "environments")
}

/// The commands table for macro injection.
pub fn extract_commands(meta: &Vec<(String, MetaValue)>) -> (t: StringTable)
    ensures
        t.wf(),
        t.as_map() == spec_extract(abs_meta_map(meta@), "commands"@),
{
    extract(meta, "commands")
}

/// The kernel language configured at the nested metadata path
/// `jupyter.kernelspec.language`, absent when any segment is missing or of
/// the wrong kind.
pub open spec fn spec_kernel_language(meta: Seq<(Seq<char>, MetaValueView)>) -> Option<Seq<char>> {
    match spec_meta_lookup(meta, "jupyter"@) {
        Some(MetaValueView::MetaMap(jupyter)) => match spec_meta_lookup(jupyter, "kernelspec"@) {
            Some(MetaValueView::MetaMap(kernelspec)) => match spec_meta_lookup(
                kernelspec,
                "language"@,
            ) {
                Some(MetaValueView::MetaStr(language)) => Some(language),
                _ => None,
            },
            _ => None,
        },
        _ => None,
    }
}

/// Reads the configured kernel language out of the document metadata.
pub fn extract_kernel_language(meta: &Vec<(String, MetaValue)>) -> (r: Option<String>)
    ensures
        opt_view(r) == spec_kernel_language(abs_meta_map(meta@)),
{
    if let Some(MetaValue::MetaMap(jupyter)) = meta_get(meta, "jupyter") {
        if let Some(MetaValue::MetaMap(kernelspec)) = meta_get(jupyter, "kernelspec") {
            if let Some(MetaValue::MetaStr(language)) = meta_get(kernelspec, "language") {
                return Some(language.clone());
            }
        }
    }
    None
}


/// The first table entry whose key occurs among the given class tags, in
/// table order.
pub open spec fn spec_table_class_match(
    s: Seq<(Seq<char>, Seq<char>)>,
    classes: Seq<Seq<char>>,
) -> Option<Seq<char>>
    decreases s,
{
    if s.len() == 0 {
        None
    } else if classes.contains(s[0].0) {
        Some(s[0].1)
    } else {
        spec_table_class_match(s.drop_first(), classes)
    }
}

proof fn lemma_class_match_skip(s: Seq<(Seq<char>, Seq<char>)>, classes: Seq<Seq<char>>, i: int)
    requires
        0 <= i <= s.len(),
        forall|k: int| 0 <= k < i ==> !classes.contains((#[trigger] s[k]).0),
    ensures
        spec_table_class_match(s, classes) == spec_table_class_match(s.skip(i), classes),
    decreases i,
{
    if i > 0 {
        assert(s.drop_first().skip(i - 1) =~= s.skip(i));
        lemma_class_match_skip(s.drop_first(), classes, i - 1);
    } else {
        assert(s.skip(0) =~= s);
    }
}

/// Membership of a string among a vector of strings.
fn contains_string(v: &Vec<String>, x: &str) -> (r: bool)
    ensures
        r == crate::ast::abs_strings(v@).contains(x@),
{
    let n = v.len();
    let mut i: usize = 0;
    while i < n
        invariant
            0 <= i <= n,
            n == v.len(),
            forall|k: int| 0 <= k < i ==> crate::ast::abs_strings(v@)[k] != x@,
        decreases n - i,
    {
        if string_eq_str(&v[i], x) {
            assert(crate::ast::abs_strings(v@)[i as int] == x@);
            return true;
        }
        i += 1;
    }
    false
}

impl StringTable {
    /// The mapped value of the first table entry whose key is among the
    /// given class tags, or nothing when no key matches.
    pub fn class_match(&self, classes: &Vec<String>) -> (r: Option<String>)
        ensures
            opt_view(r) == spec_table_class_match(self@, crate::ast::abs_strings(classes@)),
    {
        let ghost cv = crate::ast::abs_strings(classes@);
        let n = self.entries.len();
        let mut i: usize = 0;
        while i < n
            invariant
                0 <= i <= n,
                n == self.entries.len(),
                cv == crate::ast::abs_strings(classes@),
                forall|k: int| 0 <= k < i ==> !cv.contains((#[trigger] self@[k]).0),
            decreases n - i,
        {
            if contains_string(classes, self.entries[i].0.as_str()) {
                proof {
                    lemma_class_match_skip(self@, cv, i as int);
                    assert(self@.skip(i as int)[0] == self@[i as int]);
                    assert(cv.contains(self@[i as int].0));
                }
                return Some(self.entries[i].1.clone());
            }
            i += 1;
        }
        proof {
            lemma_class_match_skip(self@, cv, n as int);
            assert(self@.skip(n as int) =~= Seq::empty());
        }
        None
    }
}


/// Folding map entries into an accumulated table only overrides: the
/// result is the accumulator overridden by the entries' own table.
pub proof fn lemma_entries_into_union(
    m: Map<Seq<char>, Seq<char>>,
    es: Seq<(Seq<char>, MetaValueView)>,
)
    ensures
        table_of_entries_into(m, es) == m.union_prefer_right(
            table_of_entries_into(Map::empty(), es),
        ),
    decreases es,
{
    if es.len() == 0 {
        assert(m.union_prefer_right(Map::<Seq<char>, Seq<char>>::empty()) =~= m);
    } else {
        let dl = es.drop_last();
        let e = es.last();
        lemma_entries_into_union(m, dl);
        let em = table_of_entries_into(Map::empty(), dl);
        match spec_coerce_meta(e.1) {
            Some(v) => {
                if v.len() > 0 {
                    assert(m.union_prefer_right(em).insert(e.0, v) =~= m.union_prefer_right(
                        em.insert(e.0, v),
                    ));
                }
            },
            None => {},
        }
    }
}

/// Later list items override earlier ones: the table of a concatenation
/// is the table of the first part overridden by the table of the second.
/// In particular, when two map items share a key, the later item's value
/// for that key wins.
pub proof fn lemma_table_of_list_concat(a: Seq<MetaValueView>, b: Seq<MetaValueView>)
    ensures
        table_of_list(a + b) == table_of_list(a).union_prefer_right(table_of_list(b)),
    decreases b,
{
    if b.len() == 0 {
        assert(a + b =~= a);
        assert(table_of_list(a).union_prefer_right(Map::<Seq<char>, Seq<char>>::empty())
            =~= table_of_list(a));
    } else {
        assert((a + b).drop_last() =~= a + b.drop_last());
        assert((a + b).last() == b.last());
        lemma_table_of_list_concat(a, b.drop_last());
        let am = table_of_list(a);
        let bm = table_of_list(b.drop_last());
        match b.last() {
            MetaValueView::MetaMap(es) => {
                lemma_entries_into_union(am.union_prefer_right(bm), es);
                lemma_entries_into_union(bm, es);
                let em = table_of_entries_into(Map::empty(), es);
                assert(am.union_prefer_right(bm).union_prefer_right(em) =~= am.union_prefer_right(
                    bm.union_prefer_right(em),
                ));
            },
            other => {
                match spec_coerce_meta(other) {
                    Some(v) => {
                        if v.len() > 0 {
                            assert(am.union_prefer_right(bm).insert(v, v) =~= am.union_prefer_right(
                                bm.insert(v, v),
                            ));
                        }
                    },
                    None => {},
                }
            },
        }
    }
}

} // verus!
