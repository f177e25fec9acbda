//! User-editable acronym glossary.
//!
//! The glossary is a list of (acronym, expansion) entries, kept in a YAML
//! file by the caller. This module edits the list and renders the prompt
//! fragment that injects it into the language model's system prompt.

use vstd::prelude::*;
use vstd::string::*;
use crate::text::same_text;

verus! {

/// One acronym and what it stands for.
#[derive(Debug)]
pub struct Entry {
    pub short: String,
    pub full: String,
}

/// An entry as text: (acronym, expansion).
pub open spec fn entry_view(e: Entry) -> (Seq<char>, Seq<char>) {
    (e.short@, e.full@)
}

/// A list of entries as text.
pub open spec fn entry_views(v: Seq<Entry>) -> Seq<(Seq<char>, Seq<char>)> {
    v.map_values(|e: Entry| entry_view(e))
}

/// The index of the first entry for `short`, if there is one.
pub open spec fn first_index(g: Seq<(Seq<char>, Seq<char>)>, short: Seq<char>) -> Option<int>
    decreases g.len(),
{
    if g.len() == 0 {
        None
    } else {
        match first_index(g.drop_last(), short) {
            Some(i) => Some(i),
            None => if g.last().0 == short {
                Some(g.len() - 1)
            } else {
                None
            },
        }
    }
}

/// The expansion that the glossary gives for `short`: that of its first
/// entry for it.
pub open spec fn lookup(g: Seq<(Seq<char>, Seq<char>)>, short: Seq<char>) -> Option<Seq<char>> {
    match first_index(g, short) {
        Some(i) => Some(g[i].1),
        None => None,
    }
}

/// The glossary after adding `short = full`: the first entry for `short`
/// takes the new expansion; without one, the entry is appended.
pub open spec fn upsert(g: Seq<(Seq<char>, Seq<char>)>, short: Seq<char>, full: Seq<char>) -> Seq<
    (Seq<char>, Seq<char>),
> {
    match first_index(g, short) {
        Some(i) => g.update(i, (short, full)),
        None => g.push((short, full)),
    }
}

/// The glossary without any entry for `short`, the others in order.
pub open spec fn without_key(g: Seq<(Seq<char>, Seq<char>)>, short: Seq<char>) -> Seq<
    (Seq<char>, Seq<char>),
>
    decreases g.len(),
{
    if g.len() == 0 {
        Seq::empty()
    } else {
        let p = without_key(g.drop_last(), short);
        if g.last().0 == short {
            p
        } else {
            p.push(g.last())
        }
    }
}

/// No two entries share an acronym.
pub open spec fn unique_keys(g: Seq<(Seq<char>, Seq<char>)>) -> bool {
    forall|i: int, j: int| 0 <= i < j < g.len() ==> g[i].0 != g[j].0
}

/// The heading of the glossary prompt fragment.
pub open spec fn fragment_header() -> Seq<char> {
    "Glossaire (utilise ces définitions si l'acronyme apparaît) :\n"@
}

/// One `- short = full` line per entry.
pub open spec fn glossary_lines(g: Seq<(Seq<char>, Seq<char>)>) -> Seq<char>
    decreases g.len(),
{
    if g.len() == 0 {
        Seq::empty()
    } else {
        glossary_lines(g.drop_last()) + "- "@ + g.last().0 + " = "@ + g.last().1 + "\n"@
    }
}

/// The system prompt fragment for a glossary: empty for an empty glossary,
/// else the heading and one line per entry.
pub open spec fn fragment_spec(g: Seq<(Seq<char>, Seq<char>)>) -> Seq<char> {
    if g.len() == 0 {
        Seq::empty()
    } else {
        fragment_header() + glossary_lines(g)
    }
}

pub proof fn lemma_first_index_prefix(g: Seq<(Seq<char>, Seq<char>)>, short: Seq<char>, i: int)
    requires
        0 <= i < g.len(),
        first_index(g.take(i), short) is None,
    ensures
        first_index(g.take(i + 1), short) == (if g[i].0 == short {
            Some(i)
        } else {
            None::<int>
        }),
{
    assert(g.take(i + 1).drop_last() == g.take(i));
    assert(g.take(i + 1).last() == g[i]);
}

/// A copy of an entry.
pub fn copy_entry(e: &Entry) -> (r: Entry)
    ensures
        entry_view(r) == entry_view(*e),
{
    Entry { short: e.short.clone(), full: e.full.clone() }
}

proof fn lemma_entry_views_push(v: Seq<Entry>, e: Entry)
    ensures
        entry_views(v.push(e)) == entry_views(v).push(entry_view(e)),
{
    assert(entry_views(v.push(e)) =~= entry_views(v).push(entry_view(e)));
}

/// Adds `short = full`: updates the first entry for `short`, or appends a
/// new entry when there is none.
pub fn add_entry(entries: &mut Vec<Entry>, short: String, full: String)
    ensures
        entry_views(final(entries)@) == upsert(entry_views(old(entries)@), short@, full@),
{
    let ghost g = entry_views(entries@);
    let n = entries.len();
    let mut i: usize = 0;
    assert(g.take(0) == Seq::<(Seq<char>, Seq<char>)>::empty());
    while i < n
        invariant
            n == entries@.len(),
            g == entry_views(entries@),
            entries@ == old(entries)@,
            i <= n,
            first_index(g.take(i as int), short@) is None,
        decreases n - i,
    {
        proof {
            lemma_first_index_prefix(g, short@, i as int);
        }
        assert(g[i as int] == entry_view(entries@[i as int]));
        if entries[i].short == short {
            proof {
                let k = i as int;
                if k + 1 < g.len() {
                    lemma_first_index_extend(g, short@, k, g.len() - 1);
                }
                assert(g.take(g.len() as int) == g);
            }
            let kept_short = entries[i].short.clone();
            let e = Entry { short: kept_short, full };
            let ghost before = entries@;
            entries.set(i, e);
            assert(entry_views(entries@) =~= g.update(i as int, (short@, full@)));
            return ;
        }
        i = i + 1;
    }
    assert(g.take(n as int) == g);
    let ghost before = entries@;
    entries.push(Entry { short, full });
    proof {
        lemma_entry_views_push(before, entries@[entries@.len() - 1]);
        assert(entries@ == before.push(entries@[entries@.len() - 1]));
    }
}

proof fn lemma_first_index_extend(g: Seq<(Seq<char>, Seq<char>)>, short: Seq<char>, k: int, j: int)
    requires
        0 <= k < j < g.len(),
        first_index(g.take(k + 1), short) == Some(k),
    ensures
        first_index(g.take(j + 1), short) == Some(k),
    decreases j - k,
{
    if j > k + 1 {
        lemma_first_index_extend(g, short, k, j - 1);
    }
    assert(g.take(j + 1).drop_last() == g.take(j));
}

/// Removes every entry for `short`, keeping the others in order.
pub fn remove_entry(entries: &mut Vec<Entry>, short: &str)
    ensures
        entry_views(final(entries)@) == without_key(entry_views(old(entries)@), short@),
{
    let ghost g = entry_views(entries@);
    let mut kept: Vec<Entry> = Vec::new();
    let n = entries.len();
    assert(g.take(0) == Seq::<(Seq<char>, Seq<char>)>::empty());
    assert(entry_views(kept@) =~= Seq::<(Seq<char>, Seq<char>)>::empty());
    for i in 0..n
        invariant
            n == entries@.len(),
            g == entry_views(entries@),
            entry_views(kept@) == without_key(g.take(i as int), short@),
    {
        assert(g.take(i + 1).drop_last() == g.take(i as int));
        assert(g.take(i + 1).last() == entry_view(entries@[i as int]));
        if !same_text(entries[i].short.as_str(), short) {
            let ghost before = kept@;
            kept.push(copy_entry(&entries[i]));
            proof {
                lemma_entry_views_push(before, kept@[kept@.len() - 1]);
                assert(kept@ == before.push(kept@[kept@.len() - 1]));
            }
        }
    }
    assert(g.take(n as int) == g);
    *entries = kept;
}

/// The glossary fragment of the language model's system prompt.
pub fn system_prompt_fragment(entries: &Vec<Entry>) -> (r: String)
    ensures
        r@ == fragment_spec(entry_views(entries@)),
{
    let ghost g = entry_views(entries@);
    if entries.len() == 0 {
        return String::new();
    }
    let mut out = String::from_str("Glossaire (utilise ces définitions si l'acronyme apparaît) :\n");
    let n = entries.len();
    assert(g.take(0) == Seq::<(Seq<char>, Seq<char>)>::empty());
    for i in 0..n
        invariant
            n == entries@.len(),
            g == entry_views(entries@),
            out@ == fragment_header() + glossary_lines(g.take(i as int)),
    {
        assert(g.take(i + 1).drop_last() == g.take(i as int));
        assert(g.take(i + 1).last() == entry_view(entries@[i as int]));
        out.append("- ");
        out.append(entries[i].short.as_str());
        out.append(" = ");
        out.append(entries[i].full.as_str());
        out.append("\n");
        assert(out@ == fragment_header() + glossary_lines(g.take(i + 1)));
    }
    assert(g.take(n as int) == g);
    out
}

/// What `first_index` finds: the first position whose acronym is `short`,
/// or no position when none is.
pub proof fn lemma_first_index_spec(g: Seq<(Seq<char>, Seq<char>)>, short: Seq<char>)
    ensures
        match first_index(g, short) {
            Some(i) => 0 <= i < g.len() && g[i].0 == short && forall|j: int|
                0 <= j < i ==> g[j].0 != short,
            None => forall|j: int| 0 <= j < g.len() ==> g[j].0 != short,
        },
    decreases g.len(),
{
    if g.len() > 0 {
        let p = g.drop_last();
        lemma_first_index_spec(p, short);
        assert forall|j: int| 0 <= j < p.len() implies #[trigger] p[j] == g[j] by {}
        match first_index(p, short) {
            Some(i) => {
                assert(first_index(g, short) == Some(i));
                assert forall|j: int| 0 <= j < i implies g[j].0 != short by {
                    assert(p[j] == g[j]);
                }
            },
            None => {
                assert(g.last() == g[g.len() - 1]);
                assert forall|j: int| 0 <= j < g.len() - 1 implies g[j].0 != short by {
                    assert(p[j] == g[j]);
                }
            },
        }
    }
}

proof fn lemma_first_index_unique(g: Seq<(Seq<char>, Seq<char>)>, short: Seq<char>, i: int)
    requires
        0 <= i < g.len(),
        g[i].0 == short,
        forall|j: int| 0 <= j < i ==> g[j].0 != short,
    ensures
        first_index(g, short) == Some(i),
{
    lemma_first_index_spec(g, short);
}

proof fn lemma_first_index_none(g: Seq<(Seq<char>, Seq<char>)>, short: Seq<char>)
    requires
        forall|j: int| 0 <= j < g.len() ==> g[j].0 != short,
    ensures
        first_index(g, short) is None,
{
    lemma_first_index_spec(g, short);
}

proof fn lemma_lookup_push(
    h: Seq<(Seq<char>, Seq<char>)>,
    x: (Seq<char>, Seq<char>),
    k: Seq<char>,
)
    ensures
        lookup(h.push(x), k) == (match lookup(h, k) {
            Some(v) => Some(v),
            None => if x.0 == k {
                Some(x.1)
            } else {
                None
            },
        }),
{
    assert(h.push(x).drop_last() == h);
    lemma_first_index_spec(h, k);
}

/// After `short = full` is added, the glossary gives `full` for `short`.
pub proof fn law_add_then_lookup(g: Seq<(Seq<char>, Seq<char>)>, short: Seq<char>, full: Seq<char>)
    ensures
        lookup(upsert(g, short, full), short) == Some(full),
{
    lemma_first_index_spec(g, short);
    match first_index(g, short) {
        Some(i) => {
            let h = g.update(i, (short, full));
            lemma_first_index_unique(h, short, i);
        },
        None => {
            lemma_lookup_push(g, (short, full), short);
        },
    }
}

/// Adding an entry changes what the glossary gives for no other acronym.
pub proof fn law_add_keeps_other_lookups(
    g: Seq<(Seq<char>, Seq<char>)>,
    short: Seq<char>,
    full: Seq<char>,
    other: Seq<char>,
)
    requires
        other != short,
    ensures
        lookup(upsert(g, short, full), other) == lookup(g, other),
{
    lemma_first_index_spec(g, short);
    lemma_first_index_spec(g, other);
    match first_index(g, short) {
        Some(i) => {
            let h = g.update(i, (short, full));
            assert forall|j: int| 0 <= j < h.len() implies (h[j].0 == other) == (g[j].0 == other)
                && (h[j].0 == other ==> h[j].1 == g[j].1) by {}
            match first_index(g, other) {
                Some(m) => lemma_first_index_unique(h, other, m),
                None => lemma_first_index_none(h, other),
            }
        },
        None => {
            lemma_lookup_push(g, (short, full), other);
        },
    }
}

proof fn lemma_without_has_no_key(g: Seq<(Seq<char>, Seq<char>)>, short: Seq<char>)
    ensures
        forall|j: int|
            0 <= j < without_key(g, short).len() ==> #[trigger] without_key(g, short)[j].0
                != short,
    decreases g.len(),
{
    if g.len() > 0 {
        let p = without_key(g.drop_last(), short);
        lemma_without_has_no_key(g.drop_last(), short);
        if g.last().0 != short {
            let q = p.push(g.last());
            assert forall|j: int| 0 <= j < q.len() implies #[trigger] q[j].0 != short by {
                if j < p.len() {
                    assert(q[j] == p[j]);
                }
            }
        }
    }
}

proof fn lemma_without_absent(g: Seq<(Seq<char>, Seq<char>)>, short: Seq<char>)
    requires
        forall|j: int| 0 <= j < g.len() ==> #[trigger] g[j].0 != short,
    ensures
        without_key(g, short) == g,
    decreases g.len(),
{
    if g.len() > 0 {
        lemma_without_absent(g.drop_last(), short);
        assert(g.drop_last().push(g.last()) == g);
    }
}

/// After `short` is removed, the glossary gives nothing for it.
pub proof fn law_remove_then_lookup(g: Seq<(Seq<char>, Seq<char>)>, short: Seq<char>)
    ensures
        lookup(without_key(g, short), short) is None,
{
    lemma_without_has_no_key(g, short);
    lemma_first_index_none(without_key(g, short), short);
}

/// Removing an acronym changes what the glossary gives for no other one.
pub proof fn law_remove_keeps_other_lookups(
    g: Seq<(Seq<char>, Seq<char>)>,
    short: Seq<char>,
    other: Seq<char>,
)
    requires
        other != short,
    ensures
        lookup(without_key(g, short), other) == lookup(g, other),
    decreases g.len(),
{
    if g.len() > 0 {
        let p = g.drop_last();
        law_remove_keeps_other_lookups(p, short, other);
        assert(p.push(g.last()) == g);
        lemma_lookup_push(p, g.last(), other);
        if g.last().0 != short {
            lemma_lookup_push(without_key(p, short), g.last(), other);
        }
    }
}

/// Removing an acronym twice is removing it once.
pub proof fn law_remove_idempotent(g: Seq<(Seq<char>, Seq<char>)>, short: Seq<char>)
    ensures
        without_key(without_key(g, short), short) == without_key(g, short),
{
    lemma_without_has_no_key(g, short);
    lemma_without_absent(without_key(g, short), short);
}

proof fn lemma_without_update(
    g: Seq<(Seq<char>, Seq<char>)>,
    short: Seq<char>,
    i: int,
    full: Seq<char>,
)
    requires
        0 <= i < g.len(),
        g[i].0 == short,
    ensures
        without_key(g.update(i, (short, full)), short) == without_key(g, short),
    decreases g.len(),
{
    let h = g.update(i, (short, full));
    if i < g.len() - 1 {
        lemma_without_update(g.drop_last(), short, i, full);
        assert(h.drop_last() == g.drop_last().update(i, (short, full)));
        assert(h.last() == g.last());
    } else {
        assert(h.drop_last() == g.drop_last());
    }
}

/// Adding `short` and then removing it leaves what removing it alone leaves.
pub proof fn law_add_then_remove(g: Seq<(Seq<char>, Seq<char>)>, short: Seq<char>, full: Seq<char>)
    ensures
        without_key(upsert(g, short, full), short) == without_key(g, short),
{
    lemma_first_index_spec(g, short);
    match first_index(g, short) {
        Some(i) => lemma_without_update(g, short, i, full),
        None => {
            assert(g.push((short, full)).drop_last() == g);
        },
    }
}

/// Adding an entry to a glossary whose acronyms are distinct keeps them
/// distinct.
pub proof fn law_add_keeps_keys_unique(
    g: Seq<(Seq<char>, Seq<char>)>,
    short: Seq<char>,
    full: Seq<char>,
)
    requires
        unique_keys(g),
    ensures
        unique_keys(upsert(g, short, full)),
{
    lemma_first_index_spec(g, short);
    let h = upsert(g, short, full);
    match first_index(g, short) {
        Some(i) => {
            assert forall|a: int, b: int| 0 <= a < b < h.len() implies h[a].0 != h[b].0 by {
                assert(h[a].0 == g[a].0);
                assert(h[b].0 == g[b].0);
            }
        },
        None => {
            assert forall|a: int, b: int| 0 <= a < b < h.len() implies h[a].0 != h[b].0 by {
                if b < g.len() {
                    assert(h[a] == g[a] && h[b] == g[b]);
                } else {
                    assert(h[a] == g[a]);
                }
            }
        },
    }
}

/// Adding the same entry twice is adding it once.
pub proof fn law_add_idempotent(g: Seq<(Seq<char>, Seq<char>)>, short: Seq<char>, full: Seq<char>)
    ensures
        upsert(upsert(g, short, full), short, full) == upsert(g, short, full),
{
    lemma_first_index_spec(g, short);
    let h = upsert(g, short, full);
    match first_index(g, short) {
        Some(i) => {
            lemma_first_index_unique(h, short, i);
            assert(h.update(i, (short, full)) == h);
        },
        None => {
            lemma_first_index_unique(h, short, g.len() as int);
            assert(h.update(g.len() as int, (short, full)) == h);
        },
    }
}

/// The line of the prompt fragment for one entry: `- <short> = <full>`.
pub open spec fn entry_line(short: Seq<char>, full: Seq<char>) -> Seq<char> {
    "- "@ + short + " = "@ + full + "\n"@
}

/// The prompt fragment renders the whole glossary, one line per entry in the
/// order of the entries: an empty glossary gives nothing, one entry gives the
/// heading and its line, and an entry added at the end of a non-empty
/// glossary adds exactly its line at the end of the fragment.
pub proof fn law_fragment_renders_every_entry(
    g: Seq<(Seq<char>, Seq<char>)>,
    short: Seq<char>,
    full: Seq<char>,
)
    ensures
        fragment_spec(Seq::empty()) == Seq::<char>::empty(),
        fragment_spec(seq![(short, full)]) == fragment_header() + entry_line(short, full),
        g.len() > 0 ==> fragment_spec(g.push((short, full))) == fragment_spec(g) + entry_line(
            short,
            full,
        ),
{
    let one = seq![(short, full)];
    assert(one.drop_last() == Seq::<(Seq<char>, Seq<char>)>::empty());
    assert(glossary_lines(Seq::<(Seq<char>, Seq<char>)>::empty()) == Seq::<char>::empty());
    assert(one.last() == (short, full));
    assert(glossary_lines(one) == Seq::<char>::empty() + "- "@ + short + " = "@ + full + "\n"@);
    assert(glossary_lines(one) =~= entry_line(short, full));
    let h = g.push((short, full));
    assert(h.drop_last() == g);
    if g.len() > 0 {
        assert(glossary_lines(h) == glossary_lines(g) + entry_line(short, full));
        assert(fragment_header() + glossary_lines(h) =~= fragment_header() + glossary_lines(g)
            + entry_line(short, full));
    }
}

/// Every entry's line lies in the fragment, after the heading, where the
/// lines of the entries before it end.
pub proof fn law_fragment_holds_each_line(g: Seq<(Seq<char>, Seq<char>)>, i: int)
    requires
        0 <= i < g.len(),
    ensures
        fragment_spec(g.take(i + 1)) == fragment_spec(g.take(i)).add(
            if i == 0 {
                fragment_header() + entry_line(g[i].0, g[i].1)
            } else {
                entry_line(g[i].0, g[i].1)
            },
        ),
        fragment_spec(g).len() >= fragment_spec(g.take(i + 1)).len(),
        fragment_spec(g).subrange(0, fragment_spec(g.take(i + 1)).len() as int) == fragment_spec(
            g.take(i + 1),
        ),
{
    let t = g.take(i);
    assert(g.take(i + 1) == t.push(g[i]));
    law_fragment_renders_every_entry(t, g[i].0, g[i].1);
    if i == 0 {
        assert(t == Seq::<(Seq<char>, Seq<char>)>::empty());
        assert(t.push(g[i]) == seq![(g[i].0, g[i].1)]);
        assert(fragment_spec(g.take(i + 1)) =~= Seq::<char>::empty() + (fragment_header()
            + entry_line(g[i].0, g[i].1)));
    }
    lemma_fragment_prefix(g, i + 1);
}

proof fn lemma_lines_prefix(g: Seq<(Seq<char>, Seq<char>)>, k: int)
    requires
        0 <= k <= g.len(),
    ensures
        glossary_lines(g.take(k)).len() <= glossary_lines(g).len(),
        glossary_lines(g).subrange(0, glossary_lines(g.take(k)).len() as int) == glossary_lines(
            g.take(k),
        ),
    decreases g.len(),
{
    if k == g.len() {
        assert(g.take(k) == g);
        assert(glossary_lines(g).subrange(0, glossary_lines(g).len() as int) =~= glossary_lines(g));
    } else {
        let p = g.drop_last();
        lemma_lines_prefix(p, k);
        assert(p.take(k) == g.take(k));
        let a = glossary_lines(p);
        let b = glossary_lines(g.take(k));
        assert(glossary_lines(g) == a + "- "@ + g.last().0 + " = "@ + g.last().1 + "\n"@);
        assert(glossary_lines(g).subrange(0, b.len() as int) =~= a.subrange(0, b.len() as int));
    }
}

proof fn lemma_fragment_prefix(g: Seq<(Seq<char>, Seq<char>)>, k: int)
    requires
        0 < k <= g.len(),
    ensures
        fragment_spec(g).len() >= fragment_spec(g.take(k)).len(),
        fragment_spec(g).subrange(0, fragment_spec(g.take(k)).len() as int) == fragment_spec(
            g.take(k),
        ),
{
    lemma_lines_prefix(g, k);
    let h = fragment_header();
    let a = glossary_lines(g);
    let b = glossary_lines(g.take(k));
    assert((h + a).subrange(0, (h + b).len() as int) =~= h + b) by {
        assert forall|j: int| 0 <= j < (h + b).len() implies (h + a).subrange(
            0,
            (h + b).len() as int,
        )[j] == (h + b)[j] by {
            if j >= h.len() {
                assert(a.subrange(0, b.len() as int)[j - h.len()] == b[j - h.len()]);
            }
        }
    }
}

} // verus!
