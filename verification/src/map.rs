//! The keyed-map adapter: a string-keyed map that keeps its entries sorted by
//! key, so that rendering it is deterministic. The object layout writes each
//! key as a title and recurses into its value with a local label column as
//! wide as the longest key plus one.

use vstd::prelude::*;
use vstd::string::StrSliceExecFns;
use vstd::string::StringExecFns;

use crate::context::Context;
use crate::describe::Describe;
use crate::describe::leaf_headers;
use crate::describe::tombstone;
use crate::describe::tombstone_string;
use crate::text::lemma_lex_lt_connected;
use crate::text::lemma_lex_lt_irrefl;
use crate::text::lemma_lex_lt_trans;
use crate::text::lex_lt;
use crate::text::str_lex_lt;

verus! {

/// Entry keys are strictly ascending in lexicographic order.
pub open spec fn keys_sorted<V>(entries: Seq<(String, V)>) -> bool {
    forall|i: int, j: int|
        0 <= i < j < entries.len() ==> #[trigger] lex_lt(entries[i].0@, entries[j].0@)
}

/// Where a key belongs in a sorted entry sequence: the first position whose
/// key does not precede it.
pub open spec fn insert_pos<V>(entries: Seq<(String, V)>, key: Seq<char>) -> int
    decreases entries.len(),
{
    if entries.len() == 0 {
        0
    } else if lex_lt(entries[0].0@, key) {
        1 + insert_pos(entries.drop_first(), key)
    } else {
        0
    }
}

/// The entry sequence after binding `key` to `value`: an entry with the same
/// key is replaced in place, otherwise the new entry enters at its sorted
/// position.
pub open spec fn spec_inserted<V>(entries: Seq<(String, V)>, key: String, value: V) -> Seq<
    (String, V),
> {
    let i = insert_pos(entries, key@);
    if i < entries.len() && entries[i].0@ == key@ {
        entries.update(i, (key, value))
    } else {
        entries.subrange(0, i) + seq![(key, value)] + entries.subrange(i, entries.len() as int)
    }
}

proof fn lemma_insert_pos_props<V>(entries: Seq<(String, V)>, key: Seq<char>)
    ensures
        0 <= insert_pos(entries, key) <= entries.len(),
        forall|j: int|
            0 <= j < insert_pos(entries, key) ==> #[trigger] lex_lt(entries[j].0@, key),
        insert_pos(entries, key) < entries.len() ==> !lex_lt(
            entries[insert_pos(entries, key)].0@,
            key,
        ),
    decreases entries.len(),
{
    if entries.len() > 0 && lex_lt(entries[0].0@, key) {
        lemma_insert_pos_props(entries.drop_first(), key);
        assert(forall|j: int|
            0 <= j < insert_pos(entries.drop_first(), key) ==> #[trigger] lex_lt(
                entries.drop_first()[j].0@,
                key,
            ));
        assert forall|j: int| 0 <= j < insert_pos(entries, key) implies #[trigger] lex_lt(
            entries[j].0@,
            key,
        ) by {
            if j > 0 {
                assert(entries.drop_first()[j - 1] == entries[j]);
                assert(lex_lt(entries.drop_first()[j - 1].0@, key));
            }
        }
        if insert_pos(entries, key) < entries.len() {
            assert(entries.drop_first()[insert_pos(entries.drop_first(), key)] == entries[
                insert_pos(entries, key)]);
        }
    }
}

proof fn lemma_inserted_sorted<V>(entries: Seq<(String, V)>, key: String, value: V)
    requires
        keys_sorted(entries),
    ensures
        keys_sorted(spec_inserted(entries, key, value)),
{
    lemma_insert_pos_props(entries, key@);
    let i = insert_pos(entries, key@);
    let n = entries.len() as int;
    if i < n && entries[i].0@ == key@ {
        let r = entries.update(i, (key, value));
        assert forall|p: int, q: int| 0 <= p < q < r.len() implies #[trigger] lex_lt(
            r[p].0@,
            r[q].0@,
        ) by {
            assert(lex_lt(entries[p].0@, entries[q].0@));
        }
    } else {
        if i < n {
            assert(lex_lt(key@, entries[i].0@)) by {
                if !lex_lt(key@, entries[i].0@) {
                    lemma_lex_lt_connected(key@, entries[i].0@);
                }
            }
        }
        let r = entries.subrange(0, i) + seq![(key, value)] + entries.subrange(i, n);
        assert forall|p: int, q: int| 0 <= p < q < r.len() implies #[trigger] lex_lt(
            r[p].0@,
            r[q].0@,
        ) by {
            if q < i {
                assert(r[p] == entries[p] && r[q] == entries[q]);
                assert(lex_lt(entries[p].0@, entries[q].0@));
            } else if p < i && q == i {
                assert(r[p] == entries[p]);
                assert(lex_lt(entries[p].0@, key@));
            } else if p < i && q > i {
                assert(r[p] == entries[p] && r[q] == entries[q - 1]);
                assert(lex_lt(entries[p].0@, entries[q - 1].0@));
            } else if p == i && q > i {
                assert(r[q] == entries[q - 1]);
                assert(lex_lt(key@, entries[i].0@));
                if q - 1 > i {
                    assert(lex_lt(entries[i].0@, entries[q - 1].0@));
                    lemma_lex_lt_trans(key@, entries[i].0@, entries[q - 1].0@);
                }
            } else {
                assert(r[p] == entries[p - 1] && r[q] == entries[q - 1]);
                assert(lex_lt(entries[p - 1].0@, entries[q - 1].0@));
            }
        }
    }
}

/// A string-keyed map whose entries stay sorted by key, so that walking them
/// is deterministic.
pub struct StringMap<V> {
    entries: Vec<(String, V)>,
}

impl<V> StringMap<V> {
    /// The entries of the map, in ascending key order.
    pub closed spec fn spec_entries(&self) -> Seq<(String, V)> {
        self.entries@
    }

    /// An empty map.
    pub fn new() -> (r: Self)
        ensures
            r.spec_entries() == Seq::<(String, V)>::empty(),
            keys_sorted(r.spec_entries()),
    {
        StringMap { entries: Vec::new() }
    }

    /// Bind `key` to `value`: an entry with the same key is replaced, any
    /// other entry is kept, and the entries stay sorted.
    pub fn insert(&mut self, key: String, value: V)
        requires
            keys_sorted(old(self).spec_entries()),
        ensures
            final(self).spec_entries() == spec_inserted(old(self).spec_entries(), key, value),
            keys_sorted(final(self).spec_entries()),
    {
        proof {
            lemma_insert_pos_props(self.entries@, key@);
        }
        let ghost entries0 = self.entries@;
        let mut i: usize = 0;
        while i < self.entries.len() && str_lex_lt(self.entries[i].0.as_str(), key.as_str())
            invariant
                0 <= i <= self.entries@.len(),
                self.entries@ == entries0,
                forall|j: int| 0 <= j < i ==> #[trigger] lex_lt(self.entries@[j].0@, key@),
            decreases self.entries@.len() - i,
    {
            i = i + 1;
        }
        proof {
            assert(insert_pos(entries0, key@) == i as int) by {
                lemma_insert_pos_props(entries0, key@);
                let p = insert_pos(entries0, key@);
                if p < i as int {
                    lemma_lex_lt_irrefl(key@);
                    assert(lex_lt(entries0[p].0@, key@));
                } else if (i as int) < p {
                    assert(lex_lt(entries0[i as int].0@, key@));
                }
            }
            lemma_inserted_sorted(entries0, key, value);
        }
        if i < self.entries.len() && self.entries[i].0 == key {
            self.entries.remove(i);
            self.entries.insert(i, (key, value));
            proof {
                assert(final(self).entries@ =~= spec_inserted(entries0, key, value)) by {
                    assert(entries0.remove(i as int).insert(i as int, (key, value)) =~= entries0
                        .update(i as int, (key, value)));
                }
            }
        } else {
            proof {
                if i < self.entries.len() {
                    assert(self.entries@[i as int].0@ != key@);
                }
            }
            self.entries.insert(i, (key, value));
            proof {
                assert(final(self).entries@ =~= spec_inserted(entries0, key, value));
            }
        }
    }

    /// How many keys the map holds.
    pub fn len(&self) -> (r: usize)
        ensures
            r == self.spec_entries().len(),
    {
        self.entries.len()
    }
}

/// The widest key among the first `k` entries.
pub open spec fn max_key_len<V>(entries: Seq<(String, V)>, k: int) -> nat
    decreases k,
{
    if k <= 0 {
        0
    } else {
        let m = max_key_len(entries, k - 1);
        if entries[k - 1].0@.len() > m {
            entries[k - 1].0@.len()
        } else {
            m
        }
    }
}

/// The label column width a map uses for its values: its longest key plus
/// one.
pub open spec fn map_pad<V>(entries: Seq<(String, V)>) -> nat {
    max_key_len(entries, entries.len() as int) + 1
}

/// No key among the first `k` is wider than their joint maximum.
pub proof fn lemma_max_key_len_bound<V>(entries: Seq<(String, V)>, k: int, j: int)
    requires
        0 <= j < k,
    ensures
        entries[j].0@.len() <= max_key_len(entries, k),
    decreases k,
{
    if j < k - 1 {
        lemma_max_key_len_bound(entries, k - 1, j);
    }
}

/// Keys sorted pair by pair are sorted throughout.
pub proof fn lemma_sorted_from_adjacent<V>(entries: Seq<(String, V)>)
    requires
        forall|i: int|
            0 <= i && i + 1 < entries.len() ==> lex_lt(
                (#[trigger] entries[i]).0@,
                entries[i + 1].0@,
            ),
    ensures
        keys_sorted(entries),
{
    assert forall|i: int, j: int| 0 <= i < j < entries.len() implies #[trigger] lex_lt(
        entries[i].0@,
        entries[j].0@,
    ) by {
        lemma_lt_span(entries, i, j);
    }
}

proof fn lemma_lt_span<V>(entries: Seq<(String, V)>, i: int, j: int)
    requires
        0 <= i < j < entries.len(),
        forall|p: int|
            0 <= p && p + 1 < entries.len() ==> lex_lt(
                (#[trigger] entries[p]).0@,
                entries[p + 1].0@,
            ),
    ensures
        lex_lt(entries[i].0@, entries[j].0@),
    decreases j - i,
{
    if j > i + 1 {
        lemma_lt_span(entries, i, j - 1);
        lemma_lex_lt_trans(entries[i].0@, entries[j - 1].0@, entries[j].0@);
    }
}

/// The object-layout text of the first `k` entries: each key as a title line,
/// then its value indented one level with the map's label column.
pub open spec fn entries_text<V: Describe>(
    entries: Seq<(String, V)>,
    k: int,
    ctx: Context,
    pad: nat,
) -> Seq<char>
    decreases k,
{
    if k <= 0 {
        Seq::empty()
    } else {
        entries_text(entries, k - 1, ctx, pad) + ctx.title_text(entries[k - 1].0@, false) + entries[
            k - 1].1.spec_describe(ctx.spec_indent(pad, entries[k - 1].0@.len()))
    }
}

impl<V: Describe> Describe for StringMap<V> {
    /// A keyed map has no single-cell text: its field resolution answers a
    /// fixed placeholder.
    open spec fn spec_to_field(&self, path: Seq<char>) -> Seq<char> {
        seq!['t', 'o', 'd', 'o']
    }

    open spec fn spec_headers() -> Seq<Seq<char>> {
        Seq::empty()
    }

    open spec fn spec_default_headers() -> Seq<Seq<char>> {
        Seq::empty()
    }

    open spec fn spec_header_name(path: Seq<char>) -> Option<Seq<char>> {
        None
    }

    open spec fn spec_struct_pad() -> nat {
        0
    }

    open spec fn describe_pre(&self, ctx: Context) -> bool {
        if self.spec_entries().len() == 0 {
            ctx.value_ok()
        } else {
            &&& ctx.offset + 2 <= usize::MAX
            &&& map_pad(self.spec_entries()) <= usize::MAX
            &&& forall|i: int|
                0 <= i < self.spec_entries().len()
                    ==> #[trigger] self.spec_entries()[i].1.describe_pre(
                    ctx.spec_indent(
                        map_pad(self.spec_entries()),
                        self.spec_entries()[i].0@.len(),
                    ),
                )
        }
    }

    open spec fn spec_describe(&self, ctx: Context) -> Seq<char> {
        if self.spec_entries().len() == 0 {
            ctx.value_text(tombstone())
        } else {
            entries_text(
                self.spec_entries(),
                self.spec_entries().len() as int,
                ctx,
                map_pad(self.spec_entries()),
            )
        }
    }

    fn to_field(&self, field_name: &str) -> (r: String) {
        proof {
            reveal_strlit("todo");
            assert("todo"@ =~= seq!['t', 'o', 'd', 'o']);
        }
        String::from_str("todo")
    }

    fn headers() -> (r: Vec<String>) {
        leaf_headers()
    }

    fn default_headers() -> (r: Vec<String>) {
        leaf_headers()
    }

    fn header_name(header: &str) -> (r: Option<String>) {
        None
    }

    fn struct_pad() -> (r: usize) {
        0
    }

    fn describe(&self, writer: &mut String, ctx: Context) {
        if self.entries.len() == 0 {
            ctx.write_value(writer, tombstone_string());
        } else {
            let mut widest: usize = 0;
            let mut i: usize = 0;
            while i < self.entries.len()
                invariant
                    0 <= i <= self.entries@.len(),
                    widest as nat == max_key_len(self.entries@, i as int),
                decreases self.entries@.len() - i,
            {
                let l = self.entries[i].0.as_str().unicode_len();
                if l > widest {
                    widest = l;
                }
                i = i + 1;
            }
            assert(map_pad(self.entries@) <= usize::MAX);
            let pad = widest + 1;
            let mut k: usize = 0;
            proof {
                assert(old(writer)@ + entries_text(
                    self.entries@,
                    0,
                    ctx,
                    pad as nat,
                ) =~= old(writer)@);
            }
            while k < self.entries.len()
                invariant
                    0 <= k <= self.entries@.len(),
                    self.entries@.len() > 0,
                    pad as nat == map_pad(self.entries@),
                    ctx.offset + 2 <= usize::MAX,
                    forall|i: int|
                        0 <= i < self.entries@.len() ==> #[trigger] self.entries@[i].1.describe_pre(
                            ctx.spec_indent(map_pad(self.entries@), self.entries@[i].0@.len()),
                        ),
                    writer@ == old(writer)@ + entries_text(self.entries@, k as int, ctx, pad as nat),
                decreases self.entries@.len() - k,
            {
                let key_len = self.entries[k].0.as_str().unicode_len();
                ctx.write_title(writer, self.entries[k].0.as_str(), false);
                self.entries[k].1.describe(writer, ctx.indent(pad, key_len));
                proof {
                    assert(writer@ =~= old(writer)@ + entries_text(
                        self.entries@,
                        (k + 1) as int,
                        ctx,
                        pad as nat,
                    ));
                }
                k = k + 1;
            }
        }
    }
}


/// An empty map renders as the tombstone marker; a non-empty one renders one
/// titled block per key, walking its entries — which construction keeps in
/// ascending key order.
pub proof fn lemma_map_blocks<V: Describe>(m: StringMap<V>, ctx: Context)
    ensures
        m.spec_entries().len() == 0 ==> m.spec_describe(ctx) == ctx.value_text(tombstone()),
        m.spec_entries().len() > 0 ==> m.spec_describe(ctx) == entries_text(
            m.spec_entries(),
            m.spec_entries().len() as int,
            ctx,
            map_pad(m.spec_entries()),
        ),
{
}

} // verus!
