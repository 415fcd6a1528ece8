//! The search for a player's dated rating entries and the ordered history
//! built from them.

use vstd::prelude::*;
use crate::key::{generate_mmr_name, key_of_label, mmr_name, DataPointKey};
use crate::text::{parse_unsigned, parse_unsigned_text};
use crate::xml::{nodes_view, NodeView, XmlNode};

verus! {

/// One entry of a rating history.
#[derive(Clone, Copy, Debug, PartialEq, Eq, Structural)]
pub enum HistoryEntry {
    /// The rating recorded for the slot.
    Rating(u32),
    /// No node holds a rating for the slot.
    Missing(DataPointKey),
    /// The rating node of the slot holds something other than an unsigned number.
    Unreadable(DataPointKey),
}

/// The keys of the nodes that name `who`, in document order. A node names
/// `who` where the folded form of its `value` equals `who`; it counts where
/// it also has a `name` attribute that carries a key.
pub open spec fn matched_keys(
    nodes: Seq<NodeView>,
    folded: Seq<Option<Seq<char>>>,
    who: Seq<char>,
) -> Seq<DataPointKey>
    decreases nodes.len(),
{
    if nodes.len() == 0 || folded.len() == 0 {
        seq![]
    } else {
        let earlier = matched_keys(nodes.drop_last(), folded.drop_last(), who);
        let n = nodes.last();
        if folded.last() == Some(who) && n.0 is Some && key_of_label(n.0->0) is Some {
            earlier.push(key_of_label(n.0->0)->0)
        } else {
            earlier
        }
    }
}

/// Places `k` after every leading key whose major is at least its own.
pub open spec fn insert_desc(s: Seq<DataPointKey>, k: DataPointKey) -> Seq<DataPointKey>
    decreases s.len(),
{
    if s.len() == 0 {
        seq![k]
    } else if s[0].major < k.major {
        seq![k] + s
    } else {
        seq![s[0]] + insert_desc(s.drop_first(), k)
    }
}

/// The keys ordered by major, largest first; keys of equal major keep their
/// order.
pub open spec fn sort_desc(s: Seq<DataPointKey>) -> Seq<DataPointKey>
    decreases s.len(),
{
    if s.len() == 0 {
        seq![]
    } else {
        insert_desc(sort_desc(s.drop_last()), s.last())
    }
}

/// No key has a larger major than one before it.
pub open spec fn sorted_desc(s: Seq<DataPointKey>) -> bool {
    forall|i: int, j: int| 0 <= i < j < s.len() ==> s[i].major >= s[j].major
}

/// The `value` of the first node whose `name` is `name` and that has a `value`.
pub open spec fn lookup_value(nodes: Seq<NodeView>, name: Seq<char>) -> Option<Seq<char>>
    decreases nodes.len(),
{
    if nodes.len() == 0 {
        None
    } else if nodes[0].0 == Some(name) && nodes[0].1 is Some {
        nodes[0].1
    } else {
        lookup_value(nodes.drop_first(), name)
    }
}

/// The history entry of a key.
pub open spec fn entry_for(nodes: Seq<NodeView>, k: DataPointKey) -> HistoryEntry {
    match lookup_value(nodes, mmr_name(k)) {
        None => HistoryEntry::Missing(k),
        Some(v) => match parse_unsigned(v, u32::MAX as nat) {
            Some(x) => HistoryEntry::Rating(x as u32),
            None => HistoryEntry::Unreadable(k),
        },
    }
}

/// The history of the player whose folded name is `who`.
pub open spec fn history_of(
    nodes: Seq<NodeView>,
    folded: Seq<Option<Seq<char>>>,
    who: Seq<char>,
) -> Seq<HistoryEntry> {
    sort_desc(matched_keys(nodes, folded, who)).map_values(|k: DataPointKey| entry_for(nodes, k))
}

/// The characters of an optional string.
pub open spec fn opt_view(a: Option<String>) -> Option<Seq<char>> {
    match a {
        Some(s) => Some(s@),
        None => None,
    }
}

/// The models of a sequence of optional strings.
pub open spec fn opts_view(s: Seq<Option<String>>) -> Seq<Option<Seq<char>>> {
    s.map_values(|a: Option<String>| opt_view(a))
}

/// The keys of the nodes that name the player whose folded name is `who`,
/// in document order; `folded` holds the folded `value` of each node.
pub fn collect_keys(nodes: &Vec<XmlNode>, folded: &Vec<Option<String>>, who: &String) -> (r: Vec<
    DataPointKey,
>)
    requires
        nodes.len() == folded.len(),
    ensures
        r@ == matched_keys(nodes_view(nodes@), opts_view(folded@), who@),
{
    let mut keys: Vec<DataPointKey> = Vec::new();
    let mut i: usize = 0;
    while i < nodes.len()
        invariant
            i <= nodes.len() == folded.len(),
            keys@ == matched_keys(
                nodes_view(nodes@).subrange(0, i as int),
                opts_view(folded@).subrange(0, i as int),
                who@,
            ),
        decreases nodes.len() - i,
    {
        let ghost nv = nodes_view(nodes@);
        let ghost fv = opts_view(folded@);
        assert(nv.subrange(0, i + 1).drop_last() =~= nv.subrange(0, i as int));
        assert(fv.subrange(0, i + 1).drop_last() =~= fv.subrange(0, i as int));
        assert(nv.subrange(0, i + 1).last() == nodes[i as int]@);
        assert(fv.subrange(0, i + 1).last() == opt_view(folded[i as int]));
        let same = match &folded[i] {
            Some(f) => f.eq(who),
            None => false,
        };
        if same {
            match &nodes[i].name {
                Some(label) => {
                    match DataPointKey::parse(label.as_str()) {
                        Some(k) => keys.push(k),
                        None => {},
                    }
                },
                None => {},
            }
        }
        i = i + 1;
    }
    assert(nodes_view(nodes@).subrange(0, i as int) =~= nodes_view(nodes@));
    assert(opts_view(folded@).subrange(0, i as int) =~= opts_view(folded@));
    keys
}

proof fn lemma_insert_at(s: Seq<DataPointKey>, k: DataPointKey, p: int)
    requires
        0 <= p <= s.len(),
        forall|j: int| 0 <= j < p ==> s[j].major >= k.major,
        p < s.len() ==> s[p].major < k.major,
    ensures
        insert_desc(s, k) == s.insert(p, k),
    decreases s.len(),
{
    if s.len() == 0 {
        assert(s.insert(p, k) =~= seq![k]);
    } else if p == 0 {
        assert(s.insert(p, k) =~= seq![k] + s);
    } else {
        let t = s.drop_first();
        lemma_insert_at(t, k, p - 1);
        assert(s.insert(p, k) =~= seq![s[0]] + t.insert(p - 1, k));
    }
}

/// Orders keys by major, largest first, keeping the order of keys of equal
/// major.
pub fn sort_keys(keys: &Vec<DataPointKey>) -> (r: Vec<DataPointKey>)
    ensures
        r@ == sort_desc(keys@),
{
    let mut out: Vec<DataPointKey> = Vec::new();
    let mut i: usize = 0;
    while i < keys.len()
        invariant
            i <= keys.len(),
            out@ == sort_desc(keys@.subrange(0, i as int)),
        decreases keys.len() - i,
    {
        let k = keys[i];
        let mut p: usize = 0;
        while p < out.len() && out[p].major >= k.major
            invariant
                p <= out.len(),
                forall|j: int| 0 <= j < p ==> out@[j].major >= k.major,
            decreases out.len() - p,
        {
            p = p + 1;
        }
        proof {
            lemma_insert_at(out@, k, p as int);
            let pre = keys@.subrange(0, i + 1);
            assert(pre.drop_last() =~= keys@.subrange(0, i as int));
            assert(pre.last() == k);
        }
        out.insert(p, k);
        i = i + 1;
    }
    assert(keys@.subrange(0, i as int) =~= keys@);
    out
}

/// The `value` of the first node whose `name` is `name` and that has a `value`.
pub fn find_value(nodes: &Vec<XmlNode>, name: &String) -> (r: Option<String>)
    ensures
        opt_view(r) == lookup_value(nodes_view(nodes@), name@),
{
    let mut i: usize = 0;
    assert(nodes_view(nodes@).subrange(0, nodes.len() as int) =~= nodes_view(nodes@));
    while i < nodes.len()
        invariant
            i <= nodes.len(),
            lookup_value(nodes_view(nodes@), name@) == lookup_value(
                nodes_view(nodes@).subrange(i as int, nodes.len() as int),
                name@,
            ),
        decreases nodes.len() - i,
    {
        let ghost rest = nodes_view(nodes@).subrange(i as int, nodes.len() as int);
        assert(rest.drop_first() =~= nodes_view(nodes@).subrange(i + 1, nodes.len() as int));
        assert(rest[0] == nodes[i as int]@);
        let node = &nodes[i];
        let hit = match &node.name {
            Some(n) => node.value.is_some() && n.eq(name),
            None => false,
        };
        if hit {
            match &node.value {
                Some(v) => {
                    return Some(v.clone());
                },
                None => {},
            }
        }
        i = i + 1;
    }
    None
}

/// The history entry of a key: the rating that its rating node holds, or a
/// marker where there is no such node or its value is not a number.
pub fn entry_of(nodes: &Vec<XmlNode>, key: &DataPointKey) -> (r: HistoryEntry)
    ensures
        r == entry_for(nodes_view(nodes@), *key),
{
    let name = generate_mmr_name(key);
    match find_value(nodes, &name) {
        None => HistoryEntry::Missing(*key),
        Some(v) => match parse_unsigned_text(v.as_str(), 4294967295) {
            Some(x) => HistoryEntry::Rating(x as u32),
            None => HistoryEntry::Unreadable(*key),
        },
    }
}

/// The history of the player whose folded name is `who`: one entry per key
/// found, by major from the largest, each the rating stored for it or a
/// marker. `folded` holds the folded `value` of each node.
pub fn player_history(nodes: &Vec<XmlNode>, folded: &Vec<Option<String>>, who: &String) -> (r: Vec<
    HistoryEntry,
>)
    requires
        nodes.len() == folded.len(),
    ensures
        r@ == history_of(nodes_view(nodes@), opts_view(folded@), who@),
{
    let keys = collect_keys(nodes, folded, who);
    let sorted = sort_keys(&keys);
    let mut out: Vec<HistoryEntry> = Vec::new();
    let mut i: usize = 0;
    while i < sorted.len()
        invariant
            i <= sorted.len(),
            out@ == sorted@.subrange(0, i as int).map_values(
                |k: DataPointKey| entry_for(nodes_view(nodes@), k),
            ),
        decreases sorted.len() - i,
    {
        let e = entry_of(nodes, &sorted[i]);
        out.push(e);
        i = i + 1;
        assert(out@ =~= sorted@.subrange(0, i as int).map_values(
            |k: DataPointKey| entry_for(nodes_view(nodes@), k),
        ));
    }
    assert(sorted@.subrange(0, i as int) =~= sorted@);
    assert(out@ =~= history_of(nodes_view(nodes@), opts_view(folded@), who@));
    out
}

proof fn lemma_insert_desc(s: Seq<DataPointKey>, k: DataPointKey)
    requires
        sorted_desc(s),
    ensures
        insert_desc(s, k).len() == s.len() + 1,
        insert_desc(s, k).to_multiset() =~= s.to_multiset().insert(k),
        insert_desc(s, k)[0] == (if s.len() == 0 || s[0].major < k.major {
            k
        } else {
            s[0]
        }),
        sorted_desc(insert_desc(s, k)),
    decreases s.len(),
{
    broadcast use vstd::seq_lib::group_to_multiset_ensures;

    if s.len() == 0 {
        assert(seq![k] =~= Seq::<DataPointKey>::empty().push(k));
    } else if s[0].major < k.major {
        vstd::seq_lib::lemma_multiset_commutative(seq![k], s);
        assert(seq![k] =~= Seq::<DataPointKey>::empty().push(k));
    } else {
        let t = s.drop_first();
        lemma_insert_desc(t, k);
        let r = insert_desc(t, k);
        assert(s =~= seq![s[0]] + t);
        vstd::seq_lib::lemma_multiset_commutative(seq![s[0]], t);
        vstd::seq_lib::lemma_multiset_commutative(seq![s[0]], r);
        let whole = seq![s[0]] + r;
        assert forall|i: int, j: int| 0 <= i < j < whole.len() implies whole[i].major
            >= whole[j].major by {
            if i > 0 {
                assert(whole[i] == r[i - 1]);
            } else {
                assert(r[0].major <= s[0].major);
                if j > 1 {
                    assert(r[0].major >= r[j - 1].major);
                }
            }
        }
    }
}

proof fn lemma_sort_desc(s: Seq<DataPointKey>)
    ensures
        sort_desc(s).len() == s.len(),
        sort_desc(s).to_multiset() =~= s.to_multiset(),
        sorted_desc(sort_desc(s)),
    decreases s.len(),
{
    broadcast use vstd::seq_lib::group_to_multiset_ensures;

    if s.len() > 0 {
        lemma_sort_desc(s.drop_last());
        lemma_insert_desc(sort_desc(s.drop_last()), s.last());
        assert(s =~= s.drop_last().push(s.last()));
    }
}

/// A player's history has one entry per key found for the player; those keys,
/// ordered by major from the largest, give the entries in order; and where
/// every such key has a rating node holding an unsigned number, every entry
/// is that rating.
pub proof fn lemma_history_shape(
    nodes: Seq<NodeView>,
    folded: Seq<Option<Seq<char>>>,
    who: Seq<char>,
)
    ensures
        ({
            let keys = matched_keys(nodes, folded, who);
            let order = sort_desc(keys);
            let h = history_of(nodes, folded, who);
            &&& h.len() == keys.len()
            &&& order.to_multiset() == keys.to_multiset()
            &&& sorted_desc(order)
            &&& forall|i: int| 0 <= i < h.len() ==> #[trigger] h[i] == entry_for(nodes, order[i])
            &&& (forall|i: int|
                0 <= i < keys.len() ==> (#[trigger] lookup_value(nodes, mmr_name(keys[i])) matches Some(
                    v,
                ) && parse_unsigned(v, u32::MAX as nat) is Some)) ==> forall|i: int|
                0 <= i < h.len() ==> #[trigger] h[i] is Rating
        }),
{
    let keys = matched_keys(nodes, folded, who);
    let order = sort_desc(keys);
    let h = history_of(nodes, folded, who);
    lemma_sort_desc(keys);
    if forall|i: int|
        0 <= i < keys.len() ==> (#[trigger] lookup_value(nodes, mmr_name(keys[i])) matches Some(v)
            && parse_unsigned(v, u32::MAX as nat) is Some) {
        assert forall|i: int| 0 <= i < h.len() implies #[trigger] h[i] is Rating by {
            broadcast use vstd::seq_lib::group_to_multiset_ensures;

            assert(order.to_multiset().count(order[i]) > 0);
            assert(keys.contains(order[i]));
            let j = choose|j: int| 0 <= j < keys.len() && keys[j] == order[i];
            assert(lookup_value(nodes, mmr_name(keys[j])) is Some);
        }
    }
}

/// The keys of major `m`, in the order in which they stand.
pub open spec fn with_major(s: Seq<DataPointKey>, m: u64) -> Seq<DataPointKey>
    decreases s.len(),
{
    if s.len() == 0 {
        seq![]
    } else {
        (if s[0].major == m {
            seq![s[0]]
        } else {
            seq![]
        }) + with_major(s.drop_first(), m)
    }
}

proof fn lemma_with_major_none(s: Seq<DataPointKey>, m: u64)
    requires
        forall|i: int| 0 <= i < s.len() ==> #[trigger] s[i].major != m,
    ensures
        with_major(s, m) == Seq::<DataPointKey>::empty(),
    decreases s.len(),
{
    if s.len() > 0 {
        assert forall|i: int| 0 <= i < s.drop_first().len() implies #[trigger] s.drop_first()[i].major
            != m by {
            assert(s.drop_first()[i] == s[i + 1]);
        }
        lemma_with_major_none(s.drop_first(), m);
        assert(with_major(s, m) =~= Seq::<DataPointKey>::empty());
    }
}

proof fn lemma_with_major_push(s: Seq<DataPointKey>, x: DataPointKey, m: u64)
    ensures
        with_major(s.push(x), m) == with_major(s, m) + (if x.major == m {
            seq![x]
        } else {
            seq![]
        }),
    decreases s.len(),
{
    if s.len() == 0 {
        assert(s.push(x) =~= seq![x]);
        assert(seq![x].drop_first() =~= Seq::<DataPointKey>::empty());
        assert(with_major(Seq::<DataPointKey>::empty(), m) =~= Seq::<DataPointKey>::empty());
        assert(with_major(s, m) =~= Seq::<DataPointKey>::empty());
        assert(with_major(s.push(x), m) =~= with_major(s, m) + (if x.major == m {
            seq![x]
        } else {
            seq![]
        }));
    } else {
        lemma_with_major_push(s.drop_first(), x, m);
        assert(s.push(x).drop_first() =~= s.drop_first().push(x));
        assert(s.push(x)[0] == s[0]);
        let h: Seq<DataPointKey> = if s[0].major == m {
            seq![s[0]]
        } else {
            seq![]
        };
        assert(with_major(s.push(x), m) == h + with_major(s.drop_first().push(x), m));
        assert(with_major(s, m) == h + with_major(s.drop_first(), m));
        assert(with_major(s.push(x), m) =~= with_major(s, m) + (if x.major == m {
            seq![x]
        } else {
            seq![]
        }));
    }
}

proof fn lemma_with_major_insert(t: Seq<DataPointKey>, x: DataPointKey, m: u64)
    requires
        sorted_desc(t),
    ensures
        with_major(insert_desc(t, x), m) == with_major(t, m) + (if x.major == m {
            seq![x]
        } else {
            seq![]
        }),
    decreases t.len(),
{
    let tail: Seq<DataPointKey> = if x.major == m {
        seq![x]
    } else {
        seq![]
    };
    if t.len() == 0 {
        assert(seq![x].drop_first() =~= Seq::<DataPointKey>::empty());
        assert(with_major(Seq::<DataPointKey>::empty(), m) =~= Seq::<DataPointKey>::empty());
        assert(with_major(t, m) =~= Seq::<DataPointKey>::empty());
        assert(with_major(insert_desc(t, x), m) =~= with_major(t, m) + tail);
    } else if t[0].major < x.major {
        assert((seq![x] + t).drop_first() =~= t);
        assert((seq![x] + t)[0] == x);
        assert(insert_desc(t, x) == seq![x] + t);
        let h: Seq<DataPointKey> = if x.major == m {
            seq![x]
        } else {
            seq![]
        };
        assert(with_major(insert_desc(t, x), m) == h + with_major(t, m));
        if x.major == m {
            assert forall|i: int| 0 <= i < t.len() implies #[trigger] t[i].major != m by {
                if i > 0 {
                    assert(t[0].major >= t[i].major);
                }
            }
            lemma_with_major_none(t, m);
        }
        assert(with_major(insert_desc(t, x), m) =~= with_major(t, m) + tail);
    } else {
        let r = t.drop_first();
        assert forall|i: int, j: int| 0 <= i < j < r.len() implies r[i].major >= r[j].major by {
            assert(r[i] == t[i + 1] && r[j] == t[j + 1]);
        }
        lemma_with_major_insert(r, x, m);
        assert((seq![t[0]] + insert_desc(r, x)).drop_first() =~= insert_desc(r, x));
        assert(with_major(insert_desc(t, x), m) =~= with_major(t, m) + tail);
    }
}

/// Ordering keys by major keeps the keys of each major in the order in which
/// they were found.
pub proof fn lemma_sort_keeps_order_of_equal_majors(s: Seq<DataPointKey>, m: u64)
    ensures
        with_major(sort_desc(s), m) == with_major(s, m),
    decreases s.len(),
{
    if s.len() > 0 {
        let rest = s.drop_last();
        lemma_sort_keeps_order_of_equal_majors(rest, m);
        lemma_sort_desc(rest);
        lemma_with_major_insert(sort_desc(rest), s.last(), m);
        lemma_with_major_push(rest, s.last(), m);
        assert(rest.push(s.last()) =~= s);
    }
}

} // verus!
