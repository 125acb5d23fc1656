//! Sort key selector: a closed set of sort modes, each ordering records
//! by one measurement, descending, with a deterministic tie-break.
//!
//! Ties on the primary key fall back to the connection's identity key,
//! so repeated queries over an unchanged snapshot always produce the
//! same order and records never drift across page boundaries between
//! refresh ticks purely because of ties.

use crate::record::{models_of, ConnectionKey, ConnectionRecord, RecordModel};
use vstd::multiset::Multiset;
use vstd::prelude::*;

verus! {

/// The selectable report orderings.
#[derive(Clone, Copy, PartialEq, Eq, Structural, Debug)]
pub enum SortMode {
    /// Most recently active first.
    MostRecent,
    /// Most bytes transferred first.
    MostBytes,
    /// Most packets transferred first.
    MostPackets,
}

/// Ascending order on identity keys: lexicographic over the address,
/// port and protocol fields. A total order on keys.
pub open spec fn key_le(a: ConnectionKey, b: ConnectionKey) -> bool {
    if a.src_addr != b.src_addr {
        a.src_addr < b.src_addr
    } else if a.src_port != b.src_port {
        a.src_port < b.src_port
    } else if a.dst_addr != b.dst_addr {
        a.dst_addr < b.dst_addr
    } else if a.dst_port != b.dst_port {
        a.dst_port < b.dst_port
    } else {
        a.protocol <= b.protocol
    }
}

/// The primary sort key of a record under one mode.
pub open spec fn primary_key(mode: SortMode, r: RecordModel) -> int {
    match mode {
        SortMode::MostRecent => r.last_seen as int,
        SortMode::MostBytes => r.bytes as int,
        SortMode::MostPackets => r.packets as int,
    }
}

/// Report order: `a` comes no later than `b` when its primary key is
/// strictly larger (descending), or the primary keys tie and `a`'s
/// identity key comes first. A total preorder; between records of
/// different identity keys it is strict in one direction.
pub open spec fn record_le(mode: SortMode, a: RecordModel, b: RecordModel) -> bool {
    primary_key(mode, a) > primary_key(mode, b) || (primary_key(mode, a) == primary_key(mode, b)
        && key_le(a.key, b.key))
}

/// A sequence is in report order for the mode.
pub open spec fn is_sorted(mode: SortMode, s: Seq<RecordModel>) -> bool {
    forall|i: int, j: int| 0 <= i < j < s.len() ==> record_le(mode, s[i], s[j])
}

/// `r` placed into `s` directly before the first element it precedes.
pub open spec fn insert_sorted(mode: SortMode, r: RecordModel, s: Seq<RecordModel>) -> Seq<
    RecordModel,
>
    decreases s.len(),
{
    if s.len() == 0 {
        seq![r]
    } else if record_le(mode, r, s[0]) {
        seq![r] + s
    } else {
        seq![s[0]] + insert_sorted(mode, r, s.drop_first())
    }
}

/// The report order of a snapshot slice: insertion sort, element by
/// element in snapshot order. A function of the sequence and the mode
/// alone, so the resulting order is deterministic by construction.
pub open spec fn sort_spec(mode: SortMode, s: Seq<RecordModel>) -> Seq<RecordModel>
    decreases s.len(),
{
    if s.len() == 0 {
        s
    } else {
        insert_sorted(mode, s.last(), sort_spec(mode, s.drop_last()))
    }
}

/// Whether key `a` comes no later than key `b`.
pub fn key_le_exec(a: &ConnectionKey, b: &ConnectionKey) -> (r: bool)
    ensures
        r == key_le(*a, *b),
{
    if a.src_addr != b.src_addr {
        a.src_addr < b.src_addr
    } else if a.src_port != b.src_port {
        a.src_port < b.src_port
    } else if a.dst_addr != b.dst_addr {
        a.dst_addr < b.dst_addr
    } else if a.dst_port != b.dst_port {
        a.dst_port < b.dst_port
    } else {
        a.protocol <= b.protocol
    }
}

/// Whether record `a` comes no later than record `b` in report order.
pub fn record_le_exec(mode: SortMode, a: &ConnectionRecord, b: &ConnectionRecord) -> (r: bool)
    ensures
        r == record_le(mode, a@, b@),
{
    match mode {
        SortMode::MostRecent => {
            if a.last_seen != b.last_seen {
                a.last_seen > b.last_seen
            } else {
                key_le_exec(&a.key, &b.key)
            }
        },
        SortMode::MostBytes => {
            if a.bytes != b.bytes {
                a.bytes > b.bytes
            } else {
                key_le_exec(&a.key, &b.key)
            }
        },
        SortMode::MostPackets => {
            if a.packets != b.packets {
                a.packets > b.packets
            } else {
                key_le_exec(&a.key, &b.key)
            }
        },
    }
}

/// Splitting characterization of `insert_sorted`: if `r` precedes no
/// element before position `pos` and precedes the element at `pos` (or
/// `pos` is the end), inserting lands exactly at `pos`.
proof fn lemma_insert_sorted_split(mode: SortMode, r: RecordModel, s: Seq<RecordModel>, pos: int)
    requires
        0 <= pos <= s.len(),
        forall|k: int| 0 <= k < pos ==> !record_le(mode, r, #[trigger] s[k]),
        pos < s.len() ==> record_le(mode, r, s[pos]),
    ensures
        insert_sorted(mode, r, s) == s.subrange(0, pos).push(r) + s.subrange(pos, s.len() as int),
    decreases pos,
{
    if pos == 0 {
        if s.len() == 0 {
            assert(insert_sorted(mode, r, s) =~= s.subrange(0, 0).push(r) + s.subrange(0, 0));
        } else {
            assert(insert_sorted(mode, r, s) =~= s.subrange(0, 0).push(r) + s.subrange(
                0,
                s.len() as int,
            ));
        }
    } else {
        let tail = s.drop_first();
        assert(forall|k: int| 0 <= k < pos - 1 ==> !record_le(mode, r, #[trigger] tail[k]));
        lemma_insert_sorted_split(mode, r, tail, pos - 1);
        assert(seq![s[0]] + (tail.subrange(0, pos - 1).push(r) + tail.subrange(
            pos - 1,
            tail.len() as int,
        )) =~= s.subrange(0, pos).push(r) + s.subrange(pos, s.len() as int));
    }
}

/// Insert a record into a vector held in report order, keeping it so.
fn insert_record(mode: SortMode, v: &mut Vec<ConnectionRecord>, r: ConnectionRecord)
    ensures
        models_of(final(v)@) == insert_sorted(mode, r@, models_of(old(v)@)),
{
    let mut pos: usize = 0;
    while pos < v.len() && !record_le_exec(mode, &r, &v[pos])
        invariant
            pos <= v@.len(),
            v@ == old(v)@,
            forall|k: int| 0 <= k < pos ==> !record_le(mode, r@, #[trigger] models_of(v@)[k]),
        decreases v@.len() - pos,
    {
        pos = pos + 1;
    }
    proof {
        lemma_insert_sorted_split(mode, r@, models_of(v@), pos as int);
    }
    let ghost before = models_of(v@);
    v.insert(pos, r);
    proof {
        assert(models_of(v@) =~= before.subrange(0, pos as int).push(r@) + before.subrange(
            pos as int,
            before.len() as int,
        ));
    }
}

/// The records of a snapshot slice in report order for the mode.
pub fn sort_records(mode: SortMode, records: &Vec<ConnectionRecord>) -> (out: Vec<ConnectionRecord>)
    ensures
        models_of(out@) == sort_spec(mode, models_of(records@)),
{
    let mut out: Vec<ConnectionRecord> = Vec::new();
    let mut i: usize = 0;
    proof {
        assert(models_of(out@) =~= Seq::<RecordModel>::empty());
        assert(models_of(records@).subrange(0, 0) =~= Seq::<RecordModel>::empty());
    }
    while i < records.len()
        invariant
            i <= records@.len(),
            models_of(out@) == sort_spec(mode, models_of(records@).subrange(0, i as int)),
        decreases records@.len() - i,
    {
        insert_record(mode, &mut out, records[i].duplicate());
        proof {
            let all = models_of(records@);
            assert(all.subrange(0, i + 1 as int).drop_last() =~= all.subrange(0, i as int));
            assert(all.subrange(0, i + 1 as int).last() == all[i as int]);
        }
        i = i + 1;
    }
    proof {
        assert(models_of(records@).subrange(0, records@.len() as int) =~= models_of(records@));
    }
    out
}


/// What inserting preserves: length, the multiset of records, and
/// report order.
pub proof fn lemma_insert_sorted_ensures(mode: SortMode, r: RecordModel, s: Seq<RecordModel>)
    requires
        is_sorted(mode, s),
    ensures
        insert_sorted(mode, r, s).len() == s.len() + 1,
        insert_sorted(mode, r, s).to_multiset() == s.to_multiset().insert(r),
        is_sorted(mode, insert_sorted(mode, r, s)),
    decreases s.len(),
{
    broadcast use vstd::seq_lib::group_to_multiset_ensures;
    broadcast use vstd::multiset::lemma_multiset_empty_len;

    let out = insert_sorted(mode, r, s);
    if s.len() == 0 {
        assert(out =~= Seq::empty().push(r));
        assert(Seq::<RecordModel>::empty().to_multiset() =~= Multiset::empty());
        assert(out.to_multiset() =~= s.to_multiset().insert(r));
    } else if record_le(mode, r, s[0]) {
        assert(out =~= s.insert(0, r));
        vstd::seq_lib::lemma_multiset_commutative(seq![r], s);
        assert(seq![r] =~= Seq::empty().push(r));
        assert(seq![r].to_multiset() =~= Multiset::empty().insert(r));
        assert(out.to_multiset() =~= s.to_multiset().insert(r));
        assert forall|i: int, j: int| 0 <= i < j < out.len() implies record_le(
            mode,
            out[i],
            out[j],
        ) by {
            if i > 0 {
                assert(record_le(mode, s[i - 1], s[j - 1]));
            } else if j > 0 {
                assert(record_le(mode, r, s[0]));
                if j > 1 {
                    assert(record_le(mode, s[0], s[j - 1]));
                }
            }
        }
    } else {
        let tail = s.drop_first();
        assert(is_sorted(mode, tail)) by {
            assert(forall|i: int, j: int|
                0 <= i < j < tail.len() ==> record_le(mode, #[trigger] tail[i], #[trigger] tail[j])
                    == record_le(mode, s[i + 1], s[j + 1]));
        }
        lemma_insert_sorted_ensures(mode, r, tail);
        let rec = insert_sorted(mode, r, tail);
        assert(out =~= seq![s[0]] + rec);
        vstd::seq_lib::lemma_multiset_commutative(seq![s[0]], rec);
        vstd::seq_lib::lemma_multiset_commutative(seq![s[0]], tail);
        assert(seq![s[0]] =~= Seq::empty().push(s[0]));
        assert(seq![s[0]].to_multiset() =~= Multiset::empty().insert(s[0]));
        assert(s =~= seq![s[0]] + tail);
        assert(out.to_multiset() =~= s.to_multiset().insert(r));
        // order: s[0] precedes r and every element of the tail
        assert(!record_le(mode, r, s[0]));
        assert(record_le(mode, s[0], r));
        assert forall|j: int| 0 <= j < rec.len() implies record_le(mode, s[0], rec[j]) by {
            assert(rec.to_multiset().contains(rec[j]));
            if rec[j] == r {
            } else {
                assert(tail.to_multiset().contains(rec[j])) by {
                    assert(rec.to_multiset() == tail.to_multiset().insert(r));
                }
                let k = choose|k: int| 0 <= k < tail.len() && tail[k] == rec[j];
                assert(record_le(mode, s[0], s[k + 1]));
            }
        }
        assert(is_sorted(mode, out));
    }
}

/// What sorting preserves and establishes: the result is the same
/// multiset of records (same length), arranged in report order.
pub proof fn lemma_sort_spec_ensures(mode: SortMode, s: Seq<RecordModel>)
    ensures
        sort_spec(mode, s).len() == s.len(),
        sort_spec(mode, s).to_multiset() == s.to_multiset(),
        is_sorted(mode, sort_spec(mode, s)),
    decreases s.len(),
{
    broadcast use vstd::seq_lib::group_to_multiset_ensures;
    broadcast use vstd::multiset::lemma_multiset_empty_len;

    if s.len() > 0 {
        lemma_sort_spec_ensures(mode, s.drop_last());
        lemma_insert_sorted_ensures(mode, s.last(), sort_spec(mode, s.drop_last()));
        assert(s =~= s.drop_last().push(s.last()));
        assert(s.drop_last().push(s.last()).to_multiset() == s.drop_last().to_multiset().insert(
            s.last(),
        ));
    }
}

/// Sort stability: under a fixed mode there is exactly one report
/// order of a given set of records with pairwise distinct identity
/// keys. Any two orderings of the same records that are both in report
/// order are equal, position by position -- so re-querying an unchanged
/// snapshot always yields the same order, including among ties, and a
/// record never moves between pages while nothing changed.
pub proof fn lemma_report_order_unique(mode: SortMode, s1: Seq<RecordModel>, s2: Seq<RecordModel>)
    requires
        is_sorted(mode, s1),
        is_sorted(mode, s2),
        s1.to_multiset() == s2.to_multiset(),
        crate::record::distinct_keys(s1),
    ensures
        s1 == s2,
    decreases s1.len(),
{
    broadcast use vstd::seq_lib::group_to_multiset_ensures;
    broadcast use vstd::multiset::lemma_multiset_empty_len;

    if s1.len() == 0 {
        assert(s2.to_multiset().len() == 0);
        assert(s1 =~= s2);
    } else {
        assert(s1.len() == s1.to_multiset().len());
        assert(s2.len() == s2.to_multiset().len());
        assert(s2.len() == s1.len());
        // the two heads precede each other, so their keys agree
        assert(s1.to_multiset().contains(s1[0]));
        assert(s2.contains(s1[0]));
        let j = choose|j: int| 0 <= j < s2.len() && s2[j] == s1[0];
        if j > 0 {
            assert(record_le(mode, s2[0], s2[j]));
        }
        assert(s2.to_multiset().contains(s2[0]));
        assert(s1.contains(s2[0]));
        let i = choose|i: int| 0 <= i < s1.len() && s1[i] == s2[0];
        if i > 0 {
            assert(record_le(mode, s1[0], s1[i]));
        }
        // record_le both ways forces equal keys; distinct keys force
        // the heads to be the same record
        assert(s1[0] == s2[0]) by {
            if s1[0] != s2[0] {
                assert(record_le(mode, s1[0], s2[0]));
                assert(record_le(mode, s2[0], s1[0]));
                assert(s1[0].key == s2[0].key);
                assert(i != 0);
                assert(s1[i].key != s1[0].key);
                assert(false);
            }
        }
        let t1 = s1.drop_first();
        let t2 = s2.drop_first();
        assert(t1.to_multiset() == t2.to_multiset()) by {
            assert(s1.remove(0) =~= t1);
            assert(s2.remove(0) =~= t2);
            assert(s1.remove(0).to_multiset() =~= s1.to_multiset().remove(s1[0]));
            assert(s2.remove(0).to_multiset() =~= s2.to_multiset().remove(s2[0]));
        }
        assert(is_sorted(mode, t1) && is_sorted(mode, t2) && crate::record::distinct_keys(t1)) by {
            assert(forall|i: int, j: int|
                0 <= i < j < t1.len() ==> record_le(mode, #[trigger] t1[i], #[trigger] t1[j])
                    == record_le(mode, s1[i + 1], s1[j + 1]));
            assert(forall|i: int, j: int|
                0 <= i < j < t2.len() ==> record_le(mode, #[trigger] t2[i], #[trigger] t2[j])
                    == record_le(mode, s2[i + 1], s2[j + 1]));
            assert(forall|i: int, j: int|
                0 <= i < t1.len() && 0 <= j < t1.len() && i != j ==> (#[trigger] t1[i]).key
                    != (#[trigger] t1[j]).key);
        }
        lemma_report_order_unique(mode, t1, t2);
        assert forall|k: int| 0 <= k < s1.len() implies s1[k] == s2[k] by {
            if k > 0 {
                assert(s1[k] == t1[k - 1]);
                assert(s2[k] == t2[k - 1]);
            }
        }
        assert(s1 =~= s2);
    }
}

} // verus!
