use vstd::prelude::*;
use crate::model::{
    HistoryEntry,
    LatestRecord,
    ContractRecord,
    entry_has_name,
    hist_has_name,
    entry_has_addr,
    hist_has_addr,
};

verus! {

/// Reverse-chronological order: timestamps never increase.
pub open spec fn sorted_desc(s: Seq<HistoryEntry>) -> bool {
    forall|i: int, j: int| 0 <= i < j < s.len() ==> s[i].timestamp >= s[j].timestamp
}

/// Inserts an entry into a reverse-chronologically sorted sequence,
/// after every entry whose timestamp is greater than or equal to its
/// own; among equal timestamps the earlier-inserted entry stays first.
pub open spec fn insert_desc(e: HistoryEntry, s: Seq<HistoryEntry>) -> Seq<HistoryEntry>
    decreases s,
{
    if s.len() == 0 {
        seq![e]
    } else if e.timestamp > s[0].timestamp {
        seq![e] + s
    } else {
        seq![s[0]] + insert_desc(e, s.drop_first())
    }
}

/// The stable reverse-chronological sort of a history: entries are
/// taken in their stored order and each is inserted behind the
/// entries that are at least as recent.
pub open spec fn stable_sort_desc(s: Seq<HistoryEntry>) -> Seq<HistoryEntry>
    decreases s,
{
    if s.len() == 0 {
        Seq::empty()
    } else {
        insert_desc(s.last(), stable_sort_desc(s.drop_last()))
    }
}

/// The latest projection for one winning (entry, record) pair:
/// address, proxy flag, transaction and any pool init-code hash come
/// from the record; timestamp and any commit hash from the entry.
pub open spec fn latest_record_of(e: HistoryEntry, rec: ContractRecord) -> LatestRecord {
    LatestRecord {
        address: rec.address,
        proxy: rec.proxy,
        deployment_txn: rec.deployment_txn,
        timestamp: e.timestamp,
        commit_hash: e.commit_hash,
        pool_init_code_hash: rec.pool_init_code_hash,
    }
}

/// The projection already has a record under this contract name.
pub open spec fn lat_has_key(m: Seq<(String, LatestRecord)>, n: Seq<char>) -> bool {
    exists|i: int| 0 <= i < m.len() && (#[trigger] m[i]).0@ == n
}

/// Folds the first `k` contracts of one entry into the projection:
/// a name seen for the first time is appended with this entry's data,
/// a name already present is skipped.
pub open spec fn fold_contracts(
    m: Seq<(String, LatestRecord)>,
    e: HistoryEntry,
    k: int,
) -> Seq<(String, LatestRecord)>
    decreases k,
{
    if k <= 0 {
        m
    } else {
        let m2 = fold_contracts(m, e, k - 1);
        let pair = e.contracts@[k - 1];
        if lat_has_key(m2, pair.0@) {
            m2
        } else {
            m2.push((pair.0, latest_record_of(e, pair.1)))
        }
    }
}

pub open spec fn fold_entry(m: Seq<(String, LatestRecord)>, e: HistoryEntry) -> Seq<
    (String, LatestRecord),
> {
    fold_contracts(m, e, e.contracts@.len() as int)
}

/// The latest projection of a (sorted) history: entries are walked in
/// order and each contract name keeps the first entry that carries
/// it, which for a reverse-chronologically sorted history is the most
/// recent one, the stable-first among equal timestamps.
pub open spec fn latest_fold(s: Seq<HistoryEntry>) -> Seq<(String, LatestRecord)>
    decreases s,
{
    if s.len() == 0 {
        Seq::empty()
    } else {
        fold_entry(latest_fold(s.drop_last()), s.last())
    }
}

/// The entry occurs somewhere in the sequence.
pub open spec fn in_seq(e: HistoryEntry, s: Seq<HistoryEntry>) -> bool {
    exists|i: int| 0 <= i < s.len() && #[trigger] s[i] == e
}

/// Inserting at the first position whose timestamp is strictly below
/// the new entry's places the entry exactly there.
proof fn lemma_insert_at(e: HistoryEntry, m: Seq<HistoryEntry>, k: int)
    requires
        0 <= k <= m.len(),
        forall|j: int| 0 <= j < k ==> m[j].timestamp >= e.timestamp,
        k < m.len() ==> e.timestamp > m[k].timestamp,
    ensures
        insert_desc(e, m) == m.take(k) + seq![e] + m.skip(k),
    decreases k,
{
    if k == 0 {
        if m.len() == 0 {
            assert(insert_desc(e, m) =~= m.take(0) + seq![e] + m.skip(0));
        } else {
            assert(e.timestamp > m[0].timestamp);
            assert(seq![e] + m =~= m.take(0) + seq![e] + m.skip(0));
        }
    } else {
        assert(m[0].timestamp >= e.timestamp);
        let rest = m.drop_first();
        assert(forall|j: int| 0 <= j < k - 1 ==> #[trigger] rest[j].timestamp >= e.timestamp);
        assert(k - 1 < rest.len() ==> e.timestamp > rest[k - 1].timestamp);
        lemma_insert_at(e, rest, k - 1);
        assert(seq![m[0]] + (rest.take(k - 1) + seq![e] + rest.skip(k - 1)) =~= m.take(k)
            + seq![e] + m.skip(k));
    }
}

/// Insertion keeps the sequence sorted and adds one entry.
proof fn lemma_insert_desc_sorted(e: HistoryEntry, s: Seq<HistoryEntry>)
    requires
        sorted_desc(s),
    ensures
        sorted_desc(insert_desc(e, s)),
        insert_desc(e, s).len() == s.len() + 1,
        forall|j: int|
            0 <= j < insert_desc(e, s).len() ==> (#[trigger] insert_desc(e, s)[j] == e || in_seq(
                insert_desc(e, s)[j],
                s,
            )),
        forall|i: int| 0 <= i < s.len() ==> in_seq(#[trigger] s[i], insert_desc(e, s)),
    decreases s,
{
    if s.len() == 0 {
        assert(insert_desc(e, s)[0] == e);
    } else if e.timestamp > s[0].timestamp {
        let r = seq![e] + s;
        assert(forall|j: int| 1 <= j < r.len() ==> r[j] == s[j - 1]);
        assert forall|i: int, j: int|
            0 <= i < j < r.len() implies r[i].timestamp >= r[j].timestamp by {
            if i == 0 {
                if j > 1 {
                    assert(s[0].timestamp >= s[j - 1].timestamp);
                }
            } else {
                assert(s[i - 1].timestamp >= s[j - 1].timestamp);
            }
        }
        assert forall|i: int| 0 <= i < s.len() implies in_seq(#[trigger] s[i], r) by {
            assert(r[i + 1] == s[i]);
        }
    } else {
        let rest = s.drop_first();
        assert(sorted_desc(rest)) by {
            assert(forall|i: int|
                0 <= i < rest.len() ==> #[trigger] rest[i] == s[i + 1]);
        }
        lemma_insert_desc_sorted(e, rest);
        let ri = insert_desc(e, rest);
        let r = seq![s[0]] + ri;
        assert(forall|j: int| 0 <= j < ri.len() ==> r[j + 1] == #[trigger] ri[j]);
        assert forall|i: int, j: int|
            0 <= i < j < r.len() implies r[i].timestamp >= r[j].timestamp by {
            if i == 0 {
                if r[j] == e {
                } else {
                    assert(in_seq(ri[j - 1], rest));
                    let w = choose|w: int| 0 <= w < rest.len() && #[trigger] rest[w] == ri[j - 1];
                    assert(s[0].timestamp >= rest[w].timestamp);
                }
            }
        }
        assert forall|j: int|
            0 <= j < r.len() implies (#[trigger] r[j] == e || in_seq(r[j], s)) by {
            if j == 0 {
                assert(s[0] == s[0]);
                assert(in_seq(r[0], s));
            } else if r[j] == e {
            } else {
                assert(in_seq(ri[j - 1], rest));
                let w = choose|w: int| 0 <= w < rest.len() && #[trigger] rest[w] == ri[j - 1];
                assert(s[w + 1] == rest[w]);
                assert(in_seq(r[j], s));
            }
        }
        assert forall|i: int| 0 <= i < s.len() implies in_seq(#[trigger] s[i], r) by {
            if i == 0 {
                assert(r[0] == s[0]);
            } else {
                assert(rest[i - 1] == s[i]);
                assert(in_seq(rest[i - 1], ri));
                let w = choose|w: int| 0 <= w < ri.len() && #[trigger] ri[w] == rest[i - 1];
                assert(r[w + 1] == s[i]);
            }
        }
    }
}

/// The stable sort of any history is sorted and keeps its length and
/// its entries.
pub proof fn lemma_sort_props(s: Seq<HistoryEntry>)
    ensures
        sorted_desc(stable_sort_desc(s)),
        stable_sort_desc(s).len() == s.len(),
        forall|j: int|
            0 <= j < s.len() ==> in_seq(#[trigger] stable_sort_desc(s)[j], s),
        forall|i: int| 0 <= i < s.len() ==> in_seq(#[trigger] s[i], stable_sort_desc(s)),
    decreases s,
{
    if s.len() > 0 {
        let pre = s.drop_last();
        lemma_sort_props(pre);
        lemma_insert_desc_sorted(s.last(), stable_sort_desc(pre));
        let sp = stable_sort_desc(pre);
        let r = stable_sort_desc(s);
        assert forall|j: int| 0 <= j < s.len() implies in_seq(#[trigger] r[j], s) by {
            if r[j] == s.last() {
                assert(s[s.len() - 1] == r[j]);
            } else {
                assert(in_seq(r[j], sp));
                let i0 = choose|i0: int| 0 <= i0 < sp.len() && #[trigger] sp[i0] == r[j];
                assert(in_seq(sp[i0], pre));
                let i1 = choose|i1: int| 0 <= i1 < pre.len() && #[trigger] pre[i1] == sp[i0];
                assert(s[i1] == r[j]);
            }
        }
        assert forall|i: int| 0 <= i < s.len() implies in_seq(#[trigger] s[i], r) by {
            if i == s.len() - 1 {
                assert(in_seq(s.last(), r)) by {
                    assert(forall|w: int|
                        0 <= w < pre.len() ==> in_seq(#[trigger] pre[w], sp));
                    lemma_insert_desc_in(s.last(), sp);
                }
            } else {
                assert(pre[i] == s[i]);
                assert(in_seq(pre[i], sp));
                let j0 = choose|j0: int| 0 <= j0 < sp.len() && #[trigger] sp[j0] == pre[i];
                assert(in_seq(sp[j0], r));
            }
        }
    }
}

/// The inserted entry occurs in the insertion's result.
proof fn lemma_insert_desc_in(e: HistoryEntry, s: Seq<HistoryEntry>)
    ensures
        in_seq(e, insert_desc(e, s)),
    decreases s,
{
    if s.len() == 0 {
        assert(insert_desc(e, s)[0] == e);
    } else if e.timestamp > s[0].timestamp {
        assert(insert_desc(e, s)[0] == e);
    } else {
        lemma_insert_desc_in(e, s.drop_first());
        let ri = insert_desc(e, s.drop_first());
        let w = choose|w: int| 0 <= w < ri.len() && #[trigger] ri[w] == e;
        assert(insert_desc(e, s)[w + 1] == e);
    }
}

/// Sorting a sorted history leaves it unchanged, so reconciliation is
/// idempotent: a second run returns the same history ordering and the
/// same latest projection.
pub proof fn lemma_sorted_sort_id(s: Seq<HistoryEntry>)
    requires
        sorted_desc(s),
    ensures
        stable_sort_desc(s) == s,
    decreases s,
{
    if s.len() > 0 {
        let pre = s.drop_last();
        assert(sorted_desc(pre));
        lemma_sorted_sort_id(pre);
        lemma_insert_at(s.last(), pre, pre.len() as int);
        assert(pre.take(pre.len() as int) =~= pre);
        assert(pre.skip(pre.len() as int) =~= Seq::empty());
        assert(pre + seq![s.last()] + Seq::empty() =~= s);
        assert(pre.take(pre.len() as int) + seq![s.last()] + pre.skip(pre.len() as int) =~= s);
    }
}

/// Running the reconciliation pipeline twice gives the first run's
/// result again.
pub proof fn lemma_reconcile_idempotent(s: Seq<HistoryEntry>)
    ensures
        stable_sort_desc(stable_sort_desc(s)) == stable_sort_desc(s),
        latest_fold(stable_sort_desc(stable_sort_desc(s))) == latest_fold(stable_sort_desc(s)),
{
    lemma_sort_props(s);
    lemma_sorted_sort_id(stable_sort_desc(s));
}

/// How many history entries register a contract at the address.
pub open spec fn entries_with_addr(h: Seq<HistoryEntry>, a: Seq<char>) -> nat
    decreases h,
{
    if h.len() == 0 {
        0
    } else {
        entries_with_addr(h.drop_first(), a) + (if entry_has_addr(h[0], a) {
            1nat
        } else {
            0nat
        })
    }
}

/// Appending an entry adds its own occurrence to the count.
pub proof fn lemma_count_push(h: Seq<HistoryEntry>, e: HistoryEntry, a: Seq<char>)
    ensures
        entries_with_addr(h.push(e), a) == entries_with_addr(h, a) + (if entry_has_addr(e, a) {
            1nat
        } else {
            0nat
        }),
    decreases h,
{
    if h.len() == 0 {
        assert(h.push(e).drop_first() =~= h);
        assert(h.push(e)[0] == e);
    } else {
        assert(h.push(e).drop_first() =~= h.drop_first().push(e));
        assert(h.push(e)[0] == h[0]);
        lemma_count_push(h.drop_first(), e, a);
    }
}

/// Insertion adds the inserted entry's occurrence to the count.
proof fn lemma_insert_count(e: HistoryEntry, s: Seq<HistoryEntry>, a: Seq<char>)
    ensures
        entries_with_addr(insert_desc(e, s), a) == entries_with_addr(s, a) + (if entry_has_addr(
            e,
            a,
        ) {
            1nat
        } else {
            0nat
        }),
    decreases s,
{
    if s.len() == 0 {
        let r = insert_desc(e, s);
        assert(r =~= seq![e]);
        assert(r.drop_first() =~= Seq::<HistoryEntry>::empty());
        assert(r[0] == e);
        assert(entries_with_addr(r, a) == entries_with_addr(r.drop_first(), a) + (
        if entry_has_addr(e, a) {
            1nat
        } else {
            0nat
        }));
    } else if e.timestamp > s[0].timestamp {
        let r = insert_desc(e, s);
        assert(r =~= seq![e] + s);
        assert(r.drop_first() =~= s);
        assert(r[0] == e);
        assert(entries_with_addr(r, a) == entries_with_addr(s, a) + (if entry_has_addr(e, a) {
            1nat
        } else {
            0nat
        }));
    } else {
        let rest = s.drop_first();
        lemma_insert_count(e, rest, a);
        let r = insert_desc(e, s);
        assert(r =~= seq![s[0]] + insert_desc(e, rest));
        assert(r.drop_first() =~= insert_desc(e, rest));
        assert(r[0] == s[0]);
        assert(entries_with_addr(r, a) == entries_with_addr(insert_desc(e, rest), a) + (
        if entry_has_addr(s[0], a) {
            1nat
        } else {
            0nat
        }));
        assert(entries_with_addr(s, a) == entries_with_addr(rest, a) + (if entry_has_addr(
            s[0],
            a,
        ) {
            1nat
        } else {
            0nat
        }));
    }
}

/// Sorting does not change how often an address occurs.
pub proof fn lemma_sort_count(s: Seq<HistoryEntry>, a: Seq<char>)
    ensures
        entries_with_addr(stable_sort_desc(s), a) == entries_with_addr(s, a),
    decreases s,
{
    if s.len() > 0 {
        let pre = s.drop_last();
        lemma_sort_count(pre, a);
        lemma_insert_count(s.last(), stable_sort_desc(pre), a);
        lemma_count_push(pre, s.last(), a);
        assert(pre.push(s.last()) =~= s);
    }
}

/// An address occurs in no entry exactly when its count is zero.
pub proof fn lemma_count_zero(h: Seq<HistoryEntry>, a: Seq<char>)
    ensures
        entries_with_addr(h, a) == 0 <==> !hist_has_addr(h, a),
    decreases h,
{
    if h.len() > 0 {
        lemma_count_zero(h.drop_first(), a);
        let rest = h.drop_first();
        assert(forall|i: int| 0 <= i < rest.len() ==> #[trigger] rest[i] == h[i + 1]);
        if entries_with_addr(h, a) == 0 {
            assert(!entry_has_addr(h[0], a));
            assert forall|i: int| 0 <= i < h.len() implies !entry_has_addr(#[trigger] h[i], a) by {
                if i > 0 {
                    assert(rest[i - 1] == h[i]);
                    assert(!hist_has_addr(rest, a));
                }
            }
        } else {
            if entry_has_addr(h[0], a) {
                assert(hist_has_addr(h, a));
            } else {
                assert(entries_with_addr(rest, a) > 0);
                assert(hist_has_addr(rest, a));
                let w = choose|w: int| 0 <= w < rest.len() && entry_has_addr(#[trigger] rest[w], a);
                assert(entry_has_addr(h[w + 1], a));
                assert(hist_has_addr(h, a));
            }
        }
    }
}

/// One folding step only appends: the existing projection is kept
/// verbatim, every appended pair carries this entry's timestamp and a
/// name of this entry that was not yet a key, and afterwards a name
/// is a key exactly when it was one before or this entry carries it.
proof fn lemma_fold_contracts_props(m: Seq<(String, LatestRecord)>, e: HistoryEntry, k: int)
    requires
        0 <= k <= e.contracts@.len(),
    ensures
        fold_contracts(m, e, k).len() >= m.len(),
        forall|i: int| 0 <= i < m.len() ==> #[trigger] fold_contracts(m, e, k)[i] == m[i],
        forall|i: int|
            m.len() <= i < fold_contracts(m, e, k).len() ==> {
                let p = #[trigger] fold_contracts(m, e, k)[i];
                p.1.timestamp == e.timestamp && entry_has_name(e, p.0@) && !lat_has_key(
                    fold_contracts(m, e, k).take(i),
                    p.0@,
                )
            },
        forall|n: Seq<char>|
            #[trigger] lat_has_key(fold_contracts(m, e, k), n) <==> (lat_has_key(m, n) || exists|
                c: int,
            | 0 <= c < k && (#[trigger] e.contracts@[c]).0@ == n),
    decreases k,
{
    if k > 0 {
        lemma_fold_contracts_props(m, e, k - 1);
        let mp = fold_contracts(m, e, k - 1);
        let m2 = fold_contracts(m, e, k);
        let pair = e.contracts@[k - 1];
        if lat_has_key(mp, pair.0@) {
            assert(m2 == mp);
            assert forall|n: Seq<char>| #[trigger] lat_has_key(m2, n) <==> (lat_has_key(m, n)
                || exists|c: int| 0 <= c < k && (#[trigger] e.contracts@[c]).0@ == n) by {
                if lat_has_key(m2, n) {
                } else {
                    if exists|c: int| 0 <= c < k && (#[trigger] e.contracts@[c]).0@ == n {
                        let c = choose|c: int|
                            0 <= c < k && (#[trigger] e.contracts@[c]).0@ == n;
                        if c == k - 1 {
                            assert(lat_has_key(mp, n));
                        }
                    }
                }
            }
        } else {
            assert(m2 == mp.push((pair.0, latest_record_of(e, pair.1))));
            assert forall|i: int| m.len() <= i < m2.len() implies {
                let p = #[trigger] m2[i];
                p.1.timestamp == e.timestamp && entry_has_name(e, p.0@) && !lat_has_key(
                    m2.take(i),
                    p.0@,
                )
            } by {
                if i < mp.len() {
                    assert(m2[i] == mp[i]);
                    assert(m2.take(i) =~= mp.take(i));
                } else {
                    assert(m2[i] == (pair.0, latest_record_of(e, pair.1)));
                    assert(entry_has_name(e, pair.0@));
                    assert(m2.take(i) =~= mp);
                }
            }
            assert forall|n: Seq<char>| #[trigger] lat_has_key(m2, n) <==> (lat_has_key(m, n)
                || exists|c: int| 0 <= c < k && (#[trigger] e.contracts@[c]).0@ == n) by {
                if lat_has_key(m2, n) {
                    let w = choose|w: int| 0 <= w < m2.len() && (#[trigger] m2[w]).0@ == n;
                    if w < mp.len() {
                        assert(m2[w] == mp[w]);
                        assert(lat_has_key(mp, n));
                    } else {
                        assert(e.contracts@[k - 1].0@ == n);
                    }
                } else {
                    assert(!lat_has_key(mp, n)) by {
                        if lat_has_key(mp, n) {
                            let w = choose|w: int|
                                0 <= w < mp.len() && (#[trigger] mp[w]).0@ == n;
                            assert(m2[w].0@ == n);
                        }
                    }
                    if exists|c: int| 0 <= c < k && (#[trigger] e.contracts@[c]).0@ == n {
                        let c = choose|c: int|
                            0 <= c < k && (#[trigger] e.contracts@[c]).0@ == n;
                        if c == k - 1 {
                            assert(m2[mp.len() as int].0@ == n);
                            assert(lat_has_key(m2, n));
                        }
                    }
                }
            }
        }
    }
}

/// Over a reverse-chronologically sorted history the latest
/// projection has one key per contract name seen anywhere in the
/// history, each key exactly once, each record's timestamp is the
/// maximum timestamp among the entries carrying that name, and that
/// maximum is attained.
pub proof fn lemma_latest_props(s: Seq<HistoryEntry>)
    requires
        sorted_desc(s),
    ensures
        forall|n: Seq<char>| #[trigger] lat_has_key(latest_fold(s), n) <==> hist_has_name(s, n),
        forall|i: int|
            0 <= i < latest_fold(s).len() ==> !lat_has_key(
                latest_fold(s).take(i),
                (#[trigger] latest_fold(s)[i]).0@,
            ),
        forall|i: int, j: int|
            0 <= i < latest_fold(s).len() && 0 <= j < s.len() && entry_has_name(
                #[trigger] s[j],
                (#[trigger] latest_fold(s)[i]).0@,
            ) ==> s[j].timestamp <= latest_fold(s)[i].1.timestamp,
        forall|i: int|
            0 <= i < latest_fold(s).len() ==> exists|j: int|
                0 <= j < s.len() && entry_has_name(#[trigger] s[j], latest_fold(s)[i].0@) && s[j].timestamp
                    == (#[trigger] latest_fold(s)[i]).1.timestamp,
    decreases s,
{
    if s.len() == 0 {
    } else {
        let pre = s.drop_last();
        let e = s.last();
        assert(sorted_desc(pre)) by {
            assert(forall|i: int| 0 <= i < pre.len() ==> #[trigger] pre[i] == s[i]);
        }
        lemma_latest_props(pre);
        let mp = latest_fold(pre);
        let m = latest_fold(s);
        assert(m == fold_contracts(mp, e, e.contracts@.len() as int));
        lemma_fold_contracts_props(mp, e, e.contracts@.len() as int);
        assert forall|n: Seq<char>| #[trigger] lat_has_key(m, n) <==> hist_has_name(s, n) by {
            if lat_has_key(m, n) {
                if lat_has_key(mp, n) {
                    assert(hist_has_name(pre, n));
                    let j = choose|j: int| 0 <= j < pre.len() && entry_has_name(#[trigger] pre[j], n);
                    assert(entry_has_name(s[j], n));
                    assert(hist_has_name(s, n));
                } else {
                    let c = choose|c: int|
                        0 <= c < e.contracts@.len() && (#[trigger] e.contracts@[c]).0@ == n;
                    assert(entry_has_name(s[s.len() - 1], n));
                    assert(hist_has_name(s, n));
                }
            }
            if hist_has_name(s, n) {
                let j = choose|j: int| 0 <= j < s.len() && entry_has_name(#[trigger] s[j], n);
                if j < s.len() - 1 {
                    assert(entry_has_name(pre[j], n));
                    assert(hist_has_name(pre, n));
                    assert(lat_has_key(mp, n));
                } else {
                    assert(entry_has_name(e, n));
                    let c = choose|c: int|
                        0 <= c < e.contracts@.len() && (#[trigger] e.contracts@[c]).0@ == n;
                    assert(lat_has_key(m, n));
                }
            }
        }
        assert forall|i: int| 0 <= i < m.len() implies !lat_has_key(
            m.take(i),
            (#[trigger] m[i]).0@,
        ) by {
            if i < mp.len() {
                assert(m[i] == mp[i]);
                assert(m.take(i) =~= mp.take(i));
            }
        }
        assert forall|i: int, j: int|
            0 <= i < m.len() && 0 <= j < s.len() && entry_has_name(
                #[trigger] s[j],
                (#[trigger] m[i]).0@,
            ) implies s[j].timestamp <= m[i].1.timestamp by {
            let n = m[i].0@;
            if i < mp.len() {
                assert(m[i] == mp[i]);
                if j < s.len() - 1 {
                    assert(pre[j] == s[j]);
                    assert(pre[j].timestamp <= mp[i].1.timestamp);
                } else {
                    let j0 = choose|j0: int|
                        0 <= j0 < pre.len() && entry_has_name(#[trigger] pre[j0], mp[i].0@)
                            && pre[j0].timestamp == mp[i].1.timestamp;
                    assert(s[j0].timestamp >= s[s.len() - 1].timestamp);
                }
            } else {
                assert(m[i].1.timestamp == e.timestamp);
                if j < s.len() - 1 {
                    assert(entry_has_name(pre[j], n));
                    assert(hist_has_name(pre, n));
                    assert(lat_has_key(mp, n));
                    let w = choose|w: int| 0 <= w < mp.len() && (#[trigger] mp[w]).0@ == n;
                    assert(m.take(i)[w] == mp[w]);
                    assert(lat_has_key(m.take(i), n));
                    assert(false);
                } else {
                    assert(s[j].timestamp == e.timestamp);
                }
            }
        }
        assert forall|i: int| 0 <= i < m.len() implies exists|j: int|
            0 <= j < s.len() && entry_has_name(#[trigger] s[j], m[i].0@) && s[j].timestamp == (
            #[trigger] m[i]).1.timestamp by {
            if i < mp.len() {
                assert(m[i] == mp[i]);
                let j0 = choose|j0: int|
                    0 <= j0 < pre.len() && entry_has_name(#[trigger] pre[j0], mp[i].0@)
                        && pre[j0].timestamp == mp[i].1.timestamp;
                assert(s[j0] == pre[j0]);
                assert(entry_has_name(s[j0], m[i].0@) && s[j0].timestamp == m[i].1.timestamp);
            } else {
                assert(entry_has_name(s[s.len() - 1], m[i].0@) && s[s.len() - 1].timestamp
                    == m[i].1.timestamp);
            }
        }
    }
}

/// Stable reverse-chronological sort of the history. Entries move;
/// none is copied or rebuilt.
#[verifier::loop_isolation(false)]
pub fn sort_history(h: Vec<HistoryEntry>) -> (r: Vec<HistoryEntry>)
    ensures
        r@ == stable_sort_desc(h@),
{
    let ghost orig = h@;
    let mut rest = h;
    let mut out: Vec<HistoryEntry> = Vec::new();
    let ghost mut done: int = 0;
    while rest.len() > 0
        invariant
            0 <= done <= orig.len(),
            rest@ =~= orig.skip(done),
            out@ == stable_sort_desc(orig.take(done)),
        decreases rest@.len(),
    {
        let e = rest.remove(0);
        proof {
            assert(rest@ =~= orig.skip(done + 1));
            assert(e == orig[done]);
        }
        // find the first position whose timestamp is strictly older
        let mut k: usize = 0;
        while k < out.len() && out[k].timestamp >= e.timestamp
            invariant
                k <= out@.len(),
                forall|j: int| 0 <= j < k ==> (#[trigger] out@[j]).timestamp >= e.timestamp,
            decreases out@.len() - k,
        {
            k = k + 1;
        }
        proof {
            lemma_insert_at(e, out@, k as int);
        }
        let ghost before = out@;
        out.insert(k, e);
        proof {
            assert(out@ =~= before.take(k as int) + seq![e] + before.skip(k as int));
            let t = orig.take(done + 1);
            assert(t.drop_last() =~= orig.take(done));
            assert(t.last() == orig[done]);
            done = done + 1;
        }
    }
    proof {
        assert(orig.take(orig.len() as int) =~= orig);
    }
    out
}

/// True when the projection already has a record under this name.
#[verifier::loop_isolation(false)]
fn latest_contains(m: &Vec<(String, LatestRecord)>, name: &String) -> (b: bool)
    ensures
        b == lat_has_key(m@, name@),
{
    let mut i: usize = 0;
    while i < m.len()
        invariant
            i <= m@.len(),
            forall|j: int| 0 <= j < i ==> (#[trigger] m@[j]).0@ != name@,
        decreases m@.len() - i,
    {
        if m[i].0.eq(name) {
            return true;
        }
        i = i + 1;
    }
    false
}

fn clone_opt(o: &Option<String>) -> (r: Option<String>)
    ensures
        r == *o,
{
    match o {
        Some(s) => Some(s.clone()),
        None => None,
    }
}

/// Walks the sorted history in order and keeps, per contract name,
/// the first (most recent, stable-first among ties) entry found.
#[verifier::loop_isolation(false)]
pub fn build_latest(sorted: &Vec<HistoryEntry>) -> (r: Vec<(String, LatestRecord)>)
    ensures
        r@ == latest_fold(sorted@),
{
    let mut out: Vec<(String, LatestRecord)> = Vec::new();
    let mut i: usize = 0;
    while i < sorted.len()
        invariant
            i <= sorted@.len(),
            out@ == latest_fold(sorted@.take(i as int)),
        decreases sorted@.len() - i,
    {
        let entry = &sorted[i];
        let ghost base = out@;
        let mut j: usize = 0;
        while j < entry.contracts.len()
            invariant
                j <= entry.contracts@.len(),
                out@ == fold_contracts(base, *entry, j as int),
            decreases entry.contracts@.len() - j,
        {
            let name = &entry.contracts[j].0;
            let rec = &entry.contracts[j].1;
            if !latest_contains(&out, name) {
                let lr = LatestRecord {
                    address: rec.address.clone(),
                    proxy: rec.proxy,
                    deployment_txn: rec.deployment_txn.clone(),
                    timestamp: entry.timestamp,
                    commit_hash: clone_opt(&entry.commit_hash),
                    pool_init_code_hash: clone_opt(&rec.pool_init_code_hash),
                };
                out.push((name.clone(), lr));
                proof {
                    assert(out@.drop_last() =~= fold_contracts(base, *entry, j as int));
                    assert(out@.last() == (entry.contracts@[j as int].0, latest_record_of(
                        *entry,
                        entry.contracts@[j as int].1,
                    )));
                    assert(out@ =~= fold_contracts(base, *entry, j + 1int));
                }
            }
            j = j + 1;
        }
        proof {
            let t = sorted@.take(i + 1int);
            assert(t.drop_last() =~= sorted@.take(i as int));
            assert(t.last() == sorted@[i as int]);
        }
        i = i + 1;
    }
    proof {
        assert(sorted@.take(sorted@.len() as int) =~= sorted@);
    }
    out
}

/// Reconciles a mutated history: returns the history re-sorted
/// reverse-chronologically (stable) and the latest projection derived
/// from it.
pub fn reconcile(history: Vec<HistoryEntry>) -> (r: (Vec<HistoryEntry>, Vec<(String, LatestRecord)>))
    ensures
        r.0@ == stable_sort_desc(history@),
        r.1@ == latest_fold(r.0@),
        sorted_desc(r.0@),
{
    let ghost orig = history@;
    let sorted = sort_history(history);
    proof {
        lemma_sort_props(orig);
    }
    let latest = build_latest(&sorted);
    (sorted, latest)
}

} // verus!
