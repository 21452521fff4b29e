//! Aggregation of parsed candidates: case-normalization of the hardware
//! address, first-wins deduplication by that address, and a deterministic
//! byte-lexicographic order on the result.

use vstd::prelude::*;
use crate::bssid;
use crate::record;
use crate::record::RecordModel;
use crate::record::WifiRecord;
use crate::text;

verus! {

/// A candidate with its hardware address put into canonical uppercase form;
/// name and signal are kept as parsed.
pub open spec fn canonicalize_model(m: RecordModel) -> RecordModel {
    RecordModel { ssid: m.ssid, bssid: bssid::canonical_seq(m.bssid), signal: m.signal }
}

/// Whether some record in `rs` already carries the hardware address `key`.
pub open spec fn has_key(rs: Seq<RecordModel>, key: Seq<char>) -> bool {
    exists|i: int| 0 <= i < rs.len() && rs[i].bssid == key
}

/// First-wins deduplication: candidates are canonicalized in order, and a
/// candidate whose address was already seen is dropped.
pub open spec fn dedup_spec(cs: Seq<RecordModel>) -> Seq<RecordModel>
    decreases cs.len(),
{
    if cs.len() == 0 {
        Seq::empty()
    } else {
        let d = dedup_spec(cs.drop_last());
        let m = canonicalize_model(cs.last());
        if has_key(d, m.bssid) {
            d
        } else {
            d.push(m)
        }
    }
}

/// `i` is the position of the first candidate in `cs` whose canonical
/// address is `key`.
pub open spec fn is_first_with_key(cs: Seq<RecordModel>, i: int, key: Seq<char>) -> bool {
    &&& 0 <= i < cs.len()
    &&& bssid::canonical_seq(cs[i].bssid) == key
    &&& forall|i2: int| 0 <= i2 < i ==> bssid::canonical_seq(cs[i2].bssid) != key
}

/// Entry `j` of the deduplicated list is the canonical form of the first
/// candidate in `cs` that carried its address.
pub open spec fn dedup_entry_first_wins(cs: Seq<RecordModel>, j: int) -> bool {
    exists|i: int|
        is_first_with_key(cs, i, dedup_spec(cs)[j].bssid) && dedup_spec(cs)[j]
            == canonicalize_model(cs[i])
}

/// The deduplicated list holds an address exactly when some candidate
/// canonicalizes to it.
pub proof fn lemma_dedup_keys(cs: Seq<RecordModel>, key: Seq<char>)
    ensures
        has_key(dedup_spec(cs), key) <==> exists|i: int|
            0 <= i < cs.len() && bssid::canonical_seq(#[trigger] cs[i].bssid) == key,
    decreases cs.len(),
{
    if cs.len() > 0 {
        lemma_dedup_keys(cs.drop_last(), key);
        let d = dedup_spec(cs.drop_last());
        let m = canonicalize_model(cs.last());
        if has_key(d, m.bssid) && m.bssid == key {
            assert(has_key(dedup_spec(cs), key));
        }
        if has_key(dedup_spec(cs), key) {
            if !has_key(d, m.bssid) {
                let j = choose|j: int|
                    0 <= j < dedup_spec(cs).len() && dedup_spec(cs)[j].bssid == key;
                if j < d.len() {
                    assert(has_key(d, key));
                } else {
                    assert(bssid::canonical_seq(cs.last().bssid) == key);
                }
            }
        }
        if exists|i: int|
            0 <= i < cs.len() && bssid::canonical_seq(#[trigger] cs[i].bssid) == key {
            let i = choose|i: int|
                0 <= i < cs.len() && bssid::canonical_seq(#[trigger] cs[i].bssid) == key;
            if i < cs.len() - 1 {
                assert(bssid::canonical_seq(cs.drop_last()[i].bssid) == key);
                assert(has_key(d, key));
                if has_key(d, m.bssid) {
                    assert(has_key(dedup_spec(cs), key));
                } else {
                    let j = choose|j: int| 0 <= j < d.len() && d[j].bssid == key;
                    assert(dedup_spec(cs)[j].bssid == key);
                }
            } else {
                if !has_key(d, m.bssid) {
                    assert(dedup_spec(cs).last().bssid == key);
                } else {
                    let j = choose|j: int| 0 <= j < d.len() && d[j].bssid == key;
                    assert(dedup_spec(cs)[j].bssid == key);
                }
            }
        }
    }
}

/// What deduplication promises: every output record is canonical, no
/// address appears twice, and each output record is the canonical form of
/// the first candidate that carried its address.
pub proof fn lemma_dedup_spec(cs: Seq<RecordModel>)
    requires
        forall|i: int| 0 <= i < cs.len() ==> record::valid_candidate(#[trigger] cs[i]),
    ensures
        forall|j: int|
            0 <= j < dedup_spec(cs).len() ==> record::canonical_record(#[trigger] dedup_spec(cs)[j]),
        forall|j: int, j2: int|
            0 <= j < j2 < dedup_spec(cs).len() ==> dedup_spec(cs)[j].bssid != dedup_spec(
                cs,
            )[j2].bssid,
        forall|j: int| 0 <= j < dedup_spec(cs).len() ==> #[trigger] dedup_entry_first_wins(cs, j),
    decreases cs.len(),
{
    if cs.len() > 0 {
        let prefix = cs.drop_last();
        assert(forall|i: int| 0 <= i < prefix.len() ==> record::valid_candidate(#[trigger] prefix[i]));
        lemma_dedup_spec(prefix);
        let d = dedup_spec(prefix);
        let m = canonicalize_model(cs.last());
        bssid::lemma_canonical_bssid(cs.last().bssid);
        if !has_key(d, m.bssid) {
            let full = dedup_spec(cs);
            assert(full == d.push(m));
            assert forall|j: int| 0 <= j < full.len() implies record::canonical_record(
                full[j],
            ) by {
                if j < d.len() {
                    assert(full[j] == d[j]);
                } else {
                    assert(full[j] == m);
                }
            }
            assert forall|j: int, j2: int| 0 <= j < j2 < full.len() implies full[j].bssid
                != full[j2].bssid by {
                if j2 < d.len() {
                } else {
                    assert(full[j2] == m);
                    assert(full[j] == d[j]);
                    assert(!has_key(d, m.bssid));
                    if d[j].bssid == m.bssid {
                        assert(has_key(d, m.bssid));
                    }
                }
            }
            assert forall|j: int| 0 <= j < full.len() implies dedup_entry_first_wins(cs, j) by {
                if j < d.len() {
                    assert(full[j] == d[j]);
                    assert(dedup_entry_first_wins(prefix, j));
                    let i = choose|i: int|
                        is_first_with_key(prefix, i, d[j].bssid) && d[j] == canonicalize_model(
                            prefix[i],
                        );
                    assert(prefix[i] == cs[i]);
                    assert forall|i2: int| 0 <= i2 < i implies bssid::canonical_seq(cs[i2].bssid)
                        != full[j].bssid by {
                        assert(cs[i2] == prefix[i2]);
                    }
                    assert(is_first_with_key(cs, i, full[j].bssid));
                    assert(full[j] == canonicalize_model(cs[i]));
                } else {
                    assert(full[j] == m);
                    let i = cs.len() - 1;
                    lemma_dedup_keys(prefix, m.bssid);
                    assert forall|i2: int| 0 <= i2 < i implies bssid::canonical_seq(cs[i2].bssid)
                        != m.bssid by {
                        assert(cs[i2] == prefix[i2]);
                        if bssid::canonical_seq(prefix[i2].bssid) == m.bssid {
                            assert(has_key(d, m.bssid));
                        }
                    }
                    assert(is_first_with_key(cs, i, m.bssid));
                    assert(full[j] == canonicalize_model(cs[i]));
                }
            }
        } else {
            let full = dedup_spec(cs);
            assert(full == d);
            assert forall|j: int| 0 <= j < full.len() implies dedup_entry_first_wins(cs, j) by {
                assert(dedup_entry_first_wins(prefix, j));
                let i = choose|i: int|
                    is_first_with_key(prefix, i, full[j].bssid) && full[j] == canonicalize_model(
                        prefix[i],
                    );
                assert(prefix[i] == cs[i]);
                assert forall|i2: int| 0 <= i2 < i implies bssid::canonical_seq(cs[i2].bssid)
                    != full[j].bssid by {
                    assert(cs[i2] == prefix[i2]);
                }
                assert(is_first_with_key(cs, i, full[j].bssid));
                assert(full[j] == canonicalize_model(cs[i]));
            }
        }
    }
}

/// The distinct canonical addresses among the candidates.
pub open spec fn key_set(cs: Seq<RecordModel>) -> Set<Seq<char>>
    decreases cs.len(),
{
    if cs.len() == 0 {
        Set::empty()
    } else {
        key_set(cs.drop_last()).insert(bssid::canonical_seq(cs.last().bssid))
    }
}

/// The key set holds an address exactly when some candidate canonicalizes
/// to it, and it is finite.
pub proof fn lemma_key_set(cs: Seq<RecordModel>, key: Seq<char>)
    ensures
        key_set(cs).contains(key) <==> exists|i: int|
            0 <= i < cs.len() && bssid::canonical_seq(#[trigger] cs[i].bssid) == key,
        key_set(cs).finite(),
    decreases cs.len(),
{
    broadcast use vstd::set::group_set_axioms;

    if cs.len() > 0 {
        let prefix = cs.drop_last();
        lemma_key_set(prefix, key);
        let last_key = bssid::canonical_seq(cs.last().bssid);
        if key_set(cs).contains(key) && key != last_key {
            let i = choose|i: int|
                0 <= i < prefix.len() && bssid::canonical_seq(#[trigger] prefix[i].bssid) == key;
            assert(bssid::canonical_seq(cs[i].bssid) == key);
        }
        if exists|i: int|
            0 <= i < cs.len() && bssid::canonical_seq(#[trigger] cs[i].bssid) == key {
            let i = choose|i: int|
                0 <= i < cs.len() && bssid::canonical_seq(#[trigger] cs[i].bssid) == key;
            if i < cs.len() - 1 {
                assert(bssid::canonical_seq(prefix[i].bssid) == key);
                assert(key_set(prefix).contains(key));
            }
        }
    }
}

/// Deduplication counts addresses: the deduplicated list has exactly one
/// record per distinct canonical address of the input, so its length is
/// the number of those addresses.
pub proof fn lemma_dedup_counts_distinct_keys(cs: Seq<RecordModel>)
    ensures
        dedup_spec(cs).len() == key_set(cs).len(),
    decreases cs.len(),
{
    broadcast use vstd::set::group_set_axioms;
    broadcast use vstd::set::axiom_set_empty_len;
    broadcast use vstd::set::axiom_set_insert_len;

    if cs.len() == 0 {
    } else {
        let prefix = cs.drop_last();
        lemma_dedup_counts_distinct_keys(prefix);
        let m = canonicalize_model(cs.last());
        lemma_dedup_keys(prefix, m.bssid);
        lemma_key_set(prefix, m.bssid);
        assert(has_key(dedup_spec(prefix), m.bssid) <==> key_set(prefix).contains(m.bssid));
    }
}

/// Whether a record with address `key` is already in `out`.
fn contains_key(out: &Vec<WifiRecord>, key: &str) -> (r: bool)
    ensures
        r == has_key(out.deep_view(), key@),
{
    let mut j: usize = 0;
    while j < out.len()
        invariant
            j <= out@.len(),
            forall|i: int| 0 <= i < j ==> out.deep_view()[i].bssid != key@,
        decreases out@.len() - j,
    {
        if text::str_eq(out[j].bssid.as_str(), key) {
            proof {
                assert(out.deep_view()[j as int].bssid == key@);
            }
            return true;
        }
        j += 1;
    }
    false
}

/// Canonicalizes and deduplicates the candidate list, first wins.
#[verifier::loop_isolation(false)]
fn dedup_records(cs: &Vec<WifiRecord>) -> (r: Vec<WifiRecord>)
    ensures
        r.deep_view() == dedup_spec(cs.deep_view()),
{
    let mut out: Vec<WifiRecord> = Vec::new();
    let mut i: usize = 0;
    proof {
        assert(cs.deep_view().take(0) =~= Seq::<RecordModel>::empty());
    }
    while i < cs.len()
        invariant
            i <= cs@.len(),
            out.deep_view() == dedup_spec(cs.deep_view().take(i as int)),
        decreases cs@.len() - i,
    {
        let key = bssid::canonical_bssid(cs[i].bssid.as_str());
        let ghost prev = cs.deep_view().take(i as int);
        proof {
            assert(cs.deep_view().take(i + 1).drop_last() =~= prev);
            assert(cs.deep_view().take(i + 1).last() == cs.deep_view()[i as int]);
            assert(canonicalize_model(cs.deep_view()[i as int]).bssid == key@);
        }
        if !contains_key(&out, key.as_str()) {
            let rec = WifiRecord {
                ssid: cs[i].ssid.clone(),
                bssid: key,
                signal: cs[i].signal.clone(),
            };
            let ghost old_dv = out.deep_view();
            out.push(rec);
            proof {
                assert(out.deep_view() =~= old_dv.push(rec@));
                assert(rec@ == canonicalize_model(cs.deep_view()[i as int]));
            }
        }
        i += 1;
    }
    proof {
        assert(cs.deep_view().take(cs@.len() as int) =~= cs.deep_view());
    }
    out
}

/// The records are in strictly increasing address order when every pair is
/// ordered; with distinct addresses this pins the sequence completely.
pub open spec fn sorted_by_key(rs: Seq<RecordModel>) -> bool {
    forall|i: int, j: int| 0 <= i < j < rs.len() ==> bssid::lex_le(rs[i].bssid, rs[j].bssid)
}

/// Inserts a record into a sorted list, keeping it sorted.
#[verifier::loop_isolation(false)]
fn insert_sorted(out: &mut Vec<WifiRecord>, rec: WifiRecord)
    requires
        sorted_by_key(old(out).deep_view()),
    ensures
        sorted_by_key(final(out).deep_view()),
        final(out).deep_view().to_multiset() == old(out).deep_view().to_multiset().insert(rec@),
{
    broadcast use vstd::seq_lib::to_multiset_insert;

    let mut p: usize = 0;
    while p < out.len() && !bssid::str_lex_le(rec.bssid.as_str(), out[p].bssid.as_str())
        invariant
            p <= out@.len(),
            forall|j: int| 0 <= j < p ==> !bssid::lex_le(rec@.bssid, out.deep_view()[j].bssid),
        decreases out@.len() - p,
    {
        p += 1;
    }
    let ghost old_dv = out.deep_view();
    out.insert(p, rec);
    proof {
        assert(out.deep_view() =~= old_dv.insert(p as int, rec@));
        assert(out.deep_view().to_multiset() == old_dv.to_multiset().insert(rec@));
        let dv = out.deep_view();
        assert forall|i: int, j: int| 0 <= i < j < dv.len() implies bssid::lex_le(
            dv[i].bssid,
            dv[j].bssid,
        ) by {
            if j < p {
                assert(dv[i] == old_dv[i] && dv[j] == old_dv[j]);
            } else if i < p && j == p {
                assert(dv[i] == old_dv[i]);
                bssid::lemma_lex_le_total(rec@.bssid, old_dv[i].bssid);
            } else if i < p && j > p {
                assert(dv[i] == old_dv[i] && dv[j] == old_dv[j - 1]);
            } else if i == p && j > p {
                assert(dv[j] == old_dv[j - 1]);
                assert(bssid::lex_le(rec@.bssid, old_dv[p as int].bssid));
                if j - 1 > p {
                    bssid::lemma_lex_le_trans(rec@.bssid, old_dv[p as int].bssid, old_dv[j
                        - 1].bssid);
                }
            } else {
                assert(dv[i] == old_dv[i - 1] && dv[j] == old_dv[j - 1]);
            }
        }
    }
}

/// Sorts the records by hardware address.
#[verifier::loop_isolation(false)]
fn sort_records(rs: Vec<WifiRecord>) -> (r: Vec<WifiRecord>)
    ensures
        sorted_by_key(r.deep_view()),
        r.deep_view().to_multiset() == rs.deep_view().to_multiset(),
{
    broadcast use vstd::seq_lib::to_multiset_build;

    let mut out: Vec<WifiRecord> = Vec::new();
    let mut i: usize = 0;
    proof {
        assert(rs.deep_view().take(0) =~= Seq::<RecordModel>::empty());
        assert(out.deep_view() =~= Seq::<RecordModel>::empty());
    }
    while i < rs.len()
        invariant
            i <= rs@.len(),
            sorted_by_key(out.deep_view()),
            out.deep_view().to_multiset() == rs.deep_view().take(i as int).to_multiset(),
        decreases rs@.len() - i,
    {
        let rec = rs[i].clone();
        proof {
            assert(rec@ == rs.deep_view()[i as int]);
            assert(rs.deep_view().take(i + 1).drop_last() =~= rs.deep_view().take(i as int));
            assert(rs.deep_view().take(i + 1) =~= rs.deep_view().take(i as int).push(rec@));
        }
        insert_sorted(&mut out, rec);
        i += 1;
    }
    proof {
        assert(rs.deep_view().take(rs@.len() as int) =~= rs.deep_view());
    }
    out
}

/// Merges the candidates of one scan into the final aggregate: addresses
/// are uppercased, duplicates collapse onto the first candidate that
/// carried the address, and the result is ordered by address.
///
/// The multiset equation pins the contents to exactly the deduplicated
/// candidates; together with the strict order this pins the whole
/// sequence.  Every record of the result is canonical, and no two share a
/// hardware address.
pub fn aggregate(cs: &Vec<WifiRecord>) -> (r: Vec<WifiRecord>)
    requires
        forall|i: int|
            0 <= i < cs.deep_view().len() ==> record::valid_candidate(#[trigger] cs.deep_view()[i]),
    ensures
        r.deep_view().to_multiset() == dedup_spec(cs.deep_view()).to_multiset(),
        r.deep_view().len() == dedup_spec(cs.deep_view()).len(),
        sorted_by_key(r.deep_view()),
        forall|j: int|
            0 <= j < r.deep_view().len() ==> record::canonical_record(#[trigger] r.deep_view()[j]),
        forall|i: int, j: int|
            0 <= i < j < r.deep_view().len() ==> r.deep_view()[i].bssid != r.deep_view()[j].bssid,
{
    let d = dedup_records(cs);
    let r = sort_records(d);
    proof {
        broadcast use vstd::seq_lib::group_to_multiset_ensures;

        lemma_dedup_spec(cs.deep_view());
        let dd = dedup_spec(cs.deep_view());
        let dv = r.deep_view();
        assert(dv.to_multiset() == dd.to_multiset());
        assert(dv.len() == dv.to_multiset().len());
        assert(dd.len() == dd.to_multiset().len());
        assert(dd.no_duplicates()) by {
            assert forall|p1: int, p2: int|
                0 <= p1 < dd.len() && 0 <= p2 < dd.len() && p1 != p2 implies dd[p1] != dd[p2] by {
                if p1 < p2 {
                    assert(dd[p1].bssid != dd[p2].bssid);
                } else {
                    assert(dd[p2].bssid != dd[p1].bssid);
                }
            }
        }
        assert forall|j: int| 0 <= j < dv.len() implies record::canonical_record(dv[j]) by {
            assert(dv.contains(dv[j]));
            assert(dd.to_multiset().count(dv[j]) > 0);
            assert(dd.contains(dv[j]));
            let p = choose|p: int| 0 <= p < dd.len() && dd[p] == dv[j];
            assert(record::canonical_record(dd[p]));
        }
        assert forall|i: int, j: int| 0 <= i < j < dv.len() implies dv[i].bssid != dv[j].bssid by {
            if dv[i].bssid == dv[j].bssid {
                if dv[i] == dv[j] {
                    let x = dv[i];
                    assert(dv.remove(i).to_multiset() == dv.to_multiset().remove(x));
                    assert(dv.remove(i)[j - 1] == dv[j]);
                    assert(dv.remove(i).contains(x));
                    assert(dv.remove(i).to_multiset().count(x) > 0);
                    assert(dv.to_multiset().count(x) >= 2);
                    dd.lemma_multiset_has_no_duplicates();
                    assert(dd.to_multiset().contains(x));
                } else {
                    assert(dd.to_multiset().count(dv[i]) > 0);
                    assert(dd.to_multiset().count(dv[j]) > 0);
                    assert(dd.contains(dv[i]));
                    assert(dd.contains(dv[j]));
                    let p1 = choose|p: int| 0 <= p < dd.len() && dd[p] == dv[i];
                    let p2 = choose|p: int| 0 <= p < dd.len() && dd[p] == dv[j];
                    assert(p1 != p2);
                    if p1 < p2 {
                        assert(dd[p1].bssid != dd[p2].bssid);
                    } else {
                        assert(dd[p2].bssid != dd[p1].bssid);
                    }
                }
            }
        }
    }
    r
}

} // verus!
