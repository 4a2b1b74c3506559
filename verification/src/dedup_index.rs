//! The duplicate index: for each fingerprint the one file that is kept.

use crate::fingerprint::{FileRecord, Fingerprint, Timestamp};
use std::collections::HashMap;
use vstd::prelude::*;

verus! {

broadcast use vstd::std_specs::hash::group_hash_axioms;

/// What the index holds for a fingerprint: the kept file's creation time
/// and path.
pub type Kept<P> = (Timestamp, P);

/// Whether a new file with timestamp `new` takes the place of the kept file
/// with timestamp `kept`.
///
/// Without `keep_older` the new file wins when it is strictly newer, with
/// `keep_older` when it is strictly older. Equal timestamps change
/// nothing: under either policy the kept file stays.
pub open spec fn replaces_kept(keep_older: bool, new: Timestamp, kept: Timestamp) -> bool {
    if keep_older {
        new < kept
    } else {
        new > kept
    }
}

/// What the arrival of a record decides.
#[derive(Debug, Clone, Copy, PartialEq, Eq)]
pub enum Verdict {
    /// The fingerprint is new: the record is entered and nothing is to
    /// delete.
    Entered,
    /// The kept file stays and the arriving file is to delete.
    KeptIncumbent,
    /// The arriving file takes the place of the kept file, which is to
    /// delete.
    Replaced,
}

/// What the arrival of a file with this fingerprint and timestamp decides
/// at an index that holds `kept`.
pub open spec fn verdict_of<P>(
    kept: Map<Fingerprint, Kept<P>>,
    keep_older: bool,
    fingerprint: Fingerprint,
    timestamp: Timestamp,
) -> Verdict {
    if !kept.contains_key(fingerprint) {
        Verdict::Entered
    } else if replaces_kept(keep_older, timestamp, kept[fingerprint].0) {
        Verdict::Replaced
    } else {
        Verdict::KeptIncumbent
    }
}

/// The path to delete when `record` arrives at an index that holds `kept`.
pub open spec fn resolve_loser<P>(
    kept: Map<Fingerprint, Kept<P>>,
    keep_older: bool,
    record: FileRecord<P>,
) -> Option<P> {
    match verdict_of(kept, keep_older, record.fingerprint, record.timestamp) {
        Verdict::Entered => None,
        Verdict::KeptIncumbent => Some(record.path),
        Verdict::Replaced => Some(kept[record.fingerprint].1),
    }
}

/// What the index holds after `record` arrived at one that held `kept`.
pub open spec fn resolve_kept<P>(
    kept: Map<Fingerprint, Kept<P>>,
    keep_older: bool,
    record: FileRecord<P>,
) -> Map<Fingerprint, Kept<P>> {
    match verdict_of(kept, keep_older, record.fingerprint, record.timestamp) {
        Verdict::KeptIncumbent => kept,
        _ => kept.insert(record.fingerprint, (record.timestamp, record.path)),
    }
}

/// Maps each fingerprint seen so far to the file kept for it.
///
/// The index has one owner: `resolve` takes it by `&mut`, so no two
/// decisions on it can interleave.
pub struct DedupIndex<P> {
    kept: HashMap<Fingerprint, Kept<P>>,
    keep_older: bool,
}

impl<P> View for DedupIndex<P> {
    type V = Map<Fingerprint, Kept<P>>;

    closed spec fn view(&self) -> Map<Fingerprint, Kept<P>> {
        self.kept@
    }
}

impl<P> DedupIndex<P> {
    /// The policy this index was made with.
    pub closed spec fn keeps_older(&self) -> bool {
        self.keep_older
    }

    /// An empty index. With `keep_older` the older of two files with one
    /// fingerprint is kept, without it the newer.
    pub fn new(keep_older: bool) -> (index: Self)
        ensures
            index@ == Map::<Fingerprint, Kept<P>>::empty(),
            index.keeps_older() == keep_older,
    {
        DedupIndex { kept: HashMap::new(), keep_older }
    }

    /// The policy this index was made with.
    pub fn keep_older(&self) -> (keep_older: bool)
        ensures
            keep_older == self.keeps_older(),
    {
        self.keep_older
    }

    /// The number of fingerprints seen.
    pub fn len(&self) -> (len: usize)
        ensures
            len == self@.len(),
            self@.dom().finite(),
    {
        self.kept.len()
    }

    /// The file kept for a fingerprint, if the fingerprint was seen.
    pub fn get(&self, fingerprint: Fingerprint) -> (kept: Option<&Kept<P>>)
        ensures
            match kept {
                Some(entry) => self@.contains_key(fingerprint) && *entry == self@[fingerprint],
                None => !self@.contains_key(fingerprint),
            },
    {
        self.kept.get(&fingerprint)
    }

    /// What the arrival of a file with this fingerprint and timestamp
    /// would decide, as the index stands.
    pub fn verdict(&self, fingerprint: Fingerprint, timestamp: Timestamp) -> (verdict: Verdict)
        ensures
            verdict == verdict_of(self@, self.keeps_older(), fingerprint, timestamp),
    {
        match self.kept.get(&fingerprint) {
            None => Verdict::Entered,
            Some(entry) => {
                let replaces = if self.keep_older {
                    timestamp < entry.0
                } else {
                    timestamp > entry.0
                };
                if replaces {
                    Verdict::Replaced
                } else {
                    Verdict::KeptIncumbent
                }
            },
        }
    }

    /// Takes a new record in and gives the path to delete, if any.
    ///
    /// A fingerprint not seen before is entered and nothing is to
    /// delete. Otherwise one of the two files with that fingerprint stays
    /// in the index and the path of the other is returned.
    pub fn resolve(&mut self, record: FileRecord<P>) -> (loser: Option<P>)
        ensures
            final(self)@ == resolve_kept(old(self)@, old(self).keeps_older(), record),
            loser == resolve_loser(old(self)@, old(self).keeps_older(), record),
            final(self).keeps_older() == old(self).keeps_older(),
    {
        let FileRecord { fingerprint, timestamp, path } = record;
        match self.verdict(fingerprint, timestamp) {
            Verdict::KeptIncumbent => Some(path),
            _ => match self.kept.insert(fingerprint, (timestamp, path)) {
                Some(entry) => Some(entry.1),
                None => None,
            },
        }
    }
}

/// Each arrival either enters a new fingerprint or names one loser, never
/// both: the index grows by one exactly when nothing is to delete.
pub proof fn resolve_enters_or_names_loser<P>(
    kept: Map<Fingerprint, Kept<P>>,
    keep_older: bool,
    record: FileRecord<P>,
)
    requires
        kept.dom().finite(),
    ensures
        resolve_kept(kept, keep_older, record).dom().finite(),
        resolve_kept(kept, keep_older, record).contains_key(record.fingerprint),
        resolve_loser(kept, keep_older, record) is None ==> resolve_kept(
            kept,
            keep_older,
            record,
        ).len() == kept.len() + 1,
        resolve_loser(kept, keep_older, record) is Some ==> resolve_kept(
            kept,
            keep_older,
            record,
        ).len() == kept.len(),
        forall|other: Fingerprint|
            other != record.fingerprint ==> (#[trigger] resolve_kept(
                kept,
                keep_older,
                record,
            ).contains_key(other) <==> kept.contains_key(other)) && (kept.contains_key(other)
                ==> resolve_kept(kept, keep_older, record)[other] == kept[other]),
{
    let after = resolve_kept(kept, keep_older, record);
    if kept.contains_key(record.fingerprint) {
        assert(after.dom() =~= kept.dom());
    } else {
        assert(after.dom() =~= kept.dom().insert(record.fingerprint));
    }
}

/// Without `keep_older`, two records with one fingerprint and distinct
/// timestamps, arriving in either order at an index that has not seen the
/// fingerprint, end with the newer one kept. The first arrival names no
/// loser and the second names the older record's path, so the older path is
/// named exactly once.
pub proof fn newer_is_kept_in_either_order<P>(
    kept: Map<Fingerprint, Kept<P>>,
    older: FileRecord<P>,
    newer: FileRecord<P>,
)
    requires
        older.fingerprint == newer.fingerprint,
        older.timestamp < newer.timestamp,
        !kept.contains_key(older.fingerprint),
    ensures
        resolve_loser(kept, false, older) is None,
        resolve_loser(resolve_kept(kept, false, older), false, newer) == Some(older.path),
        resolve_kept(resolve_kept(kept, false, older), false, newer) == kept.insert(
            newer.fingerprint,
            (newer.timestamp, newer.path),
        ),
        resolve_loser(kept, false, newer) is None,
        resolve_loser(resolve_kept(kept, false, newer), false, older) == Some(older.path),
        resolve_kept(resolve_kept(kept, false, newer), false, older) == kept.insert(
            newer.fingerprint,
            (newer.timestamp, newer.path),
        ),
{
    let fingerprint = older.fingerprint;
    let wanted = kept.insert(fingerprint, (newer.timestamp, newer.path));
    assert(resolve_kept(resolve_kept(kept, false, older), false, newer) =~= wanted);
    assert(resolve_kept(resolve_kept(kept, false, newer), false, older) =~= wanted);
}

/// With `keep_older`, the same two records in either order end with the
/// older one kept, and the newer path is named exactly once.
pub proof fn older_is_kept_in_either_order<P>(
    kept: Map<Fingerprint, Kept<P>>,
    older: FileRecord<P>,
    newer: FileRecord<P>,
)
    requires
        older.fingerprint == newer.fingerprint,
        older.timestamp < newer.timestamp,
        !kept.contains_key(older.fingerprint),
    ensures
        resolve_loser(kept, true, older) is None,
        resolve_loser(resolve_kept(kept, true, older), true, newer) == Some(newer.path),
        resolve_kept(resolve_kept(kept, true, older), true, newer) == kept.insert(
            older.fingerprint,
            (older.timestamp, older.path),
        ),
        resolve_loser(kept, true, newer) is None,
        resolve_loser(resolve_kept(kept, true, newer), true, older) == Some(newer.path),
        resolve_kept(resolve_kept(kept, true, newer), true, older) == kept.insert(
            older.fingerprint,
            (older.timestamp, older.path),
        ),
{
    let fingerprint = older.fingerprint;
    let wanted = kept.insert(fingerprint, (older.timestamp, older.path));
    assert(resolve_kept(resolve_kept(kept, true, older), true, newer) =~= wanted);
    assert(resolve_kept(resolve_kept(kept, true, newer), true, older) =~= wanted);
}

/// Under either policy, a record whose timestamp equals that of the kept
/// file loses to it: the index stays as it is and the new path is the
/// loser.
pub proof fn tie_keeps_incumbent<P>(
    kept: Map<Fingerprint, Kept<P>>,
    keep_older: bool,
    record: FileRecord<P>,
)
    requires
        kept.contains_key(record.fingerprint),
        kept[record.fingerprint].0 == record.timestamp,
    ensures
        verdict_of(kept, keep_older, record.fingerprint, record.timestamp)
            == Verdict::KeptIncumbent,
        resolve_kept(kept, keep_older, record) == kept,
        resolve_loser(kept, keep_older, record) == Some(record.path),
{
}

/// Under either policy, of two records with one fingerprint and equal
/// timestamps the one that arrives first is kept and the second is the
/// loser.
pub proof fn tie_keeps_first_arrival<P>(
    kept: Map<Fingerprint, Kept<P>>,
    keep_older: bool,
    first: FileRecord<P>,
    second: FileRecord<P>,
)
    requires
        first.fingerprint == second.fingerprint,
        first.timestamp == second.timestamp,
        !kept.contains_key(first.fingerprint),
    ensures
        resolve_loser(kept, keep_older, first) is None,
        resolve_loser(resolve_kept(kept, keep_older, first), keep_older, second) == Some(
            second.path,
        ),
        resolve_kept(resolve_kept(kept, keep_older, first), keep_older, second) == kept.insert(
            first.fingerprint,
            (first.timestamp, first.path),
        ),
{
}

/// What an index that started empty holds after `records` arrived in
/// this order.
pub open spec fn kept_after<P>(keep_older: bool, records: Seq<FileRecord<P>>) -> Map<
    Fingerprint,
    Kept<P>,
>
    decreases records.len(),
{
    if records.len() == 0 {
        Map::empty()
    } else {
        resolve_kept(kept_after(keep_older, records.drop_last()), keep_older, records.last())
    }
}

/// The losers that an index that started empty named while `records`
/// arrived in this order, in the order in which it named them.
pub open spec fn losers_after<P>(keep_older: bool, records: Seq<FileRecord<P>>) -> Seq<P>
    decreases records.len(),
{
    if records.len() == 0 {
        Seq::empty()
    } else {
        let before = losers_after(keep_older, records.drop_last());
        match resolve_loser(
            kept_after(keep_older, records.drop_last()),
            keep_older,
            records.last(),
        ) {
            Some(path) => before.push(path),
            None => before,
        }
    }
}

/// The record at place `i` has fingerprint `fingerprint` and is what
/// `entry` holds.
pub open spec fn is_record_at<P>(
    records: Seq<FileRecord<P>>,
    i: int,
    fingerprint: Fingerprint,
    entry: Kept<P>,
) -> bool {
    &&& 0 <= i < records.len()
    &&& records[i].fingerprint == fingerprint
    &&& entry == (records[i].timestamp, records[i].path)
}

/// The record at place `i` has the path `path`.
pub open spec fn is_path_at<P>(records: Seq<FileRecord<P>>, i: int, path: P) -> bool {
    0 <= i < records.len() && records[i].path == path
}

/// Some record has the path `path`.
pub open spec fn path_arrived<P>(records: Seq<FileRecord<P>>, path: P) -> bool {
    exists|i: int| is_path_at(records, i, path)
}

/// No two records have the same path.
pub open spec fn distinct_paths<P>(records: Seq<FileRecord<P>>) -> bool {
    forall|i: int, j: int|
        0 <= i < j < records.len() ==> (#[trigger] records[i]).path != (#[trigger] records[j]).path
}

/// Every record that arrived is either kept or named one loser: the
/// entries of the index and the losers named so far add up to the
/// arrivals.
pub proof fn arrivals_are_kept_or_lose<P>(keep_older: bool, records: Seq<FileRecord<P>>)
    ensures
        kept_after(keep_older, records).dom().finite(),
        kept_after(keep_older, records).len() + losers_after(keep_older, records).len()
            == records.len(),
    decreases records.len(),
{
    if records.len() == 0 {
        assert(kept_after(keep_older, records).dom() =~= Set::<Fingerprint>::empty());
    } else {
        arrivals_are_kept_or_lose(keep_older, records.drop_last());
        resolve_enters_or_names_loser(
            kept_after(keep_older, records.drop_last()),
            keep_older,
            records.last(),
        );
    }
}

/// For each fingerprint that arrived the index holds exactly one survivor,
/// and the survivor is one of the records that arrived with that
/// fingerprint. A fingerprint that did not arrive is not in the index.
pub proof fn survivor_is_an_arrival<P>(keep_older: bool, records: Seq<FileRecord<P>>)
    ensures
        forall|i: int|
            0 <= i < records.len() ==> kept_after(keep_older, records).contains_key(
                (#[trigger] records[i]).fingerprint,
            ),
        forall|fingerprint: Fingerprint| #[trigger]
            kept_after(keep_older, records).contains_key(fingerprint) ==> exists|i: int|
                is_record_at(
                    records,
                    i,
                    fingerprint,
                    kept_after(keep_older, records)[fingerprint],
                ),
    decreases records.len(),
{
    if records.len() > 0 {
        let before = records.drop_last();
        let last = records.last();
        let kept_before = kept_after(keep_older, before);
        let kept = kept_after(keep_older, records);
        survivor_is_an_arrival(keep_older, before);
        arrivals_are_kept_or_lose(keep_older, before);
        resolve_enters_or_names_loser(kept_before, keep_older, last);
        assert forall|i: int| 0 <= i < records.len() implies kept.contains_key(
            (#[trigger] records[i]).fingerprint,
        ) by {
            if i < before.len() {
                assert(before[i] == records[i]);
                assert(kept_before.contains_key(before[i].fingerprint));
            }
        }
        assert forall|fingerprint: Fingerprint| #[trigger]
            kept.contains_key(fingerprint) implies exists|i: int|
            is_record_at(records, i, fingerprint, kept[fingerprint]) by {
            if kept_before.contains_key(fingerprint) && kept[fingerprint]
                == kept_before[fingerprint] {
                let i = choose|i: int|
                    is_record_at(before, i, fingerprint, kept_before[fingerprint]);
                assert(before[i] == records[i]);
                assert(is_record_at(records, i, fingerprint, kept[fingerprint]));
            } else {
                assert(is_record_at(records, records.len() - 1, fingerprint, kept[fingerprint]));
            }
        }
    }
}

/// Every loser named is the path of a record that arrived.
pub proof fn loser_is_an_arrival<P>(keep_older: bool, records: Seq<FileRecord<P>>)
    ensures
        forall|j: int|
            0 <= j < losers_after(keep_older, records).len() ==> path_arrived(
                records,
                #[trigger] losers_after(keep_older, records)[j],
            ),
    decreases records.len(),
{
    if records.len() > 0 {
        let before = records.drop_last();
        let last = records.last();
        let kept_before = kept_after(keep_older, before);
        let losers_before = losers_after(keep_older, before);
        let losers = losers_after(keep_older, records);
        loser_is_an_arrival(keep_older, before);
        survivor_is_an_arrival(keep_older, before);
        assert forall|j: int| 0 <= j < losers.len() implies path_arrived(
            records,
            #[trigger] losers[j],
        ) by {
            if j < losers_before.len() {
                assert(losers[j] == losers_before[j]);
                assert(path_arrived(before, losers_before[j]));
                let i = choose|i: int| is_path_at(before, i, losers_before[j]);
                assert(before[i] == records[i]);
                assert(is_path_at(records, i, losers[j]));
            } else {
                match verdict_of(kept_before, keep_older, last.fingerprint, last.timestamp) {
                    Verdict::Entered => {},
                    Verdict::KeptIncumbent => {
                        assert(is_path_at(records, records.len() - 1, losers[j]));
                    },
                    Verdict::Replaced => {
                        let i = choose|i: int|
                            is_record_at(
                                before,
                                i,
                                last.fingerprint,
                                kept_before[last.fingerprint],
                            );
                        assert(before[i] == records[i]);
                        assert(is_path_at(records, i, losers[j]));
                    },
                }
            }
        }
    }
}

/// Without `keep_older`, no record that arrived is newer than the survivor
/// of its fingerprint: the survivor is a newest file of its group, in
/// whatever order the group arrived.
pub proof fn newest_survives<P>(records: Seq<FileRecord<P>>)
    ensures
        forall|i: int|
            0 <= i < records.len() ==> {
                &&& kept_after(false, records).contains_key((#[trigger] records[i]).fingerprint)
                &&& kept_after(false, records)[records[i].fingerprint].0 >= records[i].timestamp
            },
    decreases records.len(),
{
    if records.len() > 0 {
        let before = records.drop_last();
        let kept_before = kept_after(false, before);
        let kept = kept_after(false, records);
        newest_survives(before);
        assert forall|i: int| 0 <= i < records.len() implies {
            &&& kept.contains_key((#[trigger] records[i]).fingerprint)
            &&& kept[records[i].fingerprint].0 >= records[i].timestamp
        } by {
            if i < before.len() {
                assert(before[i] == records[i]);
                assert(kept_before.contains_key(before[i].fingerprint));
            }
        }
    }
}

/// With `keep_older`, no record that arrived is older than the survivor of
/// its fingerprint: the survivor is an oldest file of its group, in
/// whatever order the group arrived.
pub proof fn oldest_survives<P>(records: Seq<FileRecord<P>>)
    ensures
        forall|i: int|
            0 <= i < records.len() ==> {
                &&& kept_after(true, records).contains_key((#[trigger] records[i]).fingerprint)
                &&& kept_after(true, records)[records[i].fingerprint].0 <= records[i].timestamp
            },
    decreases records.len(),
{
    if records.len() > 0 {
        let before = records.drop_last();
        let kept_before = kept_after(true, before);
        let kept = kept_after(true, records);
        oldest_survives(before);
        assert forall|i: int| 0 <= i < records.len() implies {
            &&& kept.contains_key((#[trigger] records[i]).fingerprint)
            &&& kept[records[i].fingerprint].0 <= records[i].timestamp
        } by {
            if i < before.len() {
                assert(before[i] == records[i]);
                assert(kept_before.contains_key(before[i].fingerprint));
            }
        }
    }
}

/// Where no two records have the same path, no path is named a loser
/// twice, no kept file is named a loser, and every record that arrived is
/// either the survivor of its fingerprint or among the losers.
pub proof fn distinct_paths_lose_at_most_once<P>(keep_older: bool, records: Seq<FileRecord<P>>)
    requires
        distinct_paths(records),
    ensures
        losers_after(keep_older, records).no_duplicates(),
        forall|fingerprint: Fingerprint, j: int|
            #![trigger kept_after(keep_older, records)[fingerprint], losers_after(keep_older, records)[j]]
            kept_after(keep_older, records).contains_key(fingerprint) && 0 <= j < losers_after(
                keep_older,
                records,
            ).len() ==> kept_after(keep_older, records)[fingerprint].1 != losers_after(
                keep_older,
                records,
            )[j],
        forall|i: int|
            0 <= i < records.len() ==> {
                ||| kept_after(keep_older, records)[(#[trigger] records[i]).fingerprint].1
                    == records[i].path
                ||| losers_after(keep_older, records).contains(records[i].path)
            },
    decreases records.len(),
{
    if records.len() > 0 {
        let before = records.drop_last();
        let last = records.last();
        let n = before.len() as int;
        let kept_before = kept_after(keep_older, before);
        let losers_before = losers_after(keep_older, before);
        let kept = kept_after(keep_older, records);
        let losers = losers_after(keep_older, records);
        assert(distinct_paths(before)) by {
            assert forall|i: int, j: int| 0 <= i < j < before.len() implies (
            #[trigger] before[i]).path != (#[trigger] before[j]).path by {
                assert(before[i] == records[i] && before[j] == records[j]);
            }
        }
        distinct_paths_lose_at_most_once(keep_older, before);
        survivor_is_an_arrival(keep_older, before);
        loser_is_an_arrival(keep_older, before);
        // The last path is new: it is no kept path and no loser so far.
        assert forall|j: int| 0 <= j < losers_before.len() implies #[trigger] losers_before[j]
            != last.path by {
            assert(path_arrived(before, losers_before[j]));
            let i = choose|i: int| is_path_at(before, i, losers_before[j]);
            assert(before[i] == records[i]);
            assert(records[i].path != records[n].path);
        }
        assert forall|fingerprint: Fingerprint| #[trigger]
            kept_before.contains_key(fingerprint) implies kept_before[fingerprint].1
            != last.path by {
            let i = choose|i: int| is_record_at(before, i, fingerprint, kept_before[fingerprint]);
            assert(before[i] == records[i]);
            assert(records[i].path != records[n].path);
        }
        // Two kept files with different fingerprints have different paths.
        assert forall|f: Fingerprint, g: Fingerprint|
            kept_before.contains_key(f) && kept_before.contains_key(g) && f != g implies (
        #[trigger] kept_before[f]).1 != (#[trigger] kept_before[g]).1 by {
            let i = choose|i: int| is_record_at(before, i, f, kept_before[f]);
            let j = choose|j: int| is_record_at(before, j, g, kept_before[g]);
            assert(before[i] == records[i] && before[j] == records[j]);
            if i < j {
                assert(records[i].path != records[j].path);
            } else {
                assert(records[j].path != records[i].path);
            }
        }
        let verdict = verdict_of(kept_before, keep_older, last.fingerprint, last.timestamp);
        assert(losers.no_duplicates()) by {
            assert forall|a: int, b: int| 0 <= a < losers.len() && 0 <= b < losers.len() && a
                != b implies losers[a] != losers[b] by {
                if a < losers_before.len() && b < losers_before.len() {
                    assert(losers_before[a] != losers_before[b]);
                } else if a < losers_before.len() {
                    assert(losers[a] == losers_before[a]);
                } else if b < losers_before.len() {
                    assert(losers[b] == losers_before[b]);
                }
            }
        }
        assert forall|fingerprint: Fingerprint, j: int|
            #![trigger kept[fingerprint], losers[j]]
            kept.contains_key(fingerprint) && 0 <= j < losers.len() implies kept[fingerprint].1
            != losers[j] by {
            if j < losers_before.len() {
                assert(losers[j] == losers_before[j]);
                if fingerprint != last.fingerprint || verdict == Verdict::KeptIncumbent {
                    assert(kept[fingerprint] == kept_before[fingerprint]);
                }
            }
        }
        assert forall|i: int| 0 <= i < records.len() implies {
            ||| kept[(#[trigger] records[i]).fingerprint].1 == records[i].path
            ||| losers.contains(records[i].path)
        } by {
            if i < n {
                assert(before[i] == records[i]);
                if losers_before.contains(before[i].path) {
                    let j = choose|j: int|
                        0 <= j < losers_before.len() && losers_before[j] == before[i].path;
                    assert(losers[j] == records[i].path);
                } else if verdict == Verdict::Replaced && records[i].fingerprint
                    == last.fingerprint {
                    assert(losers[losers.len() - 1] == records[i].path);
                }
            } else if verdict == Verdict::KeptIncumbent {
                assert(losers[losers.len() - 1] == records[i].path);
            }
        }
    }
}

} // verus!
