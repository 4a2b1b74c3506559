use duprm::dedup_index::{DedupIndex, Verdict};
use duprm::fingerprint::FileRecord;

fn record(fingerprint: u128, timestamp: i128, path: &'static str) -> FileRecord<&'static str> {
    FileRecord { fingerprint, timestamp, path }
}

#[test]
fn new_index_is_empty() {
    let index: DedupIndex<&str> = DedupIndex::new(false);
    assert_eq!(index.len(), 0);
    assert_eq!(index.get(1), None);
    assert!(!index.keep_older());
    assert!(DedupIndex::<&str>::new(true).keep_older());
}

#[test]
fn unseen_fingerprint_is_entered() {
    let mut index = DedupIndex::new(false);
    assert_eq!(index.verdict(7, 10), Verdict::Entered);
    assert_eq!(index.resolve(record(7, 10, "a")), None);
    assert_eq!(index.len(), 1);
    assert_eq!(index.get(7), Some(&(10, "a")));
    assert_eq!(index.resolve(record(8, 10, "b")), None);
    assert_eq!(index.len(), 2);
    assert_eq!(index.get(7), Some(&(10, "a")));
    assert_eq!(index.get(8), Some(&(10, "b")));
}

#[test]
fn newer_wins_when_older_arrives_first() {
    let mut index = DedupIndex::new(false);
    assert_eq!(index.resolve(record(7, 10, "old")), None);
    assert_eq!(index.verdict(7, 20), Verdict::Replaced);
    assert_eq!(index.resolve(record(7, 20, "new")), Some("old"));
    assert_eq!(index.get(7), Some(&(20, "new")));
    assert_eq!(index.len(), 1);
}

#[test]
fn newer_wins_when_newer_arrives_first() {
    let mut index = DedupIndex::new(false);
    assert_eq!(index.resolve(record(7, 20, "new")), None);
    assert_eq!(index.verdict(7, 10), Verdict::KeptIncumbent);
    assert_eq!(index.resolve(record(7, 10, "old")), Some("old"));
    assert_eq!(index.get(7), Some(&(20, "new")));
    assert_eq!(index.len(), 1);
}

#[test]
fn older_wins_under_keep_older_in_either_order() {
    let mut index = DedupIndex::new(true);
    assert_eq!(index.resolve(record(7, 10, "old")), None);
    assert_eq!(index.verdict(7, 20), Verdict::KeptIncumbent);
    assert_eq!(index.resolve(record(7, 20, "new")), Some("new"));
    assert_eq!(index.get(7), Some(&(10, "old")));

    let mut index = DedupIndex::new(true);
    assert_eq!(index.resolve(record(7, 20, "new")), None);
    assert_eq!(index.verdict(7, 10), Verdict::Replaced);
    assert_eq!(index.resolve(record(7, 10, "old")), Some("new"));
    assert_eq!(index.get(7), Some(&(10, "old")));
}

#[test]
fn tie_keeps_the_first_arrival() {
    let mut index = DedupIndex::new(false);
    assert_eq!(index.resolve(record(7, 10, "first")), None);
    assert_eq!(index.verdict(7, 10), Verdict::KeptIncumbent);
    assert_eq!(index.resolve(record(7, 10, "second")), Some("second"));
    assert_eq!(index.get(7), Some(&(10, "first")));
    assert_eq!(index.resolve(record(7, 10, "third")), Some("third"));
    assert_eq!(index.get(7), Some(&(10, "first")));
}

#[test]
fn tie_under_keep_older_keeps_the_first_arrival() {
    let mut index = DedupIndex::new(true);
    assert_eq!(index.resolve(record(7, 10, "first")), None);
    assert_eq!(index.verdict(7, 10), Verdict::KeptIncumbent);
    assert_eq!(index.resolve(record(7, 10, "second")), Some("second"));
    assert_eq!(index.get(7), Some(&(10, "first")));
    assert_eq!(index.resolve(record(7, 10, "third")), Some("third"));
    assert_eq!(index.get(7), Some(&(10, "first")));
    assert_eq!(index.len(), 1);
}

#[test]
fn only_a_strictly_older_file_replaces_under_keep_older() {
    let mut index = DedupIndex::new(true);
    assert_eq!(index.resolve(record(7, 10, "first")), None);
    assert_eq!(index.verdict(7, 11), Verdict::KeptIncumbent);
    assert_eq!(index.verdict(7, 10), Verdict::KeptIncumbent);
    assert_eq!(index.verdict(7, 9), Verdict::Replaced);
    assert_eq!(index.resolve(record(7, 9, "older")), Some("first"));
    assert_eq!(index.get(7), Some(&(9, "older")));
}

#[test]
fn only_a_strictly_newer_file_replaces_without_keep_older() {
    let mut index = DedupIndex::new(false);
    assert_eq!(index.resolve(record(7, 10, "first")), None);
    assert_eq!(index.verdict(7, 9), Verdict::KeptIncumbent);
    assert_eq!(index.verdict(7, 10), Verdict::KeptIncumbent);
    assert_eq!(index.verdict(7, 11), Verdict::Replaced);
    assert_eq!(index.resolve(record(7, 11, "newer")), Some("first"));
    assert_eq!(index.get(7), Some(&(11, "newer")));
}

#[test]
fn each_arrival_names_at_most_one_loser_and_one_file_survives() {
    let mut index = DedupIndex::new(false);
    let arrivals = [(5, "e"), (1, "a"), (9, "i"), (3, "c"), (9, "j"), (10, "k"), (2, "b")];
    let mut losers = Vec::new();
    for (timestamp, path) in arrivals {
        if let Some(loser) = index.resolve(record(42, timestamp, path)) {
            losers.push(loser);
        }
    }
    assert_eq!(index.len(), 1);
    assert_eq!(index.get(42), Some(&(10, "k")));
    assert_eq!(losers, vec!["a", "e", "c", "j", "i", "b"]);
}

#[test]
fn timestamps_before_the_epoch_are_ordered() {
    let mut index = DedupIndex::new(false);
    assert_eq!(index.resolve(record(1, -20, "older")), None);
    assert_eq!(index.resolve(record(1, -10, "newer")), Some("older"));
    assert_eq!(index.resolve(record(1, i128::MIN, "oldest")), Some("oldest"));
    assert_eq!(index.resolve(record(1, i128::MAX, "newest")), Some("newer"));
    assert_eq!(index.get(1), Some(&(i128::MAX, "newest")));
}

#[test]
fn fingerprints_do_not_touch_each_other() {
    let mut index = DedupIndex::new(false);
    assert_eq!(index.resolve(record(0, 1, "zero")), None);
    assert_eq!(index.resolve(record(u128::MAX, 1, "max")), None);
    assert_eq!(index.resolve(record(0, 2, "zero again")), Some("zero"));
    assert_eq!(index.get(u128::MAX), Some(&(1, "max")));
    assert_eq!(index.len(), 2);
}

#[test]
fn every_arrival_is_kept_or_named_loser_once() {
    let arrivals = [
        (1, 50, "a"),
        (2, 10, "b"),
        (1, 60, "c"),
        (3, 5, "d"),
        (2, 10, "e"),
        (1, 40, "f"),
        (2, 11, "g"),
        (3, 5, "h"),
    ];
    for keep_older in [false, true] {
        let mut index = DedupIndex::new(keep_older);
        let mut losers = Vec::new();
        for (fingerprint, timestamp, path) in arrivals {
            if let Some(loser) = index.resolve(record(fingerprint, timestamp, path)) {
                losers.push(loser);
            }
        }
        assert_eq!(index.len() + losers.len(), arrivals.len());
        assert_eq!(index.len(), 3);
        let kept = [index.get(1).unwrap().1, index.get(2).unwrap().1, index.get(3).unwrap().1];
        for (_, _, path) in arrivals {
            let times_lost = losers.iter().filter(|loser| **loser == path).count();
            let times_kept = kept.iter().filter(|k| **k == path).count();
            assert_eq!(times_lost + times_kept, 1);
        }
        if keep_older {
            assert_eq!(kept, ["f", "b", "d"]);
        } else {
            assert_eq!(kept, ["c", "g", "d"]);
        }
    }
}
