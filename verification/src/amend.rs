//! The amend engine: locates one completed record by exact date and a
//! case-sensitive task substring, and rewrites only the fields explicitly
//! supplied. Zero matches and several matches are both errors; the engine
//! never guesses, and mutates nothing unless exactly one record matches.
use vstd::prelude::*;

use crate::date::Date;
use crate::records::Record;

verus! {

/// The needle occurs in the haystack starting at position `i`.
pub open spec fn spec_match_at(hay: Seq<char>, needle: Seq<char>, i: int) -> bool {
    0 <= i && i + needle.len() <= hay.len() && hay.subrange(i, i + needle.len()) == needle
}

/// The needle occurs somewhere in the haystack (true for an empty needle).
pub open spec fn spec_contains_sub(hay: Seq<char>, needle: Seq<char>) -> bool {
    exists|i: int| spec_match_at(hay, needle, i)
}

/// Case-sensitive substring test.
pub fn contains_substring(hay: &str, needle: &str) -> (r: bool)
    ensures
        r == spec_contains_sub(hay@, needle@),
{
    let hl = hay.unicode_len();
    let nl = needle.unicode_len();
    if nl > hl {
        proof {
            assert(forall|i: int| !spec_match_at(hay@, needle@, i));
        }
        return false;
    }
    if nl == 0 {
        proof {
            assert(hay@.subrange(0, 0) =~= needle@);
            assert(spec_match_at(hay@, needle@, 0));
        }
        return true;
    }
    let mut i: usize = 0;
    while i <= hl - nl
        invariant
            hl == hay@.len(),
            nl == needle@.len(),
            0 < nl <= hl,
            0 <= i <= hl - nl + 1,
            forall|k: int| 0 <= k < i ==> !spec_match_at(hay@, needle@, k),
        decreases hl - nl + 1 - i,
    {
        let mut j: usize = 0;
        let mut hit = true;
        while j < nl
            invariant
                hl == hay@.len(),
                nl == needle@.len(),
                i + nl <= hl,
                j <= nl,
                hit ==> forall|t: int| 0 <= t < j ==> hay@[i + t] == needle@[t],
                !hit ==> !spec_match_at(hay@, needle@, i as int),
            ensures
                hit ==> forall|t: int| 0 <= t < nl ==> hay@[i + t] == needle@[t],
                !hit ==> !spec_match_at(hay@, needle@, i as int),
            decreases nl - j,
        {
            if hay.get_char(i + j) != needle.get_char(j) {
                proof {
                    assert(hay@.subrange(i as int, i + nl)[j as int] == hay@[i + j]);
                }
                hit = false;
            }
            j = j + 1;
        }
        if hit {
            proof {
                assert(hay@.subrange(i as int, i + nl) =~= needle@);
                assert(spec_match_at(hay@, needle@, i as int));
            }
            return true;
        }
        i = i + 1;
    }
    proof {
        assert forall|k: int| !spec_match_at(hay@, needle@, k) by {
            if spec_match_at(hay@, needle@, k) {
                assert(0 <= k && k + nl <= hl);
                assert(k < i);
            }
        }
    }
    false
}

/// The field replacements an amendment may carry. An unsupplied field is left
/// untouched; a supplied empty project label clears the project.
#[derive(Clone, Debug)]
pub struct AmendChanges {
    pub new_task: Option<String>,
    /// Whole minutes; must be positive and small enough that the millisecond
    /// conversion stays within i64.
    pub new_duration_min: Option<i64>,
    pub new_project: Option<String>,
}

/// Why an amendment was refused. Nothing is mutated in any of these cases.
#[derive(Clone, Debug)]
pub enum AmendError {
    /// No replacement field was supplied at all.
    NoChanges,
    /// The supplied duration is not a positive number of minutes (or does not
    /// fit in milliseconds).
    InvalidDuration,
    /// No record has the target date and contains the task pattern.
    NotFound,
    /// Several records match; the caller must narrow the pattern. Carries the
    /// ambiguous candidates, in store order.
    Ambiguous(Vec<Record>),
}

/// A computed amendment: which record matched, what it was, what it becomes,
/// and the whole record sequence with that one record replaced in place.
pub struct AmendOutcome {
    pub index: usize,
    pub old: Record,
    pub new: Record,
    pub updated: Vec<Record>,
}

/// A record matches an amendment request when its date equals the target date
/// and its task contains the pattern.
pub open spec fn spec_amend_match(rec: Record, date: Date, pattern: Seq<char>) -> bool {
    rec.date == date && spec_contains_sub(rec.task@, pattern)
}

pub open spec fn spec_no_changes(ch: AmendChanges) -> bool {
    ch.new_task is None && ch.new_duration_min is None && ch.new_project is None
}

/// A supplied duration is rejected unless it is a positive minute count whose
/// millisecond form fits in i64.
pub open spec fn spec_bad_duration(ch: AmendChanges) -> bool {
    match ch.new_duration_min {
        Some(m) => m <= 0 || m > i64::MAX / 60000,
        None => false,
    }
}

/// The record after applying exactly the supplied replacements.
pub open spec fn spec_apply_changes(rec: Record, ch: AmendChanges) -> Record {
    Record {
        task: match ch.new_task {
            Some(t) => t,
            None => rec.task,
        },
        duration_ms: match ch.new_duration_min {
            Some(m) => (m * 60000) as i64,
            None => rec.duration_ms,
        },
        date: rec.date,
        project: match ch.new_project {
            Some(p) => if p@.len() == 0 {
                None
            } else {
                Some(p)
            },
            None => rec.project,
        },
    }
}

fn apply_changes(rec: &Record, ch: &AmendChanges) -> (r: Record)
    requires
        !spec_bad_duration(*ch),
    ensures
        r == spec_apply_changes(*rec, *ch),
{
    let task = match &ch.new_task {
        Some(t) => t.clone(),
        None => rec.task.clone(),
    };
    let duration_ms = match &ch.new_duration_min {
        Some(m) => *m * 60000,
        None => rec.duration_ms,
    };
    let project = match &ch.new_project {
        Some(p) => if p.as_str().is_empty() {
            None
        } else {
            Some(p.clone())
        },
        None => match &rec.project {
            Some(p) => Some(p.clone()),
            None => None,
        },
    };
    Record { task, duration_ms, date: rec.date, project }
}

/// Locates and rewrites one record. The four refusals are checked in order:
/// no supplied changes, an invalid duration, no match, and more than one
/// match. With exactly one match, the outcome carries the old and new record
/// and the record sequence with that one entry replaced; nothing else changes.
pub fn amend(records: &Vec<Record>, date: Date, pattern: &str, changes: &AmendChanges) -> (r:
    Result<AmendOutcome, AmendError>)
    ensures
        match r {
            Err(AmendError::NoChanges) => spec_no_changes(*changes),
            Err(AmendError::InvalidDuration) => !spec_no_changes(*changes) && spec_bad_duration(
                *changes,
            ),
            Err(AmendError::NotFound) => !spec_no_changes(*changes) && !spec_bad_duration(*changes)
                && (forall|j: int|
                0 <= j < records@.len() ==> !spec_amend_match(
                    #[trigger] records@[j],
                    date,
                    pattern@,
                )),
            Err(AmendError::Ambiguous(cands)) => !spec_no_changes(*changes) && !spec_bad_duration(
                *changes,
            ) && cands@ == records@.filter(
                |rec: Record| spec_amend_match(rec, date, pattern@),
            ) && cands@.len() >= 2,
            Ok(out) => {
                &&& !spec_no_changes(*changes)
                &&& !spec_bad_duration(*changes)
                &&& out.index < records@.len()
                &&& spec_amend_match(records@[out.index as int], date, pattern@)
                &&& forall|j: int|
                    0 <= j < records@.len() && j != out.index ==> !spec_amend_match(
                        #[trigger] records@[j],
                        date,
                        pattern@,
                    )
                &&& out.old == records@[out.index as int]
                &&& out.new == spec_apply_changes(out.old, *changes)
                &&& out.updated@ == records@.update(out.index as int, out.new)
            },
        },
{
    let no_changes = match (&changes.new_task, &changes.new_duration_min, &changes.new_project) {
        (None, None, None) => true,
        _ => false,
    };
    if no_changes {
        return Err(AmendError::NoChanges);
    }
    let bad_duration = match &changes.new_duration_min {
        Some(m) => *m <= 0 || *m > i64::MAX / 60000,
        None => false,
    };
    if bad_duration {
        return Err(AmendError::InvalidDuration);
    }
    let ghost pred = |rec: Record| spec_amend_match(rec, date, pattern@);
    let mut cands: Vec<Record> = Vec::new();
    let mut idxs: Vec<usize> = Vec::new();
    let mut i: usize = 0;
    proof {
        reveal(Seq::filter);
        assert(records@.take(0).filter(pred) =~= Seq::<Record>::empty());
    }
    while i < records.len()
        invariant
            i <= records@.len(),
            cands@ == records@.take(i as int).filter(pred),
            pred == (|rec: Record| spec_amend_match(rec, date, pattern@)),
            idxs@.len() == cands@.len(),
            forall|j: int|
                0 <= j < idxs@.len() ==> #[trigger] idxs@[j] < i && spec_amend_match(
                    records@[idxs@[j] as int],
                    date,
                    pattern@,
                ),
            forall|k: int|
                0 <= k < i && spec_amend_match(#[trigger] records@[k], date, pattern@)
                    ==> idxs@.contains(k as usize),
        decreases records@.len() - i,
    {
        let rec = &records[i];
        let hit = rec.date == date && contains_substring(rec.task.as_str(), pattern);
        proof {
            reveal(Seq::filter);
            assert(records@.take(i + 1).drop_last() =~= records@.take(i as int));
            assert(records@.take(i + 1).last() == records@[i as int]);
            assert(hit == pred(records@[i as int]));
        }
        let ghost idxs_pre = idxs@;
        if hit {
            cands.push(rec.duplicate());
            idxs.push(i);
        }
        proof {
            assert forall|k: int|
                0 <= k < i + 1 && spec_amend_match(
                    #[trigger] records@[k],
                    date,
                    pattern@,
                ) implies idxs@.contains(k as usize) by {
                if k < i {
                    assert(idxs_pre.contains(k as usize));
                    let w = choose|w: int| 0 <= w < idxs_pre.len() && idxs_pre[w] == k as usize;
                    assert(idxs@[w] == k as usize);
                } else {
                    assert(hit);
                    assert(idxs@[idxs@.len() - 1] == i);
                }
            }
        }
        i = i + 1;
    }
    proof {
        assert(records@.take(records@.len() as int) =~= records@);
    }
    if cands.len() == 0 {
        proof {
            assert forall|j: int|
                0 <= j < records@.len() implies !spec_amend_match(
                #[trigger] records@[j],
                date,
                pattern@,
            ) by {
                if spec_amend_match(records@[j], date, pattern@) {
                    assert(idxs@.contains(j as usize));
                }
            }
        }
        return Err(AmendError::NotFound);
    }
    if cands.len() >= 2 {
        return Err(AmendError::Ambiguous(cands));
    }
    let k = idxs[0];
    let old = records[k].duplicate();
    let new = apply_changes(&old, changes);
    let mut updated: Vec<Record> = Vec::new();
    let mut j: usize = 0;
    while j < records.len()
        invariant
            j <= records@.len(),
            k < records@.len(),
            updated@.len() == j,
            forall|t: int|
                0 <= t < j ==> #[trigger] updated@[t] == if t == k {
                    new
                } else {
                    records@[t]
                },
        decreases records@.len() - j,
    {
        if j == k {
            updated.push(new.duplicate());
        } else {
            updated.push(records[j].duplicate());
        }
        j = j + 1;
    }
    proof {
        assert(updated@ =~= records@.update(k as int, new));
        assert forall|j2: int|
            0 <= j2 < records@.len() && j2 != k implies !spec_amend_match(
            #[trigger] records@[j2],
            date,
            pattern@,
        ) by {
            if spec_amend_match(records@[j2], date, pattern@) {
                assert(idxs@.contains(j2 as usize));
                let w = choose|w: int| 0 <= w < idxs@.len() && idxs@[w] == j2 as usize;
                assert(w == 0);
            }
        }
    }
    Ok(AmendOutcome { index: k, old, new, updated })
}

} // verus!
