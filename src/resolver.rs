use vstd::prelude::*;

use crate::status::{is_raw_status, ReportStatus};

verus! {

/// Number of occurrences of `t` in `s`.
pub open spec fn count_of(s: Seq<ReportStatus>, t: ReportStatus) -> nat
    decreases s.len(),
{
    if s.len() == 0 {
        0
    } else {
        count_of(s.drop_last(), t) + if s.last() == t {
            1nat
        } else {
            0nat
        }
    }
}

/// Consensus from per-tag counts. Camp A (active) is Blue and Purple, camp B
/// (weak signal) is Yellow and Red. A count "exceeds 20%" of the total when five
/// times it is larger than the total. Within camp B, Red outranks Yellow;
/// within camp A, Purple outranks Blue. Equal camps go to camp B, though with
/// both camps non-empty they are always in conflict first.
pub open spec fn resolve_counts(blue: nat, purple: nat, yellow: nat, red: nat, orange: nat) -> ReportStatus {
    let a = blue + purple;
    let b = yellow + red;
    let total = a + b;
    if total == 0 {
        if orange > 0 {
            ReportStatus::Orange
        } else {
            ReportStatus::Grey
        }
    } else if 5 * orange > total {
        ReportStatus::Orange
    } else if 5 * a > total && 5 * b > total {
        ReportStatus::Orange
    } else if b >= a {
        if red > 0 {
            ReportStatus::Red
        } else {
            ReportStatus::Yellow
        }
    } else if purple > 0 {
        ReportStatus::Purple
    } else {
        ReportStatus::Blue
    }
}

/// Consensus status of a multiset of observed tags.
pub open spec fn resolve(s: Seq<ReportStatus>) -> ReportStatus {
    resolve_counts(
        count_of(s, ReportStatus::Blue),
        count_of(s, ReportStatus::Purple),
        count_of(s, ReportStatus::Yellow),
        count_of(s, ReportStatus::Red),
        count_of(s, ReportStatus::Orange),
    )
}

/// Turns the tags observed in one time bucket into one consensus status.
pub fn determine_report_status(data: &Vec<ReportStatus>) -> (r: ReportStatus)
    ensures
        r == resolve(data@),
{
    if data.len() == 0 {
        return ReportStatus::Grey;
    }
    let mut blue: usize = 0;
    let mut purple: usize = 0;
    let mut yellow: usize = 0;
    let mut red: usize = 0;
    let mut orange: usize = 0;
    let mut i: usize = 0;
    while i < data.len()
        invariant
            i <= data@.len(),
            blue == count_of(data@.subrange(0, i as int), ReportStatus::Blue),
            purple == count_of(data@.subrange(0, i as int), ReportStatus::Purple),
            yellow == count_of(data@.subrange(0, i as int), ReportStatus::Yellow),
            red == count_of(data@.subrange(0, i as int), ReportStatus::Red),
            orange == count_of(data@.subrange(0, i as int), ReportStatus::Orange),
            blue <= i && purple <= i && yellow <= i && red <= i && orange <= i,
        decreases data@.len() - i,
    {
        let t = data[i];
        proof {
            assert(data@.subrange(0, i + 1).drop_last() =~= data@.subrange(0, i as int));
        }
        match t {
            ReportStatus::Blue => blue = blue + 1,
            ReportStatus::Purple => purple = purple + 1,
            ReportStatus::Yellow => yellow = yellow + 1,
            ReportStatus::Red => red = red + 1,
            ReportStatus::Orange => orange = orange + 1,
            ReportStatus::Grey => {},
        }
        i = i + 1;
    }
    proof {
        assert(data@.subrange(0, data@.len() as int) =~= data@);
    }
    let a: u128 = blue as u128 + purple as u128;
    let b: u128 = yellow as u128 + red as u128;
    let total: u128 = a + b;
    if total == 0 {
        if orange > 0 {
            ReportStatus::Orange
        } else {
            ReportStatus::Grey
        }
    } else if 5 * (orange as u128) > total {
        ReportStatus::Orange
    } else if 5 * a > total && 5 * b > total {
        ReportStatus::Orange
    } else if b >= a {
        if red > 0 {
            ReportStatus::Red
        } else {
            ReportStatus::Yellow
        }
    } else if purple > 0 {
        ReportStatus::Purple
    } else {
        ReportStatus::Blue
    }
}

/// In a sequence of raw tags, the four raw counts add up to its length and no
/// tag is `Orange`.
pub proof fn lemma_raw_counts(s: Seq<ReportStatus>)
    requires
        forall|i: int| 0 <= i < s.len() ==> is_raw_status(#[trigger] s[i]),
    ensures
        count_of(s, ReportStatus::Blue) + count_of(s, ReportStatus::Purple) + count_of(
            s,
            ReportStatus::Yellow,
        ) + count_of(s, ReportStatus::Red) == s.len(),
        count_of(s, ReportStatus::Orange) == 0,
    decreases s.len(),
{
    if s.len() > 0 {
        assert forall|i: int| 0 <= i < s.drop_last().len() implies is_raw_status(
            #[trigger] s.drop_last()[i],
        ) by {
            assert(s.drop_last()[i] == s[i]);
        }
        lemma_raw_counts(s.drop_last());
        assert(is_raw_status(s[s.len() - 1]));
    }
}

/// The resolver is total, and over raw tags it answers `Grey` (unknown)
/// exactly when there is no tag at all.
pub proof fn lemma_resolve_unknown_iff_empty(s: Seq<ReportStatus>)
    requires
        forall|i: int| 0 <= i < s.len() ==> is_raw_status(#[trigger] s[i]),
    ensures
        (resolve(s) == ReportStatus::Grey) <==> s.len() == 0,
{
    lemma_raw_counts(s);
}

/// Over raw tags, when the active camp holds at least 80% of the reports, the
/// result is never `Orange` (conflicting).
pub proof fn lemma_resolve_majority_not_conflicting(s: Seq<ReportStatus>)
    requires
        forall|i: int| 0 <= i < s.len() ==> is_raw_status(#[trigger] s[i]),
        5 * (count_of(s, ReportStatus::Blue) + count_of(s, ReportStatus::Purple)) >= 4 * s.len(),
    ensures
        resolve(s) != ReportStatus::Orange,
{
    lemma_raw_counts(s);
}

} // verus!
