//! Severity classification: each level owns a half-open address range in
//! the interned string table, and a record's level is decided by which
//! range its string pointer falls into.  The first matching range wins.

use vstd::prelude::*;
use crate::levels::LogLevel;

verus! {

/// One severity range: interned strings in `[start, end)` belong to
/// `level`.
#[derive(Copy, Clone, Debug)]
pub struct LogSection {
    pub level: LogLevel,
    pub start: u64,
    pub end: u64,
}

/// The section reported when no range matches.
pub open spec fn unknown_section() -> LogSection {
    LogSection { level: LogLevel::Unknown, start: 0u64, end: 0u64 }
}

pub open spec fn section_contains(s: LogSection, p: u64) -> bool {
    s.start <= p < s.end
}

/// First-match-wins linear scan over the severity ranges.
pub open spec fn spec_classify(sections: Seq<LogSection>, p: u64) -> LogSection
    decreases sections.len(),
{
    if sections.len() == 0 {
        unknown_section()
    } else if section_contains(sections[0], p) {
        sections[0]
    } else {
        spec_classify(sections.drop_first(), p)
    }
}

/// Ranges that share no address; guaranteed by the firmware's linker
/// script, and the condition under which classification is independent of
/// the scan order.
pub open spec fn ranges_disjoint(sections: Seq<LogSection>) -> bool {
    forall|i: int, j: int|
        0 <= i < j < sections.len() ==> (#[trigger] sections[i]).end <= (
        #[trigger] sections[j]).start || sections[j].end <= sections[i].start
}

/// Every pointer inside range `i` of a disjoint range list is classified
/// with that range's level.
pub proof fn lemma_classify_in_range(sections: Seq<LogSection>, i: int, p: u64)
    requires
        ranges_disjoint(sections),
        0 <= i < sections.len(),
        section_contains(sections[i], p),
    ensures
        spec_classify(sections, p) == sections[i],
    decreases sections.len(),
{
    if i > 0 {
        assert(!section_contains(sections[0], p));
        assert(sections.drop_first()[i - 1] == sections[i]);
        assert(ranges_disjoint(sections.drop_first())) by {
            assert forall|a: int, b: int| 0 <= a < b < sections.drop_first().len() implies (
            #[trigger] sections.drop_first()[a]).end <= (#[trigger] sections.drop_first()[b]).start
                || sections.drop_first()[b].end <= sections.drop_first()[a].start by {
                assert(sections.drop_first()[a] == sections[a + 1]);
                assert(sections.drop_first()[b] == sections[b + 1]);
            }
        }
        lemma_classify_in_range(sections.drop_first(), i - 1, p);
    }
}

/// A pointer outside every range is classified `Unknown`.
pub proof fn lemma_classify_unmatched(sections: Seq<LogSection>, p: u64)
    requires
        forall|i: int| 0 <= i < sections.len() ==> !section_contains(#[trigger] sections[i], p),
    ensures
        spec_classify(sections, p) == unknown_section(),
    decreases sections.len(),
{
    if sections.len() > 0 {
        assert forall|i: int| 0 <= i < sections.drop_first().len() implies !section_contains(
            #[trigger] sections.drop_first()[i],
            p,
        ) by {
            assert(sections.drop_first()[i] == sections[i + 1]);
        }
        lemma_classify_unmatched(sections.drop_first(), p);
    }
}

/// Scans `sections` for the first range containing `str_ptr`.
pub fn classify(sections: &Vec<LogSection>, str_ptr: u64) -> (r: LogSection)
    ensures
        r == spec_classify(sections@, str_ptr),
{
    let n = sections.len();
    let mut i: usize = 0;
    proof {
        assert(sections@.skip(0) =~= sections@);
    }
    while i < n
        invariant
            n == sections@.len(),
            0 <= i <= n,
            spec_classify(sections@, str_ptr) == spec_classify(sections@.skip(i as int), str_ptr),
        decreases n - i,
    {
        let s = sections[i];
        proof {
            assert(sections@.skip(i as int)[0] == sections@[i as int]);
            assert(sections@.skip(i as int).drop_first() =~= sections@.skip(i + 1));
        }
        if s.start <= str_ptr && str_ptr < s.end {
            return s;
        }
        i = i + 1;
    }
    proof {
        assert(sections@.skip(n as int).len() == 0);
    }
    LogSection { level: LogLevel::Unknown, start: 0u64, end: 0u64 }
}

} // verus!
