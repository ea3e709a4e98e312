//! Renders the finished partition and the day of week into the
//! announcement message. Pure formatting; no decisions are made here.

use vstd::prelude::*;
use vstd::string::StringExecFns;
use crate::incident::{Incident, IncidentV, incs_of, spec_short_fmt};

verus! {

/// The short forms of the incidents, joined by newlines.
pub open spec fn spec_lines(s: Seq<IncidentV>) -> Seq<char>
    decreases s.len(),
{
    if s.len() == 0 {
        Seq::empty()
    } else if s.len() == 1 {
        spec_short_fmt(s[0])
    } else {
        spec_lines(s.drop_last()) + "\n"@ + spec_short_fmt(s.last())
    }
}

/// One line per incident, in order, separated by newlines.
pub fn format_lines(incidents: &Vec<Incident>) -> (r: String)
    ensures
        r@ == spec_lines(incs_of(incidents@)),
{
    let mut out = String::new();
    let n = incidents.len();
    let mut k: usize = 0;
    proof {
        assert(incs_of(incidents@).take(0) =~= Seq::<IncidentV>::empty());
    }
    while k < n
        invariant
            n == incidents@.len(),
            k <= n,
            out@ == spec_lines(incs_of(incidents@).take(k as int)),
        decreases n - k,
    {
        if k > 0 {
            out.append("\n");
        }
        let line = incidents[k].short_fmt();
        out.append(line.as_str());
        proof {
            let all = incs_of(incidents@);
            assert(all.take(k + 1).drop_last() =~= all.take(k as int));
            assert(all.take(k + 1).last() == all[k as int]);
            if k == 0 {
                assert(out@ =~= spec_lines(all.take(1)));
            } else {
                assert(out@ =~= spec_lines(all.take(k + 1)));
            }
        }
        k += 1;
    }
    proof {
        assert(incs_of(incidents@).take(n as int) =~= incs_of(incidents@));
    }
    out
}

/// The announcement: a greeting with the weekday, the incidents
/// selected for review, and the incidents excluded from it.
pub open spec fn spec_summary(day: Seq<char>, tr: Seq<IncidentV>, ex: Seq<IncidentV>) -> Seq<
    char,
> {
    "\nHello everyone and happy "@ + day
        + "!\n\nWe have selected the following incidents for review:\n"@ + spec_lines(tr)
        + "\n    \nand the following incidents have been excluded from review:\n"@ + spec_lines(ex)
        + "\n\nThese are only *newly scheduled* incidents. All incidents scheduled for review can be found in Notion <https://www.notion.so/mystenlabs/Incident-Review-Selection-c96bb9ba36c24a59af230162042d3dd4?pvs=4|here>.\nPlease comment in the thread to request an adjustment to the list."@
}

/// Composes the announcement message for the given weekday and
/// partition.
pub fn compose_summary(day: &str, to_review: &Vec<Incident>, excluded: &Vec<Incident>) -> (r:
    String)
    ensures
        r@ == spec_summary(day@, incs_of(to_review@), incs_of(excluded@)),
{
    let mut out = String::new();
    out.append("\nHello everyone and happy ");
    out.append(day);
    out.append("!\n\nWe have selected the following incidents for review:\n");
    let tr_lines = format_lines(to_review);
    out.append(tr_lines.as_str());
    out.append("\n    \nand the following incidents have been excluded from review:\n");
    let ex_lines = format_lines(excluded);
    out.append(ex_lines.as_str());
    out.append(
        "\n\nThese are only *newly scheduled* incidents. All incidents scheduled for review can be found in Notion <https://www.notion.so/mystenlabs/Incident-Review-Selection-c96bb9ba36c24a59af230162042d3dd4?pvs=4|here>.\nPlease comment in the thread to request an adjustment to the list.",
    );
    proof {
        assert(out@ =~= spec_summary(day@, incs_of(to_review@), incs_of(excluded@)));
    }
    out
}

} // verus!
