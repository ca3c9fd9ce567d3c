//! The waveform file: a header that declares every signal, then one record
//! per committed change, in the order the simulator produced them.
use crate::design::Design;
use crate::sim::TraceEvent;
use crate::verilog::{dec, push_dec};
use vstd::prelude::*;

verus! {

/// The header line declaring signal `s`: its index, width and name.
pub open spec fn var_text(d: Design, s: int) -> Seq<char> {
    "$var wire "@ + dec(d.signals@[s].width as nat) + " s"@ + dec(s as nat) + " "@ + d.signals@[s].name@
        + " $end\n"@
}

/// The declarations of the first `k` signals.
pub open spec fn vars_text(d: Design, k: int) -> Seq<char>
    decreases k,
{
    if k <= 0 {
        Seq::empty()
    } else {
        vars_text(d, k - 1) + var_text(d, k - 1)
    }
}

/// The whole header.
pub open spec fn header_text(d: Design) -> Seq<char> {
    "$scope module "@ + d.name@ + " $end\n"@ + vars_text(d, d.signals@.len() as int)
        + "$upscope $end\n$enddefinitions $end\n"@
}

/// The record of one change.
pub open spec fn record_text(e: TraceEvent) -> Seq<char> {
    "#"@ + dec(e.time as nat) + " s"@ + dec(e.signal as nat) + " "@ + dec(e.value as nat) + "\n"@
}

/// The records of the first `k` events, in order.
pub open spec fn records_text(events: Seq<TraceEvent>, k: int) -> Seq<char>
    decreases k,
{
    if k <= 0 {
        Seq::empty()
    } else {
        records_text(events, k - 1) + record_text(events[k - 1])
    }
}

/// The header of a waveform file for `d`: the design's name, then every
/// signal's index, width and name, in index order.
pub fn trace_header(d: &Design) -> (r: String)
    ensures
        r@ == header_text(*d),
{
    let mut out = String::new();
    out.append("$scope module ");
    out.append(d.name.as_str());
    out.append(" $end\n");
    let ghost head = out@;
    let n = d.signals.len();
    let mut i: usize = 0;
    while i < n
        invariant
            n == d.signals@.len(),
            i <= n,
            out@ == head + vars_text(*d, i as int),
        decreases n - i,
    {
        let ghost before = out@;
        out.append("$var wire ");
        push_dec(&mut out, d.signals[i].width as u64);
        out.append(" s");
        push_dec(&mut out, i as u64);
        out.append(" ");
        out.append(d.signals[i].name.as_str());
        out.append(" $end\n");
        proof {
            assert(out@ =~= before + var_text(*d, i as int));
        }
        i = i + 1;
        proof {
            assert(out@ =~= head + vars_text(*d, i as int));
        }
    }
    out.append("$upscope $end\n$enddefinitions $end\n");
    proof {
        assert(out@ =~= header_text(*d));
    }
    out
}

/// The records for a run of events, one line each and in the order given:
/// a file is the header followed by these, appended as each cycle commits.
pub fn trace_records(events: &Vec<TraceEvent>) -> (r: String)
    ensures
        r@ == records_text(events@, events@.len() as int),
{
    let mut out = String::new();
    let n = events.len();
    let mut i: usize = 0;
    while i < n
        invariant
            n == events@.len(),
            i <= n,
            out@ == records_text(events@, i as int),
        decreases n - i,
    {
        let ghost before = out@;
        let e = events[i];
        out.append("#");
        push_dec(&mut out, e.time);
        out.append(" s");
        push_dec(&mut out, e.signal as u64);
        out.append(" ");
        push_dec(&mut out, e.value);
        out.append("\n");
        proof {
            assert(out@ =~= before + record_text(e));
        }
        i = i + 1;
        proof {
            assert(out@ =~= records_text(events@, i as int));
        }
    }
    out
}

} // verus!
