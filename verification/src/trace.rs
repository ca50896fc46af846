//! Where traces of the program are written.

use crate::api::time_to_file_basename;
use crate::files;
use crate::time;
use crate::time::Timestamp;
use vstd::prelude::*;
use vstd::string::*;

verus! {

/// The file for a trace that begins at an instant.
pub open spec fn trace_name(time: Timestamp, source: Seq<char>) -> Seq<char> {
    time::basename(time) + "_"@ + source + ".json"@
}

/// What is to be done about tracing a stream.
#[derive(Debug)]
pub enum TraceSetup {
    /// Tracing is not asked for.
    Disabled,
    /// The stream is traced already.
    AlreadyInstalled,
    /// Trace into the file of that name.
    Install(String),
}

/// Names the file for the trace of `source`.
pub fn trace_file_name(time: &Timestamp, source: &str) -> (r: String)
    requires
        time.is_valid(),
        files::is_plain(source@),
    ensures
        r@ == trace_name(*time, source@),
{
    let mut name: String = time_to_file_basename(time);
    proof {
        reveal_strlit("_");
        reveal_strlit(".");
        reveal_strlit("json");
        reveal_strlit(".json");
        time::law_basename_is_plain(*time);
        time::lemma_name_text_is_plain(time::basename(*time));
    }
    name.append("_");
    name.append(source);
    proof {
        let bare = name@;
        let front = time::basename(*time);
        assert forall|i: int| 0 <= i < bare.len() implies (#[trigger] bare[i]) != '/' && bare[i]
            != '\\' && bare[i] != ':' && bare[i] != '.' by {
            if i < front.len() {
                assert(bare[i] == front[i]);
            } else if i > front.len() {
                assert(bare[i] == source@[i - front.len() - 1]);
            }
        }
        files::lemma_undotted_name(bare, "json"@);
        assert(bare + "."@ + "json"@ =~= bare + ".json"@);
    }
    files::set_extension(&name, "json")
}

/// Decides about tracing a stream whose frame arrived at an instant. A stream
/// is traced from its first frame on, where tracing is `enabled`.
pub fn install_tracing(enabled: bool, installed: bool, timestamp: &Timestamp) -> (r: TraceSetup)
    requires
        timestamp.is_valid(),
    ensures
        r is Disabled <==> !enabled,
        r is AlreadyInstalled <==> enabled && installed,
        r is Install <==> enabled && !installed,
        r matches TraceSetup::Install(name) ==> name@ == trace_name(*timestamp, "uvc"@),
{
    if !enabled {
        return TraceSetup::Disabled;
    }
    if installed {
        return TraceSetup::AlreadyInstalled;
    }
    proof {
        reveal_strlit("uvc");
    }
    TraceSetup::Install(trace_file_name(timestamp, "uvc"))
}

/// A trace is named by the instant it begins at and by what is traced.
pub proof fn law_trace_tells_time_and_source(time: Timestamp, source: Seq<char>)
    ensures
        trace_name(time, source) == time::basename(time) + seq!['_'] + source + ".json"@,
        trace_name(time, source).take(time::basename(time).len() as int) == time::basename(time),
{
    reveal_strlit("_");
    assert("_"@ =~= seq!['_']);
    assert(trace_name(time, source).take(time::basename(time).len() as int) =~= time::basename(
        time,
    ));
}

} // verus!
