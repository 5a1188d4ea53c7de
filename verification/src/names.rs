//! The names of what the editor and the renderer share.

use crate::text::{decimal_text, joined};
use vstd::prelude::*;

verus! {

/// The name of the socket that a renderer is controlled through.
pub open spec fn socket_name(windows: bool, process_id: u32, timestamp: u128) -> Seq<char> {
    let head = if windows {
        "\\\\.\\pipe\\gmanim_ctrl_"@
    } else {
        "/tmp/gmanim_ctrl_"@
    };
    head + (crate::text::decimal(process_id as nat) + seq!['_'] + crate::text::decimal(
        timestamp as nat,
    ))
}

/// The name of the shared memory of a preview.
pub open spec fn shared_memory_name(process_id: u32, run: u32, timestamp: u128) -> Seq<char> {
    "gmanim_preview_"@ + (crate::text::decimal(process_id as nat) + seq!['_'] + (
    crate::text::decimal(run as nat) + seq!['_'] + crate::text::decimal(timestamp as nat)))
}

/// Two texts with an underscore between them.
fn underscored(head: &str, tail: &str) -> (text: String)
    ensures
        text@ == head@ + seq!['_'] + tail@,
{
    proof {
        reveal_strlit("_");
        assert("_"@ =~= seq!['_']);
    }
    let start = joined(head, "_");
    joined(start.as_str(), tail)
}

pub fn ctrl_socket_name(windows: bool, process_id: u32, timestamp: u128) -> (name: String)
    ensures
        name@ == socket_name(windows, process_id, timestamp),
{
    let head = if windows {
        "\\\\.\\pipe\\gmanim_ctrl_"
    } else {
        "/tmp/gmanim_ctrl_"
    };
    let process = decimal_text(process_id as u128);
    let moment = decimal_text(timestamp);
    let tail = underscored(process.as_str(), moment.as_str());
    joined(head, tail.as_str())
}

pub fn preview_shm_id(process_id: u32, run: u32, timestamp: u128) -> (name: String)
    ensures
        name@ == shared_memory_name(process_id, run, timestamp),
{
    let process = decimal_text(process_id as u128);
    let count = decimal_text(run as u128);
    let moment = decimal_text(timestamp);
    let tail = underscored(count.as_str(), moment.as_str());
    let numbers = underscored(process.as_str(), tail.as_str());
    joined("gmanim_preview_", numbers.as_str())
}

/// Two previews share a name only where the process, the run and the moment are the
/// same.
pub proof fn shared_memory_names_differ(
    process_a: u32,
    run_a: u32,
    timestamp_a: u128,
    process_b: u32,
    run_b: u32,
    timestamp_b: u128,
)
    requires
        shared_memory_name(process_a, run_a, timestamp_a) == shared_memory_name(
            process_b,
            run_b,
            timestamp_b,
        ),
    ensures
        process_a == process_b,
        run_a == run_b,
        timestamp_a == timestamp_b,
{
    let head = "gmanim_preview_"@;
    let moment_a = crate::text::decimal(timestamp_a as nat);
    let moment_b = crate::text::decimal(timestamp_b as nat);
    let tail_a = crate::text::decimal(run_a as nat) + seq!['_'] + moment_a;
    let tail_b = crate::text::decimal(run_b as nat) + seq!['_'] + moment_b;
    let numbers_a = crate::text::decimal(process_a as nat) + seq!['_'] + tail_a;
    let numbers_b = crate::text::decimal(process_b as nat) + seq!['_'] + tail_b;
    assert(numbers_a =~= (head + numbers_a).skip(head.len() as int));
    assert(numbers_b =~= (head + numbers_b).skip(head.len() as int));
    crate::text::leading_number_is_told(process_a as nat, process_b as nat, tail_a, tail_b);
    crate::text::leading_number_is_told(run_a as nat, run_b as nat, moment_a, moment_b);
    crate::text::decimal_is_injective(timestamp_a as nat, timestamp_b as nat);
}

/// Two sockets of a kind share a name only where the process and the moment are the
/// same.
pub proof fn socket_names_differ(
    windows: bool,
    process_a: u32,
    timestamp_a: u128,
    process_b: u32,
    timestamp_b: u128,
)
    requires
        socket_name(windows, process_a, timestamp_a) == socket_name(
            windows,
            process_b,
            timestamp_b,
        ),
    ensures
        process_a == process_b,
        timestamp_a == timestamp_b,
{
    let head = if windows {
        "\\\\.\\pipe\\gmanim_ctrl_"@
    } else {
        "/tmp/gmanim_ctrl_"@
    };
    let moment_a = crate::text::decimal(timestamp_a as nat);
    let moment_b = crate::text::decimal(timestamp_b as nat);
    let numbers_a = crate::text::decimal(process_a as nat) + seq!['_'] + moment_a;
    let numbers_b = crate::text::decimal(process_b as nat) + seq!['_'] + moment_b;
    assert(numbers_a =~= (head + numbers_a).skip(head.len() as int));
    assert(numbers_b =~= (head + numbers_b).skip(head.len() as int));
    crate::text::leading_number_is_told(process_a as nat, process_b as nat, moment_a, moment_b);
    crate::text::decimal_is_injective(timestamp_a as nat, timestamp_b as nat);
}

/// A name ends with the numbers that it is made of, one behind the other.
pub proof fn names_end_with_their_numbers(
    windows: bool,
    process_id: u32,
    run: u32,
    timestamp: u128,
)
    ensures
        ({
            let process = crate::text::decimal(process_id as nat) + seq!['_'];
            let count = crate::text::decimal(run as nat) + seq!['_'];
            let moment = crate::text::decimal(timestamp as nat);
            let socket = socket_name(windows, process_id, timestamp);
            let memory = shared_memory_name(process_id, run, timestamp);
            &&& windows ==> socket == "\\\\.\\pipe\\gmanim_ctrl_"@ + process + moment
            &&& !windows ==> socket == "/tmp/gmanim_ctrl_"@ + process + moment
            &&& memory == "gmanim_preview_"@ + process + count + moment
        }),
{
    let process = crate::text::decimal(process_id as nat) + seq!['_'];
    let count = crate::text::decimal(run as nat) + seq!['_'];
    let moment = crate::text::decimal(timestamp as nat);
    assert(socket_name(true, process_id, timestamp) =~= "\\\\.\\pipe\\gmanim_ctrl_"@ + process
        + moment);
    assert(socket_name(false, process_id, timestamp) =~= "/tmp/gmanim_ctrl_"@ + process + moment);
    assert(shared_memory_name(process_id, run, timestamp) =~= "gmanim_preview_"@ + process + count
        + moment);
}

} // verus!
