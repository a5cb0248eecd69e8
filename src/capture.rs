use vstd::prelude::*;

use crate::event::{MouseRawEvent, RawRecord};
use crate::interpolate::{run_batches, run_last, BatchClock};
use crate::queue::{offer_each, EventQueue};

verus! {

/// Stamps a run of batches drained one after another and offers their
/// motion events to `queue` in arrival order; those that find it full are
/// dropped. Returns how many were dropped.
pub fn capture_run(
    clock: &mut BatchClock,
    batches: &Vec<(Vec<RawRecord>, i64)>,
    queue: &mut EventQueue,
) -> (dropped: usize)
    requires
        old(queue).wf(),
    ensures
        final(clock).last_time == run_last(old(clock).last_time, batches@),
        final(queue).wf(),
        final(queue).spec_capacity() == old(queue).spec_capacity(),
        final(queue)@ == offer_each(
            old(queue)@,
            run_batches(old(clock).last_time, batches@),
            old(queue).spec_capacity(),
        ),
        dropped == old(queue)@.len() + run_batches(old(clock).last_time, batches@).len()
            - final(queue)@.len(),
{
    let events: Vec<MouseRawEvent> = clock.process_run(batches);
    queue.offer_all(&events)
}

/// The core that the capture thread is pinned to: the last of the machine's
/// core ids, which the rest of the process is least likely to crowd; `None`
/// when no core id is known.
pub fn capture_core(core_ids: &Vec<usize>) -> (r: Option<usize>)
    ensures
        core_ids@.len() == 0 ==> r is None,
        core_ids@.len() > 0 ==> r == Some(core_ids@.last()),
{
    if core_ids.len() == 0 {
        None
    } else {
        Some(core_ids[core_ids.len() - 1])
    }
}

} // verus!
