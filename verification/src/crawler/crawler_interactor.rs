//! The one way by which subscribers add work: a file is enqueued for
//! crawling only if what is saved of it is stale.

use crate::crawler::priority_queue::{PriorityQueue, QueueError, QueuePushParameters};
use crate::files::file_interactor::FileInteractor;
use crate::files::file_name::PageType;
use vstd::prelude::*;

verus! {

/// Enqueues a file of the given page type at time `now` if it is stale
/// then, and does nothing if it is fresh.
pub fn enqueue_if_stale(
    queue: &mut PriorityQueue,
    files: &FileInteractor,
    params: QueuePushParameters,
    page_type: PageType,
    now: i64,
) -> (result: Result<(), QueueError>)
    requires
        old(queue)@.wf(),
    ensures
        final(queue)@.wf(),
        old(queue)@.consistent() ==> final(queue)@.consistent(),
        files@.is_stale(params@.file_name, page_type, now as int) ==> final(queue)@ == old(
            queue,
        )@.after_push(params@, now as int) && result == old(queue)@.push_result(params@),
        !files@.is_stale(params@.file_name, page_type, now as int) ==> final(queue)@ == old(
            queue,
        )@ && result is Ok,
{
    if files.is_file_stale(&params.file_name, page_type, now) {
        queue.push(params, now)
    } else {
        Ok(())
    }
}

} // verus!
