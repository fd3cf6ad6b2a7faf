//! Requests on open files: in which order bytes are flushed, the server's handle is
//! found and the server is asked, and what the kernel is told.

use vstd::prelude::*;

use crate::client::errno::{EIO, ESTALE};
use crate::client::writeback::{flush_reply, live_or_stale, WriteBack};

verus! {

/// What the kernel asks of an open file.
#[derive(Clone, Copy, Debug, PartialEq, Eq, Structural)]
pub enum FileWork {
    Read { offset: u64, size: u32 },
    Fsync { datasync: bool },
    /// A descriptor of the file is closed.
    Close,
    /// The last descriptor is gone.
    Release,
}

/// What is done next.
#[derive(Clone, Copy, Debug, PartialEq, Eq)]
pub enum FileStep {
    /// Send what is buffered for the file.
    Flush(u64),
    /// Send what is buffered for the file until nothing is left.
    Drain(u64),
    /// Find the server's handle of the file.
    Resolve(u64),
    /// Ask the server for bytes.
    Read { handle: u64, offset: u64, size: u32 },
    /// Ask the server to force the file to disk.
    Fsync { handle: u64, datasync: bool },
    /// Give the handle back to the server; the kernel is told of success whatever comes
    /// of it.
    Release(u64),
    /// Reply to the kernel.
    Reply(Result<(), i32>),
}

/// The first step: what was written is brought to the server before anything else.
pub open spec fn first_step(fh: u64, work: FileWork) -> FileStep {
    match work {
        FileWork::Read { .. } => FileStep::Flush(fh),
        _ => FileStep::Drain(fh),
    }
}

pub fn begin(fh: u64, work: FileWork) -> (res: FileStep)
    ensures
        res == first_step(fh, work),
{
    match work {
        FileWork::Read { offset: _, size: _ } => FileStep::Flush(fh),
        _ => FileStep::Drain(fh),
    }
}

/// What follows the flush, which may have `failed`, of a file that is `marked` where
/// bytes of it were lost before. Nothing that was lost is passed over.
pub open spec fn after_flush(
    fh: u64,
    work: FileWork,
    failed: Option<i32>,
    marked: bool,
    handle: Option<u64>,
) -> FileStep {
    match work {
        FileWork::Read { .. } => match failed {
            Some(e) => FileStep::Reply(Err(e)),
            None => FileStep::Resolve(fh),
        },
        FileWork::Fsync { .. } => match failed {
            Some(e) => FileStep::Reply(Err(e)),
            None => if marked {
                FileStep::Reply(Err(EIO))
            } else {
                FileStep::Resolve(fh)
            },
        },
        FileWork::Close => FileStep::Reply(
            match failed {
                Some(e) => Err(e),
                None => if marked {
                    Err(EIO)
                } else {
                    Ok(())
                },
            },
        ),
        FileWork::Release => match handle {
            Some(h) => FileStep::Release(h),
            None => FileStep::Reply(Ok(())),
        },
    }
}

/// The file was flushed, or that failed. A mark is taken away where it is reported, and
/// a released file leaves nothing behind.
pub fn flushed(files: &mut WriteBack, fh: u64, work: FileWork, failed: Option<i32>) -> (res:
    FileStep)
    requires
        old(files).wf(),
    ensures
        final(files).wf(),
        res == after_flush(
            fh,
            work,
            failed,
            old(files).marked().contains(fh),
            if old(files).files().contains_key(fh) {
                Some(old(files).files()[fh].server_handle)
            } else {
                None
            },
        ),
        final(files).next_number() == old(files).next_number(),
        final(files).limits() == old(files).limits(),
        final(files).clock() == old(files).clock(),
        match work {
            FileWork::Read { .. } => *final(files) == *old(files),
            FileWork::Release => {
                &&& final(files).files() == old(files).files().remove(fh)
                &&& final(files).buffered() == old(files).buffered().remove(fh)
                &&& final(files).marked() == old(files).marked().remove(fh)
            },
            _ => {
                &&& final(files).files() == old(files).files()
                &&& final(files).buffered() == old(files).buffered()
                &&& final(files).marked() == old(files).marked().remove(fh)
            },
        },
{
    match work {
        FileWork::Read { offset: _, size: _ } => match failed {
            Some(e) => FileStep::Reply(Err(e)),
            None => FileStep::Resolve(fh),
        },
        FileWork::Fsync { datasync: _ } => {
            let marked = files.take_error(fh);
            match flush_reply(failed, marked) {
                Err(e) => FileStep::Reply(Err(e)),
                Ok(()) => FileStep::Resolve(fh),
            }
        },
        FileWork::Close => {
            let marked = files.take_error(fh);
            FileStep::Reply(flush_reply(failed, marked))
        },
        FileWork::Release => match files.release(fh) {
            Some(h) => FileStep::Release(h),
            None => FileStep::Reply(Ok(())),
        },
    }
}

/// What follows when the server's handle was looked for: without one the file is stale.
pub open spec fn after_resolve(work: FileWork, live: Option<u64>) -> FileStep {
    match live {
        None => FileStep::Reply(Err(ESTALE)),
        Some(handle) => match work {
            FileWork::Read { offset, size } => FileStep::Read { handle, offset, size },
            FileWork::Fsync { datasync } => FileStep::Fsync { handle, datasync },
            _ => FileStep::Reply(Ok(())),
        },
    }
}

pub fn resolved(work: FileWork, live: Option<u64>) -> (res: FileStep)
    ensures
        res == after_resolve(work, live),
{
    match live_or_stale(live) {
        Err(e) => FileStep::Reply(Err(e)),
        Ok(handle) => match work {
            FileWork::Read { offset, size } => FileStep::Read { handle, offset, size },
            FileWork::Fsync { datasync } => FileStep::Fsync { handle, datasync },
            _ => FileStep::Reply(Ok(())),
        },
    }
}

/// Once the server's handle is found, the server is asked on that handle for exactly what
/// the kernel asked for: the range of a read whole, and a sync of the kind that was meant.
pub proof fn law_kernel_requests_are_passed_on(
    handle: u64,
    offset: u64,
    size: u32,
    datasync: bool,
    read: FileStep,
    sync: FileStep,
)
    requires
        call_ensures(resolved, (FileWork::Read { offset, size }, Some(handle)), read),
        call_ensures(resolved, (FileWork::Fsync { datasync }, Some(handle)), sync),
    ensures
        read == (FileStep::Read { handle, offset, size }),
        sync == (FileStep::Fsync { handle, datasync }),
{
}

/// Without a handle nothing is asked, and the kernel is told that the file is stale.
pub proof fn law_lost_file_is_stale(work: FileWork, step: FileStep)
    requires
        call_ensures(resolved, (work, None), step),
    ensures
        step == FileStep::Reply(Err(116)),
{
}

/// Closing and syncing never report success over bytes that did not reach the server:
/// success, or going on, means that the flush worked and nothing was lost before.
pub proof fn law_no_loss_is_passed_over(
    fh: u64,
    work: FileWork,
    failed: Option<i32>,
    marked: bool,
    handle: Option<u64>,
)
    requires
        work is Close || work is Fsync,
        !(after_flush(fh, work, failed, marked, handle) matches FileStep::Reply(Err(_))),
    ensures
        failed is None,
        !marked,
{
}

/// A file is read only after its buffered bytes were sent: a flush that failed ends the
/// request.
pub proof fn law_reads_see_own_writes(
    fh: u64,
    work: FileWork,
    failed: Option<i32>,
    marked: bool,
    handle: Option<u64>,
)
    requires
        work is Read,
        after_flush(fh, work, failed, marked, handle) is Resolve,
    ensures
        failed is None,
        first_step(fh, work) == FileStep::Flush(fh),
{
}

/// Behind the flush each request runs its course. A failed flush ends a read, a sync and a
/// close with its number; a mark ends a sync and a close with 5; a read does not care for
/// marks. Where nothing is wrong a close succeeds, and a read and a sync go on to find the
/// handle. A release always gives the server's handle back.
pub proof fn law_requests_run_their_course(
    fh: u64,
    failed: Option<i32>,
    marked: bool,
    handle: Option<u64>,
    offset: u64,
    size: u32,
    datasync: bool,
)
    ensures
        ({
            let read = after_flush(fh, FileWork::Read { offset, size }, failed, marked, handle);
            let sync = after_flush(fh, FileWork::Fsync { datasync }, failed, marked, handle);
            let close = after_flush(fh, FileWork::Close, failed, marked, handle);
            let release = after_flush(fh, FileWork::Release, failed, marked, handle);
            &&& failed matches Some(e) ==> {
                &&& read == FileStep::Reply(Err(e))
                &&& sync == FileStep::Reply(Err(e))
                &&& close == FileStep::Reply(Err(e))
            }
            &&& failed is None ==> read == FileStep::Resolve(fh)
            &&& failed is None && marked ==> sync == FileStep::Reply(Err(5)) && close
                == FileStep::Reply(Err(5))
            &&& failed is None && !marked ==> sync == FileStep::Resolve(fh) && close
                == FileStep::Reply(Ok(()))
            &&& handle matches Some(h) ==> release == FileStep::Release(h)
            &&& handle is None ==> release == FileStep::Reply(Ok(()))
        }),
{
}

/// Before anything else the file's bytes are sent: for a read those that can be sent at
/// once, for every other request all of them, so that what follows counts on them.
pub proof fn law_bytes_are_sent_first(fh: u64, work: FileWork, step: FileStep)
    requires
        call_ensures(begin, (fh, work), step),
    ensures
        work is Read ==> step == FileStep::Flush(fh),
        !(work is Read) ==> step == FileStep::Drain(fh),
{
}

} // verus!
