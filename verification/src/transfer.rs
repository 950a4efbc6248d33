//! Moving a whole buffer in as many steps as it takes.

use vstd::prelude::*;

use crate::error::{unexpected_eof, Error, ErrorKind};

verus! {

/// How much of a buffer has been read or written.
#[derive(Debug)]
pub struct Transfer {
    pub done: usize,
    pub len: usize,
}

impl Transfer {
    pub open spec fn wf(&self) -> bool {
        self.done <= self.len
    }

    /// Nothing has been moved of a buffer of `len` bytes.
    pub fn new(len: usize) -> (transfer: Transfer)
        ensures
            transfer.wf(),
            transfer.done == 0,
            transfer.len == len,
    {
        Transfer { done: 0, len }
    }

    /// Where the next step starts; nothing once all is done.
    pub fn next(&self) -> (start: Option<usize>)
        requires
            self.wf(),
        ensures
            start == if self.done < self.len {
                Some(self.done)
            } else {
                None
            },
    {
        if self.done < self.len {
            Some(self.done)
        } else {
            None
        }
    }

    /// `n` more bytes have been moved.
    pub open spec fn moved(&self, before: &Transfer, n: usize) -> bool {
        &&& self.wf()
        &&& self.len == before.len
        &&& self.done == before.done + n
    }

    /// Take note of `n` bytes that were written by a writer that takes what it
    /// can.
    pub fn advance(&mut self, n: usize)
        requires
            old(self).wf(),
            n <= old(self).len - old(self).done,
        ensures
            final(self).moved(old(self), n),
    {
        self.done = self.done + n;
    }

    /// Take note of a write of `n` bytes. A write of none will not get
    /// anywhere.
    pub fn wrote(&mut self, n: usize) -> (result: Result<(), Error>)
        requires
            old(self).wf(),
            n <= old(self).len - old(self).done,
        ensures
            final(self).moved(old(self), n),
            n == 0 ==> result is Err && result->Err_0.reads(
                ErrorKind::WriteZero,
                "failed to write whole buffer"@,
            ),
            n > 0 ==> result is Ok,
    {
        if n == 0 {
            return Err(Error::new(ErrorKind::WriteZero, "failed to write whole buffer"));
        }
        self.advance(n);
        Ok(())
    }

    /// Take note of a read of `n` bytes. A read of none is the end of the
    /// stream.
    pub fn read(&mut self, n: usize) -> (result: Result<(), Error>)
        requires
            old(self).wf(),
            n <= old(self).len - old(self).done,
        ensures
            final(self).moved(old(self), n),
            n == 0 ==> result is Err && result->Err_0.reads(
                ErrorKind::UnexpectedEof,
                "connection closed"@,
            ),
            n > 0 ==> result is Ok,
    {
        if n == 0 {
            return Err(unexpected_eof("connection closed"));
        }
        self.advance(n);
        Ok(())
    }
}

/// Bytes moved, step after step.
pub open spec fn total(steps: Seq<usize>) -> nat
    decreases steps.len(),
{
    if steps.len() == 0 {
        0
    } else {
        total(steps.drop_last()) + steps.last() as nat
    }
}

/// A transfer is done just when its steps add up to the buffer.
pub proof fn transfer_adds_up(states: Seq<Transfer>, steps: Seq<usize>)
    requires
        states.len() == steps.len() + 1,
        states[0].done == 0,
        forall|i: int|
            0 <= i < steps.len() ==> (#[trigger] states[i + 1]).moved(&states[i], steps[i]),
    ensures
        states.last().done == total(steps),
        states.last().len == states[0].len,
        states.last().done == states.last().len <==> total(steps) == states[0].len,
    decreases steps.len(),
{
    if steps.len() > 0 {
        let fewer = states.drop_last();
        let init = steps.drop_last();
        assert forall|i: int| 0 <= i < init.len() implies (#[trigger] fewer[i + 1]).moved(
            &fewer[i],
            init[i],
        ) by {
            assert(states[i + 1].moved(&states[i], steps[i]));
        }
        transfer_adds_up(fewer, init);
        let last = steps.len() - 1;
        assert(states[last + 1].moved(&states[last], steps[last]));
    }
}

/// A transfer begins at the start, goes on where it has come to, and ends when all
/// bytes were moved.
pub proof fn transfers_go_on_where_they_are(
    len: usize,
    fresh: Transfer,
    transfer: &Transfer,
    start: Option<usize>,
)
    requires
        call_ensures(Transfer::new, (len,), fresh),
        call_ensures(Transfer::next, (transfer,), start),
        transfer.done <= transfer.len,
    ensures
        fresh.done == 0 && fresh.len == len,
        start is None <==> transfer.done == transfer.len,
        start matches Some(at) ==> at == transfer.done,
{
}

/// Moved bytes are counted, all of them, and the buffer stays as long as it is.
pub proof fn moved_bytes_are_counted(transfer: &mut Transfer, n: usize)
    requires
        call_ensures(Transfer::advance, (transfer, n), ()),
    ensures
        final(transfer).done == old(transfer).done + n,
        final(transfer).len == old(transfer).len,
{
}

/// A write of some bytes is counted; a write of none is an error.
pub proof fn empty_writes_fail(transfer: &mut Transfer, n: usize, result: Result<(), Error>)
    requires
        call_ensures(Transfer::wrote, (transfer, n), result),
    ensures
        final(transfer).done == old(transfer).done + n,
        final(transfer).len == old(transfer).len,
        result is Err <==> n == 0,
        result matches Err(error) ==> error.kind == ErrorKind::WriteZero && error.message@
            == "failed to write whole buffer"@,
{
}

/// A read of some bytes is counted; a read of none is the end of the stream.
pub proof fn empty_reads_fail(transfer: &mut Transfer, n: usize, result: Result<(), Error>)
    requires
        call_ensures(Transfer::read, (transfer, n), result),
    ensures
        final(transfer).done == old(transfer).done + n,
        final(transfer).len == old(transfer).len,
        result is Err <==> n == 0,
        result matches Err(error) ==> error.kind == ErrorKind::UnexpectedEof && error.message@
            == "connection closed"@,
{
}

} // verus!
