//! The interrupt line scheme: open a line by its number, wait until it next
//! fires, and acknowledge the occurrence that was seen.
//!
//! The scheme decides; it neither locks, sleeps nor touches hardware. Each
//! operation is handed the counter table as it stands while the caller holds
//! its lock, and answers with the step that the caller is to take: suspend
//! and poll again, hand a value to the reader, or acknowledge a line at the
//! interrupt controller.

use vstd::prelude::*;
use crate::error::Error;
use crate::path::decimal_digits;
use crate::path::is_decimal;
use crate::path::lemma_decimal_digits_value;
use crate::path::parse_decimal;
use crate::path::parsed;
use crate::table::CounterTable;
use crate::word::lemma_word_round_trip;
use crate::word::load_word;
use crate::word::store_word;
use crate::word::word_bytes;
use crate::word::word_len;
use crate::word::word_size;
use crate::word::word_value;
use crate::word::ByteOrder;

verus! {

/// A read that has sampled its line and now waits for the counter to move.
#[derive(Clone, Copy, Debug, PartialEq, Eq, Structural)]
pub struct PendingRead {
    /// The line that is read.
    pub line: usize,
    /// The line's counter when the read began.
    pub seen: usize,
}

/// What the caller of a poll does next.
#[derive(Clone, Copy, Debug, PartialEq, Eq, Structural)]
pub enum ReadStep {
    /// The counter has not moved: release the lock, suspend, poll again.
    Yield,
    /// The counter has moved and its value is in the buffer: the read
    /// returns this many bytes.
    Deliver(usize),
}

/// What a write asks of the interrupt controller.
#[derive(Clone, Copy, Debug, PartialEq, Eq, Structural)]
pub enum WriteOutcome {
    /// The claimed value is current: acknowledge this line, once.
    Acknowledge(usize),
    /// The claimed value is out of date: acknowledge nothing; the writer
    /// reads again and retries.
    Stale,
}

impl WriteOutcome {
    /// Number of bytes that the write accepted.
    pub open spec fn accepted(self) -> nat {
        match self {
            WriteOutcome::Acknowledge(_) => word_len(),
            WriteOutcome::Stale => 0,
        }
    }

    /// Number of bytes that the write accepted: a whole word when it
    /// acknowledges, none when the claim was stale.
    pub fn bytes_accepted(&self) -> (bytes: usize)
        ensures
            bytes == self.accepted(),
    {
        match self {
            WriteOutcome::Acknowledge(_) => word_size(),
            WriteOutcome::Stale => 0,
        }
    }
}

/// The handle that `path` opens on a table of `lines` lines.
pub open spec fn opened(path: Seq<u8>, lines: nat) -> Result<usize, Error> {
    match parsed(path) {
        Some(line) => if line < lines {
            Ok(line)
        } else {
            Err(Error::NotFound)
        },
        None => Err(Error::NotFound),
    }
}

/// How a read on handle `file` begins, with a buffer of `room` bytes.
pub open spec fn read_begun(file: usize, room: nat, counts: Seq<usize>) -> Result<
    PendingRead,
    Error,
> {
    if room < word_len() {
        Err(Error::InvalidArgument)
    } else {
        Ok(PendingRead { line: file, seen: counts[file as int] })
    }
}

/// One poll of a pending read that finds the counter at `current`: the step
/// to take, and the buffer afterwards.
pub open spec fn read_step(
    order: ByteOrder,
    pending: PendingRead,
    current: usize,
    buffer: Seq<u8>,
) -> (Result<ReadStep, Error>, Seq<u8>) {
    if buffer.len() < word_len() {
        (Err(Error::InvalidArgument), buffer)
    } else if current == pending.seen {
        (Ok(ReadStep::Yield), buffer)
    } else {
        (
            Ok(ReadStep::Deliver(word_len() as usize)),
            word_bytes(order, current) + buffer.skip(word_len() as int),
        )
    }
}

/// A pending read polled once for each of `samples`, the line's counter as
/// found at successive polls: the polls go on while the step is to yield.
/// The result is the last step taken and the buffer afterwards.
pub open spec fn read_run(
    order: ByteOrder,
    pending: PendingRead,
    samples: Seq<usize>,
    buffer: Seq<u8>,
) -> (Result<ReadStep, Error>, Seq<u8>)
    decreases samples.len(),
{
    if samples.len() == 0 {
        (Ok(ReadStep::Yield), buffer)
    } else {
        let first = read_step(order, pending, samples[0], buffer);
        if first.0 == Ok::<ReadStep, Error>(ReadStep::Yield) {
            read_run(order, pending, samples.drop_first(), first.1)
        } else {
            first
        }
    }
}

/// What a write of `buffer` on handle `file` decides.
pub open spec fn written(order: ByteOrder, file: usize, buffer: Seq<u8>, counts: Seq<usize>) -> Result<
    WriteOutcome,
    Error,
> {
    if buffer.len() < word_len() {
        Err(Error::InvalidArgument)
    } else if word_value(order, buffer) == counts[file as int] {
        Ok(WriteOutcome::Acknowledge(file))
    } else {
        Ok(WriteOutcome::Stale)
    }
}

/// The scheme of interrupt lines.
///
/// A handle is the index of its line in the counter table and carries no
/// other state, so the scheme itself holds only the byte order in which
/// counter values cross a buffer.
#[derive(Clone, Copy, Debug, PartialEq, Eq, Structural)]
pub struct IrqScheme {
    order: ByteOrder,
}

impl IrqScheme {
    /// The byte order in which counter values cross a buffer.
    pub closed spec fn order(&self) -> ByteOrder {
        self.order
    }

    /// A scheme that exchanges counter values in this machine's own byte
    /// order.
    ///
    /// Which order that is depends on the machine alone, so nothing is
    /// promised of it here; `with_order` makes a scheme whose order is known.
    pub fn new() -> IrqScheme {
        IrqScheme { order: ByteOrder::native() }
    }

    /// A scheme that exchanges counter values in the given byte order.
    pub fn with_order(order: ByteOrder) -> (scheme: IrqScheme)
        ensures
            scheme.order() == order,
    {
        IrqScheme { order }
    }

    /// The byte order in which counter values cross a buffer.
    pub fn byte_order(&self) -> (order: ByteOrder)
        ensures
            order == self.order(),
    {
        self.order
    }

    /// Opens the line that `path` names.
    ///
    /// The path is the line's index in decimal digits. The handle is that
    /// index. Any other path, and an index beyond the table, is not found.
    /// The flags are ignored: a line can be opened any number of times.
    pub fn open(&mut self, path: &[u8], _flags: usize, table: &CounterTable) -> (handle: Result<
        usize,
        Error,
    >)
        ensures
            *final(self) == *old(self),
            handle == opened(path@, table@.len()),
            handle matches Ok(line) ==> line < table@.len(),
    {
        match parse_decimal(path) {
            Some(line) => {
                if line < table.len() {
                    Ok(line)
                } else {
                    Err(Error::NotFound)
                }
            },
            None => Err(Error::NotFound),
        }
    }

    /// Refuses to duplicate a handle: two readers behind one handle would
    /// not know which of them an occurrence wakes.
    pub fn dup(&mut self, _file: usize) -> (handle: Result<usize, Error>)
        ensures
            *final(self) == *old(self),
            handle == Err::<usize, Error>(Error::PermissionDenied),
    {
        Err(Error::PermissionDenied)
    }

    /// Begins a read on `file`: samples the line's counter, which the read
    /// then waits to see change.
    ///
    /// A buffer too short for a word is refused, whatever the handle. With
    /// room for a word the handle must be one that `open` gave for this
    /// table.
    pub fn begin_read(&mut self, file: usize, buffer: &[u8], table: &CounterTable) -> (pending:
        Result<PendingRead, Error>)
        requires
            buffer@.len() >= word_len() ==> file < table@.len(),
        ensures
            *final(self) == *old(self),
            pending == read_begun(file, buffer@.len(), table@),
            buffer@.len() < word_len() ==> pending == Err::<PendingRead, Error>(
                Error::InvalidArgument,
            ),
    {
        if buffer.len() >= word_size() {
            Ok(PendingRead { line: file, seen: table.count(file) })
        } else {
            Err(Error::InvalidArgument)
        }
    }

    /// Polls a pending read against the table as it now stands.
    ///
    /// While the line's counter still has the value that the read began
    /// with, the step is to yield and the buffer is untouched. Once it
    /// differs, the current value is written to the front of the buffer and
    /// the read delivers one word.
    pub fn poll_read(&mut self, pending: &PendingRead, buffer: &mut [u8], table: &CounterTable) -> (step:
        Result<ReadStep, Error>)
        requires
            old(buffer)@.len() >= word_len() ==> pending.line < table@.len(),
        ensures
            *final(self) == *old(self),
            (step, final(buffer)@) == read_step(
                old(self).order(),
                *pending,
                table@[pending.line as int],
                old(buffer)@,
            ),
            old(buffer)@.len() < word_len() ==> step == Err::<ReadStep, Error>(
                Error::InvalidArgument,
            ),
            step == Ok::<ReadStep, Error>(ReadStep::Yield) <==> old(buffer)@.len() >= word_len()
                && table@[pending.line as int] == pending.seen,
    {
        if buffer.len() >= word_size() {
            let current = table.count(pending.line);
            if current != pending.seen {
                store_word(self.order, current, buffer);
                Ok(ReadStep::Deliver(word_size()))
            } else {
                Ok(ReadStep::Yield)
            }
        } else {
            Err(Error::InvalidArgument)
        }
    }

    /// Decides a write on `file`: the buffer carries the counter value that
    /// the writer last saw.
    ///
    /// If that value is still the line's counter, the line is to be
    /// acknowledged and a whole word is accepted. If not, nothing is
    /// acknowledged and nothing accepted, which is no error. A buffer too
    /// short for a word is refused, whatever the handle.
    pub fn write(&mut self, file: usize, buffer: &[u8], table: &CounterTable) -> (outcome: Result<
        WriteOutcome,
        Error,
    >)
        requires
            buffer@.len() >= word_len() ==> file < table@.len(),
        ensures
            *final(self) == *old(self),
            outcome == written(old(self).order(), file, buffer@, table@),
            buffer@.len() < word_len() ==> outcome == Err::<WriteOutcome, Error>(
                Error::InvalidArgument,
            ),
            outcome matches Ok(decision) ==> decision.accepted() == (if word_value(
                old(self).order(),
                buffer@,
            ) == table@[file as int] {
                word_len()
            } else {
                0
            }),
    {
        if buffer.len() >= word_size() {
            let claimed = load_word(self.order, buffer);
            let current = table.count(file);
            if claimed == current {
                Ok(WriteOutcome::Acknowledge(file))
            } else {
                Ok(WriteOutcome::Stale)
            }
        } else {
            Err(Error::InvalidArgument)
        }
    }

    /// Succeeds: a line has nothing to flush.
    pub fn fsync(&mut self, _file: usize) -> (done: Result<(), Error>)
        ensures
            *final(self) == *old(self),
            done == Ok::<(), Error>(()),
    {
        Ok(())
    }

    /// Succeeds: a handle holds nothing to release.
    pub fn close(&mut self, _file: usize) -> (done: Result<(), Error>)
        ensures
            *final(self) == *old(self),
            done == Ok::<(), Error>(()),
    {
        Ok(())
    }
}

/// Every line of a table opens by its number written in decimal, and the
/// handle is that number; a number beyond the table is not found.
pub proof fn lemma_open_by_number(line: nat, lines: usize)
    ensures
        line < lines ==> opened(decimal_digits(line), lines as nat) == Ok::<usize, Error>(
            line as usize,
        ),
        line >= lines ==> opened(decimal_digits(line), lines as nat) == Err::<usize, Error>(
            Error::NotFound,
        ),
{
    lemma_decimal_digits_value(line);
}

/// A path that is not a decimal numeral opens nothing.
pub proof fn lemma_open_rejects_malformed(path: Seq<u8>, lines: nat)
    requires
        !is_decimal(path),
    ensures
        opened(path, lines) == Err::<usize, Error>(Error::NotFound),
{
}

/// A read never returns while the counter stays where the read found it:
/// however often it is polled, the step is to yield and the buffer is
/// untouched.
pub proof fn lemma_read_waits_while_unchanged(
    order: ByteOrder,
    file: usize,
    start: Seq<usize>,
    samples: Seq<usize>,
    buffer: Seq<u8>,
)
    requires
        buffer.len() >= word_len(),
        forall|i: int| 0 <= i < samples.len() ==> samples[i] == start[file as int],
    ensures
        read_begun(file, buffer.len(), start) matches Ok(pending) && read_run(
            order,
            pending,
            samples,
            buffer,
        ) == (Ok::<ReadStep, Error>(ReadStep::Yield), buffer),
    decreases samples.len(),
{
    if samples.len() > 0 {
        lemma_read_waits_while_unchanged(order, file, start, samples.drop_first(), buffer);
    }
}

/// A read returns at the first poll that finds the counter changed: it
/// delivers one word, and the buffer then carries the value found.
pub proof fn lemma_read_delivers_first_change(
    order: ByteOrder,
    file: usize,
    start: Seq<usize>,
    samples: Seq<usize>,
    change: int,
    buffer: Seq<u8>,
)
    requires
        buffer.len() >= word_len(),
        0 <= change < samples.len(),
        forall|i: int| 0 <= i < change ==> samples[i] == start[file as int],
        samples[change] != start[file as int],
    ensures
        read_begun(file, buffer.len(), start) matches Ok(pending) && read_run(
            order,
            pending,
            samples,
            buffer,
        ) == (
            Ok::<ReadStep, Error>(ReadStep::Deliver(word_len() as usize)),
            word_bytes(order, samples[change]) + buffer.skip(word_len() as int),
        ),
        word_value(order, word_bytes(order, samples[change]) + buffer.skip(word_len() as int))
            == samples[change],
    decreases samples.len(),
{
    lemma_word_round_trip(order, samples[change], buffer.skip(word_len() as int));
    if change > 0 {
        lemma_read_delivers_first_change(
            order,
            file,
            start,
            samples.drop_first(),
            change - 1,
            buffer,
        );
    }
}

/// Writing back what a read delivered acknowledges the line exactly when
/// the counter has not moved since: if it has, the write is stale.
pub proof fn lemma_write_after_read(
    order: ByteOrder,
    pending: PendingRead,
    current: usize,
    buffer: Seq<u8>,
    later: Seq<usize>,
)
    requires
        buffer.len() >= word_len(),
        current != pending.seen,
    ensures
        written(order, pending.line, read_step(order, pending, current, buffer).1, later) == (
        if later[pending.line as int] == current {
            Ok::<WriteOutcome, Error>(WriteOutcome::Acknowledge(pending.line))
        } else {
            Ok::<WriteOutcome, Error>(WriteOutcome::Stale)
        }),
{
    lemma_word_round_trip(order, current, buffer.skip(word_len() as int));
}

} // verus!
