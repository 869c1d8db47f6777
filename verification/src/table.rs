//! The table of occurrence counters, one per interrupt line.

use vstd::prelude::*;

verus! {

/// One occurrence counter for each interrupt line.
///
/// The number of lines is fixed when the table is made: no operation adds or
/// removes a line. The table is plain data; whoever shares it between the
/// scheme and the interrupt controller guards it with a lock.
pub struct CounterTable {
    counts: Vec<usize>,
}

impl View for CounterTable {
    type V = Seq<usize>;

    closed spec fn view(&self) -> Seq<usize> {
        self.counts@
    }
}

impl CounterTable {
    /// A table of `lines` counters, all at zero.
    pub fn new(lines: usize) -> (table: CounterTable)
        ensures
            table@ == Seq::new(lines as nat, |i: int| 0usize),
    {
        let mut counts: Vec<usize> = Vec::new();
        let mut i: usize = 0;
        while i < lines
            invariant
                i <= lines,
                counts@ == Seq::new(i as nat, |j: int| 0usize),
            decreases lines - i,
        {
            counts.push(0);
            i += 1;
            assert(counts@ =~= Seq::new(i as nat, |j: int| 0usize));
        }
        CounterTable { counts }
    }

    /// A table that starts from the given counts, one line for each.
    pub fn from_counts(counts: Vec<usize>) -> (table: CounterTable)
        ensures
            table@ == counts@,
    {
        CounterTable { counts }
    }

    /// The number of interrupt lines.
    pub fn len(&self) -> (lines: usize)
        ensures
            lines == self@.len(),
    {
        self.counts.len()
    }

    /// How often `line` has fired.
    pub fn count(&self, line: usize) -> (count: usize)
        requires
            line < self@.len(),
        ensures
            count == self@[line as int],
    {
        self.counts[line]
    }

    /// Records one more occurrence on `line`. Every other counter, and the
    /// number of lines, stay as they were.
    pub fn record(&mut self, line: usize)
        requires
            line < old(self)@.len(),
            old(self)@[line as int] < usize::MAX,
        ensures
            final(self)@ == old(self)@.update(line as int, (old(self)@[line as int] + 1) as usize),
            final(self)@.len() == old(self)@.len(),
    {
        let next = self.counts[line] + 1;
        self.counts[line] = next;
    }
}

} // verus!
