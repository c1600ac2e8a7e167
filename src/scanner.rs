//! The block-range cursor of a log scan.

use vstd::prelude::*;

verus! {

/// Scans a chain in inclusive block ranges of `window_size` blocks after the
/// first, from `cursor` on.
pub struct BlockScanner {
    /// The next block to scan.
    pub cursor: u64,
    /// The number of blocks after the first in one scan range.
    pub window_size: u64,
}

/// The last block of the range that starts at `cursor`, given the head.
pub open spec fn range_end(cursor: u64, window_size: u64, head: u64) -> u64 {
    if cursor + window_size <= head {
        (cursor + window_size) as u64
    } else {
        head
    }
}

impl BlockScanner {
    pub fn new(creation_block: u64, window_size: u64) -> (r: BlockScanner)
        ensures
            r.cursor == creation_block,
            r.window_size == window_size,
    {
        BlockScanner { cursor: creation_block, window_size }
    }

    /// The inclusive block range to scan next given the chain head: from the
    /// cursor to `window_size` blocks on, capped at the head; `None` when the
    /// cursor is past the head.
    pub fn next_range(&self, head: u64) -> (r: Option<(u64, u64)>)
        ensures
            r is None <==> self.cursor > head,
            r is Some ==> r == Some((self.cursor, range_end(self.cursor, self.window_size, head))),
    {
        if self.cursor > head {
            None
        } else if head - self.cursor <= self.window_size {
            Some((self.cursor, head))
        } else {
            Some((self.cursor, self.cursor + self.window_size))
        }
    }

    /// Records that every block up to `to` has been scanned.
    pub fn advance(&mut self, to: u64)
        requires
            old(self).cursor <= to < u64::MAX,
        ensures
            final(self).cursor == to + 1,
            final(self).cursor > old(self).cursor,
            final(self).window_size == old(self).window_size,
    {
        self.cursor = to + 1;
    }
}

} // verus!
