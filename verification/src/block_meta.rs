//! The line marks of a block, and the search for a hole among them.

use vstd::prelude::*;
use crate::constants::{BLOCK_SIZE, LINE_COUNT, LINE_SIZE};

verus! {

/// One mark byte for each line of a block: zero for a free line, anything
/// else for a line that holds live data.
pub struct BlockMeta {
    lines: Vec<u8>,
}

/// The number of lines that `alloc_size` bytes take up, counting a line
/// that is only partly used.
pub open spec fn lines_required(alloc_size: int) -> int {
    (alloc_size + LINE_SIZE - 1) / (LINE_SIZE as int)
}

/// Whether each of the lines from `from` up to, not including, `to` is free.
pub open spec fn lines_free(marks: Seq<u8>, from: int, to: int) -> bool {
    forall|i: int| from <= i < to ==> #[trigger] marks[i] == 0
}

/// The hole found by walking down from line `index - 1` to line 0, when the
/// lines from `index` up to, not including, `end` are known to be free
/// and the line `end` closes the run.
///
/// A marked line ends the run above it. If that run has more than `required`
/// lines, the hole is the run without its lowest line, which is taken to be
/// marked as well: an object that starts in the marked line may reach into
/// it. Otherwise the search goes on below the marked line. A run that reaches
/// line 0 is a hole if it has at least `required` lines.
pub open spec fn hole_below(marks: Seq<u8>, index: int, end: int, required: int) -> Option<
    (int, int),
>
    decreases index,
{
    if index <= 0 {
        None
    } else {
        let line = index - 1;
        if marks[line] == 0 {
            if line == 0 && end >= required {
                Some((end * LINE_SIZE, 0int))
            } else {
                hole_below(marks, line, end, required)
            }
        } else if end - index > required {
            Some((end * LINE_SIZE, (line + 2) * LINE_SIZE))
        } else {
            hole_below(marks, line, line, required)
        }
    }
}

/// The next hole below the offset `starting_at` that can take `alloc_size`
/// bytes, as the pair of its upper end and its lower end, both offsets in
/// the block.
pub open spec fn next_hole(marks: Seq<u8>, starting_at: int, alloc_size: int) -> Option<(int, int)> {
    let starting_line = starting_at / (LINE_SIZE as int);
    hole_below(marks, starting_line, starting_line, lines_required(alloc_size))
}

/// What holds of every hole that the search returns: it lies below the
/// starting line, ends on line boundaries, is at least as long as the lines
/// asked for, and has no marked line in it.
pub open spec fn hole_is_sound(
    marks: Seq<u8>,
    start_line: int,
    required: int,
    hole: (int, int),
) -> bool {
    let (cursor, limit) = hole;
    &&& 0 <= limit <= cursor <= start_line * LINE_SIZE
    &&& cursor % (LINE_SIZE as int) == 0
    &&& limit % (LINE_SIZE as int) == 0
    &&& cursor - limit >= required * LINE_SIZE
    &&& lines_free(marks, limit / (LINE_SIZE as int), cursor / (LINE_SIZE as int))
    &&& limit > 0 ==> {
        &&& limit >= 2 * LINE_SIZE
        &&& marks[limit / (LINE_SIZE as int) - 2] != 0
        &&& marks[limit / (LINE_SIZE as int) - 1] == 0
    }
}

/// Every hole that the walk returns is sound.
pub proof fn lemma_hole_below_sound(marks: Seq<u8>, index: int, end: int, required: int)
    requires
        0 <= index <= end <= marks.len(),
        0 <= required,
        lines_free(marks, index, end),
    ensures
        hole_below(marks, index, end, required) matches Some(hole) ==> hole_is_sound(
            marks,
            end,
            required,
            hole,
        ),
    decreases index,
{
    if index > 0 {
        let line = index - 1;
        if marks[line] == 0 {
            if line == 0 && end >= required {
                assert(end * LINE_SIZE / (LINE_SIZE as int) == end);
            } else {
                lemma_hole_below_sound(marks, line, end, required);
            }
        } else if end - index > required {
            assert(end * LINE_SIZE / (LINE_SIZE as int) == end);
            assert((line + 2) * LINE_SIZE / (LINE_SIZE as int) == line + 2);
        } else {
            lemma_hole_below_sound(marks, line, line, required);
            assert(line * LINE_SIZE <= end * LINE_SIZE);
        }
    }
}

/// A hole that is searched for below `starting_at` with room for
/// `alloc_size` bytes ends at or below `starting_at`, is at least
/// `alloc_size` bytes long, and holds no marked line. It is not empty
/// if `alloc_size` is not zero.
pub proof fn lemma_next_hole_sound(marks: Seq<u8>, starting_at: int, alloc_size: int)
    requires
        marks.len() == LINE_COUNT,
        0 <= starting_at <= BLOCK_SIZE,
        0 <= alloc_size,
    ensures
        next_hole(marks, starting_at, alloc_size) matches Some((cursor, limit)) ==> {
            &&& 0 <= limit <= cursor <= starting_at
            &&& cursor - limit >= alloc_size
            &&& (alloc_size > 0 ==> limit < cursor)
            &&& cursor % (LINE_SIZE as int) == 0
            &&& limit % (LINE_SIZE as int) == 0
            &&& lines_free(marks, limit / (LINE_SIZE as int), cursor / (LINE_SIZE as int))
        },
{
    let starting_line = starting_at / (LINE_SIZE as int);
    lemma_hole_below_sound(marks, starting_line, starting_line, lines_required(alloc_size));
}

impl BlockMeta {
    /// The mark bytes, by line.
    pub closed spec fn marks(self) -> Seq<u8> {
        self.lines@
    }

    /// There is one mark byte for each line of a block.
    pub open spec fn wf(self) -> bool {
        self.marks().len() == LINE_COUNT
    }

    /// A line map with every line free.
    pub fn new() -> (meta: BlockMeta)
        ensures
            meta.wf(),
            lines_free(meta.marks(), 0, LINE_COUNT as int),
    {
        BlockMeta { lines: vec![0u8; LINE_COUNT] }
    }

    /// Marks the line `index` as holding live data.
    pub fn mark_line(&mut self, index: usize)
        requires
            old(self).wf(),
            index < LINE_COUNT,
        ensures
            final(self).wf(),
            final(self).marks() == old(self).marks().update(index as int, 1u8),
    {
        self.lines[index] = 1;
    }

    /// Whether the line `index` is marked.
    pub fn is_marked(&self, index: usize) -> (marked: bool)
        requires
            self.wf(),
            index < LINE_COUNT,
        ensures
            marked == (self.marks()[index as int] != 0),
    {
        self.lines[index] != 0
    }

    /// Finds the next hole below the offset `starting_at` with room for
    /// `alloc_size` bytes. Holes are searched for downward, as the block is
    /// filled downward. Returns the upper and the lower end of the hole as
    /// offsets in the block, or `None` if there is no such hole.
    pub fn find_next_available_hole(&self, starting_at: usize, alloc_size: usize) -> (r: Option<
        (usize, usize),
    >)
        requires
            self.wf(),
            starting_at <= BLOCK_SIZE,
        ensures
            match r {
                Some((cursor, limit)) => {
                    &&& next_hole(self.marks(), starting_at as int, alloc_size as int) == Some(
                        (cursor as int, limit as int),
                    )
                    &&& limit <= cursor <= starting_at
                    &&& cursor - limit >= alloc_size
                    &&& (alloc_size > 0 ==> limit < cursor)
                    &&& cursor % LINE_SIZE == 0
                    &&& limit % LINE_SIZE == 0
                    &&& lines_free(
                        self.marks(),
                        limit as int / (LINE_SIZE as int),
                        cursor as int / (LINE_SIZE as int),
                    )
                },
                None => next_hole(self.marks(), starting_at as int, alloc_size as int) is None,
            },
    {
        let starting_line: usize = starting_at / LINE_SIZE;
        let lines_required: usize = alloc_size / LINE_SIZE + if alloc_size % LINE_SIZE == 0 {
            0
        } else {
            1
        };
        assert(lines_required == self::lines_required(alloc_size as int));
        // the count of consecutive free lines, the lowest of which may have to
        // be given up as the line next to a marked one
        let mut count: usize = 0;
        let mut end: usize = starting_line;
        let mut index: usize = starting_line;
        while index > 0
            invariant
                self.wf(),
                starting_at <= BLOCK_SIZE,
                index <= end <= starting_line <= LINE_COUNT,
                count == end - index,
                lines_required == self::lines_required(alloc_size as int),
                hole_below(self.marks(), index as int, end as int, lines_required as int)
                    == next_hole(self.marks(), starting_at as int, alloc_size as int),
            decreases index,
        {
            index = index - 1;
            let marked: u8 = self.lines[index];
            if marked == 0 {
                count = count + 1;
                if index == 0 && count >= lines_required {
                    let limit: usize = index * LINE_SIZE;
                    let cursor: usize = end * LINE_SIZE;
                    proof {
                        lemma_next_hole_sound(self.marks(), starting_at as int, alloc_size as int);
                    }
                    return Some((cursor, limit));
                }
            } else {
                if count > lines_required {
                    let limit: usize = (index + 2) * LINE_SIZE;
                    let cursor: usize = end * LINE_SIZE;
                    proof {
                        lemma_next_hole_sound(self.marks(), starting_at as int, alloc_size as int);
                    }
                    return Some((cursor, limit));
                }
                count = 0;
                end = index;
            }
        }
        None
    }
}

} // verus!
