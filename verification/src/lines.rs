use crate::text::{decimal, push_decimal, Render};
use vstd::prelude::*;
use vstd::string::StringSliceAdditionalSpecFns;

verus! {

/// Column and line into the Instant program.
#[derive(Debug, PartialEq, Eq)]
pub struct Position {
    pub line: usize,
    pub column: usize,
}

impl Render for Position {
    /// The text of the position, as it stands in a message.
    open spec fn text(&self) -> Seq<char> {
        "(line "@ + decimal(self.line as nat) + ", column "@ + decimal(self.column as nat) + ")"@
    }

    /// Renders the position for a message.
    fn to_string(&self) -> (s: String) {
        let mut s = String::new();
        s.append("(line ");
        push_decimal(&mut s, self.line as u64);
        s.append(", column ");
        push_decimal(&mut s, self.column as u64);
        s.append(")");
        assert(s@ =~= self.text());
        s
    }
}

/// The byte offsets of the line feeds in the encoding of a text, in
/// increasing order: the offsets at which the byte 10 stands.
pub open spec fn line_breaks(bytes: Seq<u8>) -> Seq<usize>
    decreases bytes.len(),
{
    if bytes.len() == 0 {
        Seq::empty()
    } else if bytes.last() == 10 {
        line_breaks(bytes.drop_last()).push((bytes.len() - 1) as usize)
    } else {
        line_breaks(bytes.drop_last())
    }
}

/// Whether each offset of a sequence is larger than the one before it.
pub open spec fn increasing(breaks: Seq<usize>) -> bool {
    forall|i: int, j: int| 0 <= i < j < breaks.len() ==> breaks[i] < breaks[j]
}

/// How many of the line breaks lie before an offset.
pub open spec fn breaks_before(breaks: Seq<usize>, offset: usize) -> nat
    decreases breaks.len(),
{
    if breaks.len() == 0 {
        0
    } else if breaks.last() < offset {
        breaks_before(breaks.drop_last(), offset) + 1
    } else {
        breaks_before(breaks.drop_last(), offset)
    }
}

/// The line of an offset in a text with the given line breaks, counted from
/// 1: one more than the number of line breaks before the offset.
pub open spec fn line_at(breaks: Seq<usize>, offset: usize) -> nat {
    breaks_before(breaks, offset) + 1
}

/// The column of an offset in a text with the given line breaks, counted
/// from 1: the distance from the last line break before the offset, or from
/// one place before the start of the text where there is none.
pub open spec fn column_at(breaks: Seq<usize>, offset: usize) -> int {
    let before = breaks_before(breaks, offset);
    if before == 0 {
        offset + 1
    } else {
        offset - breaks[before - 1]
    }
}

/// The line breaks of an encoding are increasing offsets into it, and they
/// are all the offsets at which a line feed stands.
pub proof fn lemma_line_breaks(bytes: Seq<u8>)
    requires
        bytes.len() <= usize::MAX,
    ensures
        increasing(line_breaks(bytes)),
        line_breaks(bytes).len() <= bytes.len(),
        forall|i: int|
            0 <= i < line_breaks(bytes).len() ==> (#[trigger] line_breaks(bytes)[i]) < bytes.len()
                && bytes[line_breaks(bytes)[i] as int] == 10,
        forall|at: int|
            0 <= at < bytes.len() && bytes[at] == 10 ==> line_breaks(bytes).contains(at as usize),
    decreases bytes.len(),
{
    if bytes.len() > 0 {
        let front = bytes.drop_last();
        lemma_line_breaks(front);
        assert forall|at: int| 0 <= at < bytes.len() && bytes[at] == 10 implies line_breaks(
            bytes,
        ).contains(at as usize) by {
            if at < front.len() {
                assert(front[at] == bytes[at]);
                let i = choose|i: int|
                    0 <= i < line_breaks(front).len() && line_breaks(front)[i] == at as usize;
                assert(line_breaks(bytes)[i] == at as usize);
            } else {
                assert(line_breaks(bytes)[line_breaks(bytes).len() - 1] == at as usize);
            }
        }
    }
}

/// In increasing line breaks, those before an offset are the first ones.
proof fn lemma_breaks_before(breaks: Seq<usize>, offset: usize, n: int)
    requires
        increasing(breaks),
        0 <= n <= breaks.len(),
        forall|i: int| 0 <= i < n ==> breaks[i] < offset,
        forall|i: int| n <= i < breaks.len() ==> breaks[i] >= offset,
    ensures
        breaks_before(breaks, offset) == n,
    decreases breaks.len(),
{
    if breaks.len() > 0 {
        let front = breaks.drop_last();
        if n == breaks.len() {
            lemma_breaks_before(front, offset, n - 1);
        } else {
            lemma_breaks_before(front, offset, n);
        }
    }
}

/// Struct for finding [Position] of the given byte offset.
pub struct Lines {
    breaks: Vec<usize>,
}

impl View for Lines {
    type V = Seq<usize>;

    closed spec fn view(&self) -> Seq<usize> {
        self.breaks@
    }
}

impl Lines {
    #[verifier::type_invariant]
    spec fn ordered(self) -> bool {
        increasing(self.breaks@)
    }

    /// Creates a new instance of this struct based on the given input:
    /// it holds the byte offsets of the line feeds of the input.
    pub fn new(input: &str) -> (lines: Self)
        ensures
            lines@ == line_breaks(input.spec_bytes()),
            increasing(lines@),
    {
        let bytes = input.as_bytes();
        let mut breaks: Vec<usize> = Vec::new();
        let mut p: usize = 0;
        while p < bytes.len()
            invariant
                p <= bytes@.len(),
                bytes@ == input.spec_bytes(),
                breaks@ == line_breaks(bytes@.take(p as int)),
            decreases bytes@.len() - p,
        {
            proof {
                let done = bytes@.take(p + 1);
                assert(done.drop_last() =~= bytes@.take(p as int));
                assert(done.last() == bytes@[p as int]);
            }
            if bytes[p] == 10 {
                breaks.push(p);
            }
            p += 1;
        }
        proof {
            assert(bytes@.take(p as int) =~= bytes@);
            lemma_line_breaks(bytes@);
        }
        Self { breaks }
    }

    /// Returns [Position] of the given byte offset.
    pub fn position(&self, offset: usize) -> (position: Position)
        requires
            offset < usize::MAX,
        ensures
            position.line == line_at(self@, offset),
            position.column == column_at(self@, offset),
    {
        proof {
            use_type_invariant(self);
        }
        let mut low: usize = 0;
        let mut high: usize = self.breaks.len();
        while low < high
            invariant
                low <= high <= self.breaks@.len(),
                forall|i: int| 0 <= i < low ==> self.breaks@[i] < offset,
                forall|i: int| high <= i < self.breaks@.len() ==> self.breaks@[i] >= offset,
                increasing(self.breaks@),
            decreases high - low,
        {
            let mid = low + (high - low) / 2;
            if self.breaks[mid] < offset {
                low = mid + 1;
            } else {
                high = mid;
            }
        }
        proof {
            lemma_breaks_before(self.breaks@, offset, low as int);
        }
        if low == 0 {
            Position { line: 1, column: offset + 1 }
        } else {
            assert(forall|i: int| 0 <= i < low ==> i <= #[trigger] self.breaks@[i]) by {
                lemma_at_least_index(self.breaks@);
            }
            Position { line: low + 1, column: offset - self.breaks[low - 1] }
        }
    }
}

/// In increasing offsets, each is at least its own index.
proof fn lemma_at_least_index(breaks: Seq<usize>)
    requires
        increasing(breaks),
    ensures
        forall|i: int| 0 <= i < breaks.len() ==> i <= #[trigger] breaks[i],
    decreases breaks.len(),
{
    if breaks.len() > 0 {
        let front = breaks.drop_last();
        assert forall|i: int, j: int| 0 <= i < j < front.len() implies front[i] < front[j] by {
            assert(front[i] == breaks[i]);
            assert(front[j] == breaks[j]);
        }
        lemma_at_least_index(front);
        assert forall|i: int| 0 <= i < breaks.len() implies i <= #[trigger] breaks[i] by {
            if i < front.len() {
                assert(front[i] == breaks[i]);
            } else if i > 0 {
                assert(front[i - 1] == breaks[i - 1]);
                assert(breaks[i - 1] < breaks[i]);
            }
        }
    }
}

} // verus!
