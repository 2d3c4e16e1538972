//! The cursor: the input as a sequence of characters, a read index that only
//! moves forward (but for an explicit rollback), and the line and column that
//! belong to that index.

use vstd::prelude::*;

verus! {

/// A line and column pair of the executable code, as the pair of integers that
/// the specifications speak of.
pub open spec fn coord(p: (usize, usize)) -> (int, int) {
    (p.0 as int, p.1 as int)
}

/// The place reached from place `p` (line, column) by reading `c`: a newline
/// opens the next line at column 1, any other character moves one column on.
pub open spec fn step(p: (int, int), c: char) -> (int, int) {
    if c == '\n' {
        (p.0 + 1, 1)
    } else {
        (p.0, p.1 + 1)
    }
}

/// The place of index `i` in `input`: line and column, both counted from 1,
/// of the character at `i` (or of the end of input, for `i == input.len()`).
pub open spec fn position_at(input: Seq<char>, i: int) -> (int, int)
    decreases i,
{
    if i <= 0 {
        (1, 1)
    } else {
        step(position_at(input, i - 1), input[i - 1])
    }
}

/// The place of the character read last before index `i`; column 0 of line 1
/// while nothing has been read.
pub open spec fn prev_position_at(input: Seq<char>, i: int) -> (int, int) {
    if i <= 0 {
        (1, 0)
    } else {
        position_at(input, i - 1)
    }
}

/// Number of newline characters among the first `i` characters of `input`.
pub open spec fn newlines_before(input: Seq<char>, i: int) -> int
    decreases i,
{
    if i <= 0 {
        0
    } else if input[i - 1] == '\n' {
        newlines_before(input, i - 1) + 1
    } else {
        newlines_before(input, i - 1)
    }
}

/// Index at which the line that holds index `i` begins: just behind the last
/// newline before `i`, or 0.
pub open spec fn line_start(input: Seq<char>, i: int) -> int
    decreases i,
{
    if i <= 0 {
        0
    } else if input[i - 1] == '\n' {
        i
    } else {
        line_start(input, i - 1)
    }
}

/// Lexicographic order on places: `a` is at or before `b`.
pub open spec fn place_le(a: (int, int), b: (int, int)) -> bool {
    a.0 < b.0 || (a.0 == b.0 && a.1 <= b.1)
}

/// The line of an index is one more than the number of newlines before it,
/// and its column is its distance from the start of its line, counted from 1.
pub proof fn lemma_position_closed_form(input: Seq<char>, i: int)
    requires
        0 <= i <= input.len(),
    ensures
        position_at(input, i) == (
            1 + newlines_before(input, i),
            i - line_start(input, i) + 1,
        ),
        0 <= newlines_before(input, i) <= i,
        0 <= line_start(input, i) <= i,
    decreases i,
{
    if i > 0 {
        lemma_position_closed_form(input, i - 1);
    }
}

/// Lines and columns start at 1 and never exceed the index by more than 1.
pub proof fn lemma_position_bounds(input: Seq<char>, i: int)
    requires
        0 <= i <= input.len(),
    ensures
        1 <= position_at(input, i).0 <= i + 1,
        1 <= position_at(input, i).1 <= i + 1,
{
    lemma_position_closed_form(input, i);
}

/// Places grow with the index: of two indices the later one never lies
/// before the earlier one.
pub proof fn lemma_position_monotone(input: Seq<char>, i: int, j: int)
    requires
        0 <= i <= j <= input.len(),
    ensures
        place_le(position_at(input, i), position_at(input, j)),
        i < j ==> position_at(input, i) != position_at(input, j),
    decreases j - i,
{
    if i < j {
        lemma_position_monotone(input, i, j - 1);
        lemma_position_bounds(input, j - 1);
    }
}

/// What a cursor is, to the specifications: the input, the read index, the
/// place of the read index and the place of the character read last.
pub struct CursorView {
    pub input: Seq<char>,
    pub ind: int,
    pub pos: (int, int),
    pub prev_pos: (int, int),
}

impl CursorView {
    /// The cursor over `input` that stands at index `ind` with the places
    /// that belong to that index.
    pub open spec fn at(input: Seq<char>, ind: int) -> CursorView {
        CursorView {
            input,
            ind,
            pos: position_at(input, ind),
            prev_pos: prev_position_at(input, ind),
        }
    }

    /// The read index lies within the input, both places are those of the
    /// read index, and every place of the input fits in a machine word.
    pub open spec fn wf(self) -> bool {
        &&& 0 <= self.ind <= self.input.len() < usize::MAX
        &&& self == CursorView::at(self.input, self.ind)
    }

    /// The character at the read index, if any.
    pub open spec fn peek(self) -> Option<char> {
        if 0 <= self.ind < self.input.len() {
            Some(self.input[self.ind])
        } else {
            None
        }
    }

    /// The cursor after reading one character; itself at the end of input.
    pub open spec fn advance(self) -> CursorView {
        if 0 <= self.ind < self.input.len() {
            CursorView {
                input: self.input,
                ind: self.ind + 1,
                pos: step(self.pos, self.input[self.ind]),
                prev_pos: self.pos,
            }
        } else {
            self
        }
    }

    /// The cursor after loading the mark `m`.
    pub open spec fn restored(self, m: Position) -> CursorView {
        CursorView {
            input: self.input,
            ind: m.ind as int,
            pos: coord(m.pos),
            prev_pos: coord(m.prev_pos),
        }
    }

    /// The mark `m` holds exactly the state of this cursor.
    pub open spec fn marked_by(self, m: Position) -> bool {
        self.restored(m) == self
    }
}

/// Reading a character from a well-formed cursor leaves a well-formed cursor
/// one index further, or the same cursor at the end of input.
pub proof fn lemma_advance_wf(c: CursorView)
    requires
        c.wf(),
    ensures
        c.advance().wf(),
        c.advance() == CursorView::at(
            c.input,
            if c.ind < c.input.len() {
                c.ind + 1
            } else {
                c.ind
            },
        ),
{
}

/// A saved mark: the read index with its two places, enough to put a cursor
/// back exactly where it stood.
#[derive(Debug, Clone, Copy)]
pub struct Position {
    pub ind: usize,
    pub pos: (usize, usize),
    pub prev_pos: (usize, usize),
}

/// The position-tracking cursor over the characters of the input.
#[derive(Debug)]
pub struct SmartIterator {
    arr: Vec<char>,
    prev_pos: (usize, usize),
    pos: (usize, usize),
    ind: usize,
}

impl View for SmartIterator {
    type V = CursorView;

    closed spec fn view(&self) -> CursorView {
        CursorView {
            input: self.arr@,
            ind: self.ind as int,
            pos: coord(self.pos),
            prev_pos: coord(self.prev_pos),
        }
    }
}

impl SmartIterator {
    /// See [`CursorView::wf`].
    pub open spec fn wf(&self) -> bool {
        self@.wf()
    }

    /// A cursor at the start of `s`: line 1, column 1, nothing read yet.
    pub fn new(s: String) -> (r: Self)
        requires
            s@.len() < usize::MAX,
        ensures
            r@ == CursorView::at(s@, 0),
            r.wf(),
    {
        let mut arr: Vec<char> = Vec::new();
        for c in it: s.as_str().chars()
            invariant
                arr@ == it.seq().take(it.index() as int),
                it.seq() == s@,
        {
            arr.push(c);
        }
        assert(arr@ =~= s@);
        Self { arr, pos: (1, 1), prev_pos: (1, 0), ind: 0 }
    }

    /// The character at the read index, which stays where it is.
    pub fn see(&self) -> (c: Option<char>)
        ensures
            c == self@.peek(),
    {
        if self.ind < self.arr.len() {
            Some(self.arr[self.ind])
        } else {
            None
        }
    }

    /// Reads the character at the read index and moves one character on. At
    /// the end of input it returns `None` and changes nothing.
    pub fn next(&mut self) -> (c: Option<char>)
        requires
            old(self).wf(),
        ensures
            c == old(self)@.peek(),
            final(self)@ == old(self)@.advance(),
            final(self).wf(),
    {
        if self.ind < self.arr.len() {
            let x = self.arr[self.ind];
            proof {
                lemma_position_bounds(self.arr@, self.ind as int);
                lemma_advance_wf(self@);
            }
            self.ind += 1;
            self.prev_pos = self.pos;
            self.pos = if x == '\n' {
                (self.pos.0 + 1, 1)
            } else {
                (self.pos.0, self.pos.1 + 1)
            };
            Some(x)
        } else {
            None
        }
    }

    /// The mark of the present state.
    pub fn save_pos(&self) -> (m: Position)
        ensures
            self@.marked_by(m),
            m.ind == self@.ind,
            coord(m.pos) == self@.pos,
            coord(m.prev_pos) == self@.prev_pos,
    {
        Position { ind: self.ind, pos: self.pos, prev_pos: self.prev_pos }
    }

    /// Puts the cursor back to the mark `a`: index and both places together.
    pub fn load_pos(&mut self, a: Position)
        ensures
            final(self)@ == old(self)@.restored(a),
    {
        self.ind = a.ind;
        self.pos = a.pos;
        self.prev_pos = a.prev_pos;
    }

    /// The place of the read index.
    pub fn pos(&self) -> (p: (usize, usize))
        ensures
            coord(p) == self@.pos,
    {
        self.pos
    }

    /// The place of the character read last.
    pub fn prev_pos(&self) -> (p: (usize, usize))
        ensures
            coord(p) == self@.prev_pos,
    {
        self.prev_pos
    }
}

} // verus!
