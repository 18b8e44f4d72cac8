//! The tape: a fixed ring of byte cells and a pointer into it.

use core::ops::{Add, AddAssign, Shl, ShlAssign, Shr, ShrAssign, Sub, SubAssign};
use vstd::prelude::*;
use vstd::std_specs::ops::{AddSpecImpl, ShlSpecImpl, ShrSpecImpl, SubSpecImpl};

verus! {

/// Number of cells on the tape.
pub const TAPE_SIZE: usize = 1000;

/// One cell of the tape. A cell that was never visited is `Untouched`; it
/// reads as zero, like `Value(0)`, and differs from it only in compact
/// renderings of the tape.
#[derive(Clone, Copy, Debug, PartialEq, Eq, Structural)]
pub enum Cell {
    Untouched,
    Value(u8),
}

impl Cell {
    /// The byte that the cell reads as.
    pub open spec fn spec_value(self) -> u8 {
        match self {
            Cell::Untouched => 0u8,
            Cell::Value(v) => v,
        }
    }

    /// The cell once visited: the same byte, no longer `Untouched`.
    pub open spec fn touched(self) -> Cell {
        Cell::Value(self.value())
    }

    /// The cell after adding `delta` modulo 256.
    pub open spec fn plus(self, delta: u8) -> Cell {
        Cell::Value(((self.value() + delta) % 256) as u8)
    }

    /// The cell after subtracting `delta` modulo 256.
    pub open spec fn minus(self, delta: u8) -> Cell {
        Cell::Value(((self.value() - delta) % 256) as u8)
    }

    /// Marks the cell as visited, keeping the byte it reads as.
    pub fn touch(&mut self)
        ensures
            *final(self) == old(self).touched(),
    {
        if let Cell::Untouched = *self {
            *self = Cell::Value(0);
        }
    }

    /// The byte that the cell reads as: zero for a cell never visited.
    #[verifier::when_used_as_spec(spec_value)]
    pub fn value(self) -> (v: u8)
        ensures
            v == self.spec_value(),
    {
        match self {
            Cell::Untouched => 0,
            Cell::Value(v) => v,
        }
    }

    /// Stores a byte, which also marks the cell as visited.
    pub fn set_value(&mut self, value: u8)
        ensures
            *final(self) == Cell::Value(value),
    {
        *self = Cell::Value(value);
    }

}

impl Add<u8> for Cell {
    type Output = Cell;

    /// Adds `delta` modulo 256; an untouched cell counts as zero.
    fn add(self, delta: u8) -> (c: Cell)
        ensures
            c == self.plus(delta),
    {
        Cell::Value(self.value().wrapping_add(delta))
    }
}

impl AddSpecImpl<u8> for Cell {
    open spec fn obeys_add_spec() -> bool {
        true
    }

    open spec fn add_req(self, delta: u8) -> bool {
        true
    }

    open spec fn add_spec(self, delta: u8) -> Cell {
        self.plus(delta)
    }
}

impl AddAssign<u8> for Cell {
    fn add_assign(&mut self, delta: u8)
        ensures
            *final(self) == old(self).plus(delta),
    {
        *self = *self + delta;
    }
}

impl Sub<u8> for Cell {
    type Output = Cell;

    /// Subtracts `delta` modulo 256; an untouched cell counts as zero.
    fn sub(self, delta: u8) -> (c: Cell)
        ensures
            c == self.minus(delta),
    {
        Cell::Value(self.value().wrapping_sub(delta))
    }
}

impl SubSpecImpl<u8> for Cell {
    open spec fn obeys_sub_spec() -> bool {
        true
    }

    open spec fn sub_req(self, delta: u8) -> bool {
        true
    }

    open spec fn sub_spec(self, delta: u8) -> Cell {
        self.minus(delta)
    }
}

impl SubAssign<u8> for Cell {
    fn sub_assign(&mut self, delta: u8)
        ensures
            *final(self) == old(self).minus(delta),
    {
        *self = *self - delta;
    }
}

impl Default for Cell {
    fn default() -> (c: Cell)
        ensures
            c == Cell::Untouched,
    {
        Cell::Untouched
    }
}

/// Number of single steps to the left after which a pointer that starts at
/// `from` first stands on `to`: between 1 and `TAPE_SIZE`.
pub open spec fn steps_left(from: int, to: int) -> int {
    if to < from {
        from - to
    } else {
        from - to + TAPE_SIZE
    }
}

/// Number of single steps to the right after which a pointer that starts at
/// `from` first stands on `to`: between 1 and `TAPE_SIZE`.
pub open spec fn steps_right(from: int, to: int) -> int {
    if to > from {
        to - from
    } else {
        to - from + TAPE_SIZE
    }
}

/// The tape as a mathematical value: the cells in order and the pointer.
pub struct TapeView {
    pub cells: Seq<Cell>,
    pub pointer: nat,
}

impl TapeView {
    /// A tape has `TAPE_SIZE` cells and its pointer stands on one of them.
    pub open spec fn wf(self) -> bool {
        &&& self.cells.len() == TAPE_SIZE
        &&& self.pointer < TAPE_SIZE
    }

    /// The tape before anything ran: the pointer on cell 0, that cell visited
    /// and zero, every other cell untouched.
    pub open spec fn fresh() -> TapeView {
        TapeView {
            cells: Seq::new(
                TAPE_SIZE as nat,
                |i: int|
                    if i == 0 {
                        Cell::Value(0)
                    } else {
                        Cell::Untouched
                    },
            ),
            pointer: 0,
        }
    }

    /// The cell under the pointer.
    pub open spec fn current(self) -> Cell {
        self.cells[self.pointer as int]
    }

    /// The byte under the pointer.
    pub open spec fn value(self) -> u8 {
        self.current().value()
    }

    /// The byte that each cell reads as.
    pub open spec fn values(self) -> Seq<u8> {
        self.cells.map_values(|c: Cell| c.value())
    }

    /// The tape with the cell under the pointer replaced.
    pub open spec fn with_current(self, cell: Cell) -> TapeView {
        TapeView { cells: self.cells.update(self.pointer as int, cell), pointer: self.pointer }
    }

    /// The tape after adding `delta` to the byte under the pointer, modulo 256.
    pub open spec fn plus(self, delta: u8) -> TapeView {
        self.with_current(self.current().plus(delta))
    }

    /// The tape after subtracting `delta` from the byte under the pointer, modulo 256.
    pub open spec fn minus(self, delta: u8) -> TapeView {
        self.with_current(self.current().minus(delta))
    }

    /// The tape after storing `value` under the pointer.
    pub open spec fn store(self, value: u8) -> TapeView {
        self.with_current(Cell::Value(value))
    }

    /// The tape after `n` single steps to the left. The pointer wraps from
    /// cell 0 to the last cell, and every cell it stands on along the way,
    /// the last one included, becomes visited.
    pub open spec fn shift_left(self, n: nat) -> TapeView {
        TapeView {
            cells: Seq::new(
                self.cells.len(),
                |i: int|
                    if steps_left(self.pointer as int, i) <= n {
                        self.cells[i].touched()
                    } else {
                        self.cells[i]
                    },
            ),
            pointer: ((self.pointer - n) % (TAPE_SIZE as int)) as nat,
        }
    }

    /// The tape after `n` single steps to the right. The pointer wraps from
    /// the last cell to cell 0, and every cell it stands on along the way,
    /// the last one included, becomes visited.
    pub open spec fn shift_right(self, n: nat) -> TapeView {
        TapeView {
            cells: Seq::new(
                self.cells.len(),
                |i: int|
                    if steps_right(self.pointer as int, i) <= n {
                        self.cells[i].touched()
                    } else {
                        self.cells[i]
                    },
            ),
            pointer: ((self.pointer + n) % (TAPE_SIZE as nat)) as nat,
        }
    }
}

/// Number of leading cells that a rendering shows. The verbose rendering
/// shows every cell; the compact one leaves out the longest run of untouched
/// cells at the end.
pub open spec fn shown_len(cells: Seq<Cell>, verbose: bool) -> nat
    decreases cells.len(),
{
    if verbose || cells.len() == 0 {
        cells.len()
    } else if cells.last() is Untouched {
        shown_len(cells.drop_last(), verbose)
    } else {
        cells.len()
    }
}

/// What a debug rendering of a tape shows: the bytes of the leading cells,
/// and whether a run of untouched cells at the end was left out.
#[derive(Clone, Debug, PartialEq, Eq)]
pub struct Rendering {
    pub entries: Vec<u8>,
    pub elided: bool,
}

/// An index into the tape; always below `TAPE_SIZE`.
#[derive(Clone, Copy)]
struct Pointer {
    at: usize,
}

impl Pointer {
    #[verifier::type_invariant]
    spec fn in_range(self) -> bool {
        self.at < TAPE_SIZE
    }

    fn get(self) -> (at: usize)
        ensures
            at == self.at,
            at < TAPE_SIZE,
    {
        proof {
            use_type_invariant(self);
        }
        self.at
    }
}

/// The machine's memory: `TAPE_SIZE` cells in a ring, and a pointer that
/// always stands on one of them.
pub struct Tape {
    cells: [Cell; 1000],
    pointer: Pointer,
}

impl View for Tape {
    type V = TapeView;

    closed spec fn view(&self) -> TapeView {
        TapeView { cells: self.cells@, pointer: self.pointer.at as nat }
    }
}

impl Tape {
    /// A fresh tape: the pointer on cell 0, that cell visited and zero, every
    /// other cell untouched.
    pub fn new() -> (t: Tape)
        ensures
            t@ == TapeView::fresh(),
            t@.wf(),
    {
        let mut cells = [Cell::Untouched; 1000];
        cells[0] = Cell::Value(0);
        let t = Tape { cells, pointer: Pointer { at: 0 } };
        assert(t@.cells =~= TapeView::fresh().cells);
        t
    }

    /// Index of the cell under the pointer.
    pub fn position(&self) -> (at: usize)
        ensures
            at == self@.pointer,
            self@.wf(),
    {
        self.pointer.get()
    }

    /// The cell at `index`, or `None` past the end of the tape.
    pub fn cell(&self, index: usize) -> (c: Option<Cell>)
        ensures
            self@.wf(),
            c == if index < TAPE_SIZE {
                Some(self@.cells[index as int])
            } else {
                None
            },
    {
        let _ = self.pointer.get();
        if index < TAPE_SIZE {
            Some(self.cells[index])
        } else {
            None
        }
    }

    /// The cell under the pointer.
    pub fn current_cell(&self) -> (c: &Cell)
        ensures
            self@.wf(),
            *c == self@.current(),
    {
        &self.cells[self.pointer.get()]
    }

    /// The cell under the pointer, for writing. Only that cell can change.
    pub fn current_cell_mut(&mut self) -> (c: &mut Cell)
        ensures
            old(self)@.wf(),
            *c == old(self)@.current(),
            final(self)@ == old(self)@.with_current(*final(c)),
    {
        let at = self.pointer.get();
        &mut self.cells[at]
    }

    /// What a debug rendering shows. The verbose rendering lists the byte of
    /// every cell. The compact one stops before the longest run of untouched
    /// cells at the end of the tape and reports that it left them out.
    pub fn render(&self, verbose: bool) -> (r: Rendering)
        ensures
            r.entries@ == self@.values().take(shown_len(self@.cells, verbose) as int),
            r.elided <==> shown_len(self@.cells, verbose) < TAPE_SIZE,
    {
        let mut shown: usize = TAPE_SIZE;
        assert(self.cells@.take(shown as int) =~= self.cells@);
        if !verbose {
            while shown > 0 && self.cells[shown - 1] == Cell::Untouched
                invariant
                    shown <= TAPE_SIZE,
                    self.cells@.len() == TAPE_SIZE,
                    !verbose,
                    shown_len(self.cells@, verbose) == shown_len(
                        self.cells@.take(shown as int),
                        verbose,
                    ),
                decreases shown,
            {
                proof {
                    let prefix = self.cells@.take(shown as int);
                    assert(prefix.last() == self.cells@[shown - 1]);
                    assert(prefix.drop_last() =~= self.cells@.take(shown - 1));
                }
                shown -= 1;
            }
        }
        proof {
            let prefix = self.cells@.take(shown as int);
            if shown > 0 && !verbose {
                assert(prefix.last() == self.cells@[shown - 1]);
            }
            assert(shown_len(self.cells@, verbose) == shown);
        }
        let mut entries: Vec<u8> = Vec::new();
        let mut i: usize = 0;
        while i < shown
            invariant
                i <= shown <= TAPE_SIZE,
                self.cells@.len() == TAPE_SIZE,
                entries@ == self@.values().take(i as int),
            decreases shown - i,
        {
            entries.push(self.cells[i].value());
            assert(self@.values().take(i + 1) =~= self@.values().take(i as int).push(
                self.cells@[i as int].value(),
            ));
            i += 1;
        }
        Rendering { entries, elided: shown < TAPE_SIZE }
    }
}

impl AddAssign<u8> for Tape {
    /// Adds `delta` to the byte under the pointer, modulo 256.
    fn add_assign(&mut self, delta: u8)
        ensures
            final(self)@ == old(self)@.plus(delta),
            final(self)@.wf(),
    {
        self.current_cell_mut().add_assign(delta);
    }
}

impl SubAssign<u8> for Tape {
    /// Subtracts `delta` from the byte under the pointer, modulo 256.
    fn sub_assign(&mut self, delta: u8)
        ensures
            final(self)@ == old(self)@.minus(delta),
            final(self)@.wf(),
    {
        self.current_cell_mut().sub_assign(delta);
    }
}

/// After `count` single steps to the left from `start`, with `count` at most
/// `TAPE_SIZE`, the pointer stands on the one cell that is `count` steps away.
proof fn lemma_walk_left(start: int, count: int, at: int)
    requires
        0 <= start < TAPE_SIZE,
        1 <= count <= TAPE_SIZE,
        0 <= at < TAPE_SIZE,
        at == (start - (count - 1)) % (TAPE_SIZE as int),
    ensures
        (start - count) % (TAPE_SIZE as int) == if at == 0 {
            TAPE_SIZE - 1
        } else {
            at - 1
        },
        forall|i: int|
            0 <= i < TAPE_SIZE ==> (#[trigger] steps_left(start, i) == count <==> i == (start
                - count) % (TAPE_SIZE as int)),
{
}

/// After `count` single steps to the right from `start`, with `count` at
/// most `TAPE_SIZE`, the pointer stands on the one cell that is `count` steps
/// away.
proof fn lemma_walk_right(start: int, count: int, at: int)
    requires
        0 <= start < TAPE_SIZE,
        1 <= count <= TAPE_SIZE,
        0 <= at < TAPE_SIZE,
        at == (start + (count - 1)) % (TAPE_SIZE as int),
    ensures
        (start + count) % (TAPE_SIZE as int) == if at == TAPE_SIZE - 1 {
            0
        } else {
            at + 1
        },
        forall|i: int|
            0 <= i < TAPE_SIZE ==> (#[trigger] steps_right(start, i) == count <==> i == (start
                + count) % (TAPE_SIZE as int)),
{
}

/// Steps beyond a full round only turn the pointer further.
proof fn lemma_turn(start: int, steps: int, rest: int)
    requires
        0 <= start < TAPE_SIZE,
        steps >= TAPE_SIZE,
        rest == (steps - TAPE_SIZE) % (TAPE_SIZE as int),
    ensures
        (start - TAPE_SIZE) % (TAPE_SIZE as int) == start,
        (start + TAPE_SIZE) % (TAPE_SIZE as int) == start,
        (start - steps) % (TAPE_SIZE as int) == if start >= rest {
            start - rest
        } else {
            start + TAPE_SIZE - rest
        },
        (start + steps) % (TAPE_SIZE as int) == if start + rest >= TAPE_SIZE {
            start + rest - TAPE_SIZE
        } else {
            start + rest
        },
{
}

impl Tape {
    /// Walks `walk` single steps to the left, visiting each cell on the way.
    fn walk_left(&mut self, walk: usize)
        requires
            walk <= TAPE_SIZE,
        ensures
            final(self).cells@ == old(self)@.shift_left(walk as nat).cells,
            final(self).pointer.at == (old(self).pointer.at - walk) % (TAPE_SIZE as int),
    {
        let start = self.pointer.get();
        let mut done: usize = 0;
        while done < walk
            invariant
                done <= walk <= TAPE_SIZE,
                start == old(self).pointer.at,
                start < TAPE_SIZE,
                self.pointer.at == (start - done) % (TAPE_SIZE as int),
                self.cells@.len() == TAPE_SIZE,
                forall|i: int|
                    0 <= i < TAPE_SIZE ==> self.cells@[i] == if steps_left(start as int, i)
                        <= done {
                        old(self).cells@[i].touched()
                    } else {
                        old(self).cells@[i]
                    },
            decreases walk - done,
        {
            let at = self.pointer.get();
            let next: usize = if at == 0 {
                TAPE_SIZE - 1
            } else {
                at - 1
            };
            proof {
                lemma_walk_left(start as int, done + 1, at as int);
            }
            self.pointer = Pointer { at: next };
            self.cells[next].touch();
            done += 1;
        }
        assert(self.cells@ =~= old(self)@.shift_left(walk as nat).cells);
    }

    /// Walks `walk` single steps to the right, visiting each cell on the way.
    fn walk_right(&mut self, walk: usize)
        requires
            walk <= TAPE_SIZE,
        ensures
            final(self).cells@ == old(self)@.shift_right(walk as nat).cells,
            final(self).pointer.at == (old(self).pointer.at + walk) % (TAPE_SIZE as int),
    {
        let start = self.pointer.get();
        let mut done: usize = 0;
        while done < walk
            invariant
                done <= walk <= TAPE_SIZE,
                start == old(self).pointer.at,
                start < TAPE_SIZE,
                self.pointer.at == (start + done) % (TAPE_SIZE as int),
                self.cells@.len() == TAPE_SIZE,
                forall|i: int|
                    0 <= i < TAPE_SIZE ==> self.cells@[i] == if steps_right(start as int, i)
                        <= done {
                        old(self).cells@[i].touched()
                    } else {
                        old(self).cells@[i]
                    },
            decreases walk - done,
        {
            let at = self.pointer.get();
            let next: usize = if at == TAPE_SIZE - 1 {
                0
            } else {
                at + 1
            };
            proof {
                lemma_walk_right(start as int, done + 1, at as int);
            }
            self.pointer = Pointer { at: next };
            self.cells[next].touch();
            done += 1;
        }
        assert(self.cells@ =~= old(self)@.shift_right(walk as nat).cells);
    }
}

impl ShlAssign<usize> for Tape {
    /// Moves the pointer `steps` cells to the left, wrapping at cell 0 and
    /// marking every cell it stands on as visited.
    fn shl_assign(&mut self, steps: usize)
        ensures
            final(self)@ == old(self)@.shift_left(steps as nat),
            final(self)@.wf(),
    {
        let start = self.pointer.get();
        if steps <= TAPE_SIZE {
            self.walk_left(steps);
        } else {
            // One full round visits every cell; what is left only turns the pointer.
            self.walk_left(TAPE_SIZE);
            let rest: usize = (steps - TAPE_SIZE) % TAPE_SIZE;
            proof {
                lemma_turn(start as int, steps as int, rest as int);
            }
            let next: usize = if start >= rest {
                start - rest
            } else {
                start + TAPE_SIZE - rest
            };
            self.pointer = Pointer { at: next };
            assert(self.cells@ =~= old(self)@.shift_left(steps as nat).cells);
        }
    }
}

impl ShrAssign<usize> for Tape {
    /// Moves the pointer `steps` cells to the right, wrapping at the last
    /// cell and marking every cell it stands on as visited.
    fn shr_assign(&mut self, steps: usize)
        ensures
            final(self)@ == old(self)@.shift_right(steps as nat),
            final(self)@.wf(),
    {
        let start = self.pointer.get();
        if steps <= TAPE_SIZE {
            self.walk_right(steps);
        } else {
            // One full round visits every cell; what is left only turns the pointer.
            self.walk_right(TAPE_SIZE);
            let rest: usize = (steps - TAPE_SIZE) % TAPE_SIZE;
            proof {
                lemma_turn(start as int, steps as int, rest as int);
            }
            let next: usize = if start + rest >= TAPE_SIZE {
                start + rest - TAPE_SIZE
            } else {
                start + rest
            };
            self.pointer = Pointer { at: next };
            assert(self.cells@ =~= old(self)@.shift_right(steps as nat).cells);
        }
    }
}

impl Shl<usize> for Tape {
    type Output = Tape;

    /// The tape moved `steps` cells to the left; see [`Tape::shl_assign`].
    fn shl(self, steps: usize) -> (t: Tape)
        ensures
            t@ == self@.shift_left(steps as nat),
            t@.wf(),
    {
        let mut t = self;
        t.shl_assign(steps);
        t
    }
}

/// What `<<` returns is stated on the view, by the `ensures` of `shl`.
impl ShlSpecImpl<usize> for Tape {
    open spec fn obeys_shl_spec() -> bool {
        false
    }

    open spec fn shl_req(self, steps: usize) -> bool {
        true
    }

    open spec fn shl_spec(self, steps: usize) -> Tape {
        self
    }
}

impl Shr<usize> for Tape {
    type Output = Tape;

    /// The tape moved `steps` cells to the right; see [`Tape::shr_assign`].
    fn shr(self, steps: usize) -> (t: Tape)
        ensures
            t@ == self@.shift_right(steps as nat),
            t@.wf(),
    {
        let mut t = self;
        t.shr_assign(steps);
        t
    }
}

/// What `>>` returns is stated on the view, by the `ensures` of `shr`.
impl ShrSpecImpl<usize> for Tape {
    open spec fn obeys_shr_spec() -> bool {
        false
    }

    open spec fn shr_req(self, steps: usize) -> bool {
        true
    }

    open spec fn shr_spec(self, steps: usize) -> Tape {
        self
    }
}

impl Default for Tape {
    fn default() -> (t: Tape)
        ensures
            t@ == TapeView::fresh(),
            t@.wf(),
    {
        Tape::new()
    }
}

impl Clone for Tape {
    fn clone(&self) -> (t: Tape)
        ensures
            t@ == self@,
    {
        Tape { cells: self.cells, pointer: self.pointer }
    }
}

/// The tape is a ring and its bytes wrap: one step to the left of cell 0 is
/// the last cell, one step to the right of the last cell is cell 0, and one
/// more than 255 is 0.
pub proof fn lemma_wraparound(tape: TapeView)
    requires
        tape.wf(),
    ensures
        tape.pointer == 0 ==> tape.shift_left(1).pointer == TAPE_SIZE - 1,
        tape.pointer == TAPE_SIZE - 1 ==> tape.shift_right(1).pointer == 0,
        tape.value() == 255 ==> tape.plus(1).value() == 0,
        tape.value() == 0 ==> tape.minus(1).value() == 255,
{
}

/// Moving keeps the tape well formed and changes no byte: it only marks
/// cells as visited.
pub proof fn lemma_shift_keeps_values(tape: TapeView, n: nat)
    requires
        tape.wf(),
    ensures
        tape.shift_left(n).wf(),
        tape.shift_right(n).wf(),
        tape.shift_left(n).values() == tape.values(),
        tape.shift_right(n).values() == tape.values(),
{
    assert(tape.shift_left(n).values() =~= tape.values());
    assert(tape.shift_right(n).values() =~= tape.values());
}

/// A cell never visited and a cell holding zero read the same, and differ in
/// the compact rendering: that rendering shows a cell exactly if the cell
/// itself or one after it was visited. So an explicit zero is always shown,
/// and untouched cells are left out where nothing visited follows.
pub proof fn lemma_compact_rendering_shows_visited(cells: Seq<Cell>, i: int)
    requires
        0 <= i < cells.len(),
    ensures
        Cell::Untouched.value() == Cell::Value(0).value(),
        i < shown_len(cells, false) <==> exists|j: int|
            i <= j < cells.len() && #[trigger] cells[j] is Value,
        cells[i] is Value ==> i < shown_len(cells, false),
        shown_len(cells, true) == cells.len(),
    decreases cells.len(),
{
    if cells.last() is Untouched {
        let rest = cells.drop_last();
        if i < rest.len() {
            lemma_compact_rendering_shows_visited(rest, i);
            if i < shown_len(rest, false) {
                let j = choose|j: int| i <= j < rest.len() && #[trigger] rest[j] is Value;
                assert(cells[j] is Value);
            }
            if exists|j: int| i <= j < cells.len() && #[trigger] cells[j] is Value {
                let j = choose|j: int| i <= j < cells.len() && #[trigger] cells[j] is Value;
                assert(rest[j] is Value);
            }
        } else {
            lemma_shown_len_bound(rest);
        }
    } else {
        assert(cells[cells.len() - 1] is Value);
    }
}

/// A rendering shows no more cells than there are.
pub proof fn lemma_shown_len_bound(cells: Seq<Cell>)
    ensures
        shown_len(cells, false) <= cells.len(),
    decreases cells.len(),
{
    if cells.len() > 0 && cells.last() is Untouched {
        lemma_shown_len_bound(cells.drop_last());
    }
}

} // verus!
