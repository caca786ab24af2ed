//! The benchmark subjects built around the Life cellular automaton.
//!
//! The sort is the system's core; these types only carry the automaton's
//! board between the lifecycle calls of the three benchmark variants, which
//! differ in how a driver advances the generations, not in any state held
//! here.

use vstd::prelude::*;

verus! {

/// A rectangular grid of cells, each either alive or dead, stored row by
/// row.
pub struct Board {
    width: usize,
    height: usize,
    cells: Vec<bool>,
}

impl Board {
    /// The board's shape never drifts: one cell per grid position.
    pub closed spec fn wf(self) -> bool {
        self.cells@.len() == self.width * self.height
    }

    /// The board's width.
    pub closed spec fn spec_width(self) -> usize {
        self.width
    }

    /// The board's height.
    pub closed spec fn spec_height(self) -> usize {
        self.height
    }

    /// A board of the given size with every cell dead.
    pub fn new(width: usize, height: usize) -> (board: Board)
        requires
            width * height <= usize::MAX,
        ensures
            board.wf(),
            board.spec_width() == width,
            board.spec_height() == height,
    {
        let count: usize = width * height;
        let mut cells: Vec<bool> = Vec::new();
        while cells.len() < count
            invariant
                cells@.len() <= count,
            decreases count - cells@.len(),
        {
            cells.push(false);
        }
        Board { width, height, cells }
    }

    /// Refills every cell from the thread-local random source, keeping the
    /// board's shape.
    pub fn random(self) -> (board: Board)
        requires
            self.wf(),
        ensures
            board.wf(),
            board.spec_width() == self.spec_width(),
            board.spec_height() == self.spec_height(),
    {
        let count: usize = self.cells.len();
        let mut cells: Vec<bool> = Vec::new();
        while cells.len() < count
            invariant
                cells@.len() <= count,
            decreases count - cells@.len(),
        {
            let alive: bool = rand::random();
            cells.push(alive);
        }
        Board { width: self.width, height: self.height, cells }
    }

    /// The board's width.
    pub fn width(&self) -> (w: usize)
        ensures
            w == self.spec_width(),
    {
        self.width
    }

    /// The board's height.
    pub fn height(&self) -> (h: usize)
        ensures
            h == self.spec_height(),
    {
        self.height
    }

    /// How many cells the board holds.
    pub fn cell_count(&self) -> (count: usize)
        requires
            self.wf(),
        ensures
            count as int == self.spec_width() * self.spec_height(),
    {
        self.cells.len()
    }
}

/// Benchmark subject: the generations are advanced sequentially.
pub struct LifeSeq {
    board: Option<Board>,
}

impl LifeSeq {
    /// The carried board, if one is prepared.
    pub closed spec fn spec_board(self) -> Option<Board> {
        self.board
    }

    /// A subject with no board prepared yet.
    pub fn new() -> (subject: Self)
        ensures
            subject.spec_board() is None,
    {
        let board = None;
        LifeSeq { board }
    }

    /// Prepares a freshly randomized 200 by 200 board.
    pub fn setup(&mut self)
        ensures
            final(self).spec_board() matches Some(b) && b.wf() && b.spec_width() == 200
                && b.spec_height() == 200,
    {
        self.board = Some(Board::new(200, 200).random());
    }

    /// The subject's display name.
    pub fn name(&self) -> (name: &'static str)
        ensures
            name@ == "Life - sequential generation"@,
    {
        "Life - sequential generation"
    }
}

/// Benchmark subject: the generations are advanced with parallel iterators;
/// the counter numbers the runs for the driver's per-run trace files.
pub struct LifeParIter {
    board: Option<Board>,
    counter: usize,
}

impl LifeParIter {
    /// The carried board, if one is prepared.
    pub closed spec fn spec_board(self) -> Option<Board> {
        self.board
    }

    /// How many runs the driver has executed so far.
    pub closed spec fn spec_counter(self) -> usize {
        self.counter
    }

    /// A subject with no board prepared yet and no runs counted.
    pub fn new() -> (subject: Self)
        ensures
            subject.spec_board() is None,
            subject.spec_counter() == 0,
    {
        let board = None;
        LifeParIter { board, counter: 0 }
    }

    /// Prepares a freshly randomized 200 by 200 board.
    pub fn setup(&mut self)
        ensures
            final(self).spec_board() matches Some(b) && b.wf() && b.spec_width() == 200
                && b.spec_height() == 200,
            final(self).spec_counter() == old(self).spec_counter(),
    {
        self.board = Some(Board::new(200, 200).random());
    }

    /// How many runs the driver has executed so far.
    pub fn runs(&self) -> (count: usize)
        ensures
            count == self.spec_counter(),
    {
        self.counter
    }

    /// Counts one finished run; the driver calls this once per execution.
    pub fn count_run(&mut self)
        requires
            old(self).spec_counter() < usize::MAX,
        ensures
            final(self).spec_counter() == old(self).spec_counter() + 1,
            final(self).spec_board() == old(self).spec_board(),
    {
        self.counter = self.counter + 1;
    }

    /// The subject's display name.
    pub fn name(&self) -> (name: &'static str)
        ensures
            name@ == "Life - parallel iterators generation"@,
    {
        "Life - parallel iterators generation"
    }
}

/// Benchmark subject: the generations are advanced through a parallel
/// bridge.
pub struct LifeParBridge {
    board: Option<Board>,
}

impl LifeParBridge {
    /// The carried board, if one is prepared.
    pub closed spec fn spec_board(self) -> Option<Board> {
        self.board
    }

    /// A subject with no board prepared yet.
    pub fn new() -> (subject: Self)
        ensures
            subject.spec_board() is None,
    {
        let board = None;
        LifeParBridge { board }
    }

    /// Prepares a freshly randomized 200 by 200 board.
    pub fn setup(&mut self)
        ensures
            final(self).spec_board() matches Some(b) && b.wf() && b.spec_width() == 200
                && b.spec_height() == 200,
    {
        self.board = Some(Board::new(200, 200).random());
    }

    /// The subject's display name.
    pub fn name(&self) -> (name: &'static str)
        ensures
            name@ == "Life - parallel bridge generation"@,
    {
        "Life - parallel bridge generation"
    }
}

} // verus!
