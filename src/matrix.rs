//! The scan engine: a grid of key cells and the order in which one scan pass
//! strobes rows, waits for the lines to settle, samples columns and restores
//! rows. The caller performs each line operation and reports the sample back.
use crate::channel::KeyChannel;
use crate::handle::KeyPin;
use crate::key::{cell_after, KeyCellView, KeyState};
use vstd::prelude::*;

verus! {

/// A line read that failed. Pin reads on the supported hardware never fail;
/// a failed read counts as "not pressed" for that pass.
#[derive(Clone, Copy, Debug, PartialEq, Eq, Structural)]
pub enum LineError {
    HardwareFault,
}

/// The line operation that the caller performs next.
#[derive(Clone, Copy, Debug, PartialEq, Eq, Structural)]
pub enum LineCommand {
    /// Drive this row's output low (select).
    Select(usize),
    /// Wait the settle delay.
    Settle,
    /// Read this column's input and report the level.
    Sample(usize),
    /// Drive this row's output high (deselect).
    Deselect(usize),
    /// The pass is over.
    Finished,
}

/// Where a scan pass stands.
#[derive(Clone, Copy, Debug, PartialEq, Eq, Structural)]
pub enum ScanPhase {
    Select,
    Settle,
    Sample,
    Deselect,
    Done,
}

/// A scan pass in the abstract: the current row and column, the phase, which
/// row lines are selected, and whether the selected row has settled.
pub struct ScanPassView {
    pub row: nat,
    pub col: nat,
    pub phase: ScanPhase,
    pub selected: Seq<bool>,
    pub settled: bool,
}

/// Exactly row `row` is selected among `rows` row lines.
pub open spec fn only_row_selected(selected: Seq<bool>, rows: nat, row: nat) -> bool {
    &&& selected.len() == rows
    &&& forall|i: int| 0 <= i < rows ==> selected[i] == (i == row)
}

/// No row line is selected.
pub open spec fn all_idle(selected: Seq<bool>, rows: nat) -> bool {
    &&& selected.len() == rows
    &&& forall|i: int| 0 <= i < rows ==> !selected[i]
}

/// The states that a pass over `rows` × `cols` can be in.
pub open spec fn pass_wf(v: ScanPassView, rows: nat, cols: nat) -> bool {
    match v.phase {
        ScanPhase::Select => v.row < rows && v.col == 0 && all_idle(v.selected, rows),
        ScanPhase::Settle => v.row < rows && v.col == 0 && only_row_selected(v.selected, rows, v.row),
        ScanPhase::Sample => {
            &&& v.row < rows
            &&& v.col < cols
            &&& v.settled
            &&& only_row_selected(v.selected, rows, v.row)
        },
        ScanPhase::Deselect => v.row < rows && only_row_selected(v.selected, rows, v.row),
        ScanPhase::Done => v.row == rows && all_idle(v.selected, rows),
    }
}

/// The start of a pass over `rows` rows.
pub open spec fn pass_start(rows: nat) -> ScanPassView {
    ScanPassView {
        row: 0,
        col: 0,
        phase: if rows > 0 { ScanPhase::Select } else { ScanPhase::Done },
        selected: Seq::new(rows, |i: int| false),
        settled: false,
    }
}

/// The command that a pass in state `v` asks for.
pub open spec fn command_of(v: ScanPassView) -> LineCommand {
    match v.phase {
        ScanPhase::Select => LineCommand::Select(v.row as usize),
        ScanPhase::Settle => LineCommand::Settle,
        ScanPhase::Sample => LineCommand::Sample(v.col as usize),
        ScanPhase::Deselect => LineCommand::Deselect(v.row as usize),
        ScanPhase::Done => LineCommand::Finished,
    }
}

/// The state after the command of `v` was performed: rows in ascending order,
/// and within a row select, settle, each column in ascending order, deselect.
pub open spec fn pass_after(v: ScanPassView, rows: nat, cols: nat) -> ScanPassView {
    match v.phase {
        ScanPhase::Select => ScanPassView {
            phase: ScanPhase::Settle,
            selected: v.selected.update(v.row as int, true),
            settled: false,
            ..v
        },
        ScanPhase::Settle => ScanPassView {
            phase: if cols > 0 { ScanPhase::Sample } else { ScanPhase::Deselect },
            settled: true,
            ..v
        },
        ScanPhase::Sample => if v.col + 1 < cols {
            ScanPassView { col: v.col + 1, ..v }
        } else {
            ScanPassView { phase: ScanPhase::Deselect, ..v }
        },
        ScanPhase::Deselect => ScanPassView {
            row: v.row + 1,
            col: 0,
            phase: if v.row + 1 < rows { ScanPhase::Select } else { ScanPhase::Done },
            selected: v.selected.update(v.row as int, false),
            settled: false,
        },
        ScanPhase::Done => v,
    }
}

/// How many commands are left in a pass; each row takes `cols + 3`.
pub open spec fn pass_remaining(v: ScanPassView, rows: nat, cols: nat) -> nat {
    let per_row = cols + 3;
    let in_row: nat = match v.phase {
        ScanPhase::Select => per_row,
        ScanPhase::Settle => cols + 2,
        ScanPhase::Sample => (cols + 1 - v.col) as nat,
        ScanPhase::Deselect => 1,
        ScanPhase::Done => 0,
    };
    if v.row < rows {
        in_row + ((rows - v.row - 1) as nat) * per_row
    } else {
        0
    }
}

/// The state after `n` commands from `v`.
pub open spec fn pass_after_n(v: ScanPassView, rows: nat, cols: nat, n: nat) -> ScanPassView
    decreases n,
{
    if n == 0 {
        v
    } else {
        pass_after_n(pass_after(v, rows, cols), rows, cols, (n - 1) as nat)
    }
}

/// Each command keeps a pass well formed and leaves one command fewer.
pub proof fn lemma_pass_step(v: ScanPassView, rows: nat, cols: nat)
    requires
        pass_wf(v, rows, cols),
    ensures
        pass_wf(pass_after(v, rows, cols), rows, cols),
        v.phase != ScanPhase::Done ==> pass_remaining(pass_after(v, rows, cols), rows, cols) + 1
            == pass_remaining(v, rows, cols),
        v.phase == ScanPhase::Done <==> pass_remaining(v, rows, cols) == 0,
{
    let w = pass_after(v, rows, cols);
    let per_row = cols + 3;
    if v.phase == ScanPhase::Deselect && v.row + 1 < rows {
        let k = (rows - v.row - 1) as int;
        assert(k * per_row == per_row + (k - 1) * per_row) by (nonlinear_arith);
    }
    if v.row + 1 == rows {
        assert(0 * per_row == 0);
    }
    if v.row < rows {
        assert(((rows - v.row - 1) as nat) * per_row >= 0) by (nonlinear_arith);
    }
    match v.phase {
        ScanPhase::Select => {
            assert(only_row_selected(w.selected, rows, v.row));
        },
        ScanPhase::Deselect => {
            assert(all_idle(w.selected, rows));
        },
        _ => {},
    }
}

/// Strobing during a whole pass: from its start, every state of the pass is
/// well formed, so a column is sampled only while exactly the current row is
/// selected and after that row's settle delay; and once every row has had
/// its `cols + 3` commands, the pass is over with every row deselected.
pub proof fn lemma_pass_strobes_one_row(rows: nat, cols: nat, n: nat)
    ensures
        pass_wf(pass_after_n(pass_start(rows), rows, cols, n), rows, cols),
        command_of(pass_after_n(pass_start(rows), rows, cols, n)) is Sample ==> {
            let v = pass_after_n(pass_start(rows), rows, cols, n);
            only_row_selected(v.selected, rows, v.row) && v.settled
        },
        n >= rows * (cols + 3) ==> {
            let v = pass_after_n(pass_start(rows), rows, cols, n);
            v.phase == ScanPhase::Done && all_idle(v.selected, rows)
        },
{
    let s = pass_start(rows);
    assert(all_idle(s.selected, rows));
    if rows > 0 {
        assert(((rows - 1) as nat) * (cols + 3) + (cols + 3) == rows * (cols + 3))
            by (nonlinear_arith) requires rows > 0;
    }
    lemma_pass_runs(s, rows, cols, n);
}

proof fn lemma_pass_runs(v: ScanPassView, rows: nat, cols: nat, n: nat)
    requires
        pass_wf(v, rows, cols),
    ensures
        pass_wf(pass_after_n(v, rows, cols, n), rows, cols),
        n >= pass_remaining(v, rows, cols) ==> pass_after_n(v, rows, cols, n).phase
            == ScanPhase::Done,
    decreases n,
{
    lemma_pass_step(v, rows, cols);
    if n > 0 {
        lemma_pass_runs(pass_after(v, rows, cols), rows, cols, (n - 1) as nat);
    }
}

/// The command issued `n` commands into a pass over `rows` × `cols`: row
/// `n / (cols + 3)` is selected, left to settle, sampled column by column in
/// ascending order and deselected, rows in ascending order; then the pass is
/// over.
pub open spec fn command_at(rows: nat, cols: nat, n: nat) -> LineCommand {
    let per_row = cols + 3;
    if n >= rows * per_row {
        LineCommand::Finished
    } else {
        let row = n / per_row;
        let k = n % per_row;
        if k == 0 {
            LineCommand::Select(row as usize)
        } else if k == 1 {
            LineCommand::Settle
        } else if k < cols + 2 {
            LineCommand::Sample((k - 2) as usize)
        } else {
            LineCommand::Deselect(row as usize)
        }
    }
}

/// The state of a pass at step `k` of row `row`.
spec fn pass_in_row(rows: nat, cols: nat, row: nat, k: nat) -> ScanPassView {
    ScanPassView {
        row,
        col: if 2 <= k < cols + 2 {
            (k - 2) as nat
        } else if k == cols + 2 && cols > 0 {
            (cols - 1) as nat
        } else {
            0
        },
        phase: if k == 0 {
            ScanPhase::Select
        } else if k == 1 {
            ScanPhase::Settle
        } else if k < cols + 2 {
            ScanPhase::Sample
        } else {
            ScanPhase::Deselect
        },
        selected: if k == 0 {
            Seq::new(rows, |i: int| false)
        } else {
            Seq::new(rows, |i: int| i == row)
        },
        settled: k >= 2,
    }
}

/// The state of a pass once it is over.
spec fn pass_over(rows: nat) -> ScanPassView {
    ScanPassView {
        row: rows,
        col: 0,
        phase: ScanPhase::Done,
        selected: Seq::new(rows, |i: int| false),
        settled: false,
    }
}

/// The state of a pass after `n` commands, in closed form.
spec fn pass_at(rows: nat, cols: nat, n: nat) -> ScanPassView {
    let per_row = cols + 3;
    if n >= rows * per_row {
        pass_over(rows)
    } else {
        pass_in_row(rows, cols, n / per_row, n % per_row)
    }
}

proof fn lemma_after_n_last(v: ScanPassView, rows: nat, cols: nat, n: nat)
    ensures
        pass_after_n(v, rows, cols, n + 1) == pass_after(pass_after_n(v, rows, cols, n), rows, cols),
    decreases n,
{
    let w = pass_after(v, rows, cols);
    assert(pass_after_n(v, rows, cols, n + 1) == pass_after_n(w, rows, cols, n));
    if n > 0 {
        lemma_after_n_last(w, rows, cols, (n - 1) as nat);
        assert(pass_after_n(v, rows, cols, n) == pass_after_n(w, rows, cols, (n - 1) as nat));
    } else {
        assert(pass_after_n(w, rows, cols, 0) == w);
    }
}

proof fn lemma_in_row_step(rows: nat, cols: nat, row: nat, k: nat)
    requires
        row < rows,
        k < cols + 3,
    ensures
        pass_after(pass_in_row(rows, cols, row, k), rows, cols) == if k + 1 < cols + 3 {
            pass_in_row(rows, cols, row, k + 1)
        } else if row + 1 < rows {
            pass_in_row(rows, cols, row + 1, 0)
        } else {
            pass_over(rows)
        },
{
    let v = pass_in_row(rows, cols, row, k);
    let w = pass_after(v, rows, cols);
    if k == 0 {
        assert(w.selected =~= pass_in_row(rows, cols, row, 1).selected);
    } else if k + 1 == cols + 3 {
        assert(w.selected =~= Seq::new(rows, |i: int| false));
    }
}

proof fn lemma_pass_at(rows: nat, cols: nat, n: nat)
    ensures
        pass_after_n(pass_start(rows), rows, cols, n) == pass_at(rows, cols, n),
    decreases n,
{
    let per_row = cols + 3;
    if n == 0 {
        vstd::arithmetic::div_mod::lemma_fundamental_div_mod_converse(0, per_row as int, 0, 0);
        if rows > 0 {
            assert(rows * per_row > 0) by (nonlinear_arith) requires rows > 0, per_row > 0;
            assert(pass_start(rows).selected =~= pass_in_row(rows, cols, 0, 0).selected);
        } else {
            assert(pass_start(rows).selected =~= pass_over(rows).selected);
        }
    } else {
        let m = (n - 1) as nat;
        lemma_pass_at(rows, cols, m);
        lemma_after_n_last(pass_start(rows), rows, cols, m);
        if m < rows * per_row {
            let row = m / per_row;
            let k = m % per_row;
            vstd::arithmetic::div_mod::lemma_fundamental_div_mod(m as int, per_row as int);
            assert(m == row * per_row + k) by (nonlinear_arith)
                requires
                    m == per_row * row + k,
            ;
            assert(row < rows) by (nonlinear_arith)
                requires
                    m == row * per_row + k,
                    0 <= k,
                    m < rows * per_row,
                    per_row > 0,
            ;
            lemma_in_row_step(rows, cols, row, k);
            if k + 1 < per_row {
                assert(n < rows * per_row) by (nonlinear_arith)
                    requires
                        n == row * per_row + (k + 1),
                        k + 1 < per_row,
                        row < rows,
                ;
                vstd::arithmetic::div_mod::lemma_fundamental_div_mod_converse(
                    n as int,
                    per_row as int,
                    row as int,
                    (k + 1) as int,
                );
            }
            if k + 1 == per_row {
                assert(n == (row + 1) * per_row) by (nonlinear_arith)
                    requires
                        m == row * per_row + k,
                        k + 1 == per_row,
                        n == m + 1,
                ;
            }
            if k + 1 < per_row {
            } else if row + 1 < rows {
                assert(n < rows * per_row) by (nonlinear_arith)
                    requires
                        n == (row + 1) * per_row,
                        row + 1 < rows,
                        per_row > 0,
                ;
                vstd::arithmetic::div_mod::lemma_fundamental_div_mod_converse(
                    n as int,
                    per_row as int,
                    (row + 1) as int,
                    0,
                );
            } else {
                assert(n == rows * per_row) by (nonlinear_arith)
                    requires
                        n == (row + 1) * per_row,
                        row + 1 == rows,
                ;
            }
        }
    }
}

/// The order of a pass: from its start, the command issued after `n`
/// commands is `command_at(rows, cols, n)`.
pub proof fn lemma_pass_order(rows: nat, cols: nat, n: nat)
    ensures
        command_of(pass_after_n(pass_start(rows), rows, cols, n)) == command_at(rows, cols, n),
{
    lemma_pass_at(rows, cols, n);
}

/// Whether a sampled line reads as a pressed key: the lines are active-low,
/// and a failed read counts as not pressed.
pub open spec fn reads_pressed(reading: Option<Result<bool, LineError>>) -> bool {
    match reading {
        Some(Ok(high)) => !high,
        _ => false,
    }
}

/// The position of cell (`row`, `col`) in a grid with `cols` columns.
pub open spec fn cell_index(row: nat, col: nat, cols: nat) -> int {
    (row * cols + col) as int
}

proof fn lemma_cell_index_bound(row: nat, col: nat, rows: nat, cols: nat)
    requires
        row < rows,
        col < cols,
    ensures
        0 <= row * cols <= cell_index(row, col, cols) < rows * cols,
{
    assert(row * cols + col < rows * cols) by (nonlinear_arith)
        requires
            row < rows,
            col < cols,
    ;
}

/// The state of one scan pass.
pub struct ScanPass {
    row: usize,
    col: usize,
    phase: ScanPhase,
    selected: Ghost<Seq<bool>>,
    settled: Ghost<bool>,
}

impl View for ScanPass {
    type V = ScanPassView;

    closed spec fn view(&self) -> ScanPassView {
        ScanPassView {
            row: self.row as nat,
            col: self.col as nat,
            phase: self.phase,
            selected: self.selected@,
            settled: self.settled@,
        }
    }
}

impl ScanPass {
    /// The command to perform now.
    pub fn command(&self) -> (r: LineCommand)
        ensures
            r == command_of(self@),
    {
        match self.phase {
            ScanPhase::Select => LineCommand::Select(self.row),
            ScanPhase::Settle => LineCommand::Settle,
            ScanPhase::Sample => LineCommand::Sample(self.col),
            ScanPhase::Deselect => LineCommand::Deselect(self.row),
            ScanPhase::Done => LineCommand::Finished,
        }
    }

    /// Whether the pass is over.
    pub fn is_finished(&self) -> (r: bool)
        ensures
            r == (self@.phase == ScanPhase::Done),
    {
        self.phase == ScanPhase::Done
    }
}

/// The grid of key cells of a matrix with `OUTPUT_PIN_NUM` strobed rows and
/// `INPUT_PIN_NUM` sensed columns. Cell (row, col) sits at
/// `row * INPUT_PIN_NUM + col`.
pub struct Matrix<'a, const INPUT_PIN_NUM: usize, const OUTPUT_PIN_NUM: usize> {
    key_states: Vec<KeyState<'a>>,
}

impl<'a, const INPUT_PIN_NUM: usize, const OUTPUT_PIN_NUM: usize> View for Matrix<
    'a,
    INPUT_PIN_NUM,
    OUTPUT_PIN_NUM,
> {
    type V = Seq<KeyCellView>;

    closed spec fn view(&self) -> Seq<KeyCellView> {
        self.key_states@.map_values(|k: KeyState<'a>| k@)
    }
}

impl<'a, const INPUT_PIN_NUM: usize, const OUTPUT_PIN_NUM: usize> Matrix<
    'a,
    INPUT_PIN_NUM,
    OUTPUT_PIN_NUM,
> {
    /// The grid holds one cell per position.
    pub open spec fn wf(&self) -> bool {
        &&& self@.len() == OUTPUT_PIN_NUM * INPUT_PIN_NUM
        &&& OUTPUT_PIN_NUM * INPUT_PIN_NUM <= usize::MAX
    }

    /// The channel bound to the cell at flat position `i`, if any.
    pub closed spec fn channel_of(&self, i: int) -> Option<&'a KeyChannel> {
        self.key_states@[i].channel()
    }

    /// The channel bound to the cell at (`row`, `col`), if any.
    pub open spec fn channel_at(&self, row: nat, col: nat) -> Option<&'a KeyChannel> {
        self.channel_of(cell_index(row, col, INPUT_PIN_NUM as nat))
    }

    /// The cell at (`row`, `col`).
    pub open spec fn cell(&self, row: nat, col: nat) -> KeyCellView {
        self@[cell_index(row, col, INPUT_PIN_NUM as nat)]
    }

    /// A grid of released cells with no channel bound.
    pub fn new() -> (r: Self)
        requires
            OUTPUT_PIN_NUM * INPUT_PIN_NUM <= usize::MAX,
        ensures
            r.wf(),
            forall|i: int|
                0 <= i < r@.len() ==> r@[i] == (KeyCellView {
                    state: false,
                    bound: false,
                    sent: Seq::empty(),
                }),
            forall|i: int| 0 <= i < r@.len() ==> r.channel_of(i) == None::<&'a KeyChannel>,
    {
        let n: usize = OUTPUT_PIN_NUM * INPUT_PIN_NUM;
        let mut key_states: Vec<KeyState<'a>> = Vec::new();
        let mut i: usize = 0;
        while i < n
            invariant
                i <= n,
                n == OUTPUT_PIN_NUM * INPUT_PIN_NUM,
                key_states@.len() == i,
                forall|j: int|
                    0 <= j < i ==> key_states@[j]@ == (KeyCellView {
                        state: false,
                        bound: false,
                        sent: Seq::empty(),
                    }),
                forall|j: int| 0 <= j < i ==> key_states@[j].channel() == None::<&'a KeyChannel>,
            decreases n - i,
        {
            key_states.push(KeyState::new());
            i = i + 1;
        }
        Matrix { key_states }
    }

    /// Binds `s` to the cell at (`row`, `col`) and returns the consumer's
    /// handle on it. Each cell is bound at most once.
    pub fn take_pin(&mut self, row: usize, col: usize, s: &'a KeyChannel) -> (r: KeyPin<'a>)
        requires
            old(self).wf(),
            row < OUTPUT_PIN_NUM,
            col < INPUT_PIN_NUM,
            !old(self).cell(row as nat, col as nat).bound,
        ensures
            final(self).wf(),
            final(self)@ == old(self)@.update(
                cell_index(row as nat, col as nat, INPUT_PIN_NUM as nat),
                KeyCellView { bound: true, ..old(self).cell(row as nat, col as nat) },
            ),
            final(self).channel_at(row as nat, col as nat) == Some(s),
            forall|i: int|
                0 <= i < final(self)@.len() && i != cell_index(
                    row as nat,
                    col as nat,
                    INPUT_PIN_NUM as nat,
                ) ==> final(self).channel_of(i) == old(self).channel_of(i),
            r.cached() == false,
            r.chan() == s,
            r.drains() == 0,
    {
        proof {
            lemma_cell_index_bound(row as nat, col as nat, OUTPUT_PIN_NUM as nat, INPUT_PIN_NUM as nat);
        }
        let idx = row * INPUT_PIN_NUM + col;
        let mut k = self.key_states[idx];
        k.bind(s);
        self.key_states.set(idx, k);
        proof {
            assert(self@ =~= old(self)@.update(idx as int, k@));
        }
        KeyPin::new(s)
    }

    /// Whether a channel is bound to the cell at (`row`, `col`).
    pub fn is_bound(&self, row: usize, col: usize) -> (r: bool)
        requires
            self.wf(),
            row < OUTPUT_PIN_NUM,
            col < INPUT_PIN_NUM,
        ensures
            r == self.cell(row as nat, col as nat).bound,
    {
        proof {
            lemma_cell_index_bound(row as nat, col as nat, OUTPUT_PIN_NUM as nat, INPUT_PIN_NUM as nat);
        }
        self.key_states[row * INPUT_PIN_NUM + col].is_bound()
    }

    /// The latched level (true = pressed) of the cell at (`row`, `col`).
    pub fn key_state(&self, row: usize, col: usize) -> (r: bool)
        requires
            self.wf(),
            row < OUTPUT_PIN_NUM,
            col < INPUT_PIN_NUM,
        ensures
            r == self.cell(row as nat, col as nat).state,
    {
        proof {
            lemma_cell_index_bound(row as nat, col as nat, OUTPUT_PIN_NUM as nat, INPUT_PIN_NUM as nat);
        }
        self.key_states[row * INPUT_PIN_NUM + col].is_pressed()
    }

    /// Starts a scan pass: no row is selected yet.
    pub fn begin_scan(&self) -> (r: ScanPass)
        ensures
            r@ == pass_start(OUTPUT_PIN_NUM as nat),
            pass_wf(r@, OUTPUT_PIN_NUM as nat, INPUT_PIN_NUM as nat),
    {
        let phase = if OUTPUT_PIN_NUM > 0 { ScanPhase::Select } else { ScanPhase::Done };
        let r = ScanPass {
            row: 0,
            col: 0,
            phase,
            selected: Ghost(Seq::new(OUTPUT_PIN_NUM as nat, |i: int| false)),
            settled: Ghost(false),
        };
        r
    }

    /// Records that the command of `pass` was performed and returns the next
    /// one. After a `Sample`, `reading` is what the column read (`Ok(high)`),
    /// and the cell at the current row and column takes the pressed level that
    /// it stands for; it is ignored after other commands.
    pub fn scan_step(&mut self, pass: &mut ScanPass, reading: Option<Result<bool, LineError>>) -> (r:
        LineCommand)
        requires
            old(self).wf(),
            pass_wf(old(pass)@, OUTPUT_PIN_NUM as nat, INPUT_PIN_NUM as nat),
        ensures
            final(self).wf(),
            final(pass)@ == pass_after(old(pass)@, OUTPUT_PIN_NUM as nat, INPUT_PIN_NUM as nat),
            pass_wf(final(pass)@, OUTPUT_PIN_NUM as nat, INPUT_PIN_NUM as nat),
            r == command_of(final(pass)@),
            old(pass)@.phase == ScanPhase::Sample ==> final(self)@ == old(self)@.update(
                cell_index(old(pass)@.row, old(pass)@.col, INPUT_PIN_NUM as nat),
                cell_after(old(self).cell(old(pass)@.row, old(pass)@.col), reads_pressed(reading)),
            ),
            old(pass)@.phase != ScanPhase::Sample ==> final(self)@ == old(self)@,
            forall|i: int|
                0 <= i < final(self)@.len() ==> final(self).channel_of(i) == old(self).channel_of(i),
            old(pass)@.phase != ScanPhase::Done ==> pass_remaining(
                final(pass)@,
                OUTPUT_PIN_NUM as nat,
                INPUT_PIN_NUM as nat,
            ) < pass_remaining(old(pass)@, OUTPUT_PIN_NUM as nat, INPUT_PIN_NUM as nat),
    {
        proof {
            lemma_pass_step(pass@, OUTPUT_PIN_NUM as nat, INPUT_PIN_NUM as nat);
        }
        match pass.phase {
            ScanPhase::Select => {
                pass.selected = Ghost(pass.selected@.update(pass.row as int, true));
                pass.settled = Ghost(false);
                pass.phase = ScanPhase::Settle;
            },
            ScanPhase::Settle => {
                pass.settled = Ghost(true);
                pass.phase = if INPUT_PIN_NUM > 0 { ScanPhase::Sample } else { ScanPhase::Deselect };
            },
            ScanPhase::Sample => {
                let pressed = match reading {
                    Some(Ok(high)) => !high,
                    _ => false,
                };
                proof {
                    lemma_cell_index_bound(pass.row as nat, pass.col as nat, OUTPUT_PIN_NUM as nat, INPUT_PIN_NUM as nat);
                }
                let idx = pass.row * INPUT_PIN_NUM + pass.col;
                let mut k = self.key_states[idx];
                k.set_value(pressed);
                self.key_states.set(idx, k);
                proof {
                    assert(self@ =~= old(self)@.update(idx as int, k@));
                }
                if pass.col + 1 < INPUT_PIN_NUM {
                    pass.col = pass.col + 1;
                } else {
                    pass.phase = ScanPhase::Deselect;
                }
            },
            ScanPhase::Deselect => {
                pass.selected = Ghost(pass.selected@.update(pass.row as int, false));
                pass.settled = Ghost(false);
                pass.col = 0;
                if pass.row + 1 < OUTPUT_PIN_NUM {
                    pass.phase = ScanPhase::Select;
                } else {
                    pass.phase = ScanPhase::Done;
                }
                pass.row = pass.row + 1;
            },
            ScanPhase::Done => {},
        }
        pass.command()
    }
}

} // verus!
