use critical_section as _;
use embassy_sync::signal::Signal;
use keymatrix::handle::{KeyPin, WaitGoal, WaitStep};
use keymatrix::key::KeyState;
use keymatrix::matrix::{LineCommand, LineError, Matrix, ScanPass};
use keymatrix::KeyChannel;

fn channel() -> KeyChannel {
    KeyChannel { signal: Signal::new() }
}

/// Runs one pass with `high[r][c]` as the level that column `c` reads while
/// row `r` is selected, and checks the line discipline on the way: one row
/// selected at a time, settle before each sample, all rows idle at the end.
/// Returns the commands in the order they were issued.
fn run_pass<const C: usize, const R: usize>(
    m: &mut Matrix<'_, C, R>,
    high: &[[bool; C]; R],
) -> Vec<LineCommand> {
    let mut selected = [false; R];
    let mut settled = false;
    let mut log = Vec::new();
    let mut pass: ScanPass = m.begin_scan();
    let mut cmd = pass.command();
    let mut row = 0usize;
    loop {
        log.push(cmd);
        let reading = match cmd {
            LineCommand::Select(r) => {
                assert!(selected.iter().all(|s| !s));
                selected[r] = true;
                settled = false;
                row = r;
                None
            }
            LineCommand::Settle => {
                settled = true;
                None
            }
            LineCommand::Sample(c) => {
                assert!(settled);
                assert_eq!(selected.iter().filter(|s| **s).count(), 1);
                assert!(selected[row]);
                Some(Ok(high[row][c]))
            }
            LineCommand::Deselect(r) => {
                selected[r] = false;
                None
            }
            LineCommand::Finished => break,
        };
        cmd = m.scan_step(&mut pass, reading);
    }
    assert!(pass.is_finished());
    assert!(selected.iter().all(|s| !s));
    log
}

#[test]
fn pass_strobes_rows_in_order() {
    let mut m: Matrix<'_, 2, 2> = Matrix::new();
    let log = run_pass(&mut m, &[[true, true], [true, true]]);
    assert_eq!(
        log,
        vec![
            LineCommand::Select(0),
            LineCommand::Settle,
            LineCommand::Sample(0),
            LineCommand::Sample(1),
            LineCommand::Deselect(0),
            LineCommand::Select(1),
            LineCommand::Settle,
            LineCommand::Sample(0),
            LineCommand::Sample(1),
            LineCommand::Deselect(1),
            LineCommand::Finished,
        ]
    );
}

#[test]
fn pass_on_grid_of_seven_by_four() {
    let mut m: Matrix<'_, 7, 4> = Matrix::new();
    let mut high = [[true; 7]; 4];
    high[2][5] = false;
    let log = run_pass(&mut m, &high);
    assert_eq!(log.len(), 4 * (7 + 3) + 1);
    for r in 0..4 {
        for c in 0..7 {
            assert_eq!(m.key_state(r, c), r == 2 && c == 5);
        }
    }
}

#[test]
fn pass_on_grid_without_columns() {
    let mut m: Matrix<'_, 0, 2> = Matrix::new();
    let log = run_pass(&mut m, &[[], []]);
    assert_eq!(
        log,
        vec![
            LineCommand::Select(0),
            LineCommand::Settle,
            LineCommand::Deselect(0),
            LineCommand::Select(1),
            LineCommand::Settle,
            LineCommand::Deselect(1),
            LineCommand::Finished,
        ]
    );
}

#[test]
fn pass_on_grid_without_rows() {
    let mut m: Matrix<'_, 3, 0> = Matrix::new();
    let pass = m.begin_scan();
    assert!(pass.is_finished());
    assert_eq!(pass.command(), LineCommand::Finished);
}

#[test]
fn low_column_reads_as_pressed() {
    let mut m: Matrix<'_, 2, 1> = Matrix::new();
    run_pass(&mut m, &[[false, true]]);
    assert!(m.key_state(0, 0));
    assert!(!m.key_state(0, 1));
}

#[test]
fn failed_read_counts_as_released() {
    let s = channel();
    let mut m: Matrix<'_, 1, 1> = Matrix::new();
    let mut pin = m.take_pin(0, 0, &s);
    run_pass(&mut m, &[[false]]);
    assert!(m.key_state(0, 0));
    assert!(pin.is_high());
    let mut pass = m.begin_scan();
    assert_eq!(m.scan_step(&mut pass, None), LineCommand::Settle);
    assert_eq!(m.scan_step(&mut pass, None), LineCommand::Sample(0));
    assert_eq!(
        m.scan_step(&mut pass, Some(Err(LineError::HardwareFault))),
        LineCommand::Deselect(0)
    );
    assert!(!m.key_state(0, 0));
    assert!(!pin.is_high());
}

#[test]
fn missing_read_counts_as_released() {
    let mut m: Matrix<'_, 1, 1> = Matrix::new();
    run_pass(&mut m, &[[false]]);
    let mut pass = m.begin_scan();
    m.scan_step(&mut pass, None);
    m.scan_step(&mut pass, None);
    m.scan_step(&mut pass, None);
    assert!(!m.key_state(0, 0));
}

#[test]
fn finished_pass_stays_finished() {
    let mut m: Matrix<'_, 1, 1> = Matrix::new();
    run_pass(&mut m, &[[false]]);
    let mut pass = m.begin_scan();
    for _ in 0..4 {
        m.scan_step(&mut pass, Some(Ok(true)));
    }
    assert!(pass.is_finished());
    assert_eq!(m.scan_step(&mut pass, Some(Ok(false))), LineCommand::Finished);
    assert!(!m.key_state(0, 0));
}

#[test]
fn update_with_same_level_signals_once() {
    let s = channel();
    let mut k = KeyState::new();
    k.bind(&s);
    k.set_value(true);
    assert_eq!(s.signal.try_take(), Some(true));
    k.set_value(true);
    assert_eq!(s.signal.try_take(), None);
    assert!(k.is_pressed());
}

#[test]
fn update_without_channel_latches_only() {
    let mut k = KeyState::new();
    assert!(!k.is_pressed());
    k.set_value(true);
    assert!(k.is_pressed());
    k.set_value(false);
    assert!(!k.is_pressed());
}

#[test]
fn update_to_latched_level_does_not_signal() {
    let s = channel();
    let mut k = KeyState::new();
    k.bind(&s);
    k.set_value(false);
    assert!(!s.signal.signaled());
}

#[test]
fn peek_consumes_pending_value() {
    let s = channel();
    let mut pin = KeyPin::new(&s);
    assert!(!pin.is_high());
    assert!(pin.is_low());
    s.signal.signal(true);
    assert!(pin.is_high());
    assert!(!s.signal.signaled());
    assert!(!pin.is_low());
}

#[test]
fn absorb_keeps_level_without_value() {
    let s = channel();
    let mut pin = KeyPin::new(&s);
    assert!(pin.absorb(Some(true)));
    assert!(pin.absorb(None));
    assert!(!pin.absorb(Some(false)));
}

#[test]
fn edge_wait_discards_stale_value() {
    let s = channel();
    let mut pin = KeyPin::new(&s);
    s.signal.signal(true);
    assert_eq!(pin.begin_wait(WaitGoal::AnyEdge), WaitStep::Block);
    assert!(!s.signal.signaled());
    assert!(!pin.is_high());
    assert_eq!(pin.begin_wait_with(WaitGoal::RisingEdge, Some(true)), WaitStep::Block);
    assert!(!pin.is_high());
    assert_eq!(pin.resume_wait(WaitGoal::AnyEdge, true), WaitStep::Ready(true));
    assert!(pin.is_high());
}

#[test]
fn level_wait_returns_at_once_when_level_matches() {
    let s = channel();
    let mut pin = KeyPin::new(&s);
    assert_eq!(pin.begin_wait(WaitGoal::Level(false)), WaitStep::Ready(false));
    s.signal.signal(true);
    assert_eq!(pin.begin_wait(WaitGoal::Level(true)), WaitStep::Ready(true));
    assert_eq!(pin.begin_wait_with(WaitGoal::Level(true), Some(false)), WaitStep::Block);
    assert_eq!(pin.begin_wait_with(WaitGoal::Level(false), None), WaitStep::Ready(false));
}

#[test]
fn level_wait_ignores_opposite_level() {
    let s = channel();
    let mut pin = KeyPin::new(&s);
    assert_eq!(pin.begin_wait(WaitGoal::Level(true)), WaitStep::Block);
    assert_eq!(pin.resume_wait(WaitGoal::Level(true), false), WaitStep::Block);
    assert_eq!(pin.resume_wait(WaitGoal::Level(true), true), WaitStep::Ready(true));
    assert_eq!(pin.resume_wait(WaitGoal::Level(false), true), WaitStep::Block);
}

#[test]
fn directed_edges_skip_other_direction() {
    let s = channel();
    let mut pin = KeyPin::new(&s);
    s.signal.signal(false);
    assert_eq!(pin.resume_wait(WaitGoal::RisingEdge, false), WaitStep::Block);
    assert!(!s.signal.signaled());
    assert_eq!(pin.resume_wait(WaitGoal::RisingEdge, true), WaitStep::Ready(true));
    s.signal.signal(true);
    assert_eq!(pin.resume_wait(WaitGoal::FallingEdge, true), WaitStep::Block);
    assert!(!s.signal.signaled());
    assert_eq!(pin.resume_wait(WaitGoal::FallingEdge, false), WaitStep::Ready(false));
    assert_eq!(pin.resume_wait(WaitGoal::AnyEdge, false), WaitStep::Ready(false));
}

#[test]
fn two_transitions_before_drain_leave_the_last() {
    let s = channel();
    let mut m: Matrix<'_, 1, 1> = Matrix::new();
    let mut pin = m.take_pin(0, 0, &s);
    run_pass(&mut m, &[[false]]);
    run_pass(&mut m, &[[true]]);
    assert_eq!(pin.begin_wait(WaitGoal::Level(true)), WaitStep::Block);
    assert!(!pin.is_high());
    assert!(!s.signal.signaled());
}

#[test]
fn two_by_two_press_and_release() {
    let s00 = channel();
    let s11 = channel();
    let mut m: Matrix<'_, 2, 2> = Matrix::new();
    let mut k00 = m.take_pin(0, 0, &s00);
    let mut k11 = m.take_pin(1, 1, &s11);
    assert_eq!(k00.begin_wait(WaitGoal::Level(true)), WaitStep::Block);
    assert_eq!(k11.begin_wait(WaitGoal::AnyEdge), WaitStep::Block);

    run_pass(&mut m, &[[false, true], [true, true]]);
    assert!(m.key_state(0, 0));
    let woke = s00.signal.try_take();
    assert_eq!(woke, Some(true));
    assert_eq!(k00.resume_wait(WaitGoal::Level(true), true), WaitStep::Ready(true));
    assert_eq!(k00.begin_wait(WaitGoal::Level(false)), WaitStep::Block);

    run_pass(&mut m, &[[true, true], [true, true]]);
    assert!(!m.key_state(0, 0));
    let woke = s00.signal.try_take();
    assert_eq!(woke, Some(false));
    assert_eq!(k00.resume_wait(WaitGoal::Level(false), false), WaitStep::Ready(false));

    assert!(!m.key_state(1, 1));
    assert!(!s11.signal.signaled());
}

#[test]
fn binding_marks_only_its_cell() {
    let s = channel();
    let mut m: Matrix<'_, 2, 2> = Matrix::new();
    assert!(!m.is_bound(1, 0));
    let mut pin = m.take_pin(1, 0, &s);
    assert!(m.is_bound(1, 0));
    assert!(!m.is_bound(0, 0));
    assert!(!m.is_bound(0, 1));
    assert!(!m.is_bound(1, 1));
    assert!(std::ptr::eq(pin.channel(), &s));
    run_pass(&mut m, &[[true, true], [false, true]]);
    assert!(pin.is_high());
}

#[test]
fn cell_binding_is_reported() {
    let s = channel();
    let mut k = KeyState::new();
    assert!(!k.is_bound());
    k.bind(&s);
    assert!(k.is_bound());
}
