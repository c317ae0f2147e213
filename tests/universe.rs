use std::sync::Mutex;

use rems::config::d1::{
    default_framerate, default_graph_period, default_resolution, default_snapshot_buffer_len, Movie,
    Oscilloscope as ScopeConfig, Signal as SignalConfig, Simulation,
};
use rems::field::{inject, update_electric, update_magnetic};
use rems::models::{frame_index, Oscilloscope, SetupError, Signal, Snapshot, Universe};

fn yee(own: f64, left: f64, right: f64) -> f64 {
    own + 0.5 * (left - right)
}

fn sum(a: f64, b: f64) -> f64 {
    a + b
}

fn movie(graph_period: u16, snapshot_buffer_len: u16) -> ScopeConfig {
    ScopeConfig::Movie(Movie {
        framerate: 30,
        graph_period,
        range_bits: 1.0f32.to_bits(),
        path: String::from("out.mp4"),
        resolution: (640, 480),
        snapshot_buffer_len,
    })
}

fn signal_at(location: usize) -> SignalConfig {
    SignalConfig { location, path: String::from("signal.bson") }
}

fn simulation(size: u64, time: u64, signals: Vec<SignalConfig>, scopes: Vec<ScopeConfig>) -> Simulation {
    Simulation { oscilloscopes: scopes, signals, size, time }
}

fn run(u: &mut Universe<f64>) -> Vec<(usize, Vec<u64>)> {
    let seen: Mutex<Vec<(usize, Vec<u64>)>> = Mutex::new(Vec::new());
    let record = |j: usize, batch: Vec<Snapshot<f64>>| {
        seen.lock().unwrap().push((j, batch.iter().map(|s| s.timestamp).collect()));
    };
    u.let_there_be_light(&yee, &sum, &record);
    seen.into_inner().unwrap()
}

#[test]
fn golden_single_step() {
    let config = simulation(4, 1, vec![signal_at(2)], vec![]);
    let mut u = Universe::in_the_beginning(&config, vec![vec![10.0]], vec![], 0.0).unwrap();
    run(&mut u);
    assert_eq!(u.ex(), &vec![0.0, 0.0, 10.0, 0.0]);
    assert_eq!(u.hy(), &vec![0.0, -5.0, 5.0, 0.0]);
    assert_eq!(u.clock(), 1);
}

#[test]
fn quiet_universe_stays_zero() {
    let config = simulation(6, 25, vec![], vec![]);
    let mut u = Universe::in_the_beginning(&config, vec![], vec![], 0.0).unwrap();
    run(&mut u);
    assert_eq!(u.ex(), &vec![0.0; 6]);
    assert_eq!(u.hy(), &vec![0.0; 6]);
    assert_eq!(u.clock(), 25);
}

#[test]
fn stencil_keeps_boundaries() {
    let mut ex = vec![3.0, 1.0, 2.0, 4.0];
    let hy = vec![1.0, -1.0, 2.0, 7.0];
    update_electric(&mut ex, &hy, &yee);
    assert_eq!(ex, vec![3.0, 2.0, 0.5, 1.5]);
    let mut hy = hy;
    update_magnetic(&mut hy, &ex, &yee);
    assert_eq!(hy[3], 7.0);
    assert_eq!(hy, vec![1.5, -0.25, 1.5, 7.0]);
}

#[test]
fn single_signal_adds_its_value_for_the_step() {
    let signals = vec![Signal { location: 1, values: vec![2.0, 3.0] }];
    let mut ex = vec![0.0, 1.0, 0.0];
    inject(&mut ex, &signals, 1, &sum);
    assert_eq!(ex, vec![0.0, 4.0, 0.0]);
    inject(&mut ex, &signals, 2, &sum);
    assert_eq!(ex, vec![0.0, 4.0, 0.0]);
}

#[test]
fn two_signals_at_one_cell_accumulate() {
    let config = simulation(3, 1, vec![signal_at(1), signal_at(1)], vec![]);
    let mut u = Universe::in_the_beginning(&config, vec![vec![1.5], vec![2.0]], vec![], 0.0).unwrap();
    run(&mut u);
    assert_eq!(u.ex(), &vec![0.0, 3.5, 0.0]);
    assert_eq!(u.hy(), &vec![-1.75, 1.75, 0.0]);
}

#[test]
fn exhausted_series_injects_nothing() {
    let config = simulation(3, 2, vec![signal_at(0)], vec![]);
    let mut u = Universe::in_the_beginning(&config, vec![vec![4.0]], vec![], 0.0).unwrap();
    run(&mut u);
    // step 0: ex = [4, 0, 0], hy = [2, 0, 0]; step 1: ex = [4, 1, 0], hy = [3.5, 0.5, 0]
    assert_eq!(u.ex(), &vec![4.0, 1.0, 0.0]);
    assert_eq!(u.hy(), &vec![3.5, 0.5, 0.0]);
}

#[test]
fn oscilloscope_captures_on_period_and_flushes_past_capacity() {
    let config = simulation(3, 7, vec![], vec![movie(2, 1)]);
    let mut u = Universe::in_the_beginning(&config, vec![], vec![String::from("frames")], 0.0).unwrap();
    let batches = run(&mut u);
    assert_eq!(batches, vec![(0, vec![0, 2]), (0, vec![4, 6]), (0, vec![])]);
}

#[test]
fn final_flush_dispatches_the_rest() {
    let config = simulation(2, 10, vec![], vec![movie(3, 47), movie(1, 3)]);
    let dirs = vec![String::from("a"), String::from("b")];
    let mut u = Universe::in_the_beginning(&config, vec![], dirs, 0.0).unwrap();
    let batches = run(&mut u);
    assert_eq!(
        batches,
        vec![
            (1, vec![0, 1, 2, 3]),
            (1, vec![4, 5, 6, 7]),
            (0, vec![0, 3, 6, 9]),
            (1, vec![8, 9]),
        ]
    );
    let total: usize = batches.iter().filter(|b| b.0 == 0).map(|b| b.1.len()).sum();
    assert_eq!(total, 4);
}

#[test]
fn close_yields_encode_requests() {
    let config = simulation(2, 3, vec![], vec![movie(1, 8)]);
    let mut u = Universe::in_the_beginning(&config, vec![], vec![String::from("/tmp/f")], 0.0).unwrap();
    run(&mut u);
    let requests = u.close();
    assert_eq!(requests.len(), 1);
    assert_eq!(requests[0].framerate, 30);
    assert_eq!(requests[0].frame_dir, "/tmp/f");
    assert_eq!(requests[0].path, "out.mp4");
}

#[test]
fn signal_outside_field_is_rejected() {
    let config = simulation(4, 1, vec![signal_at(1), signal_at(4), signal_at(9)], vec![]);
    let r = Universe::in_the_beginning(&config, vec![vec![], vec![], vec![]], vec![], 0.0);
    assert_eq!(r.err(), Some(SetupError::SignalOutOfBounds { location: 4, size: 4 }));
}

#[test]
fn zero_graph_period_is_rejected() {
    let config = simulation(4, 1, vec![signal_at(9)], vec![movie(0, 1)]);
    let r = Universe::in_the_beginning(&config, vec![vec![]], vec![String::from("d")], 0.0);
    assert_eq!(r.err(), Some(SetupError::ZeroGraphPeriod));
}

#[test]
fn series_count_must_match_signals() {
    let config = simulation(4, 1, vec![signal_at(0)], vec![]);
    let r = Universe::in_the_beginning(&config, vec![], vec![], 0.0);
    assert_eq!(r.err(), Some(SetupError::SeriesCountMismatch { signals: 1, series: 0 }));
}

#[test]
fn frame_dir_count_must_match_oscilloscopes() {
    let config = simulation(4, 1, vec![], vec![movie(1, 1)]);
    let r = Universe::in_the_beginning(&config, vec![], vec![], 0.0);
    assert_eq!(r.err(), Some(SetupError::FrameDirCountMismatch { oscilloscopes: 1, frame_dirs: 0 }));
}

#[test]
fn fresh_universe_is_zero() {
    let config = simulation(3, 5, vec![], vec![]);
    let u = Universe::in_the_beginning(&config, vec![], vec![], 0.0).unwrap();
    assert_eq!(u.ex(), &vec![0.0; 3]);
    assert_eq!(u.hy(), &vec![0.0; 3]);
    assert_eq!(u.clock(), 0);
    assert_eq!(u.time(), 5);
}

#[test]
fn step_returns_one_batch_per_oscilloscope() {
    let config = simulation(2, 3, vec![], vec![movie(1, 0), movie(2, 5)]);
    let dirs = vec![String::from("a"), String::from("b")];
    let mut u = Universe::in_the_beginning(&config, vec![], dirs, 0.0).unwrap();
    let b = u.step(&yee, &sum);
    assert_eq!(b.len(), 2);
    assert_eq!(b[0].len(), 1);
    assert_eq!(b[0][0].timestamp, 0);
    assert!(b[1].is_empty());
}

#[test]
fn defaults() {
    assert_eq!(default_framerate(), 60);
    assert_eq!(default_graph_period(), 16);
    assert_eq!(default_resolution(), (1920, 1080));
    assert_eq!(default_snapshot_buffer_len(), 47);
}

#[test]
fn signal_value_at() {
    let s = Signal::new(&signal_at(2), vec![1.0, 2.0], 3).unwrap();
    assert_eq!(s.value_at(0), Some(1.0));
    assert_eq!(s.value_at(1), Some(2.0));
    assert_eq!(s.value_at(2), None);
    assert!(Signal::<f64>::new(&signal_at(3), vec![], 3).is_err());
}

#[test]
fn oscilloscope_snapshot_copies_fields() {
    let mut o: Oscilloscope<f64> = Oscilloscope::new(movie(2, 1), String::from("d")).unwrap();
    let mut ex = vec![1.0, 2.0];
    let hy = vec![3.0, 4.0];
    assert!(o.snapshot(1, &ex, &hy).is_none());
    assert!(o.snapshot(2, &ex, &hy).is_none());
    ex[0] = 9.0;
    let batch = o.snapshot(4, &ex, &hy).unwrap();
    assert_eq!(batch.len(), 2);
    assert_eq!(batch[0].timestamp, 2);
    assert_eq!(batch[0].ex, vec![1.0, 2.0]);
    assert_eq!(batch[1].ex, vec![9.0, 2.0]);
    assert_eq!(batch[1].hy, vec![3.0, 4.0]);
    assert!(o.flush().is_empty());
    assert_eq!(o.frame_dir(), "d");
    let req = o.close();
    assert_eq!(req.framerate, 30);
}

#[test]
fn oscilloscope_with_zero_period_is_rejected() {
    assert!(Oscilloscope::<f64>::new(movie(0, 1), String::from("d")).is_err());
}

#[test]
fn frames_are_numbered_by_capture() {
    assert_eq!(frame_index(0, 16), 0);
    assert_eq!(frame_index(48, 16), 3);
    assert_eq!(frame_index(7, 1), 7);
}

#[test]
fn driven_run_flushes_each_oscilloscope_once_at_the_end() {
    let config = simulation(3, 7, vec![], vec![movie(1, 2)]);
    let mut u = Universe::in_the_beginning(&config, vec![], vec![String::from("d")], 0.0).unwrap();
    let mut in_loop: Vec<Vec<u64>> = Vec::new();
    while u.clock() < u.time() {
        for batch in u.step(&yee, &sum) {
            if !batch.is_empty() {
                in_loop.push(batch.iter().map(|s| s.timestamp).collect());
            }
        }
    }
    assert_eq!(in_loop, vec![vec![0, 1, 2], vec![3, 4, 5]]);
    let last = u.flush();
    assert_eq!(last.len(), 1);
    assert_eq!(last[0].iter().map(|s| s.timestamp).collect::<Vec<u64>>(), vec![6]);
    assert!(u.flush()[0].is_empty());
    let requests = u.close();
    assert_eq!(requests[0].frame_dir, "d");
}

#[test]
fn flushed_snapshots_hold_the_fields_after_their_step() {
    let config = simulation(4, 1, vec![signal_at(2)], vec![movie(1, 5)]);
    let mut u = Universe::in_the_beginning(&config, vec![vec![10.0]], vec![String::from("d")], 0.0).unwrap();
    assert!(u.step(&yee, &sum)[0].is_empty());
    let last = u.flush();
    assert_eq!(last[0].len(), 1);
    assert_eq!(last[0][0].timestamp, 0);
    assert_eq!(last[0][0].ex, vec![0.0, 0.0, 10.0, 0.0]);
    assert_eq!(last[0][0].hy, vec![0.0, -5.0, 5.0, 0.0]);
}
