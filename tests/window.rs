use sensor_monitor::measurements::{
    Measurement, MeasurementWindow, SensorSample, SensorSampleMeasurement,
};
use std::collections::VecDeque;

#[test]
fn empty_measurements() {
    let w = MeasurementWindow::new_with_look_behind(6000000);
    assert_eq!(w.values.len(), 0);
    assert_eq!(w.look_behind, 6000000);
}

#[test]
fn appends_one_value() {
    let mut w = MeasurementWindow::new_with_look_behind(6000000);
    let sensor_sample = SensorSample::new(6500, 500, 500, 500, 5000000);
    w.add(sensor_sample);
    assert_eq!(
        w.values.into_iter().eq(vec![SensorSampleMeasurement::from(sensor_sample)]),
        true
    );
}

#[test]
fn clears_on_out_of_order() {
    let mut w = MeasurementWindow::new_with_look_behind(6000000);
    let s1 = SensorSample::new(6500, 300, 300, 300, 3000000);
    let s2 = SensorSample::new(6500, 400, 400, 400, 4000000);
    let s3 = SensorSample::new(6500, 500, 500, 500, 5000000);
    let mut q = VecDeque::new();
    q.push_back(SensorSampleMeasurement::from(s3));
    w.add(s1);
    w.add(s2);
    w.add(s3);

    assert_eq!(w.values, q);
}

#[test]
fn appends_several_values() {
    let mut w = MeasurementWindow::new_with_look_behind(1000000);
    let mut v: VecDeque<SensorSampleMeasurement> = VecDeque::new();

    for n in 1..=25 {
        let s = SensorSample::new(6500, n * 10, n * 10, n * 10, (n as u64) * 100000);
        w.add(s);
        v.push_back(SensorSampleMeasurement::from(s));
    }

    v.drain(..14);

    assert_eq!(w.values, v);
}

#[test]
fn regression_keeps_only_the_new_sample() {
    let mut w = MeasurementWindow::new_with_look_behind(1000);
    w.add(SensorSample::new(1, 1, 1, 1, 10));
    let s = SensorSample::new(2, 2, 2, 2, 5);
    w.add(s);
    assert_eq!(w.values.len(), 1);
    assert_eq!(w.values[0], SensorSampleMeasurement::from(s));
    assert_eq!(w.values[0].timestamp, 5);
}

#[test]
fn regression_in_steady_state_clears_window() {
    let mut w = MeasurementWindow::new_with_look_behind(100);
    for ts in [1000u64, 1010, 1020, 1030] {
        w.add(SensorSample::new(0, 0, 0, 0, ts));
    }
    assert_eq!(w.values.len(), 4);
    let s = SensorSample::new(7, 8, 9, 10, 1015);
    w.add(s);
    assert_eq!(w.values, VecDeque::from(vec![SensorSampleMeasurement::from(s)]));
}

#[test]
fn projection_pairs_timestamp_with_each_channel() {
    let m = SensorSampleMeasurement::from(SensorSample::new(6500, 1, 2, 3, 42));
    assert_eq!(m.t, Measurement { x: 42, y: 6500 });
    assert_eq!(m.x, Measurement { x: 42, y: 1 });
    assert_eq!(m.y, Measurement { x: 42, y: 2 });
    assert_eq!(m.z, Measurement { x: 42, y: 3 });
    assert_eq!(m.timestamp, 42);
}

#[test]
fn empty_sample_is_all_zero() {
    let s = SensorSample::empty();
    assert_eq!((s.t, s.x, s.y, s.z, s.timestamp), (0, 0, 0, 0, 0));
    let s = SensorSample::new(1, 2, 3, 4, 5);
    assert_eq!((s.t, s.x, s.y, s.z, s.timestamp), (1, 2, 3, 4, 5));
}

#[test]
fn warm_up_keeps_one_entry() {
    let mut w = MeasurementWindow::new_with_look_behind(100);
    w.add(SensorSample::new(0, 0, 0, 0, 10));
    assert_eq!(w.values.len(), 1);
    w.add(SensorSample::new(0, 0, 0, 0, 20));
    assert_eq!(w.values.len(), 1);
    assert_eq!(w.values[0].timestamp, 20);
    w.add(SensorSample::new(0, 0, 0, 0, 120));
    let kept: Vec<u64> = w.values.iter().map(|m| m.timestamp).collect();
    assert_eq!(kept, vec![20, 120]);
}

#[test]
fn boundary_timestamp_is_kept() {
    let mut w = MeasurementWindow::new_with_look_behind(100);
    for ts in [1000u64, 1050, 1099, 1100, 1200] {
        w.add(SensorSample::new(0, 0, 0, 0, ts));
    }
    let kept: Vec<u64> = w.values.iter().map(|m| m.timestamp).collect();
    assert_eq!(kept, vec![1100, 1200]);
}

#[test]
fn increasing_timestamps_keep_recent_suffix() {
    let mut w = MeasurementWindow::new_with_look_behind(25);
    let stamps = [100u64, 110, 120, 131, 140, 150, 162];
    for ts in stamps {
        w.add(SensorSample::new(0, 0, 0, 0, ts));
        let newest = ts;
        let expected: Vec<u64> = stamps
            .iter()
            .copied()
            .filter(|t| *t <= newest && *t > newest - 25)
            .collect();
        let kept: Vec<u64> = w.values.iter().map(|m| m.timestamp).collect();
        assert_eq!(kept, expected);
    }
}

#[test]
fn out_of_order_pair_keeps_later_arrival() {
    let mut w = MeasurementWindow::new_with_look_behind(1000000);
    w.add(SensorSample::new(1, 1, 1, 1, 10));
    w.add(SensorSample::new(2, 2, 2, 2, 5));
    let kept: Vec<u64> = w.values.iter().map(|m| m.timestamp).collect();
    assert_eq!(kept, vec![5]);
}

#[test]
fn plot_values_are_aligned() {
    let mut w = MeasurementWindow::new_with_look_behind(1000);
    w.add(SensorSample::new(10, 20, 30, 40, 5000));
    w.add(SensorSample::new(11, 21, 31, 41, 5100));
    w.add(SensorSample::new(12, 22, 32, 42, 5200));
    let [t, x, y, z] = w.plot_values();
    assert_eq!(t.len(), 3);
    assert_eq!(x.len(), 3);
    assert_eq!(y.len(), 3);
    assert_eq!(z.len(), 3);
    for i in 0..3 {
        let ts = w.values[i].timestamp;
        assert_eq!(t[i].x, ts);
        assert_eq!(x[i].x, ts);
        assert_eq!(y[i].x, ts);
        assert_eq!(z[i].x, ts);
    }
    assert_eq!(t[1], Measurement { x: 5100, y: 11 });
    assert_eq!(x[2], Measurement { x: 5200, y: 22 });
    assert_eq!(y[0], Measurement { x: 5000, y: 30 });
    assert_eq!(z[1], Measurement { x: 5100, y: 41 });
}

#[test]
fn plot_values_of_empty_window() {
    let w = MeasurementWindow::new_with_look_behind(6000000);
    let r = w.plot_values();
    for c in r.iter() {
        assert!(c.is_empty());
    }
}

#[test]
fn reading_twice_gives_equal_traces() {
    let mut w = MeasurementWindow::new_with_look_behind(1000);
    w.add(SensorSample::new(1, 2, 3, 4, 2007));
    w.add(SensorSample::new(5, 6, 7, 8, 2009));
    let a = w.plot_values();
    let b = w.plot_values();
    assert_eq!(a, b);
    assert_eq!(w.values.len(), 2);
}
