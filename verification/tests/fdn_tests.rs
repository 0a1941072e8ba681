use fdn::fdn::FDN;
use fdn::sample::{apply_gain, sat_add};

fn zeros(n: usize) -> Vec<i64> {
    vec![0i64; n]
}

#[test]
fn silence_invariance() {
    let mut net = FDN::new(1, 64);
    for _ in 0..50 {
        let inp = zeros(64);
        let mut out = zeros(64);
        net.update_framesize(64);
        net.process(&mut out, &inp);
        assert!(out.iter().all(|&s| s == 0));
    }
    for ch in 0..4 {
        assert!(net.feedback_state(ch).iter().all(|&s| s == 0));
    }
}

#[test]
fn impulse_latency_800() {
    let mut net = FDN::new(1, 256);
    let mut got: Vec<i64> = Vec::new();
    for b in 0..5 {
        let mut inp = zeros(256);
        if b == 0 {
            inp[0] = 1;
        }
        let mut out = zeros(256);
        net.process(&mut out, &inp);
        got.extend(out);
    }
    for k in 0..800 {
        assert_eq!(got[k], 0);
    }
    assert_eq!(got[800], 1);
}

#[test]
fn impulse_decays() {
    let mut net = FDN::new(1, 250);
    let scale = 1i64 << 20;
    let mut maxabs = 0i64;
    let mut tail_max = 0i64;
    let nblocks = 800;
    for b in 0..nblocks {
        let mut inp = zeros(250);
        if b == 0 {
            inp[0] = scale;
        }
        let mut out = zeros(250);
        net.process(&mut out, &inp);
        let m = out.iter().map(|s| s.abs()).max().unwrap();
        if m > maxabs {
            maxabs = m;
        }
        if b >= nblocks - 40 && m > tail_max {
            tail_max = m;
        }
    }
    assert!(maxabs <= scale * 16);
    assert!(tail_max <= scale / 512);
}

#[test]
fn resize_preserves_feedback() {
    let mut net = FDN::new(1, 1024);
    let mut inp = zeros(1024);
    inp[0] = 1;
    let mut out = zeros(1024);
    net.process(&mut out, &inp);
    let fb0 = net.feedback_state(0);
    assert_eq!(fb0.len(), 1024);
    assert_eq!(fb0[1], 1);
    net.update_framesize(1030);
    let grown = net.feedback_state(0);
    assert_eq!(grown.len(), 1030);
    for t in 0..1024 {
        assert_eq!(grown[t], fb0[t]);
    }
    for t in 1024..1030 {
        assert_eq!(grown[t], 0);
    }
    net.update_framesize(3);
    let shrunk = net.feedback_state(0);
    assert_eq!(shrunk, vec![0i64, 1, 0]);
    net.update_framesize(3);
    assert_eq!(net.feedback_state(0), vec![0i64, 1, 0]);
    assert_eq!(net.frame_size(), 3);
}

#[test]
fn determinism() {
    let mut a = FDN::new(1, 128);
    let mut b = FDN::new(1, 128);
    let mut seed = 0x12345678u64;
    for _ in 0..20 {
        let mut inp = zeros(128);
        for t in 0..128 {
            seed = seed
                .wrapping_mul(6364136223846793005)
                .wrapping_add(1442695040888963407);
            inp[t] = ((seed >> 20) as i64) - (1i64 << 43);
        }
        let mut out_a = zeros(128);
        let mut out_b = zeros(128);
        a.process(&mut out_a, &inp);
        b.process(&mut out_b, &inp);
        assert_eq!(out_a, out_b);
    }
}

#[test]
fn empty_frame() {
    let mut net = FDN::new(1, 0);
    let inp = zeros(0);
    let mut out = zeros(0);
    net.process(&mut out, &inp);
    assert_eq!(out.len(), 0);
    assert_eq!(net.frame_size(), 0);
}

#[test]
fn sample_ops_exact() {
    assert_eq!(sat_add(i64::MAX, 1), i64::MAX);
    assert_eq!(sat_add(i64::MIN, -1), i64::MIN);
    assert_eq!(sat_add(5, -9), -4);
    assert_eq!(apply_gain(1, 20), 13);
    assert_eq!(apply_gain(-1, 20), -13);
    assert_eq!(apply_gain(1, -20), -13);
    assert_eq!(apply_gain(0, 999), 0);
    assert_eq!(apply_gain(1, 1), 0);
}
