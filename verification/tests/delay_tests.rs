use fdn::delay_line::DelayLine;

#[test]
fn delay_line_fifo_single_block() {
    let mut dl = DelayLine::new(4);
    let inp = vec![1i64, 2, 3, 4, 5, 6, 7, 8];
    let mut out = vec![0i64; 8];
    dl.process(&mut out, &inp);
    assert_eq!(out, vec![0i64, 0, 0, 0, 1, 2, 3, 4]);
}

#[test]
fn delay_line_fifo_split_blocks() {
    let mut dl = DelayLine::new(3);
    let inp1 = vec![10i64, 20];
    let mut out1 = vec![0i64; 2];
    dl.process(&mut out1, &inp1);
    let inp2 = vec![30i64, 40, 50, 60];
    let mut out2 = vec![0i64; 4];
    dl.process(&mut out2, &inp2);
    assert_eq!(out1, vec![0i64, 0]);
    assert_eq!(out2, vec![0i64, 10, 20, 30]);
}

#[test]
fn delay_line_capacity_one() {
    let mut dl = DelayLine::new(1);
    let inp = vec![5i64, 6, 7];
    let mut out = vec![0i64; 3];
    dl.process(&mut out, &inp);
    assert_eq!(out, vec![0i64, 5, 6]);
}
