use dfsdm_viz::hpf::AudioHpFilter;

#[test]
fn hpf_step_response_known_values() {
    let mut f = AudioHpFilter::new();
    let input = [1000i16, 1000, 1000, 0];
    let mut out = [0i16; 4];
    f.process_into(&input, &mut out);
    assert_eq!(out, [495, 485, 475, -30]);
    assert_eq!(input, [1000, 1000, 1000, 0]);
}

#[test]
fn hpf_in_place_matches_process_into() {
    let input: Vec<i16> = (0..300).map(|i| ((i * 977) % 20011 - 10000) as i16).collect();
    let mut a = AudioHpFilter::new();
    let mut b = AudioHpFilter::new();
    let mut out = vec![0i16; input.len()];
    a.process_into(&input, &mut out);
    let mut in_place = input.clone();
    b.process(&mut in_place);
    assert_eq!(out, in_place);
}

#[test]
fn hpf_state_carries_across_blocks() {
    let input: Vec<i16> = (0..512).map(|i| ((i * 7919) % 65535 - 32767) as i16).collect();
    let mut whole = AudioHpFilter::new();
    let mut whole_out = vec![0i16; input.len()];
    whole.process_into(&input, &mut whole_out);

    let mut split = AudioHpFilter::new();
    let mut first = vec![0i16; 200];
    let mut second = vec![0i16; 312];
    split.process_into(&input[..200], &mut first);
    split.process_into(&input[200..], &mut second);
    first.extend_from_slice(&second);
    assert_eq!(whole_out, first);
}

#[test]
fn hpf_silence_stays_silent() {
    let mut f = AudioHpFilter::new();
    let mut s = vec![0i16; 1024];
    f.process(&mut s);
    assert!(s.iter().all(|&v| v == 0));
}

#[test]
fn hpf_dc_input_decays() {
    let mut f = AudioHpFilter::new();
    let mut s = vec![32767i16; 6];
    f.process(&mut s);
    assert_eq!(s, vec![16231, 15927, 15629, 15337, 15050, 14768]);
    let mut n = vec![-500i16; 6];
    let mut g = AudioHpFilter::new();
    g.process(&mut n);
    assert_eq!(n, vec![-248, -244, -240, -236, -232, -228]);
}

#[test]
fn hpf_clamps_full_scale_inputs() {
    let mut f = AudioHpFilter::new();
    let mut s = vec![i16::MIN, i16::MAX, i16::MIN, i16::MAX];
    f.process(&mut s);
    assert_eq!(s, vec![-16232, 16534, -16238, 16528]);
    let mut g = AudioHpFilter::new();
    let mut t = vec![-32767i16, i16::MAX, -32767, i16::MAX];
    g.process(&mut t);
    assert_eq!(s, t);
}

#[test]
fn hpf_alternating_input() {
    let mut f = AudioHpFilter::new();
    let mut s = vec![100i16, -100, 100, -100];
    f.process(&mut s);
    assert_eq!(s, vec![49, -51, 49, -51]);
}

#[test]
fn hpf_empty_block_is_noop() {
    let mut f = AudioHpFilter::new();
    let mut empty: [i16; 0] = [];
    f.process(&mut empty);
    let mut s = vec![1000i16];
    f.process(&mut s);
    assert_eq!(s, vec![495]);
}
