use dfsdm_viz::serial_reader::{SyncFrameParser, BURST_BYTES, BURST_SAMPLES};

fn frame(samples: &[i16]) -> Vec<u8> {
    let mut v = vec![0xAA, 0x55, 0xAA, 0x55];
    for s in samples {
        v.extend_from_slice(&s.to_le_bytes());
    }
    v
}

fn burst(seed: i32) -> Vec<i16> {
    (0..BURST_SAMPLES as i32).map(|i| ((i * 131 + seed * 17) % 65536 - 32768) as i16).collect()
}

#[test]
fn parser_constants_match_wire_format() {
    assert_eq!(BURST_SAMPLES, 1024);
    assert_eq!(BURST_BYTES, 2048);
}

#[test]
fn parser_decodes_one_frame() {
    let b = burst(1);
    let mut p = SyncFrameParser::new();
    p.push_bytes(&frame(&b));
    let got = p.drain_bursts();
    assert_eq!(got, vec![b]);
    assert!(p.drain_bursts().is_empty());
}

#[test]
fn parser_decodes_little_endian_signed() {
    let mut b = vec![0i16; BURST_SAMPLES];
    b[0] = -1;
    b[1] = 0x1234;
    b[2] = i16::MIN;
    b[3] = i16::MAX;
    let bytes = frame(&b);
    assert_eq!(&bytes[4..12], &[0xFF, 0xFF, 0x34, 0x12, 0x00, 0x80, 0xFF, 0x7F]);
    let mut p = SyncFrameParser::new();
    p.push_bytes(&bytes);
    assert_eq!(p.drain_bursts(), vec![b]);
}

#[test]
fn parser_byte_by_byte_matches_whole() {
    let b1 = burst(2);
    let b2 = burst(3);
    let mut stream = vec![1u8, 2, 3];
    stream.extend(frame(&b1));
    stream.extend([7u8, 8, 9]);
    stream.extend(frame(&b2));
    let mut whole = SyncFrameParser::new();
    whole.push_bytes(&stream);
    let mut single = SyncFrameParser::new();
    for byte in &stream {
        single.push_bytes(&[*byte]);
    }
    let a = whole.drain_bursts();
    assert_eq!(a, single.drain_bursts());
    assert_eq!(a, vec![b1, b2]);
}

#[test]
fn parser_sync_word_straddles_reads() {
    let b = burst(4);
    let f = frame(&b);
    let mut p = SyncFrameParser::new();
    p.push_bytes(&[0x00, 0x11, 0xAA, 0x55]);
    assert!(p.drain_bursts().is_empty());
    p.push_bytes(&f[2..1000]);
    assert!(p.drain_bursts().is_empty());
    p.push_bytes(&f[1000..]);
    assert_eq!(p.drain_bursts(), vec![b]);
}

#[test]
fn parser_skips_noise_before_sync() {
    let b = burst(5);
    let mut stream: Vec<u8> = (0..100u8).collect();
    stream.extend(frame(&b));
    let mut p = SyncFrameParser::new();
    p.push_bytes(&stream);
    assert_eq!(p.drain_bursts(), vec![b]);
}

#[test]
fn parser_noise_only_yields_nothing() {
    let noise: Vec<u8> = (0..5000u32).map(|i| (i % 200) as u8).collect();
    let mut p = SyncFrameParser::new();
    p.push_bytes(&noise);
    assert!(p.drain_bursts().is_empty());
}

#[test]
fn parser_incomplete_payload_waits() {
    let b = burst(6);
    let f = frame(&b);
    let mut p = SyncFrameParser::new();
    p.push_bytes(&f[..f.len() - 1]);
    assert!(p.drain_bursts().is_empty());
    p.push_bytes(&f[f.len() - 1..]);
    assert_eq!(p.drain_bursts(), vec![b]);
}

#[test]
fn parser_bursts_accumulate_until_drained() {
    let b1 = burst(7);
    let b2 = burst(8);
    let mut p = SyncFrameParser::new();
    p.push_bytes(&frame(&b1));
    p.push_bytes(&frame(&b2));
    p.push_bytes(&[]);
    assert_eq!(p.drain_bursts(), vec![b1, b2]);
    assert!(p.drain_bursts().is_empty());
}

#[test]
fn parser_payload_may_contain_sync_pattern() {
    let mut b = vec![0i16; BURST_SAMPLES];
    // 0x55AA little-endian is AA 55: two of them form a sync word inside the payload.
    b[10] = 0x55AAu16 as i16;
    b[11] = 0x55AAu16 as i16;
    let mut p = SyncFrameParser::new();
    p.push_bytes(&frame(&b));
    assert_eq!(p.drain_bursts(), vec![b]);
}
