use iamf::decode_error::DecodeError;
use iamf::filters::{parse_wav, sh_hrirs};

fn chunk(id: &[u8; 4], body: &[u8]) -> Vec<u8> {
    let mut v = id.to_vec();
    v.extend_from_slice(&(body.len() as u32).to_le_bytes());
    v.extend_from_slice(body);
    if body.len() % 2 == 1 {
        v.push(0);
    }
    v
}

fn fmt_body(format: u16, channels: u16, bits: u16) -> Vec<u8> {
    let mut b = Vec::new();
    b.extend_from_slice(&format.to_le_bytes());
    b.extend_from_slice(&channels.to_le_bytes());
    b.extend_from_slice(&48000u32.to_le_bytes());
    b.extend_from_slice(&(48000u32 * 2 * channels as u32).to_le_bytes());
    b.extend_from_slice(&(2 * channels).to_le_bytes());
    b.extend_from_slice(&bits.to_le_bytes());
    b
}

fn wav(chunks: &[Vec<u8>]) -> Vec<u8> {
    let mut v = b"RIFF".to_vec();
    v.extend_from_slice(&0u32.to_le_bytes());
    v.extend_from_slice(b"WAVE");
    for c in chunks {
        v.extend_from_slice(c);
    }
    v
}

fn samples(s: &[i16]) -> Vec<u8> {
    s.iter().flat_map(|x| x.to_le_bytes()).collect()
}

fn pcm_file(channels: u16, frames: usize) -> Vec<u8> {
    let data: Vec<i16> = (0..frames * channels as usize).map(|i| i as i16 - 3).collect();
    wav(&[chunk(b"fmt ", &fmt_body(1, channels, 16)), chunk(b"data", &samples(&data))])
}

#[test]
fn wav_planes_are_deinterleaved() {
    let file = wav(&[
        chunk(b"fmt ", &fmt_body(1, 2, 16)),
        chunk(b"LIST", b"odd"),
        chunk(b"data", &samples(&[1, -1, 2, -32768, 32767, 7])),
    ]);
    let planes = parse_wav(&file).ok().unwrap();
    assert_eq!(planes, vec![vec![1, 2, 32767], vec![-1, -32768, 7]]);
}

#[test]
fn wav_partial_frame_is_dropped() {
    let mut body = samples(&[5, 6, 7]);
    body.push(9);
    let file = wav(&[chunk(b"fmt ", &fmt_body(1, 2, 16)), chunk(b"data", &body)]);
    assert_eq!(parse_wav(&file).ok().unwrap(), vec![vec![5], vec![6]]);
}

#[test]
fn wav_refusals() {
    let bad = |d: &[u8]| matches!(parse_wav(d), Err(DecodeError::InvalidDescriptors(m)) if m == "bad filter asset");
    assert!(bad(b"RIFX\0\0\0\0WAVE"));
    assert!(bad(b"RIFF\0\0\0"));
    assert!(bad(&wav(&[chunk(b"data", &samples(&[1, 2]))])));
    assert!(bad(&wav(&[chunk(b"fmt ", &fmt_body(3, 1, 16)), chunk(b"data", &samples(&[1]))])));
    assert!(bad(&wav(&[chunk(b"fmt ", &fmt_body(1, 1, 24)), chunk(b"data", &samples(&[1]))])));
    assert!(bad(&wav(&[chunk(b"fmt ", &fmt_body(1, 1, 16))])));
    let mut cut = wav(&[chunk(b"fmt ", &fmt_body(1, 1, 16)), chunk(b"data", &samples(&[1, 2]))]);
    cut.pop();
    assert!(bad(&cut));
}

#[test]
fn hrirs_need_a_known_order_and_matching_channels() {
    let foa = pcm_file(4, 3);
    assert!(matches!(sh_hrirs(0, &foa, &foa), Err(DecodeError::Unimplemented(m)) if m == "no binaural filters for this order"));
    assert!(matches!(sh_hrirs(5, &foa, &foa), Err(DecodeError::Unimplemented(_))));
    let (l, r) = sh_hrirs(1, &foa, &foa).ok().unwrap();
    assert_eq!(l.len(), 4);
    assert_eq!(r.len(), 4);
    assert_eq!(l[0], vec![-3, 1, 5]);
    let stereo = pcm_file(2, 3);
    assert!(matches!(sh_hrirs(1, &foa, &stereo), Err(DecodeError::InvalidDescriptors(m)) if m == "filter channel count mismatch"));
    assert!(matches!(sh_hrirs(2, &foa, &foa), Err(DecodeError::InvalidDescriptors(_))));
}
