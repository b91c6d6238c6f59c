use iamf::mp4::{demux, find_box, is_mp4, Mp4Error};

fn boxed(fourcc: [u8; 4], body: &[u8]) -> Vec<u8> {
    let mut out = ((body.len() + 8) as u32).to_be_bytes().to_vec();
    out.extend_from_slice(&fourcc);
    out.extend_from_slice(body);
    out
}

/// Muxes descriptors + equally-sized samples into a minimal MP4 with
/// two samples per chunk, then demuxes it back.
#[test]
fn roundtrip() {
    let descriptors = vec![0xAA; 37];
    let samples: Vec<Vec<u8>> = (0u8..6).map(|i| vec![i; 100 + usize::from(i)]).collect();

    let ftyp = boxed(*b"ftyp", b"iamf\0\0\0\0iamf");
    let mut mdat_body = Vec::new();
    let mut sample_offsets = Vec::new();
    for s in &samples {
        sample_offsets.push(mdat_body.len());
        mdat_body.extend_from_slice(s);
    }
    let mdat = boxed(*b"mdat", &mdat_body);
    let mdat_start = ftyp.len() + 8; // data begins after the mdat header

    let mut iacb = vec![1u8]; // configuration_version
    iacb.push(descriptors.len() as u8); // leb128 (fits one byte)
    iacb.extend_from_slice(&descriptors);
    let mut entry = vec![0u8; 28];
    entry.extend_from_slice(&boxed(*b"iacb", &iacb));
    let mut stsd = vec![0, 0, 0, 0, 0, 0, 0, 1];
    stsd.extend_from_slice(&boxed(*b"iamf", &entry));

    let mut stsz = vec![0u8; 8]; // version/flags + uniform=0
    stsz.extend_from_slice(&(samples.len() as u32).to_be_bytes());
    for s in &samples {
        stsz.extend_from_slice(&(s.len() as u32).to_be_bytes());
    }
    // Three chunks of two samples each.
    let mut stco = vec![0, 0, 0, 0, 0, 0, 0, 3];
    for chunk in 0..3 {
        stco.extend_from_slice(&((mdat_start + sample_offsets[chunk * 2]) as u32).to_be_bytes());
    }
    let mut stsc = vec![0, 0, 0, 0, 0, 0, 0, 1];
    stsc.extend_from_slice(&1u32.to_be_bytes()); // first_chunk
    stsc.extend_from_slice(&2u32.to_be_bytes()); // samples_per_chunk
    stsc.extend_from_slice(&1u32.to_be_bytes()); // sample_description_index

    let stbl_body =
        [boxed(*b"stsd", &stsd), boxed(*b"stsz", &stsz), boxed(*b"stco", &stco), boxed(*b"stsc", &stsc)].concat();
    let hdlr = boxed(*b"hdlr", &[b"\0\0\0\0\0\0\0\0soun".to_vec(), vec![0; 14]].concat());
    let minf = boxed(*b"minf", &boxed(*b"stbl", &stbl_body));
    let mdia = boxed(*b"mdia", &[hdlr, minf].concat());
    let moov = boxed(*b"moov", &boxed(*b"trak", &mdia));

    let file = [ftyp, mdat, moov].concat();
    assert!(is_mp4(&file));
    let demuxed = demux(&file).ok().expect("roundtrip demux");
    assert_eq!(demuxed.descriptors, descriptors);
    assert_eq!(demuxed.media, samples.concat());
}

#[test]
fn rejects_non_iamf() {
    assert!(demux(&boxed(*b"moov", &[])).is_err());
}

fn message(r: Result<iamf::mp4::Mp4Iamf, Mp4Error>) -> String {
    match r {
        Ok(_) => panic!("expected an error"),
        Err(e) => e.message(),
    }
}

#[test]
fn demux_error_messages() {
    assert_eq!(message(demux(&[])), "mp4: no moov box");
    assert_eq!(message(demux(&boxed(*b"moov", &[]))), "mp4: no IAMF audio track found");
    let fragmented = [boxed(*b"moov", &[]), boxed(*b"moof", &[])].concat();
    assert_eq!(message(demux(&fragmented)), "mp4: fragmented MP4 is not supported");
}

#[test]
fn box_walking() {
    let data = [boxed(*b"free", &[1, 2]), boxed(*b"moov", &[3])].concat();
    assert_eq!(find_box(&data, *b"moov"), Some(&[3u8][..]));
    assert_eq!(find_box(&data, *b"trak"), None);
    // A box claiming more than is there ends the walk.
    let truncated = [boxed(*b"free", &[]), vec![0, 0, 0, 64, b'm', b'o', b'o', b'v']].concat();
    assert_eq!(find_box(&truncated, *b"moov"), None);
    assert!(!is_mp4(b"short"));
}
