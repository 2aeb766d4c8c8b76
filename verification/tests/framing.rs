//! Stream framing and padding.

use phantom_transport::framing::{
    adaptive_pad_size, apply_adaptive_padding, strip_adaptive_padding, FrameError, FrameJob,
    FrameReader, FrameWriter, PaddingProfile, AEAD_OVERHEAD, MAX_FRAME_PAYLOAD,
};

fn seal(job: &FrameJob) -> Vec<u8> {
    let mut out: Vec<u8> = job.payload.iter().map(|b| b ^ 0x5a).collect();
    let mut tag = [0u8; AEAD_OVERHEAD];
    tag[..4].copy_from_slice(&job.header);
    out.extend_from_slice(&tag);
    out
}

fn open(header: &[u8; 4], sealed: &[u8]) -> Option<Vec<u8>> {
    let n = sealed.len().checked_sub(AEAD_OVERHEAD)?;
    if &sealed[n..n + 4] != header {
        return None;
    }
    Some(sealed[..n].iter().map(|b| b ^ 0x5a).collect())
}

fn write(jobs: &Vec<FrameJob>) -> Vec<u8> {
    let sealed: Vec<Option<Vec<u8>>> = jobs.iter().map(|j| Some(seal(j))).collect();
    FrameWriter::new().join_frames(jobs, &sealed).unwrap()
}

fn read_all(mut wire: &[u8]) -> Vec<Vec<u8>> {
    let mut out = Vec::new();
    let mut reader = FrameReader::new();
    while !wire.is_empty() {
        let header: [u8; 4] = wire[..4].try_into().unwrap();
        let n = reader.read_header(header).unwrap();
        let opened = open(&reader.associated_data(), &wire[4..4 + n]);
        out.push(reader.read_frame(opened).unwrap());
        wire = &wire[4 + n..];
    }
    out
}

#[test]
fn test_adaptive_padding_dtls() {
    let padded_size = adaptive_pad_size(52, PaddingProfile::DtlsSrtp);
    assert_eq!(padded_size, 64);
    assert_eq!(adaptive_pad_size(100, PaddingProfile::DtlsSrtp), 128);
    assert_eq!(adaptive_pad_size(1000, PaddingProfile::DtlsSrtp), 1024);
}

#[test]
fn test_padding_roundtrip() {
    let original = b"Hello, adaptive padding!";
    let padded = apply_adaptive_padding(original, PaddingProfile::DtlsSrtp);
    assert!(padded.len() >= 64);
    let stripped = strip_adaptive_padding(&padded).unwrap();
    assert_eq!(stripped, original);
}

#[test]
fn frame_round_trip() {
    let jobs = FrameWriter::new().write_frame(b"Hello, zero-copy framing!");
    let data = read_all(&write(&jobs));
    assert_eq!(data, vec![b"Hello, zero-copy framing!".to_vec()]);
}

#[test]
fn large_message_round_trip() {
    let original_data = vec![0x42u8; 1024 * 1024];
    let jobs = FrameWriter::new().write_frame(&original_data);
    let num_chunks = (original_data.len() + MAX_FRAME_PAYLOAD - 1) / MAX_FRAME_PAYLOAD;
    assert_eq!(jobs.len(), num_chunks);
    assert_eq!(read_all(&write(&jobs)).concat(), original_data);
}

#[test]
fn frame_batch_round_trip() {
    let payloads: Vec<&[u8]> = vec![b"Frame 1", b"Frame 2", b"Frame 3"];
    let jobs = FrameWriter::new().write_frames_batch(&payloads);
    let read = read_all(&write(&jobs));
    assert_eq!(&read[0], b"Frame 1");
    assert_eq!(&read[1], b"Frame 2");
    assert_eq!(&read[2], b"Frame 3");
}

#[test]
fn frame_padded_round_trip() {
    let jobs =
        FrameWriter::new().write_frame_padded(b"Padded message!", PaddingProfile::DtlsSrtp);
    assert_eq!(jobs.len(), 1);
    assert_eq!(jobs[0].payload.len(), 64);
    let wire = write(&jobs);
    let mut reader = FrameReader::new();
    let n = reader.read_header(wire[..4].try_into().unwrap()).unwrap();
    let opened = open(&reader.associated_data(), &wire[4..4 + n]);
    assert_eq!(&reader.read_frame_padded(opened).unwrap(), b"Padded message!");
    assert_eq!(reader.read_frame_padded(Some(vec![9])).unwrap(), vec![9]);
}

#[test]
fn empty_message_takes_no_frame() {
    assert!(FrameWriter::new().write_frame(b"").is_empty());
    let jobs = FrameWriter::new().write_frame(&vec![1u8; MAX_FRAME_PAYLOAD + 1]);
    assert_eq!(jobs.len(), 2);
    assert_eq!(jobs[0].header, [0, 1, 0, 16]);
    assert_eq!(jobs[1].header, [0, 0, 0, 17]);
}

#[test]
fn frame_errors() {
    let mut reader = FrameReader::new();
    let err = reader.read_header([0, 1, 0, 17]).unwrap_err();
    assert!(matches!(err, FrameError::FrameTooLarge(65553)));
    assert_eq!(err.to_text(), "Frame too large: 65553 bytes");
    assert!(reader.read_header([0, 1, 0, 16]).is_ok());
    let err = reader.read_frame(None).unwrap_err();
    assert_eq!(err.to_text(), "Frame decryption / auth failed");
    let jobs = FrameWriter::new().write_frame(b"x");
    let err = FrameWriter::new().join_frames(&jobs, &vec![None]).unwrap_err();
    assert_eq!(err.to_text(), "Frame encryption failed");
    let err = FrameError::Io("broken pipe".to_string());
    assert_eq!(err.to_text(), "Frame I/O error: broken pipe");
}

#[test]
fn pad_sizes_at_the_edges() {
    assert_eq!(adaptive_pad_size(64, PaddingProfile::DtlsSrtp), 64);
    assert_eq!(adaptive_pad_size(65, PaddingProfile::DtlsSrtp), 128);
    assert_eq!(adaptive_pad_size(1201, PaddingProfile::DtlsSrtp), 1201);
    assert_eq!(adaptive_pad_size(1, PaddingProfile::HttpsTls), 128);
    assert_eq!(adaptive_pad_size(8193, PaddingProfile::HttpsTls), 8193);
    assert_eq!(adaptive_pad_size(1400, PaddingProfile::FixedMtu), 1400);
    assert_eq!(adaptive_pad_size(1401, PaddingProfile::FixedMtu), 1401);
    assert_eq!(adaptive_pad_size(7, PaddingProfile::Off), 7);
    assert_eq!(strip_adaptive_padding(&[0]), None);
    assert_eq!(strip_adaptive_padding(&[0, 2, 1]), None);
}
