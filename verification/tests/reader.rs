use peer_engine::envelope::Config;
use peer_engine::envelope::FrameError;
use peer_engine::envelope::encode;
use peer_engine::reader::FrameReader;

fn test_config() -> Config {
    Config {
        magic: [0xe3, 0xe1, 0xf3, 0xe8],
        version_floor: 70015,
        max_payload_len: 1024,
    }
}

#[test]
fn frames_arrive_in_arbitrary_chunks() {
    let cfg = test_config();
    let frame = encode(&cfg, &b"inv".to_vec(), &vec![3u8; 40]);
    let mut reader = FrameReader::new(cfg);
    let (head, tail) = frame.split_at(30);
    reader.push_bytes(&head.to_vec());
    assert!(reader.try_next_frame().unwrap().is_none());
    reader.push_bytes(&tail.to_vec());
    let env = reader.try_next_frame().unwrap().unwrap();
    assert_eq!(env.command, b"inv".to_vec());
    assert_eq!(env.payload, vec![3u8; 40]);
    assert!(reader.try_next_frame().unwrap().is_none());
}

#[test]
fn several_frames_in_one_chunk_come_out_in_order() {
    let cfg = test_config();
    let mut stream = encode(&cfg, &b"one".to_vec(), &vec![1u8]);
    stream.extend_from_slice(&encode(&cfg, &b"two".to_vec(), &vec![2u8, 2]));
    stream.extend_from_slice(&encode(&cfg, &b"three".to_vec(), &Vec::new()));
    let mut reader = FrameReader::new(cfg);
    reader.push_bytes(&stream);
    assert_eq!(reader.try_next_frame().unwrap().unwrap().command, b"one".to_vec());
    assert_eq!(reader.try_next_frame().unwrap().unwrap().command, b"two".to_vec());
    assert_eq!(reader.try_next_frame().unwrap().unwrap().command, b"three".to_vec());
    assert!(reader.try_next_frame().unwrap().is_none());
}

#[test]
fn a_bad_stream_reports_the_codec_error() {
    let cfg = test_config();
    let mut frame = encode(&cfg, &b"one".to_vec(), &vec![1u8]);
    frame[1] ^= 0x40;
    let mut reader = FrameReader::new(cfg);
    reader.push_bytes(&frame);
    assert!(matches!(reader.try_next_frame(), Err(FrameError::BadMagic)));
}
