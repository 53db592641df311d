use xfyun_rtasr::{drain_audio_chunks, TARGET_AUDIO_CHUNK_BYTES};

#[test]
fn drain_audio_chunks_keeps_tail_buffered() {
    let mut buffer = vec![1u8; TARGET_AUDIO_CHUNK_BYTES * 2 + 17];
    let chunks = drain_audio_chunks(&mut buffer);
    assert_eq!(chunks.len(), 2);
    assert_eq!(chunks[0].len(), TARGET_AUDIO_CHUNK_BYTES);
    assert_eq!(chunks[1].len(), TARGET_AUDIO_CHUNK_BYTES);
    assert_eq!(buffer.len(), 17);
}

#[test]
fn chunk_size_is_forty_milliseconds() {
    assert_eq!(TARGET_AUDIO_CHUNK_BYTES, 1280);
}

#[test]
fn chunks_and_tail_are_the_buffer_in_order() {
    let whole: Vec<u8> = (0..4000).map(|i| (i % 251) as u8).collect();
    let mut buffer = whole.clone();
    let mut joined: Vec<u8> = drain_audio_chunks(&mut buffer).concat();
    assert_eq!(joined.len(), 3840);
    joined.extend_from_slice(&buffer);
    assert_eq!(joined, whole);
}

#[test]
fn less_than_a_chunk_stays() {
    let mut buffer = vec![7u8; 1279];
    assert!(drain_audio_chunks(&mut buffer).is_empty());
    assert_eq!(buffer.len(), 1279);
    let mut empty: Vec<u8> = vec![];
    assert!(drain_audio_chunks(&mut empty).is_empty());
}

#[test]
fn exact_chunk_leaves_nothing() {
    let mut buffer = vec![7u8; 1280];
    assert_eq!(drain_audio_chunks(&mut buffer), vec![vec![7u8; 1280]]);
    assert!(buffer.is_empty());
}
