//! Cutting a PCM byte stream into the frames that the service expects.

use vstd::prelude::*;

verus! {

/// 40 ms of 16 kHz / 16-bit / mono PCM, the frame size that the service recommends.
pub const TARGET_AUDIO_CHUNK_BYTES: usize = 1_280;

/// How many whole frames `buffer` holds.
pub open spec fn chunk_count(buffer: Seq<u8>) -> nat {
    buffer.len() / TARGET_AUDIO_CHUNK_BYTES as nat
}

/// The whole frames at the front of `buffer`, in order.
pub open spec fn audio_chunks(buffer: Seq<u8>) -> Seq<Seq<u8>> {
    Seq::new(
        chunk_count(buffer),
        |i: int|
            buffer.subrange(
                i * TARGET_AUDIO_CHUNK_BYTES,
                (i + 1) * TARGET_AUDIO_CHUNK_BYTES,
            ),
    )
}

/// What is left of `buffer` behind its whole frames.
pub open spec fn audio_tail(buffer: Seq<u8>) -> Seq<u8> {
    buffer.skip(chunk_count(buffer) * TARGET_AUDIO_CHUNK_BYTES as int)
}

/// The byte strings that a list of frames holds.
pub open spec fn chunk_views(chunks: Seq<Vec<u8>>) -> Seq<Seq<u8>> {
    Seq::new(chunks.len(), |i: int| chunks[i]@)
}

/// Takes every whole frame off the front of `buffer` and returns them in order; fewer
/// bytes than one frame stay behind.
pub fn drain_audio_chunks(buffer: &mut Vec<u8>) -> (chunks: Vec<Vec<u8>>)
    ensures
        chunk_views(chunks@) == audio_chunks(old(buffer)@),
        final(buffer)@ == audio_tail(old(buffer)@),
{
    let ghost whole = buffer@;
    let mut chunks: Vec<Vec<u8>> = Vec::new();
    assert(whole.skip(0) == whole);
    while buffer.len() >= TARGET_AUDIO_CHUNK_BYTES
        invariant
            chunks@.len() <= chunk_count(whole),
            buffer@ == whole.skip(chunks@.len() * TARGET_AUDIO_CHUNK_BYTES as int),
            forall|i: int|
                0 <= i < chunks@.len() ==> (#[trigger] chunks@[i])@ == audio_chunks(whole)[i],
        decreases buffer@.len(),
    {
        let ghost done = chunks@.len() as int;
        let mut rest = buffer.split_off(TARGET_AUDIO_CHUNK_BYTES);
        std::mem::swap(buffer, &mut rest);
        assert(rest@ == audio_chunks(whole)[done]);
        assert(buffer@ == whole.skip((done + 1) * TARGET_AUDIO_CHUNK_BYTES));
        chunks.push(rest);
    }
    assert(chunks@.len() == chunk_count(whole));
    assert(chunk_views(chunks@) == audio_chunks(whole));
    chunks
}

/// Cutting loses, repeats and reorders no byte: the frames one after the other, and then
/// what stayed behind, are the buffer that was cut.
pub proof fn chunks_and_tail_are_the_buffer(buffer: Seq<u8>)
    ensures
        audio_chunks(buffer).flatten() + audio_tail(buffer) == buffer,
    decreases buffer.len(),
{
    let chunks = audio_chunks(buffer);
    if chunks.len() == 0 {
        assert(audio_tail(buffer) == buffer);
    } else {
        let rest = buffer.skip(TARGET_AUDIO_CHUNK_BYTES as int);
        chunks_and_tail_are_the_buffer(rest);
        assert(chunks.drop_first() =~= audio_chunks(rest)) by {
            assert forall|i: int|
                0 <= i < audio_chunks(rest).len() implies #[trigger] chunks.drop_first()[i]
                == audio_chunks(rest)[i] by {
                assert(chunks[i + 1] =~= audio_chunks(rest)[i]);
            }
        }
        assert(audio_tail(buffer) =~= audio_tail(rest));
        assert(chunks.first() + rest =~= buffer);
        assert(chunks.flatten() == chunks.first() + chunks.drop_first().flatten());
        assert(chunks.flatten() + audio_tail(buffer) =~= chunks.first() + (audio_chunks(
            rest,
        ).flatten() + audio_tail(rest)));
    }
}

/// Every frame has exactly the recommended size, and less than one frame stays behind.
pub proof fn chunks_are_full_frames(buffer: Seq<u8>)
    ensures
        forall|i: int|
            0 <= i < audio_chunks(buffer).len() ==> (#[trigger] audio_chunks(buffer)[i]).len()
                == TARGET_AUDIO_CHUNK_BYTES,
        audio_tail(buffer).len() < TARGET_AUDIO_CHUNK_BYTES,
{
}

/// The view of a list of frames shows the bytes of each, in order.
pub proof fn view_shows_every_frame(chunks: Seq<Vec<u8>>)
    ensures
        chunk_views(chunks).len() == chunks.len(),
        forall|i: int| 0 <= i < chunks.len() ==> #[trigger] chunk_views(chunks)[i] == chunks[i]@,
{
}

} // verus!
