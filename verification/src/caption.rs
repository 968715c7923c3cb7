//! Recipes, the caption datagrams a server broadcasts on each channel, and the
//! timing between them.
//!
//! A caption datagram is a clip-state byte (1 for the first caption of a clip,
//! 0 otherwise), a data-size byte, and the caption's UTF-8 bytes.

use vstd::prelude::*;
use vstd::utf8::encode_utf8;

verus! {

/// One step of a recipe video: its time segment in seconds, and its caption.
pub struct Annotation {
    pub segment: [u32; 2],
    pub id: u32,
    pub sentence: String,
}

/// A whole recipe video with its annotated steps.
pub struct Clip {
    pub subset: String,
    pub recipe_type: String,
    pub annotations: Vec<Annotation>,
    pub video_url: String,
}

/// A caption as a client decodes it from a datagram.
pub struct Caption {
    /// Whether the caption starts a new clip.
    pub new_clip: bool,
    /// The caption's bytes, as they came.
    pub text: Vec<u8>,
}

/// Milliseconds of playback per second of video: clips play at four times
/// their speed.
pub const MS_PER_SEGMENT_SECOND: u64 = 250;

/// The bytes of the datagram that carries `caption`.
pub open spec fn packet_bytes(is_first: bool, caption: Seq<u8>) -> Seq<u8> {
    seq![if is_first { 1u8 } else { 0u8 }, (caption.len() % 256) as u8] + caption
}

/// What a client reads from a datagram: `None` for one it skips, otherwise
/// whether it starts a new clip and the caption bytes.
pub open spec fn caption_of(datagram: Seq<u8>) -> Option<(bool, Seq<u8>)> {
    if datagram.len() < 2 {
        None
    } else if datagram.len() < 2 + datagram[1] {
        None
    } else {
        Some((datagram[0] == 1, datagram.subrange(2, 2 + datagram[1] as int)))
    }
}

/// When, after a clip started, the caption of `a` is due.
pub open spec fn start_ms(a: Annotation) -> int {
    a.segment[0] * MS_PER_SEGMENT_SECOND
}

/// The datagram for a caption: the clip-state byte, the caption's length
/// taken modulo 256, then the caption.
pub fn caption_packet(is_first: bool, caption: &[u8]) -> (packet: Vec<u8>)
    ensures
        packet@ == packet_bytes(is_first, caption@),
{
    let mut packet: Vec<u8> = Vec::new();
    packet.push(if is_first { 1u8 } else { 0u8 });
    packet.push((caption.len() % 256) as u8);
    let mut i: usize = 0;
    while i < caption.len()
        invariant
            i <= caption@.len(),
            packet@ == packet_bytes(is_first, caption@).take(2 + i),
        decreases caption@.len() - i,
    {
        packet.push(caption[i]);
        i = i + 1;
        assert(packet@ =~= packet_bytes(is_first, caption@).take(2 + i));
    }
    assert(packet@ =~= packet_bytes(is_first, caption@));
    packet
}

/// The datagram for step `idx` of a clip; the first step opens the clip.
pub fn annotation_packet(clip: &Clip, idx: usize) -> (packet: Vec<u8>)
    requires
        idx < clip.annotations@.len(),
    ensures
        packet@ == packet_bytes(idx == 0, encode_utf8(clip.annotations@[idx as int].sentence@)),
{
    let sentence = clip.annotations[idx].sentence.as_str();
    caption_packet(idx == 0, sentence.as_bytes())
}

/// Reads the first `len` bytes of `buf` as a caption datagram.
pub fn decode_caption(buf: &[u8], len: usize) -> (caption: Option<Caption>)
    requires
        len <= buf@.len(),
    ensures
        match caption {
            Some(c) => caption_of(buf@.take(len as int)) == Some((c.new_clip, c.text@)),
            None => caption_of(buf@.take(len as int)) is None,
        },
{
    if len < 2 {
        return None;
    }
    let clip_state = buf[0];
    let data_size = buf[1] as usize;
    if len < 2 + data_size {
        return None;
    }
    let mut text: Vec<u8> = Vec::new();
    let mut i: usize = 2;
    while i < 2 + data_size
        invariant
            2 <= i <= 2 + data_size <= len <= buf@.len(),
            text@ == buf@.subrange(2, i as int),
        decreases 2 + data_size - i,
    {
        text.push(buf[i]);
        i = i + 1;
        assert(text@ =~= buf@.subrange(2, i as int));
    }
    let ghost d = buf@.take(len as int);
    assert(d.subrange(2, 2 + d[1] as int) =~= buf@.subrange(2, 2 + data_size as int));
    Some(Caption { new_clip: clip_state == 1, text })
}

/// A caption of at most 255 bytes comes back from its datagram as it was
/// sent, with its clip state.
pub proof fn lemma_caption_round_trip(is_first: bool, caption: Seq<u8>)
    requires
        caption.len() <= 255,
    ensures
        caption_of(packet_bytes(is_first, caption)) == Some((is_first, caption)),
{
    let p = packet_bytes(is_first, caption);
    assert(p[1] == caption.len());
    assert(p.subrange(2, 2 + p[1] as int) =~= caption);
}

/// When the caption after step `idx` is due, in milliseconds after the clip
/// started; `None` after the last step.
pub fn next_start_ms(clip: &Clip, idx: usize) -> (due: Option<u64>)
    requires
        idx < clip.annotations@.len(),
    ensures
        due == (if idx + 1 < clip.annotations@.len() {
            Some(start_ms(clip.annotations@[idx + 1]) as u64)
        } else {
            None::<u64>
        }),
        due matches Some(t) ==> t == clip.annotations@[idx + 1].segment[0] as int * 250,
        due is Some <==> idx + 1 < clip.annotations@.len(),
{
    if clip.annotations.len() - idx > 1 {
        Some(clip.annotations[idx + 1].segment[0] as u64 * MS_PER_SEGMENT_SECOND)
    } else {
        None
    }
}

/// A caption is due 250 ms after the clip started for each second of the
/// start of its step, whatever the step's id, caption or end: steps that
/// start at the same second are due at the same time, and one that starts a
/// second later is due 250 ms later.
pub proof fn lemma_start_ms_from_start_second(a: Annotation, b: Annotation)
    ensures
        start_ms(a) == a.segment[0] as int * 250,
        a.segment[0] == b.segment[0] ==> start_ms(a) == start_ms(b),
        b.segment[0] == a.segment[0] + 1 ==> start_ms(b) == start_ms(a) + 250,
{
}

/// How long to sleep before a caption due at `due_ms`, when `elapsed_ms`
/// milliseconds of the clip have passed (kept to its low 64 bits); `None`
/// when it is already due.
pub fn delay_before_ms(due_ms: u64, elapsed_ms: u128) -> (delay: Option<u64>)
    ensures
        delay == (if due_ms > elapsed_ms as u64 {
            Some((due_ms - elapsed_ms as u64) as u64)
        } else {
            None::<u64>
        }),
        delay matches Some(d) ==> elapsed_ms as u64 + d == due_ms,
{
    let elapsed = elapsed_ms as u64;
    if due_ms > elapsed {
        Some(due_ms - elapsed)
    } else {
        None
    }
}

/// A uniformly random `usize`.
///
/// Calls `rand::random::<usize>()`, which draws from the thread-local
/// generator: nothing is stated of the value it returns.
#[verifier::external_body]
fn random_usize() -> usize {
    rand::random::<usize>()
}

/// Which of `count` recipes a random `draw` selects.
pub fn recipe_index(draw: usize, count: usize) -> (idx: usize)
    requires
        count > 0,
    ensures
        idx == draw % count,
        idx < count,
{
    draw % count
}

/// Picks one of `count` recipes at random.
pub fn pick_recipe(count: usize) -> (idx: usize)
    requires
        count > 0,
    ensures
        idx < count,
{
    let draw = random_usize();
    recipe_index(draw, count)
}

} // verus!
