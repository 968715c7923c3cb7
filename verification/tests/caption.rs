use beartv::caption::{
    annotation_packet, caption_packet, decode_caption, delay_before_ms, next_start_ms, pick_recipe,
    recipe_index, Annotation, Clip,
};

fn annotation(start: u32, sentence: &str) -> Annotation {
    Annotation { segment: [start, start + 5], id: 0, sentence: sentence.to_string() }
}

fn clip(steps: Vec<Annotation>) -> Clip {
    Clip {
        subset: "training".to_string(),
        recipe_type: "113".to_string(),
        annotations: steps,
        video_url: "https://www.youtube.com/watch?v=example".to_string(),
    }
}

#[test]
fn caption_packet_is_state_size_then_text() {
    assert_eq!(caption_packet(true, b"add salt"), b"\x01\x08add salt".to_vec());
    assert_eq!(caption_packet(false, b"stir"), b"\x00\x04stir".to_vec());
    assert_eq!(caption_packet(false, b""), vec![0, 0]);
}

#[test]
fn caption_packet_size_byte_wraps_for_long_captions() {
    let long = vec![b'a'; 300];
    let packet = caption_packet(true, &long);
    assert_eq!(packet.len(), 302);
    assert_eq!(packet[0], 1);
    assert_eq!(packet[1], 44);
    assert_eq!(&packet[2..], &long[..]);
}

#[test]
fn annotation_packet_marks_only_the_first_step() {
    let c = clip(vec![annotation(3, "cut the onion"), annotation(9, "fry it")]);
    assert_eq!(annotation_packet(&c, 0), b"\x01\x0dcut the onion".to_vec());
    assert_eq!(annotation_packet(&c, 1), b"\x00\x06fry it".to_vec());
}

#[test]
fn annotation_packet_counts_utf8_bytes() {
    let c = clip(vec![annotation(0, "crème")]);
    assert_eq!(annotation_packet(&c, 0), vec![1, 6, b'c', b'r', 0xc3, 0xa8, b'm', b'e']);
}

#[test]
fn decode_caption_reads_back_a_packet() {
    let mut buf = [0u8; 1024];
    let packet = caption_packet(true, b"whisk the eggs");
    buf[..packet.len()].copy_from_slice(&packet);
    let c = decode_caption(&buf, packet.len()).unwrap();
    assert!(c.new_clip);
    assert_eq!(c.text, b"whisk the eggs".to_vec());

    let packet = caption_packet(false, b"serve");
    buf[..packet.len()].copy_from_slice(&packet);
    let c = decode_caption(&buf, packet.len()).unwrap();
    assert!(!c.new_clip);
    assert_eq!(c.text, b"serve".to_vec());
}

#[test]
fn decode_caption_skips_short_datagrams() {
    let buf = [1u8, 5, b'a', b'b', 0, 0, 0, 0];
    assert!(decode_caption(&buf, 0).is_none());
    assert!(decode_caption(&buf, 1).is_none());
    assert!(decode_caption(&buf, 4).is_none());
    assert!(decode_caption(&buf, 7).is_some());
}

#[test]
fn decode_caption_ignores_bytes_past_the_size() {
    let buf = [7u8, 2, b'h', b'i', b'x', b'y'];
    let c = decode_caption(&buf, 6).unwrap();
    assert!(!c.new_clip);
    assert_eq!(c.text, b"hi".to_vec());
}

#[test]
fn caption_round_trip_law_on_a_full_size_caption() {
    let text = vec![b'z'; 255];
    let packet = caption_packet(false, &text);
    let mut buf = [0u8; 1024];
    buf[..packet.len()].copy_from_slice(&packet);
    let c = decode_caption(&buf, packet.len()).unwrap();
    assert!(!c.new_clip);
    assert_eq!(c.text, text);
}

#[test]
fn next_start_is_quarter_second_per_segment_second() {
    let c = clip(vec![annotation(2, "a"), annotation(10, "b"), annotation(31, "c")]);
    assert_eq!(next_start_ms(&c, 0), Some(2500));
    assert_eq!(next_start_ms(&c, 1), Some(7750));
    assert_eq!(next_start_ms(&c, 2), None);
}

#[test]
fn next_start_does_not_overflow_for_large_segments() {
    let c = clip(vec![annotation(0, "a"), annotation(u32::MAX - 5, "b")]);
    assert_eq!(next_start_ms(&c, 0), Some((u32::MAX as u64 - 5) * 250));
}

#[test]
fn delay_is_what_remains_until_the_next_caption() {
    assert_eq!(delay_before_ms(2500, 400), Some(2100));
    assert_eq!(delay_before_ms(2500, 2500), None);
    assert_eq!(delay_before_ms(2500, 9000), None);
    assert_eq!(delay_before_ms(0, 0), None);
}

#[test]
fn delay_law_elapsed_plus_delay_is_due_time() {
    for (due, elapsed) in [(100u64, 0u128), (7750, 7749), (1 << 40, 12345)] {
        let d = delay_before_ms(due, elapsed).unwrap();
        assert_eq!(elapsed as u64 + d, due);
    }
}

#[test]
fn delay_uses_low_64_bits_of_elapsed() {
    let elapsed = (1u128 << 64) + 100;
    assert_eq!(delay_before_ms(250, elapsed), Some(150));
}

#[test]
fn recipe_index_is_draw_modulo_count() {
    assert_eq!(recipe_index(17, 5), 2);
    assert_eq!(recipe_index(4, 5), 4);
    assert_eq!(recipe_index(usize::MAX, 1), 0);
}

#[test]
fn pick_recipe_stays_in_range() {
    for count in [1usize, 2, 3, 1000] {
        for _ in 0..50 {
            assert!(pick_recipe(count) < count);
        }
    }
}
