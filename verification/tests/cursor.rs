use resonant_engine::cursor::PlaybackCursor;

#[test]
fn cursor_starts_at_zero() {
    let c = PlaybackCursor::new(5).unwrap();
    assert_eq!(c.position(), 0);
    assert_eq!(c.length(), 5);
}

#[test]
fn cursor_of_empty_clip_is_refused() {
    assert!(PlaybackCursor::new(0).is_none());
}

#[test]
fn advance_returns_old_position_and_wraps() {
    let mut c = PlaybackCursor::new(3).unwrap();
    assert_eq!(c.advance(), 0);
    assert_eq!(c.advance(), 1);
    assert_eq!(c.advance(), 2);
    assert_eq!(c.position(), 0);
}

#[test]
fn advancing_reaches_start_plus_count_modulo_length() {
    for len in 1..12usize {
        for start in 0..len {
            let mut c = PlaybackCursor::new(len).unwrap();
            c.seek(start);
            for count in 0..40usize {
                assert_eq!(c.position(), (start + count) % len);
                assert_eq!(c.advance(), (start + count) % len);
            }
        }
    }
}

#[test]
fn advance_at_the_word_limit_wraps_to_the_start() {
    let len = usize::MAX;
    let mut c = PlaybackCursor::new(len).unwrap();
    c.seek(len - 1);
    assert_eq!(c.advance(), len - 1);
    assert_eq!(c.position(), 0);
}

#[test]
fn seek_wraps_an_index_at_the_end() {
    let mut c = PlaybackCursor::new(10).unwrap();
    c.seek(9);
    assert_eq!(c.position(), 9);
    c.seek(10);
    assert_eq!(c.position(), 0);
    c.seek(23);
    assert_eq!(c.position(), 3);
}
