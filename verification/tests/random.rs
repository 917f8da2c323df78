use ultimate_fate::random::{mix64, RandomStream, StreamId};

#[test]
fn streams_with_different_names_draw_differently() {
    let mut terrain = RandomStream::new(42, StreamId::terrain());
    let mut families = RandomStream::new(42, StreamId(7));
    assert_ne!(terrain.next_u64(), families.next_u64());
    let mut again = RandomStream::new(42, StreamId::terrain());
    let mut original = RandomStream::new(42, StreamId::terrain());
    assert_eq!(again.next_u64(), original.next_u64());
}

#[test]
fn mixing_matches_the_splitmix_finalizer() {
    assert_eq!(mix64(0), 0);
    assert_eq!(mix64(1), 0x5692_161d_100b_05e5);
    assert_ne!(mix64(2), mix64(3));
}

#[test]
fn a_stream_does_not_repeat_its_recent_draws() {
    let mut stream = RandomStream::new(42, StreamId::terrain());
    let mut seen: Vec<u64> = Vec::new();
    for _ in 0..1000 {
        let value = stream.next_u64();
        assert!(!seen.contains(&value));
        seen.push(value);
    }
}
