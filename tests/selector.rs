use impulse::{select, BufferSize};

#[test]
fn select_all_returns_whole_buffer() {
    let buf = [1i32, 2, 3, 4];
    let (slice, cursor) = select(&buf, BufferSize::All, 2);
    assert_eq!(slice, &[1, 2, 3, 4]);
    assert_eq!(cursor, 4);
}

#[test]
fn select_all_twice_is_identical() {
    let buf = [0.5f32, -0.25, 0.125];
    let (first, c1) = select(&buf, BufferSize::All, 0);
    let (second, c2) = select(&buf, BufferSize::All, c1);
    assert_eq!(first, second);
    assert_eq!(c1, c2);
}

#[test]
fn select_incremental_starts_at_cursor() {
    let buf = [1i32, 2, 3, 4, 5];
    let (slice, cursor) = select(&buf, BufferSize::Incremental, 2);
    assert_eq!(slice, &[3, 4, 5]);
    assert_eq!(cursor, 5);
}

#[test]
fn select_incremental_at_end_is_empty() {
    let buf = [1i32, 2];
    let (slice, cursor) = select(&buf, BufferSize::Incremental, 2);
    assert!(slice.is_empty());
    assert_eq!(cursor, 2);
}

#[test]
fn select_on_empty_buffer() {
    let buf: [i16; 0] = [];
    assert!(select(&buf, BufferSize::All, 0).0.is_empty());
    assert!(select(&buf, BufferSize::Incremental, 0).0.is_empty());
}

#[test]
fn incremental_selections_partition_a_growing_buffer() {
    let full = vec![1i32, 2, 3, 4, 5, 6, 7];
    let mut joined: Vec<i32> = Vec::new();
    let mut cursor: usize = 0;
    for end in [0usize, 2, 2, 5, 7] {
        let (slice, next) = select(&full[..end], BufferSize::Incremental, cursor);
        joined.extend_from_slice(slice);
        cursor = next;
    }
    assert_eq!(joined, full);
}
