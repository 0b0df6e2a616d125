use bestool::flash_read::{flash_read_start, next_read_chunk, FlashReadChunk, MAX_READ_BEFORE_RESET};

fn plan(start: usize, length: usize) -> Vec<FlashReadChunk> {
    let mut done = 0;
    let mut chunks = vec![];
    while let Some(c) = next_read_chunk(start, length, done) {
        chunks.push(c);
        done += c.len;
    }
    chunks
}

#[test]
fn chunks_cover_the_range() {
    let start = 0x2C02_0000;
    let length = 3 * MAX_READ_BEFORE_RESET + 5;
    let chunks = plan(start, length);
    assert_eq!(chunks.len(), 4);
    assert_eq!(chunks[0], FlashReadChunk { pos: start, len: MAX_READ_BEFORE_RESET, is_last: false });
    assert_eq!(chunks[3], FlashReadChunk { pos: start + 3 * MAX_READ_BEFORE_RESET, len: 5, is_last: true });
    let mut pos = start;
    for (i, c) in chunks.iter().enumerate() {
        assert_eq!(c.pos, pos);
        assert!(c.len > 0 && c.len <= MAX_READ_BEFORE_RESET);
        assert_eq!(c.is_last, i == chunks.len() - 1);
        pos += c.len;
    }
    assert_eq!(pos, start + length);
}

#[test]
fn chunk_counts() {
    assert_eq!(plan(0, 0).len(), 0);
    assert_eq!(plan(0, 1).len(), 1);
    assert_eq!(plan(0, MAX_READ_BEFORE_RESET).len(), 1);
    assert_eq!(plan(0, MAX_READ_BEFORE_RESET + 1).len(), 2);
    assert_eq!(plan(7, 0x40_0000).len(), 4);
    assert_eq!(next_read_chunk(10, 100, 100), None);
    assert_eq!(next_read_chunk(10, 100, 150), None);
    assert_eq!(next_read_chunk(10, 100, 40), Some(FlashReadChunk { pos: 50, len: 60, is_last: true }));
}

#[test]
fn short_read_continues_from_what_arrived() {
    // a part that returned fewer bytes is followed by the rest
    let c = next_read_chunk(0x1000, 2 * MAX_READ_BEFORE_RESET, 10).unwrap();
    assert_eq!(c, FlashReadChunk { pos: 0x1000 + 10, len: MAX_READ_BEFORE_RESET, is_last: false });
}

#[test]
fn read_start_stays_in_range() {
    assert_eq!(flash_read_start(0x2C00_0000, 0x2_0000, 0x80_0000), Some(0x2C02_0000));
    assert_eq!(flash_read_start(0, 0, 0), Some(0));
    assert_eq!(flash_read_start(1, usize::MAX, 0), None);
    assert_eq!(flash_read_start(0, usize::MAX - 4, 4), Some(usize::MAX - 4));
    assert_eq!(flash_read_start(0, usize::MAX - 4, 5), None);
}
