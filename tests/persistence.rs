use tileworld::catalog::{AIR, DIRT, GRASS, STONE};
use tileworld::layer::SIZE;
use tileworld::persistence::{decode_chunk, encode_chunk, DecodeError, CHUNK_BYTES};
use tileworld::world::World;

#[test]
fn save_then_read_round_trip() {
    let mut cells = vec![(AIR, DIRT); SIZE];
    cells[0] = (STONE, GRASS);
    cells[SIZE - 1] = (DIRT, AIR);
    let mut w = World::new();
    w.load_chunk(3, 2, &cells).unwrap();
    let bytes = encode_chunk(&w, 3, 2).unwrap();
    assert_eq!(bytes.len(), CHUNK_BYTES);
    assert_eq!(decode_chunk(&bytes), Ok(cells));
}

#[test]
fn saved_layout_is_big_endian_background_first() {
    let mut cells = vec![(AIR, DIRT); SIZE];
    cells[0] = (STONE, GRASS);
    let mut w = World::new();
    w.load_chunk(0, 0, &cells).unwrap();
    let bytes = encode_chunk(&w, 0, 0).unwrap();
    assert_eq!(&bytes[0..8], &[0, 0, 0, 0, 0, 0, 0, 5]);
    assert_eq!(&bytes[8..16], &[0, 0, 0, 0, 0, 0, 0, 2]);
    assert_eq!(&bytes[16..24], &[0, 0, 0, 0, 0, 0, 0, 0]);
    assert_eq!(&bytes[24..32], &[0, 0, 0, 0, 0, 0, 0, 1]);
}

#[test]
fn unloaded_chunk_is_not_saved() {
    let w = World::new();
    assert_eq!(encode_chunk(&w, 0, 0), None);
}

#[test]
fn short_file_is_truncated() {
    assert_eq!(decode_chunk(&vec![0u8; CHUNK_BYTES - 1]), Err(DecodeError::Truncated));
    assert_eq!(decode_chunk(&Vec::new()), Err(DecodeError::Truncated));
}

#[test]
fn unknown_id_is_rejected() {
    let mut bytes = vec![0u8; CHUNK_BYTES];
    bytes[8 * 7] = 1;
    assert_eq!(decode_chunk(&bytes), Err(DecodeError::UnknownTile));
    let mut bytes = vec![0u8; CHUNK_BYTES];
    bytes[8 * 9 + 7] = 9;
    assert_eq!(decode_chunk(&bytes), Err(DecodeError::UnknownTile));
}

#[test]
fn trailing_bytes_are_not_read() {
    let mut bytes = vec![0u8; CHUNK_BYTES + 3];
    bytes[15] = 2;
    bytes[CHUNK_BYTES] = 0xff;
    let cells = decode_chunk(&bytes).unwrap();
    assert_eq!(cells.len(), SIZE);
    assert_eq!(cells[0], (AIR, GRASS));
    assert_eq!(cells[1], (AIR, AIR));
}
