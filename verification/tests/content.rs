use be_music_cabinet::content::{compare_piece, same_bytes, sizes_allow_same, PieceVerdict};

#[test]
fn sizes_decide_early() {
    assert!(sizes_allow_same(0, 0));
    assert!(sizes_allow_same(4096, 4096));
    assert!(!sizes_allow_same(4096, 4097));
    assert!(!sizes_allow_same(u64::MAX, 0));
}

#[test]
fn bytes_are_compared_one_by_one() {
    assert!(same_bytes(b"", b""));
    assert!(same_bytes(b"same", b"same"));
    assert!(!same_bytes(b"same", b"sama"));
    assert!(!same_bytes(b"same", b"Same"));
    assert!(!same_bytes(b"same", b"sam"));
    assert!(!same_bytes(b"", b"x"));
}

#[test]
fn pieces_end_or_go_on() {
    assert_eq!(compare_piece(b"abc", b"abc"), PieceVerdict::EqualSoFar);
    assert_eq!(compare_piece(b"", b""), PieceVerdict::EqualToTheEnd);
    assert_eq!(compare_piece(b"abc", b"abd"), PieceVerdict::Differ);
    assert_eq!(compare_piece(b"abc", b""), PieceVerdict::Differ);
    assert_eq!(compare_piece(b"", b"a"), PieceVerdict::Differ);
}
