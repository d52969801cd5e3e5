use stockfish_rs::bitboard::{bishop_attacks_bb, rook_attacks_bb, square_bb};
use stockfish_rs::magic::{index_to_bitboard, init_magics};
use stockfish_rs::types::Square;

fn boards() -> Vec<u64> {
    let mut v = vec![0u64, u64::MAX, 0x0000_0010_0800_0000, 0x00FF_0000_0000_FF00, 0x8142_2418_1824_4281];
    let mut x: u64 = 0x9E37_79B9_7F4A_7C15;
    for _ in 0..40 {
        x ^= x >> 12;
        x ^= x << 25;
        x ^= x >> 27;
        let y = x.wrapping_mul(2685821657736338717);
        v.push(y & (y >> 7));
        v.push(y);
    }
    v
}

#[test]
fn magic_rook_lookup_matches_ray_walk() {
    let table = init_magics(true);
    for s in 0..64 {
        let sq = Square::from_index(s);
        for &occ in &boards() {
            assert_eq!(table.attacks(sq, occ), rook_attacks_bb(sq, occ));
        }
    }
}

#[test]
fn magic_bishop_lookup_matches_ray_walk() {
    let table = init_magics(false);
    for s in 0..64 {
        let sq = Square::from_index(s);
        for &occ in &boards() {
            assert_eq!(table.attacks(sq, occ), bishop_attacks_bb(sq, occ));
        }
    }
}

#[test]
fn magic_exact_attack_sets() {
    let rooks = init_magics(true);
    let bishops = init_magics(false);
    assert_eq!(rooks.attacks(Square::A1, 0), 0x0101_0101_0101_01FE);
    // A rook on d4 with blockers on d6 and f4.
    let occ = square_bb(Square::D6) | square_bb(Square::F4);
    let expected = square_bb(Square::D5)
        | square_bb(Square::D6)
        | square_bb(Square::E4)
        | square_bb(Square::F4)
        | square_bb(Square::D3)
        | square_bb(Square::D2)
        | square_bb(Square::D1)
        | square_bb(Square::C4)
        | square_bb(Square::B4)
        | square_bb(Square::A4);
    assert_eq!(rooks.attacks(Square::D4, occ), expected);
    // A bishop on c1 blocked on e3.
    let occ = square_bb(Square::E3);
    let expected = square_bb(Square::B2) | square_bb(Square::A3) | square_bb(Square::D2) | square_bb(Square::E3);
    assert_eq!(bishops.attacks(Square::C1, occ), expected);
}

#[test]
fn magic_every_relevant_pattern_hits_its_square() {
    let rooks = init_magics(true);
    for s in 0..64 {
        let m = &rooks.magics[s];
        assert!(m.shift >= 52 && m.shift < 64);
        assert_eq!(m.attacks.len(), 1usize << (64 - m.shift));
        let bits = 64 - m.shift;
        for i in 0..(1usize << bits) {
            let occ = index_to_bitboard(i, bits, m.mask);
            assert_eq!(occ & !m.mask, 0);
            let idx = m.index(occ);
            assert_eq!(idx, ((occ & m.mask).wrapping_mul(m.magic) >> m.shift) as usize);
            assert_eq!(m.attacks(occ), rook_attacks_bb(m.square, occ));
        }
    }
}

#[test]
fn magic_index_to_bitboard_spreads_bits() {
    // Mask squares 1, 2 and 4; index 0b101 picks the first and the third.
    assert_eq!(index_to_bitboard(5, 3, 0b10110), 0b10010);
    assert_eq!(index_to_bitboard(7, 3, 0b10110), 0b10110);
    assert_eq!(index_to_bitboard(0, 3, 0b10110), 0);
    // Only the low `bits` bits of the index count.
    assert_eq!(index_to_bitboard(0b1010, 2, 0xF0), 0x20);
}
