//! The CP437 repertoire, as a byte ↔ `char` mapping.
//!
//! A [`Cell`](crate::Cell) holds a CP437 byte, because that is what text-mode
//! video memory holds. Any host that draws to something other than a real
//! text-mode display — a terminal, a pixel framebuffer, a canvas — has to turn
//! that byte into a glyph, and this is the table it needs.
//!
//! The mapping follows IBM's original code page 437, including the graphic
//! symbols in `0x00..=0x1F` that ASCII reserves for control codes. `0x00` maps
//! to a space rather than `NUL`, so a zeroed buffer renders as blank.
use vstd::prelude::*;

verus! {

/// Every CP437 byte as its Unicode equivalent, indexed by byte value.
///
/// `TABLE[0]` is a space, not `U+0000`: a blank cell and a zeroed cell should
/// look the same.
pub const TABLE: [char; 256] = [
    ' ', '\u{263a}', '\u{263b}', '\u{2665}', '\u{2666}', '\u{2663}', '\u{2660}', '\u{2022}', '\u{25d8}', '\u{25cb}', '\u{25d9}', '\u{2642}', '\u{2640}', '\u{266a}', '\u{266b}', '\u{263c}',
    '\u{25ba}', '\u{25c4}', '\u{2195}', '\u{203c}', '\u{00b6}', '\u{00a7}', '\u{25ac}', '\u{21a8}', '\u{2191}', '\u{2193}', '\u{2192}', '\u{2190}', '\u{221f}', '\u{2194}', '\u{25b2}', '\u{25bc}',
    ' ', '!', '"', '#', '$', '%', '&', '\u{0027}', '(', ')', '*', '+', ',', '-', '.', '/',
    '0', '1', '2', '3', '4', '5', '6', '7', '8', '9', ':', ';', '<', '=', '>', '?',
    '@', 'A', 'B', 'C', 'D', 'E', 'F', 'G', 'H', 'I', 'J', 'K', 'L', 'M', 'N', 'O',
    'P', 'Q', 'R', 'S', 'T', 'U', 'V', 'W', 'X', 'Y', 'Z', '[', '\u{005c}', ']', '^', '_',
    '`', 'a', 'b', 'c', 'd', 'e', 'f', 'g', 'h', 'i', 'j', 'k', 'l', 'm', 'n', 'o',
    'p', 'q', 'r', 's', 't', 'u', 'v', 'w', 'x', 'y', 'z', '{', '|', '}', '~', '\u{2302}',
    '\u{00c7}', '\u{00fc}', '\u{00e9}', '\u{00e2}', '\u{00e4}', '\u{00e0}', '\u{00e5}', '\u{00e7}', '\u{00ea}', '\u{00eb}', '\u{00e8}', '\u{00ef}', '\u{00ee}', '\u{00ec}', '\u{00c4}', '\u{00c5}',
    '\u{00c9}', '\u{00e6}', '\u{00c6}', '\u{00f4}', '\u{00f6}', '\u{00f2}', '\u{00fb}', '\u{00f9}', '\u{00ff}', '\u{00d6}', '\u{00dc}', '\u{00a2}', '\u{00a3}', '\u{00a5}', '\u{20a7}', '\u{0192}',
    '\u{00e1}', '\u{00ed}', '\u{00f3}', '\u{00fa}', '\u{00f1}', '\u{00d1}', '\u{00aa}', '\u{00ba}', '\u{00bf}', '\u{2310}', '\u{00ac}', '\u{00bd}', '\u{00bc}', '\u{00a1}', '\u{00ab}', '\u{00bb}',
    '\u{2591}', '\u{2592}', '\u{2593}', '\u{2502}', '\u{2524}', '\u{2561}', '\u{2562}', '\u{2556}', '\u{2555}', '\u{2563}', '\u{2551}', '\u{2557}', '\u{255d}', '\u{255c}', '\u{255b}', '\u{2510}',
    '\u{2514}', '\u{2534}', '\u{252c}', '\u{251c}', '\u{2500}', '\u{253c}', '\u{255e}', '\u{255f}', '\u{255a}', '\u{2554}', '\u{2569}', '\u{2566}', '\u{2560}', '\u{2550}', '\u{256c}', '\u{2567}',
    '\u{2568}', '\u{2564}', '\u{2565}', '\u{2559}', '\u{2558}', '\u{2552}', '\u{2553}', '\u{256b}', '\u{256a}', '\u{2518}', '\u{250c}', '\u{2588}', '\u{2584}', '\u{258c}', '\u{2590}', '\u{2580}',
    '\u{03b1}', '\u{00df}', '\u{0393}', '\u{03c0}', '\u{03a3}', '\u{03c3}', '\u{00b5}', '\u{03c4}', '\u{03a6}', '\u{0398}', '\u{03a9}', '\u{03b4}', '\u{221e}', '\u{03c6}', '\u{03b5}', '\u{2229}',
    '\u{2261}', '\u{00b1}', '\u{2265}', '\u{2264}', '\u{2320}', '\u{2321}', '\u{00f7}', '\u{2248}', '\u{00b0}', '\u{2219}', '\u{00b7}', '\u{221a}', '\u{207f}', '\u{00b2}', '\u{25a0}', '\u{00a0}',
];

/// The glyph a CP437 byte stands for.
pub open spec fn glyph_of(byte: u8) -> char {
    TABLE@[byte as int]
}

/// The byte `from_char` gives for `ch`: the lowest byte from `0x01` up whose
/// glyph is `ch`, if there is one. Starting at `0x01` is what makes a space
/// resolve to `0x20` rather than to the blank at `0x00`.
pub open spec fn is_byte_of(ch: char, b: u8) -> bool {
    &&& 1 <= b
    &&& glyph_of(b) == ch
    &&& forall|i: u8| 1 <= i < b ==> glyph_of(i) != ch
}

/// No byte from `0x01` up stands for `ch`.
pub open spec fn unrepresentable(ch: char) -> bool {
    forall|i: u8| 1 <= i ==> glyph_of(i) != ch
}

/// The glyph a CP437 byte stands for. Total — every byte has one.
pub fn to_char(byte: u8) -> (c: char)
    ensures
        c == glyph_of(byte),
{
    TABLE[byte as usize]
}

/// The CP437 byte for a `char`, or `None` if CP437 cannot represent it.
///
/// Only `0x20..=0x7E` is shared with ASCII. `0x7F` is `'⌂'` here, not `DEL`,
/// and the bytes below `0x20` are graphic symbols.
pub fn from_char(ch: char) -> (r: Option<u8>)
    ensures
        match r {
            Some(b) => is_byte_of(ch, b),
            None => unrepresentable(ch),
        },
{
    let mut i: usize = 1;
    while i < 256
        invariant
            1 <= i <= 256,
            forall|j: u8| 1 <= j < i ==> glyph_of(j) != ch,
        decreases 256 - i,
    {
        if TABLE[i] == ch {
            return Some(i as u8);
        }
        i = i + 1;
    }
    None
}

/// Every glyph maps back to a byte with the same glyph: folding a `char` that
/// came out of the table through `from_char` never loses it. (Duplicated
/// glyphs — `0x00` and `0x20` are both a space — resolve to the lower byte
/// from `0x01` up, so the byte itself need not come back.)
pub proof fn lemma_round_trip(byte: u8, back: Option<u8>)
    requires
        match back {
            Some(b) => is_byte_of(glyph_of(byte), b),
            None => unrepresentable(glyph_of(byte)),
        },
    ensures
        back matches Some(b) && glyph_of(b) == glyph_of(byte),
{
    if back is None {
        if byte == 0 {
            assert(glyph_of(32) == glyph_of(0));
        } else {
            assert(glyph_of(byte) == glyph_of(byte));
        }
    }
}


/// Bytes `0x20..=0x7E` show the ASCII character of the same value.
proof fn lemma_glyph_ascii(b: u8)
    requires
        0x20 <= b <= 0x7E,
    ensures
        glyph_of(b) == b as char,
{
    if b == 32 {
        assert(glyph_of(32) == 32u8 as char);
    } else if b == 33 {
        assert(glyph_of(33) == 33u8 as char);
    } else if b == 34 {
        assert(glyph_of(34) == 34u8 as char);
    } else if b == 35 {
        assert(glyph_of(35) == 35u8 as char);
    } else if b == 36 {
        assert(glyph_of(36) == 36u8 as char);
    } else if b == 37 {
        assert(glyph_of(37) == 37u8 as char);
    } else if b == 38 {
        assert(glyph_of(38) == 38u8 as char);
    } else if b == 39 {
        assert(glyph_of(39) == 39u8 as char);
    } else if b == 40 {
        assert(glyph_of(40) == 40u8 as char);
    } else if b == 41 {
        assert(glyph_of(41) == 41u8 as char);
    } else if b == 42 {
        assert(glyph_of(42) == 42u8 as char);
    } else if b == 43 {
        assert(glyph_of(43) == 43u8 as char);
    } else if b == 44 {
        assert(glyph_of(44) == 44u8 as char);
    } else if b == 45 {
        assert(glyph_of(45) == 45u8 as char);
    } else if b == 46 {
        assert(glyph_of(46) == 46u8 as char);
    } else if b == 47 {
        assert(glyph_of(47) == 47u8 as char);
    } else if b == 48 {
        assert(glyph_of(48) == 48u8 as char);
    } else if b == 49 {
        assert(glyph_of(49) == 49u8 as char);
    } else if b == 50 {
        assert(glyph_of(50) == 50u8 as char);
    } else if b == 51 {
        assert(glyph_of(51) == 51u8 as char);
    } else if b == 52 {
        assert(glyph_of(52) == 52u8 as char);
    } else if b == 53 {
        assert(glyph_of(53) == 53u8 as char);
    } else if b == 54 {
        assert(glyph_of(54) == 54u8 as char);
    } else if b == 55 {
        assert(glyph_of(55) == 55u8 as char);
    } else if b == 56 {
        assert(glyph_of(56) == 56u8 as char);
    } else if b == 57 {
        assert(glyph_of(57) == 57u8 as char);
    } else if b == 58 {
        assert(glyph_of(58) == 58u8 as char);
    } else if b == 59 {
        assert(glyph_of(59) == 59u8 as char);
    } else if b == 60 {
        assert(glyph_of(60) == 60u8 as char);
    } else if b == 61 {
        assert(glyph_of(61) == 61u8 as char);
    } else if b == 62 {
        assert(glyph_of(62) == 62u8 as char);
    } else if b == 63 {
        assert(glyph_of(63) == 63u8 as char);
    } else if b == 64 {
        assert(glyph_of(64) == 64u8 as char);
    } else if b == 65 {
        assert(glyph_of(65) == 65u8 as char);
    } else if b == 66 {
        assert(glyph_of(66) == 66u8 as char);
    } else if b == 67 {
        assert(glyph_of(67) == 67u8 as char);
    } else if b == 68 {
        assert(glyph_of(68) == 68u8 as char);
    } else if b == 69 {
        assert(glyph_of(69) == 69u8 as char);
    } else if b == 70 {
        assert(glyph_of(70) == 70u8 as char);
    } else if b == 71 {
        assert(glyph_of(71) == 71u8 as char);
    } else if b == 72 {
        assert(glyph_of(72) == 72u8 as char);
    } else if b == 73 {
        assert(glyph_of(73) == 73u8 as char);
    } else if b == 74 {
        assert(glyph_of(74) == 74u8 as char);
    } else if b == 75 {
        assert(glyph_of(75) == 75u8 as char);
    } else if b == 76 {
        assert(glyph_of(76) == 76u8 as char);
    } else if b == 77 {
        assert(glyph_of(77) == 77u8 as char);
    } else if b == 78 {
        assert(glyph_of(78) == 78u8 as char);
    } else if b == 79 {
        assert(glyph_of(79) == 79u8 as char);
    } else if b == 80 {
        assert(glyph_of(80) == 80u8 as char);
    } else if b == 81 {
        assert(glyph_of(81) == 81u8 as char);
    } else if b == 82 {
        assert(glyph_of(82) == 82u8 as char);
    } else if b == 83 {
        assert(glyph_of(83) == 83u8 as char);
    } else if b == 84 {
        assert(glyph_of(84) == 84u8 as char);
    } else if b == 85 {
        assert(glyph_of(85) == 85u8 as char);
    } else if b == 86 {
        assert(glyph_of(86) == 86u8 as char);
    } else if b == 87 {
        assert(glyph_of(87) == 87u8 as char);
    } else if b == 88 {
        assert(glyph_of(88) == 88u8 as char);
    } else if b == 89 {
        assert(glyph_of(89) == 89u8 as char);
    } else if b == 90 {
        assert(glyph_of(90) == 90u8 as char);
    } else if b == 91 {
        assert(glyph_of(91) == 91u8 as char);
    } else if b == 92 {
        assert(glyph_of(92) == 92u8 as char);
    } else if b == 93 {
        assert(glyph_of(93) == 93u8 as char);
    } else if b == 94 {
        assert(glyph_of(94) == 94u8 as char);
    } else if b == 95 {
        assert(glyph_of(95) == 95u8 as char);
    } else if b == 96 {
        assert(glyph_of(96) == 96u8 as char);
    } else if b == 97 {
        assert(glyph_of(97) == 97u8 as char);
    } else if b == 98 {
        assert(glyph_of(98) == 98u8 as char);
    } else if b == 99 {
        assert(glyph_of(99) == 99u8 as char);
    } else if b == 100 {
        assert(glyph_of(100) == 100u8 as char);
    } else if b == 101 {
        assert(glyph_of(101) == 101u8 as char);
    } else if b == 102 {
        assert(glyph_of(102) == 102u8 as char);
    } else if b == 103 {
        assert(glyph_of(103) == 103u8 as char);
    } else if b == 104 {
        assert(glyph_of(104) == 104u8 as char);
    } else if b == 105 {
        assert(glyph_of(105) == 105u8 as char);
    } else if b == 106 {
        assert(glyph_of(106) == 106u8 as char);
    } else if b == 107 {
        assert(glyph_of(107) == 107u8 as char);
    } else if b == 108 {
        assert(glyph_of(108) == 108u8 as char);
    } else if b == 109 {
        assert(glyph_of(109) == 109u8 as char);
    } else if b == 110 {
        assert(glyph_of(110) == 110u8 as char);
    } else if b == 111 {
        assert(glyph_of(111) == 111u8 as char);
    } else if b == 112 {
        assert(glyph_of(112) == 112u8 as char);
    } else if b == 113 {
        assert(glyph_of(113) == 113u8 as char);
    } else if b == 114 {
        assert(glyph_of(114) == 114u8 as char);
    } else if b == 115 {
        assert(glyph_of(115) == 115u8 as char);
    } else if b == 116 {
        assert(glyph_of(116) == 116u8 as char);
    } else if b == 117 {
        assert(glyph_of(117) == 117u8 as char);
    } else if b == 118 {
        assert(glyph_of(118) == 118u8 as char);
    } else if b == 119 {
        assert(glyph_of(119) == 119u8 as char);
    } else if b == 120 {
        assert(glyph_of(120) == 120u8 as char);
    } else if b == 121 {
        assert(glyph_of(121) == 121u8 as char);
    } else if b == 122 {
        assert(glyph_of(122) == 122u8 as char);
    } else if b == 123 {
        assert(glyph_of(123) == 123u8 as char);
    } else if b == 124 {
        assert(glyph_of(124) == 124u8 as char);
    } else if b == 125 {
        assert(glyph_of(125) == 125u8 as char);
    } else if b == 126 {
        assert(glyph_of(126) == 126u8 as char);
    }
}

/// Bytes `0x01..=0x1F` show graphic symbols, none of them ASCII.
proof fn lemma_glyph_low(b: u8)
    requires
        1 <= b < 0x20,
    ensures
        glyph_of(b) as u32 >= 0x80,
{
    if b == 1 {
        assert(glyph_of(1) as u32 >= 0x80);
    } else if b == 2 {
        assert(glyph_of(2) as u32 >= 0x80);
    } else if b == 3 {
        assert(glyph_of(3) as u32 >= 0x80);
    } else if b == 4 {
        assert(glyph_of(4) as u32 >= 0x80);
    } else if b == 5 {
        assert(glyph_of(5) as u32 >= 0x80);
    } else if b == 6 {
        assert(glyph_of(6) as u32 >= 0x80);
    } else if b == 7 {
        assert(glyph_of(7) as u32 >= 0x80);
    } else if b == 8 {
        assert(glyph_of(8) as u32 >= 0x80);
    } else if b == 9 {
        assert(glyph_of(9) as u32 >= 0x80);
    } else if b == 10 {
        assert(glyph_of(10) as u32 >= 0x80);
    } else if b == 11 {
        assert(glyph_of(11) as u32 >= 0x80);
    } else if b == 12 {
        assert(glyph_of(12) as u32 >= 0x80);
    } else if b == 13 {
        assert(glyph_of(13) as u32 >= 0x80);
    } else if b == 14 {
        assert(glyph_of(14) as u32 >= 0x80);
    } else if b == 15 {
        assert(glyph_of(15) as u32 >= 0x80);
    } else if b == 16 {
        assert(glyph_of(16) as u32 >= 0x80);
    } else if b == 17 {
        assert(glyph_of(17) as u32 >= 0x80);
    } else if b == 18 {
        assert(glyph_of(18) as u32 >= 0x80);
    } else if b == 19 {
        assert(glyph_of(19) as u32 >= 0x80);
    } else if b == 20 {
        assert(glyph_of(20) as u32 >= 0x80);
    } else if b == 21 {
        assert(glyph_of(21) as u32 >= 0x80);
    } else if b == 22 {
        assert(glyph_of(22) as u32 >= 0x80);
    } else if b == 23 {
        assert(glyph_of(23) as u32 >= 0x80);
    } else if b == 24 {
        assert(glyph_of(24) as u32 >= 0x80);
    } else if b == 25 {
        assert(glyph_of(25) as u32 >= 0x80);
    } else if b == 26 {
        assert(glyph_of(26) as u32 >= 0x80);
    } else if b == 27 {
        assert(glyph_of(27) as u32 >= 0x80);
    } else if b == 28 {
        assert(glyph_of(28) as u32 >= 0x80);
    } else if b == 29 {
        assert(glyph_of(29) as u32 >= 0x80);
    } else if b == 30 {
        assert(glyph_of(30) as u32 >= 0x80);
    } else if b == 31 {
        assert(glyph_of(31) as u32 >= 0x80);
    }
}

/// `0x20..=0x7E` is shared with ASCII both ways: the byte shows the ASCII
/// character of its own value, and [`from_char`] of that character gives the
/// byte back.
pub proof fn lemma_ascii_is_shared(b: u8)
    requires
        0x20 <= b <= 0x7E,
    ensures
        glyph_of(b) == b as char,
        is_byte_of(b as char, b),
{
    lemma_glyph_ascii(b);
    assert forall|i: u8| 1 <= i < b implies glyph_of(i) != b as char by {
        if i < 0x20 {
            lemma_glyph_low(i);
        } else {
            lemma_glyph_ascii(i);
        }
    }
}

/// What [`from_char`] returns inverts [`to_char`]: a byte it gives shows the
/// `char` asked for and is never the blank `0x00`, and it gives nothing
/// exactly when no byte at all shows that `char`.
pub proof fn lemma_from_char_inverts_to_char(c: char, r: Option<u8>)
    requires
        match r {
            Some(b) => is_byte_of(c, b),
            None => unrepresentable(c),
        },
    ensures
        r matches Some(b) ==> glyph_of(b) == c && b != 0,
        r is None <==> forall|b: u8| glyph_of(b) != c,
{
    if r is None {
        assert forall|b: u8| glyph_of(b) != c by {
            if b == 0 {
                assert(glyph_of(0) == glyph_of(32));
            }
        }
    } else {
        let b = r->0;
        assert(glyph_of(b) == c);
    }
}

} // verus!

verus! {

/// The byte a `char` is drawn as: its CP437 byte, or `?` when CP437 has none.
pub open spec fn fold_char(ch: char) -> u8 {
    if exists|b: u8| is_byte_of(ch, b) {
        choose|b: u8| is_byte_of(ch, b)
    } else {
        63u8
    }
}

/// The byte `from_char` finds for a `char` is the only one it could be.
pub proof fn lemma_byte_of_unique(ch: char, b1: u8, b2: u8)
    requires
        is_byte_of(ch, b1),
        is_byte_of(ch, b2),
    ensures
        b1 == b2,
{
}

/// One `char` as the byte a cell holds: its CP437 byte, or `?`.
pub fn fold(ch: char) -> (b: u8)
    ensures
        b == fold_char(ch),
{
    match from_char(ch) {
        Some(b) => {
            proof {
                let c = choose|c: u8| is_byte_of(ch, c);
                lemma_byte_of_unique(ch, b, c);
            }
            b
        },
        None => 63u8,
    }
}

} // verus!
