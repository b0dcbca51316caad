use vstd::prelude::*;

verus! {

pub const GLYPH_WIDTH: usize = 5;

pub const GLYPH_HEIGHT: usize = 7;

/// A letter in upper case; any other character as it is.
pub open spec fn ascii_upper(c: char) -> char {
    if 'a' <= c && c <= 'z' {
        ((c as u32) - 32) as char
    } else {
        c
    }
}

/// The 5x7 bitmap of an upper-case letter, a digit, a colon or a space: one
/// byte per row from the top, the leftmost pixel in the bit worth 16.
pub open spec fn glyph_rows(c: char) -> Option<Seq<u8>> {
    match c {
        'A' => Some(seq![14u8, 17, 17, 31, 17, 17, 17]),
        'B' => Some(seq![30u8, 17, 17, 30, 17, 17, 30]),
        'C' => Some(seq![15u8, 16, 16, 16, 16, 16, 15]),
        'D' => Some(seq![30u8, 17, 17, 17, 17, 17, 30]),
        'E' => Some(seq![31u8, 16, 16, 30, 16, 16, 31]),
        'F' => Some(seq![31u8, 16, 16, 30, 16, 16, 16]),
        'G' => Some(seq![15u8, 16, 16, 23, 17, 17, 14]),
        'H' => Some(seq![17u8, 17, 17, 31, 17, 17, 17]),
        'I' => Some(seq![31u8, 4, 4, 4, 4, 4, 31]),
        'J' => Some(seq![7u8, 2, 2, 2, 18, 18, 12]),
        'K' => Some(seq![17u8, 18, 20, 24, 20, 18, 17]),
        'L' => Some(seq![16u8, 16, 16, 16, 16, 16, 31]),
        'M' => Some(seq![17u8, 27, 21, 21, 17, 17, 17]),
        'N' => Some(seq![17u8, 25, 21, 19, 17, 17, 17]),
        'O' => Some(seq![14u8, 17, 17, 17, 17, 17, 14]),
        'P' => Some(seq![30u8, 17, 17, 30, 16, 16, 16]),
        'Q' => Some(seq![14u8, 17, 17, 17, 21, 18, 13]),
        'R' => Some(seq![30u8, 17, 17, 30, 20, 18, 17]),
        'S' => Some(seq![15u8, 16, 16, 14, 1, 1, 30]),
        'T' => Some(seq![31u8, 4, 4, 4, 4, 4, 4]),
        'U' => Some(seq![17u8, 17, 17, 17, 17, 17, 14]),
        'V' => Some(seq![17u8, 17, 17, 17, 17, 10, 4]),
        'W' => Some(seq![17u8, 17, 17, 21, 21, 27, 17]),
        'X' => Some(seq![17u8, 17, 10, 4, 10, 17, 17]),
        'Y' => Some(seq![17u8, 17, 10, 4, 4, 4, 4]),
        'Z' => Some(seq![31u8, 1, 2, 4, 8, 16, 31]),
        '0' => Some(seq![14u8, 17, 19, 21, 25, 17, 14]),
        '1' => Some(seq![4u8, 12, 4, 4, 4, 4, 14]),
        '2' => Some(seq![14u8, 17, 1, 2, 4, 8, 31]),
        '3' => Some(seq![30u8, 1, 1, 14, 1, 1, 30]),
        '4' => Some(seq![2u8, 6, 10, 18, 31, 2, 2]),
        '5' => Some(seq![31u8, 16, 16, 30, 1, 1, 30]),
        '6' => Some(seq![14u8, 16, 16, 30, 17, 17, 14]),
        '7' => Some(seq![31u8, 1, 2, 4, 8, 8, 8]),
        '8' => Some(seq![14u8, 17, 17, 14, 17, 17, 14]),
        '9' => Some(seq![14u8, 17, 17, 15, 1, 1, 14]),
        ':' => Some(seq![0u8, 4, 4, 0, 4, 4, 0]),
        ' ' => Some(seq![0u8, 0, 0, 0, 0, 0, 0]),
        _ => None,
    }
}

/// Each glyph of the font as a picture: seven rows from the top, each
/// five columns from the left, with `#` where a pixel is lit.
pub open spec fn glyph_picture(c: char) -> Option<Seq<Seq<char>>> {
    match c {
        'A' => Some(seq![
            seq!['.', '#', '#', '#', '.'],
            seq!['#', '.', '.', '.', '#'],
            seq!['#', '.', '.', '.', '#'],
            seq!['#', '#', '#', '#', '#'],
            seq!['#', '.', '.', '.', '#'],
            seq!['#', '.', '.', '.', '#'],
            seq!['#', '.', '.', '.', '#'],
        ]),
        'B' => Some(seq![
            seq!['#', '#', '#', '#', '.'],
            seq!['#', '.', '.', '.', '#'],
            seq!['#', '.', '.', '.', '#'],
            seq!['#', '#', '#', '#', '.'],
            seq!['#', '.', '.', '.', '#'],
            seq!['#', '.', '.', '.', '#'],
            seq!['#', '#', '#', '#', '.'],
        ]),
        'C' => Some(seq![
            seq!['.', '#', '#', '#', '#'],
            seq!['#', '.', '.', '.', '.'],
            seq!['#', '.', '.', '.', '.'],
            seq!['#', '.', '.', '.', '.'],
            seq!['#', '.', '.', '.', '.'],
            seq!['#', '.', '.', '.', '.'],
            seq!['.', '#', '#', '#', '#'],
        ]),
        'D' => Some(seq![
            seq!['#', '#', '#', '#', '.'],
            seq!['#', '.', '.', '.', '#'],
            seq!['#', '.', '.', '.', '#'],
            seq!['#', '.', '.', '.', '#'],
            seq!['#', '.', '.', '.', '#'],
            seq!['#', '.', '.', '.', '#'],
            seq!['#', '#', '#', '#', '.'],
        ]),
        'E' => Some(seq![
            seq!['#', '#', '#', '#', '#'],
            seq!['#', '.', '.', '.', '.'],
            seq!['#', '.', '.', '.', '.'],
            seq!['#', '#', '#', '#', '.'],
            seq!['#', '.', '.', '.', '.'],
            seq!['#', '.', '.', '.', '.'],
            seq!['#', '#', '#', '#', '#'],
        ]),
        'F' => Some(seq![
            seq!['#', '#', '#', '#', '#'],
            seq!['#', '.', '.', '.', '.'],
            seq!['#', '.', '.', '.', '.'],
            seq!['#', '#', '#', '#', '.'],
            seq!['#', '.', '.', '.', '.'],
            seq!['#', '.', '.', '.', '.'],
            seq!['#', '.', '.', '.', '.'],
        ]),
        'G' => Some(seq![
            seq!['.', '#', '#', '#', '#'],
            seq!['#', '.', '.', '.', '.'],
            seq!['#', '.', '.', '.', '.'],
            seq!['#', '.', '#', '#', '#'],
            seq!['#', '.', '.', '.', '#'],
            seq!['#', '.', '.', '.', '#'],
            seq!['.', '#', '#', '#', '.'],
        ]),
        'H' => Some(seq![
            seq!['#', '.', '.', '.', '#'],
            seq!['#', '.', '.', '.', '#'],
            seq!['#', '.', '.', '.', '#'],
            seq!['#', '#', '#', '#', '#'],
            seq!['#', '.', '.', '.', '#'],
            seq!['#', '.', '.', '.', '#'],
            seq!['#', '.', '.', '.', '#'],
        ]),
        'I' => Some(seq![
            seq!['#', '#', '#', '#', '#'],
            seq!['.', '.', '#', '.', '.'],
            seq!['.', '.', '#', '.', '.'],
            seq!['.', '.', '#', '.', '.'],
            seq!['.', '.', '#', '.', '.'],
            seq!['.', '.', '#', '.', '.'],
            seq!['#', '#', '#', '#', '#'],
        ]),
        'J' => Some(seq![
            seq!['.', '.', '#', '#', '#'],
            seq!['.', '.', '.', '#', '.'],
            seq!['.', '.', '.', '#', '.'],
            seq!['.', '.', '.', '#', '.'],
            seq!['#', '.', '.', '#', '.'],
            seq!['#', '.', '.', '#', '.'],
            seq!['.', '#', '#', '.', '.'],
        ]),
        'K' => Some(seq![
            seq!['#', '.', '.', '.', '#'],
            seq!['#', '.', '.', '#', '.'],
            seq!['#', '.', '#', '.', '.'],
            seq!['#', '#', '.', '.', '.'],
            seq!['#', '.', '#', '.', '.'],
            seq!['#', '.', '.', '#', '.'],
            seq!['#', '.', '.', '.', '#'],
        ]),
        'L' => Some(seq![
            seq!['#', '.', '.', '.', '.'],
            seq!['#', '.', '.', '.', '.'],
            seq!['#', '.', '.', '.', '.'],
            seq!['#', '.', '.', '.', '.'],
            seq!['#', '.', '.', '.', '.'],
            seq!['#', '.', '.', '.', '.'],
            seq!['#', '#', '#', '#', '#'],
        ]),
        'M' => Some(seq![
            seq!['#', '.', '.', '.', '#'],
            seq!['#', '#', '.', '#', '#'],
            seq!['#', '.', '#', '.', '#'],
            seq!['#', '.', '#', '.', '#'],
            seq!['#', '.', '.', '.', '#'],
            seq!['#', '.', '.', '.', '#'],
            seq!['#', '.', '.', '.', '#'],
        ]),
        'N' => Some(seq![
            seq!['#', '.', '.', '.', '#'],
            seq!['#', '#', '.', '.', '#'],
            seq!['#', '.', '#', '.', '#'],
            seq!['#', '.', '.', '#', '#'],
            seq!['#', '.', '.', '.', '#'],
            seq!['#', '.', '.', '.', '#'],
            seq!['#', '.', '.', '.', '#'],
        ]),
        'O' => Some(seq![
            seq!['.', '#', '#', '#', '.'],
            seq!['#', '.', '.', '.', '#'],
            seq!['#', '.', '.', '.', '#'],
            seq!['#', '.', '.', '.', '#'],
            seq!['#', '.', '.', '.', '#'],
            seq!['#', '.', '.', '.', '#'],
            seq!['.', '#', '#', '#', '.'],
        ]),
        'P' => Some(seq![
            seq!['#', '#', '#', '#', '.'],
            seq!['#', '.', '.', '.', '#'],
            seq!['#', '.', '.', '.', '#'],
            seq!['#', '#', '#', '#', '.'],
            seq!['#', '.', '.', '.', '.'],
            seq!['#', '.', '.', '.', '.'],
            seq!['#', '.', '.', '.', '.'],
        ]),
        'Q' => Some(seq![
            seq!['.', '#', '#', '#', '.'],
            seq!['#', '.', '.', '.', '#'],
            seq!['#', '.', '.', '.', '#'],
            seq!['#', '.', '.', '.', '#'],
            seq!['#', '.', '#', '.', '#'],
            seq!['#', '.', '.', '#', '.'],
            seq!['.', '#', '#', '.', '#'],
        ]),
        'R' => Some(seq![
            seq!['#', '#', '#', '#', '.'],
            seq!['#', '.', '.', '.', '#'],
            seq!['#', '.', '.', '.', '#'],
            seq!['#', '#', '#', '#', '.'],
            seq!['#', '.', '#', '.', '.'],
            seq!['#', '.', '.', '#', '.'],
            seq!['#', '.', '.', '.', '#'],
        ]),
        'S' => Some(seq![
            seq!['.', '#', '#', '#', '#'],
            seq!['#', '.', '.', '.', '.'],
            seq!['#', '.', '.', '.', '.'],
            seq!['.', '#', '#', '#', '.'],
            seq!['.', '.', '.', '.', '#'],
            seq!['.', '.', '.', '.', '#'],
            seq!['#', '#', '#', '#', '.'],
        ]),
        'T' => Some(seq![
            seq!['#', '#', '#', '#', '#'],
            seq!['.', '.', '#', '.', '.'],
            seq!['.', '.', '#', '.', '.'],
            seq!['.', '.', '#', '.', '.'],
            seq!['.', '.', '#', '.', '.'],
            seq!['.', '.', '#', '.', '.'],
            seq!['.', '.', '#', '.', '.'],
        ]),
        'U' => Some(seq![
            seq!['#', '.', '.', '.', '#'],
            seq!['#', '.', '.', '.', '#'],
            seq!['#', '.', '.', '.', '#'],
            seq!['#', '.', '.', '.', '#'],
            seq!['#', '.', '.', '.', '#'],
            seq!['#', '.', '.', '.', '#'],
            seq!['.', '#', '#', '#', '.'],
        ]),
        'V' => Some(seq![
            seq!['#', '.', '.', '.', '#'],
            seq!['#', '.', '.', '.', '#'],
            seq!['#', '.', '.', '.', '#'],
            seq!['#', '.', '.', '.', '#'],
            seq!['#', '.', '.', '.', '#'],
            seq!['.', '#', '.', '#', '.'],
            seq!['.', '.', '#', '.', '.'],
        ]),
        'W' => Some(seq![
            seq!['#', '.', '.', '.', '#'],
            seq!['#', '.', '.', '.', '#'],
            seq!['#', '.', '.', '.', '#'],
            seq!['#', '.', '#', '.', '#'],
            seq!['#', '.', '#', '.', '#'],
            seq!['#', '#', '.', '#', '#'],
            seq!['#', '.', '.', '.', '#'],
        ]),
        'X' => Some(seq![
            seq!['#', '.', '.', '.', '#'],
            seq!['#', '.', '.', '.', '#'],
            seq!['.', '#', '.', '#', '.'],
            seq!['.', '.', '#', '.', '.'],
            seq!['.', '#', '.', '#', '.'],
            seq!['#', '.', '.', '.', '#'],
            seq!['#', '.', '.', '.', '#'],
        ]),
        'Y' => Some(seq![
            seq!['#', '.', '.', '.', '#'],
            seq!['#', '.', '.', '.', '#'],
            seq!['.', '#', '.', '#', '.'],
            seq!['.', '.', '#', '.', '.'],
            seq!['.', '.', '#', '.', '.'],
            seq!['.', '.', '#', '.', '.'],
            seq!['.', '.', '#', '.', '.'],
        ]),
        'Z' => Some(seq![
            seq!['#', '#', '#', '#', '#'],
            seq!['.', '.', '.', '.', '#'],
            seq!['.', '.', '.', '#', '.'],
            seq!['.', '.', '#', '.', '.'],
            seq!['.', '#', '.', '.', '.'],
            seq!['#', '.', '.', '.', '.'],
            seq!['#', '#', '#', '#', '#'],
        ]),
        '0' => Some(seq![
            seq!['.', '#', '#', '#', '.'],
            seq!['#', '.', '.', '.', '#'],
            seq!['#', '.', '.', '#', '#'],
            seq!['#', '.', '#', '.', '#'],
            seq!['#', '#', '.', '.', '#'],
            seq!['#', '.', '.', '.', '#'],
            seq!['.', '#', '#', '#', '.'],
        ]),
        '1' => Some(seq![
            seq!['.', '.', '#', '.', '.'],
            seq!['.', '#', '#', '.', '.'],
            seq!['.', '.', '#', '.', '.'],
            seq!['.', '.', '#', '.', '.'],
            seq!['.', '.', '#', '.', '.'],
            seq!['.', '.', '#', '.', '.'],
            seq!['.', '#', '#', '#', '.'],
        ]),
        '2' => Some(seq![
            seq!['.', '#', '#', '#', '.'],
            seq!['#', '.', '.', '.', '#'],
            seq!['.', '.', '.', '.', '#'],
            seq!['.', '.', '.', '#', '.'],
            seq!['.', '.', '#', '.', '.'],
            seq!['.', '#', '.', '.', '.'],
            seq!['#', '#', '#', '#', '#'],
        ]),
        '3' => Some(seq![
            seq!['#', '#', '#', '#', '.'],
            seq!['.', '.', '.', '.', '#'],
            seq!['.', '.', '.', '.', '#'],
            seq!['.', '#', '#', '#', '.'],
            seq!['.', '.', '.', '.', '#'],
            seq!['.', '.', '.', '.', '#'],
            seq!['#', '#', '#', '#', '.'],
        ]),
        '4' => Some(seq![
            seq!['.', '.', '.', '#', '.'],
            seq!['.', '.', '#', '#', '.'],
            seq!['.', '#', '.', '#', '.'],
            seq!['#', '.', '.', '#', '.'],
            seq!['#', '#', '#', '#', '#'],
            seq!['.', '.', '.', '#', '.'],
            seq!['.', '.', '.', '#', '.'],
        ]),
        '5' => Some(seq![
            seq!['#', '#', '#', '#', '#'],
            seq!['#', '.', '.', '.', '.'],
            seq!['#', '.', '.', '.', '.'],
            seq!['#', '#', '#', '#', '.'],
            seq!['.', '.', '.', '.', '#'],
            seq!['.', '.', '.', '.', '#'],
            seq!['#', '#', '#', '#', '.'],
        ]),
        '6' => Some(seq![
            seq!['.', '#', '#', '#', '.'],
            seq!['#', '.', '.', '.', '.'],
            seq!['#', '.', '.', '.', '.'],
            seq!['#', '#', '#', '#', '.'],
            seq!['#', '.', '.', '.', '#'],
            seq!['#', '.', '.', '.', '#'],
            seq!['.', '#', '#', '#', '.'],
        ]),
        '7' => Some(seq![
            seq!['#', '#', '#', '#', '#'],
            seq!['.', '.', '.', '.', '#'],
            seq!['.', '.', '.', '#', '.'],
            seq!['.', '.', '#', '.', '.'],
            seq!['.', '#', '.', '.', '.'],
            seq!['.', '#', '.', '.', '.'],
            seq!['.', '#', '.', '.', '.'],
        ]),
        '8' => Some(seq![
            seq!['.', '#', '#', '#', '.'],
            seq!['#', '.', '.', '.', '#'],
            seq!['#', '.', '.', '.', '#'],
            seq!['.', '#', '#', '#', '.'],
            seq!['#', '.', '.', '.', '#'],
            seq!['#', '.', '.', '.', '#'],
            seq!['.', '#', '#', '#', '.'],
        ]),
        '9' => Some(seq![
            seq!['.', '#', '#', '#', '.'],
            seq!['#', '.', '.', '.', '#'],
            seq!['#', '.', '.', '.', '#'],
            seq!['.', '#', '#', '#', '#'],
            seq!['.', '.', '.', '.', '#'],
            seq!['.', '.', '.', '.', '#'],
            seq!['.', '#', '#', '#', '.'],
        ]),
        ':' => Some(seq![
            seq!['.', '.', '.', '.', '.'],
            seq!['.', '.', '#', '.', '.'],
            seq!['.', '.', '#', '.', '.'],
            seq!['.', '.', '.', '.', '.'],
            seq!['.', '.', '#', '.', '.'],
            seq!['.', '.', '#', '.', '.'],
            seq!['.', '.', '.', '.', '.'],
        ]),
        ' ' => Some(seq![
            seq!['.', '.', '.', '.', '.'],
            seq!['.', '.', '.', '.', '.'],
            seq!['.', '.', '.', '.', '.'],
            seq!['.', '.', '.', '.', '.'],
            seq!['.', '.', '.', '.', '.'],
            seq!['.', '.', '.', '.', '.'],
            seq!['.', '.', '.', '.', '.'],
        ]),
        _ => None,
    }
}

/// The bitmap row of a row picture: the leftmost column is worth 16, the
/// rightmost 1.
pub open spec fn picture_row_bits(row: Seq<char>) -> int {
    (if row[0] == '#' {
        16int
    } else {
        0
    }) + (if row[1] == '#' {
        8int
    } else {
        0
    }) + (if row[2] == '#' {
        4int
    } else {
        0
    }) + (if row[3] == '#' {
        2int
    } else {
        0
    }) + (if row[4] == '#' {
        1int
    } else {
        0
    })
}

/// The font is the pictures: a character has a bitmap exactly when it has
/// a picture, and each of the seven rows of its bitmap is the row of its
/// picture read as a binary number.
pub proof fn lemma_font_is_the_pictures(c: char)
    ensures
        glyph_rows(c) is Some <==> glyph_picture(c) is Some,
        glyph_rows(c) is Some ==> glyph_rows(c).unwrap().len() == 7 && forall|i: int|
            0 <= i < 7 ==> #[trigger] glyph_rows(c).unwrap()[i] == picture_row_bits(
                glyph_picture(c).unwrap()[i],
            ),
{
    match c {
        'A' => lemma_picture_rows(glyph_rows(c).unwrap(), glyph_picture(c).unwrap()),
        'B' => lemma_picture_rows(glyph_rows(c).unwrap(), glyph_picture(c).unwrap()),
        'C' => lemma_picture_rows(glyph_rows(c).unwrap(), glyph_picture(c).unwrap()),
        'D' => lemma_picture_rows(glyph_rows(c).unwrap(), glyph_picture(c).unwrap()),
        'E' => lemma_picture_rows(glyph_rows(c).unwrap(), glyph_picture(c).unwrap()),
        'F' => lemma_picture_rows(glyph_rows(c).unwrap(), glyph_picture(c).unwrap()),
        'G' => lemma_picture_rows(glyph_rows(c).unwrap(), glyph_picture(c).unwrap()),
        'H' => lemma_picture_rows(glyph_rows(c).unwrap(), glyph_picture(c).unwrap()),
        'I' => lemma_picture_rows(glyph_rows(c).unwrap(), glyph_picture(c).unwrap()),
        'J' => lemma_picture_rows(glyph_rows(c).unwrap(), glyph_picture(c).unwrap()),
        'K' => lemma_picture_rows(glyph_rows(c).unwrap(), glyph_picture(c).unwrap()),
        'L' => lemma_picture_rows(glyph_rows(c).unwrap(), glyph_picture(c).unwrap()),
        'M' => lemma_picture_rows(glyph_rows(c).unwrap(), glyph_picture(c).unwrap()),
        'N' => lemma_picture_rows(glyph_rows(c).unwrap(), glyph_picture(c).unwrap()),
        'O' => lemma_picture_rows(glyph_rows(c).unwrap(), glyph_picture(c).unwrap()),
        'P' => lemma_picture_rows(glyph_rows(c).unwrap(), glyph_picture(c).unwrap()),
        'Q' => lemma_picture_rows(glyph_rows(c).unwrap(), glyph_picture(c).unwrap()),
        'R' => lemma_picture_rows(glyph_rows(c).unwrap(), glyph_picture(c).unwrap()),
        'S' => lemma_picture_rows(glyph_rows(c).unwrap(), glyph_picture(c).unwrap()),
        'T' => lemma_picture_rows(glyph_rows(c).unwrap(), glyph_picture(c).unwrap()),
        'U' => lemma_picture_rows(glyph_rows(c).unwrap(), glyph_picture(c).unwrap()),
        'V' => lemma_picture_rows(glyph_rows(c).unwrap(), glyph_picture(c).unwrap()),
        'W' => lemma_picture_rows(glyph_rows(c).unwrap(), glyph_picture(c).unwrap()),
        'X' => lemma_picture_rows(glyph_rows(c).unwrap(), glyph_picture(c).unwrap()),
        'Y' => lemma_picture_rows(glyph_rows(c).unwrap(), glyph_picture(c).unwrap()),
        'Z' => lemma_picture_rows(glyph_rows(c).unwrap(), glyph_picture(c).unwrap()),
        '0' => lemma_picture_rows(glyph_rows(c).unwrap(), glyph_picture(c).unwrap()),
        '1' => lemma_picture_rows(glyph_rows(c).unwrap(), glyph_picture(c).unwrap()),
        '2' => lemma_picture_rows(glyph_rows(c).unwrap(), glyph_picture(c).unwrap()),
        '3' => lemma_picture_rows(glyph_rows(c).unwrap(), glyph_picture(c).unwrap()),
        '4' => lemma_picture_rows(glyph_rows(c).unwrap(), glyph_picture(c).unwrap()),
        '5' => lemma_picture_rows(glyph_rows(c).unwrap(), glyph_picture(c).unwrap()),
        '6' => lemma_picture_rows(glyph_rows(c).unwrap(), glyph_picture(c).unwrap()),
        '7' => lemma_picture_rows(glyph_rows(c).unwrap(), glyph_picture(c).unwrap()),
        '8' => lemma_picture_rows(glyph_rows(c).unwrap(), glyph_picture(c).unwrap()),
        '9' => lemma_picture_rows(glyph_rows(c).unwrap(), glyph_picture(c).unwrap()),
        ':' => lemma_picture_rows(glyph_rows(c).unwrap(), glyph_picture(c).unwrap()),
        ' ' => lemma_picture_rows(glyph_rows(c).unwrap(), glyph_picture(c).unwrap()),
        _ => {},
    }
}

proof fn lemma_picture_rows(rows: Seq<u8>, picture: Seq<Seq<char>>)
    requires
        rows.len() == 7,
        rows[0] == picture_row_bits(picture[0]),
        rows[1] == picture_row_bits(picture[1]),
        rows[2] == picture_row_bits(picture[2]),
        rows[3] == picture_row_bits(picture[3]),
        rows[4] == picture_row_bits(picture[4]),
        rows[5] == picture_row_bits(picture[5]),
        rows[6] == picture_row_bits(picture[6]),
    ensures
        forall|i: int| 0 <= i < 7 ==> #[trigger] rows[i] == picture_row_bits(picture[i]),
{
}

/// A letter in lower case has the bitmap of the same letter in upper case.
pub proof fn lemma_lower_case_letters()
    ensures
        glyph_rows(ascii_upper('a')) == glyph_rows('A'),
        glyph_rows(ascii_upper('b')) == glyph_rows('B'),
        glyph_rows(ascii_upper('c')) == glyph_rows('C'),
        glyph_rows(ascii_upper('d')) == glyph_rows('D'),
        glyph_rows(ascii_upper('e')) == glyph_rows('E'),
        glyph_rows(ascii_upper('f')) == glyph_rows('F'),
        glyph_rows(ascii_upper('g')) == glyph_rows('G'),
        glyph_rows(ascii_upper('h')) == glyph_rows('H'),
        glyph_rows(ascii_upper('i')) == glyph_rows('I'),
        glyph_rows(ascii_upper('j')) == glyph_rows('J'),
        glyph_rows(ascii_upper('k')) == glyph_rows('K'),
        glyph_rows(ascii_upper('l')) == glyph_rows('L'),
        glyph_rows(ascii_upper('m')) == glyph_rows('M'),
        glyph_rows(ascii_upper('n')) == glyph_rows('N'),
        glyph_rows(ascii_upper('o')) == glyph_rows('O'),
        glyph_rows(ascii_upper('p')) == glyph_rows('P'),
        glyph_rows(ascii_upper('q')) == glyph_rows('Q'),
        glyph_rows(ascii_upper('r')) == glyph_rows('R'),
        glyph_rows(ascii_upper('s')) == glyph_rows('S'),
        glyph_rows(ascii_upper('t')) == glyph_rows('T'),
        glyph_rows(ascii_upper('u')) == glyph_rows('U'),
        glyph_rows(ascii_upper('v')) == glyph_rows('V'),
        glyph_rows(ascii_upper('w')) == glyph_rows('W'),
        glyph_rows(ascii_upper('x')) == glyph_rows('X'),
        glyph_rows(ascii_upper('y')) == glyph_rows('Y'),
        glyph_rows(ascii_upper('z')) == glyph_rows('Z'),
{
}

/// A number that tells bitmaps apart: the seven rows as the digits of a
/// number in base 32, the top row last.
spec fn rows_code(rows: Seq<u8>) -> int {
    rows[0] + 32 * (rows[1] + 32 * (rows[2] + 32 * (rows[3] + 32 * (rows[4] + 32 * (rows[5] + 32
        * rows[6])))))
}

/// The glyph whose bitmap has the code `code` (see `rows_code`).
spec fn glyph_of_code(code: int) -> char {
    if code == 18842895918 {
        'A'
    } else if code == 32801506878 {
        'B'
    } else if code == 16660316687 {
        'C'
    } else if code == 32801080894 {
        'D'
    } else if code == 33840644639 {
        'E'
    } else if code == 17734517279 {
        'F'
    } else if code == 15621407247 {
        'G'
    } else if code == 18842895921 {
        'H'
    } else if code == 33424543903 {
        'I'
    } else if code == 13507823687 {
        'J'
    } else if code == 18879369809 {
        'K'
    } else if code == 33840185872 {
        'L'
    } else if code == 18842572657 {
        'M'
    } else if code == 18842507057 {
        'N'
    } else if code == 15621211694 {
        'O'
    } else if code == 17734518334 {
        'P'
    } else if code == 14585218606 {
        'Q'
    } else if code == 18879563326 {
        'R'
    } else if code == 32247333391 {
        'S'
    } else if code == 4433514655 {
        'T'
    } else if code == 15621211697 {
        'U'
    } else if code == 4648912433 {
        'V'
    } else if code == 19182306865 {
        'W'
    } else if code == 18834663985 {
        'X'
    } else if code == 4433521201 {
        'Y'
    } else if code == 33831389247 {
        'Z'
    } else if code == 15629733422 {
        '0'
    } else if code == 15170933124 {
        '1'
    } else if code == 33558693422 {
        '2'
    } else if code == 32247317566 {
        '3'
    } else if code == 2247698626 {
        '4'
    } else if code == 32247857695 {
        '5'
    } else if code == 15621636622 {
        '6'
    } else if code == 8866891839 {
        '7'
    } else if code == 15621113390 {
        '8'
    } else if code == 15067498030 {
        '9'
    } else if code == 138416256 {
        ':'
    } else if code == 0 {
        ' '
    } else {
        ' '
    }
}

proof fn lemma_code_identifies_glyph(c: char)
    requires
        glyph_rows(c) is Some,
    ensures
        glyph_of_code(rows_code(glyph_rows(c).unwrap())) == c,
{
}

/// Distinct characters of the font have distinct bitmaps.
pub proof fn lemma_font_glyphs_distinct(a: char, b: char)
    ensures
        glyph_rows(a) is Some && glyph_rows(a) == glyph_rows(b) ==> a == b,
{
    if glyph_rows(a) is Some && glyph_rows(a) == glyph_rows(b) {
        lemma_code_identifies_glyph(a);
        lemma_code_identifies_glyph(b);
    }
}

/// The bitmap of a glyph, letters in either case.
pub fn bitmap(glyph: char) -> (rows: Option<[u8; GLYPH_HEIGHT]>)
    ensures
        match (rows, glyph_rows(ascii_upper(glyph))) {
            (Some(r), Some(expected)) => r@ == expected,
            (None, None) => true,
            _ => false,
        },
{
    let rows: [u8; GLYPH_HEIGHT] = match glyph {
        'A' | 'a' => [14, 17, 17, 31, 17, 17, 17],
        'B' | 'b' => [30, 17, 17, 30, 17, 17, 30],
        'C' | 'c' => [15, 16, 16, 16, 16, 16, 15],
        'D' | 'd' => [30, 17, 17, 17, 17, 17, 30],
        'E' | 'e' => [31, 16, 16, 30, 16, 16, 31],
        'F' | 'f' => [31, 16, 16, 30, 16, 16, 16],
        'G' | 'g' => [15, 16, 16, 23, 17, 17, 14],
        'H' | 'h' => [17, 17, 17, 31, 17, 17, 17],
        'I' | 'i' => [31, 4, 4, 4, 4, 4, 31],
        'J' | 'j' => [7, 2, 2, 2, 18, 18, 12],
        'K' | 'k' => [17, 18, 20, 24, 20, 18, 17],
        'L' | 'l' => [16, 16, 16, 16, 16, 16, 31],
        'M' | 'm' => [17, 27, 21, 21, 17, 17, 17],
        'N' | 'n' => [17, 25, 21, 19, 17, 17, 17],
        'O' | 'o' => [14, 17, 17, 17, 17, 17, 14],
        'P' | 'p' => [30, 17, 17, 30, 16, 16, 16],
        'Q' | 'q' => [14, 17, 17, 17, 21, 18, 13],
        'R' | 'r' => [30, 17, 17, 30, 20, 18, 17],
        'S' | 's' => [15, 16, 16, 14, 1, 1, 30],
        'T' | 't' => [31, 4, 4, 4, 4, 4, 4],
        'U' | 'u' => [17, 17, 17, 17, 17, 17, 14],
        'V' | 'v' => [17, 17, 17, 17, 17, 10, 4],
        'W' | 'w' => [17, 17, 17, 21, 21, 27, 17],
        'X' | 'x' => [17, 17, 10, 4, 10, 17, 17],
        'Y' | 'y' => [17, 17, 10, 4, 4, 4, 4],
        'Z' | 'z' => [31, 1, 2, 4, 8, 16, 31],
        '0' => [14, 17, 19, 21, 25, 17, 14],
        '1' => [4, 12, 4, 4, 4, 4, 14],
        '2' => [14, 17, 1, 2, 4, 8, 31],
        '3' => [30, 1, 1, 14, 1, 1, 30],
        '4' => [2, 6, 10, 18, 31, 2, 2],
        '5' => [31, 16, 16, 30, 1, 1, 30],
        '6' => [14, 16, 16, 30, 17, 17, 14],
        '7' => [31, 1, 2, 4, 8, 8, 8],
        '8' => [14, 17, 17, 14, 17, 17, 14],
        '9' => [14, 17, 17, 15, 1, 1, 14],
        ':' => [0, 4, 4, 0, 4, 4, 0],
        ' ' => [0, 0, 0, 0, 0, 0, 0],
        _ => {
            return None;
        },
    };
    assert(rows@ =~= glyph_rows(ascii_upper(glyph)).unwrap());
    Some(rows)
}

/// Whether column `col` (0 is the leftmost) of a bitmap row is lit.
pub open spec fn pixel_lit(mask: u8, col: int) -> bool {
    mask & (1u8 << ((4 - col) as u8)) != 0
}

/// The lit pixels among the first `count` columns of a bitmap row, as
/// (column, row) pairs with the columns offset by `base`.
pub open spec fn row_pixels(mask: u8, base: int, row: int, count: int) -> Seq<(int, int)>
    decreases count,
{
    if count <= 0 {
        seq![]
    } else {
        row_pixels(mask, base, row, count - 1) + if pixel_lit(mask, count - 1) {
            seq![(base + count - 1, row)]
        } else {
            seq![]
        }
    }
}

/// The lit pixels among the first `count` rows of a bitmap, row by row.
pub open spec fn glyph_pixels(rows: Seq<u8>, base: int, count: int) -> Seq<(int, int)>
    decreases count,
{
    if count <= 0 {
        seq![]
    } else {
        glyph_pixels(rows, base, count - 1) + row_pixels(rows[count - 1], base, count - 1, 5)
    }
}

/// The lit pixels of the first `count` characters of a text set in a row,
/// each glyph five columns wide with one blank column after it; characters
/// without a glyph leave their place empty.
pub open spec fn text_pixels(text: Seq<char>, count: int) -> Seq<(int, int)>
    decreases count,
{
    if count <= 0 {
        seq![]
    } else {
        text_pixels(text, count - 1) + match glyph_rows(ascii_upper(text[count - 1])) {
            Some(rows) => glyph_pixels(rows, 6 * (count - 1), 7),
            None => seq![],
        }
    }
}

/// The least column among the first `count` pixels.
pub open spec fn min_column(pixels: Seq<(int, int)>, count: int) -> int
    decreases count,
{
    if count <= 1 {
        pixels[0].0
    } else if pixels[count - 1].0 < min_column(pixels, count - 1) {
        pixels[count - 1].0
    } else {
        min_column(pixels, count - 1)
    }
}

/// The greatest column among the first `count` pixels.
pub open spec fn max_column(pixels: Seq<(int, int)>, count: int) -> int
    decreases count,
{
    if count <= 1 {
        pixels[0].0
    } else if pixels[count - 1].0 > max_column(pixels, count - 1) {
        pixels[count - 1].0
    } else {
        max_column(pixels, count - 1)
    }
}

/// The lit pixels of a text as points in half-cell units, centred: x grows
/// to the right and is centred between the leftmost and rightmost lit
/// columns, y grows upwards from the middle row of the glyphs.
pub open spec fn text_points(text: Seq<char>) -> Seq<(int, int)> {
    let pixels = text_pixels(text, text.len() as int);
    let low = min_column(pixels, pixels.len() as int);
    let high = max_column(pixels, pixels.len() as int);
    pixels.map_values(|p: (int, int)| (2 * p.0 - (low + high), 6 - 2 * p.1))
}

/// Pairs of machine integers read as pairs of integers.
pub open spec fn int_pairs(v: Seq<(i64, i64)>) -> Seq<(int, int)> {
    v.map_values(|p: (i64, i64)| (p.0 as int, p.1 as int))
}

/// The least and greatest column depend only on the pixels they range over.
proof fn lemma_extremes_prefix(a: Seq<(int, int)>, b: Seq<(int, int)>, count: int)
    requires
        0 <= count <= a.len(),
        count <= b.len(),
        forall|i: int| 0 <= i < count ==> a[i] == b[i],
    ensures
        count > 0 ==> min_column(a, count) == min_column(b, count),
        count > 0 ==> max_column(a, count) == max_column(b, count),
    decreases count,
{
    if count > 1 {
        lemma_extremes_prefix(a, b, count - 1);
    }
}

/// The least and greatest column bound every column.
proof fn lemma_extremes_bound(a: Seq<(int, int)>, count: int, i: int)
    requires
        0 <= i < count <= a.len(),
    ensures
        min_column(a, count) <= a[i].0 <= max_column(a, count),
    decreases count,
{
    if i < count - 1 {
        lemma_extremes_bound(a, count - 1, i);
    }
}

/// The least and greatest column are columns of some pixels.
proof fn lemma_extremes_attained(a: Seq<(int, int)>, count: int)
    requires
        0 < count <= a.len(),
    ensures
        exists|i: int| 0 <= i < count && a[i].0 == min_column(a, count),
        exists|i: int| 0 <= i < count && a[i].0 == max_column(a, count),
    decreases count,
{
    if count > 1 {
        lemma_extremes_attained(a, count - 1);
    } else {
        assert(a[0].0 == min_column(a, count));
        assert(a[0].0 == max_column(a, count));
    }
}

/// Text geometry is centred: the leftmost and the rightmost point lie at
/// equal distances on either side of x = 0.
pub proof fn lemma_text_points_centered(text: Seq<char>)
    requires
        text_points(text).len() > 0,
    ensures
        exists|i: int, j: int|
            0 <= i < text_points(text).len() && 0 <= j < text_points(text).len() && text_points(
                text,
            )[i].0 + text_points(text)[j].0 == 0 && forall|k: int|
                0 <= k < text_points(text).len() ==> text_points(text)[i].0 <= #[trigger] text_points(
                    text,
                )[k].0 <= text_points(text)[j].0,
{
    let pixels = text_pixels(text, text.len() as int);
    let n = pixels.len() as int;
    let low = min_column(pixels, n);
    let high = max_column(pixels, n);
    let tp = text_points(text);
    lemma_extremes_attained(pixels, n);
    let i = choose|i: int| 0 <= i < n && pixels[i].0 == low;
    let j = choose|j: int| 0 <= j < n && pixels[j].0 == high;
    assert forall|k: int| 0 <= k < tp.len() implies tp[i].0 <= #[trigger] tp[k].0 <= tp[j].0 by {
        lemma_extremes_bound(pixels, n, k);
    }
    assert(tp[i].0 + tp[j].0 == 0);
}

/// The lit pixels of `text` as centred points, doubled so that they are
/// whole numbers: (2x, 2y) for each point (x, y) of the text geometry.
pub fn half_cell_points(text: &str) -> (points: Vec<(i64, i64)>)
    requires
        text@.len() <= 0x0fff_ffff_ffff,
    ensures
        int_pairs(points@) == text_points(text@),
{
    let n = text.unicode_len();
    let ghost chars = text@;
    let mut pixels: Vec<(i64, i64)> = Vec::new();
    let mut low: i64 = 0;
    let mut high: i64 = 0;
    let mut g: usize = 0;
    while g < n
        invariant
            n == chars.len(),
            chars == text@,
            n <= 0x0fff_ffff_ffff,
            g <= n,
            int_pairs(pixels@) == text_pixels(chars, g as int),
            forall|i: int| 0 <= i < pixels@.len() ==> 0 <= #[trigger] pixels@[i].0 < 6 * g,
            forall|i: int| 0 <= i < pixels@.len() ==> 0 <= #[trigger] pixels@[i].1 < 7,
            pixels@.len() > 0 ==> low == min_column(int_pairs(pixels@), pixels@.len() as int),
            pixels@.len() > 0 ==> high == max_column(int_pairs(pixels@), pixels@.len() as int),
        decreases n - g,
    {
        let glyph = text.get_char(g);
        let ghost before = int_pairs(pixels@);
        let base: i64 = 6 * (g as i64);
        match bitmap(glyph) {
            None => {
                assert(text_pixels(chars, g + 1) =~= text_pixels(chars, g as int));
            },
            Some(rows) => {
                let ghost bits = rows@;
                let mut row: usize = 0;
                while row < GLYPH_HEIGHT
                    invariant
                        row <= 7,
                        g < n,
                        n <= 0x0fff_ffff_ffff,
                        base == 6 * g,
                        bits == rows@,
                        bits.len() == 7,
                        int_pairs(pixels@) == before + glyph_pixels(bits, base as int, row as int),
                        forall|i: int| 0 <= i < pixels@.len() ==> 0 <= #[trigger] pixels@[i].0 < 6 * g + 6,
                        forall|i: int| 0 <= i < pixels@.len() ==> 0 <= #[trigger] pixels@[i].1 < 7,
                        pixels@.len() > 0 ==> low == min_column(int_pairs(pixels@), pixels@.len() as int),
                        pixels@.len() > 0 ==> high == max_column(int_pairs(pixels@), pixels@.len() as int),
                    decreases 7 - row,
                {
                    let mask = rows[row];
                    let ghost row_start = int_pairs(pixels@);
                    let mut column: usize = 0;
                    while column < GLYPH_WIDTH
                        invariant
                            row < 7,
                            column <= 5,
                            g < n,
                            n <= 0x0fff_ffff_ffff,
                            base == 6 * g,
                            int_pairs(pixels@) == row_start + row_pixels(mask, base as int, row as int, column as int),
                            forall|i: int| 0 <= i < pixels@.len() ==> 0 <= #[trigger] pixels@[i].0 < 6 * g + 6,
                            forall|i: int| 0 <= i < pixels@.len() ==> 0 <= #[trigger] pixels@[i].1 < 7,
                            pixels@.len() > 0 ==> low == min_column(int_pairs(pixels@), pixels@.len() as int),
                            pixels@.len() > 0 ==> high == max_column(int_pairs(pixels@), pixels@.len() as int),
                        decreases 5 - column,
                    {
                        let ghost old_pixels = pixels@;
                        if mask & (1u8 << ((4 - column) as u8)) != 0 {
                            let u: i64 = base + column as i64;
                            let r: i64 = row as i64;
                            if pixels.len() == 0 || u < low {
                                low = u;
                            }
                            if pixels.len() == 0 || u > high {
                                high = u;
                            }
                            pixels.push((u, r));
                            proof {
                                let a = int_pairs(old_pixels);
                                let b = int_pairs(pixels@);
                                assert(b =~= a.push((u as int, r as int)));
                                if old_pixels.len() > 0 {
                                    lemma_extremes_prefix(a, b, a.len() as int);
                                }
                            }
                        }
                        proof {
                            assert(int_pairs(pixels@) =~= row_start + row_pixels(
                                mask,
                                base as int,
                                row as int,
                                column + 1,
                            ));
                        }
                        column = column + 1;
                    }
                    proof {
                        assert(int_pairs(pixels@) =~= before + glyph_pixels(bits, base as int, row + 1));
                    }
                    row = row + 1;
                }
                proof {
                    assert(text_pixels(chars, g + 1) =~= text_pixels(chars, g as int) + glyph_pixels(
                        bits,
                        6 * g,
                        7,
                    ));
                }
            },
        }
        g = g + 1;
    }
    let ghost all = int_pairs(pixels@);
    assert(all == text_pixels(chars, n as int));
    proof {
        if pixels@.len() > 0 {
            lemma_extremes_attained(all, all.len() as int);
            let a = choose|k: int| 0 <= k < all.len() && all[k].0 == min_column(all, all.len() as int);
            let b = choose|k: int| 0 <= k < all.len() && all[k].0 == max_column(all, all.len() as int);
            assert(pixels@[a].0 == all[a].0);
            assert(pixels@[b].0 == all[b].0);
        }
    }
    let mut points: Vec<(i64, i64)> = Vec::new();
    let mut i: usize = 0;
    while i < pixels.len()
        invariant
            all == int_pairs(pixels@),
            i <= pixels@.len(),
            forall|k: int| 0 <= k < pixels@.len() ==> 0 <= #[trigger] pixels@[k].0 < 6 * n,
            forall|k: int| 0 <= k < pixels@.len() ==> 0 <= #[trigger] pixels@[k].1 < 7,
            n <= 0x0fff_ffff_ffff,
            pixels@.len() > 0 ==> low == min_column(all, all.len() as int),
            pixels@.len() > 0 ==> high == max_column(all, all.len() as int),
            pixels@.len() > 0 ==> 0 <= low && high < 6 * n,
            int_pairs(points@) == text_points(chars).take(i as int),
            chars == text@,
            all == text_pixels(chars, chars.len() as int),
        decreases pixels@.len() - i,
    {
        let (u, r) = pixels[i];
        let ghost old_points = points@;
        points.push((2 * u - (low + high), 6 - 2 * r));
        proof {
            let tp = text_points(chars);
            assert(tp.len() == all.len());
            assert(int_pairs(points@) =~= int_pairs(old_points).push(
                ((2 * u - (low + high)) as int, (6 - 2 * r) as int),
            ));
            assert(tp.take(i + 1) =~= tp.take(i as int).push(tp[i as int]));
            assert(all[i as int] == (u as int, r as int));
            assert(text_points(chars)[i as int] == (2 * all[i as int].0 - (low + high), 6 - 2 * all[
                i as int].1));
            assert(int_pairs(points@) =~= text_points(chars).take(i + 1));
        }
        i = i + 1;
    }
    proof {
        assert(text_points(chars).take(i as int) =~= text_points(chars));
    }
    points
}

} // verus!
