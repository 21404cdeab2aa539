//! Turning recognised text into cards, and the records kept of a scan.
use vstd::prelude::*;

use crate::strategy::RecognizedCard;
use crate::text::{
    chars_of, join_with, string_of, string_views, trim, trim_chars, join_strings,
};

verus! {

/// An RGBA picture: width, height and four bytes per pixel, row by row.
#[derive(Debug, Clone)]
pub struct ImagePreview {
    pub width: u32,
    pub height: u32,
    pub rgba: Vec<u8>,
}

/// What was read from one shop slot, with the pictures it was read from.
#[derive(Debug, Clone)]
pub struct SlotDebugInfo {
    pub slot: usize,
    pub recognized: bool,
    pub price_ocr: String,
    pub name_ocr: String,
    pub price_roi: Option<ImagePreview>,
    pub name_roi: Option<ImagePreview>,
}

/// The pictures and readings of one scan.
#[derive(Debug, Clone)]
pub struct ScanDebugResult {
    pub full_frame: Option<ImagePreview>,
    pub annotated_frame: Option<ImagePreview>,
    pub recognized_frame: Option<ImagePreview>,
    pub slots: Vec<SlotDebugInfo>,
}

impl Default for ScanDebugResult {
    fn default() -> (r: Self)
        ensures
            r.full_frame is None,
            r.annotated_frame is None,
            r.recognized_frame is None,
            r.slots@.len() == 0,
    {
        ScanDebugResult {
            full_frame: None,
            annotated_frame: None,
            recognized_frame: None,
            slots: Vec::new(),
        }
    }
}

/// The cards and the records of one scan.
#[derive(Debug, Clone)]
pub struct ScanOutcome {
    pub cards: Vec<RecognizedCard>,
    pub debug: ScanDebugResult,
}

/// The digit a character misread in a number stands for: `O o Q D` for 0,
/// `I l i` for 1, `Z z` for 2, `S s` for 5, `B` for 8, `b` for 6, `g q` for 9;
/// other characters are kept.
pub open spec fn digit_reading(c: char) -> char {
    if c == 'O' || c == 'o' || c == 'Q' || c == 'D' {
        '0'
    } else if c == 'I' || c == 'l' || c == 'i' {
        '1'
    } else if c == 'Z' || c == 'z' {
        '2'
    } else if c == 'S' || c == 's' {
        '5'
    } else if c == 'B' {
        '8'
    } else if c == 'b' {
        '6'
    } else if c == 'g' || c == 'q' {
        '9'
    } else {
        c
    }
}

/// Whether a character is an ASCII digit.
pub open spec fn is_ascii_digit(c: char) -> bool {
    '0' <= c && c <= '9'
}

/// The number read from a text: every character is read as a digit where
/// it can be, and only the ASCII digits are kept.
pub open spec fn digits_read(s: Seq<char>) -> Seq<char> {
    s.map_values(|c: char| digit_reading(c)).filter(|c: char| is_ascii_digit(c))
}

/// A recognised text cleaned up: for a number, the digits read from it;
/// otherwise the text trimmed.
pub open spec fn cleaned_ocr(s: Seq<char>, number_only: bool) -> Seq<char> {
    if number_only {
        digits_read(s)
    } else {
        trim(s)
    }
}

/// Cleaning a number text reads it character by character: the cleaned
/// text of two texts written one after the other is the cleaned text of the
/// first followed by that of the second.
pub proof fn lemma_number_text_reads_piecewise(s: Seq<char>, t: Seq<char>)
    ensures
        cleaned_ocr(s + t, true) == cleaned_ocr(s, true) + cleaned_ocr(t, true),
{
    let f = |c: char| digit_reading(c);
    assert((s + t).map_values(f) =~= s.map_values(f) + t.map_values(f));
    Seq::filter_distributes_over_add(s.map_values(f), t.map_values(f), |c: char| is_ascii_digit(c));
}

/// In a number text each look-alike letter is read as its digit: `O o Q D`
/// as 0, `I l i` as 1, `Z z` as 2, `S s` as 5, `B` as 8, `b` as 6, `g q` as
/// 9; a digit is kept; any other character is dropped.
pub proof fn lemma_number_text_character(c: char)
    ensures
        (c == 'O' || c == 'o' || c == 'Q' || c == 'D') ==> cleaned_ocr(seq![c], true) == seq!['0'],
        (c == 'I' || c == 'l' || c == 'i') ==> cleaned_ocr(seq![c], true) == seq!['1'],
        (c == 'Z' || c == 'z') ==> cleaned_ocr(seq![c], true) == seq!['2'],
        (c == 'S' || c == 's') ==> cleaned_ocr(seq![c], true) == seq!['5'],
        c == 'B' ==> cleaned_ocr(seq![c], true) == seq!['8'],
        c == 'b' ==> cleaned_ocr(seq![c], true) == seq!['6'],
        (c == 'g' || c == 'q') ==> cleaned_ocr(seq![c], true) == seq!['9'],
        ('0' <= c && c <= '9') ==> cleaned_ocr(seq![c], true) == seq![c],
        !('0' <= c && c <= '9') && !(c == 'O' || c == 'o' || c == 'Q' || c == 'D' || c == 'I' || c == 'l'
            || c == 'i' || c == 'Z' || c == 'z' || c == 'S' || c == 's' || c == 'B' || c == 'b' || c
            == 'g' || c == 'q') ==> cleaned_ocr(seq![c], true) == Seq::<char>::empty(),
{
    reveal(Seq::filter);
    let m = seq![c].map_values(|x: char| digit_reading(x));
    assert(m =~= seq![digit_reading(c)]);
    assert(m.drop_last() =~= Seq::<char>::empty());
    assert(m.drop_last().filter(|x: char| is_ascii_digit(x)) =~= Seq::<char>::empty());
    assert(m.last() == digit_reading(c));
}

fn read_digit(c: char) -> (d: char)
    ensures
        d == digit_reading(c),
{
    if c == 'O' || c == 'o' || c == 'Q' || c == 'D' {
        '0'
    } else if c == 'I' || c == 'l' || c == 'i' {
        '1'
    } else if c == 'Z' || c == 'z' {
        '2'
    } else if c == 'S' || c == 's' {
        '5'
    } else if c == 'B' {
        '8'
    } else if c == 'b' {
        '6'
    } else if c == 'g' || c == 'q' {
        '9'
    } else {
        c
    }
}

/// Cleans up a recognised text: for a number, the digits read from it;
/// otherwise the text trimmed.
pub fn clean_ocr_text(text: &str, number_only: bool) -> (r: String)
    ensures
        r@ == cleaned_ocr(text@, number_only),
{
    let v = chars_of(text);
    if !number_only {
        let t = trim_chars(&v);
        return string_of(&t);
    }
    let mut out: Vec<char> = Vec::new();
    let mut i: usize = 0;
    while i < v.len()
        invariant
            i <= v@.len(),
            out@ == digits_read(v@.subrange(0, i as int)),
        decreases v@.len() - i,
    {
        proof {
            reveal(Seq::filter);
            let mapped = v@.subrange(0, i + 1).map_values(|c: char| digit_reading(c));
            assert(mapped.drop_last() =~= v@.subrange(0, i as int).map_values(
                |c: char| digit_reading(c),
            ));
        }
        let d = read_digit(v[i]);
        if '0' <= d && d <= '9' {
            out.push(d);
        }
        i = i + 1;
    }
    assert(v@.subrange(0, v@.len() as int) =~= v@);
    string_of(&out)
}

/// The raw text of a recognition: the best result's text if there is one,
/// else the texts of the filtered results joined with spaces.
pub open spec fn detail_text(best: Option<Seq<char>>, filtered: Option<Seq<Seq<char>>>) -> Option<
    Seq<char>,
> {
    match best {
        Some(t) => Some(t),
        None => match filtered {
            Some(parts) => Some(join_with(parts, seq![' '])),
            None => None,
        },
    }
}

/// The cleaned text of a recognition, from the best result's text or the
/// texts of the filtered results.
pub fn ocr_text_from_detail(best: Option<String>, filtered: Option<Vec<String>>, number_only: bool) -> (r:
    Option<String>)
    ensures
        r is Some <==> detail_text(
            match best {
                Some(t) => Some(t@),
                None => None,
            },
            match filtered {
                Some(p) => Some(string_views(p@)),
                None => None,
            },
        ) is Some,
        r matches Some(t) ==> t@ == cleaned_ocr(
            detail_text(
                match best {
                    Some(t) => Some(t@),
                    None => None,
                },
                match filtered {
                    Some(p) => Some(string_views(p@)),
                    None => None,
                },
            )->0,
            number_only,
        ),
{
    let raw = match best {
        Some(t) => t,
        None => match filtered {
            Some(parts) => {
                let sep = " ";
                proof {
                    reveal_strlit(" ");
                }
                assert(sep@ =~= seq![' ']);
                join_strings(&parts, sep)
            },
            None => {
                return None;
            },
        },
    };
    Some(clean_ocr_text(raw.as_str(), number_only))
}

/// Whether a recognition gave a usable text: one that is not blank.
pub fn accept_ocr_text(text: &Option<String>) -> (b: bool)
    ensures
        b == (text matches Some(t) && trim(t@).len() > 0),
{
    match text {
        Some(t) => {
            let v = chars_of(t.as_str());
            trim_chars(&v).len() > 0
        },
        None => false,
    }
}

/// The value of a sequence of decimal digits.
pub open spec fn decimal_value(s: Seq<char>) -> int
    decreases s.len(),
{
    if s.len() == 0 {
        0
    } else {
        10 * decimal_value(s.drop_last()) + (s.last() as int - '0' as int)
    }
}

/// All characters are ASCII digits.
pub open spec fn all_digits(s: Seq<char>) -> bool {
    forall|i: int| 0 <= i < s.len() ==> is_ascii_digit(#[trigger] s[i])
}

/// `i32::from_str`: an optional `+` or `-`, then at least one ASCII digit,
/// the value fitting in an `i32`.
pub open spec fn parse_i32(s: Seq<char>) -> Option<i32> {
    let negative = s.len() > 0 && s[0] == '-';
    let signed = s.len() > 0 && (s[0] == '-' || s[0] == '+');
    let digits = if signed {
        s.drop_first()
    } else {
        s
    };
    let value = if negative {
        -decimal_value(digits)
    } else {
        decimal_value(digits)
    };
    if digits.len() > 0 && all_digits(digits) && i32::MIN <= value <= i32::MAX {
        Some(value as i32)
    } else {
        None
    }
}

/// The price read for a card: the text parsed as an `i32`, or -1 when it is
/// not one.
pub open spec fn price_of(s: Seq<char>) -> i32 {
    match parse_i32(s) {
        Some(v) => v,
        None => -1i32,
    }
}

proof fn lemma_decimal_value_nonneg(s: Seq<char>)
    requires
        all_digits(s),
    ensures
        decimal_value(s) >= 0,
    decreases s.len(),
{
    if s.len() > 0 {
        assert(all_digits(s.drop_last())) by {
            assert forall|i: int| 0 <= i < s.drop_last().len() implies is_ascii_digit(
                #[trigger] s.drop_last()[i],
            ) by {
                assert(s.drop_last()[i] == s[i]);
            }
        }
        lemma_decimal_value_nonneg(s.drop_last());
        assert(is_ascii_digit(s[s.len() - 1]));
    }
}

proof fn lemma_decimal_value_grows(s: Seq<char>, c: char)
    requires
        all_digits(s),
        is_ascii_digit(c),
    ensures
        decimal_value(s.push(c)) >= decimal_value(s),
        decimal_value(s.push(c)) == 10 * decimal_value(s) + (c as int - '0' as int),
{
    lemma_decimal_value_nonneg(s);
    assert(s.push(c).drop_last() =~= s);
}

proof fn lemma_decimal_value_prefix_bound(s: Seq<char>, i: int)
    requires
        all_digits(s),
        0 <= i <= s.len(),
    ensures
        decimal_value(s.subrange(0, i)) <= decimal_value(s),
    decreases s.len() - i,
{
    if i < s.len() {
        lemma_decimal_value_prefix_bound(s, i + 1);
        let p = s.subrange(0, i);
        assert(s.subrange(0, i + 1) =~= p.push(s[i]));
        assert(all_digits(p)) by {
            assert forall|j: int| 0 <= j < p.len() implies is_ascii_digit(#[trigger] p[j]) by {
                assert(p[j] == s[j]);
            }
        }
        lemma_decimal_value_grows(p, s[i]);
    } else {
        assert(s.subrange(0, i) =~= s);
    }
}

/// Parses a price the way the price of a card is read: the value of the text
/// as an `i32`, or -1.
pub fn parse_price(text: &str) -> (p: i32)
    ensures
        p == price_of(text@),
{
    let v = chars_of(text);
    let n = v.len();
    if n == 0 {
        return -1;
    }
    let negative = v[0] == '-';
    let signed = v[0] == '-' || v[0] == '+';
    let start: usize = if signed {
        1
    } else {
        0
    };
    let ghost digits = if signed {
        v@.drop_first()
    } else {
        v@
    };
    assert(digits =~= v@.subrange(start as int, n as int));
    if start == n {
        return -1;
    }
    let mut value: i64 = 0;
    let mut i = start;
    while i < n
        invariant
            start <= i <= n,
            n == v@.len(),
            n > 0,
            v@ == text@,
            signed == (v@[0] == '-' || v@[0] == '+'),
            negative == (v@[0] == '-'),
            start == (if signed {
                1usize
            } else {
                0usize
            }),
            digits == (if signed {
                v@.drop_first()
            } else {
                v@
            }),
            digits == v@.subrange(start as int, n as int),
            all_digits(digits.subrange(0, i - start)),
            value as int == decimal_value(digits.subrange(0, i - start)),
            0 <= value <= 0x8000_0000,
        decreases n - i,
    {
        let c = v[i];
        if !('0' <= c && c <= '9') {
            assert(digits[i - start] == c);
            assert(!all_digits(digits));
            return -1;
        }
        let ghost before = digits.subrange(0, i - start);
        assert(digits.subrange(0, i + 1 - start) =~= before.push(c));
        proof {
            lemma_decimal_value_grows(before, c);
        }
        let next = value * 10 + (c as u32 - '0' as u32) as i64;
        if next > 0x8000_0000 {
            proof {
                assert(all_digits(before.push(c)));
                if all_digits(digits) {
                    lemma_decimal_value_prefix_bound(digits, i + 1 - start);
                }
            }
            return -1;
        }
        value = next;
        i = i + 1;
        assert(all_digits(digits.subrange(0, i - start))) by {
            assert forall|j: int| 0 <= j < i - start implies is_ascii_digit(
                #[trigger] digits.subrange(0, i - start)[j],
            ) by {
                if j < i - 1 - start {
                    assert(digits.subrange(0, i - start)[j] == before[j]);
                }
            }
        }
    }
    assert(digits.subrange(0, n - start) =~= digits);
    if negative {
        (0 - value) as i32
    } else if value > 0x7fff_ffff {
        -1
    } else {
        value as i32
    }
}

/// What one slot's readings give: a card when the name is not blank, with
/// the price parsed (-1 when unreadable).
pub fn card_from_ocr(slot: usize, price_text: &str, name_text: &str) -> (r: Option<RecognizedCard>)
    ensures
        r is Some <==> trim(name_text@).len() > 0,
        r matches Some(c) ==> c.slot == slot && c.name@ == name_text@ && c.price == price_of(
            price_text@,
        ),
{
    let v = chars_of(name_text);
    if trim_chars(&v).len() == 0 {
        return None;
    }
    Some(RecognizedCard { slot, name: String::from_str(name_text), price: parse_price(price_text) })
}

/// The horizontal bounds of the six equal parts of the shop display that
/// are compared one by one: each part is a sixth of the width, rounded down,
/// and the last part reaches the right edge.
pub open spec fn shop_part(width: u32, index: int) -> (int, int) {
    let part = width as int / 6;
    let x = index * part;
    (x, if index == 5 {
        width as int - x
    } else {
        part
    })
}

/// Left edge and width of each of the six parts of the shop display.
pub fn split_into_six_bounds(width: u32) -> (parts: Vec<(u32, u32)>)
    ensures
        parts@.len() == 6,
        forall|i: int|
            0 <= i < 6 ==> parts@[i].0 as int == shop_part(width, i).0 && parts@[i].1 as int
                == shop_part(width, i).1,
{
    let part = width / 6;
    let mut parts: Vec<(u32, u32)> = Vec::new();
    let mut i: u32 = 0;
    while i < 6
        invariant
            i <= 6,
            part == width / 6,
            parts@.len() == i,
            forall|j: int|
                0 <= j < i ==> parts@[j].0 as int == shop_part(width, j).0 && parts@[j].1 as int
                    == shop_part(width, j).1,
        decreases 6 - i,
    {
        assert(i * part <= width) by (nonlinear_arith)
            requires
                i <= 6,
                part == width / 6,
        ;
        let x = i * part;
        let w = if i == 5 {
            width - x
        } else {
            part
        };
        parts.push((x, w));
        i = i + 1;
    }
    parts
}

} // verus!
