//! Byte offsets into the UTF-8 encoding of a text, as the parsers report
//! them, turned into the character positions the library works with.
use crate::text::string_of;
use vstd::prelude::*;
use vstd::utf8::{encode_scalar, encode_utf8};

verus! {

broadcast use vstd::utf8::char_is_scalar;

/// The byte offset, in the UTF-8 encoding of `s`, at which the character at
/// position `i` starts (the length of the encoding for `i == s.len()`).
pub open spec fn byte_offset(s: Seq<char>, i: int) -> int {
    encode_utf8(s.take(i)).len() as int
}

/// The position of the character at which byte offset `b` falls, when it
/// falls between two characters (or at either end).
pub open spec fn char_at_byte(s: Seq<char>, b: int) -> Option<int> {
    if exists|i: int| 0 <= i <= s.len() && byte_offset(s, i) == b {
        Some(choose|i: int| 0 <= i <= s.len() && byte_offset(s, i) == b)
    } else {
        None
    }
}

/// The number of bytes of the UTF-8 encoding of `c`.
pub open spec fn utf8_width(c: char) -> int {
    let v = c as u32;
    if v <= 0x7F {
        1
    } else if v <= 0x7FF {
        2
    } else if v <= 0xFFFF {
        3
    } else {
        4
    }
}

proof fn lemma_encode_push(a: Seq<char>, c: char)
    ensures
        encode_utf8(a.push(c)) == encode_utf8(a) + encode_scalar(c as u32),
    decreases a.len(),
{
    if a.len() == 0 {
        assert(a.push(c).drop_first() =~= Seq::<char>::empty());
        assert(encode_utf8(Seq::<char>::empty()) =~= Seq::<u8>::empty());
        assert(encode_utf8(a.push(c)) =~= encode_scalar(c as u32) + encode_utf8(Seq::<char>::empty()));
        assert(encode_utf8(a) =~= Seq::<u8>::empty());
        assert(encode_utf8(a.push(c)) =~= encode_utf8(a) + encode_scalar(c as u32));
    } else {
        lemma_encode_push(a.drop_first(), c);
        assert(a.push(c).drop_first() =~= a.drop_first().push(c));
        assert(a.push(c)[0] == a[0]);
        assert(encode_utf8(a.push(c)) =~= encode_scalar(a[0] as u32) + encode_utf8(a.drop_first().push(c)));
        assert(encode_utf8(a) =~= encode_scalar(a[0] as u32) + encode_utf8(a.drop_first()));
        assert(encode_utf8(a.push(c)) =~= encode_utf8(a) + encode_scalar(c as u32));
    }
}

proof fn lemma_scalar_width(c: char)
    ensures
        encode_scalar(c as u32).len() == utf8_width(c),
{
}

/// Each character adds its width.
proof fn lemma_offset_step(s: Seq<char>, i: int)
    requires
        0 <= i < s.len(),
    ensures
        byte_offset(s, i + 1) == byte_offset(s, i) + utf8_width(s[i]),
{
    assert(s.take(i + 1) =~= s.take(i).push(s[i]));
    lemma_encode_push(s.take(i), s[i]);
    lemma_scalar_width(s[i]);
}

/// Offsets grow strictly with the position.
proof fn lemma_offset_grows(s: Seq<char>, i: int, j: int)
    requires
        0 <= i < j <= s.len(),
    ensures
        byte_offset(s, i) < byte_offset(s, j),
    decreases j - i,
{
    lemma_offset_step(s, j - 1);
    if i < j - 1 {
        lemma_offset_grows(s, i, j - 1);
    }
}

fn width_of(c: char) -> (w: usize)
    ensures
        w == utf8_width(c),
{
    let v = c as u32;
    if v <= 0x7F {
        1
    } else if v <= 0x7FF {
        2
    } else if v <= 0xFFFF {
        3
    } else {
        4
    }
}

/// The position of the character at which byte offset `byte` of the UTF-8
/// encoding of `text` falls, when it falls between characters.
pub fn char_index(text: &Vec<char>, byte: usize) -> (r: Option<usize>)
    ensures
        match r {
            Some(x) => char_at_byte(text@, byte as int) == Some(x as int) && x <= text.len(),
            None => char_at_byte(text@, byte as int) is None,
        },
{
    let ghost s = text@;
    let mut i: usize = 0;
    let mut acc: usize = 0;
    assert(s.take(0) =~= Seq::<char>::empty());
    assert(encode_utf8(Seq::<char>::empty()) =~= Seq::<u8>::empty());
    while i < text.len() && acc < byte
        invariant
            s == text@,
            i <= text.len(),
            acc == byte_offset(s, i as int),
            acc <= byte,
        decreases text.len() - i,
    {
        let w = width_of(text[i]);
        proof {
            lemma_offset_step(s, i as int);
        }
        if byte - acc < w {
            proof {
                assert forall|j: int| 0 <= j <= s.len() implies byte_offset(s, j) != byte by {
                    if j <= i {
                        if j < i {
                            lemma_offset_grows(s, j, i as int);
                        }
                    } else {
                        if j > i + 1 {
                            lemma_offset_grows(s, i + 1, j);
                        }
                    }
                }
            }
            return None;
        }
        acc = acc + w;
        i = i + 1;
    }
    if acc == byte {
        proof {
            assert forall|j: int| 0 <= j <= s.len() && byte_offset(s, j) == byte implies j == i by {
                if j < i {
                    lemma_offset_grows(s, j, i as int);
                } else if j > i {
                    lemma_offset_grows(s, i as int, j);
                }
            }
        }
        Some(i)
    } else {
        proof {
            assert(i == s.len());
            assert forall|j: int| 0 <= j <= s.len() implies byte_offset(s, j) != byte by {
                if j < i {
                    lemma_offset_grows(s, j, i as int);
                }
            }
        }
        None
    }
}

/// The character range of the bytes `start .. end` of the UTF-8 encoding of
/// `text`, when both ends fall between characters, in order.
pub open spec fn char_range(text: Seq<char>, start: int, end: int) -> Option<(int, int)> {
    match (char_at_byte(text, start), char_at_byte(text, end)) {
        (Some(x), Some(y)) => if x <= y {
            Some((x, y))
        } else {
            None
        },
        _ => None,
    }
}

/// The character range of the bytes `start .. end` of the UTF-8 encoding of
/// `text` (see `char_range`).
pub fn char_range_of(text: &Vec<char>, start: usize, end: usize) -> (r: Option<(usize, usize)>)
    ensures
        match r {
            Some((x, y)) => char_range(text@, start as int, end as int) == Some((x as int, y as int)) && x <= y
                <= text.len(),
            None => char_range(text@, start as int, end as int) is None,
        },
{
    match (char_index(text, start), char_index(text, end)) {
        (Some(x), Some(y)) => if x <= y {
            Some((x, y))
        } else {
            None
        },
        _ => None,
    }
}

/// The characters from position `start` to position `end`.
pub fn chars_between(text: &Vec<char>, start: usize, end: usize) -> (r: String)
    requires
        start <= end <= text.len(),
    ensures
        r@ == text@.subrange(start as int, end as int),
{
    let mut v: Vec<char> = Vec::new();
    let mut k: usize = start;
    while k < end
        invariant
            start <= k <= end <= text.len(),
            v@ == text@.subrange(start as int, k as int),
        decreases end - k,
    {
        v.push(text[k]);
        assert(v@ =~= text@.subrange(start as int, k + 1));
        k += 1;
    }
    string_of(&v)
}

} // verus!
