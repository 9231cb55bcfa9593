//! Editing the text of a form field, key by key.
use vstd::prelude::*;

verus! {

/// The byte a typed character is kept as: its code, cut to eight bits.
pub open spec fn key_byte(c: char) -> u8 {
    ((c as u32) % 256) as u8
}

/// Whether a byte is printable text that a text field accepts.
pub open spec fn is_text_byte(b: u8) -> bool {
    32 <= b <= 125
}

/// Whether a byte is a decimal digit, the only thing a number field accepts.
pub open spec fn is_digit_byte(b: u8) -> bool {
    48 <= b <= 57
}

/// `buffer` without its last word: the trailing bytes up to the last space
/// are dropped, and then that space too.
pub open spec fn without_last_word(buffer: Seq<u8>) -> Seq<u8>
    decreases buffer.len(),
{
    if buffer.len() == 0 {
        buffer
    } else if buffer.last() == 32 {
        buffer.drop_last()
    } else {
        without_last_word(buffer.drop_last())
    }
}

/// Types `c` into a text field holding `buffer`: kept when it is printable
/// and the field has room.
pub fn type_text_char(buffer: &mut Vec<u8>, c: char, max_len: usize)
    ensures
        ({
            let b = key_byte(c);
            if is_text_byte(b) && old(buffer)@.len() < max_len {
                final(buffer)@ == old(buffer)@.push(b)
            } else {
                final(buffer)@ == old(buffer)@
            }
        }),
{
    let b = ((c as u32) % 256) as u8;
    if 32 <= b && b <= 125 && buffer.len() < max_len {
        buffer.push(b);
    }
}

/// Types `c` into a number field holding `buffer`: kept when it is a digit
/// and the field has room.
pub fn type_digit(buffer: &mut Vec<u8>, c: char, max_len: usize)
    ensures
        ({
            let b = key_byte(c);
            if is_digit_byte(b) && old(buffer)@.len() < max_len {
                final(buffer)@ == old(buffer)@.push(b)
            } else {
                final(buffer)@ == old(buffer)@
            }
        }),
{
    let b = ((c as u32) % 256) as u8;
    if 48 <= b && b <= 57 && buffer.len() < max_len {
        buffer.push(b);
    }
}

/// Erases from the end of a field: one byte, or with `whole_word` the last
/// word and the space before it.
pub fn erase(buffer: &mut Vec<u8>, whole_word: bool)
    ensures
        whole_word ==> final(buffer)@ == without_last_word(old(buffer)@),
        !whole_word ==> final(buffer)@ == (if old(buffer)@.len() == 0 {
            old(buffer)@
        } else {
            old(buffer)@.drop_last()
        }),
{
    if whole_word {
        while buffer.len() > 0 && buffer[buffer.len() - 1] != 32
            invariant
                without_last_word(buffer@) == without_last_word(old(buffer)@),
            decreases buffer.len(),
        {
            buffer.pop();
        }
    }
    buffer.pop();
}

} // verus!
