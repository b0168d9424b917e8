//! Key-state tracking: a 256-key bitmap packed into sixteen 16-bit words.
//! A key code's word is `code / 16` and its bit is `code % 16`.

use vstd::prelude::*;

verus! {

/// Whether key `code` is marked down in the bitmap.
pub open spec fn key_down(keys: Seq<u16>, code: u16) -> bool {
    keys[(code / 16) as int] & (1u16 << (code % 16)) != 0
}

/// Setting a bit leaves every other bit of the word as it was.
proof fn lemma_bit_set(w: u16, b: u16, c: u16)
    by (bit_vector)
    requires
        b < 16,
        c < 16,
    ensures
        b == c ==> ((w | (1u16 << b)) & (1u16 << c)) != 0,
        b != c ==> (((w | (1u16 << b)) & (1u16 << c)) != 0) == ((w & (1u16 << c)) != 0),
{
}

/// Clearing a bit leaves every other bit of the word as it was.
proof fn lemma_bit_clear(w: u16, b: u16, c: u16)
    by (bit_vector)
    requires
        b < 16,
        c < 16,
    ensures
        b == c ==> ((w & !(1u16 << b)) & (1u16 << c)) == 0,
        b != c ==> (((w & !(1u16 << b)) & (1u16 << c)) != 0) == ((w & (1u16 << c)) != 0),
{
}

/// Reads key `code` from the bitmap.
pub fn read_key(code: u16, keys: [u16; 16]) -> (r: bool)
    requires
        code < 256,
    ensures
        r == key_down(keys@, code),
{
    let slot: u16 = code / 16;
    let bit: u16 = code % 16;
    keys[slot as usize] & 1 << bit > 0
}

/// Marks key `code` down or up in the bitmap and returns the new bitmap;
/// codes past the bitmap leave it unchanged.
pub fn set_key(keys: [u16; 16], down: bool, code: u16) -> (r: [u16; 16])
    ensures
        code < 256 ==> forall|c: u16|
            c < 256 ==> (#[trigger] key_down(r@, c)) == (if c == code {
                down
            } else {
                key_down(keys@, c)
            }),
        code >= 256 ==> r@ == keys@,
{
    if code < 256 {
        let slot: u16 = code / 16;
        let bit: u16 = code % 16;
        let mut r = keys;
        if down {
            r[slot as usize] = keys[slot as usize] | (1u16 << bit);
        } else {
            r[slot as usize] = keys[slot as usize] & !(1u16 << bit);
        }
        proof {
            assert forall|c: u16| c < 256 implies (#[trigger] key_down(r@, c)) == (if c == code {
                down
            } else {
                key_down(keys@, c)
            }) by {
                let cs = c / 16;
                let cb = c % 16;
                if cs == slot {
                    if down {
                        lemma_bit_set(keys@[slot as int], bit, cb);
                    } else {
                        lemma_bit_clear(keys@[slot as int], bit, cb);
                    }
                } else {
                    assert(r@[cs as int] == keys@[cs as int]);
                }
            }
        }
        r
    } else {
        keys
    }
}

} // verus!
