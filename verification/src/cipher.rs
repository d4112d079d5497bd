//! The keyed byte-wise transform that the target application uses to
//! obfuscate stored passwords.
//!
//! The transform makes one full pass over the buffer per key byte, rewriting
//! every byte in place. How a byte is rewritten depends on its position
//! modulo 4; all arithmetic is modulo 256. The transform is decrypt-only by
//! construction: its contract pins the result to [`cipher`], a function of
//! the inputs alone, so two calls on the same inputs give the same bytes.

use vstd::prelude::*;

verus! {

use vstd::arithmetic::div_mod::{lemma_small_mod, lemma_mod_sub_multiples_vanish,
    lemma_mod_add_multiples_vanish};
use vstd::pervasive::VecAdditionalExecFns;
use vstd::slice::slice_to_vec;

/// Addition modulo 256 on mathematical integers.
pub open spec fn wrap_add(a: int, b: int) -> int {
    (a + b) % 256
}

/// Subtraction modulo 256 on mathematical integers.
pub open spec fn wrap_sub(a: int, b: int) -> int {
    (a - b) % 256
}

/// How one pass rewrites the byte `b` standing at truncated position `j`
/// (the position modulo 256). `key_byte` is the key byte driving this pass;
/// `first_key_byte` is always the key's first byte, which the scheme uses on
/// positions congruent to 2 modulo 4 regardless of the current pass.
pub open spec fn cipher_step(j: int, b: int, key_byte: int, first_key_byte: int, offset: int) -> int {
    let mix = wrap_add(wrap_sub(255 - j, offset), b);
    if j % 4 == 0 {
        wrap_sub(wrap_sub(b, key_byte), wrap_add(offset, j + 1))
    } else if j % 4 == 1 {
        wrap_add(mix, key_byte)
    } else if j % 4 == 2 {
        wrap_add(mix, first_key_byte)
    } else {
        wrap_add(wrap_add(mix, key_byte), 0xfd)
    }
}

/// The byte at truncated position `j` after the first `n` key bytes have
/// each made their pass over the buffer, starting from the byte value `b`.
pub open spec fn cipher_byte(key: Seq<u8>, n: nat, j: int, b: int, offset: int) -> int
    decreases n,
{
    if n == 0 {
        b
    } else {
        cipher_step(
            j,
            cipher_byte(key, (n - 1) as nat, j, b, offset),
            key[n - 1] as int,
            key[0] as int,
            offset,
        )
    }
}

/// The whole transform. Positions are rewritten independently of one
/// another, so the result at position `i` depends only on the original byte
/// there and on `i` truncated to a byte.
pub open spec fn cipher(data: Seq<u8>, key: Seq<u8>, offset: u8) -> Seq<u8> {
    Seq::new(data.len(), |i: int| cipher_byte(key, key.len(), i % 256, data[i] as int, offset as int) as u8)
}

proof fn lemma_wrapping_add_is_wrap_add(x: u8, y: u8)
    ensures
        x.wrapping_add(y) == wrap_add(x as int, y as int),
{
    if x + y > u8::MAX {
        lemma_mod_sub_multiples_vanish(x + y, 256);
        lemma_small_mod((x + y - 256) as nat, 256);
    } else {
        lemma_small_mod((x + y) as nat, 256);
    }
}

proof fn lemma_wrapping_sub_is_wrap_sub(x: u8, y: u8)
    ensures
        x.wrapping_sub(y) == wrap_sub(x as int, y as int),
{
    if x - y < 0 {
        lemma_mod_add_multiples_vanish(x - y, 256);
        lemma_small_mod((x - y + 256) as nat, 256);
    } else {
        lemma_small_mod((x - y) as nat, 256);
    }
}

/// The result of [`cipher_byte`] stays a byte value.
proof fn lemma_cipher_byte_in_range(key: Seq<u8>, n: nat, j: int, b: int, offset: int)
    requires
        0 <= b < 256,
    ensures
        0 <= cipher_byte(key, n, j, b, offset) < 256,
    decreases n,
{
    if n > 0 {
        lemma_cipher_byte_in_range(key, (n - 1) as nat, j, b, offset);
    }
}

/// The transform the target application applies to stored passwords: for
/// each key byte in key order, one in-place pass over the whole buffer,
/// rewriting each byte as [`cipher_step`] says. Any buffer length is
/// accepted, including zero, and an empty key leaves the data unchanged.
pub fn eh_decrypt_data(data: &[u8], password: &[u8], offset: u8) -> (r: Vec<u8>)
    ensures
        r@ == cipher(data@, password@, offset),
{
    let mut ret: Vec<u8> = slice_to_vec(data);
    let mut p: usize = 0;
    while p < password.len()
        invariant
            p <= password@.len(),
            ret@.len() == data@.len(),
            forall|i: int| 0 <= i < data@.len()
                ==> ret@[i] == cipher_byte(password@, p as nat, i % 256, data@[i] as int, offset as int),
        decreases password@.len() - p,
    {
        let key_byte: u8 = password[p];
        let first_key: u8 = password[0];
        let mut idx: usize = 0;
        while idx < ret.len()
            invariant
                idx <= ret@.len(),
                p < password@.len(),
                key_byte == password@[p as int],
                first_key == password@[0],
                ret@.len() == data@.len(),
                forall|i: int| 0 <= i < idx
                    ==> ret@[i] == cipher_byte(password@, (p + 1) as nat, i % 256, data@[i] as int, offset as int),
                forall|i: int| idx <= i < data@.len()
                    ==> ret@[i] == cipher_byte(password@, p as nat, i % 256, data@[i] as int, offset as int),
            decreases ret@.len() - idx,
        {
            let j: u8 = (idx % 256) as u8;
            let b: u8 = ret[idx];
            proof {
                lemma_cipher_byte_in_range(password@, p as nat, idx as int % 256, data@[idx as int] as int, offset as int);
            }
            let new_b: u8;
            if j % 4 == 0 {
                assert(j < 253) by {
                    assert(j % 4 == 0 && j <= 255);
                };
                let shift: u8 = offset.wrapping_add(j + 1);
                new_b = b.wrapping_sub(key_byte).wrapping_sub(shift);
                proof {
                    lemma_wrapping_add_is_wrap_add(offset, (j + 1) as u8);
                    lemma_wrapping_sub_is_wrap_sub(b, key_byte);
                    lemma_wrapping_sub_is_wrap_sub(b.wrapping_sub(key_byte), shift);
                }
            } else {
                let nb: u8 = 255 - j;
                let mix: u8 = nb.wrapping_sub(offset).wrapping_add(b);
                proof {
                    lemma_wrapping_sub_is_wrap_sub(nb, offset);
                    lemma_wrapping_add_is_wrap_add(nb.wrapping_sub(offset), b);
                }
                if j % 4 == 1 {
                    new_b = mix.wrapping_add(key_byte);
                    proof {
                        lemma_wrapping_add_is_wrap_add(mix, key_byte);
                    }
                } else if j % 4 == 2 {
                    new_b = mix.wrapping_add(first_key);
                    proof {
                        lemma_wrapping_add_is_wrap_add(mix, first_key);
                    }
                } else {
                    let partial: u8 = mix.wrapping_add(key_byte);
                    new_b = partial.wrapping_add(0xfd);
                    proof {
                        lemma_wrapping_add_is_wrap_add(mix, key_byte);
                        lemma_wrapping_add_is_wrap_add(partial, 0xfd);
                    }
                }
            }
            proof {
                assert(new_b == cipher_step(idx as int % 256, b as int, key_byte as int, first_key as int, offset as int));
                assert(cipher_byte(password@, (p + 1) as nat, idx as int % 256, data@[idx as int] as int, offset as int)
                    == cipher_step(idx as int % 256, b as int, key_byte as int, first_key as int, offset as int));
            }
            ret.set(idx, new_b);
            idx += 1;
        }
        p += 1;
    }
    proof {
        assert(ret@ =~= cipher(data@, password@, offset));
    }
    ret
}

} // verus!
