//! Bit flags packed into a `u64`. Positions are counted from 1: position 1 is
//! the least significant bit, position 64 the most significant one.

use vstd::prelude::*;

verus! {

/// The word with only the bit at `position` set.
pub open spec fn mask(position: int) -> u64
    recommends
        1 <= position <= 64,
{
    1u64 << ((position - 1) as u64)
}

/// Whether the bit at `position` of `attr` is set.
pub open spec fn bit_at(attr: u64, position: int) -> bool
    recommends
        1 <= position <= 64,
{
    (attr >> ((position - 1) as u64)) & 1 == 1
}

/// `attr` with the bit at `position` set to `flag`; unchanged when `position`
/// is not positive.
pub open spec fn with_bit(attr: u64, position: int, flag: bool) -> u64 {
    if position <= 0 {
        attr
    } else if flag {
        attr | mask(position)
    } else {
        attr & !mask(position)
    }
}

/// Sets or clears the bit at `position`. A position that is not positive
/// leaves `attr` as it is.
pub fn set_bit(attr: u64, position: i32, flag: bool) -> (out: u64)
    requires
        position <= 64,
    ensures
        out == with_bit(attr, position as int, flag),
{
    if position <= 0 {
        return attr;
    }
    let shift: u64 = (position - 1) as u64;
    if flag {
        attr | 1u64 << shift
    } else {
        attr & !(1u64 << shift)
    }
}

/// The bit at `position` as a number: 1 when it is set, 0 when it is not.
pub fn get_bit(attr: u64, position: i32) -> (bit: i8)
    requires
        1 <= position <= 64,
    ensures
        bit == flag_value(bit_at(attr, position as int)),
{
    let shift: u64 = (position - 1) as u64;
    let low: u64 = (attr >> shift) & 1;
    assert(low == 0 || low == 1) by (bit_vector)
        requires
            low == (attr >> shift) & 1,
    ;
    low as i8
}

/// Whether the bit at `position` is set.
pub fn get_bit_flag(attr: u64, position: i32) -> (flag: bool)
    requires
        1 <= position <= 64,
    ensures
        flag == bit_at(attr, position as int),
{
    get_bit(attr, position) == 1
}

/// The number that stands for a flag.
pub open spec fn flag_value(flag: bool) -> i8 {
    if flag {
        1
    } else {
        0
    }
}

/// `attr` after the bits at `positions` were set to `flag` one after the
/// other; positions that are not positive are passed over.
pub open spec fn with_bits(attr: u64, positions: Seq<i32>, flag: bool) -> u64
    decreases positions.len(),
{
    if positions.len() == 0 {
        attr
    } else {
        with_bit(with_bits(attr, positions.drop_last(), flag), positions.last() as int, flag)
    }
}

/// Sets or clears every bit named in `positions`. Positions that are not
/// positive are passed over.
pub fn set_bits(attr: u64, positions: &Vec<i32>, flag: bool) -> (out: u64)
    requires
        forall|i: int| 0 <= i < positions.len() ==> positions[i] <= 64,
    ensures
        out == with_bits(attr, positions@, flag),
{
    let mut out = attr;
    let mut done: usize = 0;
    while done < positions.len()
        invariant
            done <= positions.len(),
            forall|i: int| 0 <= i < positions.len() ==> positions[i] <= 64,
            out == with_bits(attr, positions@.take(done as int), flag),
        decreases positions.len() - done,
    {
        let position = positions[done];
        proof {
            let next = positions@.take(done + 1);
            assert(next.drop_last() == positions@.take(done as int));
            assert(next.last() == position);
        }
        if position > 0 {
            out = set_bit(out, position, flag);
        }
        done = done + 1;
    }
    proof {
        assert(positions@.take(done as int) == positions@);
    }
    out
}

/// The word whose bit at position `i + 1` is set exactly when `flags[i]` is
/// not zero, for every index `i` of `flags`.
pub open spec fn packed(flags: Seq<i8>) -> u64
    decreases flags.len(),
{
    if flags.len() == 0 {
        0
    } else {
        with_bit(packed(flags.drop_last()), flags.len() as int, flags.last() != 0)
    }
}

/// Packs a list of flags into a word: the flag at index `i` becomes the bit
/// at position `i + 1`, set when the flag is not zero.
pub fn get_total_bits(flags: &Vec<i8>) -> (attr: u64)
    requires
        flags.len() <= 64,
    ensures
        attr == packed(flags@),
{
    let mut attr: u64 = 0;
    let mut done: usize = 0;
    while done < flags.len()
        invariant
            done <= flags.len() <= 64,
            attr == packed(flags@.take(done as int)),
        decreases flags.len() - done,
    {
        proof {
            let next = flags@.take(done + 1);
            assert(next.drop_last() == flags@.take(done as int));
            assert(next.last() == flags[done as int]);
        }
        attr = set_bit(attr, (done + 1) as i32, flags[done] != 0);
        done = done + 1;
    }
    proof {
        assert(flags@.take(done as int) == flags@);
    }
    attr
}

/// The lowest `length` bits of `attr` as a list of numbers: index `i` holds
/// the bit at position `i + 1`.
pub fn get_bits(attr: u64, length: usize) -> (bits: Vec<i8>)
    requires
        length <= 64,
    ensures
        bits.len() == length,
        forall|i: int| 0 <= i < length ==> bits[i] == flag_value(bit_at(attr, i + 1)),
{
    let mut bits: Vec<i8> = Vec::with_capacity(length);
    let mut position: usize = 1;
    while position <= length
        invariant
            1 <= position <= length + 1,
            length <= 64,
            bits.len() == position - 1,
            forall|i: int| 0 <= i < position - 1 ==> bits[i] == flag_value(bit_at(attr, i + 1)),
        decreases length + 1 - position,
    {
        let bit = get_bit(attr, position as i32);
        bits.push(bit);
        position = position + 1;
    }
    bits
}

/// Reading a bit back after a write: the written position holds the written
/// flag, every other position holds what it held before.
pub proof fn law_read_after_write(attr: u64, written: int, flag: bool, read: int)
    requires
        1 <= written <= 64,
        1 <= read <= 64,
    ensures
        bit_at(with_bit(attr, written, flag), read) == if read == written {
            flag
        } else {
            bit_at(attr, read)
        },
{
    let w: u64 = (written - 1) as u64;
    let r: u64 = (read - 1) as u64;
    assert(w < 64 && r < 64 ==> ((((attr | (1u64 << w)) >> r) & 1 == 1) <==> (r == w || (attr >> r)
        & 1 == 1))) by (bit_vector);
    assert(w < 64 && r < 64 ==> ((((attr & !(1u64 << w)) >> r) & 1 == 1) <==> (r != w && (attr
        >> r) & 1 == 1))) by (bit_vector);
}

/// After several writes of one flag, a position named among them holds the
/// flag and every other position holds what it held before.
pub proof fn law_read_after_writes(attr: u64, positions: Seq<i32>, flag: bool, read: int)
    requires
        forall|i: int| 0 <= i < positions.len() ==> positions[i] <= 64,
        1 <= read <= 64,
    ensures
        bit_at(with_bits(attr, positions, flag), read) == if positions.contains(read as i32) {
            flag
        } else {
            bit_at(attr, read)
        },
    decreases positions.len(),
{
    if positions.len() > 0 {
        let earlier = positions.drop_last();
        let last = positions.last();
        law_read_after_writes(attr, earlier, flag, read);
        if last > 0 {
            law_read_after_write(with_bits(attr, earlier, flag), last as int, flag, read);
        }
        if earlier.contains(read as i32) {
            let i = choose|i: int| 0 <= i < earlier.len() && earlier[i] == read as i32;
            assert(positions[i] == read as i32);
        }
        if positions.contains(read as i32) && last != read as i32 {
            let i = choose|i: int| 0 <= i < positions.len() && positions[i] == read as i32;
            assert(earlier[i] == read as i32);
        }
        if last == read as i32 {
            assert(positions[positions.len() - 1] == read as i32);
        }
    }
}

/// The bits of a packed word are the flags it was packed from, and the bits
/// above them are clear.
pub proof fn law_packed_bits(flags: Seq<i8>, read: int)
    requires
        flags.len() <= 64,
        1 <= read <= 64,
    ensures
        bit_at(packed(flags), read) == (read <= flags.len() && flags[read - 1] != 0),
    decreases flags.len(),
{
    if flags.len() == 0 {
        let r: u64 = (read - 1) as u64;
        assert((0u64 >> r) & 1 == 0) by (bit_vector);
    } else {
        law_packed_bits(flags.drop_last(), read);
        law_read_after_write(packed(flags.drop_last()), flags.len() as int, flags.last() != 0, read);
    }
}

} // verus!
