//! The integers that a few selected bytes write.
use vstd::prelude::*;

verus! {

/// The number of values that `count` bytes can write.
pub open spec fn span_of(count: nat) -> nat
    decreases count,
{
    if count == 0 {
        1
    } else {
        256 * span_of((count - 1) as nat)
    }
}

/// The width in bytes of the integer that holds `len` bytes: 1, 2, 4, 8 or
/// 16.
pub open spec fn width_of(len: int) -> int {
    if len <= 1 {
        1
    } else if len <= 2 {
        2
    } else if len <= 4 {
        4
    } else if len <= 8 {
        8
    } else {
        16
    }
}

/// The number that the bytes write with the lowest byte first.
pub open spec fn little_endian(bytes: Seq<u8>) -> nat
    decreases bytes.len(),
{
    if bytes.len() == 0 {
        0
    } else {
        bytes[0] as nat + 256 * little_endian(bytes.drop_first())
    }
}

/// The number that the bytes write with the highest byte first.
pub open spec fn big_endian(bytes: Seq<u8>) -> nat
    decreases bytes.len(),
{
    if bytes.len() == 0 {
        0
    } else {
        256 * big_endian(bytes.drop_last()) + bytes.last() as nat
    }
}

/// The bytes with zeros behind them, `width` bytes in all.
pub open spec fn padded(bytes: Seq<u8>, width: int) -> Seq<u8> {
    bytes + Seq::new((width - bytes.len()) as nat, |i: int| 0u8)
}

/// The number that `value` stands for where the highest bit of its `width`
/// bytes is a sign.
pub open spec fn signed(value: nat, width: nat) -> int {
    if 2 * value >= span_of(width) {
        value - span_of(width)
    } else {
        value as int
    }
}

/// More bytes write more values, and 16 bytes write as many as 128 bits.
pub proof fn lemma_span(count: nat)
    requires
        count <= 16,
    ensures
        0 < span_of(count) <= span_of(16),
        span_of(16) == 0x1_0000_0000_0000_0000_0000_0000_0000_0000,
        span_of(1) == 0x100,
        span_of(2) == 0x1_0000,
        span_of(4) == 0x1_0000_0000,
        span_of(8) == 0x1_0000_0000_0000_0000,
    decreases 16 - count,
{
    reveal_with_fuel(span_of, 17);
    if count < 16 {
        lemma_span(count + 1);
    }
}

/// The bytes write a number below the number of values they can write.
pub proof fn lemma_little_endian_bound(bytes: Seq<u8>)
    ensures
        little_endian(bytes) < span_of(bytes.len()),
    decreases bytes.len(),
{
    if bytes.len() > 0 {
        lemma_little_endian_bound(bytes.drop_first());
    }
}

/// The bytes write a number below the number of values they can write.
pub proof fn lemma_big_endian_bound(bytes: Seq<u8>)
    ensures
        big_endian(bytes) < span_of(bytes.len()),
    decreases bytes.len(),
{
    if bytes.len() > 0 {
        lemma_big_endian_bound(bytes.drop_last());
    }
}

/// The width in bytes of the integer that holds `len` bytes.
pub fn integer_width(len: usize) -> (width: usize)
    requires
        len <= 16,
    ensures
        width == width_of(len as int),
        len <= width <= 16,
{
    if len <= 1 {
        1
    } else if len <= 2 {
        2
    } else if len <= 4 {
        4
    } else if len <= 8 {
        8
    } else {
        16
    }
}

/// The number that up to 16 bytes write with the lowest byte first.
pub fn little_endian_value(bytes: &Vec<u8>) -> (value: u128)
    requires
        bytes@.len() <= 16,
    ensures
        value == little_endian(bytes@),
{
    let mut value: u128 = 0;
    let mut i: usize = bytes.len();
    proof {
        assert(bytes@.skip(i as int) =~= Seq::<u8>::empty());
    }
    while i > 0
        invariant
            i <= bytes@.len() <= 16,
            value == little_endian(bytes@.skip(i as int)),
        decreases i,
    {
        proof {
            let rest = bytes@.skip(i - 1);
            assert(rest.drop_first() =~= bytes@.skip(i as int));
            assert(rest[0] == bytes@[i - 1]);
            lemma_little_endian_bound(rest);
            lemma_span(rest.len());
        }
        i = i - 1;
        value = 256 * value + bytes[i] as u128;
    }
    proof {
        assert(bytes@.skip(0) =~= bytes@);
    }
    value
}

/// The number that up to `width` bytes, with zeros behind them to make
/// `width` bytes, write with the highest byte first.
pub fn big_endian_value(bytes: &Vec<u8>, width: usize) -> (value: u128)
    requires
        bytes@.len() <= width <= 16,
    ensures
        value == big_endian(padded(bytes@, width as int)),
{
    let ghost all = padded(bytes@, width as int);
    let mut value: u128 = 0;
    let mut i: usize = 0;
    proof {
        assert(all.take(0) =~= Seq::<u8>::empty());
    }
    while i < width
        invariant
            i <= width <= 16,
            bytes@.len() <= width,
            all == padded(bytes@, width as int),
            value == big_endian(all.take(i as int)),
        decreases width - i,
    {
        proof {
            let head = all.take(i + 1);
            assert(head.drop_last() =~= all.take(i as int));
            lemma_big_endian_bound(head);
            lemma_span(head.len());
        }
        let byte = if i < bytes.len() {
            bytes[i]
        } else {
            0
        };
        value = 256 * value + byte as u128;
        i = i + 1;
    }
    proof {
        assert(all.take(width as int) =~= all);
    }
    value
}

/// The number that `value` stands for where the highest bit of its `width`
/// bytes is a sign.
pub fn signed_value(value: u128, width: usize) -> (r: i128)
    requires
        width == 1 || width == 2 || width == 4 || width == 8 || width == 16,
        value < span_of(width as nat),
    ensures
        r == signed(value as nat, width as nat),
{
    proof {
        lemma_span(width as nat);
    }
    let half: u128 = if width == 1 {
        0x80
    } else if width == 2 {
        0x8000
    } else if width == 4 {
        0x8000_0000
    } else if width == 8 {
        0x8000_0000_0000_0000
    } else {
        0x8000_0000_0000_0000_0000_0000_0000_0000
    };
    if value >= half {
        let above: i128 = (value - half) as i128;
        if width == 16 {
            i128::MIN + above
        } else {
            above - half as i128
        }
    } else {
        value as i128
    }
}

} // verus!
