//! The wire format of the P9813: four bytes per device, between two markers.

use vstd::prelude::*;
use vstd::seq_lib::lemma_flatten_concat;

verus! {

/// A colour as red, green and blue intensities.
pub type Color = (u8, u8, u8);

/// The complement of the two most significant bits of a channel, as a number
/// from 0 to 3.
pub open spec fn inverted_top_bits(c: u8) -> int {
    3 - (c as int) / 64
}

/// The first byte of a device frame: both flag bits set, then the inverted
/// top bits of blue, green and red, two bits each.
pub open spec fn prefix(r: u8, g: u8, b: u8) -> u8 {
    (192 + 16 * inverted_top_bits(b) + 4 * inverted_top_bits(g) + inverted_top_bits(r)) as u8
}

/// The four bytes that set one device to the colour `(r, g, b)`.
pub open spec fn device_frame(r: u8, g: u8, b: u8) -> Seq<u8> {
    seq![prefix(r, g, b), b, g, r]
}

/// The device frame of a colour given as a triple.
pub open spec fn frame_of(c: Color) -> Seq<u8> {
    device_frame(c.0, c.1, c.2)
}

/// The four zero bytes that open and close a transaction.
pub open spec fn marker() -> Seq<u8> {
    seq![0u8, 0u8, 0u8, 0u8]
}

/// The writes of one transaction, in the order they go out: the start marker,
/// the frame of each device from the first of the chain on, the end marker.
pub open spec fn transaction_writes(colors: Seq<Color>) -> Seq<Seq<u8>> {
    Seq::new(
        colors.len() + 2,
        |i: int|
            if 1 <= i <= colors.len() {
                frame_of(colors[i - 1])
            } else {
                marker()
            },
    )
}

/// The bytes of one transaction: its writes, one after the other.
pub open spec fn transaction(colors: Seq<Color>) -> Seq<u8> {
    transaction_writes(colors).flatten()
}

/// The first byte of a device frame, read as bits: the two most significant
/// bits are set, bits 5-4 are the complement of the top two bits of blue,
/// bits 3-2 that of green and bits 1-0 that of red. The byte is those four
/// fields joined by `|`.
pub proof fn lemma_prefix_bits(r: u8, g: u8, b: u8)
    by (bit_vector)
    ensures
        prefix(r, g, b) == 0b1100_0000u8 | (((!b >> 6) & 0b11) << 4) | (((!g >> 6) & 0b11) << 2)
            | ((!r >> 6) & 0b11),
        prefix(r, g, b) & 0b1100_0000 == 0b1100_0000,
        (prefix(r, g, b) >> 4) & 0b11 == (!b >> 6) & 0b11,
        (prefix(r, g, b) >> 2) & 0b11 == (!g >> 6) & 0b11,
        prefix(r, g, b) & 0b11 == (!r >> 6) & 0b11,
{
}

/// Encodes one colour as the frame of one device.
///
/// The frame is `device_frame(r, g, b)`. Read as bits, its first byte has the
/// two flag bits set and carries the complement of the top two bits of blue,
/// green and red in bits 5-4, 3-2 and 1-0; the three bytes after it are blue,
/// green and red unchanged.
pub fn color_to_array(r: u8, g: u8, b: u8) -> (frame: [u8; 4])
    ensures
        frame@ == device_frame(r, g, b),
        frame[0] & 0b1100_0000 == 0b1100_0000,
        (frame[0] >> 4) & 0b11 == (!b >> 6) & 0b11,
        (frame[0] >> 2) & 0b11 == (!g >> 6) & 0b11,
        frame[0] & 0b11 == (!r >> 6) & 0b11,
        frame[1] == b,
        frame[2] == g,
        frame[3] == r,
{
    let b_bit: u8 = !b >> 6;
    let g_bit: u8 = !g >> 6;
    let r_bit: u8 = !r >> 6;
    let prefix: u8 = 0b1100_0000 | (b_bit << 4) | (g_bit << 2) | r_bit;
    proof {
        assert((!b >> 6) & 0b11 == !b >> 6) by (bit_vector);
        assert((!g >> 6) & 0b11 == !g >> 6) by (bit_vector);
        assert((!r >> 6) & 0b11 == !r >> 6) by (bit_vector);
        lemma_prefix_bits(r, g, b);
    }
    [prefix, b, g, r]
}

/// One more write of a transaction adds the bytes of that write.
proof fn lemma_next_write(colors: Seq<Color>, k: int)
    requires
        0 <= k < colors.len() + 2,
    ensures
        transaction_writes(colors).take(k + 1).flatten() == transaction_writes(colors).take(
            k,
        ).flatten() + transaction_writes(colors)[k],
{
    let writes = transaction_writes(colors);
    assert(writes.take(k + 1) =~= writes.take(k).push(writes[k]));
    writes.take(k).lemma_flatten_push(writes[k]);
}

/// The first `k` writes of a transaction are the first `4 * k` bytes of it,
/// and each of them lies there whole, at four times its index.
pub proof fn lemma_transaction_prefix(colors: Seq<Color>, k: int)
    requires
        0 <= k <= colors.len() + 2,
    ensures
        transaction_writes(colors).take(k).flatten().len() == 4 * k,
        transaction_writes(colors).take(k).flatten() == transaction(colors).take(4 * k),
        forall|j: int|
            0 <= j < k ==> #[trigger] transaction(colors).subrange(4 * j, 4 * j + 4)
                == transaction_writes(colors)[j],
    decreases k,
{
    let writes = transaction_writes(colors);
    let bytes = transaction(colors);
    if k > 0 {
        lemma_transaction_prefix(colors, k - 1);
        lemma_next_write(colors, k - 1);
    }
    assert(writes =~= writes.take(k) + writes.skip(k));
    lemma_flatten_concat(writes.take(k), writes.skip(k));
    assert forall|j: int| 0 <= j < k implies #[trigger] bytes.subrange(4 * j, 4 * j + 4)
        == writes[j] by {
        if j == k - 1 {
            assert(bytes.subrange(4 * j, 4 * j + 4) =~= bytes.take(4 * k).subrange(
                4 * j,
                4 * j + 4,
            ));
        }
    }
}

/// The layout of a transaction of `n` colours: it has `4 * n + 8` bytes, and
/// byte `i` of it is byte `i % 4` of write `i / 4`. So the first four and the
/// last four bytes are zero, and the four from `4 * (d + 1)` on are the frame
/// of device `d`.
pub proof fn lemma_transaction_layout(colors: Seq<Color>)
    ensures
        transaction(colors).len() == 4 * colors.len() + 8,
        forall|i: int|
            0 <= i < 4 * colors.len() + 8 ==> #[trigger] transaction(colors)[i]
                == transaction_writes(colors)[i / 4][i % 4],
{
    let n = colors.len() as int;
    let bytes = transaction(colors);
    let writes = transaction_writes(colors);
    lemma_transaction_prefix(colors, n + 2);
    assert(writes.take(n + 2) =~= writes);
    assert forall|i: int| 0 <= i < 4 * n + 8 implies #[trigger] bytes[i] == writes[i / 4][i
        % 4] by {
        let j = i / 4;
        assert(bytes.subrange(4 * j, 4 * j + 4)[i % 4] == bytes[i]);
    }
}

/// Appends the four bytes of `frame` to `out`.
fn push_frame(out: &mut Vec<u8>, frame: &[u8; 4])
    ensures
        final(out)@ == old(out)@ + frame@,
{
    out.push(frame[0]);
    out.push(frame[1]);
    out.push(frame[2]);
    out.push(frame[3]);
}

/// Encodes the colours of a chain, first device first, as the bytes of one
/// transaction. An empty chain gives the two markers alone.
pub fn encode_transaction(colors: &[Color]) -> (bytes: Vec<u8>)
    ensures
        bytes@ == transaction(colors@),
        bytes@.len() == 4 * colors@.len() + 8,
{
    let ghost writes = transaction_writes(colors@);
    let zeros: [u8; 4] = [0, 0, 0, 0];
    let mut bytes: Vec<u8> = Vec::new();
    push_frame(&mut bytes, &zeros);
    proof {
        lemma_next_write(colors@, 0);
    }
    let mut i: usize = 0;
    while i < colors.len()
        invariant
            i <= colors.len(),
            writes == transaction_writes(colors@),
            bytes@ == writes.take(i + 1).flatten(),
        decreases colors.len() - i,
    {
        let (r, g, b) = colors[i];
        let frame = color_to_array(r, g, b);
        push_frame(&mut bytes, &frame);
        proof {
            lemma_next_write(colors@, i + 1);
        }
        i += 1;
    }
    push_frame(&mut bytes, &zeros);
    proof {
        lemma_next_write(colors@, i + 1);
        assert(writes.take(i + 2) =~= writes);
        lemma_transaction_layout(colors@);
    }
    bytes
}

} // verus!
