//! Minimal PNG writer, used for headless screenshots.

use vstd::prelude::*;

verus! {

// ------------------------------------------------------------------ crc

/// One bit of the reflected CRC-32 register update (polynomial 0xEDB88320).
pub open spec fn crc_bit(value: u32) -> u32 {
    if value & 1 != 0 {
        0xedb8_8320u32 ^ (value >> 1u32)
    } else {
        value >> 1u32
    }
}

/// Eight bit steps: the register update for one byte.
pub open spec fn crc_byte(value: u32) -> u32 {
    crc_bit(crc_bit(crc_bit(crc_bit(crc_bit(crc_bit(crc_bit(crc_bit(value))))))))
}

/// The CRC register after the given bytes, starting from all ones.
pub open spec fn crc_register(data: Seq<u8>) -> u32
    decreases data.len(),
{
    if data.len() == 0 {
        0xffff_ffff
    } else {
        crc_byte(crc_register(data.drop_last()) ^ (data.last() as u32))
    }
}

/// CRC-32 as PNG uses it: the register inverted at the end.
pub open spec fn crc32_of(data: Seq<u8>) -> u32 {
    crc_register(data) ^ 0xffff_ffff
}

/// Adler-32 running sums after the given bytes: (a, b).
pub open spec fn adler_sums(data: Seq<u8>) -> (u32, u32)
    decreases data.len(),
{
    if data.len() == 0 {
        (1, 0)
    } else {
        let (a, b) = adler_sums(data.drop_last());
        let a2 = ((a + data.last()) % 65521) as u32;
        (a2, ((b + a2) % 65521) as u32)
    }
}

/// Adler-32 as zlib uses it.
pub open spec fn adler32_of(data: Seq<u8>) -> u32 {
    let (a, b) = adler_sums(data);
    (b << 16u32) | a
}

proof fn lemma_crc_byte_splits(x: u32)
    ensures
        crc_byte(x) == crc_byte(x & 0xff) ^ (x >> 8u32),
{
    assert(crc_byte(x) == crc_byte(x & 0xff) ^ (x >> 8u32)) by (bit_vector);
}

fn crc_step(value: u32) -> (r: u32)
    ensures
        r == crc_bit(value),
{
    if value & 1 != 0 {
        0xedb8_8320u32 ^ (value >> 1u32)
    } else {
        value >> 1u32
    }
}

fn crc_table() -> (table: Vec<u32>)
    ensures
        table@.len() == 256,
        forall|i: int| 0 <= i < 256 ==> #[trigger] table@[i] == crc_byte(i as u32),
{
    let mut table: Vec<u32> = Vec::new();
    let mut index: u32 = 0;
    while index < 256
        invariant
            index <= 256,
            table@.len() == index,
            forall|i: int| 0 <= i < index ==> #[trigger] table@[i] == crc_byte(i as u32),
        decreases 256 - index,
    {
        let mut value = index;
        value = crc_step(value);
        value = crc_step(value);
        value = crc_step(value);
        value = crc_step(value);
        value = crc_step(value);
        value = crc_step(value);
        value = crc_step(value);
        value = crc_step(value);
        table.push(value);
        index = index + 1;
    }
    table
}

pub(crate) fn crc32(data: &[u8]) -> (crc: u32)
    ensures
        crc == crc32_of(data@),
{
    let table = crc_table();
    let mut crc = 0xffff_ffffu32;
    let mut index: usize = 0;
    while index < data.len()
        invariant
            index <= data@.len(),
            table@.len() == 256,
            forall|i: int| 0 <= i < 256 ==> #[trigger] table@[i] == crc_byte(i as u32),
            crc == crc_register(data@.subrange(0, index as int)),
        decreases data@.len() - index,
    {
        let byte = data[index];
        let slot = (crc ^ byte as u32) & 0xff;
        proof {
            let x = crc ^ (byte as u32);
            lemma_crc_byte_splits(x);
            assert(x >> 8u32 == crc >> 8u32) by (bit_vector)
                requires
                    x == crc ^ (byte as u32),
            ;
            assert(slot < 256) by (bit_vector)
                requires
                    slot == (crc ^ byte as u32) & 0xff,
            ;
            let next = data@.subrange(0, index + 1);
            assert(next.drop_last() =~= data@.subrange(0, index as int));
        }
        crc = table[slot as usize] ^ (crc >> 8u32);
        index = index + 1;
    }
    assert(data@.subrange(0, data@.len() as int) =~= data@);
    crc ^ 0xffff_ffff
}

fn adler32(data: &[u8]) -> (sum: u32)
    ensures
        sum == adler32_of(data@),
{
    let mut a: u32 = 1;
    let mut b: u32 = 0;
    let mut index: usize = 0;
    while index < data.len()
        invariant
            index <= data@.len(),
            (a, b) == adler_sums(data@.subrange(0, index as int)),
            a < 65521,
            b < 65521,
        decreases data@.len() - index,
    {
        proof {
            let next = data@.subrange(0, index + 1);
            assert(next.drop_last() =~= data@.subrange(0, index as int));
        }
        a = (a + data[index] as u32) % 65521;
        b = (b + a) % 65521;
        index = index + 1;
    }
    assert(data@.subrange(0, data@.len() as int) =~= data@);
    (b << 16u32) | a
}

// --------------------------------------------------------------- layout

/// Big-endian bytes of a word.
pub open spec fn be32(value: u32) -> Seq<u8> {
    seq![(value >> 24u32) as u8, (value >> 16u32) as u8, (value >> 8u32) as u8, value as u8]
}

/// A PNG chunk: length, kind, data and the CRC of kind and data.
pub open spec fn chunk_bytes(kind: Seq<u8>, data: Seq<u8>) -> Seq<u8> {
    be32(data.len() as u32) + kind + data + be32(crc32_of(kind + data))
}

/// The three bytes a pixel is stored as: red, green, blue.
pub open spec fn pixel_bytes(pixel: u32) -> Seq<u8> {
    seq![(pixel >> 16u32) as u8, (pixel >> 8u32) as u8, pixel as u8]
}

/// The first `count` pixels of row `y`.
pub open spec fn row_prefix(pixels: Seq<u32>, width: int, y: int, count: int) -> Seq<u8>
    decreases count,
{
    if count <= 0 {
        Seq::empty()
    } else {
        row_prefix(pixels, width, y, count - 1) + pixel_bytes(pixels[y * width + count - 1])
    }
}

/// The filtered image: each row starts with filter type zero.
pub open spec fn raw_image(pixels: Seq<u32>, width: int, rows: int) -> Seq<u8>
    decreases rows,
{
    if rows <= 0 {
        Seq::empty()
    } else {
        raw_image(pixels, width, rows - 1) + seq![0u8] + row_prefix(pixels, width, rows - 1, width)
    }
}

/// Stored (uncompressed) deflate blocks of at most 65535 bytes each,
/// from `start` on.
pub open spec fn stored_blocks(raw: Seq<u8>, start: int) -> Seq<u8>
    decreases raw.len() - start,
{
    if start < 0 || start >= raw.len() {
        Seq::empty()
    } else {
        let end = if start + 65535 < raw.len() {
            start + 65535
        } else {
            raw.len() as int
        };
        let last: u8 = if start + 65535 >= raw.len() {
            1
        } else {
            0
        };
        let size = (end - start) as u16;
        seq![last, size as u8, (size >> 8u16) as u8, (!size) as u8, ((!size) >> 8u16) as u8]
            + raw.subrange(start, end) + stored_blocks(raw, end)
    }
}

/// A zlib stream holding the raw image in stored blocks.
pub open spec fn zlib_stored(raw: Seq<u8>) -> Seq<u8> {
    seq![0x78u8, 0x01u8] + stored_blocks(raw, 0) + be32(adler32_of(raw))
}

/// The PNG signature.
pub open spec fn png_signature() -> Seq<u8> {
    seq![0x89u8, 0x50u8, 0x4eu8, 0x47u8, 0x0du8, 0x0au8, 0x1au8, 0x0au8]
}

/// The IHDR fields: size, 8 bit depth, truecolour, no interlace.
pub open spec fn ihdr_data(width: u32, height: u32) -> Seq<u8> {
    be32(width) + be32(height) + seq![8u8, 2u8, 0u8, 0u8, 0u8]
}

pub open spec fn ihdr_kind() -> Seq<u8> {
    seq![0x49u8, 0x48u8, 0x44u8, 0x52u8]
}

pub open spec fn idat_kind() -> Seq<u8> {
    seq![0x49u8, 0x44u8, 0x41u8, 0x54u8]
}

pub open spec fn iend_kind() -> Seq<u8> {
    seq![0x49u8, 0x45u8, 0x4eu8, 0x44u8]
}

/// The whole file for an image.
pub open spec fn png_file(pixels: Seq<u32>, width: int, height: int) -> Seq<u8> {
    png_signature() + chunk_bytes(ihdr_kind(), ihdr_data(width as u32, height as u32))
        + chunk_bytes(idat_kind(), zlib_stored(raw_image(pixels, width, height))) + chunk_bytes(
        iend_kind(),
        Seq::empty(),
    )
}

fn push_be32(output: &mut Vec<u8>, value: u32)
    ensures
        final(output)@ == old(output)@ + be32(value),
{
    output.push((value >> 24u32) as u8);
    output.push((value >> 16u32) as u8);
    output.push((value >> 8u32) as u8);
    output.push(value as u8);
    assert(output@ =~= old(output)@ + be32(value));
}

fn push_all(output: &mut Vec<u8>, data: &[u8])
    ensures
        final(output)@ == old(output)@ + data@,
{
    let mut index: usize = 0;
    while index < data.len()
        invariant
            index <= data@.len(),
            output@ == old(output)@ + data@.subrange(0, index as int),
        decreases data@.len() - index,
    {
        output.push(data[index]);
        index = index + 1;
        assert(output@ =~= old(output)@ + data@.subrange(0, index as int));
    }
    assert(data@.subrange(0, data@.len() as int) =~= data@);
}

fn chunk(output: &mut Vec<u8>, kind: &[u8; 4], data: &[u8])
    ensures
        final(output)@ == old(output)@ + chunk_bytes(kind@, data@),
{
    push_be32(output, data.len() as u32);
    let mut body: Vec<u8> = Vec::new();
    push_all(&mut body, kind.as_slice());
    push_all(&mut body, data);
    push_all(output, body.as_slice());
    let crc = crc32(body.as_slice());
    push_be32(output, crc);
    assert(output@ =~= old(output)@ + chunk_bytes(kind@, data@));
}

fn raw_rows(pixels: &[u32], width: usize, height: usize) -> (raw: Vec<u8>)
    requires
        width * height <= pixels@.len(),
    ensures
        raw@ == raw_image(pixels@, width as int, height as int),
{
    let mut raw: Vec<u8> = Vec::new();
    let total = pixels.len();
    let mut y: usize = 0;
    while y < height
        invariant
            y <= height,
            width * height <= pixels@.len(),
            total == pixels@.len(),
            raw@ == raw_image(pixels@, width as int, y as int),
        decreases height - y,
    {
        raw.push(0);
        let ghost row_start = raw@;
        let mut x: usize = 0;
        while x < width
            invariant
                x <= width,
                y < height,
                width * height <= pixels@.len(),
                total == pixels@.len(),
                raw@ == row_start + row_prefix(pixels@, width as int, y as int, x as int),
            decreases width - x,
        {
            proof {
                assert(y * width + x < width * height) by (nonlinear_arith)
                    requires
                        y < height,
                        x < width,
                ;
                assert(y * width + x < total);
            }
            let pixel = pixels[y * width + x];
            raw.push((pixel >> 16u32) as u8);
            raw.push((pixel >> 8u32) as u8);
            raw.push(pixel as u8);
            x = x + 1;
            assert(raw@ =~= row_start + row_prefix(pixels@, width as int, y as int, x as int));
        }
        y = y + 1;
        assert(raw@ =~= raw_image(pixels@, width as int, y as int));
    }
    raw
}

fn deflate_stored(raw: &[u8]) -> (stream: Vec<u8>)
    ensures
        stream@ == zlib_stored(raw@),
{
    let mut deflate: Vec<u8> = vec![0x78, 0x01];
    let mut start: usize = 0;
    while start < raw.len()
        invariant
            start <= raw@.len(),
            deflate@ + stored_blocks(raw@, start as int) == seq![0x78u8, 0x01u8] + stored_blocks(
                raw@,
                0,
            ),
        decreases raw@.len() - start,
    {
        let end = if raw.len() - start > 65535 {
            start + 65535
        } else {
            raw.len()
        };
        let last: u8 = if raw.len() - start <= 65535 {
            1
        } else {
            0
        };
        let size = (end - start) as u16;
        let ghost d0 = deflate@;
        deflate.push(last);
        deflate.push(size as u8);
        deflate.push((size >> 8u16) as u8);
        deflate.push((!size) as u8);
        deflate.push(((!size) >> 8u16) as u8);
        let ghost before = deflate@;
        let mut index = start;
        while index < end
            invariant
                start <= index <= end,
                end <= raw@.len(),
                deflate@ == before + raw@.subrange(start as int, index as int),
            decreases end - index,
        {
            deflate.push(raw[index]);
            index = index + 1;
            assert(deflate@ =~= before + raw@.subrange(start as int, index as int));
        }
        proof {
            let header = seq![last, size as u8, (size >> 8u16) as u8, (!size) as u8, ((!size)
                >> 8u16) as u8];
            assert(stored_blocks(raw@, start as int) == header + raw@.subrange(
                start as int,
                end as int,
            ) + stored_blocks(raw@, end as int));
            assert(before =~= d0 + header);
            assert(deflate@ + stored_blocks(raw@, end as int) =~= d0 + stored_blocks(
                raw@,
                start as int,
            ));
        }
        start = end;
    }
    let sum = adler32(raw);
    push_be32(&mut deflate, sum);
    deflate
}

/// Encodes XRGB8888 pixels as a PNG with stored (uncompressed) deflate
/// blocks.
pub fn encode(pixels: &[u32], width: usize, height: usize) -> (png: Vec<u8>)
    requires
        width * height <= pixels@.len(),
    ensures
        png@ == png_file(pixels@, width as int, height as int),
{
    let raw = raw_rows(pixels, width, height);
    let deflate = deflate_stored(raw.as_slice());

    let mut png: Vec<u8> = vec![0x89, 0x50, 0x4e, 0x47, 0x0d, 0x0a, 0x1a, 0x0a];
    let mut header: Vec<u8> = Vec::new();
    push_be32(&mut header, width as u32);
    push_be32(&mut header, height as u32);
    header.push(8);
    header.push(2);
    header.push(0);
    header.push(0);
    header.push(0);
    assert(header@ =~= ihdr_data(width as u32, height as u32));
    let ihdr: [u8; 4] = [0x49, 0x48, 0x44, 0x52];
    let idat: [u8; 4] = [0x49, 0x44, 0x41, 0x54];
    let iend: [u8; 4] = [0x49, 0x45, 0x4e, 0x44];
    assert(ihdr@ =~= ihdr_kind());
    assert(idat@ =~= idat_kind());
    assert(iend@ =~= iend_kind());
    chunk(&mut png, &ihdr, header.as_slice());
    chunk(&mut png, &idat, deflate.as_slice());
    let empty: Vec<u8> = Vec::new();
    assert(empty@ =~= Seq::<u8>::empty());
    chunk(&mut png, &iend, empty.as_slice());
    assert(png@ =~= png_file(pixels@, width as int, height as int));
    png
}

} // verus!
