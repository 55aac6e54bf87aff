//! Kitty terminal graphics protocol: where to place a centered image and the
//! escape sequences that transmit and delete it.
//!
//! A transmission is `ESC _ G <key=value,...> ; <base64 payload> ESC \`, split
//! into chunks of at most 4096 payload bytes; the first chunk carries the keys
//! `a=T` (transmit and display), `f=24` (RGB), `s`, `v` (size in pixels), `X`,
//! `Y` (offset inside the cursor cell), `C=1` (keep the cursor), `i=1` (image
//! id), `q=1` (no acknowledgements), and every chunk says with `m` whether more
//! follow.

use vstd::prelude::*;
use base64::Engine;

verus! {

/// Payload bytes per escape sequence.
pub const CHUNK_BYTES: usize = 4096;

/// The character (as an ASCII byte) of a 6-bit value in the standard base64
/// alphabet `A–Z a–z 0–9 + /`.
pub open spec fn base64_char(v: int) -> u8 {
    if v < 26 {
        (65 + v) as u8
    } else if v < 52 {
        (97 + v - 26) as u8
    } else if v < 62 {
        (48 + v - 52) as u8
    } else if v == 62 {
        43u8
    } else {
        47u8
    }
}

/// Standard base64 with `=` padding: each group of 3 bytes becomes 4
/// characters, big-endian 6 bits at a time; a last group of 2 or 1 bytes
/// becomes 3 or 2 characters followed by `=` or `==`.
pub open spec fn base64_standard(data: Seq<u8>) -> Seq<u8>
    decreases data.len(),
{
    if data.len() == 0 {
        Seq::empty()
    } else {
        let b0 = data[0] as int;
        let b1 = if data.len() > 1 { data[1] as int } else { 0 };
        let b2 = if data.len() > 2 { data[2] as int } else { 0 };
        let c0 = base64_char(b0 / 4);
        let c1 = base64_char((b0 % 4) * 16 + b1 / 16);
        let c2 = if data.len() > 1 { base64_char((b1 % 16) * 4 + b2 / 64) } else { 61u8 };
        let c3 = if data.len() > 2 { base64_char(b2 % 64) } else { 61u8 };
        seq![c0, c1, c2, c3] + if data.len() > 3 {
            base64_standard(data.skip(3))
        } else {
            Seq::empty()
        }
    }
}

/// Base64 of `data` with the standard alphabet and padding
/// (`base64::engine::general_purpose::STANDARD.encode`), as bytes. The crate
/// makes `4 · ⌈n / 3⌉` output bytes for `n` input bytes and panics when that
/// length overflows `usize`.
#[verifier::external_body]
fn base64_encode(data: &[u8]) -> (out: Vec<u8>)
    requires
        4 * ((data@.len() + 2) / 3) <= usize::MAX,
    ensures
        out@ == base64_standard(data@),
        out@.len() == 4 * ((data@.len() + 2) / 3),
{
    base64::engine::general_purpose::STANDARD.encode(data).into_bytes()
}

/// ASCII decimal digits of `n`, most significant first.
pub open spec fn decimal(n: nat) -> Seq<u8>
    decreases n,
{
    if n < 10 {
        seq![(48 + n) as u8]
    } else {
        decimal(n / 10) + seq![(48 + n % 10) as u8]
    }
}

/// Base-10 value of a string of ASCII digits, most significant first.
pub open spec fn digits_value(s: Seq<u8>) -> int
    decreases s.len(),
{
    if s.len() == 0 {
        0
    } else {
        digits_value(s.drop_last()) * 10 + (s.last() as int - 48)
    }
}

/// The decimal digits of `n` read back as `n`: a non-empty string of ASCII
/// digits, with no leading zero unless `n` is 0, whose base-10 value is `n`.
pub proof fn lemma_decimal_round_trip(n: nat)
    ensures
        decimal(n).len() > 0,
        forall|i: int| 0 <= i < decimal(n).len() ==> 48 <= #[trigger] decimal(n)[i] <= 57,
        n > 0 ==> decimal(n)[0] != 48,
        digits_value(decimal(n)) == n,
    decreases n,
{
    if n >= 10 {
        lemma_decimal_round_trip(n / 10);
        let d = decimal(n);
        assert(d.drop_last() =~= decimal(n / 10));
        assert(d[0] == decimal(n / 10)[0]);
        vstd::arithmetic::div_mod::lemma_fundamental_div_mod(n as int, 10);
        assert(d.last() as int == 48 + n % 10);
        assert(digits_value(d) == digits_value(decimal(n / 10)) * 10 + n % 10);
        assert(digits_value(d) == n);
        assert forall|i: int| 0 <= i < d.len() implies 48 <= #[trigger] d[i] <= 57 by {
            if i < d.len() - 1 {
                assert(d[i] == decimal(n / 10)[i]);
            }
        }
    } else {
        let d = decimal(n);
        assert(d.drop_last() =~= Seq::<u8>::empty());
        assert(d.last() as int == 48 + n);
        assert(digits_value(d.drop_last()) == 0);
        assert(digits_value(d) == n);
    }
}

/// Appends the decimal digits of `n`.
fn push_decimal(out: &mut Vec<u8>, n: u32)
    ensures
        final(out)@ == old(out)@ + decimal(n as nat),
    decreases n,
{
    if n < 10 {
        out.push(48 + n as u8);
    } else {
        push_decimal(out, n / 10);
        out.push(48 + (n % 10) as u8);
    }
}

/// Appends bytes.
fn push_bytes(out: &mut Vec<u8>, bytes: &[u8])
    ensures
        final(out)@ == old(out)@ + bytes@,
{
    let mut k: usize = 0;
    while k < bytes.len()
        invariant
            k <= bytes.len(),
            out@ == old(out)@ + bytes@.take(k as int),
        decreases bytes.len() - k,
    {
        out.push(bytes[k]);
        k = k + 1;
        proof {
            assert(out@ =~= old(out)@ + bytes@.take(k as int));
        }
    }
    proof {
        assert(bytes@.take(bytes.len() as int) =~= bytes@);
    }
}

/// `ESC _ G`: start of a graphics escape sequence.
pub open spec fn apc_start() -> Seq<u8> {
    seq![0x1bu8, 0x5fu8, 0x47u8]
}

/// `ESC \`: end of an escape sequence.
pub open spec fn apc_end() -> Seq<u8> {
    seq![0x1bu8, 0x5cu8]
}

/// `a=T,f=24,s=<width>,v=<height>,X=<x_offset>,Y=<y_offset>,C=1,i=1,q=1`.
pub open spec fn transmit_keys(width: u32, height: u32, x_offset: u32, y_offset: u32) -> Seq<u8> {
    seq![97u8, 61u8, 84u8, 44u8, 102u8, 61u8, 50u8, 52u8, 44u8, 115u8, 61u8] + decimal(width as nat) + seq![
        44u8,
        118u8,
        61u8,
    ] + decimal(height as nat) + seq![44u8, 88u8, 61u8] + decimal(x_offset as nat) + seq![44u8, 89u8, 61u8]
        + decimal(y_offset as nat) + seq![44u8, 67u8, 61u8, 49u8, 44u8, 105u8, 61u8, 49u8, 44u8, 113u8, 61u8, 49u8]
}

/// Number of chunks a payload of `len` bytes is cut into.
pub open spec fn chunk_count(len: int) -> int {
    (len + 4095) / 4096
}

/// Chunk `i` of the payload: bytes `4096 i .. min(4096 (i + 1), len)`.
pub open spec fn chunk(payload: Seq<u8>, i: int) -> Seq<u8> {
    let end = if 4096 * (i + 1) < payload.len() {
        4096 * (i + 1)
    } else {
        payload.len() as int
    };
    payload.subrange(4096 * i, end)
}

/// The escape sequence carrying chunk `i` of `count`: keys only in the first,
/// `m=1` while more follow, `m=0` on the last (a lone chunk says `,m=0`).
pub open spec fn chunk_sequence(payload: Seq<u8>, keys: Seq<u8>, i: int, count: int) -> Seq<u8> {
    let more = if count > 1 {
        (if i == 0 {
            seq![44u8]
        } else {
            Seq::empty()
        }) + seq![109u8, 61u8, if i + 1 < count {
            49u8
        } else {
            48u8
        }]
    } else {
        seq![44u8, 109u8, 61u8, 48u8]
    };
    apc_start() + (if i == 0 {
        keys
    } else {
        Seq::empty()
    }) + more + seq![59u8] + chunk(payload, i) + apc_end()
}

/// The first `k` chunk sequences, concatenated.
pub open spec fn chunk_sequences(payload: Seq<u8>, keys: Seq<u8>, k: int) -> Seq<u8>
    decreases k,
{
    if k <= 0 {
        Seq::empty()
    } else {
        chunk_sequences(payload, keys, k - 1) + chunk_sequence(
            payload,
            keys,
            k - 1,
            chunk_count(payload.len() as int),
        )
    }
}

/// The payloads of the first `k` chunks, concatenated.
pub open spec fn chunk_payloads(payload: Seq<u8>, k: int) -> Seq<u8>
    decreases k,
{
    if k <= 0 {
        Seq::empty()
    } else {
        chunk_payloads(payload, k - 1) + chunk(payload, k - 1)
    }
}

/// No chunk carries more than 4096 payload bytes, and the chunks, in order,
/// give back the whole payload.
pub proof fn lemma_chunks_cover_payload(payload: Seq<u8>)
    ensures
        forall|i: int| 0 <= i < chunk_count(payload.len() as int) ==> #[trigger] chunk(payload, i).len() <= 4096,
        chunk_payloads(payload, chunk_count(payload.len() as int)) == payload,
{
    let n = payload.len() as int;
    let count = chunk_count(n);
    assert forall|i: int| 0 <= i < count implies #[trigger] chunk(payload, i).len() <= 4096 by {
        assert(4096 * i < n) by (nonlinear_arith)
            requires
                0 <= i < count,
                count == (n + 4095) / 4096,
        ;
    }
    lemma_chunk_payloads_prefix(payload, count);
    assert(4096 * count >= n) by (nonlinear_arith)
        requires
            count == (n + 4095) / 4096,
            n >= 0,
    ;
    assert(payload.take(n) =~= payload);
}

/// The first `k` chunks make up the first `min(4096 k, len)` payload bytes.
proof fn lemma_chunk_payloads_prefix(payload: Seq<u8>, k: int)
    requires
        0 <= k <= chunk_count(payload.len() as int),
    ensures
        chunk_payloads(payload, k) == payload.take(
            if 4096 * k < payload.len() { 4096 * k } else { payload.len() as int },
        ),
    decreases k,
{
    let n = payload.len() as int;
    if k > 0 {
        lemma_chunk_payloads_prefix(payload, k - 1);
        assert(4096 * (k - 1) < n) by (nonlinear_arith)
            requires
                0 < k <= chunk_count(n),
                chunk_count(n) == (n + 4095) / 4096,
        ;
        let end = if 4096 * k < n { 4096 * k } else { n };
        assert(payload.take(4096 * (k - 1)) + payload.subrange(4096 * (k - 1), end) =~= payload.take(end));
    }
}

/// The escape sequences that transmit and display an RGB image of
/// `width × height` pixels at offset `(x_offset, y_offset)` inside the cursor
/// cell: the pixels are base64-encoded and cut into chunks of 4096 bytes.
/// An empty image gives no sequence at all.
pub fn display_rgb_command(pixels: &[u8], width: u32, height: u32, x_offset: u32, y_offset: u32) -> (out: Vec<u8>)
    requires
        4 * ((pixels@.len() + 2) / 3) <= usize::MAX,
    ensures
        out@ == chunk_sequences(
            base64_standard(pixels@),
            transmit_keys(width, height, x_offset, y_offset),
            chunk_count(base64_standard(pixels@).len() as int),
        ),
{
    let encoded = base64_encode(pixels);
    transmit_sequences(encoded.as_slice(), width, height, x_offset, y_offset)
}

/// The escape sequences carrying an already encoded `payload`: chunk `i`
/// holds payload bytes `4096 i .. 4096 (i + 1)`; the first also carries the
/// transmit keys, and each says whether more follow.
pub fn transmit_sequences(payload: &[u8], width: u32, height: u32, x_offset: u32, y_offset: u32) -> (out: Vec<u8>)
    ensures
        out@ == chunk_sequences(
            payload@,
            transmit_keys(width, height, x_offset, y_offset),
            chunk_count(payload@.len() as int),
        ),
{
    let ghost keys = transmit_keys(width, height, x_offset, y_offset);
    let n = payload.len();
    let count: usize = n / CHUNK_BYTES + if n % CHUNK_BYTES == 0 {
        0
    } else {
        1
    };
    proof {
        lemma_chunk_count(n as int, count as int);
    }
    let mut out: Vec<u8> = Vec::new();
    let mut index: usize = 0;
    while index < count
        invariant
            n == payload@.len(),
            count == chunk_count(n as int),
            keys == transmit_keys(width, height, x_offset, y_offset),
            index <= count,
            out@ == chunk_sequences(payload@, keys, index as int),
        decreases count - index,
    {
        push_chunk_sequence(&mut out, payload, width, height, x_offset, y_offset, index, count);
        index = index + 1;
    }
    out
}

proof fn lemma_chunk_count(n: int, count: int)
    requires
        n >= 0,
        count == n / 4096 + if n % 4096 == 0 { 0int } else { 1int },
    ensures
        count == chunk_count(n),
{
    vstd::arithmetic::div_mod::lemma_fundamental_div_mod(n, 4096);
    vstd::arithmetic::div_mod::lemma_fundamental_div_mod(n + 4095, 4096);
    vstd::arithmetic::div_mod::lemma_mod_bound(n, 4096);
    vstd::arithmetic::div_mod::lemma_mod_bound(n + 4095, 4096);
}

/// Appends `a=T,f=24,s=..,v=..,X=..,Y=..,C=1,i=1,q=1`.
fn push_transmit_keys(out: &mut Vec<u8>, width: u32, height: u32, x_offset: u32, y_offset: u32)
    ensures
        final(out)@ == old(out)@ + transmit_keys(width, height, x_offset, y_offset),
{
    let ghost start = out@;
    push_bytes(out, &[97u8, 61u8, 84u8, 44u8, 102u8, 61u8, 50u8, 52u8, 44u8, 115u8, 61u8]);
    push_decimal(out, width);
    push_bytes(out, &[44u8, 118u8, 61u8]);
    push_decimal(out, height);
    push_bytes(out, &[44u8, 88u8, 61u8]);
    push_decimal(out, x_offset);
    push_bytes(out, &[44u8, 89u8, 61u8]);
    push_decimal(out, y_offset);
    push_bytes(out, &[44u8, 67u8, 61u8, 49u8, 44u8, 105u8, 61u8, 49u8, 44u8, 113u8, 61u8, 49u8]);
    proof {
        assert(out@ =~= start + transmit_keys(width, height, x_offset, y_offset));
    }
}

/// Appends the escape sequence of chunk `index` out of `count`.
fn push_chunk_sequence(
    out: &mut Vec<u8>,
    payload: &[u8],
    width: u32,
    height: u32,
    x_offset: u32,
    y_offset: u32,
    index: usize,
    count: usize,
)
    requires
        count == chunk_count(payload@.len() as int),
        index < count,
    ensures
        final(out)@ == old(out)@ + chunk_sequence(
            payload@,
            transmit_keys(width, height, x_offset, y_offset),
            index as int,
            count as int,
        ),
{
    let ghost before = out@;
    let ghost keys = transmit_keys(width, height, x_offset, y_offset);
    let n = payload.len();
    push_bytes(out, &[0x1bu8, 0x5fu8, 0x47u8]);
    if index == 0 {
        push_transmit_keys(out, width, height, x_offset, y_offset);
    }
    if count > 1 {
        if index == 0 {
            out.push(44u8);
        }
        out.push(109u8);
        out.push(61u8);
        out.push(if index + 1 < count {
            49u8
        } else {
            48u8
        });
    } else {
        push_bytes(out, &[44u8, 109u8, 61u8, 48u8]);
    }
    out.push(59u8);
    assert(index * 4096 < n) by (nonlinear_arith)
        requires
            index < count,
            count == (n + 4095) / 4096,
    ;
    let start = index * CHUNK_BYTES;
    let end = if n - start > CHUNK_BYTES {
        start + CHUNK_BYTES
    } else {
        n
    };
    let ghost mid = out@;
    let mut k = start;
    while k < end
        invariant
            start <= k <= end,
            end <= n,
            n == payload@.len(),
            out@ == mid + payload@.subrange(start as int, k as int),
        decreases end - k,
    {
        out.push(payload[k]);
        k = k + 1;
        proof {
            assert(out@ =~= mid + payload@.subrange(start as int, k as int));
        }
    }
    push_bytes(out, &[0x1bu8, 0x5cu8]);
    proof {
        assert(chunk(payload@, index as int) =~= payload@.subrange(start as int, end as int));
        assert(out@ =~= before + chunk_sequence(payload@, keys, index as int, count as int));
    }
}

/// The escape sequence that deletes every image: `ESC _ G a=d,q=1; ESC \`.
pub fn delete_all_command() -> (out: Vec<u8>)
    ensures
        out@ == apc_start() + seq![97u8, 61u8, 100u8, 44u8, 113u8, 61u8, 49u8, 59u8] + apc_end(),
{
    let mut out: Vec<u8> = Vec::new();
    push_bytes(&mut out, &[0x1b, 0x5f, 0x47, 97u8, 61u8, 100u8, 44u8, 113u8, 61u8, 49u8, 59u8, 0x1b, 0x5c]);
    proof {
        assert(out@ =~= apc_start() + seq![97u8, 61u8, 100u8, 44u8, 113u8, 61u8, 49u8, 59u8] + apc_end());
    }
    out
}

/// Terminal size in pixels: the reported pixel size when both sides are
/// known, else `8 × 16` pixels per text cell.
pub fn pixel_dimensions(columns: u16, rows: u16, width: u16, height: u16) -> (d: (u32, u32))
    ensures
        width > 0 && height > 0 ==> d == (width as u32, height as u32),
        !(width > 0 && height > 0) ==> d == ((columns * 8) as u32, (rows * 16) as u32),
{
    if width > 0 && height > 0 {
        return (width as u32, height as u32);
    }
    (columns as u32 * 8, rows as u32 * 16)
}

/// Where a centered image is anchored: the text cell and the pixel offset
/// inside that cell of the image's top-left corner.
#[derive(Clone, Copy, Debug, PartialEq, Eq, Structural)]
pub struct Placement {
    pub col: u16,
    pub row: u16,
    pub x_offset: u32,
    pub y_offset: u32,
}

/// Centers a `width × height` image on a `screen_w × screen_h` pixel screen of
/// `columns × rows` text cells: the top-left corner goes to
/// `((screen_w - width) / 2, (screen_h - height) / 2)` (0 when the image is
/// larger), split into a cell (column and row numbers truncated to 16 bits)
/// and an offset inside it; cells are at least one pixel on each side.
pub fn placement(screen_w: u32, screen_h: u32, columns: u16, rows: u16, width: u32, height: u32) -> (p: Placement)
    ensures
        ({
            let left: int = (if screen_w > width { screen_w - width } else { 0int }) / 2;
            let top: int = (if screen_h > height { screen_h - height } else { 0int }) / 2;
            let cols: int = if columns > 0 { columns as int } else { 1 };
            let rws: int = if rows > 0 { rows as int } else { 1 };
            let cell_w: int = if screen_w as int / cols > 0 { screen_w as int / cols } else { 1 };
            let cell_h: int = if screen_h as int / rws > 0 { screen_h as int / rws } else { 1 };
            &&& p.col == (left / cell_w) as u16
            &&& p.row == (top / cell_h) as u16
            &&& p.x_offset == left % cell_w
            &&& p.y_offset == top % cell_h
        }),
{
    let top_left_x = screen_w.saturating_sub(width) / 2;
    let top_left_y = screen_h.saturating_sub(height) / 2;
    let columns = if columns > 1 {
        columns
    } else {
        1
    };
    let rows = if rows > 1 {
        rows
    } else {
        1
    };
    let cell_w = screen_w / columns as u32;
    let cell_w = if cell_w > 1 {
        cell_w
    } else {
        1
    };
    let cell_h = screen_h / rows as u32;
    let cell_h = if cell_h > 1 {
        cell_h
    } else {
        1
    };
    let col = top_left_x / cell_w;
    let row = top_left_y / cell_h;
    Placement { col: col as u16, row: row as u16, x_offset: top_left_x % cell_w, y_offset: top_left_y % cell_h }
}

} // verus!
