//! Base64 and the 32-bit BMP container used for process icons.

use vstd::prelude::*;
use crate::text::{push_char, string_from_chars};

verus! {

/// The Base64 symbol for a 6-bit value (`A-Z a-z 0-9 + /`).
pub open spec fn b64_symbol(v: nat) -> char {
    if v < 26 {
        (65 + v) as char
    } else if v < 52 {
        (97 + (v - 26)) as char
    } else if v < 62 {
        (48 + (v - 52)) as char
    } else if v == 62 {
        '+'
    } else {
        '/'
    }
}

/// Encoding of one group of 1 to 3 bytes (missing bytes count as zero; the
/// symbols they would complete become `=`).
pub open spec fn b64_group(g: Seq<u8>) -> Seq<char> {
    let b0 = g[0] as nat;
    let b1 = if g.len() > 1 { g[1] as nat } else { 0 };
    let b2 = if g.len() > 2 { g[2] as nat } else { 0 };
    seq![
        b64_symbol(b0 / 4),
        b64_symbol((b0 % 4) * 16 + b1 / 16),
        if g.len() > 1 { b64_symbol((b1 % 16) * 4 + b2 / 64) } else { '=' },
        if g.len() > 2 { b64_symbol(b2 % 64) } else { '=' },
    ]
}

/// Standard padded Base64 of `data`.
pub open spec fn base64(data: Seq<u8>) -> Seq<char>
    decreases data.len(),
{
    if data.len() == 0 {
        Seq::empty()
    } else if data.len() <= 3 {
        b64_group(data)
    } else {
        b64_group(data.take(3)) + base64(data.skip(3))
    }
}

fn symbol(v: u8) -> (c: char)
    requires
        v < 64,
    ensures
        c == b64_symbol(v as nat),
{
    if v < 26 {
        (65 + v) as char
    } else if v < 52 {
        (97 + (v - 26)) as char
    } else if v < 62 {
        (48 + (v - 52)) as char
    } else if v == 62 {
        '+'
    } else {
        '/'
    }
}

proof fn lemma_base64_step(data: Seq<u8>, i: int)
    requires
        0 <= i < data.len(),
        i % 3 == 0,
    ensures
        base64(data.skip(i)) == b64_group(data.subrange(i, if i + 3 < data.len() { i + 3 } else { data.len() as int }))
            + base64(data.skip(if i + 3 < data.len() { i + 3 } else { data.len() as int })),
{
    let rest = data.skip(i);
    if rest.len() <= 3 {
        assert(rest =~= data.subrange(i, data.len() as int));
        assert(data.skip(data.len() as int) =~= Seq::<u8>::empty());
        assert(b64_group(rest) + Seq::<char>::empty() =~= b64_group(rest));
    } else {
        assert(rest.take(3) =~= data.subrange(i, i + 3));
        assert(rest.skip(3) =~= data.skip(i + 3));
    }
}

/// Standard padded Base64 encoding of `data`.
pub fn base64_encode(data: &[u8]) -> (s: String)
    ensures
        s@ == base64(data@),
{
    let mut out: Vec<char> = Vec::new();
    let mut i: usize = 0;
    let n = data.len();
    assert(data@.skip(0) =~= data@);
    while i < n
        invariant
            n == data@.len(),
            i <= n,
            i % 3 == 0 || i == n,
            out@ + base64(data@.skip(i as int)) == base64(data@),
        decreases n - i,
    {
        let end = if n - i > 3 { i + 3 } else { n };
        proof {
            lemma_base64_step(data@, i as int);
        }
        let b0 = data[i];
        let b1: u8 = if end - i > 1 { data[i + 1] } else { 0 };
        let b2: u8 = if end - i > 2 { data[i + 2] } else { 0 };
        let ghost g = data@.subrange(i as int, end as int);
        assert(b0 >> 2u8 == b0 / 4) by (bit_vector);
        assert(((b0 & 3u8) << 4u8) | (b1 >> 4u8) == (b0 % 4) * 16 + b1 / 16) by (bit_vector);
        assert(((b1 & 15u8) << 2u8) | (b2 >> 6u8) == (b1 % 16) * 4 + b2 / 64) by (bit_vector);
        assert(b2 & 63u8 == b2 % 64) by (bit_vector);
        let c0 = symbol(b0 >> 2);
        let c1 = symbol(((b0 & 0x03) << 4) | (b1 >> 4));
        let c2 = if end - i > 1 { symbol(((b1 & 0x0F) << 2) | (b2 >> 6)) } else { '=' };
        let c3 = if end - i > 2 { symbol(b2 & 0x3F) } else { '=' };
        let ghost before = out@;
        out.push(c0);
        out.push(c1);
        out.push(c2);
        out.push(c3);
        proof {
            assert(g[0] == b0);
            assert(b64_group(g) =~= seq![c0, c1, c2, c3]);
            assert(out@ =~= before + b64_group(g));
        }
        i = end;
    }
    proof {
        assert(data@.skip(n as int) =~= Seq::<u8>::empty());
        assert(out@ + Seq::<char>::empty() =~= out@);
    }
    string_from_chars(&out)
}

pub open spec fn le16(x: nat) -> Seq<u8> {
    seq![(x % 256) as u8, ((x / 256) % 256) as u8]
}

pub open spec fn le32(x: nat) -> Seq<u8> {
    seq![
        (x % 256) as u8,
        ((x / 256) % 256) as u8,
        ((x / 65536) % 256) as u8,
        ((x / 16777216) % 256) as u8,
    ]
}

/// Some pixel (4 bytes, alpha last) has a non-zero alpha.
pub open spec fn has_alpha(px: Seq<u8>) -> bool {
    exists|k: int| 0 <= k < px.len() && k % 4 == 3 && #[trigger] px[k] > 0
}

/// The pixels as stored: when no alpha is set (legacy icons), every pixel is
/// made fully opaque.
pub open spec fn stored_pixels(px: Seq<u8>) -> Seq<u8> {
    if has_alpha(px) {
        px
    } else {
        Seq::new(px.len(), |i: int| if i % 4 == 3 { 255u8 } else { px[i] })
    }
}

/// A bottom-up 32-bit BMP file: file header, info header, then the pixels.
pub open spec fn bmp_file(width: nat, height: nat, px: Seq<u8>) -> Seq<u8> {
    let body = stored_pixels(px);
    seq![66u8, 77u8] + le32(54 + body.len()) + le16(0) + le16(0) + le32(54) + le32(40) + le32(width)
        + le32(height) + le16(1) + le16(32) + le32(0) + le32(body.len()) + le32(0) + le32(0)
        + le32(0) + le32(0) + body
}

pub open spec fn icon_uri_prefix() -> Seq<char> {
    "data:image/bmp;base64,"@
}

/// The data URI an icon is shown with.
pub open spec fn icon_data_uri(width: nat, height: nat, px: Seq<u8>) -> Seq<char> {
    icon_uri_prefix() + base64(bmp_file(width, height, px))
}

fn push_le16(v: &mut Vec<u8>, x: u16)
    ensures
        final(v)@ == old(v)@ + le16(x as nat),
{
    v.push((x % 256) as u8);
    v.push(((x / 256) % 256) as u8);
    assert(final(v)@ =~= old(v)@ + le16(x as nat));
}

fn push_le32(v: &mut Vec<u8>, x: u32)
    ensures
        final(v)@ == old(v)@ + le32(x as nat),
{
    v.push((x % 256) as u8);
    v.push(((x / 256) % 256) as u8);
    v.push(((x / 65536) % 256) as u8);
    v.push(((x / 16777216) % 256) as u8);
    assert(final(v)@ =~= old(v)@ + le32(x as nat));
}

/// Build the 32-bit BMP data URI of an icon from its raw BGRA pixel rows
/// (bottom-up), making pixels opaque when the icon carries no alpha.
pub fn bmp_data_uri(width: u32, height: u32, pixels: Vec<u8>) -> (s: String)
    requires
        0 < width <= 256,
        0 < height <= 256,
        pixels@.len() == width * height * 4,
    ensures
        s@ == icon_data_uri(width as nat, height as nat, pixels@),
{
    let mut px = pixels;
    let ghost px0 = px@;
    assert(width * height <= 65536) by (nonlinear_arith)
        requires
            0 < width <= 256,
            0 < height <= 256,
    ;
    let npx = (width * height) as usize;
    assert(px@.len() == npx * 4);
    let mut any_alpha = false;
    let mut i: usize = 0;
    while i < npx
        invariant
            px@ == px0,
            px0.len() == npx * 4,
            i <= npx,
            npx <= 65536,
            !any_alpha ==> forall|j: int| 0 <= j < 4 * i && j % 4 == 3 ==> px0[j] == 0,
            any_alpha ==> has_alpha(px0),
        decreases npx - i,
    {
        if px[4 * i + 3] > 0 {
            any_alpha = true;
        }
        i = i + 1;
    }
    if !any_alpha {
        assert(!has_alpha(px0)) by {
            if has_alpha(px0) {
                let j = choose|j: int| 0 <= j < px0.len() && j % 4 == 3 && #[trigger] px0[j] > 0;
            }
        }
        let mut i: usize = 0;
        while i < npx
            invariant
                px@.len() == px0.len(),
                px0.len() == npx * 4,
                i <= npx,
                npx <= 65536,
                forall|t: int| 0 <= t < px@.len() ==> #[trigger] px@[t] == if t % 4 == 3 && t < 4 * i {
                    255u8
                } else {
                    px0[t]
                },
            decreases npx - i,
        {
            px.set(4 * i + 3, 255);
            i = i + 1;
        }
        assert(px@ =~= stored_pixels(px0));
    } else {
        assert(px@ =~= stored_pixels(px0));
    }
    let image_size = px.len() as u32;
    let mut bmp: Vec<u8> = Vec::new();
    bmp.push(66u8);
    bmp.push(77u8);
    push_le32(&mut bmp, 54 + image_size);
    push_le16(&mut bmp, 0);
    push_le16(&mut bmp, 0);
    push_le32(&mut bmp, 54);
    push_le32(&mut bmp, 40);
    push_le32(&mut bmp, width);
    push_le32(&mut bmp, height);
    push_le16(&mut bmp, 1);
    push_le16(&mut bmp, 32);
    push_le32(&mut bmp, 0);
    push_le32(&mut bmp, image_size);
    push_le32(&mut bmp, 0);
    push_le32(&mut bmp, 0);
    push_le32(&mut bmp, 0);
    push_le32(&mut bmp, 0);
    let ghost head = bmp@;
    bmp.append(&mut px);
    assert(bmp@ =~= bmp_file(width as nat, height as nat, px0));
    let b64 = base64_encode(bmp.as_slice());
    let mut out = String::from_str("data:image/bmp;base64,");
    proof {
        reveal_strlit("data:image/bmp;base64,");
    }
    out.append(b64.as_str());
    out
}


/// Base64 turns every started group of three bytes into four symbols.
pub proof fn base64_length(data: Seq<u8>)
    ensures
        base64(data).len() == 4 * ((data.len() + 2) / 3),
    decreases data.len(),
{
    if data.len() > 3 {
        base64_length(data.skip(3));
    }
}

/// The 6-bit value of a Base64 symbol (0 for any other character).
pub open spec fn b64_value(c: char) -> nat {
    if 'A' <= c <= 'Z' {
        (c as nat - 65) as nat
    } else if 'a' <= c <= 'z' {
        (c as nat - 97 + 26) as nat
    } else if '0' <= c <= '9' {
        (c as nat - 48 + 52) as nat
    } else if c == '+' {
        62
    } else {
        63
    }
}

/// Decoding of one group of four symbols into 1 to 3 bytes (`=` in the third
/// or fourth place marks bytes that are not there).
pub open spec fn b64_decode_group(q: Seq<char>) -> Seq<u8> {
    let v0 = b64_value(q[0]);
    let v1 = b64_value(q[1]);
    let v2 = b64_value(q[2]);
    let v3 = b64_value(q[3]);
    let b0 = (v0 * 4 + v1 / 16) as u8;
    let b1 = ((v1 % 16) * 16 + v2 / 4) as u8;
    let b2 = ((v2 % 4) * 64 + v3) as u8;
    if q[2] == '=' {
        seq![b0]
    } else if q[3] == '=' {
        seq![b0, b1]
    } else {
        seq![b0, b1, b2]
    }
}

/// Standard padded Base64 decoding, group by group.
pub open spec fn base64_decode(s: Seq<char>) -> Seq<u8>
    decreases s.len(),
{
    if s.len() < 4 {
        Seq::empty()
    } else {
        b64_decode_group(s.take(4)) + base64_decode(s.skip(4))
    }
}

proof fn lemma_symbol_value(v: nat)
    requires
        v < 64,
    ensures
        b64_value(b64_symbol(v)) == v,
        b64_symbol(v) != '=',
{
    if v < 26 {
        assert((65 + v) as char as nat == 65 + v);
    } else if v < 52 {
        assert((97 + (v - 26)) as char as nat == 97 + (v - 26));
    } else if v < 62 {
        assert((48 + (v - 52)) as char as nat == 48 + (v - 52));
    }
}

proof fn lemma_group_round_trip(g: Seq<u8>)
    requires
        1 <= g.len() <= 3,
    ensures
        b64_decode_group(b64_group(g)) == g,
{
    let b0 = g[0] as nat;
    let b1 = if g.len() > 1 { g[1] as nat } else { 0 };
    let b2 = if g.len() > 2 { g[2] as nat } else { 0 };
    let v0 = b0 / 4;
    let v1 = (b0 % 4) * 16 + b1 / 16;
    let v2 = (b1 % 16) * 4 + b2 / 64;
    let v3 = b2 % 64;
    assert(v0 < 64 && v1 < 64 && v2 < 64 && v3 < 64 && v0 * 4 + v1 / 16 == b0 && (v1 % 16) * 16 + v2 / 4 == b1
        && (v2 % 4) * 64 + v3 == b2) by (nonlinear_arith)
        requires
            b0 < 256,
            b1 < 256,
            b2 < 256,
            v0 == b0 / 4,
            v1 == (b0 % 4) * 16 + b1 / 16,
            v2 == (b1 % 16) * 4 + b2 / 64,
            v3 == b2 % 64,
    ;
    lemma_symbol_value(v0);
    lemma_symbol_value(v1);
    lemma_symbol_value(v2);
    lemma_symbol_value(v3);
    assert(b64_decode_group(b64_group(g)) =~= g);
}

/// Base64 round trip: decoding what [`base64_encode`] produces gives back
/// the bytes.
pub proof fn base64_round_trip(data: Seq<u8>)
    ensures
        base64_decode(base64(data)) == data,
    decreases data.len(),
{
    if data.len() > 0 {
        if data.len() <= 3 {
            lemma_group_round_trip(data);
            let e = base64(data);
            assert(e.take(4) =~= e);
            assert(e.skip(4) =~= Seq::<char>::empty());
            assert(base64_decode(e.skip(4)) =~= Seq::<u8>::empty());
            assert(b64_decode_group(e.take(4)) + Seq::<u8>::empty() =~= data);
        } else {
            let g = data.take(3);
            let rest = data.skip(3);
            lemma_group_round_trip(g);
            base64_round_trip(rest);
            let e = base64(data);
            assert(e.take(4) =~= b64_group(g));
            assert(e.skip(4) =~= base64(rest));
            assert(g + rest =~= data);
        }
    }
}

/// A character of the Base64 alphabet: `A-Z a-z 0-9 + /`.
pub open spec fn b64_char(c: char) -> bool {
    ('A' <= c <= 'Z') || ('a' <= c <= 'z') || ('0' <= c <= '9') || c == '+' || c == '/'
}

proof fn lemma_symbol_in_alphabet(v: nat)
    requires
        v < 64,
    ensures
        b64_char(b64_symbol(v)),
{
    if v < 26 {
        assert((65 + v) as char as nat == 65 + v);
    } else if v < 52 {
        assert((97 + (v - 26)) as char as nat == 97 + (v - 26));
    } else if v < 62 {
        assert((48 + (v - 52)) as char as nat == 48 + (v - 52));
    }
}

proof fn lemma_group_shape(g: Seq<u8>)
    requires
        1 <= g.len() <= 3,
    ensures
        b64_char(b64_group(g)[0]),
        b64_char(b64_group(g)[1]),
        b64_group(g)[2] == '=' || b64_char(b64_group(g)[2]),
        b64_group(g)[3] == '=' || b64_char(b64_group(g)[3]),
        b64_group(g)[2] == '=' <==> g.len() == 1,
        b64_group(g)[3] == '=' <==> g.len() < 3,
{
    let b0 = g[0] as nat;
    let b1 = if g.len() > 1 { g[1] as nat } else { 0 };
    let b2 = if g.len() > 2 { g[2] as nat } else { 0 };
    assert(b0 / 4 < 64 && (b0 % 4) * 16 + b1 / 16 < 64 && (b1 % 16) * 4 + b2 / 64 < 64 && b2 % 64 < 64)
        by (nonlinear_arith)
        requires
            b0 < 256,
            b1 < 256,
            b2 < 256,
    ;
    lemma_symbol_in_alphabet(b0 / 4);
    lemma_symbol_in_alphabet((b0 % 4) * 16 + b1 / 16);
    lemma_symbol_in_alphabet((b1 % 16) * 4 + b2 / 64);
    lemma_symbol_in_alphabet(b2 % 64);
    lemma_symbol_value((b1 % 16) * 4 + b2 / 64);
    lemma_symbol_value(b2 % 64);
}

/// Base64 output is made of the alphabet `A-Z a-z 0-9 + /` and the padding
/// `=`, which appears only among the last two symbols: one `=` when the data
/// length leaves two bytes over, two when it leaves one, none when it is a
/// multiple of three.
pub proof fn base64_alphabet_and_padding(data: Seq<u8>)
    ensures
        forall|i: int| 0 <= i < base64(data).len() && #[trigger] base64(data)[i] != '=' ==> b64_char(base64(data)[i]),
        forall|i: int| 0 <= i < base64(data).len() && #[trigger] base64(data)[i] == '=' ==> i >= base64(data).len() - 2,
        data.len() > 0 ==> (base64(data)[base64(data).len() - 1] == '=' <==> data.len() % 3 != 0),
        data.len() > 0 ==> (base64(data)[base64(data).len() - 2] == '=' <==> data.len() % 3 == 1),
    decreases data.len(),
{
    if data.len() > 0 {
        if data.len() <= 3 {
            lemma_group_shape(data);
        } else {
            let g = data.take(3);
            let rest = data.skip(3);
            lemma_group_shape(g);
            base64_alphabet_and_padding(rest);
            base64_length(rest);
            let e = base64(data);
            let a = b64_group(g);
            let b = base64(rest);
            assert(e == a + b);
            assert(b.len() >= 4) by {
                assert(4 * ((rest.len() + 2) / 3) >= 4) by (nonlinear_arith)
                    requires
                        rest.len() >= 1,
                ;
            }
            assert forall|i: int| 0 <= i < e.len() implies (#[trigger] e[i] != '=' ==> b64_char(e[i])) && (e[i] == '='
                ==> i >= e.len() - 2) by {
                if i >= 4 {
                    assert(e[i] == b[i - 4]);
                } else {
                    assert(e[i] == a[i]);
                }
            }
            assert(e[e.len() - 1] == b[b.len() - 1]);
            assert(e[e.len() - 2] == b[b.len() - 2]);
            assert(data.len() % 3 == rest.len() % 3);
        }
    }
}

} // verus!
