use nettamer::codec::{base64_encode, bmp_data_uri};

#[test]
fn base64_known_vectors() {
    assert_eq!(base64_encode(b""), "");
    assert_eq!(base64_encode(b"f"), "Zg==");
    assert_eq!(base64_encode(b"fo"), "Zm8=");
    assert_eq!(base64_encode(b"foo"), "Zm9v");
    assert_eq!(base64_encode(b"foob"), "Zm9vYg==");
    assert_eq!(base64_encode(b"fooba"), "Zm9vYmE=");
    assert_eq!(base64_encode(b"foobar"), "Zm9vYmFy");
    assert_eq!(base64_encode(&[0xFB, 0xFF, 0xBF]), "+/+/");
}

#[test]
fn base64_length_is_four_per_started_triple() {
    for n in 0..20usize {
        let data: Vec<u8> = (0..n as u8).collect();
        assert_eq!(base64_encode(&data).len(), 4 * ((n + 2) / 3));
    }
}

fn decode_b64(s: &str) -> Vec<u8> {
    let alphabet = b"ABCDEFGHIJKLMNOPQRSTUVWXYZabcdefghijklmnopqrstuvwxyz0123456789+/";
    let mut bits: u32 = 0;
    let mut nbits = 0;
    let mut out = Vec::new();
    for c in s.bytes() {
        if c == b'=' {
            break;
        }
        let v = alphabet.iter().position(|&a| a == c).unwrap() as u32;
        bits = (bits << 6) | v;
        nbits += 6;
        if nbits >= 8 {
            nbits -= 8;
            out.push((bits >> nbits) as u8);
            bits &= (1 << nbits) - 1;
        }
    }
    out
}

#[test]
fn bmp_icon_file_layout() {
    let pixels = vec![1u8, 2, 3, 0, 5, 6, 7, 0];
    let uri = bmp_data_uri(2, 1, pixels);
    let b64 = uri.strip_prefix("data:image/bmp;base64,").expect("prefix");
    let bmp = decode_b64(b64);
    assert_eq!(&bmp[0..2], b"BM");
    assert_eq!(u32::from_le_bytes(bmp[2..6].try_into().unwrap()), 54 + 8);
    assert_eq!(u32::from_le_bytes(bmp[10..14].try_into().unwrap()), 54);
    assert_eq!(u32::from_le_bytes(bmp[14..18].try_into().unwrap()), 40);
    assert_eq!(i32::from_le_bytes(bmp[18..22].try_into().unwrap()), 2);
    assert_eq!(i32::from_le_bytes(bmp[22..26].try_into().unwrap()), 1);
    assert_eq!(u16::from_le_bytes(bmp[26..28].try_into().unwrap()), 1);
    assert_eq!(u16::from_le_bytes(bmp[28..30].try_into().unwrap()), 32);
    assert_eq!(u32::from_le_bytes(bmp[34..38].try_into().unwrap()), 8);
    assert_eq!(bmp.len(), 62);
    // no alpha anywhere: every pixel becomes opaque
    assert_eq!(&bmp[54..], &[1, 2, 3, 255, 5, 6, 7, 255]);
}

#[test]
fn bmp_icon_keeps_existing_alpha() {
    let uri = bmp_data_uri(1, 2, vec![9, 9, 9, 0, 8, 8, 8, 128]);
    let bmp = decode_b64(uri.strip_prefix("data:image/bmp;base64,").unwrap());
    assert_eq!(&bmp[54..], &[9, 9, 9, 0, 8, 8, 8, 128]);
}
