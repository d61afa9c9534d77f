use light::ppm::{bytes_inverse_y, decode_ppm, encode_ppm, pixel_index, RgbImage};

fn header(width: u32, height: u32) -> Vec<u8> {
    let mut h = vec![b'P', b'6', b'\n'];
    h.extend(format!("{} {} 255\n", width, height).bytes());
    h
}

fn file(width: u32, height: u32, rest: &[u8]) -> Vec<u8> {
    let mut f = header(width, height);
    f.extend_from_slice(rest);
    f
}

fn gradient(width: u32, height: u32) -> RgbImage {
    let mut rgb = Vec::new();
    for y in 0..height {
        for x in 0..width {
            rgb.push((x * 255 / width.max(1)) as u8);
            rgb.push((y * 255 / height.max(1)) as u8);
            rgb.push(128);
        }
    }
    RgbImage { width, height, rgb }
}

#[test]
fn header_is_p6_width_height_255() {
    let img = RgbImage { width: 2, height: 1, rgb: vec![1, 2, 3, 4, 5, 6] };
    let bytes = encode_ppm(&img);
    assert_eq!(bytes, file(2, 1, &[1, 2, 3, 4, 5, 6]));
    assert_eq!(&bytes[..11], b"\x50\x36\n2 1 255\n");
}

#[test]
fn rows_are_written_top_row_first() {
    let img = RgbImage { width: 1, height: 3, rgb: vec![1, 1, 1, 2, 2, 2, 3, 3, 3] };
    let bytes = encode_ppm(&img);
    assert_eq!(bytes, file(1, 3, &[3, 3, 3, 2, 2, 2, 1, 1, 1]));
}

#[test]
fn ppm_write_read_gradient() {
    let img = gradient(4, 3);
    let bytes = encode_ppm(&img);
    let head = header(4, 3);
    assert_eq!(&bytes[..head.len()], &head[..]);
    let body = &bytes[head.len()..];
    for y in 0..3usize {
        for x in 0..4usize {
            for c in 0..3usize {
                let file_row = 2 - y;
                assert_eq!(body[(file_row * 4 + x) * 3 + c], img.rgb[(y * 4 + x) * 3 + c]);
            }
        }
    }
    let back = decode_ppm(&bytes).expect("a written image reads back");
    assert_eq!(back, img);
}

#[test]
fn round_trip_of_empty_and_wide_images() {
    for img in [gradient(0, 5), gradient(7, 0), gradient(123, 2)] {
        let bytes = encode_ppm(&img);
        assert_eq!(decode_ppm(&bytes), Some(img));
    }
}

#[test]
fn decode_rejects_malformed_files() {
    let magic = [b'P', b'6', b'\n'];
    let with_magic = |rest: &[u8]| {
        let mut f = magic.to_vec();
        f.extend_from_slice(rest);
        f
    };
    let mut other_magic = with_magic(b"1 1 255\nabc");
    other_magic[1] = b'5';
    assert_eq!(decode_ppm(&other_magic), None);
    assert_eq!(decode_ppm(&with_magic(b"01 1 255\nabc")), None);
    assert_eq!(decode_ppm(&with_magic(b"1 1 255\nab")), None);
    assert_eq!(decode_ppm(&with_magic(b"1 1 256\nabc")), None);
    assert_eq!(decode_ppm(&with_magic(b"99999999999 1 255\n")), None);
    assert_eq!(decode_ppm(&with_magic(b"1 1 255\nabc")).map(|i| i.rgb), Some(vec![97, 98, 99]));
}

#[test]
fn flipping_rows_twice_restores_them() {
    let rgb: Vec<u8> = (0..24).collect();
    let once = bytes_inverse_y(&rgb, 6);
    assert_eq!(&once[..6], &[18, 19, 20, 21, 22, 23]);
    assert_eq!(bytes_inverse_y(&once, 6), rgb);
}

#[test]
fn pixel_index_is_row_major() {
    assert_eq!(pixel_index(0, 0, 4), 0);
    assert_eq!(pixel_index(3, 0, 4), 3);
    assert_eq!(pixel_index(1, 2, 4), 9);
}
