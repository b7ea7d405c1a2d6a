use secretary::error::CipherError;
use secretary::hill::{
    check_key, fit_to_order, hill_transform, load_image, parse_key, transform_block,
    transform_blocks, validate_key, Direction, HillDec, HillEnc, Image, ALPHA,
};
use secretary::matrix::Matrix;

fn key3() -> Matrix {
    Matrix { rows: vec![vec![1, 2, 3], vec![0, 1, 4], vec![5, 6, 0]] }
}

fn gray(width: u32, height: u32, values: &[u8]) -> Image {
    let mut data = Vec::new();
    for v in values {
        data.extend_from_slice(&[*v, *v, *v, 255]);
    }
    Image { width, height, data }
}

fn grays(image: &Image) -> Vec<u8> {
    image.data.chunks(4).map(|p| p[0]).collect()
}

#[test]
fn a_key_text_is_9_or_16_numbers_up_to_255() {
    let key = parse_key("1 2 3 0 1 4 5 6 0").unwrap();
    assert_eq!(key.rows, vec![vec![1, 2, 3], vec![0, 1, 4], vec![5, 6, 0]]);
    let key = parse_key(" 1 2 3 4\n0 1 2 3\n0 0 1 2\n0 0 0 255 ").unwrap();
    assert_eq!(
        key.rows,
        vec![vec![1, 2, 3, 4], vec![0, 1, 2, 3], vec![0, 0, 1, 2], vec![0, 0, 0, 255]]
    );
    assert_eq!(parse_key("007 0 0 0 1 0 0 0 0000000000000000000001").unwrap().rows[0][0], 7);
}

#[test]
fn key_texts_of_the_wrong_shape_are_refused() {
    for text in [
        "",
        "1 2 3 4",
        "1 2 3 0 1 4 5 6",
        "1 2 3 0 1 4 5 6 0 1",
        "1 2 3 0 1 4 5 6 256",
        "1 2 3 0 1 4 5 6 -1",
        "1 2 3 0 1 4 5 6 x",
        "1,2,3,0,1,4,5,6,0",
        "1 2 3 0 1 4 5 6 99999999999999999999999",
    ] {
        assert!(matches!(parse_key(text), Err(CipherError::InvalidKeyShape)));
        assert!(matches!(validate_key(text), Err(CipherError::InvalidKeyShape)));
    }
}

#[test]
fn a_key_with_an_even_determinant_is_rejected() {
    // the determinant of this matrix is 2
    let even = Matrix { rows: vec![vec![1, 2, 3], vec![0, 1, 4], vec![5, 6, 1]] };
    assert_eq!(check_key(&even), Err(CipherError::KeyNotInvertible));
    assert!(matches!(validate_key("1 2 3 0 1 4 5 6 1"), Err(CipherError::KeyNotInvertible)));
    let image = gray(3, 3, &[11, 20, 30, 40, 51, 60, 70, 80, 93]);
    for direction in [Direction::Encode, Direction::Decode] {
        assert!(matches!(
            hill_transform(direction, &image, &even),
            Err(CipherError::KeyNotInvertible)
        ));
    }
    // a malformed image is not even looked at
    let broken = Image { width: 3, height: 3, data: vec![0; 5] };
    assert!(matches!(
        hill_transform(Direction::Encode, &broken, &even),
        Err(CipherError::KeyNotInvertible)
    ));
}

#[test]
fn a_key_is_square_of_order_three_or_four() {
    assert_eq!(check_key(&key3()), Ok(()));
    assert_eq!(
        check_key(&Matrix { rows: vec![vec![1, 0], vec![0, 1]] }),
        Err(CipherError::InvalidKeyShape)
    );
    assert_eq!(
        check_key(&Matrix { rows: vec![vec![1, 0, 0], vec![0, 1, 0], vec![0, 0]] }),
        Err(CipherError::InvalidKeyShape)
    );
    assert_eq!(
        check_key(&Matrix { rows: vec![vec![1, 0, 0], vec![0, 256, 0], vec![0, 0, 1]] }),
        Err(CipherError::InvalidKeyShape)
    );
    assert_eq!(
        check_key(&Matrix { rows: vec![vec![1, 0, 0], vec![0, -1, 0], vec![0, 0, 1]] }),
        Err(CipherError::InvalidKeyShape)
    );
    assert_eq!(check_key(&Matrix { rows: vec![vec![0; 5]; 5] }), Err(CipherError::InvalidKeyShape));
    let zero = Matrix { rows: vec![vec![0; 3]; 3] };
    assert_eq!(check_key(&zero), Err(CipherError::KeyNotInvertible));
}

#[test]
fn encoding_multiplies_each_block_by_the_key() {
    let image = gray(3, 3, &[11, 20, 30, 40, 51, 60, 70, 80, 93]);
    let out = hill_transform(Direction::Encode, &image, &key3()).unwrap();
    assert_eq!((out.width, out.height), (3, 3));
    assert_eq!(grays(&out), vec![45, 106, 173, 64, 115, 176, 39, 150, 254]);
    for pixel in out.data.chunks(4) {
        assert_eq!(pixel[0], pixel[1]);
        assert_eq!(pixel[0], pixel[2]);
        assert_eq!(pixel[3], ALPHA);
        assert_eq!(pixel[3], 100);
    }
}

#[test]
fn decoding_multiplies_the_key_by_the_inverse_of_each_block() {
    let image = gray(3, 3, &[11, 20, 30, 40, 51, 60, 70, 80, 93]);
    let out = hill_transform(Direction::Decode, &image, &key3()).unwrap();
    assert_eq!(grays(&out), vec![129, 234, 113, 152, 91, 96, 19, 174, 22]);
    assert!(out.data.chunks(4).all(|p| p[3] == 100));
}

#[test]
fn decoding_is_refused_for_a_block_without_an_inverse() {
    let image = gray(3, 3, &[10, 20, 30, 40, 51, 60, 70, 80, 93]);
    assert!(matches!(
        hill_transform(Direction::Decode, &image, &key3()),
        Err(CipherError::KeyNotInvertible)
    ));
    assert!(hill_transform(Direction::Encode, &image, &key3()).is_ok());
}

#[test]
fn one_block_alone() {
    let key = key3();
    let block = Matrix { rows: vec![vec![11, 20, 30], vec![40, 51, 60], vec![70, 80, 93]] };
    let encoded = transform_block(Direction::Encode, &key, &block).unwrap();
    assert_eq!(encoded.rows, vec![vec![45, 106, 173], vec![64, 115, 176], vec![39, 150, 254]]);
    let decoded = transform_block(Direction::Decode, &key, &block).unwrap();
    assert_eq!(decoded.rows, vec![vec![129, 234, 113], vec![152, 91, 96], vec![19, 174, 22]]);
    let even = Matrix { rows: vec![vec![10, 20, 30], vec![40, 51, 60], vec![70, 80, 93]] };
    assert!(transform_block(Direction::Decode, &key, &even).is_none());
}

#[test]
fn blocks_are_runs_of_pixels_in_scan_order() {
    // 6 x 3 pixels make two blocks of 9: the first holds pixels 0..9 of the scan
    let mut values = vec![11, 20, 30, 40, 51, 60, 70, 80, 93];
    values.extend_from_slice(&[1, 0, 0, 0, 1, 0, 0, 0, 1]);
    let image = gray(6, 3, &values);
    let out = transform_blocks(Direction::Encode, &image, &key3()).unwrap();
    let g = grays(&out);
    assert_eq!(&g[..9], &[45, 106, 173, 64, 115, 176, 39, 150, 254]);
    assert_eq!(&g[9..], &[1, 2, 3, 0, 1, 4, 5, 6, 0]);
}

#[test]
fn pixels_that_fill_no_block_come_out_transparent_black() {
    let image = gray(5, 2, &[11, 20, 30, 40, 51, 60, 70, 80, 93, 200]);
    let out = transform_blocks(Direction::Encode, &image, &key3()).unwrap();
    assert_eq!((out.width, out.height), (5, 2));
    assert_eq!(out.data.len(), 40);
    assert_eq!(&grays(&out)[..9], &[45, 106, 173, 64, 115, 176, 39, 150, 254]);
    assert_eq!(&out.data[36..], &[0, 0, 0, 0]);
}

#[test]
fn intensity_is_the_luminance_of_the_colour() {
    // red alone weighs 2126, green 7152, blue 722 ten-thousandths
    let mut data = Vec::new();
    for rgb in [[255u8, 0, 0], [0, 255, 0], [0, 0, 255], [10, 200, 30], [255, 255, 255]] {
        data.extend_from_slice(&[rgb[0], rgb[1], rgb[2], 7]);
    }
    for _ in 0..4 {
        data.extend_from_slice(&[0, 0, 0, 255]);
    }
    let image = Image { width: 3, height: 3, data };
    let identity = Matrix { rows: vec![vec![1, 0, 0], vec![0, 1, 0], vec![0, 0, 1]] };
    let out = transform_blocks(Direction::Encode, &image, &identity).unwrap();
    assert_eq!(grays(&out), vec![54, 182, 18, 147, 255, 0, 0, 0, 0]);
}

#[test]
fn a_key_of_order_four_takes_blocks_of_sixteen() {
    let key = Matrix {
        rows: vec![vec![1, 2, 3, 4], vec![0, 1, 2, 3], vec![0, 0, 1, 2], vec![0, 0, 0, 1]],
    };
    let values: Vec<u8> = (1..=16).collect();
    let image = gray(4, 4, &values);
    let out = hill_transform(Direction::Encode, &image, &key).unwrap();
    assert_eq!(
        grays(&out),
        vec![90, 100, 110, 120, 62, 68, 74, 80, 35, 38, 41, 44, 13, 14, 15, 16]
    );
    // the block 1..=16 has determinant 0
    assert!(matches!(
        hill_transform(Direction::Decode, &image, &key),
        Err(CipherError::KeyNotInvertible)
    ));
}

#[test]
fn sides_are_cut_down_to_multiples_of_the_order() {
    let values: Vec<u8> = (0..35).map(|v| v * 7).collect();
    let image = gray(7, 5, &values);
    let fitted = fit_to_order(&image, 3);
    assert_eq!((fitted.width, fitted.height), (6, 3));
    assert_eq!(fitted.data.len(), 4 * 6 * 3);
    let out = hill_transform(Direction::Encode, &image, &key3()).unwrap();
    assert_eq!((out.width, out.height), (6, 3));
    assert_eq!(out.data.len(), 4 * 6 * 3);
    assert!(out.data.chunks(4).all(|p| p[0] == p[1] && p[1] == p[2] && p[3] == 100));
}

#[test]
fn an_image_that_fits_is_left_as_it_is() {
    let values: Vec<u8> = (0..36).collect();
    let image = gray(6, 6, &values);
    let fitted = fit_to_order(&image, 3);
    assert_eq!((fitted.width, fitted.height), (6, 6));
    assert_eq!(fitted.data, image.data);
}

#[test]
fn an_image_smaller_than_a_block_becomes_empty() {
    let image = gray(2, 5, &[0; 10]);
    let fitted = fit_to_order(&image, 3);
    assert_eq!((fitted.width, fitted.height), (0, 3));
    assert!(fitted.data.is_empty());
    let out = hill_transform(Direction::Decode, &image, &key3()).unwrap();
    assert_eq!((out.width, out.height), (0, 3));
    assert!(out.data.is_empty());
    let nothing = Image { width: 0, height: 0, data: Vec::new() };
    let out = hill_transform(Direction::Encode, &nothing, &key3()).unwrap();
    assert_eq!((out.width, out.height), (0, 0));
}

#[test]
fn a_buffer_that_does_not_match_its_sides_is_unsupported() {
    let short = Image { width: 3, height: 3, data: vec![0; 35] };
    assert!(!short.is_well_formed());
    assert!(!short.is_supported());
    assert!(matches!(
        hill_transform(Direction::Encode, &short, &key3()),
        Err(CipherError::UnsupportedImageFormat)
    ));
    let long = Image { width: 3, height: 3, data: vec![0; 37] };
    assert!(matches!(
        hill_transform(Direction::Decode, &long, &key3()),
        Err(CipherError::UnsupportedImageFormat)
    ));
    let huge = Image { width: u32::MAX, height: u32::MAX, data: Vec::new() };
    assert!(!huge.is_well_formed());
    let long_side = Image { width: 16_777_217, height: 0, data: Vec::new() };
    assert!(long_side.is_well_formed());
    assert!(!long_side.is_supported());
    assert!(matches!(
        hill_transform(Direction::Encode, &long_side, &key3()),
        Err(CipherError::UnsupportedImageFormat)
    ));
    assert!(gray(3, 3, &[0; 9]).is_supported());
}

#[test]
fn image_files_decode_to_rgba() {
    let mut picture = image::RgbaImage::new(2, 3);
    for (x, y, pixel) in picture.enumerate_pixels_mut() {
        pixel.0 = [x as u8 * 100, y as u8 * 50, 9, 200 + x as u8];
    }
    let mut bytes: Vec<u8> = Vec::new();
    image::DynamicImage::ImageRgba8(picture.clone())
        .write_to(&mut std::io::Cursor::new(&mut bytes), image::ImageOutputFormat::Png)
        .unwrap();
    let loaded = load_image(&bytes).unwrap();
    assert_eq!((loaded.width, loaded.height), (2, 3));
    assert_eq!(loaded.data, picture.into_raw());
    assert!(loaded.is_well_formed());
}

#[test]
fn bytes_that_are_no_image_are_unsupported() {
    assert!(matches!(load_image(b"not an image"), Err(CipherError::UnsupportedImageFormat)));
    assert!(matches!(load_image(&[]), Err(CipherError::UnsupportedImageFormat)));
    // the signature of a PNG file with nothing behind it
    assert!(matches!(
        load_image(&[0x89, b'P', b'N', b'G', 0x0d, 0x0a, 0x1a, 0x0a]),
        Err(CipherError::UnsupportedImageFormat)
    ));
}

#[test]
fn the_tools_check_the_key_that_was_typed() {
    let mut enc = HillEnc::default();
    assert!(!enc.valid_key());
    enc.key = String::from("1 2 3 0 1 4 5 6 0");
    assert!(enc.valid_key());
    enc.key = String::from("1 2 3 0 1 4 5 6 1");
    assert!(!enc.valid_key());
    let mut dec = HillDec::default();
    assert!(dec.ciphertext_buffer.is_none());
    dec.key = String::from("1 2 3 4 0 1 2 3 0 0 1 2 0 0 0 1");
    assert!(dec.valid_key());
    dec.key = String::from("1 2 3 4 0 1 2 3 0 0 1 2 0 0 0");
    assert!(!dec.valid_key());

    let image = gray(3, 3, &[11, 20, 30, 40, 51, 60, 70, 80, 93]);
    let encoded = HillEnc::hill_cipher(&image, &key3()).unwrap();
    assert_eq!(grays(&encoded), vec![45, 106, 173, 64, 115, 176, 39, 150, 254]);
    let decoded = HillDec::hill_cipher(&image, &key3()).unwrap();
    assert_eq!(grays(&decoded), vec![129, 234, 113, 152, 91, 96, 19, 174, 22]);
}

#[test]
fn a_picture_of_many_blocks() {
    let mut data = Vec::new();
    for y in 0..80u32 {
        for x in 0..100u32 {
            data.extend_from_slice(&[(x * 7 + y) as u8, (x + y * 5) as u8, (x * y) as u8, 255]);
        }
    }
    let image = Image { width: 100, height: 80, data };
    let out = hill_transform(Direction::Encode, &image, &key3()).unwrap();
    assert_eq!((out.width, out.height), (99, 78));
    assert_eq!(out.data.len(), 4 * 99 * 78);
    assert!(out.data.chunks(4).all(|p| p[0] == p[1] && p[1] == p[2] && p[3] == 100));
    // every block of a real picture would need an inverse: one without stops the decoding
    match hill_transform(Direction::Decode, &image, &key3()) {
        Ok(decoded) => assert_eq!((decoded.width, decoded.height), (99, 78)),
        Err(error) => assert_eq!(error, CipherError::KeyNotInvertible),
    }
}

#[test]
fn a_key_is_accepted_exactly_when_its_determinant_is_odd() {
    for last in 0..=255i64 {
        // the determinant of this matrix is `last + 1`
        let key = Matrix { rows: vec![vec![1, 2, 3], vec![0, 1, 4], vec![5, 6, last]] };
        let determinant = secretary::matrix::determinant(&key);
        assert_eq!(check_key(&key).is_ok(), determinant % 2 != 0);
    }
}
