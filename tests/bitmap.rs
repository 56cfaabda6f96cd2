use rudb::bitmap::Bitmap;
use rudb::checksum::{compute_checksum, CHECKSUM_SIZE};
use rudb::error::DbErrorKind;
use rudb::reinterpret::read_u64;

/// What a file would hold after the bitmap is synced and dropped.
fn persisted(mut bitmap: Bitmap) -> Vec<u8> {
    bitmap.sync();
    bitmap.as_bytes().to_vec()
}

#[test]
fn set_and_get_bit() {
    let result = Bitmap::load(Vec::new());
    assert!(result.is_ok(), "Failed to create Bitmap");

    let mut bitmap = result.unwrap();
    assert_eq!(false, bitmap.get_bit(1234));
    assert_eq!(false, bitmap.get_bit(4321));
    assert_eq!(false, bitmap.get_bit(1024));

    bitmap.set_bit(1234, true);
    bitmap.set_bit(4321, true);
    bitmap.set_bit(1024, true);
    assert_eq!(true, bitmap.get_bit(1234));
    assert_eq!(true, bitmap.get_bit(4321));
    assert_eq!(true, bitmap.get_bit(1024));

    bitmap.set_bit(1234, false);
    bitmap.set_bit(1024, false);
    assert_eq!(false, bitmap.get_bit(1234));
    assert_eq!(true, bitmap.get_bit(4321));
    assert_eq!(false, bitmap.get_bit(1024));

    assert_eq!(541, bitmap.len());
}

#[test]
fn len_and_compact() {
    let result = Bitmap::load(Vec::new());
    assert!(result.is_ok(), "Failed to create Bitmap");

    let mut bitmap = result.unwrap();
    bitmap.set_bit(1234, true);
    bitmap.set_bit(4321, true);
    assert_eq!(541, bitmap.len());

    bitmap.set_bit(4321, false);
    assert_eq!(541, bitmap.len());
    bitmap.compact();
    assert_eq!(155, bitmap.len());

    bitmap.set_bit(1234, false);
    assert_eq!(155, bitmap.len());
    bitmap.compact();
    assert_eq!(0, bitmap.len());
}

#[test]
fn bitmap_drop_new() {
    let file = {
        let result = Bitmap::load(Vec::new());
        assert!(result.is_ok(), "Failed to create Bitmap");

        let mut bitmap = result.unwrap();
        bitmap.set_bit(1234, true);
        bitmap.set_bit(4321, true);
        assert_eq!(541, bitmap.len());

        bitmap.set_bit(4321, false);
        assert_eq!(541, bitmap.len());
        persisted(bitmap)
    };

    let file = {
        let result = Bitmap::load(file);
        assert!(result.is_ok(), "Failed to create Bitmap");

        let mut bitmap = result.unwrap();
        assert_eq!(155, bitmap.len());
        assert_eq!(true, bitmap.get_bit(1234));
        assert_eq!(false, bitmap.get_bit(4321));

        bitmap.set_bit(1234, false);
        assert_eq!(155, bitmap.len());
        persisted(bitmap)
    };

    {
        let result = Bitmap::load(file);
        assert!(result.is_ok(), "Failed to create Bitmap");

        let bitmap = result.unwrap();
        assert_eq!(0, bitmap.len());
        assert_eq!(false, bitmap.get_bit(1234));
        assert_eq!(false, bitmap.get_bit(4321));
    }
}

#[test]
fn bit_order_is_most_significant_first() {
    let mut bitmap = Bitmap::new();
    bitmap.set_bit(0, true);
    bitmap.set_bit(9, true);
    assert_eq!(0x80, bitmap.get_word(0));
    assert_eq!(0x40, bitmap.get_word(1));
    assert_eq!(0, bitmap.get_word(2));
    assert_eq!(2, bitmap.len());
}

#[test]
fn get_past_payload_is_false() {
    let mut bitmap = Bitmap::new();
    assert_eq!(false, bitmap.get_bit(0));
    bitmap.set_bit(3, true);
    assert_eq!(false, bitmap.get_bit(8));
    assert_eq!(false, bitmap.get_bit(usize::MAX));
}

#[test]
fn sync_writes_checksum_of_payload() {
    let mut bitmap = Bitmap::new();
    bitmap.set_bit(5, true);
    bitmap.set_bit(20, true);
    let image = persisted(bitmap);
    assert_eq!(CHECKSUM_SIZE + 3, image.len());
    assert_eq!(compute_checksum(&image[CHECKSUM_SIZE..]), read_u64(&image, 0));
    assert_ne!(0, read_u64(&image, 0));
}

#[test]
fn corrupted_image_is_refused() {
    let mut bitmap = Bitmap::new();
    bitmap.set_bit(5, true);
    let mut image = persisted(bitmap);
    image[CHECKSUM_SIZE] ^= 0x01;
    let err = Bitmap::load(image).err().unwrap();
    assert_eq!(DbErrorKind::InvalidData, err.kind);
    let short = vec![1u8, 2, 3];
    assert_eq!(DbErrorKind::InvalidInput, Bitmap::load(short).err().unwrap().kind);
}
