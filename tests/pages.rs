use rudb::config::{INVALID_PAGE_ID, PAGE_SIZE};
use rudb::error::DbErrorKind;
use rudb::header_page::HeaderPage;
use rudb::reinterpret::{read_i32, read_str, read_u32, read_u64, write_i32, write_str, write_u32, write_u64};
use rudb::reserved_page::ReservedPage;
use rudb::rid::Rid;
use rudb::table_page::TablePage;
use rudb::tuple::Tuple;

#[test]
fn header_page_test() {
    let mut header_page = HeaderPage::new();
    assert_eq!(0, header_page.record_count());
    assert!(header_page.root_id("Table A").is_err());

    assert!(header_page.insert_record("Table A", 12).is_ok());
    assert!(header_page.insert_record("Table B", 0).is_ok());
    assert!(header_page.insert_record("Table C", -1).is_ok());
    assert_eq!(12, header_page.root_id("Table A").unwrap());
    assert_eq!(0, header_page.root_id("Table B").unwrap());
    assert_eq!(-1, header_page.root_id("Table C").unwrap());
    assert_eq!(3, header_page.record_count());

    assert!(header_page.insert_record("Table A", 25).is_err());
    assert!(header_page.update_record("Table D", 7).is_err());

    assert!(header_page.update_record("Table A", 27).is_ok());
    assert!(header_page.update_record("Table B", 50).is_ok());
    assert!(header_page.update_record("Table C", 94).is_ok());
    assert_eq!(27, header_page.root_id("Table A").unwrap());
    assert_eq!(50, header_page.root_id("Table B").unwrap());
    assert_eq!(94, header_page.root_id("Table C").unwrap());
    assert_eq!(3, header_page.record_count());

    assert!(header_page.delete_record("Table A").is_ok());
    assert!(header_page.delete_record("Table B").is_ok());
    assert!(header_page.delete_record("Table D").is_err());
    assert!(header_page.root_id("Table A").is_err());
    assert!(header_page.root_id("Table B").is_err());
    assert_eq!(94, header_page.root_id("Table C").unwrap());
    assert_eq!(1, header_page.record_count());

    assert!(header_page.insert_record("Table A", 64).is_ok());
    assert_eq!(64, header_page.root_id("Table A").unwrap());
    assert_eq!(2, header_page.record_count());
}

#[test]
fn header_page_errors() {
    let mut page = HeaderPage::new();
    let long = "x".repeat(33);
    assert_eq!(DbErrorKind::InvalidInput, page.insert_record(&long, 1).unwrap_err().kind);
    assert!(page.insert_record(&"y".repeat(32), 5).is_ok());
    assert_eq!(5, page.root_id(&"y".repeat(32)).unwrap());
    assert_eq!(DbErrorKind::AlreadyExists, page.insert_record(&"y".repeat(32), 6).unwrap_err().kind);
    assert_eq!(DbErrorKind::NotFound, page.root_id("nope").unwrap_err().kind);
    for i in 1..113 {
        assert!(page.insert_record(&format!("t{}", i), i).is_ok());
    }
    assert_eq!(113, page.record_count());
    assert_eq!(DbErrorKind::InvalidData, page.insert_record("full", 0).unwrap_err().kind);
    page.init();
    assert_eq!(0, page.record_count());
}

#[test]
fn write_and_read() {
    let mut page = ReservedPage::new();
    assert_eq!(0, page.record_count());

    let vec1 = vec![1, 2, 3, 4, 5, 6, 7, 8, 9, 10];
    page.write_records(&vec1);
    assert_eq!(10, page.record_count());
    assert_eq!(vec1, page.read_records());

    let vec2 = vec![2048, 9999, -1, 0];
    page.write_records(&vec2);
    assert_eq!(4, page.record_count());
    assert_eq!(vec2, page.read_records());
    assert_eq!(0, page.page_id());
    assert_eq!(PAGE_SIZE, page.data().len());
    page.data_mut()[8] = 2;
    assert_eq!(2, page.record_count());
}

#[test]
fn table_page_links() {
    let mut page = TablePage::new();
    assert_eq!(INVALID_PAGE_ID, page.page_id());
    assert_eq!(0, page.prev_page_id());
    page.set_prev_page_id(3);
    page.set_next_page_id(-7);
    assert_eq!(3, page.prev_page_id());
    assert_eq!(-7, page.next_page_id());
    page.set_page_id(12);
    assert_eq!(12, page.page_id());
    page.reset();
    assert_eq!(12, page.page_id());
    assert_eq!(INVALID_PAGE_ID, page.prev_page_id());
    assert_eq!(INVALID_PAGE_ID, page.next_page_id());
}

#[test]
fn tuple_serialize_and_deserialize() {
    let tuple = Tuple::from_data(vec![1, 0, 0, 0, 42, 7, 9]);
    let mut buffer: Vec<u8> = vec![0; 100];
    tuple.serialize_to(buffer.as_mut_slice());

    let mut tuple2 = Tuple::default();
    tuple2.deserialize_from(buffer.as_slice());
    assert_eq!(tuple, tuple2);
}

#[test]
fn tuple_framing() {
    let tuple = Tuple::from_data((0..100u8).collect());
    assert_eq!(100, tuple.len());
    let mut buf = vec![0xaa; 200];
    tuple.serialize_to(&mut buf);
    assert_eq!(100, read_u64(&buf, 0));
    assert_eq!(0xaa, buf[108]);
    let mut back = Tuple::default();
    back.deserialize_from(&buf);
    assert_eq!(tuple.data(), back.data());
}

#[test]
fn rid_accessors() {
    let rid = Rid::new(4, 9);
    assert_eq!(4, rid.page_id());
    assert_eq!(9, rid.slot_num());
    assert_eq!(Rid::new(4, 9), rid);
    let none = Rid::default();
    assert_eq!(INVALID_PAGE_ID, none.page_id());
    assert_eq!(0, none.slot_num());
}

#[test]
fn read_write_u32() {
    let mut data = [0u8; 8];
    assert_eq!(0, read_u32(&data, 0));
    assert_eq!(0, read_u32(&data, 4));

    write_u32(&mut data, 0, 19260817);
    assert_eq!(19260817, read_u32(&data, 0));
    assert_eq!(0, read_u32(&data, 4));

    write_u32(&mut data, 4, 20200517);
    assert_eq!(19260817, read_u32(&data, 0));
    assert_eq!(20200517, read_u32(&data, 4));
}

#[test]
fn reinterpret_read_write_i32() {
    let mut data = [0u8; 8];
    assert_eq!(0, read_i32(&data, 0));
    assert_eq!(0, read_i32(&data, 4));

    write_i32(&mut data, 0, 19260817);
    assert_eq!(19260817, read_i32(&data, 0));
    assert_eq!(0, read_i32(&data, 4));

    write_i32(&mut data, 4, -20200517);
    assert_eq!(19260817, read_i32(&data, 0));
    assert_eq!(-20200517, read_i32(&data, 4));
    assert_eq!(19260817i32.to_le_bytes(), data[0..4]);
}

#[test]
fn reinterpret_read_write_str() {
    let mut data = [0u8; 64];
    assert_eq!(b"".to_vec(), read_str(&data, 0));
    assert_eq!(b"".to_vec(), read_str(&data, 32));

    write_str(&mut data, 0, "hello world");
    assert_eq!(b"hello world".to_vec(), read_str(&data, 0));
    assert_eq!(b"".to_vec(), read_str(&data, 32));

    let str_32_bytes = "12345678901234567890123456789012";
    write_str(&mut data, 32, str_32_bytes);
    assert_eq!(b"hello world".to_vec(), read_str(&data, 0));
    assert_eq!(str_32_bytes.as_bytes().to_vec(), read_str(&data, 32));

    let mut tight = vec![0xffu8; 4];
    write_str(&mut tight, 1, "abcdef");
    assert_eq!(vec![0xff, b'a', b'b', b'c'], tight);
}

#[test]
fn reinterpret_read_write_mixed() {
    let mut data = [0u8; 12 + (32 + 4) + (32 + 4) + (32 + 4)];

    write_u64(&mut data, 0, 18042398900264319379);
    write_u32(&mut data, 8, 3);
    write_str(&mut data, 12, "Table A");
    write_i32(&mut data, 44, 19260817);
    write_str(&mut data, 48, "Table B");
    write_i32(&mut data, 80, 20200517);
    write_str(&mut data, 84, "Table C");
    write_i32(&mut data, 116, -1);

    assert_eq!(18042398900264319379, read_u64(&data, 0));
    assert_eq!(3, read_u32(&data, 8));
    assert_eq!(b"Table A".to_vec(), read_str(&data, 12));
    assert_eq!(19260817, read_i32(&data, 44));
    assert_eq!(b"Table B".to_vec(), read_str(&data, 48));
    assert_eq!(20200517, read_i32(&data, 80));
    assert_eq!(b"Table C".to_vec(), read_str(&data, 84));
    assert_eq!(-1, read_i32(&data, 116));
}
