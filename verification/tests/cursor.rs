use dwarf_import::cursor::{Cursor, Endian, Format};
use dwarf_import::error::Error;

fn bytes(n: u8) -> Vec<u8> {
    (0..n).collect()
}

#[test]
fn skip_in_two_steps_reaches_the_end() {
    for len in 0..12u8 {
        for n in 0..=len {
            let mut c = Cursor::new(bytes(len), Endian::Little);
            assert_eq!(c.skip(n as usize), Ok(()));
            assert_eq!(c.skip((len - n) as usize), Ok(()));
            assert_eq!(c.len(), 0);
            assert!(c.is_empty());
            assert_eq!(c.position(), len as usize);
            assert_eq!(c.skip(1), Err(Error::Truncated));
            assert_eq!(c.position(), len as usize);
        }
    }
}

#[test]
fn skip_past_the_end_fails_and_moves_nothing() {
    let mut c = Cursor::new(bytes(4), Endian::Little);
    assert_eq!(c.skip(5), Err(Error::Truncated));
    assert_eq!(c.position(), 0);
    assert_eq!(c.len(), 4);
    assert_eq!(c.skip(0), Ok(()));
    assert_eq!(c.skip(4), Ok(()));
    assert_eq!(c.skip(0), Ok(()));
}

#[test]
fn split_of_everything_ahead() {
    let mut c = Cursor::new(bytes(10), Endian::Big);
    c.skip(3).unwrap();
    let child = c.split(7).unwrap();
    assert_eq!(child.slice_to_end(), &[3u8, 4, 5, 6, 7, 8, 9][..]);
    assert_eq!(child.position(), 0);
    assert_eq!(child.offset(), 3);
    assert_eq!(child.endian(), Endian::Big);
    assert_eq!(c.position(), 10);
    assert_eq!(c.len(), 0);
    assert_eq!(c.skip(1), Err(Error::Truncated));
}

#[test]
fn split_keeps_the_absolute_offset() {
    let mut c = Cursor::new(bytes(16), Endian::Little);
    c.skip(2).unwrap();
    let mut child = c.split(8).unwrap();
    assert_eq!(c.offset(), 10);
    assert_eq!(child.offset(), 2);
    child.skip(3).unwrap();
    assert_eq!(child.offset(), 5);
    let grandchild = child.split(4).unwrap();
    assert_eq!(grandchild.offset(), 5);
    assert_eq!(grandchild.slice_to_end(), &[5u8, 6, 7, 8][..]);
    assert_eq!(child.offset(), 9);
    assert_eq!(child.len(), 1);
    assert_eq!(child.offset_from(&grandchild), 4);
}

#[test]
fn split_of_too_much_fails() {
    let mut c = Cursor::new(bytes(4), Endian::Little);
    c.skip(1).unwrap();
    assert!(matches!(c.split(4), Err(Error::Truncated)));
    assert_eq!(c.position(), 1);
    assert_eq!(c.len(), 3);
    let empty = c.split(0).unwrap();
    assert_eq!(empty.len(), 0);
    assert_eq!(c.len(), 3);
}

#[test]
fn fixed_width_reads_follow_the_byte_order() {
    let data = vec![0x01, 0x02, 0x03, 0x04, 0x05, 0x06, 0x07, 0x08];
    let mut le = Cursor::new(data.clone(), Endian::Little);
    assert_eq!(le.read_fixed(2), Ok(0x0201));
    assert_eq!(le.read_fixed(4), Ok(0x06050403));
    assert_eq!(le.position(), 6);
    let mut be = Cursor::new(data.clone(), Endian::Big);
    assert_eq!(be.read_fixed(2), Ok(0x0102));
    assert_eq!(be.read_fixed(4), Ok(0x03040506));
    let mut le = Cursor::new(data.clone(), Endian::Little);
    assert_eq!(le.read_fixed(8), Ok(0x0807060504030201));
    let mut be = Cursor::new(data.clone(), Endian::Big);
    assert_eq!(be.read_fixed(8), Ok(0x0102030405060708));
    let mut be = Cursor::new(data.clone(), Endian::Big);
    assert_eq!(be.read_fixed(3), Ok(0x010203));
    let mut le = Cursor::new(data, Endian::Little);
    assert_eq!(le.read_fixed(1), Ok(1));
    assert_eq!(le.read_fixed(0), Ok(0));
    assert_eq!(le.position(), 1);
}

#[test]
fn fixed_width_read_of_all_ones() {
    let mut c = Cursor::new(vec![0xff; 8], Endian::Little);
    assert_eq!(c.read_fixed(8), Ok(u64::MAX));
    let mut c = Cursor::new(vec![0xff; 8], Endian::Big);
    assert_eq!(c.read_fixed(8), Ok(u64::MAX));
}

#[test]
fn fixed_width_read_without_the_bytes_fails() {
    let mut c = Cursor::new(vec![1, 2, 3], Endian::Little);
    assert_eq!(c.read_fixed(4), Err(Error::Truncated));
    assert_eq!(c.position(), 0);
    assert_eq!(c.read_fixed(3), Ok(0x030201));
    assert_eq!(c.read_fixed(1), Err(Error::Truncated));
}

#[test]
fn addresses_of_each_supported_size() {
    let data = vec![0x11, 0x22, 0x33, 0x44, 0x55, 0x66, 0x77, 0x88];
    for (size, le, be) in [
        (1u8, 0x11u64, 0x11u64),
        (2, 0x2211, 0x1122),
        (4, 0x44332211, 0x11223344),
        (8, 0x8877665544332211, 0x1122334455667788),
    ] {
        let mut c = Cursor::new(data.clone(), Endian::Little);
        assert_eq!(c.read_address(size), Ok(le));
        assert_eq!(c.position(), size as usize);
        let mut c = Cursor::new(data.clone(), Endian::Big);
        assert_eq!(c.read_address(size), Ok(be));
    }
}

#[test]
fn addresses_of_other_sizes_are_unsupported() {
    for size in [0u8, 3, 5, 6, 7, 9, 16, 255] {
        let mut c = Cursor::new(vec![0; 32], Endian::Little);
        assert_eq!(c.read_address(size), Err(Error::UnsupportedAddressSize(size)));
        assert_eq!(c.position(), 0);
    }
    let mut empty = Cursor::new(vec![], Endian::Little);
    assert_eq!(empty.read_address(3), Err(Error::UnsupportedAddressSize(3)));
    assert_eq!(empty.read_address(4), Err(Error::Truncated));
}

#[test]
fn offsets_take_four_or_eight_bytes() {
    let data = vec![0x10, 0x20, 0x30, 0x40, 0x50, 0x60, 0x70, 0x80, 0x90];
    let mut c = Cursor::new(data.clone(), Endian::Little);
    assert_eq!(c.read_offset(Format::Dwarf32), Ok(0x40302010));
    assert_eq!(c.position(), 4);
    let mut c = Cursor::new(data.clone(), Endian::Little);
    assert_eq!(c.read_offset(Format::Dwarf64), Ok(0x8070605040302010));
    assert_eq!(c.position(), 8);
    assert_eq!(c.read_offset(Format::Dwarf32), Err(Error::Truncated));
    assert_eq!(Format::Dwarf32.offset_width(), 4);
    assert_eq!(Format::Dwarf64.offset_width(), 8);
}

#[test]
fn find_gives_the_distance_to_the_first_occurrence() {
    let mut c = Cursor::new(b"ab\0cd\0".to_vec(), Endian::Little);
    assert_eq!(c.find(0), Ok(2));
    assert_eq!(c.find(b'a'), Ok(0));
    assert_eq!(c.find(b'z'), Err(Error::Truncated));
    c.skip(3).unwrap();
    assert_eq!(c.find(0), Ok(2));
    assert_eq!(c.find(b'a'), Err(Error::Truncated));
    assert_eq!(c.position(), 3);
    c.skip(3).unwrap();
    assert_eq!(c.find(0), Err(Error::Truncated));
}

#[test]
fn peeks_do_not_move() {
    let mut c = Cursor::new(b"hello".to_vec(), Endian::Little);
    c.skip(1).unwrap();
    assert_eq!(c.slice_to_end(), b"ello");
    assert_eq!(c.string_to_end(false), Ok("ello".to_string()));
    assert_eq!(c.string_to_end(true), Ok("ello".to_string()));
    assert_eq!(c.position(), 1);
    assert_eq!(c.len(), 4);
}

#[test]
fn text_that_is_not_utf8() {
    let c = Cursor::new(vec![b'a', 0xff, b'b'], Endian::Little);
    assert_eq!(c.string_to_end(false), Err(Error::InvalidEncoding));
    assert_eq!(c.string_to_end(true), Ok("a\u{fffd}b".to_string()));
    let c = Cursor::new("dé".as_bytes().to_vec(), Endian::Little);
    assert_eq!(c.string_to_end(false), Ok("dé".to_string()));
    let empty = Cursor::new(vec![], Endian::Little);
    assert_eq!(empty.string_to_end(false), Ok(String::new()));
}

#[test]
fn truncate_discards_what_lies_beyond() {
    let mut c = Cursor::new(bytes(10), Endian::Little);
    c.skip(2).unwrap();
    c.truncate(3);
    assert_eq!(c.slice_to_end(), &[2u8, 3, 4][..]);
    assert_eq!(c.position(), 2);
    c.truncate(5);
    assert_eq!(c.len(), 3);
    assert_eq!(c.skip(4), Err(Error::Truncated));
    c.truncate(0);
    assert!(c.is_empty());
    assert_eq!(c.offset(), 2);
}

#[test]
fn empty_drops_everything() {
    let mut c = Cursor::new(bytes(10), Endian::Big);
    c.skip(4).unwrap();
    c.empty();
    assert_eq!(c.len(), 0);
    assert_eq!(c.position(), 0);
    assert_eq!(c.endian(), Endian::Big);
    assert_eq!(c.skip(1), Err(Error::Truncated));
}

#[test]
fn read_bytes_hands_out_what_it_passes() {
    let mut c = Cursor::new(bytes(6), Endian::Little);
    assert_eq!(c.read_bytes(2), Ok(vec![0, 1]));
    assert_eq!(c.read_bytes(0), Ok(vec![]));
    assert_eq!(c.read_bytes(5), Err(Error::Truncated));
    assert_eq!(c.read_bytes(4), Ok(vec![2, 3, 4, 5]));
    assert_eq!(c.len(), 0);
}

#[test]
fn clone_is_independent() {
    let mut c = Cursor::new(bytes(6), Endian::Little);
    c.skip(2).unwrap();
    let mut d = c.clone();
    d.skip(3).unwrap();
    assert_eq!(c.position(), 2);
    assert_eq!(d.position(), 5);
    assert_eq!(d.offset_from(&c), 3);
}
