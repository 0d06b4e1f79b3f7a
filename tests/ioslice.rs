use std::rc::Rc;

use nafcodec::ioslice::IoSlice;
use nafcodec::ioslice::SeekFrom;

fn read_to_string(s: &mut IoSlice) -> String {
    String::from_utf8(s.read_to_end()).unwrap()
}

#[test]
fn ioslice_read() {
    let data = b"ABCDEF";
    let f = Rc::new(data.to_vec());

    let mut s1 = IoSlice::new(f.clone(), 0, 2);
    let mut s2 = IoSlice::new(f.clone(), 2, 4);
    let mut s3 = IoSlice::new(f.clone(), 4, 6);

    assert_eq!(read_to_string(&mut s2), "CD");
    assert_eq!(read_to_string(&mut s1), "AB");
    assert_eq!(read_to_string(&mut s3), "EF");
    assert_eq!(read_to_string(&mut s2), "");
}

#[test]
fn seek() {
    let data = b"ABCDEF";
    let f = Rc::new(data.to_vec());

    let mut s1 = IoSlice::new(f.clone(), 0, 2);
    let mut s2 = IoSlice::new(f.clone(), 2, 4);
    let mut s3 = IoSlice::new(f.clone(), 4, 6);

    s2.seek(SeekFrom::Start(1));
    assert_eq!(read_to_string(&mut s1), "AB");
    assert_eq!(read_to_string(&mut s2), "D");

    s3.seek(SeekFrom::End(-1));
    assert_eq!(read_to_string(&mut s3), "F");

    s1.seek(SeekFrom::End(-2));
    assert_eq!(read_to_string(&mut s3), "");
    assert_eq!(read_to_string(&mut s1), "AB");

    s1.seek(SeekFrom::Current(-1));
    assert_eq!(read_to_string(&mut s1), "B");
}

#[test]
fn ioslice_seek_saturates_at_bounds() {
    let f = Rc::new(b"ABCDEF".to_vec());
    let mut s = IoSlice::new(f, 2, 4);
    assert_eq!(s.seek(SeekFrom::Start(10)), 2);
    assert_eq!(read_to_string(&mut s), "");
    assert_eq!(s.seek(SeekFrom::Current(-10)), 0);
    assert_eq!(read_to_string(&mut s), "CD");
    assert_eq!(s.stream_len(), 2);
    s.rewind();
    assert_eq!(s.stream_position(), 0);
    assert_eq!(s.read(1), b"C".to_vec());
}
