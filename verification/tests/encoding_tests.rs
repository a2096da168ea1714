use node_rs::encoding::read_bytes;
use node_rs::encoding::read_str;
use node_rs::encoding::read_u64;
use node_rs::encoding::write_bytes;
use node_rs::encoding::write_str;
use node_rs::encoding::write_u64;

#[test]
fn test_number_wire_form() {
    let mut out = String::new();
    write_u64(&mut out, 0);
    write_u64(&mut out, 1234567890123456789);
    assert_eq!(out, "0:1234567890123456789:".to_string());

    let (v, p) = read_u64(&out, 0).unwrap();
    assert_eq!(v, 0);
    let (v, p) = read_u64(&out, p).unwrap();
    assert_eq!(v, 1234567890123456789);
    assert_eq!(p, out.len());
}

#[test]
fn test_number_reader_is_strict() {
    assert!(read_u64("", 0).is_none());
    assert!(read_u64("12", 0).is_none());
    assert!(read_u64("a:", 0).is_none());
    // a value beyond u64 is refused rather than wrapped
    assert!(read_u64("99999999999999999999:", 0).is_none());
    assert_eq!(read_u64("18446744073709551615:", 0).unwrap().0, u64::MAX);
}

#[test]
fn test_string_wire_form() {
    let mut out = String::new();
    write_str(&mut out, "hello");
    write_str(&mut out, "");
    write_str(&mut out, "wörld");
    assert_eq!(out, "5:hello0:5:wörld".to_string());

    let (a, p) = read_str(&out, 0).unwrap();
    assert_eq!(a, "hello".to_string());
    let (b, p) = read_str(&out, p).unwrap();
    assert_eq!(b, String::new());
    let (c, _) = read_str(&out, p).unwrap();
    assert_eq!(c, "wörld".to_string());

    // a length pointing past the end is refused
    assert!(read_str("9:ab", 0).is_none());
}

#[test]
fn test_bytes_wire_form() {
    let mut out = String::new();
    write_bytes(&mut out, &vec![0, 255, 7]);
    assert_eq!(out, "3:0:255:7:".to_string());
    let (b, p) = read_bytes(&out, 0).unwrap();
    assert_eq!(b, vec![0, 255, 7]);
    assert_eq!(p, out.len());
    // a byte value beyond 255 is refused
    assert!(read_bytes("1:256:", 0).is_none());
}
