use svinst::locate::{locate, render_parse_error};

#[test]
fn third_line_second_column() {
    let src = b"a\nb\ncd";
    let p = locate(src, 5).unwrap();
    assert_eq!(p.offset, 5);
    assert_eq!(p.line_feeds, 2);
    assert_eq!(p.line_begin, 4);
    assert_eq!(p.line_end, 6);
    assert_eq!(p.line_number(), 3);
    assert_eq!(p.column_number(), 2);
    assert_eq!(&src[p.line_begin..p.line_end], b"cd");
}

#[test]
fn diagnostic_for_third_line_second_column() {
    let text = render_parse_error(b"f.sv", b"a\nb\ncd", 5).unwrap();
    assert_eq!(text, b" f.sv:3:2\n  |\n3 | cd\n  |  ^\n".to_vec());
}

#[test]
fn offset_at_start_of_file() {
    let p = locate(b"abc\ndef", 0).unwrap();
    assert_eq!(p.line_number(), 1);
    assert_eq!(p.column_number(), 1);
    assert_eq!(p.line_begin, 0);
    assert_eq!(p.line_end, 3);
    let text = render_parse_error(b"f.sv", b"abc\ndef", 0).unwrap();
    assert_eq!(text, b" f.sv:1:1\n  |\n1 | abc\n  | ^\n".to_vec());
}

#[test]
fn offset_in_first_line() {
    let text = render_parse_error(b"top.sv", b"module x\nendmodule\n", 7).unwrap();
    assert_eq!(text, b" top.sv:1:8\n  |\n1 | module x\n  |        ^\n".to_vec());
}

#[test]
fn offset_at_end_of_file() {
    let p = locate(b"ab", 2).unwrap();
    assert_eq!(p.line_number(), 1);
    assert_eq!(p.column_number(), 3);
    assert_eq!(p.line_end, 2);
    let text = render_parse_error(b"f.sv", b"ab", 2).unwrap();
    assert_eq!(text, b" f.sv:1:3\n  |\n1 | ab\n  |   \n".to_vec());
}

#[test]
fn offset_beyond_end_of_file() {
    assert!(locate(b"ab", 3).is_none());
    assert!(render_parse_error(b"f.sv", b"ab", 3).is_none());
    assert!(render_parse_error(b"f.sv", b"", 1).is_none());
}

#[test]
fn empty_source() {
    let text = render_parse_error(b"f.sv", b"", 0).unwrap();
    assert_eq!(text, b" f.sv:1:1\n  |\n1 | \n  | \n".to_vec());
}

#[test]
fn offset_on_a_line_feed() {
    let p = locate(b"a\nb", 1).unwrap();
    assert_eq!(p.line_number(), 1);
    assert_eq!(p.column_number(), 2);
    assert_eq!(p.line_begin, 0);
    assert_eq!(p.line_end, 1);
    let text = render_parse_error(b"f.sv", b"a\nb", 1).unwrap();
    assert_eq!(text, b" f.sv:1:2\n  |\n1 | a\n  |  \n".to_vec());
}

#[test]
fn offset_just_behind_a_line_feed() {
    let p = locate(b"a\nbc", 2).unwrap();
    assert_eq!(p.line_number(), 2);
    assert_eq!(p.column_number(), 1);
    assert_eq!(p.line_begin, 2);
    assert_eq!(p.line_end, 4);
}

#[test]
fn line_ends_at_carriage_return() {
    let text = render_parse_error(b"f.sv", b"ab\r\ncd\r\n", 5).unwrap();
    assert_eq!(text, b" f.sv:2:2\n  |\n2 | cd\n  |  ^\n".to_vec());
}

#[test]
fn gutter_grows_with_the_line_number() {
    let src = b"1\n2\n3\n4\n5\n6\n7\n8\n9\nten";
    let text = render_parse_error(b"f.sv", src, 19).unwrap();
    assert_eq!(text, b" f.sv:10:2\n   |\n10 | ten\n   |  ^\n".to_vec());
}

#[test]
fn multi_byte_text_is_kept() {
    let src = "x\ncaf\u{e9} y".as_bytes();
    let text = render_parse_error(b"f.sv", src, 8).unwrap();
    let expected = " f.sv:2:7\n  |\n2 | caf\u{e9} y\n  |       ^\n";
    assert_eq!(text, expected.as_bytes().to_vec());
}
