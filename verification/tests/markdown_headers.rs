use myrustutils::markdown_headers::{
    header_color, header_indent, header_layout, headers_from_markdown, parse_u8, Header, HeaderColor,
};

const EXAMPLE: &str = "# Title\n\nSome text.\n\n## Section\n\n### Sub *section*\n\ntext\n\n#### Four\n\n##### Five\n";

#[test]
fn read_headers() {
    let headers = headers_from_markdown(EXAMPLE).expect("error reading headers");
    assert!(headers.len() > 0, "no headers created");
}

#[test]
fn headers_in_document_order() {
    let headers = headers_from_markdown(EXAMPLE).unwrap();
    let got: Vec<(u8, &str)> = headers.iter().map(|h| (h.level, h.text.as_str())).collect();
    assert_eq!(
        got,
        vec![(1, "Title"), (2, "Section"), (3, "Sub <em>section</em>"), (4, "Four"), (5, "Five")]
    );
}

#[test]
fn no_headers_in_plain_text() {
    assert_eq!(headers_from_markdown("just text\n").unwrap().len(), 0);
}

#[test]
fn header_new_keeps_fields() {
    let h = Header::new(3, "abc");
    assert_eq!(h.level, 3);
    assert_eq!(h.text, "abc");
}

#[test]
fn parse_levels() {
    assert_eq!(parse_u8("7"), Some(7));
    assert_eq!(parse_u8("+12"), Some(12));
    assert_eq!(parse_u8("007"), Some(7));
    assert_eq!(parse_u8("255"), Some(255));
    assert_eq!(parse_u8("256"), None);
    assert_eq!(parse_u8("99999"), None);
    assert_eq!(parse_u8(""), None);
    assert_eq!(parse_u8("+"), None);
    assert_eq!(parse_u8("-1"), None);
    assert_eq!(parse_u8("1a"), None);
    for s in ["0", "1", "9", "42", "+0", "200", "300", "x"] {
        assert_eq!(parse_u8(s), s.parse::<u8>().ok(), "{}", s);
    }
}

#[test]
fn colors_by_level() {
    assert_eq!(header_color(1), HeaderColor::Yellow);
    assert_eq!(header_color(2), HeaderColor::Red);
    assert_eq!(header_color(3), HeaderColor::Blue);
    assert_eq!(header_color(4), HeaderColor::Green);
    assert_eq!(header_color(5), HeaderColor::Magenta);
    assert_eq!(header_color(6), HeaderColor::Cyan);
    assert_eq!(header_color(9), HeaderColor::BrightMagenta);
    assert_eq!(header_color(0), HeaderColor::Black);
    assert_eq!(header_color(10), HeaderColor::Black);
    for a in 1..=9u8 {
        for b in (a + 1)..=9u8 {
            assert_ne!(header_color(a), header_color(b));
        }
    }
}

#[test]
fn indent_by_level() {
    assert_eq!(header_indent(1), 0);
    assert_eq!(header_indent(2), 2);
    assert_eq!(header_indent(3), 4);
    assert_eq!(header_indent(9), 16);
    for level in 1..=8u8 {
        assert!(header_indent(level) < header_indent(level + 1));
    }
}

#[test]
fn layout_of_headers() {
    let headers = vec![Header::new(1, "a"), Header::new(3, "b")];
    let layout = header_layout(&headers);
    assert_eq!(layout.len(), 2);
    assert_eq!(layout[0], (0, HeaderColor::Yellow, "a".to_string()));
    assert_eq!(layout[1], (4, HeaderColor::Blue, "b".to_string()));
}
