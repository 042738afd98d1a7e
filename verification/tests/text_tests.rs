use web_sw_cor24_plsw::display::{asm_line_parts, is_comment_line, number_lines, object_listing, AsmLine};
use web_sw_cor24_plsw::text::{chars_of, decimal, lines, parse_u32, replace, split_char, trim};

fn v(s: &str) -> Vec<char> {
    s.chars().collect()
}

#[test]
fn lines_follow_str_lines() {
    let got = lines(&v("a\r\nb\n\nc\n"));
    assert_eq!(got, vec![v("a"), v("b"), v(""), v("c")]);
    assert!(lines(&v("")).is_empty());
}

#[test]
fn trim_and_split_and_replace() {
    assert_eq!(trim(&v(" \t x y \n")), v("x y"));
    assert_eq!(split_char(&v("a,b,,c"), ','), vec![v("a"), v("b"), v(""), v("c")]);
    assert_eq!(replace(&v("{X} and {X}"), &v("{X}"), &v("42")), v("42 and 42"));
    assert_eq!(chars_of("hé"), v("hé"));
}

#[test]
fn decimal_numbers_parse_and_print() {
    assert_eq!(parse_u32(&v("24")), Some(24));
    assert_eq!(parse_u32(&v("4294967295")), Some(u32::MAX));
    assert_eq!(parse_u32(&v("4294967296")), None);
    assert_eq!(parse_u32(&v("")), None);
    assert_eq!(parse_u32(&v("1a")), None);
    assert_eq!(decimal(0), v("0"));
    assert_eq!(decimal(1_000_007), v("1000007"));
}

#[test]
fn numbered_listing_pads_to_three_digits() {
    assert_eq!(number_lines("A;\nB;"), "  1  A;\n  2  B;");
    assert_eq!(number_lines(""), "");
    let long: String = (0..1000).map(|_| "x\n").collect();
    let listing = number_lines(&long);
    assert!(listing.starts_with("   1  x\n"));
    assert!(listing.ends_with("\n1000  x"));
}

#[test]
fn comment_lines_and_asm_comments_are_split_for_highlighting() {
    assert!(is_comment_line("   /* note */"));
    assert!(!is_comment_line("X = 1; /* trailing */"));
    match asm_line_parts("  lc r0, 1 ; load one ") {
        AsmLine::Commented { code, comment } => {
            assert_eq!(code, "lc r0, 1 ");
            assert_eq!(comment, "; load one");
        }
        _ => panic!("expected a comment"),
    }
    assert!(matches!(asm_line_parts("   "), AsmLine::Blank));
    assert!(matches!(asm_line_parts("halt"), AsmLine::Code));
}

#[test]
fn object_listing_shows_sixteen_bytes_per_row() {
    let bytes: Vec<u8> = (0u8..20).collect();
    assert_eq!(
        object_listing(&bytes),
        "000000: 00 01 02 03 04 05 06 07 08 09 0A 0B 0C 0D 0E 0F\n000010: 10 11 12 13\n"
    );
    assert_eq!(object_listing(&vec![0xAB]), "000000: AB\n");
    assert_eq!(object_listing(&vec![]), "");
}
