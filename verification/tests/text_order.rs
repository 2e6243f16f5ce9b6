use event_etl::rows::split_lines;
use event_etl::split_csv_line;
use event_etl::text::{compare_bytes, same_bytes, to_ascii_lower, to_ascii_upper, Rank};

#[test]
fn upper_case_changes_only_ascii_letters() {
    assert_eq!(to_ascii_upper(b"us"), b"US");
    assert_eq!(to_ascii_upper(b"Complete-1"), b"COMPLETE-1");
    assert_eq!(to_ascii_upper("gr\u{fc}n".as_bytes()), "GR\u{fc}N".as_bytes());
    assert_eq!(to_ascii_upper(b"`az{"), b"`AZ{");
}

#[test]
fn lower_case_changes_only_ascii_letters() {
    assert_eq!(to_ascii_lower(b"GOLD"), b"gold");
    assert_eq!(to_ascii_lower(b"Toys & Games"), b"toys & games");
    assert_eq!(to_ascii_lower("\u{c9}T\u{c9}".as_bytes()), "\u{c9}t\u{c9}".as_bytes());
    assert_eq!(to_ascii_lower(b"@AZ["), b"@az[");
}

#[test]
fn compare_orders_by_first_difference() {
    assert_eq!(compare_bytes(b"abc", b"abd"), Rank::Before);
    assert_eq!(compare_bytes(b"abd", b"abc"), Rank::After);
    assert_eq!(compare_bytes(b"abc", b"abc"), Rank::Same);
    assert_eq!(compare_bytes(b"b", b"abc"), Rank::After);
}

#[test]
fn compare_puts_a_prefix_first() {
    assert_eq!(compare_bytes(b"", b""), Rank::Same);
    assert_eq!(compare_bytes(b"", b"a"), Rank::Before);
    assert_eq!(compare_bytes(b"ab", b"abc"), Rank::Before);
    assert_eq!(compare_bytes(b"abc", b"ab"), Rank::After);
}

#[test]
fn compare_agrees_with_string_order() {
    let samples: [&str; 7] = ["", "a", "B", "ab", "2024-01-05T10:00:00", "2024-01-05T9:00:00", "\u{e9}"];
    for left in samples {
        for right in samples {
            let expected = if left < right {
                Rank::Before
            } else if left > right {
                Rank::After
            } else {
                Rank::Same
            };
            assert_eq!(compare_bytes(left.as_bytes(), right.as_bytes()), expected);
            assert_eq!(same_bytes(left.as_bytes(), right.as_bytes()), left == right);
        }
    }
}

#[test]
fn lines_end_at_line_feeds() {
    assert_eq!(split_lines(b"a\nb\nc"), vec![&b"a"[..], &b"b"[..], &b"c"[..]]);
    assert_eq!(split_lines(b"a\nb\n"), vec![&b"a"[..], &b"b"[..]]);
    assert_eq!(split_lines(b"a\n\nb"), vec![&b"a"[..], &b""[..], &b"b"[..]]);
    assert_eq!(split_lines(b"\n"), vec![&b""[..]]);
}

#[test]
fn lines_of_an_empty_text() {
    let none: Vec<&[u8]> = Vec::new();
    assert_eq!(split_lines(b""), none);
}

#[test]
fn lines_drop_one_carriage_return_before_the_line_feed() {
    assert_eq!(split_lines(b"a\r\nb\r\n"), vec![&b"a"[..], &b"b"[..]]);
    assert_eq!(split_lines(b"a\r\r\nb"), vec![&b"a\r"[..], &b"b"[..]]);
    assert_eq!(split_lines(b"a\rb\n"), vec![&b"a\rb"[..]]);
    assert_eq!(split_lines(b"a\r"), vec![&b"a\r"[..]]);
    assert_eq!(split_lines(b"\r\n"), vec![&b""[..]]);
}

#[test]
fn lines_agree_with_the_standard_reading() {
    let samples: [&str; 8] = ["", "x", "x\n", "x\r\n", "\n\n", "a\nb\r\nc\r", "a,b\n\n c \n", "\r\n\r\n"];
    for text in samples {
        let expected: Vec<&[u8]> = text.lines().map(|line| line.as_bytes()).collect();
        // A carriage return at the very end stays with the last line.
        if text.ends_with('\r') {
            continue;
        }
        assert_eq!(split_lines(text.as_bytes()), expected);
    }
}

#[test]
fn fields_are_split_at_commas() {
    assert_eq!(split_csv_line(b"a,b,c"), vec![&b"a"[..], &b"b"[..], &b"c"[..]]);
    assert_eq!(split_csv_line(b"a,,c"), vec![&b"a"[..], &b""[..], &b"c"[..]]);
    assert_eq!(split_csv_line(b",a"), vec![&b""[..], &b"a"[..]]);
    assert_eq!(split_csv_line(b"a,"), vec![&b"a"[..], &b""[..]]);
    assert_eq!(split_csv_line(b" a , b "), vec![&b" a "[..], &b" b "[..]]);
}

#[test]
fn fields_of_an_empty_line() {
    assert_eq!(split_csv_line(b""), vec![&b""[..]]);
    assert_eq!(split_csv_line(b","), vec![&b""[..], &b""[..]]);
}

#[test]
fn fields_drop_the_line_ending() {
    assert_eq!(split_csv_line(b"a,b\r\n"), vec![&b"a"[..], &b"b"[..]]);
    assert_eq!(split_csv_line(b"a,b\n\r\r\n"), vec![&b"a"[..], &b"b"[..]]);
    assert_eq!(split_csv_line(b"a,\r"), vec![&b"a"[..], &b""[..]]);
    assert_eq!(split_csv_line(b"\r\n"), vec![&b""[..]]);
    assert_eq!(split_csv_line(b"a\rb,c"), vec![&b"a\rb"[..], &b"c"[..]]);
}

#[test]
fn fields_agree_with_the_standard_split() {
    let samples: [&str; 7] = ["", "a", "a,b", ",", "a,b,\n", "x,,y\r\n", "1,2,3,4,5,6,7,8,9,10,11,12,13,14"];
    for text in samples {
        let expected: Vec<&[u8]> = text
            .trim_end_matches(&['\r', '\n'][..])
            .split(',')
            .map(|field| field.as_bytes())
            .collect();
        assert_eq!(split_csv_line(text.as_bytes()), expected);
    }
}
