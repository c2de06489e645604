use connect_four::input::parse_column;

#[test]
fn parse_plain_numbers() {
    assert_eq!(parse_column("0"), Ok(0));
    assert_eq!(parse_column("6"), Ok(6));
    assert_eq!(parse_column("7"), Ok(7));
    assert_eq!(parse_column("42"), Ok(42));
    assert_eq!(parse_column("007"), Ok(7));
    assert_eq!(parse_column("+3"), Ok(3));
    assert_eq!(parse_column("1234567890"), Ok(1234567890));
}

#[test]
fn parse_sets_white_space_aside() {
    assert_eq!(parse_column("3\n"), Ok(3));
    assert_eq!(parse_column("  3\r\n"), Ok(3));
    assert_eq!(parse_column("\t 12 \t"), Ok(12));
    assert_eq!(parse_column("\u{a0}5\u{3000}"), Ok(5));
    assert_eq!(parse_column("\u{2003}+5\u{85}"), Ok(5));
}

#[test]
fn parse_rejects_what_is_no_number() {
    assert_eq!(parse_column(""), Err(String::from("Invalid column ''")));
    assert_eq!(parse_column("\n"), Err(String::from("Invalid column ''")));
    assert_eq!(parse_column("   "), Err(String::from("Invalid column ''")));
    assert_eq!(parse_column("abc\n"), Err(String::from("Invalid column 'abc'")));
    assert_eq!(parse_column(" -1 \n"), Err(String::from("Invalid column '-1'")));
    assert_eq!(parse_column("+"), Err(String::from("Invalid column '+'")));
    assert_eq!(parse_column("++1"), Err(String::from("Invalid column '++1'")));
    assert_eq!(parse_column("1 2\n"), Err(String::from("Invalid column '1 2'")));
    assert_eq!(parse_column("3.0"), Err(String::from("Invalid column '3.0'")));
    assert_eq!(parse_column("1e3"), Err(String::from("Invalid column '1e3'")));
    assert_eq!(parse_column("0x5"), Err(String::from("Invalid column '0x5'")));
    assert_eq!(parse_column("\u{663}"), Err(String::from("Invalid column '\u{663}'")));
    assert_eq!(parse_column(" sp\u{e4}t "), Err(String::from("Invalid column 'sp\u{e4}t'")));
}

#[test]
fn parse_at_the_limit_of_usize() {
    let max = usize::MAX.to_string();
    assert_eq!(parse_column(&max), Ok(usize::MAX));
    assert_eq!(parse_column(&format!("  +000{}\n", max)), Ok(usize::MAX));
    let mut above: Vec<u8> = max.clone().into_bytes();
    let last = above.len() - 1;
    above[last] += 1;
    let above = String::from_utf8(above).unwrap();
    assert_eq!(parse_column(&above), Err(format!("Invalid column '{}'", above)));
    let longer = format!("{}0", max);
    assert_eq!(parse_column(&longer), Err(format!("Invalid column '{}'", longer)));
    let huge = "9".repeat(60);
    assert_eq!(parse_column(&huge), Err(format!("Invalid column '{}'", huge)));
    let overflow_then_letter = format!("{}x", huge);
    assert_eq!(
        parse_column(&overflow_then_letter),
        Err(format!("Invalid column '{}'", overflow_then_letter))
    );
}

#[test]
fn parse_agrees_with_the_standard_library() {
    let lines = [
        "", " ", "0", "00", "+0", "-0", "+", "-", "5\n", " 5", "5 ", "\n5\n", "5\u{b}", "\u{c}5",
        "\u{1680}6", "6\u{2028}", "6\u{2029}", "\u{202f}6\u{205f}", "\u{200b}6", "6\u{feff}",
        "1_000", "1,000", "12a", "a12", "٣", "18446744073709551615", "18446744073709551616",
        "4294967295", "4294967296", "99999999999999999999999", "+ 5", "5+", "\u{1c}5", "\u{1f}5",
    ];
    for line in lines.iter() {
        let expected = match line.trim().parse::<usize>() {
            Ok(n) => Ok(n),
            Err(_) => Err(format!("Invalid column '{}'", line.trim())),
        };
        assert_eq!(parse_column(line), expected, "line {:?}", line);
    }
}
