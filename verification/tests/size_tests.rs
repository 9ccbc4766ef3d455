use bestls::size::{human_size, parse_size, InvalidSize};

#[test]
fn sizes_without_a_unit_are_bytes() {
    assert_eq!(parse_size("100"), Ok(100));
    assert_eq!(parse_size("0"), Ok(0));
    assert_eq!(parse_size("007"), Ok(7));
    assert_eq!(parse_size("100B"), Ok(100));
    assert_eq!(parse_size("100b"), Ok(100));
}

#[test]
fn units_are_powers_of_1024() {
    assert_eq!(parse_size("1K"), Ok(1024));
    assert_eq!(parse_size("1KB"), Ok(1024));
    assert_eq!(parse_size("1kb"), Ok(1024));
    assert_eq!(parse_size("1Kb"), Ok(1024));
    assert_eq!(parse_size("1M"), Ok(1024 * 1024));
    assert_eq!(parse_size("1MB"), Ok(1024 * 1024));
    assert_eq!(parse_size("1G"), Ok(1024 * 1024 * 1024));
    assert_eq!(parse_size("1gb"), Ok(1024 * 1024 * 1024));
    assert_eq!(parse_size("1T"), Ok(1024u64.pow(4)));
    assert_eq!(parse_size("3TB"), Ok(3 * 1024u64.pow(4)));
}

#[test]
fn fractions_are_rounded_down() {
    assert_eq!(parse_size("1.5MB"), Ok(1572864));
    assert_eq!(parse_size("1.5KB"), Ok(1536));
    assert_eq!(parse_size("0.5"), Ok(0));
    assert_eq!(parse_size("2.9"), Ok(2));
    assert_eq!(parse_size(".5KB"), Ok(512));
    assert_eq!(parse_size("5."), Ok(5));
    assert_eq!(parse_size("1.001KB"), Ok(1025));
    assert_eq!(parse_size("0.0009765625KB"), Ok(1));
    assert_eq!(parse_size("0.0009765624999999999999999999999999999999999999KB"), Ok(0));
    assert_eq!(parse_size("0.00097656250000000000000000000000000000000000001KB"), Ok(1));
    assert_eq!(parse_size("0.9999999999999999999999999999999999999999999999999999TB"), Ok(1024u64.pow(4) - 1));
    assert_eq!(parse_size("1.0000000000009094947017729282379150390625TB"), Ok(1024u64.pow(4) + 1));
}

#[test]
fn sizes_past_the_largest_count_give_that_count() {
    assert_eq!(parse_size("18446744073709551615"), Ok(u64::MAX));
    assert_eq!(parse_size("18446744073709551616"), Ok(u64::MAX));
    assert_eq!(parse_size("99999999999999999999999999999"), Ok(u64::MAX));
    assert_eq!(parse_size("16777216TB"), Ok(u64::MAX));
    assert_eq!(parse_size("16777215TB"), Ok(16777215 * 1024u64.pow(4)));
}

#[test]
fn malformed_sizes_are_rejected() {
    assert_eq!(parse_size(""), Err(InvalidSize));
    assert_eq!(parse_size("."), Err(InvalidSize));
    assert_eq!(parse_size("KB"), Err(InvalidSize));
    assert_eq!(parse_size(".KB"), Err(InvalidSize));
    assert_eq!(parse_size("abc"), Err(InvalidSize));
    assert_eq!(parse_size("1.2.3"), Err(InvalidSize));
    assert_eq!(parse_size("-1"), Err(InvalidSize));
    assert_eq!(parse_size("+1"), Err(InvalidSize));
    assert_eq!(parse_size("1 KB"), Err(InvalidSize));
    assert_eq!(parse_size(" 1KB"), Err(InvalidSize));
    assert_eq!(parse_size("1e3"), Err(InvalidSize));
    assert_eq!(parse_size("1,5KB"), Err(InvalidSize));
}

#[test]
fn unknown_units_are_rejected() {
    assert_eq!(parse_size("1XB"), Err(InvalidSize));
    assert_eq!(parse_size("1P"), Err(InvalidSize));
    assert_eq!(parse_size("1KBS"), Err(InvalidSize));
    assert_eq!(parse_size("1KiB"), Err(InvalidSize));
    assert_eq!(parse_size("1BB"), Err(InvalidSize));
    assert_eq!(parse_size("1KB2"), Err(InvalidSize));
    assert_eq!(parse_size("1K\u{212a}"), Err(InvalidSize));
    assert_eq!(parse_size("1\u{212a}"), Err(InvalidSize));
}

#[test]
fn human_size_below_1024_is_the_count() {
    assert_eq!(human_size(0), "0 B");
    assert_eq!(human_size(10), "10 B");
    assert_eq!(human_size(1023), "1023 B");
}

#[test]
fn human_size_scales_by_1024() {
    assert_eq!(human_size(1024), "1.0 KB");
    assert_eq!(human_size(1536), "1.5 KB");
    assert_eq!(human_size(2048), "2.0 KB");
    assert_eq!(human_size(1_500_000), "1.4 MB");
    assert_eq!(human_size(1024 * 1024), "1.0 MB");
    assert_eq!(human_size(1024 * 1024 * 1024), "1.0 GB");
    assert_eq!(human_size(1024u64.pow(4)), "1.0 TB");
    assert_eq!(human_size(u64::MAX), "16777216.0 TB");
}

#[test]
fn human_size_rounds_to_the_nearest_tenth() {
    // 1075 / 1024 = 1.0498..., 1076 / 1024 = 1.0507...
    assert_eq!(human_size(1075), "1.0 KB");
    assert_eq!(human_size(1076), "1.1 KB");
    assert_eq!(human_size(1024 * 1024 - 1), "1024.0 KB");
    assert_eq!(human_size(10 * 1024 + 512), "10.5 KB");
}

#[test]
fn human_size_and_parse_size_agree_on_whole_units() {
    for text in ["1.0 KB", "2.0 MB", "3.0 GB", "4.0 TB"] {
        let compact: String = text.chars().filter(|c| *c != ' ').collect();
        let bytes = parse_size(&compact).unwrap();
        assert_eq!(human_size(bytes), text);
    }
}
