use doctests_exercise::{FileSize, SizeError, Sizes};

fn texts(s: &Sizes) -> [&str; 4] {
    [s.bytes.as_str(), s.kilobytes.as_str(), s.megabytes.as_str(), s.gigabytes.as_str()]
}

#[test]
fn kilobytes_report() {
    let s = Sizes::get_sizes("1500 kb").unwrap();
    assert_eq!(
        texts(&s),
        ["1500000 bytes", "1500.00 kilobytes", "1.50 megabytes", "0.00 gigabytes"]
    );
}

#[test]
fn single_token_is_invalid_format() {
    assert_eq!(Sizes::get_sizes("10").unwrap_err(), SizeError::InvalidFormat);
}

#[test]
fn unknown_unit_is_invalid() {
    assert_eq!(Sizes::get_sizes("10 xyz").unwrap_err(), SizeError::InvalidUnit);
}

#[test]
fn word_count_other_than_two_is_invalid_format() {
    assert_eq!(FileSize::parse(""), Err(SizeError::InvalidFormat));
    assert_eq!(FileSize::parse("   "), Err(SizeError::InvalidFormat));
    assert_eq!(FileSize::parse("1 kb extra"), Err(SizeError::InvalidFormat));
}

#[test]
fn bad_numbers_are_invalid_number() {
    assert_eq!(FileSize::parse("-5 kb"), Err(SizeError::InvalidNumber));
    assert_eq!(FileSize::parse("abc b"), Err(SizeError::InvalidNumber));
    assert_eq!(FileSize::parse("+ b"), Err(SizeError::InvalidNumber));
    assert_eq!(FileSize::parse("1.5 kb"), Err(SizeError::InvalidNumber));
    assert_eq!(FileSize::parse("18446744073709551616 b"), Err(SizeError::InvalidNumber));
    assert_eq!(FileSize::parse("-5 xyz"), Err(SizeError::InvalidNumber));
}

#[test]
fn numbers_read_as_u64_does() {
    assert_eq!(FileSize::parse("+7 b"), Ok(FileSize::Bytes(7)));
    assert_eq!(FileSize::parse("007 b"), Ok(FileSize::Bytes(7)));
    assert_eq!(FileSize::parse("18446744073709551615 b"), Ok(FileSize::Bytes(u64::MAX)));
}

#[test]
fn units_in_any_case() {
    assert_eq!(FileSize::parse("3 B"), Ok(FileSize::Bytes(3)));
    assert_eq!(FileSize::parse("3 Bytes"), Ok(FileSize::Bytes(3)));
    assert_eq!(FileSize::parse("3 KB"), Ok(FileSize::Kilobytes(3)));
    assert_eq!(FileSize::parse("3 KiloBytes"), Ok(FileSize::Kilobytes(3)));
    assert_eq!(FileSize::parse("3 mB"), Ok(FileSize::Megabytes(3)));
    assert_eq!(FileSize::parse("3 MEGABYTES"), Ok(FileSize::Megabytes(3)));
    assert_eq!(FileSize::parse("3 gb"), Ok(FileSize::Gigabytes(3)));
    assert_eq!(FileSize::parse("3 gigabytes"), Ok(FileSize::Gigabytes(3)));
    assert_eq!(FileSize::parse("3 \u{212a}b"), Ok(FileSize::Kilobytes(3)));
    assert_eq!(FileSize::parse("3 kbs"), Err(SizeError::InvalidUnit));
}

#[test]
fn any_white_space_separates() {
    assert_eq!(FileSize::parse("  12\t\tmb\n"), Ok(FileSize::Megabytes(12)));
    assert_eq!(FileSize::parse("12\u{3000}gb"), Ok(FileSize::Gigabytes(12)));
}

#[test]
fn kilobytes_to_bytes_round_trip() {
    for n in [0u64, 1, 42, 1500] {
        let v = FileSize::parse(&format!("{} kb", n)).unwrap();
        assert_eq!(v, FileSize::Kilobytes(n));
        assert_eq!(v.to_bytes(), n as u128 * 1000);
        let s = Sizes::from_file_size(&v);
        assert_eq!(s.bytes, format!("{} bytes", n * 1000));
    }
}

#[test]
fn bytes_to_kilobytes_round_trip() {
    let s = Sizes::get_sizes("1500 b").unwrap();
    assert_eq!(s.kilobytes, "1.50 kilobytes");
    let s = Sizes::get_sizes("1234 b").unwrap();
    assert_eq!(s.kilobytes, "1.23 kilobytes");
}

#[test]
fn conversions_in_hundredths() {
    let v = FileSize::Megabytes(2);
    assert_eq!(v.to_bytes(), 2_000_000);
    assert_eq!(v.to_kilobytes(), 200_000);
    assert_eq!(v.to_megabytes(), 200);
    assert_eq!(v.to_gigabytes(), 0);
    assert_eq!(FileSize::Gigabytes(3).to_megabytes(), 300_000);
    assert_eq!(FileSize::Bytes(999).to_kilobytes(), 100);
}

#[test]
fn rounding_is_half_up() {
    let s = Sizes::from_file_size(&FileSize::Bytes(1005));
    assert_eq!(s.kilobytes, "1.01 kilobytes");
    let s = Sizes::from_file_size(&FileSize::Bytes(1004));
    assert_eq!(s.kilobytes, "1.00 kilobytes");
    let s = Sizes::from_file_size(&FileSize::Bytes(5_000_000));
    assert_eq!(s.gigabytes, "0.01 gigabytes");
}

#[test]
fn bytes_report() {
    let s = Sizes::get_sizes("1500 bytes").unwrap();
    assert_eq!(
        texts(&s),
        ["1500 bytes", "1.50 kilobytes", "0.00 megabytes", "0.00 gigabytes"]
    );
}

#[test]
fn largest_gigabytes() {
    let s = Sizes::get_sizes("18446744073709551615 gb").unwrap();
    assert_eq!(s.bytes, "18446744073709551615000000000 bytes");
    assert_eq!(s.gigabytes, "18446744073709551615.00 gigabytes");
    assert_eq!(s.megabytes, "18446744073709551615000.00 megabytes");
}
