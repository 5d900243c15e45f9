use text_editor::keys::ctrl_key;
use text_editor::keys::EXIT;
use text_editor::keys::SAVE;
use text_editor::size::format_size;
use text_editor::size::push_decimal;
use text_editor::size::slice_find;

fn size(n: u64) -> String {
    String::from_utf8(format_size(n)).unwrap()
}

#[test]
fn format_size_one_and_a_half_kilobytes() {
    assert_eq!(size(1536), "1.50kB");
}

#[test]
fn format_size_below_one_kilobyte() {
    assert_eq!(size(0), "0B");
    assert_eq!(size(1), "1B");
    assert_eq!(size(1023), "1023B");
}

#[test]
fn format_size_at_the_unit_boundaries() {
    assert_eq!(size(1024), "1.00kB");
    assert_eq!(size(1024 * 1024 - 1), "1023.99kB");
    assert_eq!(size(1024 * 1024), "1.00MB");
    assert_eq!(size(1 << 30), "1.00GB");
    assert_eq!(size(1 << 40), "1.00TB");
    assert_eq!(size(1 << 50), "1.00PB");
    assert_eq!(size(1 << 60), "1.00EB");
    assert_eq!(size(u64::MAX), "15.99EB");
}

#[test]
fn format_size_rounds_down() {
    assert_eq!(size(1034), "1.00kB");
    assert_eq!(size(1035), "1.01kB");
    assert_eq!(size(2047), "1.99kB");
    assert_eq!(size(1024 * 1024 * 5 / 2), "2.50MB");
    assert_eq!(size(123456789), "117.73MB");
}

#[test]
fn decimal_digits() {
    let mut out = b"n=".to_vec();
    push_decimal(&mut out, 0);
    push_decimal(&mut out, 7);
    push_decimal(&mut out, 1203);
    push_decimal(&mut out, u64::MAX);
    assert_eq!(out, b"n=07120318446744073709551615");
}

#[test]
fn ctrl_key_masks_the_byte() {
    assert_eq!(ctrl_key(b'Q'), 17);
    assert_eq!(ctrl_key(b'q'), 17);
    assert_eq!(ctrl_key(b'H'), 8);
    assert_eq!(ctrl_key(b'S'), 19);
    assert_eq!(ctrl_key(0xff), 31);
    assert_eq!(ctrl_key(b'@'), 0);
    assert_eq!(ctrl_key(b'Q'), EXIT);
    assert_eq!(ctrl_key(b'S'), SAVE);
}

#[test]
fn slice_find_finds_the_first_place() {
    assert_eq!(slice_find(b"abcabc", b"bc"), Some(1));
    assert_eq!(slice_find(b"abcabc", b"abc"), Some(0));
    assert_eq!(slice_find(b"abcabc", b"c"), Some(2));
    assert_eq!(slice_find(b"aab", b"ab"), Some(1));
    assert_eq!(slice_find(b"abc", b"abc"), Some(0));
}

#[test]
fn slice_find_finds_nothing() {
    assert_eq!(slice_find(b"abcabc", b"cb"), None);
    assert_eq!(slice_find(b"ab", b"abc"), None);
    assert_eq!(slice_find(b"", b"a"), None);
}

#[test]
fn slice_find_of_an_empty_needle() {
    assert_eq!(slice_find(b"abc", b""), Some(0));
    assert_eq!(slice_find(b"", b""), Some(0));
}
