use std::cmp::Ordering;
use warpview::natural::{natural_cmp, take_number};

#[test]
fn natural_cmp_is_reflexive() {
    for s in ["", "a", "img10.jpg", "007", "Zeta2b"] {
        assert_eq!(natural_cmp(s, s), Ordering::Equal);
    }
}

#[test]
fn natural_cmp_swaps_when_arguments_swap() {
    let pairs = [("img2", "img10"), ("a", "B"), ("abc", "ab"), ("1x", "x1"), ("", "z")];
    for (a, b) in pairs {
        assert_eq!(natural_cmp(a, b), natural_cmp(b, a).reverse());
    }
}

#[test]
fn natural_cmp_is_transitive_on_examples() {
    let names = ["img2", "img10", "img10a", "IMG9", "img", "9", "_x", "x", "10"];
    for a in names {
        for b in names {
            for c in names {
                if natural_cmp(a, b) != Ordering::Greater && natural_cmp(b, c) != Ordering::Greater {
                    assert_ne!(natural_cmp(a, c), Ordering::Greater, "{a} {b} {c}");
                }
            }
        }
    }
}

#[test]
fn natural_cmp_ignores_ascii_case() {
    assert_eq!(natural_cmp("IMG3.JPG", "img3.jpg"), Ordering::Equal);
    assert_eq!(natural_cmp("Apple", "banana"), Ordering::Less);
    assert_eq!(natural_cmp("apple", "Banana"), Ordering::Less);
}

#[test]
fn natural_cmp_compares_numbers_by_value() {
    assert_eq!(natural_cmp("img2", "img10"), Ordering::Less);
    assert_eq!(natural_cmp("img010", "img10"), Ordering::Equal);
    assert_eq!(natural_cmp("a2b", "a2c"), Ordering::Less);
    assert_eq!(natural_cmp("img", "img1"), Ordering::Less);
    assert_eq!(natural_cmp("1", "a"), Ordering::Less);
    assert_eq!(natural_cmp("-", "1"), Ordering::Less);
    assert_eq!(natural_cmp("_", "1"), Ordering::Greater);
}

#[test]
fn natural_cmp_saturates_huge_numbers() {
    assert_eq!(natural_cmp("99999999999999999999999", "18446744073709551615"), Ordering::Equal);
    assert_eq!(natural_cmp("18446744073709551614", "99999999999999999999999"), Ordering::Less);
}

#[test]
fn take_number_reads_the_digit_run() {
    let chars: Vec<char> = "ab0123x9".chars().collect();
    assert_eq!(take_number(&chars, 2), (123, 6));
    assert_eq!(take_number(&chars, 6), (0, 6));
    assert_eq!(take_number(&chars, 7), (9, 8));
    let big: Vec<char> = "123456789012345678901234".chars().collect();
    assert_eq!(take_number(&big, 0), (u64::MAX, 24));
}
