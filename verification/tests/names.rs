use postal::naming::{base26, LETTERS};
use std::collections::HashSet;

#[test]
fn names_in_order() {
    assert_eq!(base26(0), "a");
    assert_eq!(base26(25), "z");
    assert_eq!(base26(26), "aa");
    assert_eq!(base26(27), "ab");
    assert_eq!(base26(51), "az");
    assert_eq!(base26(52), "ba");
    assert_eq!(base26(701), "zz");
    assert_eq!(base26(702), "aaa");
    assert_eq!(LETTERS[2], 'c');
}

#[test]
fn names_differ_and_grow() {
    let mut seen = HashSet::new();
    let mut longest = 0;
    for n in 0..20000 {
        let name = base26(n);
        assert!(name.chars().all(|c| c.is_ascii_lowercase()));
        assert!(name.len() >= longest);
        longest = name.len();
        assert!(seen.insert(name));
    }
}

#[test]
fn the_largest_number_has_a_name() {
    assert!(!base26(usize::MAX).is_empty());
}

#[test]
fn names_of_one_length_are_in_alphabetical_order() {
    for n in 0..20000 {
        let (name, next) = (base26(n), base26(n + 1));
        assert!(name.len() < next.len() || name.len() == next.len() && name < next);
    }
}
