use tinyutils::wc::counts::Counts;
use tinyutils::wc::report::{columns, Config};

#[test]
fn no_switch_selects_lines_words_bytes() {
    let config = Config::from_flags(false, false, false, false);
    assert_eq!(config, Config { lines: true, words: true, bytes: true, chars: false });
}

#[test]
fn switches_select_what_they_name() {
    for bits in 1..16u8 {
        let (l, w, b, c) = (bits & 1 != 0, bits & 2 != 0, bits & 4 != 0, bits & 8 != 0);
        let config = Config::from_flags(l, w, b, c);
        assert_eq!(config, Config { lines: l, words: w, bytes: b, chars: c });
    }
}

#[test]
fn columns_come_in_the_order_lines_words_bytes_chars() {
    let counts = Counts { lines: 1, words: 2, bytes: 3, chars: 4 };
    let all = Config { lines: true, words: true, bytes: true, chars: true };
    assert_eq!(columns(&counts, &all), vec![1, 2, 3, 4]);
    let default = Config::from_flags(false, false, false, false);
    assert_eq!(columns(&counts, &default), vec![1, 2, 3]);
    let chars = Config::from_flags(false, false, false, true);
    assert_eq!(columns(&counts, &chars), vec![4]);
    let some = Config { lines: false, words: true, bytes: false, chars: true };
    assert_eq!(columns(&counts, &some), vec![2, 4]);
    let none = Config { lines: false, words: false, bytes: false, chars: false };
    assert_eq!(columns(&counts, &none), Vec::<usize>::new());
}
