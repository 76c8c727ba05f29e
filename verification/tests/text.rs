use rolling_file::text::{ends_with, sorts_no_later, starts_with};

#[test]
fn starts_with_agrees_with_std() {
    let texts = ["", "l", "log", "log.log", "log.log.20210330.010203", "lag", "ログ", "ログ.1", "é", "e"];
    for a in texts {
        for b in texts {
            assert_eq!(starts_with(a, b), a.starts_with(b));
        }
    }
}

#[test]
fn ends_with_agrees_with_std() {
    let texts = ["", ".latest", "log.latest", "latest", "log.log", "x.latest.1", "t", "ログ", "グ", "west"];
    for a in texts {
        for b in texts {
            assert_eq!(ends_with(a, b), a.ends_with(b));
        }
    }
}

#[test]
fn dictionary_order_agrees_with_std() {
    let texts = [
        "", "a", "b", "ab", "abc", "abd", "B", "log.log", "log.log.20210330.010203",
        "log.log.20210330.020300", "log.log.+100000101.000000", "log.log.-00010101.000000",
        "é", "e", "z", "ログ", "\u{10000}", "\u{ffff}", "\u{7f}", "\u{80}",
    ];
    for a in texts {
        for b in texts {
            assert_eq!(sorts_no_later(a, b), a <= b);
        }
    }
}

#[test]
fn a_text_sorts_before_its_extensions() {
    assert!(sorts_no_later("log.log", "log.log.20210330.010203"));
    assert!(!sorts_no_later("log.log.20210330.010203", "log.log"));
    assert!(sorts_no_later("", ""));
    assert!(sorts_no_later("same", "same"));
}
