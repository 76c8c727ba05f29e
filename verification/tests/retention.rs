use rolling_file::retention::{collect_log_files, is_log_file_name, log_files_to_remove, sort_newest_first};

fn names(list: &[&str]) -> Vec<String> {
    list.iter().map(|s| s.to_string()).collect()
}

#[test]
fn files_of_the_prefix_count() {
    assert!(is_log_file_name("log.log.20210330.010203", "log.log"));
    assert!(is_log_file_name("log.logx", "log.log"));
    assert!(is_log_file_name("log.log.bak", "log.log"));
    assert!(!is_log_file_name("other.20210330.010203", "log.log"));
    assert!(!is_log_file_name("log.lo", "log.log"));
    assert!(!is_log_file_name("", "log.log"));
    assert!(is_log_file_name("anything", ""));
}

#[test]
fn the_pointer_and_latest_names_do_not_count() {
    assert!(!is_log_file_name("log.log", "log.log"));
    assert!(!is_log_file_name("log.log.latest", "log.log"));
    assert!(!is_log_file_name("log.log.20210330.010203.latest", "log.log"));
    assert!(is_log_file_name("log.log.latest.1", "log.log"));
    assert!(!is_log_file_name("", ""));
    assert!(!is_log_file_name(".latest", ""));
}

#[test]
fn collecting_keeps_the_order_of_the_listing() {
    let listing = names(&["b.2", "a.1", "b", "b.latest", "b.1", "c.1", "b.1"]);
    assert_eq!(collect_log_files(&listing, "b"), names(&["b.2", "b.1", "b.1"]));
    assert_eq!(collect_log_files(&names(&[]), "b"), names(&[]));
}

#[test]
fn sorting_puts_the_newest_name_first() {
    let files = names(&[
        "log.log.20210330.020300",
        "log.log.20220531.020400",
        "log.log.20210330.010203",
        "log.log.20210531.010400",
        "log.log.20210331.010400",
    ]);
    assert_eq!(
        sort_newest_first(&files),
        names(&[
            "log.log.20220531.020400",
            "log.log.20210531.010400",
            "log.log.20210331.010400",
            "log.log.20210330.020300",
            "log.log.20210330.010203",
        ])
    );
    let mut expected = files.clone();
    expected.sort_by(|a, b| b.cmp(a));
    assert_eq!(sort_newest_first(&files), expected);
    assert_eq!(sort_newest_first(&names(&[])), names(&[]));
    assert_eq!(sort_newest_first(&names(&["x", "x"])), names(&["x", "x"]));
}

#[test]
fn all_but_the_newest_are_removed() {
    let listing = names(&[
        "log.log.20210330.020300",
        "log.log",
        "log.log.20220531.020400",
        "unrelated.txt",
        "log.log.20210330.010203",
        "log.log.20210531.010400",
        "log.log.20210331.010400",
    ]);
    assert_eq!(
        log_files_to_remove(&listing, "log.log", 3),
        names(&["log.log.20210330.020300", "log.log.20210330.010203"])
    );
    assert_eq!(log_files_to_remove(&listing, "log.log", 4), names(&["log.log.20210330.010203"]));
    assert_eq!(log_files_to_remove(&listing, "log.log", 5), names(&[]));
    assert_eq!(log_files_to_remove(&listing, "log.log", 6), names(&[]));
    assert_eq!(log_files_to_remove(&listing, "log.log", usize::MAX), names(&[]));
}

#[test]
fn a_cap_of_zero_removes_every_file_but_never_the_pointer() {
    let listing = names(&["p.20210330.010203", "p", "p.20210330.020300", "p.latest", "q"]);
    assert_eq!(
        log_files_to_remove(&listing, "p", 0),
        names(&["p.20210330.020300", "p.20210330.010203"])
    );
}

#[test]
fn nothing_to_remove_from_an_empty_folder() {
    assert_eq!(log_files_to_remove(&names(&[]), "log.log", 0), names(&[]));
    assert_eq!(log_files_to_remove(&names(&["other"]), "log.log", 0), names(&[]));
}

#[test]
fn stray_names_are_ranked_by_dictionary_order() {
    let listing = names(&["p.zzz", "p.20210330.010203", "p.", "p.20210330.020300"]);
    assert_eq!(log_files_to_remove(&listing, "p", 2), names(&["p.20210330.010203", "p."]));
}
