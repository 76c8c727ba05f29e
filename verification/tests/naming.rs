use rolling_file::naming::new_file_name;
use rolling_file::LocalDateTime;

fn at(year: i32, month: u32, day: u32, hour: u32, minute: u32, second: u32) -> LocalDateTime {
    LocalDateTime::new(year, month, day, hour, minute, second).unwrap()
}

#[test]
fn file_name_is_prefix_dot_stamp() {
    assert_eq!(new_file_name("log.log", &at(2024, 5, 20, 1, 1, 1)), "log.log.20240520.010101");
    assert_eq!(new_file_name("a", &at(2021, 12, 31, 23, 59, 59)), "a.20211231.235959");
    assert_eq!(new_file_name("", &at(2000, 1, 1, 0, 0, 0)), ".20000101.000000");
}

#[test]
fn year_is_padded_to_four_digits() {
    assert_eq!(new_file_name("p", &at(0, 1, 1, 0, 0, 0)), "p.00000101.000000");
    assert_eq!(new_file_name("p", &at(7, 3, 4, 5, 6, 7)), "p.00070304.050607");
    assert_eq!(new_file_name("p", &at(999, 10, 10, 10, 10, 10)), "p.09991010.101010");
    assert_eq!(new_file_name("p", &at(9999, 12, 31, 23, 59, 59)), "p.99991231.235959");
}

#[test]
fn year_outside_four_digits_carries_a_sign() {
    assert_eq!(new_file_name("p", &at(10000, 1, 1, 0, 0, 0)), "p.+100000101.000000");
    assert_eq!(new_file_name("p", &at(262142, 12, 31, 0, 0, 0)), "p.+2621421231.000000");
    assert_eq!(new_file_name("p", &at(-1, 1, 1, 0, 0, 0)), "p.-00010101.000000");
    assert_eq!(new_file_name("p", &at(-4, 2, 29, 0, 0, 0)), "p.-00040229.000000");
    assert_eq!(new_file_name("p", &at(-9999, 1, 1, 0, 0, 0)), "p.-99990101.000000");
    assert_eq!(new_file_name("p", &at(-10000, 1, 1, 0, 0, 0)), "p.-100000101.000000");
    assert_eq!(new_file_name("p", &at(-262143, 1, 1, 0, 0, 0)), "p.-2621430101.000000");
}
