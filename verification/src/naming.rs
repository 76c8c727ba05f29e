//! Names of dated files: `prefix.yyyymmdd.hhmmss`.

use crate::datetime::{civil_before, is_civil, Civil, LocalDateTime};
use crate::text::{lemma_text_le_after_common_prefix, lemma_text_le_by_parts, text_le};
use vstd::prelude::*;
use vstd::string::*;

verus! {

/// The character of the decimal digit `d`.
pub open spec fn digit(d: int) -> char {
    (48 + d) as char
}

/// `n` in two decimal digits, for `n` below 100.
pub open spec fn two_digits(n: int) -> Seq<char> {
    seq![digit(n / 10), digit(n % 10)]
}

/// `n` in four decimal digits, for `n` below 10000.
pub open spec fn four_digits(n: int) -> Seq<char> {
    two_digits(n / 100) + two_digits(n % 100)
}

/// `n` in decimal with no leading zero, for `n` from 0.
pub open spec fn decimal(n: int) -> Seq<char>
    decreases n,
{
    if n < 10 {
        seq![digit(n)]
    } else {
        decimal(n / 10).push(digit(n % 10))
    }
}

/// The year as it stands in a file name: four digits from year 0 to year
/// 9999, else a sign and at least four digits.
pub open spec fn year_text(year: int) -> Seq<char> {
    if 0 <= year <= 9999 {
        four_digits(year)
    } else if year > 9999 {
        seq!['+'] + decimal(year)
    } else if year >= -9999 {
        seq!['-'] + four_digits(-year)
    } else {
        seq!['-'] + decimal(-year)
    }
}

/// The date as `yyyymmdd`.
pub open spec fn date_text(at: Civil) -> Seq<char> {
    year_text(at.year) + two_digits(at.month) + two_digits(at.day)
}

/// The time of day as `hhmmss`.
pub open spec fn time_text(at: Civil) -> Seq<char> {
    two_digits(at.hour) + two_digits(at.minute) + two_digits(at.second)
}

/// The date-time as `yyyymmdd.hhmmss`.
pub open spec fn stamp_text(at: Civil) -> Seq<char> {
    date_text(at) + seq!['.'] + time_text(at)
}

/// The name of the file opened at `at` for `prefix`.
pub open spec fn file_name(prefix: Seq<char>, at: Civil) -> Seq<char> {
    prefix + seq!['.'] + stamp_text(at)
}

/// Writes a date-time as `yyyymmdd.hhmmss`.
///
/// Trusted: builds the date-time with `chrono::NaiveDate::from_ymd_opt` and
/// `NaiveDate::and_hms_opt`, which accept every day that exists from year
/// -262143 to year 262142 and every time of day to the second, and writes it
/// with `NaiveDateTime::format` under `"%Y%m%d.%H%M%S"`. The contract claims
/// chrono's zero-padded digits for each field; for a year outside 0..=9999 a
/// sign comes first, as chrono writes it.
#[verifier::external_body]
fn format_stamp(year: i32, month: u32, day: u32, hour: u32, minute: u32, second: u32) -> (text:
    String)
    requires
        is_civil(
            (Civil {
                year: year as int,
                month: month as int,
                day: day as int,
                hour: hour as int,
                minute: minute as int,
                second: second as int,
            }),
        ),
    ensures
        text@ == stamp_text(
            (Civil {
                year: year as int,
                month: month as int,
                day: day as int,
                hour: hour as int,
                minute: minute as int,
                second: second as int,
            }),
        ),
{
    let date = chrono::NaiveDate::from_ymd_opt(year, month, day).unwrap();
    let at = date.and_hms_opt(hour, minute, second).unwrap();
    at.format("%Y%m%d.%H%M%S").to_string()
}

/// The name of the file that is opened at `now`: the prefix, a dot and the
/// date-time as `yyyymmdd.hhmmss`.
pub fn new_file_name(prefix: &str, now: &LocalDateTime) -> (name: String)
    ensures
        name@ == file_name(prefix@, now@),
{
    proof {
        use_type_invariant(now);
        reveal_strlit(".");
    }
    let stamp = format_stamp(
        now.year(),
        now.month(),
        now.day(),
        now.hour(),
        now.minute(),
        now.second(),
    );
    let mut name = String::from_str(prefix);
    name.append(".");
    name.append(stamp.as_str());
    assert("."@ =~= seq!['.']);
    assert(name@ =~= file_name(prefix@, now@));
    name
}

/// Two digits order as their numbers do.
pub proof fn lemma_two_digits_order(m: int, n: int)
    requires
        0 <= m <= 99,
        0 <= n <= 99,
    ensures
        two_digits(m).len() == 2,
        text_le(two_digits(m), two_digits(n)) == (m <= n),
        (two_digits(m) == two_digits(n)) == (m == n),
{
    reveal_with_fuel(text_le, 3);
    let a = two_digits(m);
    let b = two_digits(n);
    assert(a[0] as int == 48 + m / 10);
    assert(a[1] as int == 48 + m % 10);
    assert(b[0] as int == 48 + n / 10);
    assert(b[1] as int == 48 + n % 10);
    assert(a.drop_first()[0] == a[1]);
    assert(b.drop_first()[0] == b[1]);
    assert(a.drop_first().drop_first().len() == 0);
    if a == b {
        assert(a[0] == b[0] && a[1] == b[1]);
    }
}

/// Four digits order as their numbers do.
pub proof fn lemma_four_digits_order(m: int, n: int)
    requires
        0 <= m <= 9999,
        0 <= n <= 9999,
    ensures
        four_digits(m).len() == 4,
        text_le(four_digits(m), four_digits(n)) == (m <= n),
        (four_digits(m) == four_digits(n)) == (m == n),
{
    lemma_two_digits_order(m / 100, n / 100);
    lemma_two_digits_order(m % 100, n % 100);
    lemma_text_le_by_parts(
        two_digits(m / 100),
        two_digits(m % 100),
        two_digits(n / 100),
        two_digits(n % 100),
    );
    if four_digits(m) == four_digits(n) {
        assert(two_digits(m / 100) =~= four_digits(m).subrange(0, 2));
        assert(two_digits(n / 100) =~= four_digits(n).subrange(0, 2));
        assert(two_digits(m % 100) =~= four_digits(m).subrange(2, 4));
        assert(two_digits(n % 100) =~= four_digits(n).subrange(2, 4));
    }
}

/// Every name ends in the digits of the second, which come after the prefix
/// and its dot.
pub proof fn lemma_name_shape(prefix: Seq<char>, at: Civil)
    requires
        is_civil(at),
    ensures
        file_name(prefix, at).len() > prefix.len() + 1,
        prefix.is_prefix_of(file_name(prefix, at)),
        file_name(prefix, at).last() == digit(at.second % 10),
{
    let name = file_name(prefix, at);
    let tail = two_digits(at.second);
    assert(tail.len() == 2);
    assert(name =~= (prefix + seq!['.'] + date_text(at) + seq!['.'] + two_digits(at.hour)
        + two_digits(at.minute)) + tail);
    assert(name.last() == tail[1]);
    assert(prefix =~= name.subrange(0, prefix.len() as int));
}

/// A year of four digits.
pub open spec fn has_plain_year(at: Civil) -> bool {
    0 <= at.year <= 9999
}

/// With years of four digits every stamp has fifteen characters, and stamps
/// sort as their date-times do: an earlier moment gives an earlier text, and
/// only one moment gives the same text.
pub proof fn lemma_stamps_order_as_time(a: Civil, b: Civil)
    requires
        is_civil(a),
        is_civil(b),
        has_plain_year(a),
        has_plain_year(b),
    ensures
        stamp_text(a).len() == 15,
        text_le(stamp_text(a), stamp_text(b)) == !civil_before(b, a),
        (stamp_text(a) == stamp_text(b)) == (a == b),
{
    let dot = seq!['.'];
    lemma_four_digits_order(a.year, b.year);
    lemma_two_digits_order(a.month, b.month);
    lemma_two_digits_order(a.day, b.day);
    lemma_two_digits_order(a.hour, b.hour);
    lemma_two_digits_order(a.minute, b.minute);
    lemma_two_digits_order(a.second, b.second);
    let a5 = two_digits(a.minute) + two_digits(a.second);
    let b5 = two_digits(b.minute) + two_digits(b.second);
    let a4 = two_digits(a.hour) + a5;
    let b4 = two_digits(b.hour) + b5;
    let a3 = dot + a4;
    let b3 = dot + b4;
    let a2 = two_digits(a.day) + a3;
    let b2 = two_digits(b.day) + b3;
    let a1 = two_digits(a.month) + a2;
    let b1 = two_digits(b.month) + b2;
    let a0 = four_digits(a.year) + a1;
    let b0 = four_digits(b.year) + b1;
    assert(stamp_text(a) =~= a0);
    assert(stamp_text(b) =~= b0);
    lemma_text_le_by_parts(two_digits(a.minute), two_digits(a.second), two_digits(b.minute), two_digits(b.second));
    lemma_text_le_by_parts(two_digits(a.hour), a5, two_digits(b.hour), b5);
    lemma_text_le_by_parts(dot, a4, dot, b4);
    lemma_text_le_by_parts(two_digits(a.day), a3, two_digits(b.day), b3);
    lemma_text_le_by_parts(two_digits(a.month), a2, two_digits(b.month), b2);
    lemma_text_le_by_parts(four_digits(a.year), a1, four_digits(b.year), b1);
    if a0 == b0 {
        assert(four_digits(a.year) =~= a0.subrange(0, 4));
        assert(four_digits(b.year) =~= b0.subrange(0, 4));
        assert(two_digits(a.month) =~= a0.subrange(4, 6));
        assert(two_digits(b.month) =~= b0.subrange(4, 6));
        assert(two_digits(a.day) =~= a0.subrange(6, 8));
        assert(two_digits(b.day) =~= b0.subrange(6, 8));
        assert(two_digits(a.hour) =~= a0.subrange(9, 11));
        assert(two_digits(b.hour) =~= b0.subrange(9, 11));
        assert(two_digits(a.minute) =~= a0.subrange(11, 13));
        assert(two_digits(b.minute) =~= b0.subrange(11, 13));
        assert(two_digits(a.second) =~= a0.subrange(13, 15));
        assert(two_digits(b.second) =~= b0.subrange(13, 15));
    }
}

/// With years of four digits, the files of one prefix sort by name as they
/// do by the moment at which they were opened, and no two moments share a
/// name.
pub proof fn lemma_names_order_as_time(prefix: Seq<char>, a: Civil, b: Civil)
    requires
        is_civil(a),
        is_civil(b),
        has_plain_year(a),
        has_plain_year(b),
    ensures
        file_name(prefix, a).len() == prefix.len() + 16,
        text_le(file_name(prefix, a), file_name(prefix, b)) == !civil_before(b, a),
        (file_name(prefix, a) == file_name(prefix, b)) == (a == b),
{
    lemma_stamps_order_as_time(a, b);
    let head = prefix + seq!['.'];
    lemma_text_le_after_common_prefix(head, stamp_text(a), stamp_text(b));
    if file_name(prefix, a) == file_name(prefix, b) {
        assert(stamp_text(a) =~= file_name(prefix, a).subrange(
            head.len() as int,
            head.len() as int + 15,
        ));
        assert(stamp_text(b) =~= file_name(prefix, b).subrange(
            head.len() as int,
            head.len() as int + 15,
        ));
    }
}

} // verus!
