use rutils::cal::{format_month, last_day_in_month, Date};
use rutils::ls::{format_mode, formate_mode_og, mk_triple, Owner};
use rutils::wc::{count, format_field, FileInfo};

#[test]
fn test_count() {
    let text = "I don't want the world. I just want your half.\r\n";
    let info = count(text);

    let expected = FileInfo {
        num_lines: 1,
        num_words: 10,
        num_chars: 48,
        num_bytes: 48,
    };
    assert_eq!(info, expected);
}

#[test]
fn test_format_field() {
    assert_eq!(format_field(1, false), "");
    assert_eq!(format_field(3, true), "       3");
    assert_eq!(format_field(10, true), "      10");
}

#[test]
fn test_format_mode() {
    assert_eq!(format_mode(0o755), "rwxr-xr-x");
    assert_eq!(format_mode(0o421), "r---w---x");
}

#[test]
fn test_formate_mode_og() {
    assert_eq!(formate_mode_og(0o755), "rwxr-xr-x");
    assert_eq!(formate_mode_og(0o421), "r---w---x");
}

#[test]
fn test_mk_triple() {
    assert_eq!(mk_triple(0o751, Owner::User), "rwx");
    assert_eq!(mk_triple(0o751, Owner::Group), "r-x");
    assert_eq!(mk_triple(0o751, Owner::Other), "--x");
    assert_eq!(mk_triple(0o600, Owner::User), "rw-");
    assert_eq!(mk_triple(0o600, Owner::Group), "---");
    assert_eq!(mk_triple(0o600, Owner::Other), "---");
}

#[test]
fn test_format_month() {
    let today = Date {
        year: 0,
        month: 1,
        day: 1,
    };
    let leap_february = vec![
        "   February 2020      ",
        "Su Mo Tu We Th Fr Sa  ",
        "                   1  ",
        " 2  3  4  5  6  7  8  ",
        " 9 10 11 12 13 14 15  ",
        "16 17 18 19 20 21 22  ",
        "23 24 25 26 27 28 29  ",
        "                      ",
    ];
    assert_eq!(format_month(2020, 2, true, today), leap_february);

    let may = vec![
        "        May           ",
        "Su Mo Tu We Th Fr Sa  ",
        "                1  2  ",
        " 3  4  5  6  7  8  9  ",
        "10 11 12 13 14 15 16  ",
        "17 18 19 20 21 22 23  ",
        "24 25 26 27 28 29 30  ",
        "31                    ",
    ];
    assert_eq!(format_month(2020, 5, false, today), may);

    let april_hl = vec![
        "     April 2021       ",
        "Su Mo Tu We Th Fr Sa  ",
        "             1  2  3  ",
        " 4  5  6 \u{1b}[7m 7\u{1b}[0m  8  9 10  ",
        "11 12 13 14 15 16 17  ",
        "18 19 20 21 22 23 24  ",
        "25 26 27 28 29 30     ",
        "                      ",
    ];
    let today = Date {
        year: 2021,
        month: 4,
        day: 7,
    };
    assert_eq!(format_month(2021, 4, true, today), april_hl);
}

#[test]
fn test_last_day_in_month() {
    assert_eq!(
        last_day_in_month(2020, 1),
        Some(Date {
            year: 2020,
            month: 1,
            day: 31
        })
    );
    assert_eq!(
        last_day_in_month(2020, 2),
        Some(Date {
            year: 2020,
            month: 2,
            day: 29
        })
    );
    assert_eq!(
        last_day_in_month(2020, 4),
        Some(Date {
            year: 2020,
            month: 4,
            day: 30
        })
    );
    assert_eq!(
        last_day_in_month(2019, 2),
        Some(Date {
            year: 2019,
            month: 2,
            day: 28
        })
    );
}
