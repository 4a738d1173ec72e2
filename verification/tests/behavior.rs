use regex::{Regex, RegexBuilder};
use rutils::cat::format_lines;
use rutils::comm::comm_lines;
use rutils::find::{name_filter, type_filter, EntryType};
use rutils::head::{head_bytes, head_chars, head_lines};
use rutils::tree::tree_lines;
use rutils::fortune::{fortunes_from_text, parse_seed_num, pick_fortune, Fortune};
use rutils::grep::find_lines;
use rutils::tail::TakeValue::{PlusZero, TakeNum};
use rutils::tail::{run_files, SourceFile};
use rutils::uniq::{uniq_lines, write_output};

#[test]
fn test_find_lines() {
    let lines = vec![
        "Lorem\n".to_string(),
        "Ipsum\r\n".to_string(),
        "DOLOR".to_string(),
    ];

    // The pattern _or_ should match the one line, "Lorem"
    let re1 = Regex::new("or").unwrap();
    let matches = find_lines(&lines, &re1, false);
    assert_eq!(matches.len(), 1);

    // When inverted, the function should match the other two lines
    let matches = find_lines(&lines, &re1, true);
    assert_eq!(matches.len(), 2);

    // This regex will be case-insensitive
    let re2 = RegexBuilder::new("or")
        .case_insensitive(true)
        .build()
        .unwrap();

    // The two lines "Lorem" and "DOLOR" should match
    let matches = find_lines(&lines, &re2, false);
    assert_eq!(matches.len(), 2);

    // When inverted, the one remaining line should match
    let matches = find_lines(&lines, &re2, true);
    assert_eq!(matches.len(), 1);
}

#[test]
fn test_pick_fortune() {
    // Create a slice of fortunes
    let fortunes = vec![
        Fortune {
            source: "fortunes".to_string(),
            text: "You cannot achieve the impossible without attempting the absurd.".to_string(),
        },
        Fortune {
            source: "fortunes".to_string(),
            text: "Assumption is the mother of all screw-ups.".to_string(),
        },
        Fortune {
            source: "fortunes".to_string(),
            text: "Neckties strangle clear thinking.".to_string(),
        },
    ];

    // Pick a fortune with a seed
    assert_eq!(
        pick_fortune(&fortunes, Some(1)).unwrap(),
        "Neckties strangle clear thinking.".to_string()
    );
}

#[test]
fn test_fortunes_from_text() {
    let source = "jokes".to_string();
    let text = "First one.\n%\nSecond one,\ntwo lines.\n%\n  \n%\n";
    let fortunes = fortunes_from_text(&source, text);
    assert_eq!(fortunes.len(), 2);
    assert_eq!(fortunes[0].source, "jokes");
    assert_eq!(fortunes[0].text, "First one.");
    assert_eq!(fortunes[1].text, "Second one,\ntwo lines.");

    // no pick from an empty list
    assert_eq!(pick_fortune(&Vec::new(), Some(3)), None);

    // an out-of-range seed text is rejected
    assert!(parse_seed_num("18446744073709551616").is_err());
}

#[test]
fn test_uniq_lines() {
    let lines = vec!["a\n".to_string(), "a\n".to_string(), "b\n".to_string()];
    assert_eq!(uniq_lines(&lines, false), "a\nb\n");
    assert_eq!(uniq_lines(&lines, true), "   2 a\n   1 b\n");

    // trailing whitespace does not split a run
    let lines = vec!["x  \n".to_string(), "x\n".to_string()];
    assert_eq!(uniq_lines(&lines, true), "   2 x  \n");

    // empty input emits nothing
    assert_eq!(uniq_lines(&Vec::new(), true), "");
}

#[test]
fn test_write_output() {
    let mut buffer = String::new();
    write_output(&mut buffer, "hello\n", 3, true);
    assert_eq!(buffer, "   3 hello\n");

    let mut buffer = String::new();
    write_output(&mut buffer, "hello\n", 3, false);
    assert_eq!(buffer, "hello\n");

    // a zero count emits nothing
    let mut buffer = String::new();
    write_output(&mut buffer, "hello\n", 0, true);
    assert_eq!(buffer, "");
}

#[test]
fn test_format_lines() {
    let lines = vec!["hello".to_string(), "".to_string(), "world".to_string()];
    assert_eq!(format_lines(&lines, false, false), "hello\n\nworld\n");
    assert_eq!(
        format_lines(&lines, true, false),
        "     1\thello\n     2\t\n     3\tworld\n"
    );
    assert_eq!(
        format_lines(&lines, false, true),
        "     1\thello\n\n     2\tworld\n"
    );
}

#[test]
fn test_multi_file_framing() {
    let files = vec![
        SourceFile {
            name: "a.txt".to_string(),
            content: Ok(b"one\ntwo\nthree\n".to_vec()),
        },
        SourceFile {
            name: "b.txt".to_string(),
            content: Ok(b"four\nfive\n".to_vec()),
        },
    ];
    let (out, errs) = run_files(&files, &TakeNum(-10), &None, false);
    assert_eq!(
        out,
        b"==> a.txt <==\none\ntwo\nthree\n\n==> b.txt <==\nfour\nfive\n".to_vec()
    );
    assert!(errs.is_empty());

    // headers are suppressed on request
    let (out, errs) = run_files(&files, &TakeNum(-10), &None, true);
    assert_eq!(out, b"one\ntwo\nthree\nfour\nfive\n".to_vec());
    assert!(errs.is_empty());

    // a single file gets no header
    let single = vec![SourceFile {
        name: "a.txt".to_string(),
        content: Ok(b"one\ntwo\nthree\n".to_vec()),
    }];
    let (out, errs) = run_files(&single, &TakeNum(-2), &None, false);
    assert_eq!(out, b"two\nthree\n".to_vec());
    assert!(errs.is_empty());
}

#[test]
fn test_error_isolation() {
    let files = vec![
        SourceFile {
            name: "missing.txt".to_string(),
            content: Err("No such file or directory (os error 2)".to_string()),
        },
        SourceFile {
            name: "real.txt".to_string(),
            content: Ok(b"alpha\nbeta\n".to_vec()),
        },
    ];
    let (out, errs) = run_files(&files, &TakeNum(-10), &None, false);
    // only the readable file's content appears, under its header
    assert_eq!(out, b"==> real.txt <==\nalpha\nbeta\n".to_vec());
    // the failure is reported for its own file alone
    assert_eq!(errs.len(), 1);
    assert_eq!(errs[0], "missing.txt: No such file or directory (os error 2)");
}

#[test]
fn test_comm_lines() {
    let a = vec!["apple".to_string(), "banana".to_string(), "cherry".to_string()];
    let b = vec!["banana".to_string(), "date".to_string()];
    // all three columns, tab-delimited
    assert_eq!(
        comm_lines(&a, &b, true, true, true, false, "\t"),
        "apple\n\t\tbanana\ncherry\n\tdate\n"
    );
    // suppress the first two columns: only the common lines remain
    assert_eq!(comm_lines(&a, &b, false, false, true, false, "\t"), "banana\n");
    // case-insensitive comparison lowercases what it shows
    let a = vec!["APPLE".to_string()];
    let b = vec!["apple".to_string()];
    assert_eq!(comm_lines(&a, &b, true, true, true, true, "\t"), "\t\tapple\n");
}

#[test]
fn test_tree_lines() {
    let entries = vec![
        (0usize, "root".to_string()),
        (1usize, "child".to_string()),
        (2usize, "grand".to_string()),
    ];
    assert_eq!(
        tree_lines(&entries),
        vec!["root", "├── child", "│   ├── grand"]
    );
}

#[test]
fn test_find_filters() {
    // no requested type keeps everything
    assert!(type_filter(&Vec::new(), false, false, false));
    // a file is kept when files were asked for, not when only links were
    assert!(type_filter(&vec![EntryType::File], false, true, false));
    assert!(!type_filter(&vec![EntryType::Link], false, true, false));
    assert!(type_filter(&vec![EntryType::Link, EntryType::Dir], false, false, true));
    // no name patterns keeps everything; otherwise any match does
    assert!(name_filter(&Vec::new()));
    assert!(name_filter(&vec![false, true]));
    assert!(!name_filter(&vec![false, false]));
}

#[test]
fn test_head_takes() {
    let data = b"one\ntwo\nthree\n".to_vec();
    assert_eq!(head_lines(&data, 2), b"one\ntwo\n".to_vec());
    assert_eq!(head_lines(&data, 10), data);
    assert_eq!(head_bytes(&data, 5), b"one\nt".to_vec());
    assert_eq!(head_bytes(&data, 100), data);
    assert_eq!(head_chars("héllo", 3), "hél");
    assert_eq!(head_chars("héllo", 99), "héllo");
}

#[test]
fn test_is_hidden_name() {
    assert!(rutils::ls::is_hidden_name(".hidden"));
    assert!(!rutils::ls::is_hidden_name("plain.txt"));
    assert!(!rutils::ls::is_hidden_name(""));
}

#[test]
fn test_byte_mode_run() {
    let files = vec![SourceFile {
        name: "a.txt".to_string(),
        content: Ok(b"abcdef".to_vec()),
    }];
    let (out, errs) = run_files(&files, &TakeNum(-10), &Some(TakeNum(-3)), false);
    assert_eq!(out, b"def".to_vec());
    assert!(errs.is_empty());
}

#[test]
fn test_plus_zero_run() {
    // +0 emits the whole file...
    let files = vec![SourceFile {
        name: "a.txt".to_string(),
        content: Ok(b"one\ntwo\n".to_vec()),
    }];
    let (out, _) = run_files(&files, &PlusZero, &None, false);
    assert_eq!(out, b"one\ntwo\n".to_vec());

    // ...but nothing for an empty one, and an explicit zero take
    // emits nothing either way
    let empty = vec![SourceFile {
        name: "e.txt".to_string(),
        content: Ok(Vec::new()),
    }];
    let (out, _) = run_files(&empty, &PlusZero, &None, false);
    assert_eq!(out, Vec::<u8>::new());
    let (out, _) = run_files(&files, &TakeNum(0), &None, false);
    assert_eq!(out, Vec::<u8>::new());
}
