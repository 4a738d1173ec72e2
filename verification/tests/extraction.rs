use rutils::cut::{extract_bytes, extract_chars};
use rutils::tail::TakeValue::{PlusZero, TakeNum};
use rutils::tail::{count_lines_bytes, get_start_index, tail_bytes, tail_lines};

#[test]
fn test_extract_chars() {
    assert_eq!(extract_chars("", &[0..1]), "".to_string());
    assert_eq!(extract_chars("ábc", &[0..1]), "á".to_string());
    assert_eq!(extract_chars("ábc", &[0..1, 2..3]), "ác".to_string());
    assert_eq!(extract_chars("ábc", &[0..3]), "ábc".to_string());
    assert_eq!(extract_chars("ábc", &[2..3, 1..2]), "cb".to_string());
    assert_eq!(extract_chars("ábc", &[0..1, 1..2, 4..5]), "áb".to_string());
}

#[test]
fn test_extract_bytes() {
    assert_eq!(extract_bytes("ábc", &[0..1]), "�".to_string());
    assert_eq!(extract_bytes("ábc", &[0..2]), "á".to_string());
    assert_eq!(extract_bytes("ábc", &[0..3]), "áb".to_string());
    assert_eq!(extract_bytes("ábc", &[0..4]), "ábc".to_string());
    assert_eq!(extract_bytes("ábc", &[3..4, 2..3]), "cb".to_string());
}

#[test]
fn test_get_start_index() {
    // +0 from an empty file (0 lines/bytes) returns None
    assert_eq!(get_start_index(&PlusZero, 0), None);

    // +0 from a nonempty file returns an index that
    // is one less than the number of lines/bytes
    assert_eq!(get_start_index(&PlusZero, 1), Some(0));

    // Taking 0 lines/bytes returns None
    assert_eq!(get_start_index(&TakeNum(0), 1), None);

    // Taking any lines/bytes from an empty file returns None
    assert_eq!(get_start_index(&TakeNum(1), 0), None);

    // Taking more lines/bytes than is available returns None
    assert_eq!(get_start_index(&TakeNum(2), 1), None);

    // When starting line/byte is less than total lines/bytes,
    // return one less than starting number
    assert_eq!(get_start_index(&TakeNum(1), 10), Some(0));
    assert_eq!(get_start_index(&TakeNum(2), 10), Some(1));
    assert_eq!(get_start_index(&TakeNum(3), 10), Some(2));

    // When staring line/byte is negative and less than total,
    // return total - start
    assert_eq!(get_start_index(&TakeNum(-1), 10), Some(9));
    assert_eq!(get_start_index(&TakeNum(-2), 10), Some(8));
    assert_eq!(get_start_index(&TakeNum(-3), 10), Some(7));

    // When starting line/byte is negative and more than total,
    // return 0 to print the whole file
    assert_eq!(get_start_index(&TakeNum(-20), 10), Some(0));
}

#[test]
fn test_count_lines_bytes_text() {
    let one = b"So, somewhere a pony...\n".to_vec();
    assert_eq!(count_lines_bytes(&one), (1, 24));

    let ten = b"one\ntwo\nthree\nfour\nfive\nsix\nseven\neight\nnine\nten\n".to_vec();
    assert_eq!(count_lines_bytes(&ten), (10, 49));

    // a final unterminated piece counts as a record
    let partial = b"a\nb".to_vec();
    assert_eq!(count_lines_bytes(&partial), (2, 3));

    assert_eq!(count_lines_bytes(&Vec::new()), (0, 0));
}

#[test]
fn test_tail_lines_keeps_last_records() {
    let data = b"alpha\nbeta\ngamma\n".to_vec();
    let (total_lines, _) = count_lines_bytes(&data);
    assert_eq!(total_lines, 3);

    // the last two records, verbatim and in order
    let start = get_start_index(&TakeNum(-2), total_lines).unwrap();
    assert_eq!(tail_lines(&data, start), b"beta\ngamma\n".to_vec());

    // from record number two (one-based) to the end
    let start = get_start_index(&TakeNum(2), total_lines).unwrap();
    assert_eq!(tail_lines(&data, start), b"beta\ngamma\n".to_vec());

    // asking for more than exists clamps to the whole file
    let start = get_start_index(&TakeNum(-20), total_lines).unwrap();
    assert_eq!(tail_lines(&data, start), data);

    // an explicit zero take resolves to nothing
    assert_eq!(get_start_index(&TakeNum(0), total_lines), None);
}

#[test]
fn test_tail_bytes_keeps_last_bytes() {
    let data = b"abcdef".to_vec();
    let (_, total_bytes) = count_lines_bytes(&data);
    assert_eq!(total_bytes, 6);

    let start = get_start_index(&TakeNum(-4), total_bytes).unwrap();
    assert_eq!(tail_bytes(&data, start), b"cdef".to_vec());

    let start = get_start_index(&TakeNum(3), total_bytes).unwrap();
    assert_eq!(tail_bytes(&data, start), b"cdef".to_vec());

    // a start beyond the end emits nothing
    assert_eq!(tail_bytes(&data, 100), Vec::<u8>::new());
}

#[test]
fn test_extraction_idempotent() {
    let data = b"one\ntwo\nthree\nfour\n".to_vec();
    let (total_lines, total_bytes) = count_lines_bytes(&data);

    let start = get_start_index(&TakeNum(-2), total_lines).unwrap();
    let first = tail_lines(&data, start);
    let second = tail_lines(&data, start);
    assert_eq!(first, second);

    let start = get_start_index(&TakeNum(-5), total_bytes).unwrap();
    let first = tail_bytes(&data, start);
    let second = tail_bytes(&data, start);
    assert_eq!(first, second);
}
