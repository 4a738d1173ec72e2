use rutils::cal::{parse_int, parse_month, parse_year};
use rutils::fortune::parse_seed_num;
use rutils::head::parse_positive_int;
use rutils::tail::TakeValue::{PlusZero, TakeNum};
use rutils::cut::parse_pos;
use rutils::tail::{parse_input_num, parse_num, parse_num_normal};

#[test]
fn test_parse_int() {
    // Parse positive int as usize
    let res = parse_int::<usize>("1");
    assert!(res.is_ok());
    assert_eq!(res.unwrap(), 1_usize);

    // Parse negative int as i32
    let res = parse_int::<i32>("-1");
    assert!(res.is_ok());
    assert_eq!(res.unwrap(), -1_i32);

    // Fail on a string
    let res = parse_int::<i64>("foo");
    assert!(res.is_err());
    assert_eq!(res.unwrap_err().to_string(), "Invalid integer \"foo\"");
}

#[test]
fn test_parse_year() {
    let res = parse_year("1");
    assert!(res.is_ok());
    assert_eq!(res.unwrap(), 1_i32);

    let res = parse_year("9999");
    assert!(res.is_ok());
    assert_eq!(res.unwrap(), 9999_i32);

    let res = parse_year("0");
    assert!(res.is_err());
    assert_eq!(
        res.unwrap_err().to_string(),
        "year \"0\" not in the range 1 through 9999"
    );

    let res = parse_year("10000");
    assert!(res.is_err());
    assert_eq!(
        res.unwrap_err().to_string(),
        "year \"10000\" not in the range 1 through 9999"
    );

    let res = parse_year("foo");
    assert!(res.is_err());
}

#[test]
fn test_parse_month() {
    let res = parse_month("1");
    assert!(res.is_ok());
    assert_eq!(res.unwrap(), 1_u32);

    let res = parse_month("12");
    assert!(res.is_ok());
    assert_eq!(res.unwrap(), 12_u32);

    let res = parse_month("jan");
    assert!(res.is_ok());
    assert_eq!(res.unwrap(), 1_u32);

    let res = parse_month("0");
    assert!(res.is_err());
    assert_eq!(
        res.unwrap_err().to_string(),
        "month \"0\" not in the range 1 through 12"
    );

    let res = parse_month("13");
    assert!(res.is_err());
    assert_eq!(
        res.unwrap_err().to_string(),
        "month \"13\" not in the range 1 through 12"
    );

    let res = parse_month("foo");
    assert!(res.is_err());
    assert_eq!(res.unwrap_err().to_string(), "Invalid month \"foo\"");
}

#[test]
fn test_parse_month_ignores_case() {
    // the lowercase mapping must really lower the input for the
    // prefix match against the month names to succeed
    assert_eq!(parse_month("JAN").unwrap(), 1_u32);
    assert_eq!(parse_month("SEPT").unwrap(), 9_u32);
    // "ju" is ambiguous between June and July
    assert!(parse_month("ju").is_err());
}

#[test]
fn test_parse_positive_int() {
    let res = parse_positive_int("3");

    // valid positive number is accepted
    assert!(res.is_ok());
    assert_eq!(res.unwrap(), 3);

    let res = parse_positive_int("foo");

    // non-number is rejected
    assert!(res.is_err());
    assert_eq!(res.unwrap_err().to_string(), "foo".to_string());

    let res = parse_positive_int("0");

    // zero is rejected
    assert!(res.is_err());
    assert_eq!(res.unwrap_err().to_string(), "0".to_string());
}

#[test]
fn test_parse_positive_int_k_suffix() {
    // a K multiplies by 1024
    assert_eq!(parse_positive_int("2K").unwrap(), 2048);
    assert_eq!(parse_positive_int("1K").unwrap(), 1024);
    // zero stays rejected with the suffix
    assert!(parse_positive_int("0K").is_err());
    // a product beyond the machine word is rejected
    assert!(parse_positive_int("18446744073709551615K").is_err());
}

#[test]
fn test_parse_seed_num() {
    let res = parse_seed_num("a");
    assert!(res.is_err());
    assert_eq!(res.unwrap_err().to_string(), "\"a\" not a valid integer");

    let res = parse_seed_num("0");
    assert!(res.is_ok());
    assert_eq!(res.unwrap(), 0);

    let res = parse_seed_num("4");
    assert!(res.is_ok());
    assert_eq!(res.unwrap(), 4);
}

#[test]
fn test_parse_input_num() {
    // All integers should be interpreted as negative numbers
    let res = parse_input_num("3");
    assert!(res.is_ok());
    assert_eq!(res.unwrap(), TakeNum(-3));

    // A leading "+" should result in a positive number
    let res = parse_input_num("+3");
    assert!(res.is_ok());
    assert_eq!(res.unwrap(), TakeNum(3));

    // An explicit "-" should result in a negative number
    let res = parse_input_num("-3");
    assert!(res.is_ok());
    assert_eq!(res.unwrap(), TakeNum(-3));

    // Zero is zero
    let res = parse_input_num("0");
    assert!(res.is_ok());
    assert_eq!(res.unwrap(), TakeNum(0));

    // Plus zero is special
    let res = parse_input_num("+0");
    assert!(res.is_ok());
    assert_eq!(res.unwrap(), PlusZero);

    // Test boundries
    let res = parse_input_num(&(i64::MAX).to_string());
    assert!(res.is_ok());
    assert_eq!(res.unwrap(), TakeNum(i64::MIN + 1));

    let res = parse_input_num(&(i64::MIN + 1).to_string());
    assert!(res.is_ok());
    assert_eq!(res.unwrap(), TakeNum(i64::MIN + 1));

    let res = parse_input_num(&format!("+{}", i64::MAX));
    assert!(res.is_ok());
    assert_eq!(res.unwrap(), TakeNum(i64::MAX));

    let res = parse_input_num(&i64::MIN.to_string());
    assert!(res.is_ok());
    assert_eq!(res.unwrap(), TakeNum(i64::MIN));

    // A floating-point value is invalid
    let res = parse_input_num("3.14");
    assert!(res.is_err());
    assert_eq!(res.unwrap_err().to_string(), "3.14");

    // A non-integer string is invalid
    let res = parse_input_num("foo");
    assert!(res.is_err());
    assert_eq!(res.unwrap_err().to_string(), "foo");
}

#[test]
fn test_parse_num() {
    // All integers should be interpreted as negative numbers
    let res = parse_num("3");
    assert!(res.is_ok());
    assert_eq!(res.unwrap(), TakeNum(-3));

    // A leading "+" should result in a positive number
    let res = parse_num("+3");
    assert!(res.is_ok());
    assert_eq!(res.unwrap(), TakeNum(3));

    // An explicit "-" should result in a negative number
    let res = parse_num("-3");
    assert!(res.is_ok());
    assert_eq!(res.unwrap(), TakeNum(-3));

    // Zero is zero
    let res = parse_num("0");
    assert!(res.is_ok());
    assert_eq!(res.unwrap(), TakeNum(0));

    // Plus zero is special
    let res = parse_num("+0");
    assert!(res.is_ok());
    assert_eq!(res.unwrap(), PlusZero);

    // Test boundries
    let res = parse_num(&(i64::MAX).to_string());
    assert!(res.is_ok());
    assert_eq!(res.unwrap(), TakeNum(i64::MIN + 1));

    let res = parse_num(&(i64::MIN + 1).to_string());
    assert!(res.is_ok());
    assert_eq!(res.unwrap(), TakeNum(i64::MIN + 1));

    let res = parse_num(&format!("+{}", i64::MAX));
    assert!(res.is_ok());
    assert_eq!(res.unwrap(), TakeNum(i64::MAX));

    let res = parse_num(&i64::MIN.to_string());
    assert!(res.is_ok());
    assert_eq!(res.unwrap(), TakeNum(i64::MIN));

    // A floating-point value is invalid
    let res = parse_num("3.14");
    assert!(res.is_err());
    assert_eq!(res.unwrap_err().to_string(), "3.14");

    // A non-integer string is invalid
    let res = parse_num("foo");
    assert!(res.is_err());
    assert_eq!(res.unwrap_err().to_string(), "foo");
}

#[test]
fn test_parse_num_normal_agrees() {
    assert_eq!(parse_num_normal("3").unwrap(), TakeNum(-3));
    assert_eq!(parse_num_normal("+3").unwrap(), TakeNum(3));
    assert_eq!(parse_num_normal("+0").unwrap(), PlusZero);
    assert_eq!(parse_num_normal("0").unwrap(), TakeNum(0));
    assert!(parse_num_normal("foo").is_err());
}

#[test]
fn test_parse_pos() {
    // The empty string is an error
    assert!(parse_pos("").is_err());

    // Zero is an error
    let res = parse_pos("0");
    assert!(res.is_err());
    assert_eq!(res.unwrap_err().to_string(), "illegal list value: \"0\"");

    let res = parse_pos("0-1");
    assert!(res.is_err());
    assert_eq!(res.unwrap_err().to_string(), "illegal list value: \"0\"");

    // A leading "+" is an error
    let res = parse_pos("+1");
    assert!(res.is_err());
    assert_eq!(res.unwrap_err().to_string(), "illegal list value: \"+1\"");

    let res = parse_pos("+1-2");
    assert!(res.is_err());
    assert_eq!(res.unwrap_err().to_string(), "illegal list value: \"+1-2\"");

    // Any non-number is an error
    let res = parse_pos("a");
    assert!(res.is_err());
    assert_eq!(res.unwrap_err().to_string(), "illegal list value: \"a\"");

    let res = parse_pos("1,a");
    assert!(res.is_err());
    assert_eq!(res.unwrap_err().to_string(), "illegal list value: \"a\"");

    let res = parse_pos("1-a");
    assert!(res.is_err());
    assert_eq!(res.unwrap_err().to_string(), "illegal list value: \"1-a\"");

    let res = parse_pos("a-1");
    assert!(res.is_err());
    assert_eq!(res.unwrap_err().to_string(), "illegal list value: \"a-1\"");

    // Wonky ranges
    let res = parse_pos("-");
    assert!(res.is_err());

    let res = parse_pos(",");
    assert!(res.is_err());

    let res = parse_pos("1,");
    assert!(res.is_err());

    let res = parse_pos("1-");
    assert!(res.is_err());

    let res = parse_pos("1-1-1");
    assert!(res.is_err());

    let res = parse_pos("1-1-a");
    assert!(res.is_err());

    // First number must be less than second
    let res = parse_pos("1-1");
    assert!(res.is_err());
    assert_eq!(
        res.unwrap_err().to_string(),
        "First number in range (1) must be lower than second number (1)"
    );

    let res = parse_pos("2-1");
    assert!(res.is_err());
    assert_eq!(
        res.unwrap_err().to_string(),
        "First number in range (2) must be lower than second number (1)"
    );

    // All the following are acceptable
    let res = parse_pos("1");
    assert!(res.is_ok());
    assert_eq!(res.unwrap(), vec![0..1]);

    let res = parse_pos("01");
    assert!(res.is_ok());
    assert_eq!(res.unwrap(), vec![0..1]);

    let res = parse_pos("1,3");
    assert!(res.is_ok());
    assert_eq!(res.unwrap(), vec![0..1, 2..3]);

    let res = parse_pos("001,0003");
    assert!(res.is_ok());
    assert_eq!(res.unwrap(), vec![0..1, 2..3]);

    let res = parse_pos("1-3");
    assert!(res.is_ok());
    assert_eq!(res.unwrap(), vec![0..3]);

    let res = parse_pos("0001-03");
    assert!(res.is_ok());
    assert_eq!(res.unwrap(), vec![0..3]);

    let res = parse_pos("1,7,3-5");
    assert!(res.is_ok());
    assert_eq!(res.unwrap(), vec![0..1, 6..7, 2..5]);

    let res = parse_pos("15,19-20");
    assert!(res.is_ok());
    assert_eq!(res.unwrap(), vec![14..15, 18..20]);
}
