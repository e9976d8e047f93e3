use guitar_note::from_tab_notation;
use guitar_note::parse_tuning;
use guitar_note::scale_on_fretboard;
use guitar_note::split_string_fret;
use guitar_note::tuning::Tuning;

#[test]
fn test_split_string_fret() {
    let test = "a#33";
    if let Some((n, f)) = split_string_fret(test) {
        assert_eq!(n, "a#");
        assert_eq!(f, 33);
    } else {
        panic!("This should be some");
    }
    let test = "c0";
    if let Some((n, f)) = split_string_fret(test) {
        assert_eq!(n, "c");
        assert_eq!(f, 0);
    } else {
        panic!("This should be some");
    }
    let test = "h3";
    let res = split_string_fret(test);
    assert_eq!(res, None);
}

#[test]
fn test_modulo() {
    // How modulo works in rust
    let d = 5;
    let p = -12;
    let r1 = p % d;
    let r2 = d % p;
    println!("{} {}", r1, r2);
    assert_eq!(r1, -2);
    assert_eq!(r2, 5);
}

#[test]
fn test_scale_print() {
    let scale_name = "major_blues";
    let root = "a";
    let tuning = Tuning::from_name("eadgbe").unwrap();
    let opt_result = scale_on_fretboard(scale_name, root, &tuning, false);
    if let Some(result) = opt_result {
        println!("{}", result.2);
        println!("{}", result.1);
        println!("{}", result.0);
    } else {
        panic!("Something went wrong");
    }
    let opt_result = scale_on_fretboard(scale_name, root, &tuning, true);
    if let Some(result) = opt_result {
        println!("{}", result.2);
        println!("{}", result.1);
        println!("{}", result.0);
    } else {
        panic!("Something went wrong");
    }
}

#[test]
fn test_split_no_digits() {
    assert_eq!(split_string_fret("a#"), None);
    assert_eq!(split_string_fret(""), None);
    // a fret too large for a machine integer is rejected
    assert_eq!(split_string_fret("c99999999999"), None);
}

#[test]
fn test_from_tab_notation_names() {
    let tuning = parse_tuning("eadgbe").unwrap();
    let tokens = vec![String::from("a3"), String::from("d2")];
    let result = from_tab_notation(&tokens, &tuning);
    assert_eq!(result, Some(String::from("C E")));
    let none_tokens = vec![String::from("x9"), String::from("zz")];
    assert_eq!(from_tab_notation(&none_tokens, &tuning), None);
}

#[test]
fn test_unknown_tuning() {
    assert!(parse_tuning("eadgbe").is_some());
    assert!(parse_tuning("qqq").is_none());
}
