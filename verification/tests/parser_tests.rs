use l1vm::ast::{expr_to_string, exprs_to_string, Interner};
use l1vm::parser::{parse_expr, parse_exprs, parse_exprs_recover, ParseErr};

#[test]
fn calculator1() {
    assert!(parse_term_ok("22"));
    assert!(parse_term_ok("(22)"));
    assert!(parse_term_ok("((((22))))"));
    assert!(!parse_term_ok("((22)"));
}

fn parse_term_ok(s: &str) -> bool {
    l1vm::parser::parse_term(s).is_ok()
}

#[test]
fn calculator2() {
    assert!(parse_term_ok("(22)"));
    assert!(parse_term_ok("(22)"));
    assert!(parse_term_ok("((((22))))"));
    assert!(!parse_term_ok("((22)"));
}

#[test]
fn calculator4() {
    let expr = parse_expr("22 * 44 + 66").unwrap();
    assert_eq!(&expr_to_string(&expr), "((22 * 44) + 66)");
}

#[test]
fn calculator5() {
    let expr = parse_exprs("").unwrap();
    assert_eq!(&exprs_to_string(&expr), "[]");

    let expr = parse_exprs("22 * 44 + 66").unwrap();
    assert_eq!(&exprs_to_string(&expr), "[((22 * 44) + 66)]");

    let expr = parse_exprs("22 * 44 + 66,").unwrap();
    assert_eq!(&exprs_to_string(&expr), "[((22 * 44) + 66)]");

    let expr = parse_exprs("22 * 44 + 66, 13*3").unwrap();
    assert_eq!(&exprs_to_string(&expr), "[((22 * 44) + 66), (13 * 3)]");

    let expr = parse_exprs("22 * 44 + 66, 13*3,").unwrap();
    assert_eq!(&exprs_to_string(&expr), "[((22 * 44) + 66), (13 * 3)]");
}

#[test]
fn calculator6() {
    let mut errors: Vec<ParseErr> = Vec::new();

    let expr = parse_exprs_recover(&mut errors, "22 * + 3").unwrap();
    assert_eq!(&exprs_to_string(&expr), "[((22 * error) + 3)]");

    let expr = parse_exprs_recover(&mut errors, "22 * 44 + 66, *3").unwrap();
    assert_eq!(&exprs_to_string(&expr), "[((22 * 44) + 66), (error * 3)]");

    let expr = parse_exprs_recover(&mut errors, "*").unwrap();
    assert_eq!(&exprs_to_string(&expr), "[(error * error)]");

    assert_eq!(errors.len(), 4);
}

#[test]
fn lang1() {
    let mut errors: Vec<ParseErr> = Vec::new();

    let expr = parse_exprs_recover(&mut errors, "22 * + 3").unwrap();
    assert_eq!(&exprs_to_string(&expr), "[((22 * error) + 3)]");

    let expr = parse_exprs_recover(&mut errors, "22 * 44 + 66, *3").unwrap();
    assert_eq!(&exprs_to_string(&expr), "[((22 * 44) + 66), (error * 3)]");

    let expr = parse_exprs_recover(&mut errors, "*").unwrap();
    assert_eq!(&exprs_to_string(&expr), "[(error * error)]");

    assert_eq!(errors.len(), 4);
}

#[test]
fn lib_lang1_errors() {
    let mut errors: Vec<ParseErr> = Vec::new();

    let expr = parse_exprs_recover(&mut errors, "22 * + 3").unwrap();
    assert_eq!(&format!("{}", exprs_to_string(&expr)), "[((22 * error) + 3)]");

    let expr = parse_exprs_recover(&mut errors, "22 * 44 + 66, *3").unwrap();
    assert_eq!(&format!("{}", exprs_to_string(&expr)), "[((22 * 44) + 66), (error * 3)]");

    let expr = parse_exprs_recover(&mut errors, "*").unwrap();
    assert_eq!(&format!("{}", exprs_to_string(&expr)), "[(error * error)]");

    assert_eq!(errors.len(), 4);
}

#[test]
fn main_lang1_errors() {
    let mut errors: Vec<ParseErr> = Vec::new();

    let expr = parse_exprs_recover(&mut errors, "22 * + 3").unwrap();
    assert_eq!(&exprs_to_string(&expr), "[((22 * error) + 3)]");

    let expr = parse_exprs_recover(&mut errors, "22 * 44 + 66, *3").unwrap();
    assert_eq!(&exprs_to_string(&expr), "[((22 * 44) + 66), (error * 3)]");

    let expr = parse_exprs_recover(&mut errors, "*").unwrap();
    assert_eq!(&exprs_to_string(&expr), "[(error * error)]");

    assert_eq!(errors.len(), 4);
}

#[test]
fn test_handy() {
    let mut map = Interner::new();
    let x = "hello hello blub";
    let h1 = map.get_dedup(x[0..5].to_string());
    let h2 = map.get_dedup(x[6..11].to_string());
    let h3 = map.get_dedup(x[12..16].to_string());
    assert_eq!(h1, h2);
    assert!(h1 != h3);
    assert_eq!(map.get(h1).unwrap(), "hello");
    assert_eq!(map.get(h3).unwrap(), "blub");
}

#[test]
fn binary_number_literals() {
    let expr = parse_expr("123 * 0b101").unwrap();
    assert_eq!(&expr_to_string(&expr), "(123 * 5)");
}
