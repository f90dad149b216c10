use lessons::calc::{calc_checked, tokenize, Token};

#[test]
fn precedence_and_parens() {
    assert_eq!(lessons::calc::calc("2 + 3 * 4"), Ok(14));
    assert_eq!(lessons::calc::calc("(2 + 3) * 4"), Ok(20));
    assert_eq!(lessons::calc::calc("100 / (2 + 3) - 7 * (1 + 1)"), Ok(6));
}

#[test]
fn errors() {
    assert!(lessons::calc::calc("2 + (3 * 4").is_err());
    assert!(lessons::calc::calc("2 + 3) * 4").is_err());
    assert!(lessons::calc::calc("10 / 0").is_err());
    assert!(lessons::calc::calc("1 + 99999999999999999999").is_err());
    assert!(lessons::calc::calc("2 $ 3").is_err());
}

fn err(s: &str) -> String {
    s.to_string()
}

#[test]
fn error_messages_name_the_cause() {
    assert_eq!(lessons::calc::calc("2 + (3 * 4"), Err(err("незакрытая скобка")));
    assert_eq!(lessons::calc::calc("2 + 3) * 4"), Err(err("лишняя закрывающая скобка")));
    assert_eq!(lessons::calc::calc("10 / 0"), Err(err("деление на ноль")));
    assert_eq!(lessons::calc::calc("1 + 99999999999999999999"), Err(err("число слишком большое, разбор прерван")));
    assert_eq!(lessons::calc::calc("2 $ 3"), Err(err("неизвестный символ: '$'")));
    assert_eq!(lessons::calc::calc("9223372036854775807 + 1"), Err(err("переполнение")));
    assert_eq!(lessons::calc::calc("0 - 9223372036854775807 - 2"), Err(err("переполнение")));
    assert_eq!(lessons::calc::calc("3037000500 * 3037000500"), Err(err("переполнение")));
    assert_eq!(lessons::calc::calc(""), Err(err("пустое выражение")));
    assert_eq!(lessons::calc::calc("   "), Err(err("пустое выражение")));
    assert_eq!(lessons::calc::calc("2 3"), Err(err("некорректное выражение")));
    assert_eq!(lessons::calc::calc("2 +"), Err(err("не хватает операнда")));
    assert_eq!(lessons::calc::calc("* 2"), Err(err("не хватает операнда")));
}

#[test]
fn first_offending_character_decides() {
    assert_eq!(lessons::calc::calc("99999999999999999999 $"), Err(err("число слишком большое, разбор прерван")));
    assert_eq!(lessons::calc::calc("$ 99999999999999999999"), Err(err("неизвестный символ: '$'")));
    assert_eq!(lessons::calc::calc("1 € 2"), Err(err("неизвестный символ: '€'")));
}

#[test]
fn left_associativity_and_truncating_division() {
    assert_eq!(lessons::calc::calc("10 - 3 - 2"), Ok(5));
    assert_eq!(lessons::calc::calc("100 / 10 / 5"), Ok(2));
    assert_eq!(lessons::calc::calc("100 / 7"), Ok(14));
    assert_eq!(lessons::calc::calc("(0 - 7) / 2"), Ok(-3));
    assert_eq!(lessons::calc::calc("2 * (3 + 4) * 5"), Ok(70));
    assert_eq!(lessons::calc::calc("\t1+2\t"), Ok(3));
    assert_eq!(lessons::calc::calc("9223372036854775807"), Ok(i64::MAX));
    assert_eq!(lessons::calc::calc("007"), Ok(7));
}

#[test]
fn checked_calculation_reports_the_trapping_division() {
    assert_eq!(calc_checked("(0 - 9223372036854775807 - 1) / (0 - 1)"), None);
    assert_eq!(calc_checked("(0 - 9223372036854775807 - 1) / 1"), Some(Ok(i64::MIN)));
    assert_eq!(calc_checked("2 + 3 * 4"), Some(Ok(14)));
    assert_eq!(calc_checked("2 $ 3"), Some(Err(err("неизвестный символ: '$'"))));
}

#[test]
fn tokens_of_an_expression() {
    let toks = tokenize("12+(3 *45)").unwrap();
    assert_eq!(toks.len(), 7);
    assert!(matches!(toks[0], Token::Num(12)));
    assert!(matches!(toks[1], Token::Op('+')));
    assert!(matches!(toks[2], Token::Open));
    assert!(matches!(toks[3], Token::Num(3)));
    assert!(matches!(toks[4], Token::Op('*')));
    assert!(matches!(toks[5], Token::Num(45)));
    assert!(matches!(toks[6], Token::Close));
}

#[test]
fn operators_bind_by_precedence() {
    assert_eq!(lessons::calc::calc("2 + 3 * 4 - 5"), Ok(9));
    assert_eq!(lessons::calc::calc("2 * 3 + 4 * 5"), Ok(26));
    assert_eq!(lessons::calc::calc("20 - 6 / 3 * 2"), Ok(16));
    assert_eq!(lessons::calc::calc("((1))"), Ok(1));
    assert_eq!(lessons::calc::calc("()"), Err(err("пустое выражение")));
    assert_eq!(lessons::calc::calc(")("), Err(err("лишняя закрывающая скобка")));
}

#[test]
fn parentheses_never_reach_the_evaluator() {
    for src in ["(", ")", "()", "(()", "())", "((2)", "(2))", "(+)", "2 (3)", "(2)(3)", ")(2"] {
        assert_ne!(lessons::calc::calc(src), Err(err("скобка в RPN")));
    }
}

#[test]
fn parentheses_around_a_calculation_keep_its_value() {
    for src in ["2 + 3 * 4", "7", "(1 - 9) / 2", "10 / 0", "9223372036854775807 + 1", "2 3", "2 +"] {
        let wrapped = format!("({src})");
        assert_eq!(lessons::calc::calc(&wrapped), lessons::calc::calc(src));
    }
}

#[test]
fn parenthesised_operations_combine_values() {
    assert_eq!(lessons::calc::calc("(2 + 3)*(4)"), Ok(20));
    assert_eq!(lessons::calc::calc("(10)-(2 * 3)"), Ok(4));
    assert_eq!(lessons::calc::calc("(7)/(0 - 2)"), Ok(-3));
    assert_eq!(lessons::calc::calc("(1)/(0)"), Err(err("деление на ноль")));
    assert_eq!(lessons::calc::calc("(9223372036854775807)+(1)"), Err(err("переполнение")));
}

#[test]
fn blanks_matter_only_between_digits() {
    assert_eq!(lessons::calc::calc("1 + 2"), lessons::calc::calc("1+2"));
    assert_eq!(lessons::calc::calc("( 4 ) * 2"), lessons::calc::calc("(4)*2"));
    assert_eq!(lessons::calc::calc("1 2"), Err(err("некорректное выражение")));
    assert_eq!(lessons::calc::calc("12"), Ok(12));
}

#[test]
fn deleting_several_blanks_keeps_tokens() {
    let shown = |src: &str| format!("{:?}", tokenize(src));
    assert_eq!(shown(" 12 \t+  ( 3 * 45 )\t"), shown("12+(3*45)"));
    assert_eq!(shown("7  -\t\t2"), shown("7-2"));
    assert_eq!(shown("1  2"), shown("1 2"));
    assert_ne!(shown("1 2"), shown("12"));
}
