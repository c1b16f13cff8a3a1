use contas::models::transacao::{Descricao, TipoTransacao};
use contas::validation::{validate_id, validate_post, Malformed, RawPost};

fn raw(valor: i64, tipo: &str, descricao: &str) -> RawPost {
    RawPost { valor: Some(valor), tipo: Some(tipo.to_string()), descricao: Some(descricao.to_string()) }
}

#[test]
fn well_formed_post_is_accepted() {
    let transacao = validate_post(raw(100, "c", "pay")).unwrap();
    assert_eq!(transacao.valor, 100);
    assert_eq!(transacao.tipo, TipoTransacao::CREDITO);
    assert_eq!(transacao.descricao.as_str(), "pay");
}

#[test]
fn debit_post_is_accepted() {
    let transacao = validate_post(raw(1200, "d", "rent")).unwrap();
    assert_eq!(transacao.valor, 1200);
    assert_eq!(transacao.tipo, TipoTransacao::DEBITO);
    assert_eq!(transacao.descricao.as_str(), "rent");
}

#[test]
fn empty_description_is_malformed() {
    assert!(matches!(validate_post(raw(50, "c", "")), Err(Malformed)));
}

#[test]
fn description_of_eleven_characters_is_malformed() {
    assert!(matches!(validate_post(raw(50, "c", "abcdefghijk")), Err(Malformed)));
}

#[test]
fn description_of_one_character_is_accepted() {
    let transacao = validate_post(raw(1, "d", "x")).unwrap();
    assert_eq!(transacao.descricao.as_str(), "x");
}

#[test]
fn description_of_ten_characters_is_accepted() {
    let transacao = validate_post(raw(1, "d", "abcdefghij")).unwrap();
    assert_eq!(transacao.descricao.as_str(), "abcdefghij");
}

#[test]
fn description_length_counts_characters_not_bytes() {
    let ten = "çççççççççç";
    assert_eq!(ten.chars().count(), 10);
    assert_eq!(ten.len(), 20);
    assert!(validate_post(raw(1, "c", ten)).is_ok());
    let eleven = "ççççççççççç";
    assert!(matches!(validate_post(raw(1, "c", eleven)), Err(Malformed)));
}

#[test]
fn unknown_kind_is_malformed() {
    assert!(matches!(validate_post(raw(1, "x", "pay")), Err(Malformed)));
    assert!(matches!(validate_post(raw(1, "", "pay")), Err(Malformed)));
    assert!(matches!(validate_post(raw(1, "cd", "pay")), Err(Malformed)));
    assert!(matches!(validate_post(raw(1, "C", "pay")), Err(Malformed)));
    assert!(matches!(validate_post(raw(1, "ERROR", "pay")), Err(Malformed)));
}

#[test]
fn negative_amount_is_malformed() {
    assert!(matches!(validate_post(raw(-1, "c", "pay")), Err(Malformed)));
}

#[test]
fn zero_amount_is_accepted() {
    assert_eq!(validate_post(raw(0, "c", "pay")).unwrap().valor, 0);
}

#[test]
fn amount_beyond_32_bits_is_malformed() {
    assert_eq!(validate_post(raw(2_147_483_647, "c", "pay")).unwrap().valor, 2_147_483_647);
    assert!(matches!(validate_post(raw(2_147_483_648, "c", "pay")), Err(Malformed)));
}

#[test]
fn missing_fields_are_malformed() {
    let no_valor = RawPost { valor: None, tipo: Some("c".to_string()), descricao: Some("pay".to_string()) };
    assert!(matches!(validate_post(no_valor), Err(Malformed)));
    let no_tipo = RawPost { valor: Some(1), tipo: None, descricao: Some("pay".to_string()) };
    assert!(matches!(validate_post(no_tipo), Err(Malformed)));
    let no_descricao = RawPost { valor: Some(1), tipo: Some("c".to_string()), descricao: None };
    assert!(matches!(validate_post(no_descricao), Err(Malformed)));
}

#[test]
fn validating_twice_gives_the_same_transaction() {
    let first = validate_post(raw(100, "d", "pay")).unwrap();
    let again = validate_post(raw(first.valor as i64, first.tipo.as_str(), first.descricao.as_str())).unwrap();
    assert_eq!(again.valor, first.valor);
    assert_eq!(again.tipo, first.tipo);
    assert_eq!(again.descricao.as_str(), first.descricao.as_str());
}

#[test]
fn kind_from_text() {
    assert_eq!(TipoTransacao::from("c"), TipoTransacao::CREDITO);
    assert_eq!(TipoTransacao::from("d"), TipoTransacao::DEBITO);
    assert_eq!(TipoTransacao::from("e"), TipoTransacao::ERROR);
    assert_eq!(TipoTransacao::from(""), TipoTransacao::ERROR);
    assert_eq!(TipoTransacao::from("cc"), TipoTransacao::ERROR);
}

#[test]
fn kind_to_text() {
    assert_eq!(TipoTransacao::CREDITO.as_str(), "c");
    assert_eq!(TipoTransacao::DEBITO.as_str(), "d");
}

#[test]
fn description_says_why_it_is_refused() {
    assert_eq!(Descricao::try_from(String::new()).unwrap_err(), "descricao is too short");
    assert_eq!(Descricao::try_from("abcdefghijk".to_string()).unwrap_err(), "descricao is too big");
    assert_eq!(Descricao::try_from("teste".to_string()).unwrap().as_str(), "teste");
}

#[test]
fn description_gives_its_text_back() {
    let descricao = Descricao::try_from("salario".to_string()).unwrap();
    let copy = descricao.clone();
    assert_eq!(String::from(descricao), "salario");
    assert_eq!(copy.as_str(), "salario");
}

#[test]
fn id_is_read_in_decimal() {
    assert_eq!(validate_id("1"), Ok(1));
    assert_eq!(validate_id("424242"), Ok(424242));
    assert_eq!(validate_id("0"), Ok(0));
    assert_eq!(validate_id("00012"), Ok(12));
}

#[test]
fn id_may_carry_a_sign() {
    assert_eq!(validate_id("-5"), Ok(-5));
    assert_eq!(validate_id("+7"), Ok(7));
    assert_eq!(validate_id("-0"), Ok(0));
}

#[test]
fn id_must_fit_32_bits() {
    assert_eq!(validate_id("2147483647"), Ok(i32::MAX));
    assert_eq!(validate_id("2147483648"), Err(Malformed));
    assert_eq!(validate_id("-2147483648"), Ok(i32::MIN));
    assert_eq!(validate_id("-2147483649"), Err(Malformed));
    assert_eq!(validate_id("99999999999999999999999999"), Err(Malformed));
    assert_eq!(validate_id("000000000000000000000000001"), Ok(1));
}

#[test]
fn id_of_anything_else_is_malformed() {
    assert_eq!(validate_id(""), Err(Malformed));
    assert_eq!(validate_id("-"), Err(Malformed));
    assert_eq!(validate_id("+"), Err(Malformed));
    assert_eq!(validate_id("abc"), Err(Malformed));
    assert_eq!(validate_id("12a"), Err(Malformed));
    assert_eq!(validate_id(" 12"), Err(Malformed));
    assert_eq!(validate_id("12 "), Err(Malformed));
    assert_eq!(validate_id("1_000"), Err(Malformed));
    assert_eq!(validate_id("1.0"), Err(Malformed));
    assert_eq!(validate_id("--1"), Err(Malformed));
    assert_eq!(validate_id("１２"), Err(Malformed));
}

#[test]
fn id_is_read_as_the_standard_library_reads_it() {
    for text in ["1", "-1", "+1", "", "-", "007", "2147483647", "2147483648", "-2147483648", "x1", "1x"] {
        assert_eq!(validate_id(text).ok(), text.parse::<i32>().ok());
    }
}
