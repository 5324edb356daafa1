use ironcalc_base::roman::{from_roman, to_roman_with_form};

#[test]
fn from_roman_reads_classic_numerals() {
    assert_eq!(from_roman("XIV"), Ok(14));
    assert_eq!(from_roman("MCMXCIV"), Ok(1994));
    assert_eq!(from_roman("MMMCMXCIX"), Ok(3999));
}

#[test]
fn from_roman_ignores_case() {
    assert_eq!(from_roman("mcmxcix"), Ok(1999));
    assert_eq!(from_roman("xLiI"), Ok(42));
}

#[test]
fn from_roman_reads_simplified_forms() {
    assert_eq!(from_roman("ID"), Ok(499));
    assert_eq!(from_roman("XM"), Ok(990));
    assert_eq!(from_roman("VL"), Ok(45));
}

#[test]
fn from_roman_rejects_empty_text() {
    assert_eq!(from_roman(""), Err("empty numeral".to_string()));
}

#[test]
fn from_roman_rejects_other_characters() {
    assert_eq!(from_roman("ABC"), Err("invalid character 'A'".to_string()));
    assert_eq!(from_roman("X1"), Err("invalid character '1'".to_string()));
}

#[test]
fn from_roman_rejects_repetitions() {
    assert_eq!(from_roman("IIII"), Err("invalid repetition of 'I'".to_string()));
    assert_eq!(from_roman("VV"), Err("invalid repetition of 'V'".to_string()));
    assert_eq!(from_roman("III"), Ok(3));
}

#[test]
fn from_roman_rejects_bad_subtractions() {
    assert_eq!(from_roman("VX"), Err("invalid subtractive pair 'VX'".to_string()));
    assert_eq!(from_roman("IIV"), Err("malformed numeral near position 1".to_string()));
}

#[test]
fn to_roman_classic_form() {
    assert_eq!(to_roman_with_form(1, 0), Ok("I".to_string()));
    assert_eq!(to_roman_with_form(1994, 0), Ok("MCMXCIV".to_string()));
    assert_eq!(to_roman_with_form(3999, 0), Ok("MMMCMXCIX".to_string()));
    assert_eq!(to_roman_with_form(499, 0), Ok("CDXCIX".to_string()));
}

#[test]
fn to_roman_simplified_forms() {
    assert_eq!(to_roman_with_form(499, 1), Ok("LDVLIV".to_string()));
    assert_eq!(to_roman_with_form(499, 2), Ok("XDIX".to_string()));
    assert_eq!(to_roman_with_form(499, 3), Ok("VDIV".to_string()));
    assert_eq!(to_roman_with_form(499, 4), Ok("ID".to_string()));
}

#[test]
fn to_roman_rejects_out_of_range_values() {
    let msg = "value out of range (must be 1..=3999)".to_string();
    assert_eq!(to_roman_with_form(0, 0), Err(msg.clone()));
    assert_eq!(to_roman_with_form(4000, 0), Err(msg.clone()));
    assert_eq!(to_roman_with_form(0, 9), Err(msg));
}

#[test]
fn to_roman_rejects_unknown_forms() {
    let msg = "form must be between 0 and 4".to_string();
    assert_eq!(to_roman_with_form(10, 5), Err(msg.clone()));
    assert_eq!(to_roman_with_form(10, -1), Err(msg));
}

#[test]
fn roman_classic_round_trip_for_every_number() {
    for n in 1..=3999u32 {
        let s = to_roman_with_form(n, 0).unwrap();
        assert_eq!(from_roman(&s), Ok(n), "numeral {}", s);
    }
}

#[test]
fn roman_simplified_round_trip_for_every_number() {
    for form in 1..=4 {
        for n in 1..=3999u32 {
            let s = to_roman_with_form(n, form).unwrap();
            assert_eq!(from_roman(&s), Ok(n), "numeral {} of form {}", s, form);
        }
    }
}

#[test]
fn higher_forms_are_no_longer() {
    for n in [45u32, 49, 99, 490, 499, 995, 999, 1999, 3999] {
        let lengths: Vec<usize> = (0..=4).map(|f| to_roman_with_form(n, f).unwrap().len()).collect();
        for f in 0..4 {
            assert!(lengths[f + 1] <= lengths[f], "{} form {}", n, f);
        }
    }
}
