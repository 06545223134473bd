use movie_log::config::Config;
use movie_log::error::CatalogError;
use movie_log::name::{get_dur, get_encoder, get_title_year, is_remux, sanitize};

fn config(tags: &[&str]) -> Config {
    Config {
        letterboxd: String::from("https://example.org/list/"),
        enc_list: tags.iter().map(|t| String::from(*t)).collect(),
    }
}

#[test]
fn title_and_year_of_the_documented_name() {
    assert_eq!(
        get_title_year("M: Title Name (2020) [2160p]"),
        Ok((String::from("Title Name"), 2020))
    );
}

#[test]
fn title_drops_the_character_before_the_parenthesis() {
    assert_eq!(get_title_year("M:/Heat (1995)"), Ok((String::from("Heat"), 1995)));
    assert_eq!(get_title_year("M:/Heat_(1995)"), Ok((String::from("Heat"), 1995)));
    // with nothing between title and parenthesis the last letter goes
    assert_eq!(get_title_year("M:/Heat(1995)"), Ok((String::from("Hea"), 1995)));
}

#[test]
fn the_first_parentheses_count() {
    assert_eq!(
        get_title_year("M:/Blade Runner (1982) (Final Cut) [1080p]"),
        Ok((String::from("Blade Runner"), 1982))
    );
}

#[test]
fn title_may_be_empty() {
    assert_eq!(get_title_year("M:/ (1999)"), Ok((String::new(), 1999)));
}

#[test]
fn title_is_cut_by_characters_not_bytes() {
    assert_eq!(get_title_year("M:/Amélie (2001)"), Ok((String::from("Amélie"), 2001)));
    assert_eq!(get_title_year("é:/千と千尋 (2001)"), Ok((String::from("千と千尋"), 2001)));
}

#[test]
fn year_takes_a_sign_and_sixteen_bits() {
    assert_eq!(get_title_year("M:/X (+1999)"), Ok((String::from("X"), 1999)));
    assert_eq!(get_title_year("M:/X (-44)"), Ok((String::from("X"), -44)));
    assert_eq!(get_title_year("M:/X (0)"), Ok((String::from("X"), 0)));
    assert_eq!(get_title_year("M:/X (-0)"), Ok((String::from("X"), 0)));
    assert_eq!(get_title_year("M:/X (0002020)"), Ok((String::from("X"), 2020)));
    assert_eq!(get_title_year("M:/X (32767)"), Ok((String::from("X"), 32767)));
    assert_eq!(get_title_year("M:/X (-32768)"), Ok((String::from("X"), -32768)));
    assert_eq!(get_title_year("M:/X (32768)"), Err(CatalogError::MalformedName));
    assert_eq!(get_title_year("M:/X (-32769)"), Err(CatalogError::MalformedName));
    assert_eq!(
        get_title_year("M:/X (99999999999999999999999999999999999999999)"),
        Err(CatalogError::MalformedName)
    );
}

#[test]
fn a_name_without_parentheses_is_malformed() {
    assert_eq!(get_title_year(""), Err(CatalogError::MalformedName));
    assert_eq!(get_title_year("M:/Heat 1995"), Err(CatalogError::MalformedName));
    assert_eq!(get_title_year("M:/Heat (1995"), Err(CatalogError::MalformedName));
    assert_eq!(get_title_year("M:/Heat 1995)"), Err(CatalogError::MalformedName));
}

#[test]
fn a_year_that_is_no_integer_is_malformed() {
    assert_eq!(get_title_year("M:/Heat ()"), Err(CatalogError::MalformedName));
    assert_eq!(get_title_year("M:/Heat (19x5)"), Err(CatalogError::MalformedName));
    assert_eq!(get_title_year("M:/Heat ( 1995)"), Err(CatalogError::MalformedName));
    assert_eq!(get_title_year("M:/Heat (1995 )"), Err(CatalogError::MalformedName));
    assert_eq!(get_title_year("M:/Heat (-)"), Err(CatalogError::MalformedName));
    assert_eq!(get_title_year("M:/Heat (+)"), Err(CatalogError::MalformedName));
    assert_eq!(get_title_year("M:/Heat (+-1)"), Err(CatalogError::MalformedName));
    assert_eq!(get_title_year("M:/Heat (١٩٩٥)"), Err(CatalogError::MalformedName));
}

#[test]
fn parentheses_out_of_place_are_malformed() {
    // no room for prefix and title
    assert_eq!(get_title_year("(1995)"), Err(CatalogError::MalformedName));
    assert_eq!(get_title_year("M:/(1995)"), Err(CatalogError::MalformedName));
    // the first `)` stands before the first `(`
    assert_eq!(get_title_year("M:/Heat) (1995)"), Err(CatalogError::MalformedName));
}

#[test]
fn first_configured_tag_wins() {
    let cfg = config(&["FraMeSToR", "EPSiLON", "Tigole"]);
    assert_eq!(
        get_encoder("M:/Heat (1995) [1080p x265 Tigole]", &cfg),
        Some(String::from("Tigole"))
    );
    assert_eq!(
        get_encoder("M:/Heat (1995) [Tigole EPSiLON]", &cfg),
        Some(String::from("EPSiLON"))
    );
    assert_eq!(get_encoder("M:/Heat (1995) [1080p]", &cfg), None);
    assert_eq!(get_encoder("M:/Heat (1995) [1080p]", &config(&[])), None);
}

#[test]
fn tags_are_matched_with_their_case() {
    let cfg = config(&["Tigole"]);
    assert_eq!(get_encoder("M:/Heat (1995) [tigole]", &cfg), None);
    assert_eq!(get_encoder("M:/Heat (1995) [TIGOLE]", &cfg), None);
    assert_eq!(get_encoder("Tigole", &cfg), Some(String::from("Tigole")));
    assert_eq!(get_encoder("Tigol", &cfg), None);
}

#[test]
fn an_empty_tag_stands_in_every_name() {
    let cfg = config(&["", "Tigole"]);
    assert_eq!(get_encoder("M:/Heat (1995) [Tigole]", &cfg), Some(String::new()));
    assert_eq!(get_encoder("", &cfg), Some(String::new()));
}

#[test]
fn remux_is_found_in_any_case() {
    assert!(is_remux("M:/Heat (1995) [1080p Remux]"));
    assert!(is_remux("M:/Heat (1995) [REMUX]"));
    assert!(is_remux("remux"));
    assert!(is_remux("xxReMuXxx"));
    assert!(!is_remux("M:/Heat (1995) [1080p]"));
    assert!(!is_remux("remu"));
    assert!(!is_remux("re mux"));
    assert!(!is_remux(""));
}

#[test]
fn duration_is_hours_and_two_digit_minutes() {
    assert_eq!(get_dur(0), "0h00min");
    assert_eq!(get_dur(59), "0h00min");
    assert_eq!(get_dur(60), "0h01min");
    assert_eq!(get_dur(3599), "0h59min");
    assert_eq!(get_dur(3600), "1h00min");
    assert_eq!(get_dur(3900), "1h05min");
    assert_eq!(get_dur(2 * 3600 + 47 * 60 + 31), "2h47min");
    assert_eq!(get_dur(36000), "10h00min");
    assert_eq!(get_dur(u64::MAX), "5124095576030431h00min");
}

#[test]
fn sanitize_turns_each_colon_into_space_hyphen() {
    assert_eq!(sanitize(String::from("Blade Runner")), "Blade Runner");
    assert_eq!(sanitize(String::from("Mission: Impossible")), "Mission - Impossible");
    assert_eq!(sanitize(String::from("a:b:c")), "a -b -c");
    assert_eq!(sanitize(String::from(":")), " -");
    assert_eq!(sanitize(String::from("::")), " - -");
    assert_eq!(sanitize(String::from("x:")), "x -");
    assert_eq!(sanitize(String::new()), "");
    assert_eq!(sanitize(String::from("Amélie: le film")), "Amélie - le film");
}

#[test]
fn remux_is_found_as_in_the_lower_cased_name() {
    for code in 0u32..=0x10_ffff {
        if let Some(c) = char::from_u32(code) {
            let name = format!("re{}ux", c);
            assert_eq!(is_remux(&name), name.to_lowercase().contains("remux"), "U+{:04X}", code);
        }
    }
    let names =
        ["REMUX", "rEmUx", "ʀemux", "ＲＥＭＵＸ", "remuİx", "re\u{0}mux", "Remu", "xumer"];
    for name in names {
        assert_eq!(is_remux(name), name.to_lowercase().contains("remux"), "{}", name);
    }
}

#[test]
fn title_and_year_are_what_slicing_and_parsing_give() {
    // names over a small alphabet, cut and parsed with the standard library
    let alphabet: Vec<char> = "ab ()(9+-01 ".chars().collect();
    let mut state: u64 = 0x2545_f491_4f6c_dd1d;
    let mut checked = 0;
    let mut accepted = 0;
    for _ in 0..200_000 {
        let mut name = String::new();
        state = state.wrapping_mul(6364136223846793005).wrapping_add(1442695040888963407);
        let len = 4 + (state >> 60) as usize;
        for _ in 0..len {
            state = state.wrapping_mul(6364136223846793005).wrapping_add(1442695040888963407);
            name.push(alphabet[(state >> 33) as usize % alphabet.len()]);
        }
        let expected = match (name.find('('), name.find(')')) {
            (Some(open), Some(close)) if open >= 4 && close > open => {
                match name[open + 1..close].parse::<i16>() {
                    Ok(year) => Ok((String::from(&name[3..open - 1]), year)),
                    Err(_) => Err(CatalogError::MalformedName),
                }
            }
            _ => Err(CatalogError::MalformedName),
        };
        if expected.is_ok() {
            accepted += 1;
        }
        assert_eq!(get_title_year(&name), expected, "{:?}", name);
        checked += 1;
    }
    assert_eq!(checked, 200_000);
    assert!(accepted > 100);
}
