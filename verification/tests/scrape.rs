use movie_log::name::is_matroska;
use movie_log::rating::Ratings;
use movie_log::scrape::{last_page, page_link, page_links};
use movie_log::text::{chars_of, find_char, has_text, rfind_char, same_text, trim_text};

#[test]
fn last_page_is_the_count_after_the_last_space() {
    assert_eq!(last_page("1 2 3 … 12"), Some(12));
    assert_eq!(last_page("\n   Older Newer 1 2 3 57 \n\t"), Some(57));
    assert_eq!(last_page("1 2 "), Some(2));
    assert_eq!(last_page("pages +5"), Some(5));
    assert_eq!(last_page("pages 007"), Some(7));
    assert_eq!(last_page("pages 0"), Some(0));
}

#[test]
fn last_page_needs_a_space_and_a_count() {
    assert_eq!(last_page(""), None);
    assert_eq!(last_page("   "), None);
    assert_eq!(last_page("57"), None);
    assert_eq!(last_page("  57  "), None);
    assert_eq!(last_page("1 2 next"), None);
    assert_eq!(last_page("pages -5"), None);
    assert_eq!(last_page("pages +"), None);
    assert_eq!(last_page("pages 1.5"), None);
    // a no-break space is white space and no space
    assert_eq!(last_page("1\u{a0}2"), None);
    assert_eq!(last_page("1 2\u{a0}3"), None);
}

#[test]
fn last_page_fits_a_machine_word() {
    assert_eq!(last_page(&format!("x {}", usize::MAX)), Some(usize::MAX));
    assert_eq!(last_page("x 340282366920938463463374607431768211456"), None);
    assert_eq!(last_page(&format!("x {}0", usize::MAX)), None);
}

#[test]
fn page_link_is_base_page_and_number() {
    assert_eq!(page_link("https://example.org/list/", 1), "https://example.org/list/page/1");
    assert_eq!(page_link("https://example.org/list/", 120), "https://example.org/list/page/120");
    assert_eq!(page_link("", 0), "page/0");
}

#[test]
fn page_links_run_from_one() {
    assert_eq!(
        page_links("b/", 3),
        vec![String::from("b/page/1"), String::from("b/page/2"), String::from("b/page/3")]
    );
    assert!(page_links("b/", 0).is_empty());
}

#[test]
fn poster_title_is_sanitized_and_text_trimmed() {
    let mut ratings = Ratings::new();
    ratings.add_poster(String::from("Mission: Impossible"), "\n      ★★★½ \n  ");
    ratings.add_poster(String::from("Heat"), "★★★★");
    ratings.add_poster(String::from("Unrated"), "   ");
    assert_eq!(ratings.len(), 3);
    assert_eq!(ratings.title(0), "Mission - Impossible");
    assert_eq!(ratings.rating(0), "★★★½");
    assert_eq!(ratings.get("Heat"), Some("★★★★"));
    assert_eq!(ratings.get("Unrated"), Some(""));
    ratings.add_poster(String::from("Mission: Impossible"), " ★ ");
    assert_eq!(ratings.len(), 3);
    assert_eq!(ratings.get("Mission - Impossible"), Some("★"));
}

#[test]
fn trim_cuts_white_space_at_both_ends() {
    assert_eq!(trim_text("  a b \t\n"), "a b");
    assert_eq!(trim_text("a"), "a");
    assert_eq!(trim_text(""), "");
    assert_eq!(trim_text(" \t\r\n"), "");
    assert_eq!(trim_text("\u{3000}x\u{a0}"), "x");
    assert_eq!(trim_text("\u{2003}é \u{2028}\u{205f}"), "é");
}

#[test]
fn trim_cuts_what_the_standard_library_cuts() {
    for code in 0u32..0x3100 {
        if let Some(c) = char::from_u32(code) {
            let text = format!("{}x{}y{}", c, c, c);
            assert_eq!(trim_text(&text), text.trim(), "U+{:04X}", code);
        }
    }
    for code in [0xfeffu32, 0x1_0000, 0xe000, 0x10_ffff, 0x180e, 0x200b, 0x2060] {
        let c = char::from_u32(code).unwrap();
        let text = format!("{}x{}", c, c);
        assert_eq!(trim_text(&text), text.trim(), "U+{:04X}", code);
    }
}

#[test]
fn only_names_ending_in_mkv_are_video_files() {
    assert!(is_matroska("Heat (1995).mkv"));
    assert!(is_matroska(".mkv"));
    assert!(is_matroska("a.mp4.mkv"));
    assert!(!is_matroska("mkv"));
    assert!(!is_matroska(""));
    assert!(!is_matroska("Heat.MKV"));
    assert!(!is_matroska("Heat.mkv "));
    assert!(!is_matroska("Heat.mkvx"));
    assert!(!is_matroska("Heat.mk"));
    assert!(!is_matroska("Heat.mp4"));
}

#[test]
fn texts_are_searched_by_character() {
    let hay = chars_of("千と千尋の神隠し");
    assert_eq!(hay.len(), 8);
    assert_eq!(find_char(&hay, '千'), Some(0));
    assert_eq!(rfind_char(&hay, '千'), Some(2));
    assert_eq!(find_char(&hay, 'x'), None);
    assert_eq!(rfind_char(&hay, 'x'), None);
    assert!(has_text(&hay, &chars_of("千尋")));
    assert!(has_text(&hay, &chars_of("")));
    assert!(has_text(&hay, &chars_of("千と千尋の神隠し")));
    assert!(!has_text(&hay, &chars_of("千と千尋の神隠し!")));
    assert!(!has_text(&hay, &chars_of("尋千")));
    assert!(has_text(&chars_of(""), &chars_of("")));
    assert!(!has_text(&chars_of(""), &chars_of("a")));
    assert!(has_text(&chars_of("aab"), &chars_of("ab")));
    assert!(same_text("é", "é"));
    assert!(!same_text("é", "e"));
    assert!(!same_text("a", "ab"));
    assert!(same_text("", ""));
}

#[test]
fn last_page_reads_what_the_standard_library_reads() {
    let alphabet: Vec<char> = "12 +-0a\u{a0}\t9".chars().collect();
    let mut state: u64 = 0x9e37_79b9_7f4a_7c15;
    let mut accepted = 0;
    for _ in 0..200_000 {
        let mut text = String::new();
        state = state.wrapping_mul(6364136223846793005).wrapping_add(1442695040888963407);
        let len = (state >> 61) as usize + 1;
        for _ in 0..len {
            state = state.wrapping_mul(6364136223846793005).wrapping_add(1442695040888963407);
            text.push(alphabet[(state >> 33) as usize % alphabet.len()]);
        }
        let trimmed = text.trim();
        let expected = trimmed.rfind(' ').and_then(|at| trimmed[at + 1..].parse::<usize>().ok());
        if expected.is_some() {
            accepted += 1;
        }
        assert_eq!(last_page(&text), expected, "{:?}", text);
    }
    assert!(accepted > 100);
}
