//! What a file name tells: title and year, release group, whether it is a remux.
//! Also the small texts derived for a record: the duration and a title as the
//! rating source renders it.

use vstd::prelude::*;
use vstd::string::*;
use crate::config::Config;
use crate::error::CatalogError;
use crate::text::{
    chars_of, contains_text, decimal, digit_char, digit_text, ends_with, find_char,
    first_index_of, has_text, matches_at, parse_digits, push_decimal, unsigned_of,
};

verus! {

/// The integer that `s` writes: an optional sign, then one or more ASCII digits.
pub open spec fn integer_of(s: Seq<char>) -> Option<int> {
    if s.len() > 0 && s[0] == '-' {
        match unsigned_of(s.drop_first()) {
            Some(v) => Some(-(v as int)),
            None => None,
        }
    } else if s.len() > 0 && s[0] == '+' {
        match unsigned_of(s.drop_first()) {
            Some(v) => Some(v as int),
            None => None,
        }
    } else {
        match unsigned_of(s) {
            Some(v) => Some(v as int),
            None => None,
        }
    }
}

/// The year that `s` writes, where it is an integer that fits sixteen bits.
pub open spec fn year_of(s: Seq<char>) -> Option<i16> {
    match integer_of(s) {
        Some(v) => if i16::MIN <= v <= i16::MAX {
            Some(v as i16)
        } else {
            None
        },
        None => None,
    }
}

/// Title and year of a name of the form `<3 characters><Title> (<Year>) ...`.
///
/// The title runs from the fourth character up to, and without, the character
/// before the first `(`. The year stands between the first `(` and the first `)`.
pub open spec fn title_year(name: Seq<char>) -> Option<(Seq<char>, i16)> {
    match (first_index_of(name, '('), first_index_of(name, ')')) {
        (Some(open), Some(close)) => if 4 <= open < close {
            match year_of(name.subrange(open + 1, close)) {
                Some(year) => Some((name.subrange(3, open - 1), year)),
                None => None,
            }
        } else {
            None
        },
        _ => None,
    }
}

/// Reads the year that stands in `s` from `from` up to `to`.
pub fn parse_year(s: &Vec<char>, from: usize, to: usize) -> (year: Option<i16>)
    requires
        from <= to <= s.len(),
    ensures
        year == year_of(s@.subrange(from as int, to as int)),
{
    let ghost text = s@.subrange(from as int, to as int);
    if from == to {
        return None;
    }
    let negative = s[from] == '-';
    let signed = negative || s[from] == '+';
    let start: usize = if signed {
        from + 1
    } else {
        from
    };
    assert(text[0] == s@[from as int]);
    assert(s@.subrange(start as int, to as int) =~= if signed {
        text.drop_first()
    } else {
        text
    });
    if start == to {
        return None;
    }
    match parse_digits(s, start, to) {
        None => None,
        Some(v) => if negative {
            if v <= 32768 {
                Some((-(v as i32)) as i16)
            } else {
                None
            }
        } else if v <= 32767 {
            Some(v as i16)
        } else {
            None
        },
    }
}

/// Title and year of a file or folder name.
///
/// Fails where a parenthesis is missing, where the first `(` leaves no room for
/// prefix and title, where the first `)` does not follow it, and where what
/// stands between them is not a year.
pub fn get_title_year(file_title: &str) -> (r: Result<(String, i16), CatalogError>)
    ensures
        match r {
            Ok(t) => title_year(file_title@) == Some((t.0@, t.1)),
            Err(e) => e == CatalogError::MalformedName && title_year(file_title@) is None,
        },
{
    let chars = chars_of(file_title);
    let open = match find_char(&chars, '(') {
        Some(i) => i,
        None => {
            return Err(CatalogError::MalformedName);
        },
    };
    let close = match find_char(&chars, ')') {
        Some(i) => i,
        None => {
            return Err(CatalogError::MalformedName);
        },
    };
    if open < 4 || close <= open {
        return Err(CatalogError::MalformedName);
    }
    match parse_year(&chars, open + 1, close) {
        Some(year) => Ok((String::from_str(file_title.substring_char(3, open - 1)), year)),
        None => Err(CatalogError::MalformedName),
    }
}

/// The position in `tags` of the first tag that stands in `name`.
pub open spec fn first_tag(name: Seq<char>, tags: Seq<Seq<char>>) -> Option<int> {
    if exists|i: int| 0 <= i < tags.len() && contains_text(name, tags[i]) {
        Some(
            choose|i: int|
                0 <= i < tags.len() && contains_text(name, tags[i]) && forall|j: int|
                    0 <= j < i ==> !contains_text(name, tags[j]),
        )
    } else {
        None
    }
}

/// A position whose tag stands in `name`, with no earlier such, is the one
/// `first_tag` names.
pub proof fn lemma_first_tag(name: Seq<char>, tags: Seq<Seq<char>>, i: int)
    requires
        0 <= i < tags.len(),
        contains_text(name, tags[i]),
        forall|j: int| 0 <= j < i ==> !contains_text(name, tags[j]),
    ensures
        first_tag(name, tags) == Some(i),
{
    let k = choose|k: int|
        0 <= k < tags.len() && contains_text(name, tags[k]) && forall|j: int|
            0 <= j < k ==> !contains_text(name, tags[j]);
    if k < i {
        assert(!contains_text(name, tags[k]));
    }
    if i < k {
        assert(!contains_text(name, tags[i]));
    }
}

/// The release group of a file: the first configured tag that stands in its name,
/// letter case observed.
pub fn get_encoder(title: &str, cfg: &Config) -> (encoder: Option<String>)
    ensures
        match encoder {
            Some(tag) => first_tag(title@, cfg.tags()) matches Some(i) && tag@ == cfg.tags()[i],
            None => first_tag(title@, cfg.tags()) is None,
        },
{
    let name = chars_of(title);
    let mut i: usize = 0;
    while i < cfg.enc_list.len()
        invariant
            i <= cfg.enc_list.len(),
            name@ == title@,
            forall|j: int| 0 <= j < i ==> !contains_text(title@, cfg.tags()[j]),
        decreases cfg.enc_list.len() - i,
    {
        let tag = chars_of(cfg.enc_list[i].as_str());
        if has_text(&name, &tag) {
            proof {
                lemma_first_tag(title@, cfg.tags(), i as int);
            }
            return Some(cfg.enc_list[i].clone());
        }
        i += 1;
    }
    None
}

/// An ASCII capital as its small letter; any other character as itself.
pub open spec fn fold_case(c: char) -> char {
    if 'A' <= c <= 'Z' {
        ((c as u8) + 32) as char
    } else {
        c
    }
}

/// Whether "remux" stands in `name`, in any mix of capitals and small letters.
pub open spec fn names_remux(name: Seq<char>) -> bool {
    contains_text(name.map_values(|c: char| fold_case(c)), "remux"@)
}

/// Whether the file name marks a remux.
pub fn is_remux(title: &str) -> (remux: bool)
    ensures
        remux == names_remux(title@),
{
    let name = chars_of(title);
    let mut folded: Vec<char> = Vec::new();
    let mut i: usize = 0;
    while i < name.len()
        invariant
            i <= name.len(),
            folded@ == name@.take(i as int).map_values(|c: char| fold_case(c)),
        decreases name.len() - i,
    {
        let c = name[i];
        let f = if 'A' <= c && c <= 'Z' {
            ((c as u8) + 32) as char
        } else {
            c
        };
        folded.push(f);
        assert(folded@ =~= name@.take(i + 1).map_values(|c: char| fold_case(c)));
        i += 1;
    }
    assert(name@.take(name.len() as int) =~= name@);
    let word = chars_of("remux");
    has_text(&folded, &word)
}

/// A number below a hundred in two digits.
pub open spec fn two_digits(n: nat) -> Seq<char> {
    seq![digit_char((n / 10) as int), digit_char((n % 10) as int)]
}

/// A duration as hours and minutes: the hours, `h`, the minutes of the hour in
/// two digits, `min`. Seconds are dropped.
pub open spec fn duration_text(secs: nat) -> Seq<char> {
    decimal(secs / 3600) + seq!['h'] + two_digits((secs / 60) % 60) + seq!['m', 'i', 'n']
}

/// The running time of `secs` seconds, as the catalog shows it.
pub fn get_dur(secs: u64) -> (text: String)
    ensures
        text@ == duration_text(secs as nat),
{
    let minutes: u64 = (secs / 60) % 60;
    let hours: u64 = (secs / 60) / 60;
    let mut out = String::new();
    push_decimal(&mut out, hours);
    out.append("h");
    out.append(digit_text((minutes / 10) as u8));
    out.append(digit_text((minutes % 10) as u8));
    out.append("min");
    proof {
        reveal_strlit("h");
        reveal_strlit("min");
        assert(out@ =~= duration_text(secs as nat));
    }
    out
}

/// `s` with each colon replaced by a space and a hyphen.
pub open spec fn sanitized(s: Seq<char>) -> Seq<char>
    decreases s.len(),
{
    if s.len() == 0 {
        Seq::empty()
    } else if s.last() == ':' {
        sanitized(s.drop_last()) + seq![' ', '-']
    } else {
        sanitized(s.drop_last()).push(s.last())
    }
}

/// A title as the rating source renders it: " -" in place of each colon.
pub fn sanitize(str: String) -> (clean: String)
    ensures
        clean@ == sanitized(str@),
{
    let text = str.as_str();
    let chars = chars_of(text);
    let mut out = String::new();
    let mut start: usize = 0;
    let mut i: usize = 0;
    assert(chars@.take(0) =~= Seq::<char>::empty());
    while i < chars.len()
        invariant
            start <= i <= chars.len(),
            chars@ == text@,
            out@ + chars@.subrange(start as int, i as int) == sanitized(chars@.take(i as int)),
        decreases chars.len() - i,
    {
        proof {
            assert(chars@.take(i + 1).drop_last() =~= chars@.take(i as int));
            assert(chars@.take(i + 1).last() == chars@[i as int]);
        }
        if chars[i] == ':' {
            out.append(text.substring_char(start, i));
            out.append(" -");
            proof {
                reveal_strlit(" -");
                assert(" -"@ =~= seq![' ', '-']);
            }
            start = i + 1;
            assert(out@ + chars@.subrange(start as int, i + 1) =~= sanitized(chars@.take(i + 1)));
        } else {
            assert(out@ + chars@.subrange(start as int, i + 1) =~= sanitized(chars@.take(i + 1)));
        }
        i += 1;
    }
    out.append(text.substring_char(start, i));
    assert(chars@.take(chars.len() as int) =~= chars@);
    out
}

/// Whether a file name ends in `.mkv`: only such files are catalogued.
pub fn is_matroska(file_name: &str) -> (yes: bool)
    ensures
        yes == ends_with(file_name@, ".mkv"@),
{
    let name = chars_of(file_name);
    let tail = chars_of(".mkv");
    if tail.len() > name.len() {
        return false;
    }
    let at: usize = name.len() - tail.len();
    proof {
        assert(name@.skip(at as int) =~= name@.subrange(at as int, at + tail.len()));
    }
    matches_at(&name, &tail, at)
}

} // verus!
