//! What is read out of the pages of the rating source once their text is at
//! hand: the number of pages, the address of each page, and the ratings.

use vstd::prelude::*;
use vstd::string::*;
use crate::name::{sanitize, sanitized};
use crate::rating::{with_rating, Ratings};
use crate::text::{
    chars_of, decimal, last_index_of, parse_digits, push_decimal, rfind_char, trim_text, trimmed,
    unsigned_of,
};

verus! {

/// The count that `s` writes: an optional `+`, then one or more ASCII digits,
/// where the number fits a machine word.
pub open spec fn count_of(s: Seq<char>) -> Option<usize> {
    let body = if s.len() > 0 && s[0] == '+' {
        s.drop_first()
    } else {
        s
    };
    match unsigned_of(body) {
        Some(v) => if v <= usize::MAX {
            Some(v as usize)
        } else {
            None
        },
        None => None,
    }
}

/// The number of pages that the text of the pagination names: what follows the
/// last space of the trimmed text, read as a count.
pub open spec fn page_count(pagination: Seq<char>) -> Option<usize> {
    let text = trimmed(pagination);
    match last_index_of(text, ' ') {
        Some(at) => count_of(text.subrange(at + 1, text.len() as int)),
        None => None,
    }
}

/// The number of the last page, from the text of the pagination element.
/// There is none where the text holds no space or does not end in a count.
pub fn last_page(pagination: &str) -> (pages: Option<usize>)
    ensures
        pages == page_count(pagination@),
{
    let text = chars_of(trim_text(pagination));
    let at = match rfind_char(&text, ' ') {
        Some(at) => at,
        None => {
            return None;
        },
    };
    let from: usize = at + 1;
    let ghost word = text@.subrange(from as int, text.len() as int);
    let start: usize = if from < text.len() && text[from] == '+' {
        from + 1
    } else {
        from
    };
    proof {
        if from < text.len() {
            assert(word[0] == text@[from as int]);
        }
        assert(text@.subrange(start as int, text.len() as int) =~= if word.len() > 0 && word[0]
            == '+' {
            word.drop_first()
        } else {
            word
        });
    }
    if start == text.len() {
        return None;
    }
    match parse_digits(&text, start, text.len()) {
        Some(v) => if v <= usize::MAX as u128 {
            Some(v as usize)
        } else {
            None
        },
        None => None,
    }
}

/// The address of page `page` under `base`.
pub open spec fn page_address(base: Seq<char>, page: nat) -> Seq<char> {
    base + "page/"@ + decimal(page)
}

/// The address of one page of the list: the base address, `page/` and the number.
pub fn page_link(base: &str, page: usize) -> (link: String)
    ensures
        link@ == page_address(base@, page as nat),
{
    let mut link = String::from_str(base);
    link.append("page/");
    push_decimal(&mut link, page as u64);
    link
}

/// The pages of a list of `pages` pages, from page 1 on.
pub fn page_links(base: &str, pages: usize) -> (links: Vec<String>)
    ensures
        links@.len() == pages,
        forall|i: int| 0 <= i < pages ==> (#[trigger] links@[i])@ == page_address(base@, (i + 1) as nat),
{
    let mut links: Vec<String> = Vec::new();
    let mut i: usize = 0;
    while i < pages
        invariant
            i <= pages,
            links@.len() == i,
            forall|k: int| 0 <= k < i ==> (#[trigger] links@[k])@ == page_address(base@, (k + 1) as nat),
        decreases pages - i,
    {
        i += 1;
        links.push(page_link(base, i));
    }
    links
}

impl Ratings {
    /// Takes one poster of a page into the table: its title, with " -" for each
    /// colon, gets the text of the poster, trimmed, as its rating.
    pub fn add_poster(&mut self, raw_title: String, text: &str)
        ensures
            final(self)@ == with_rating(old(self)@, sanitized(raw_title@), trimmed(text@)),
    {
        let title = sanitize(raw_title);
        let rating = String::from_str(trim_text(text));
        self.insert(title, rating);
    }
}

} // verus!
