//! The lines that tell the user what a run did.

use vstd::prelude::*;
use vstd::string::*;
use crate::reconcile::{texts, Report, ReportData};
use crate::text::{decimal, push_decimal};

verus! {

/// A heading with its count. The heading is padded to twenty characters.
pub open spec fn count_line(heading: Seq<char>, count: nat) -> Seq<char> {
    heading + decimal(count)
}

/// One title of a list, behind a tab.
pub open spec fn title_line(title: Seq<char>) -> Seq<char> {
    "\t"@ + title
}

/// The titles of a list as lines.
pub open spec fn title_lines(titles: Seq<Seq<char>>) -> Seq<Seq<char>> {
    titles.map_values(|t: Seq<char>| title_line(t))
}

/// The summary of a run: how many were added, with their titles; how many were
/// removed, with their titles; how many are unchanged.
pub open spec fn summary_lines(report: ReportData) -> Seq<Seq<char>> {
    seq![count_line("Added:              "@, report.added.len())] + title_lines(report.added)
        + seq![count_line("Removed:            "@, report.removed.len())] + title_lines(
        report.removed,
    ) + seq![count_line("Unchanged:          "@, report.unchanged)]
}

/// Appends a heading with its count to the lines.
fn push_count(lines: &mut Vec<String>, heading: &str, count: usize)
    ensures
        texts(final(lines)@) == texts(old(lines)@).push(count_line(heading@, count as nat)),
{
    let mut line = String::from_str(heading);
    push_decimal(&mut line, count as u64);
    let ghost text = line@;
    lines.push(line);
    assert(texts(lines@) =~= texts(old(lines)@).push(text));
}

/// Appends the titles to the lines, one line each.
fn push_titles(lines: &mut Vec<String>, titles: &Vec<String>)
    ensures
        texts(final(lines)@) == texts(old(lines)@) + title_lines(texts(titles@)),
{
    let mut i: usize = 0;
    assert(texts(lines@) =~= texts(old(lines)@) + title_lines(texts(titles@)).take(0));
    while i < titles.len()
        invariant
            i <= titles.len(),
            texts(lines@) == texts(old(lines)@) + title_lines(texts(titles@)).take(i as int),
        decreases titles.len() - i,
    {
        let mut line = String::from_str("\t");
        line.append(titles[i].as_str());
        let ghost text = line@;
        let ghost before = texts(lines@);
        lines.push(line);
        assert(texts(lines@) =~= before.push(text));
        assert(texts(lines@) =~= texts(old(lines)@) + title_lines(texts(titles@)).take(i + 1));
        i += 1;
    }
    assert(title_lines(texts(titles@)).take(titles.len() as int) =~= title_lines(texts(titles@)));
}

impl Report {
    /// The summary of the run, line by line.
    pub fn summary(&self) -> (lines: Vec<String>)
        ensures
            texts(lines@) == summary_lines(self@),
    {
        let mut lines: Vec<String> = Vec::new();
        assert(texts(lines@) =~= Seq::<Seq<char>>::empty());
        push_count(&mut lines, "Added:              ", self.added.len());
        push_titles(&mut lines, &self.added);
        push_count(&mut lines, "Removed:            ", self.removed.len());
        push_titles(&mut lines, &self.removed);
        push_count(&mut lines, "Unchanged:          ", self.unchanged);
        assert(texts(lines@) =~= summary_lines(self@));
        lines
    }
}

} // verus!
