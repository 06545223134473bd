//! The folder name that a record asks for, and which folders of a listing
//! have to be renamed to carry it.

use vstd::prelude::*;
use vstd::string::*;
use crate::catalog::{records, Movie, MovieData};
use crate::name::two_digits;
use crate::reconcile::texts;
use crate::text::{decimal, digit_char, digit_text, push_decimal, same_text};

verus! {

/// An integer in decimal, with `-` before a negative one.
pub open spec fn signed_decimal(v: int) -> Seq<char> {
    if v < 0 {
        seq!['-'] + decimal((-v) as nat)
    } else {
        decimal(v as nat)
    }
}

/// Appends `v` in decimal to `out`.
pub fn push_signed(out: &mut String, v: i16)
    ensures
        final(out)@ == old(out)@ + signed_decimal(v as int),
{
    if v < 0 {
        out.append("-");
        proof {
            reveal_strlit("-");
        }
        push_decimal(out, (-(v as i32)) as u64);
        assert(final(out)@ =~= old(out)@ + signed_decimal(v as int));
    } else {
        push_decimal(out, v as u64);
    }
}

/// A scaled size as a decimal number without zeros at its end: 400 hundredths
/// are "4", 450 are "4.5", 437 are "4.37".
pub open spec fn size_display(hundredths: nat) -> Seq<char> {
    let whole = decimal(hundredths / 100);
    let rest = hundredths % 100;
    if rest == 0 {
        whole
    } else if rest % 10 == 0 {
        whole + seq!['.', digit_char((rest / 10) as int)]
    } else {
        whole + seq!['.'] + two_digits(rest)
    }
}

/// Appends a scaled size to `out`.
pub fn push_size(out: &mut String, hundredths: u64)
    ensures
        final(out)@ == old(out)@ + size_display(hundredths as nat),
{
    push_decimal(out, hundredths / 100);
    let rest: u64 = hundredths % 100;
    if rest != 0 {
        out.append(".");
        out.append(digit_text((rest / 10) as u8));
        if rest % 10 != 0 {
            out.append(digit_text((rest % 10) as u8));
        }
    }
    proof {
        reveal_strlit(".");
        assert(final(out)@ =~= old(out)@ + size_display(hundredths as nat));
    }
}

/// The word for a channel layout: "stereo" for 2.0, "mono" for 1.0, else the
/// layout itself.
pub open spec fn channel_word(channels: Seq<char>) -> Seq<char> {
    if channels == "2.0"@ {
        "stereo"@
    } else if channels == "1.0"@ {
        "mono"@
    } else {
        channels
    }
}

/// The release group as it stands in a folder name: after a space, or not at all.
pub open spec fn encoder_part(encoder: Option<Seq<char>>) -> Seq<char> {
    match encoder {
        Some(tag) => " "@ + tag,
        None => Seq::empty(),
    }
}

/// The folder name of a record:
/// `Title (Year) [RESp VCODEC DEPTH ACODEC-CHANNELS ENCODER] (SIZE GB)`.
pub open spec fn folder_name(m: MovieData) -> Seq<char> {
    m.title + " ("@ + signed_decimal(m.year as int) + ") ["@ + signed_decimal(m.res as int) + "p "@
        + m.v_codec + " "@ + m.bit_depth + " "@ + m.a_codec + "-"@ + channel_word(m.channels)
        + encoder_part(m.encoder) + "] ("@ + size_display(m.size as nat) + " GB)"@
}

/// Appends the folder name of `movie` to `out`.
pub fn push_folder_name(out: &mut String, movie: &Movie)
    ensures
        final(out)@ == old(out)@ + folder_name(movie@),
{
    let ghost m = movie@;
    out.append(movie.title.as_str());
    out.append(" (");
    push_signed(out, movie.year);
    out.append(") [");
    push_signed(out, movie.res);
    out.append("p ");
    out.append(movie.v_codec.as_str());
    out.append(" ");
    out.append(movie.bit_depth.as_str());
    out.append(" ");
    out.append(movie.a_codec.as_str());
    out.append("-");
    let channels = movie.channels.as_str();
    if same_text(channels, "2.0") {
        out.append("stereo");
    } else if same_text(channels, "1.0") {
        out.append("mono");
    } else {
        out.append(channels);
    }
    assert(out@ =~= old(out)@ + (m.title + " ("@ + signed_decimal(m.year as int) + ") ["@
        + signed_decimal(m.res as int) + "p "@ + m.v_codec + " "@ + m.bit_depth + " "@ + m.a_codec
        + "-"@ + channel_word(m.channels)));
    match &movie.encoder {
        Some(tag) => {
            out.append(" ");
            out.append(tag.as_str());
        },
        None => {},
    }
    assert(out@ =~= old(out)@ + (m.title + " ("@ + signed_decimal(m.year as int) + ") ["@
        + signed_decimal(m.res as int) + "p "@ + m.v_codec + " "@ + m.bit_depth + " "@ + m.a_codec
        + "-"@ + channel_word(m.channels) + encoder_part(m.encoder)));
    out.append("] (");
    push_size(out, movie.size);
    out.append(" GB)");
    assert(final(out)@ =~= old(out)@ + folder_name(m));
}

/// The folder name that the record asks for.
pub fn new_name(movie: &Movie) -> (name: String)
    ensures
        name@ == folder_name(movie@),
{
    let mut name = String::new();
    push_folder_name(&mut name, movie);
    assert(name@ =~= folder_name(movie@));
    name
}

/// One folder to rename: its position in the listing and the path it gets.
#[derive(Debug)]
pub struct Rename {
    pub index: usize,
    pub to: String,
}

/// The renames among the first `n` folders: each folder whose path is not the
/// root followed by the folder name of the record at its place, with that path.
pub open spec fn renames_upto(
    root: Seq<char>,
    paths: Seq<Seq<char>>,
    catalog: Seq<MovieData>,
    n: nat,
) -> Seq<(int, Seq<char>)>
    decreases n,
{
    if n == 0 {
        Seq::empty()
    } else {
        let before = renames_upto(root, paths, catalog, (n - 1) as nat);
        let wanted = root + folder_name(catalog[n - 1]);
        if paths[n - 1] == wanted {
            before
        } else {
            before.push((n - 1, wanted))
        }
    }
}

/// What a plan says.
pub open spec fn plan_view(plan: Seq<Rename>) -> Seq<(int, Seq<char>)> {
    plan.map_values(|r: Rename| (r.index as int, r.to@))
}

/// Which folders to rename so that each carries the name of the record at its
/// place. There is no plan where folders and records differ in number.
pub fn rename_plan(root: &str, paths: &Vec<String>, catalog: &Vec<Movie>) -> (plan: Option<
    Vec<Rename>,
>)
    ensures
        match plan {
            Some(p) => paths.len() == catalog.len() && plan_view(p@) == renames_upto(
                root@,
                texts(paths@),
                records(catalog@),
                paths.len() as nat,
            ),
            None => paths.len() != catalog.len(),
        },
{
    if paths.len() != catalog.len() {
        return None;
    }
    let mut plan: Vec<Rename> = Vec::new();
    let mut i: usize = 0;
    assert(plan_view(plan@) =~= Seq::<(int, Seq<char>)>::empty());
    while i < paths.len()
        invariant
            i <= paths.len(),
            paths.len() == catalog.len(),
            plan_view(plan@) == renames_upto(root@, texts(paths@), records(catalog@), i as nat),
        decreases paths.len() - i,
    {
        let mut wanted = String::from_str(root);
        push_folder_name(&mut wanted, &catalog[i]);
        let ghost before = plan_view(plan@);
        if !same_text(paths[i].as_str(), wanted.as_str()) {
            let ghost path = wanted@;
            plan.push(Rename { index: i, to: wanted });
            assert(plan_view(plan@) =~= before.push((i as int, path)));
        }
        i += 1;
    }
    Some(plan)
}

} // verus!
