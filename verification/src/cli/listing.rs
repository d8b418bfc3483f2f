//! `classic ad list` and `classic ad show`: what is printed of an ad.
use crate::cli::error::{CliErr, CliErrView};
use crate::render::{dec, dec_text};
use crate::text::{chars_of, text_of};
use vstd::prelude::*;
use vstd::string::StringExecFns;

verus! {

/// The text with spaces behind it, up to the width.
pub open spec fn padded(s: Seq<char>, w: nat) -> Seq<char> {
    if s.len() >= w {
        s
    } else {
        s + Seq::new((w - s.len()) as nat, |i: int| ' ')
    }
}

/// The text with spaces behind it, up to the width.
pub fn pad(s: &str, w: usize) -> (r: String)
    ensures
        r@ == padded(s@, w as nat),
{
    let mut v = chars_of(s);
    while v.len() < w
        invariant
            v@.len() >= s@.len(),
            v@.len() > s@.len() ==> v@.len() <= w,
            v@ =~= s@ + Seq::new((v@.len() - s@.len()) as nat, |i: int| ' '),
        decreases w - v@.len(),
    {
        v.push(' ');
    }
    assert(v@ =~= padded(s@, w as nat));
    text_of(&v)
}

/// The line for an ad. What the daemon left out of it is shown as `?` or 0.
pub open spec fn ad_text(
    hostname: Option<Seq<char>>,
    generation: Option<u64>,
    gpus: Option<usize>,
) -> Seq<char> {
    let h = if hostname is Some {
        hostname->Some_0
    } else {
        "?"@
    };
    let g: nat = if generation is Some {
        generation->Some_0 as nat
    } else {
        0
    };
    let n: nat = if gpus is Some {
        gpus->Some_0 as nat
    } else {
        0
    };
    padded(h, 24) + " gen="@ + padded(dec(g), 6) + " gpus="@ + dec(n)
}

/// The line for an ad in the listing.
pub fn ad_line(hostname: Option<String>, generation: Option<u64>, gpus: Option<usize>) -> (s:
    String)
    ensures
        s@ == ad_text(
            (match hostname {
                Some(h) => Some(h@),
                None => None,
            }),
            generation,
            gpus,
        ),
{
    let h = match hostname {
        Some(h) => h,
        None => "?".to_owned(),
    };
    let g: u64 = match generation {
        Some(g) => g,
        None => 0,
    };
    let n: u64 = match gpus {
        Some(n) => n as u64,
        None => 0,
    };
    let mut s = pad(h.as_str(), 24);
    s.append(" gen=");
    s.append(pad(dec_text(g).as_str(), 6).as_str());
    s.append(" gpus=");
    s.append(dec_text(n).as_str());
    s
}

/// The line where the daemon knows of no ads.
pub fn no_ads_line() -> (s: String)
    ensures
        s@ == "(no ads)"@,
{
    "(no ads)".to_owned()
}

/// What `ad show` does with the daemon's answer.
#[derive(Debug)]
pub enum Show {
    /// Print the answer.
    Print,
    /// Print the notice on standard error and fail.
    Missing { notice: String, error: CliErr },
}

/// What `ad show` does with the daemon's answer: an answer that is null is
/// printed only where JSON was asked for.
pub fn ad_show(hostname: &str, json: bool, null: bool) -> (r: Show)
    ensures
        r is Print <==> json || !null,
        r matches Show::Missing { notice, error } ==> notice@
            == "classic: no ad found for hostname '"@ + hostname@ + "'"@ && error@
            == CliErrView::Spawn("no ad for "@ + hostname@),
{
    if json || !null {
        return Show::Print;
    }
    let mut notice = "classic: no ad found for hostname '".to_owned();
    notice.append(hostname);
    notice.append("'");
    let mut m = "no ad for ".to_owned();
    m.append(hostname);
    Show::Missing { notice, error: CliErr::Spawn(m) }
}

/// No column of the listing is cut: the line holds the whole hostname at its
/// start, and the generation starts in the same column for every hostname of up
/// to 24 characters.
pub proof fn law_columns(hostname: Seq<char>, generation: Option<u64>, gpus: Option<usize>)
    ensures
        ad_text(Some(hostname), generation, gpus).take(hostname.len() as int) == hostname,
        hostname.len() <= 24 ==> ad_text(Some(hostname), generation, gpus).subrange(24, 29)
            == " gen="@,
{
    let line = ad_text(Some(hostname), generation, gpus);
    reveal_strlit(" gen=");
    assert(line.take(hostname.len() as int) =~= hostname);
    if hostname.len() <= 24 {
        assert(line.subrange(24, 29) =~= " gen="@);
    }
}

} // verus!
