//! References to beatmaps as people write them: a bare number, or a link to
//! the beatmap's page.
//!
//! A link names the beatmap in its path (`/beatmaps/{id}`, `/b/{id}`) or after
//! the mode in its fragment (`/beatmapsets/{set}#{mode}/{id}`).

use vstd::prelude::*;
use crate::decimal::{decimal_u32, parse_u32, parse_u32_chars};
use crate::text::chars_of;

verus! {

/// What is read of a parsed URL.
pub struct UrlParts {
    /// The pieces of the path between slashes; `None` for a URL that cannot
    /// be a base.
    pub segments: Option<Vec<String>>,
    /// What follows `#`, if the URL has one.
    pub fragment: Option<String>,
}

/// What a `UrlParts` is, mathematically.
pub struct UrlPartsView {
    pub segments: Option<Seq<Seq<char>>>,
    pub fragment: Option<Seq<char>>,
}

impl View for UrlParts {
    type V = UrlPartsView;

    open spec fn view(&self) -> UrlPartsView {
        UrlPartsView { segments: self.segments.deep_view(), fragment: self.fragment.deep_view() }
    }
}

/// The path segments and the fragment that the `url` crate finds in `input`,
/// or `None` where it does not take `input` for an absolute URL.
pub uninterp spec fn url_parts(input: Seq<char>) -> Option<UrlPartsView>;

/// `url::Url::parse`, followed by `Url::path_segments` and `Url::fragment` on
/// the URL that it returns. The contract gives the outcome a name and claims
/// only that it depends on `input` alone. Assumed, not proved.
#[verifier::external_body]
fn split_url(input: &str) -> (r: Option<UrlParts>)
    ensures
        match r {
            Some(parts) => url_parts(input@) == Some(parts@),
            None => url_parts(input@) is None,
        },
{
    match url::Url::parse(input) {
        Ok(parsed) => Some(
            UrlParts {
                segments: parsed.path_segments().map(|it| it.map(String::from).collect()),
                fragment: parsed.fragment().map(String::from),
            },
        ),
        Err(_) => None,
    }
}

/// The pieces of `s` between its slashes: one more than it has slashes.
pub open spec fn split_slash(s: Seq<char>) -> Seq<Seq<char>>
    decreases s.len(),
{
    if s.len() == 0 {
        seq![Seq::empty()]
    } else {
        let front = split_slash(s.drop_last());
        if s.last() == '/' {
            front.push(Seq::empty())
        } else {
            front.drop_last().push(front.last().push(s.last()))
        }
    }
}

/// What the path says. `Some(r)`: the first segment is `beatmaps` or `b` and a
/// second one follows, which decides whether it is a number or not. `None`:
/// the path says nothing.
pub open spec fn path_id(segments: Option<Seq<Seq<char>>>) -> Option<Option<u32>> {
    match segments {
        Some(segs) => if segs.len() >= 2 && (segs[0] == "beatmaps"@ || segs[0] == "b"@) {
            Some(decimal_u32(segs[1]))
        } else {
            None
        },
        None => None,
    }
}

/// What the fragment says: the number after its one slash.
pub open spec fn fragment_id(fragment: Option<Seq<char>>) -> Option<u32> {
    match fragment {
        Some(f) => if split_slash(f).len() == 2 {
            decimal_u32(split_slash(f)[1])
        } else {
            None
        },
        None => None,
    }
}

/// The beatmap that a parsed link names: what the path says, and where it says
/// nothing, what the fragment says.
pub open spec fn link_id(parts: UrlPartsView) -> Option<u32> {
    match path_id(parts.segments) {
        Some(r) => r,
        None => fragment_id(parts.fragment),
    }
}

/// The beatmap that a reference names, given the number it writes, if it
/// writes one, and what its parsing as a URL gave.
pub open spec fn reference_id(direct: Option<u32>, parts: Option<UrlPartsView>) -> Option<u32> {
    match direct {
        Some(id) => Some(id),
        None => match parts {
            Some(p) => link_id(p),
            None => None,
        },
    }
}

/// The character sequences that `pieces` hold.
pub open spec fn pieces_view(pieces: Seq<Vec<char>>) -> Seq<Seq<char>> {
    pieces.map_values(|p: Vec<char>| p@)
}

/// The pieces of `s` between its slashes.
pub fn split_at_slashes(s: &str) -> (pieces: Vec<Vec<char>>)
    ensures
        pieces_view(pieces@) == split_slash(s@),
{
    let chars = chars_of(s);
    let n = chars.len();
    let mut done: Vec<Vec<char>> = Vec::new();
    let mut current: Vec<char> = Vec::new();
    let mut i: usize = 0;
    assert(s@.take(0) =~= Seq::<char>::empty());
    assert(pieces_view(done@).push(current@) =~= split_slash(s@.take(0)));
    while i < n
        invariant
            i <= n,
            n == chars@.len(),
            chars@ == s@,
            pieces_view(done@).push(current@) == split_slash(s@.take(i as int)),
        decreases n - i,
    {
        let c: char = chars[i];
        let ghost front = split_slash(s@.take(i as int));
        let ghost old_done = pieces_view(done@);
        let ghost old_current = current@;
        proof {
            let next = s@.take(i + 1);
            assert(next.drop_last() =~= s@.take(i as int));
            assert(next.last() == c);
            assert(front.last() == old_current);
            assert(front.drop_last() =~= old_done);
        }
        if c == '/' {
            done.push(current);
            current = Vec::new();
            assert(pieces_view(done@) =~= old_done.push(old_current));
        } else {
            current.push(c);
        }
        i += 1;
    }
    assert(s@.take(n as int) =~= s@);
    let ghost last = current@;
    let ghost before = pieces_view(done@);
    done.push(current);
    assert(pieces_view(done@) =~= before.push(last));
    done
}

/// The beatmap that a parsed link names.
pub fn id_from_parts(parts: &UrlParts) -> (r: Option<u32>)
    ensures
        r == link_id(parts@),
{
    match &parts.segments {
        Some(segs) => {
            assert(parts@.segments == Some(segs.deep_view()));
            if segs.len() >= 2 {
                let first = &segs[0];
                let long = "beatmaps".to_owned();
                let short = "b".to_owned();
                assert(segs.deep_view()[0] == first@);
                assert(segs.deep_view()[1] == segs@[1]@);
                if *first == long || *first == short {
                    return parse_u32(segs[1].as_str());
                }
            }
        },
        None => {},
    }
    assert(path_id(parts@.segments) is None);
    match &parts.fragment {
        Some(f) => {
            let pieces = split_at_slashes(f.as_str());
            if pieces.len() == 2 {
                assert(pieces_view(pieces@)[1] == pieces@[1]@);
                parse_u32_chars(pieces[1].as_slice())
            } else {
                None
            }
        },
        None => None,
    }
}

/// The beatmap that `url_str` names: the number it writes, or else the one
/// that it names as a link.
pub fn extract_beatmap_id(url_str: &str) -> (r: Option<u32>)
    ensures
        r == reference_id(decimal_u32(url_str@), url_parts(url_str@)),
{
    match parse_u32(url_str) {
        Some(id) => Some(id),
        None => match split_url(url_str) {
            Some(parts) => id_from_parts(&parts),
            None => None,
        },
    }
}

} // verus!
