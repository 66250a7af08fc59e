//! The record of a run of lookups, and the text cache that a run leaves
//! behind.
//!
//! The lookups themselves are made elsewhere. For each reference the caller
//! asks `FetchLog::begin` what to look up, and hands the answer of the lookup
//! service to `FetchLog::record`, which says what to append to the cache.

use vstd::prelude::*;
use vstd::string::StringExecFns;
use crate::beatmap_link::{extract_beatmap_id, reference_id, url_parts};
use crate::decimal::{decimal_digits, decimal_u32, format_u32};
use crate::text::{chars_of, trim, trim_end, trim_start, trimmed};
use crate::validator::{is_checksum, is_hex_digit};

verus! {

/// The reason recorded for a reference that names no beatmap.
pub const INVALID_URL: &'static str = "Invalid URL format";

/// The reason recorded for a beatmap that the service knows without checksum.
pub const MISSING_CHECKSUM: &'static str = "Missing checksum";

/// What the lookup service knows of a beatmap.
#[derive(Debug, PartialEq, Eq)]
pub struct BeatmapInfo {
    /// The checksum of the beatmap's file.
    pub checksum: String,
    /// The set that the beatmap belongs to.
    pub mapset_id: u32,
}

/// What the lookup service answered for one beatmap.
#[derive(Debug, PartialEq, Eq)]
pub enum Answer {
    /// The beatmap is known.
    Found { checksum: Option<String>, mapset_id: u32 },
    /// The lookup failed, for the reason given.
    Failed { reason: String },
}

/// A reference that gave no checksum, and why.
#[derive(Debug, PartialEq, Eq)]
pub struct Failure {
    pub reference: String,
    pub reason: String,
}

/// The record of a run: what was found and what failed, each in the order of
/// the references.
#[derive(Debug, PartialEq, Eq)]
pub struct FetchLog {
    pub results: Vec<BeatmapInfo>,
    pub failures: Vec<Failure>,
}

/// What an `Answer` is, mathematically.
pub enum AnswerView {
    Found { checksum: Option<Seq<char>>, mapset_id: u32 },
    Failed { reason: Seq<char> },
}

/// What a `FetchLog` is, mathematically: checksums with their sets, and
/// references with the reasons of their failure.
pub struct FetchLogView {
    pub results: Seq<(Seq<char>, u32)>,
    pub failures: Seq<(Seq<char>, Seq<char>)>,
}

impl View for Answer {
    type V = AnswerView;

    open spec fn view(&self) -> AnswerView {
        match self {
            Answer::Found { checksum, mapset_id } => AnswerView::Found {
                checksum: checksum.deep_view(),
                mapset_id: *mapset_id,
            },
            Answer::Failed { reason } => AnswerView::Failed { reason: reason@ },
        }
    }
}

impl View for FetchLog {
    type V = FetchLogView;

    open spec fn view(&self) -> FetchLogView {
        FetchLogView {
            results: self.results@.map_values(|b: BeatmapInfo| (b.checksum@, b.mapset_id)),
            failures: self.failures@.map_values(|f: Failure| (f.reference@, f.reason@)),
        }
    }
}

/// The line of the cache for a checksum and its set: the checksum, a bar, the
/// set in decimal and a line feed.
pub open spec fn cache_line(checksum: Seq<char>, mapset_id: u32) -> Seq<char> {
    checksum + seq!['|'] + decimal_digits(mapset_id as nat) + seq!['\n']
}

/// What comes before the first `sep` in `s`; all of `s` where it has none.
pub open spec fn before(s: Seq<char>, sep: char) -> Seq<char>
    decreases s.len(),
{
    if s.len() == 0 || s[0] == sep {
        Seq::empty()
    } else {
        seq![s[0]] + before(s.skip(1), sep)
    }
}

/// The checksum that a line of the cache holds: what comes before its first
/// bar, trimmed, unless that is empty.
pub open spec fn cached_hash(line: Seq<char>) -> Option<Seq<char>> {
    let field = trim(before(line, '|'));
    if field.len() == 0 {
        None
    } else {
        Some(field)
    }
}

/// The reference that a line of the list of links holds: the line trimmed,
/// unless that is empty or a comment, which starts with `#`.
pub open spec fn link_of(line: Seq<char>) -> Option<Seq<char>> {
    let t = trim(line);
    if t.len() == 0 || t[0] == '#' {
        None
    } else {
        Some(t)
    }
}

/// The log after a reference that names no beatmap.
pub open spec fn after_skip(log: FetchLogView, reference: Seq<char>) -> FetchLogView {
    FetchLogView { results: log.results, failures: log.failures.push((reference, INVALID_URL@)) }
}

/// The log after the answer to the lookup of `reference`.
pub open spec fn after_answer(
    log: FetchLogView,
    reference: Seq<char>,
    answer: AnswerView,
) -> FetchLogView {
    match answer {
        AnswerView::Found { checksum: Some(c), mapset_id } => FetchLogView {
            results: log.results.push((c, mapset_id)),
            failures: log.failures,
        },
        AnswerView::Found { checksum: None, .. } => FetchLogView {
            results: log.results,
            failures: log.failures.push((reference, MISSING_CHECKSUM@)),
        },
        AnswerView::Failed { reason } => FetchLogView {
            results: log.results,
            failures: log.failures.push((reference, reason)),
        },
    }
}

/// The line that an answer adds to the cache, if it adds one.
pub open spec fn line_for(answer: AnswerView) -> Option<Seq<char>> {
    match answer {
        AnswerView::Found { checksum: Some(c), mapset_id } => Some(cache_line(c, mapset_id)),
        _ => None,
    }
}

/// A text without `sep` comes before the `sep` that follows it.
pub proof fn lemma_before_separator(field: Seq<char>, sep: char, rest: Seq<char>)
    requires
        forall|i: int| 0 <= i < field.len() ==> #[trigger] field[i] != sep,
    ensures
        before(field + seq![sep] + rest, sep) == field,
    decreases field.len(),
{
    let s = field + seq![sep] + rest;
    if field.len() == 0 {
        assert(s[0] == sep);
        assert(field =~= Seq::<char>::empty());
    } else {
        let tail = field.skip(1);
        assert(s[0] == field[0]);
        assert(s.skip(1) =~= tail + seq![sep] + rest);
        assert forall|i: int| 0 <= i < tail.len() implies #[trigger] tail[i] != sep by {
            assert(tail[i] == field[i + 1]);
        }
        lemma_before_separator(tail, sep, rest);
        assert(seq![field[0]] + tail =~= field);
    }
}

/// The cache gives back what was put into it: the line written for a checksum
/// and its set holds that checksum.
pub proof fn lemma_cache_line_roundtrip(checksum: Seq<char>, mapset_id: u32)
    requires
        is_checksum(checksum),
    ensures
        cached_hash(cache_line(checksum, mapset_id)) == Some(checksum),
{
    let rest = decimal_digits(mapset_id as nat) + seq!['\n'];
    assert(cache_line(checksum, mapset_id) =~= checksum + seq!['|'] + rest);
    assert forall|i: int| 0 <= i < checksum.len() implies #[trigger] checksum[i] != '|' by {
        assert(is_hex_digit(checksum[i]));
    }
    lemma_before_separator(checksum, '|', rest);
    assert(is_hex_digit(checksum[0]));
    assert(is_hex_digit(checksum.last()));
    assert(trim_start(checksum) == checksum);
    assert(trim_end(checksum) == checksum);
}

impl FetchLog {
    /// The log of a run that has not started.
    pub fn new() -> (log: FetchLog)
        ensures
            log@.results.len() == 0,
            log@.failures.len() == 0,
    {
        FetchLog { results: Vec::new(), failures: Vec::new() }
    }

    /// Says which beatmap to look up for `reference`. Where it names none,
    /// that is recorded as a failure, and nothing is to be looked up.
    pub fn begin(&mut self, reference: &str) -> (id: Option<u32>)
        ensures
            id == reference_id(decimal_u32(reference@), url_parts(reference@)),
            id is Some ==> final(self)@ == old(self)@,
            id is None ==> final(self)@ == after_skip(old(self)@, reference@),
    {
        let id = extract_beatmap_id(reference);
        if id.is_none() {
            let ghost before = self.failures@.map_values(|f: Failure| (f.reference@, f.reason@));
            self.failures.push(
                Failure { reference: reference.to_owned(), reason: INVALID_URL.to_owned() },
            );
            assert(self@.failures =~= before.push((reference@, INVALID_URL@)));
        }
        id
    }

    /// Records the answer to the lookup of `reference`, and returns the line
    /// that the answer adds to the cache, if it adds one.
    pub fn record(&mut self, reference: &str, answer: Answer) -> (line: Option<String>)
        ensures
            final(self)@ == after_answer(old(self)@, reference@, answer@),
            line.deep_view() == line_for(answer@),
    {
        let ghost failures = self.failures@.map_values(|f: Failure| (f.reference@, f.reason@));
        let ghost results = self.results@.map_values(|b: BeatmapInfo| (b.checksum@, b.mapset_id));
        match answer {
            Answer::Found { checksum: Some(checksum), mapset_id } => {
                let info = BeatmapInfo { checksum, mapset_id };
                let line = line_of(&info);
                self.results.push(info);
                assert(self@.results =~= results.push((info.checksum@, mapset_id)));
                Some(line)
            },
            Answer::Found { checksum: None, mapset_id: _ } => {
                self.failures.push(
                    Failure {
                        reference: reference.to_owned(),
                        reason: MISSING_CHECKSUM.to_owned(),
                    },
                );
                assert(self@.failures =~= failures.push((reference@, MISSING_CHECKSUM@)));
                None
            },
            Answer::Failed { reason } => {
                let ghost text = reason@;
                self.failures.push(Failure { reference: reference.to_owned(), reason });
                assert(self@.failures =~= failures.push((reference@, text)));
                None
            },
        }
    }
}

/// The line of the cache for `info`.
pub fn line_of(info: &BeatmapInfo) -> (line: String)
    ensures
        line@ == cache_line(info.checksum@, info.mapset_id),
{
    proof {
        reveal_strlit("|");
        reveal_strlit("\n");
    }
    let mut line = info.checksum.clone();
    line.append("|");
    line.append(format_u32(info.mapset_id).as_str());
    line.append("\n");
    assert(line@ =~= cache_line(info.checksum@, info.mapset_id));
    line
}

/// What comes before the first `sep` in `s`.
pub fn field_before(s: &str, sep: char) -> (field: &str)
    ensures
        field@ == before(s@, sep),
{
    let chars = chars_of(s);
    let n = chars.len();
    let mut k: usize = 0;
    assert(s@.take(0) + before(s@.skip(0), sep) =~= before(s@, sep)) by {
        assert(s@.skip(0) =~= s@);
    }
    while k < n && chars[k] != sep
        invariant
            k <= n,
            n == chars@.len(),
            chars@ == s@,
            before(s@, sep) == s@.take(k as int) + before(s@.skip(k as int), sep),
        decreases n - k,
    {
        let ghost rest = s@.skip(k as int);
        assert(rest[0] == s@[k as int]);
        assert(rest.skip(1) =~= s@.skip(k + 1));
        assert(s@.take(k as int) + (seq![rest[0]] + before(rest.skip(1), sep)) =~= s@.take(k + 1)
            + before(s@.skip(k + 1), sep));
        k += 1;
    }
    proof {
        let rest = s@.skip(k as int);
        if k < n {
            assert(rest[0] == s@[k as int]);
        }
        assert(before(rest, sep) =~= Seq::<char>::empty());
        assert(s@.take(k as int) + Seq::<char>::empty() =~= s@.subrange(0, k as int));
    }
    s.substring_char(0, k)
}

/// The checksum that a line of the cache holds.
pub fn hash_of_line(line: &str) -> (hash: Option<String>)
    ensures
        hash.deep_view() == cached_hash(line@),
{
    let field = trimmed(field_before(line, '|'));
    if field.is_empty() {
        None
    } else {
        Some(field.to_owned())
    }
}

/// The reference that a line of the list of links holds.
pub fn link_of_line(line: &str) -> (link: Option<String>)
    ensures
        link.deep_view() == link_of(line@),
{
    let t = trimmed(line);
    if t.is_empty() || t.get_char(0) == '#' {
        None
    } else {
        Some(t.to_owned())
    }
}

} // verus!
