//! Charts: what a chart file says of its work, and whether it can be played.
//!
//! A chart in the text format is a run of bytes in Shift_JIS. It is decoded
//! by `encoding_rs` and parsed by `bms-rs`; what the library reads of the
//! result is kept as a `ChartReading`: the header of the chart and the kinds
//! of the findings made while parsing. A chart with a playing error, or
//! without a note to play, is passed over when the charts of a directory are
//! gathered.

use crate::path::names_of;
use bms_rs::bms::prelude::PlayingWarning;
use bms_rs::bms::{BmsOutput, BmsWarning};
use vstd::prelude::*;

verus! {

/// The result of `bms_rs::bms::parse_bms`, carried from the parser to the
/// functions that read it. Nothing inside it is seen by the proofs.
#[verifier::external_type_specification]
#[verifier::external_body]
pub struct ExBmsOutput(bms_rs::bms::BmsOutput);

/// What a chart says of its work. A line that the chart lacks is `None`.
#[derive(Debug)]
pub struct ChartHeader {
    pub title: Option<String>,
    pub artist: Option<String>,
    pub genre: Option<String>,
}

/// The content of a `ChartHeader`.
pub struct ChartHeaderView {
    pub title: Option<Seq<char>>,
    pub artist: Option<Seq<char>>,
    pub genre: Option<Seq<char>>,
}

/// The text of a line that may be missing.
pub open spec fn line_of(line: Option<String>) -> Option<Seq<char>> {
    match line {
        Some(text) => Some(text@),
        None => None,
    }
}

impl View for ChartHeader {
    type V = ChartHeaderView;

    open spec fn view(&self) -> ChartHeaderView {
        ChartHeaderView {
            title: line_of(self.title),
            artist: line_of(self.artist),
            genre: line_of(self.genre),
        }
    }
}

/// The kind of a finding made while a chart was parsed.
#[derive(Debug, Clone, Copy, PartialEq, Eq, Structural)]
pub enum ChartFinding {
    /// The text could not be cut into tokens as written.
    Lex,
    /// A command could not be taken as written.
    Parse,
    /// The chart has no note to play.
    NoPlayableNotes,
    /// Another warning about playing the chart.
    PlayingWarning,
    /// The chart cannot be played.
    PlayingError,
    /// A finding of a kind not known here.
    Other,
}

/// Whether a finding rules the chart out.
pub open spec fn rules_out(finding: ChartFinding) -> bool {
    finding == ChartFinding::PlayingError || finding == ChartFinding::NoPlayableNotes
}

/// Whether a chart with these findings can be played: none rules it out.
pub open spec fn playable(findings: Seq<ChartFinding>) -> bool {
    forall|i: int| 0 <= i < findings.len() ==> !rules_out(#[trigger] findings[i])
}

/// What was read of one chart.
#[derive(Debug)]
pub struct ChartReading {
    /// The header, where the chart could be parsed.
    pub header: Option<ChartHeader>,
    /// The findings, in the order in which they were made.
    pub findings: Vec<ChartFinding>,
}

/// The text that `bytes` stand for when decoded as Shift_JIS, a byte order
/// mark at their head deciding otherwise.
pub uninterp spec fn shift_jis_text(bytes: Seq<u8>) -> Seq<char>;

/// The text of `bytes`, decoded by `encoding_rs::Encoding::decode` on
/// `encoding_rs::SHIFT_JIS`. The call decodes the whole input, replaces what
/// is malformed, and depends on the bytes alone; its result is named, not
/// described. The bound keeps the size of the buffer that the call reserves,
/// at most three bytes for each byte of input and three more, within what
/// can be allocated.
#[verifier::external_body]
pub(crate) fn decode_shift_jis(bytes: &[u8]) -> (text: String)
    requires
        bytes@.len() < usize::MAX / 8,
    ensures
        text@ == shift_jis_text(bytes@),
{
    let (text, _encoding, _had_errors) = encoding_rs::SHIFT_JIS.decode(bytes);
    text.into_owned()
}

/// The chart parsed from `text` by `bms_rs::bms::parse_bms` with
/// `bms_rs::bms::default_config`. That configuration draws the random
/// branches of a chart from a generator seeded by the system, so two calls
/// on one text may differ: nothing is promised of the result.
#[verifier::external_body]
pub(crate) fn parse_chart(text: &str) -> BmsOutput {
    bms_rs::bms::parse_bms(text, bms_rs::bms::default_config())
}

/// The title, artist and genre of a parsed chart, copied from the
/// `music_info` of `BmsOutput::bms`; `None` where parsing failed.
#[verifier::external_body]
pub(crate) fn parsed_header(output: &BmsOutput) -> Option<ChartHeader> {
    let bms = output.bms.as_ref().ok()?;
    Some(ChartHeader {
        title: bms.music_info.title.clone(),
        artist: bms.music_info.artist.clone(),
        genre: bms.music_info.genre.clone(),
    })
}

/// The kinds of `BmsOutput::warnings`, one for each warning and in their
/// order, each told by its variant alone.
#[verifier::external_body]
pub(crate) fn parsed_findings(output: &BmsOutput) -> Vec<ChartFinding> {
    output.warnings.iter().map(|warning| match warning {
        BmsWarning::Lex(_) => ChartFinding::Lex,
        BmsWarning::Parse(_) => ChartFinding::Parse,
        BmsWarning::PlayingWarning(PlayingWarning::NoPlayableNotes) => {
            ChartFinding::NoPlayableNotes
        },
        BmsWarning::PlayingWarning(_) => ChartFinding::PlayingWarning,
        BmsWarning::PlayingError(_) => ChartFinding::PlayingError,
        _ => ChartFinding::Other,
    }).collect()
}

/// Reads a chart in the text format from the bytes of its file. What comes
/// back is what the parser made of the decoded text; since the parser draws
/// random numbers, it is pinned down only by `is_playable` and
/// `into_header`, which say what follows from each reading.
pub fn read_bms_chart(bytes: &[u8]) -> (reading: ChartReading)
    requires
        bytes@.len() < usize::MAX / 8,
{
    let text = decode_shift_jis(bytes);
    let output = parse_chart(text.as_str());
    ChartReading { header: parsed_header(&output), findings: parsed_findings(&output) }
}

impl ChartReading {
    /// Whether the chart can be played.
    pub fn is_playable(&self) -> (r: bool)
        ensures
            r == playable(self.findings@),
    {
        let mut i: usize = 0;
        while i < self.findings.len()
            invariant
                i <= self.findings.len(),
                forall|j: int| 0 <= j < i ==> !rules_out(#[trigger] self.findings@[j]),
            decreases self.findings.len() - i,
        {
            match self.findings[i] {
                ChartFinding::PlayingError | ChartFinding::NoPlayableNotes => {
                    assert(rules_out(self.findings@[i as int]));
                    return false;
                },
                _ => {},
            }
            i += 1;
        }
        true
    }

    /// The header of a chart that was parsed and can be played; `None` for
    /// any other.
    pub fn into_header(self) -> (r: Option<ChartHeader>)
        ensures
            r == if playable(self.findings@) {
                self.header
            } else {
                None
            },
    {
        if self.is_playable() {
            self.header
        } else {
            None
        }
    }
}

/// The lines that are there, in their order.
pub open spec fn present(lines: Seq<Option<Seq<char>>>) -> Seq<Seq<char>>
    decreases lines.len(),
{
    if lines.len() == 0 {
        Seq::empty()
    } else {
        let before = present(lines.drop_last());
        match lines.last() {
            Some(text) => before.push(text),
            None => before,
        }
    }
}

/// One of the lines of a header.
#[derive(Debug, Clone, Copy, PartialEq, Eq, Structural)]
pub enum HeaderLine {
    Title,
    Artist,
    Genre,
}

/// The line `which` of a header.
pub open spec fn line(header: ChartHeaderView, which: HeaderLine) -> Option<Seq<char>> {
    match which {
        HeaderLine::Title => header.title,
        HeaderLine::Artist => header.artist,
        HeaderLine::Genre => header.genre,
    }
}

/// The line `which` of each of `headers`.
pub open spec fn lines(headers: Seq<ChartHeader>, which: HeaderLine) -> Seq<Option<Seq<char>>> {
    Seq::new(headers.len(), |i: int| line(headers[i]@, which))
}

/// The line `which` of the charts that state it, in the order of the charts.
pub fn stated_lines(headers: &Vec<ChartHeader>, which: HeaderLine) -> (r: Vec<String>)
    ensures
        names_of(r@) == present(lines(headers@, which)),
{
    let mut out: Vec<String> = Vec::new();
    let mut i: usize = 0;
    while i < headers.len()
        invariant
            i <= headers.len(),
            names_of(out@) == present(lines(headers@, which).take(i as int)),
        decreases headers.len() - i,
    {
        proof {
            assert(lines(headers@, which).take(i + 1).drop_last() == lines(headers@, which).take(
                i as int,
            ));
        }
        let ghost before = out@;
        let stated = match which {
            HeaderLine::Title => &headers[i].title,
            HeaderLine::Artist => &headers[i].artist,
            HeaderLine::Genre => &headers[i].genre,
        };
        match stated {
            Some(text) => {
                out.push(text.clone());
                assert(names_of(out@) == names_of(before).push(text@));
            },
            None => {},
        }
        i += 1;
    }
    proof {
        assert(lines(headers@, which).take(i as int) == lines(headers@, which));
    }
    out
}

} // verus!
