//! What a program prints of a run and of a search, line by line.

use crate::api::SyncStats;
use crate::paths::{display_text, displayed, path_bytes};
use crate::search::{SearchHit, SearchResults};
use crate::text::{append_decimal, decimal};
use std::path::Path;
use vstd::prelude::*;
use vstd::string::*;

verus! {

/// How a summary calls the files that are indexed by their names alone.
#[derive(Debug, Clone, Copy, PartialEq, Eq, Structural)]
pub enum SummaryWording {
    Skipped,
    MetadataOnly,
}

impl SummaryWording {
    pub open spec fn oversized(self) -> Seq<char> {
        match self {
            SummaryWording::Skipped => "Skipped oversized files (> "@,
            SummaryWording::MetadataOnly => "Metadata-only files due to size limit (> "@,
        }
    }

    pub open spec fn binary(self) -> Seq<char> {
        match self {
            SummaryWording::Skipped => "Skipped binary/non-UTF8 files: "@,
            SummaryWording::MetadataOnly => "Metadata-only binary/non-UTF8 files: "@,
        }
    }

    fn oversized_label(self) -> (label: &'static str)
        ensures
            label@ == self.oversized(),
    {
        match self {
            SummaryWording::Skipped => "Skipped oversized files (> ",
            SummaryWording::MetadataOnly => "Metadata-only files due to size limit (> ",
        }
    }

    fn binary_label(self) -> (label: &'static str)
        ensures
            label@ == self.binary(),
    {
        match self {
            SummaryWording::Skipped => "Skipped binary/non-UTF8 files: ",
            SummaryWording::MetadataOnly => "Metadata-only binary/non-UTF8 files: ",
        }
    }
}

/// The summary of a run.
pub open spec fn summary(
    root: Seq<char>,
    index: Seq<char>,
    stats: SyncStats,
    max_file_bytes: u64,
    wording: SummaryWording,
) -> Seq<Seq<char>> {
    seq![
        "Indexed root: "@ + root,
        "Index data: "@ + index,
        "Scanned files: "@ + decimal(stats.scanned_files as nat),
        "Indexed/updated documents: "@ + decimal(stats.indexed_or_updated as nat),
        "Deleted documents: "@ + decimal(
            (stats.deleted_missing + stats.deleted_became_unsupported) as nat,
        ),
        "Skipped unchanged indexed files: "@ + decimal(stats.unchanged_indexed as nat),
        "Skipped unchanged unsupported files: "@ + decimal(stats.unchanged_skipped as nat),
        wording.oversized() + decimal(max_file_bytes as nat) + " bytes): "@ + decimal(
            stats.skipped_too_large as nat,
        ),
        wording.binary() + decimal(stats.skipped_binary as nat),
        "Read errors: "@ + decimal(stats.read_errors as nat),
        "Walk errors: "@ + decimal(stats.walk_errors as nat),
    ]
}

fn labeled(label: &str, text: &str) -> (line: String)
    ensures
        line@ == label@ + text@,
{
    let mut line = label.to_string();
    line.append(text);
    line
}

fn counted_line(label: &str, count: u64) -> (line: String)
    ensures
        line@ == label@ + decimal(count as nat),
{
    let mut line = label.to_string();
    append_decimal(&mut line, count);
    line
}

/// The summary of a run on `root` with its index in the directory `index`.
pub fn summary_lines(
    root: &Path,
    index: &Path,
    stats: &SyncStats,
    max_file_bytes: u64,
    wording: SummaryWording,
) -> (lines: Vec<String>)
    requires
        stats.deleted_missing + stats.deleted_became_unsupported <= u64::MAX,
    ensures
        lines.deep_view() == summary(
            displayed(path_bytes(root)),
            displayed(path_bytes(index)),
            *stats,
            max_file_bytes,
            wording,
        ),
{
    let mut oversized = counted_line(wording.oversized_label(), max_file_bytes);
    oversized.append(" bytes): ");
    append_decimal(&mut oversized, stats.skipped_too_large);
    let lines: Vec<String> = vec![
        labeled("Indexed root: ", display_text(root).as_str()),
        labeled("Index data: ", display_text(index).as_str()),
        counted_line("Scanned files: ", stats.scanned_files),
        counted_line("Indexed/updated documents: ", stats.indexed_or_updated),
        counted_line("Deleted documents: ", stats.deleted_total()),
        counted_line("Skipped unchanged indexed files: ", stats.unchanged_indexed),
        counted_line("Skipped unchanged unsupported files: ", stats.unchanged_skipped),
        oversized,
        counted_line(wording.binary_label(), stats.skipped_binary),
        counted_line("Read errors: ", stats.read_errors),
        counted_line("Walk errors: ", stats.walk_errors),
    ];
    assert(lines.deep_view() =~= summary(
        displayed(path_bytes(root)),
        displayed(path_bytes(index)),
        *stats,
        max_file_bytes,
        wording,
    ));
    lines
}

/// The line of a timing.
pub open spec fn timing_line(timing: (String, String)) -> Seq<char> {
    timing.0@ + ": "@ + timing.1@
}

/// The line of a hit.
pub open spec fn hit_line(hit: SearchHit) -> Seq<char> {
    decimal(hit.rank as nat) + ". "@ + hit.path@
}

/// What is printed of a search.
pub open spec fn results_text(results: SearchResults, show_timings: bool) -> Seq<Seq<char>> {
    seq![
        "Query: "@ + results.query@,
        "Found "@ + decimal(results.candidate_count as nat) + " matching documents."@,
    ] + (if show_timings {
        results.timings@.map_values(|timing: (String, String)| timing_line(timing))
    } else {
        Seq::empty()
    }) + results.hits@.map_values(|hit: SearchHit| hit_line(hit))
}

/// What is printed of a search, with or without its timings.
pub fn results_lines(results: &SearchResults, show_timings: bool) -> (lines: Vec<String>)
    ensures
        lines.deep_view() == results_text(*results, show_timings),
{
    let mut found = counted_line("Found ", results.candidate_count);
    found.append(" matching documents.");
    let mut lines: Vec<String> = vec![labeled("Query: ", results.query.as_str()), found];
    let ghost head = seq![
        "Query: "@ + results.query@,
        "Found "@ + decimal(results.candidate_count as nat) + " matching documents."@,
    ];
    assert(lines.deep_view() =~= head);
    let ghost timings = results.timings@.map_values(|timing: (String, String)| timing_line(timing));
    if show_timings {
        for i in 0..results.timings.len()
            invariant
                timings == results.timings@.map_values(
                    |timing: (String, String)| timing_line(timing),
                ),
                lines.deep_view() == head + timings.take(i as int),
        {
            let ghost before = lines.deep_view();
            let (name, value) = &results.timings[i];
            let mut line = labeled(name.as_str(), ": ");
            line.append(value.as_str());
            lines.push(line);
            assert(lines.deep_view() =~= before.push(line@));
            assert(lines.deep_view() =~= head + timings.take(i + 1));
        }
        assert(timings.take(timings.len() as int) =~= timings);
    }
    let ghost shown = if show_timings {
        head + timings
    } else {
        head
    };
    let ghost hits = results.hits@.map_values(|hit: SearchHit| hit_line(hit));
    assert(lines.deep_view() =~= shown + hits.take(0));
    for i in 0..results.hits.len()
        invariant
            hits == results.hits@.map_values(|hit: SearchHit| hit_line(hit)),
            lines.deep_view() == shown + hits.take(i as int),
    {
        let ghost before = lines.deep_view();
        let hit = &results.hits[i];
        let mut line = counted_line("", hit.rank as u64);
        proof {
            reveal_strlit("");
            assert(""@ + decimal(hit.rank as nat) =~= decimal(hit.rank as nat));
        }
        line.append(". ");
        line.append(hit.path.as_str());
        lines.push(line);
        assert(lines.deep_view() =~= before.push(line@));
        assert(lines.deep_view() =~= shown + hits.take(i + 1));
    }
    assert(hits.take(hits.len() as int) =~= hits);
    assert(lines.deep_view() =~= results_text(*results, show_timings));
    lines
}

/// Each hit has a line of its own, in the order of the hits and after all other lines: its rank in
/// decimal, and at the end its path.
pub proof fn law_each_hit_is_printed_with_its_path(
    results: SearchResults,
    show_timings: bool,
    i: int,
)
    requires
        0 <= i < results.hits@.len(),
    ensures
        ({
            let lines = results_text(results, show_timings);
            let line = lines[lines.len() - results.hits@.len() + i];
            let rank = decimal(results.hits@[i].rank as nat);
            &&& lines.len() >= results.hits@.len() + 2
            &&& rank.is_prefix_of(line)
            &&& results.hits@[i].path@.is_suffix_of(line)
            &&& line.len() == rank.len() + 2 + results.hits@[i].path@.len()
            &&& line[rank.len() as int] == '.' && line[rank.len() as int + 1] == ' '
        }),
{
    reveal_strlit(". ");
    let lines = results_text(results, show_timings);
    let hit = results.hits@[i];
    let line = lines[lines.len() - results.hits@.len() + i];
    let rank = decimal(hit.rank as nat);
    assert(line == rank + ". "@ + hit.path@);
    assert(rank =~= line.subrange(0, rank.len() as int));
    assert(hit.path@ =~= line.subrange(line.len() - hit.path@.len(), line.len() as int));
}

/// Before the hits come the query, the number of documents that match, and the timings, each with
/// its name and its value, where they are asked for.
pub proof fn law_search_is_printed_with_query_and_count(results: SearchResults, show_timings: bool)
    ensures
        ({
            let lines = results_text(results, show_timings);
            &&& lines.len() == 2 + results.hits@.len() + if show_timings {
                results.timings@.len() as int
            } else {
                0
            }
            &&& results.query@.is_suffix_of(lines[0])
            &&& names(lines[1], decimal(results.candidate_count as nat))
            &&& show_timings ==> forall|i: int|
                0 <= i < results.timings@.len() ==> {
                    &&& (#[trigger] results.timings@[i]).0@.is_prefix_of(lines[2 + i])
                    &&& results.timings@[i].1@.is_suffix_of(lines[2 + i])
                }
        }),
{
    let lines = results_text(results, show_timings);
    let query = results.query@;
    assert(lines[0] == "Query: "@ + query);
    assert(query =~= lines[0].subrange(lines[0].len() - query.len(), lines[0].len() as int));
    let count = decimal(results.candidate_count as nat);
    assert(lines[1] == "Found "@ + count + " matching documents."@);
    if show_timings {
        assert forall|i: int| 0 <= i < results.timings@.len() implies {
            &&& (#[trigger] results.timings@[i]).0@.is_prefix_of(lines[2 + i])
            &&& results.timings@[i].1@.is_suffix_of(lines[2 + i])
        } by {
            let (name, value) = results.timings@[i];
            let line = lines[2 + i];
            assert(line == name@ + ": "@ + value@);
            assert(name@ =~= line.subrange(0, name@.len() as int));
            assert(value@ =~= line.subrange(line.len() - value@.len(), line.len() as int));
        }
    }
}

/// The text holds another somewhere.
pub open spec fn names(text: Seq<char>, part: Seq<char>) -> bool {
    exists|head: Seq<char>, rest: Seq<char>| text == #[trigger] (head + part + rest)
}

/// The summary of a run ends each of its lines with the figure that the line is about: the root and
/// the index directory, and then the files scanned, indexed, deleted for whatever reason, unchanged,
/// unchanged without contents, too large, binary, unreadable, and the errors of the walk. The line of
/// the files that are too large names the limit.
pub proof fn law_summary_shows_the_figures(
    root: Seq<char>,
    index: Seq<char>,
    stats: SyncStats,
    max_file_bytes: u64,
    wording: SummaryWording,
)
    ensures
        ({
            let lines = summary(root, index, stats, max_file_bytes, wording);
            &&& lines.len() == 11
            &&& root.is_suffix_of(lines[0])
            &&& index.is_suffix_of(lines[1])
            &&& decimal(stats.scanned_files as nat).is_suffix_of(lines[2])
            &&& decimal(stats.indexed_or_updated as nat).is_suffix_of(lines[3])
            &&& decimal(
                (stats.deleted_missing + stats.deleted_became_unsupported) as nat,
            ).is_suffix_of(lines[4])
            &&& decimal(stats.unchanged_indexed as nat).is_suffix_of(lines[5])
            &&& decimal(stats.unchanged_skipped as nat).is_suffix_of(lines[6])
            &&& decimal(stats.skipped_too_large as nat).is_suffix_of(lines[7])
            &&& names(lines[7], decimal(max_file_bytes as nat))
            &&& decimal(stats.skipped_binary as nat).is_suffix_of(lines[8])
            &&& decimal(stats.read_errors as nat).is_suffix_of(lines[9])
            &&& decimal(stats.walk_errors as nat).is_suffix_of(lines[10])
        }),
{
    let deleted = decimal((stats.deleted_missing + stats.deleted_became_unsupported) as nat);
    let limit = decimal(max_file_bytes as nat);
    let large = decimal(stats.skipped_too_large as nat);
    lemma_ends_with("Indexed root: "@, root);
    lemma_ends_with("Index data: "@, index);
    lemma_ends_with("Scanned files: "@, decimal(stats.scanned_files as nat));
    lemma_ends_with("Indexed/updated documents: "@, decimal(stats.indexed_or_updated as nat));
    lemma_ends_with("Deleted documents: "@, deleted);
    lemma_ends_with(
        "Skipped unchanged indexed files: "@,
        decimal(stats.unchanged_indexed as nat),
    );
    lemma_ends_with(
        "Skipped unchanged unsupported files: "@,
        decimal(stats.unchanged_skipped as nat),
    );
    lemma_ends_with(wording.oversized() + limit + " bytes): "@, large);
    assert(wording.oversized() + limit + " bytes): "@ + large =~= wording.oversized() + limit + (
    " bytes): "@ + large));
    lemma_ends_with(wording.binary(), decimal(stats.skipped_binary as nat));
    lemma_ends_with("Read errors: "@, decimal(stats.read_errors as nat));
    lemma_ends_with("Walk errors: "@, decimal(stats.walk_errors as nat));
}

proof fn lemma_ends_with(head: Seq<char>, end: Seq<char>)
    ensures
        end.is_suffix_of(head + end),
{
    let text = head + end;
    assert(end =~= text.subrange(text.len() - end.len(), text.len() as int));
}

/// The lines of a search print each hit with its rank and its path, in their order.
pub proof fn law_printed_hit_has_its_path(
    results: SearchResults,
    show_timings: bool,
    lines: Vec<String>,
    i: int,
)
    requires
        call_ensures(results_lines, (&results, show_timings), lines),
        0 <= i < results.hits@.len(),
    ensures
        lines@.len() >= results.hits@.len() + 2,
        ({
            let line = lines@[lines@.len() - results.hits@.len() + i]@;
            &&& results.hits@[i].path@.is_suffix_of(line)
            &&& decimal(results.hits@[i].rank as nat).is_prefix_of(line)
        }),
        results.query@.is_suffix_of(lines@[0]@),
        names(lines@[1]@, decimal(results.candidate_count as nat)),
{
    let all = lines.deep_view();
    assert(all.len() == lines@.len());
    law_each_hit_is_printed_with_its_path(results, show_timings, i);
    law_search_is_printed_with_query_and_count(results, show_timings);
    assert(all[0] == lines@[0]@ && all[1] == lines@[1]@);
    assert(all[all.len() - results.hits@.len() + i] == lines@[lines@.len() - results.hits@.len()
        + i]@);
}

/// The lines of a summary end with the figures of the run.
pub proof fn law_printed_summary_shows_the_figures(
    root: &Path,
    index: &Path,
    stats: SyncStats,
    max_file_bytes: u64,
    wording: SummaryWording,
    lines: Vec<String>,
)
    requires
        call_ensures(summary_lines, (root, index, &stats, max_file_bytes, wording), lines),
    ensures
        lines@.len() == 11,
        displayed(path_bytes(root)).is_suffix_of(lines@[0]@),
        displayed(path_bytes(index)).is_suffix_of(lines@[1]@),
        decimal(stats.scanned_files as nat).is_suffix_of(lines@[2]@),
        decimal(stats.indexed_or_updated as nat).is_suffix_of(lines@[3]@),
        decimal((stats.deleted_missing + stats.deleted_became_unsupported) as nat).is_suffix_of(
            lines@[4]@,
        ),
        decimal(stats.unchanged_indexed as nat).is_suffix_of(lines@[5]@),
        decimal(stats.unchanged_skipped as nat).is_suffix_of(lines@[6]@),
        decimal(stats.skipped_too_large as nat).is_suffix_of(lines@[7]@),
        decimal(stats.skipped_binary as nat).is_suffix_of(lines@[8]@),
        decimal(stats.read_errors as nat).is_suffix_of(lines@[9]@),
        decimal(stats.walk_errors as nat).is_suffix_of(lines@[10]@),
{
    let all = lines.deep_view();
    let shown_root = displayed(path_bytes(root));
    let shown_index = displayed(path_bytes(index));
    law_summary_shows_the_figures(shown_root, shown_index, stats, max_file_bytes, wording);
    assert(all.len() == lines@.len());
    assert forall|i: int| 0 <= i < all.len() implies all[i] == (#[trigger] lines@[i])@ by {}
}

} // verus!
