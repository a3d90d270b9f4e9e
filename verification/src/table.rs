//! Decoding the whole table, line by line.

use crate::record::{is_well_formed, line_stats, parse_line, Fault, IoStats, IoStatsView};
use crate::fields::fields;
use crate::lines::{is_line, lemma_lines_of_text, lines_of, split_lines, text_of};
use vstd::prelude::*;

verus! {

/// A line that could not be decoded: its position in the input, counted from
/// zero, and what is wrong with it.
#[derive(Clone, Copy, Debug, PartialEq, Eq, Structural)]
pub struct StatsError {
    pub line: usize,
    pub fault: Fault,
}

/// What a [`StatsError`] holds, as mathematical values.
pub struct StatsErrorView {
    pub line: nat,
    pub fault: Fault,
}

impl View for StatsError {
    type V = StatsErrorView;

    open spec fn view(&self) -> StatsErrorView {
        StatsErrorView { line: self.line as nat, fault: self.fault }
    }
}

/// The counters among `outcomes`, one outcome for each line, in the order of
/// the lines; or, where a line could not be decoded, the first such line and
/// its fault.
pub open spec fn collect(outcomes: Seq<Result<Option<IoStatsView>, Fault>>) -> Result<
    Seq<IoStatsView>,
    StatsErrorView,
>
    decreases outcomes.len(),
{
    if outcomes.len() == 0 {
        Ok(Seq::empty())
    } else {
        match collect(outcomes.drop_last()) {
            Err(e) => Err(e),
            Ok(before) => match outcomes.last() {
                Err(fault) => Err(StatsErrorView { line: (outcomes.len() - 1) as nat, fault }),
                Ok(None) => Ok(before),
                Ok(Some(stats)) => Ok(before.push(stats)),
            },
        }
    }
}

/// What a table yields: the counters of its complete lines, in the order of
/// the lines; or, where a line cannot be decoded, the first such line and
/// its fault.
pub open spec fn stats_of(lines: Seq<Seq<char>>) -> Result<Seq<IoStatsView>, StatsErrorView> {
    collect(lines.map_values(|line: Seq<char>| line_stats(line)))
}

/// The counters that one line yielded, if it yielded any.
pub open spec fn counters(outcome: Result<Option<IoStatsView>, Fault>) -> Option<IoStatsView> {
    match outcome {
        Ok(yielded) => yielded,
        Err(_) => None,
    }
}

/// The mathematical value of what decoding a table returned.
pub open spec fn table_view(r: Result<Vec<IoStats>, StatsError>) -> Result<
    Seq<IoStatsView>,
    StatsErrorView,
> {
    match r {
        Ok(all) => Ok(all.deep_view()),
        Err(e) => Err(e@),
    }
}

/// Decodes the text of the disk statistics table into the counters of each
/// device and partition.
pub fn get_iostats(text: &str) -> (r: Result<Vec<IoStats>, StatsError>)
    ensures
        table_view(r) == stats_of(lines_of(text@)),
        r matches Ok(all) ==> forall|i: int| 0 <= i < all.len() ==> (#[trigger] all[i])@.is_valid(),
{
    let lines = split_lines(text);
    let ghost outcomes = lines.deep_view().map_values(|line: Seq<char>| line_stats(line));
    let mut all: Vec<IoStats> = Vec::new();
    let mut i: usize = 0;
    assert(all.deep_view() == Seq::<IoStatsView>::empty());
    while i < lines.len()
        invariant
            i <= lines.len(),
            lines.deep_view() == lines_of(text@),
            outcomes == lines.deep_view().map_values(|line: Seq<char>| line_stats(line)),
            collect(outcomes.take(i as int)) == Ok::<Seq<IoStatsView>, StatsErrorView>(
                all.deep_view(),
            ),
        decreases lines.len() - i,
    {
        let ghost before = all.deep_view();
        assert(outcomes.take(i + 1).drop_last() == outcomes.take(i as int));
        match parse_line(lines[i].as_str()) {
            Err(fault) => {
                proof {
                    lemma_error_stays(outcomes, i + 1);
                }
                return Err(StatsError { line: i, fault });
            },
            Ok(None) => {},
            Ok(Some(stats)) => {
                all.push(stats);
                assert(all.deep_view() == before.push(stats@));
            },
        }
        i += 1;
    }
    assert(outcomes.take(lines.len() as int) == outcomes);
    proof {
        lemma_stats_valid(lines.deep_view(), all.deep_view());
        assert forall|i: int| 0 <= i < all.len() implies (#[trigger] all[i])@.is_valid() by {
            assert(all.deep_view()[i].is_valid());
        }
    }
    Ok(all)
}

/// Once a line could not be decoded, the lines after it change nothing: the
/// table yields the error of the first such line.
pub proof fn lemma_error_stays(outcomes: Seq<Result<Option<IoStatsView>, Fault>>, k: int)
    requires
        0 <= k <= outcomes.len(),
        collect(outcomes.take(k)) is Err,
    ensures
        collect(outcomes) == collect(outcomes.take(k)),
    decreases outcomes.len(),
{
    if k == outcomes.len() {
        assert(outcomes.take(k) == outcomes);
    } else {
        assert(outcomes.drop_last().take(k) == outcomes.take(k));
        lemma_error_stays(outcomes.drop_last(), k);
    }
}

/// Where every line could be decoded, the table yields the counters that
/// the lines yielded, in the order of the lines.
pub proof fn lemma_collect_without_error(outcomes: Seq<Result<Option<IoStatsView>, Fault>>)
    requires
        forall|i: int| 0 <= i < outcomes.len() ==> #[trigger] outcomes[i] is Ok,
    ensures
        collect(outcomes) == Ok::<Seq<IoStatsView>, StatsErrorView>(
            outcomes.filter_map(|o: Result<Option<IoStatsView>, Fault>| counters(o)),
        ),
    decreases outcomes.len(),
{
    if outcomes.len() > 0 {
        let head = outcomes.drop_last();
        lemma_collect_without_error(head);
        let kept = head.filter_map(|o: Result<Option<IoStatsView>, Fault>| counters(o));
        match outcomes.last() {
            Ok(Some(stats)) => {
                assert(kept + seq![stats] == kept.push(stats));
            },
            _ => {},
        }
    }
}

/// Where line `k` is the first that could not be decoded, the table yields
/// the position and the fault of that line.
pub proof fn lemma_collect_first_error(
    outcomes: Seq<Result<Option<IoStatsView>, Fault>>,
    k: int,
)
    requires
        0 <= k < outcomes.len(),
        outcomes[k] is Err,
        forall|i: int| 0 <= i < k ==> #[trigger] outcomes[i] is Ok,
    ensures
        collect(outcomes) == Err::<Seq<IoStatsView>, StatsErrorView>(
            StatsErrorView { line: k as nat, fault: outcomes[k]->Err_0 },
        ),
{
    let upto = outcomes.take(k + 1);
    let head = upto.drop_last();
    lemma_collect_without_error(head);
    lemma_error_stays(outcomes, k + 1);
}

/// A table of well-formed lines yields as many counters as it has lines, the
/// counters of each line in the place of that line.
pub proof fn lemma_well_formed_lines_all_counted(lines: Seq<Seq<char>>)
    requires
        forall|i: int| 0 <= i < lines.len() ==> is_well_formed(#[trigger] lines[i]),
    ensures
        stats_of(lines) matches Ok(all) && {
            &&& all.len() == lines.len()
            &&& forall|i: int|
                0 <= i < lines.len() ==> line_stats(lines[i]) == Ok::<Option<IoStatsView>, Fault>(
                    Some(#[trigger] all[i]),
                )
        },
    decreases lines.len(),
{
    if lines.len() > 0 {
        let head = lines.drop_last();
        lemma_well_formed_lines_all_counted(head);
        assert(lines.map_values(|line: Seq<char>| line_stats(line)).drop_last()
            == head.map_values(|line: Seq<char>| line_stats(line)));
    }
}

/// Text made of well-formed lines, each with its line feed, yields as many
/// counters as it has lines, the counters of each line in the place of that
/// line.
pub proof fn lemma_well_formed_text_all_counted(lines: Seq<Seq<char>>)
    requires
        forall|i: int| 0 <= i < lines.len() ==> is_line(#[trigger] lines[i]),
        forall|i: int| 0 <= i < lines.len() ==> is_well_formed(#[trigger] lines[i]),
    ensures
        stats_of(lines_of(text_of(lines))) matches Ok(all) && {
            &&& all.len() == lines.len()
            &&& forall|i: int|
                0 <= i < lines.len() ==> line_stats(lines[i]) == Ok::<Option<IoStatsView>, Fault>(
                    Some(#[trigger] all[i]),
                )
        },
{
    lemma_lines_of_text(lines);
    lemma_well_formed_lines_all_counted(lines);
}

/// A table of incomplete lines yields no counters, and no error: so does
/// the empty table.
pub proof fn lemma_incomplete_lines_yield_nothing(lines: Seq<Seq<char>>)
    requires
        forall|i: int| 0 <= i < lines.len() ==> fields(#[trigger] lines[i]).len() < 14,
    ensures
        stats_of(lines) == Ok::<Seq<IoStatsView>, StatsErrorView>(Seq::empty()),
    decreases lines.len(),
{
    if lines.len() > 0 {
        let head = lines.drop_last();
        lemma_incomplete_lines_yield_nothing(head);
        assert(lines.map_values(|line: Seq<char>| line_stats(line)).drop_last()
            == head.map_values(|line: Seq<char>| line_stats(line)));
    }
}

/// The counters that a table yields are valid where those that its lines
/// yielded are.
pub proof fn lemma_collected_stats_valid(
    outcomes: Seq<Result<Option<IoStatsView>, Fault>>,
    all: Seq<IoStatsView>,
)
    requires
        collect(outcomes) == Ok::<Seq<IoStatsView>, StatsErrorView>(all),
        forall|i: int|
            0 <= i < outcomes.len() ==> (#[trigger] outcomes[i] matches Ok(Some(stats))
                ==> stats.is_valid()),
    ensures
        forall|i: int| 0 <= i < all.len() ==> (#[trigger] all[i]).is_valid(),
    decreases outcomes.len(),
{
    if outcomes.len() > 0 {
        let head = outcomes.drop_last();
        lemma_collected_stats_valid(head, collect(head)->Ok_0);
    }
}

/// Every device of the full table has valid counters.
pub proof fn lemma_stats_valid(lines: Seq<Seq<char>>, all: Seq<IoStatsView>)
    requires
        stats_of(lines) == Ok::<Seq<IoStatsView>, StatsErrorView>(all),
    ensures
        forall|i: int| 0 <= i < all.len() ==> (#[trigger] all[i]).is_valid(),
{
    lemma_collected_stats_valid(lines.map_values(|line: Seq<char>| line_stats(line)), all);
}

} // verus!
