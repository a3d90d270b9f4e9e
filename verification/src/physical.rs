//! Keeping the physical devices only: those whose descriptor is present.

use crate::descriptor::{descriptor_of, descriptor_path, file_name_char, is_nameable};
use crate::fields::{fields, split_fields};
use crate::lines::{lines_of, split_lines};
use crate::record::{
    decode_row, is_well_formed, line_stats, outcome_view, row_stats, Fault, IoStats, IoStatsView,
    COMPLETE_FIELDS, NAME_FIELD,
};
use crate::table::{
    collect, lemma_collected_stats_valid, lemma_error_stays, stats_of, table_view, StatsError,
    StatsErrorView,
};
use vstd::prelude::*;

verus! {

/// Tells whether `path` is among `present`.
pub fn is_listed(present: &Vec<String>, path: &String) -> (found: bool)
    ensures
        found == present.deep_view().contains(path@),
{
    let mut i: usize = 0;
    while i < present.len()
        invariant
            i <= present.len(),
            forall|j: int| 0 <= j < i ==> #[trigger] present.deep_view()[j] != path@,
        decreases present.len() - i,
    {
        if present[i] == *path {
            assert(present.deep_view()[i as int] == path@);
            return true;
        }
        i += 1;
    }
    false
}

/// What the fields of one line yield where only physical devices count and
/// `present` lists the descriptors that exist: nothing where the line is
/// incomplete; a fault where no path can be made for the device's name;
/// nothing where the device's descriptor is not listed; and else what the
/// fields yield in the full table.
pub open spec fn physical_row_stats(f: Seq<Seq<char>>, present: Seq<Seq<char>>) -> Result<
    Option<IoStatsView>,
    Fault,
> {
    if f.len() < COMPLETE_FIELDS {
        Ok(None)
    } else if !is_nameable(f[NAME_FIELD as int]) {
        Err(Fault::DeviceName)
    } else if !present.contains(descriptor_of(f[NAME_FIELD as int])) {
        Ok(None)
    } else {
        row_stats(f)
    }
}

/// What one line of the table yields where only physical devices count.
pub open spec fn physical_line_stats(line: Seq<char>, present: Seq<Seq<char>>) -> Result<
    Option<IoStatsView>,
    Fault,
> {
    physical_row_stats(fields(line), present)
}

/// Decodes one line of the table, passing over a device whose descriptor is
/// not among `present`.
pub fn parse_line_physical(line: &str, present: &Vec<String>) -> (r: Result<
    Option<IoStats>,
    Fault,
>)
    ensures
        outcome_view(r) == physical_line_stats(line@, present.deep_view()),
        r matches Ok(Some(stats)) ==> stats@.is_valid(),
{
    let f = split_fields(line);
    if f.len() < COMPLETE_FIELDS {
        return Ok(None);
    }
    match descriptor_path(f[NAME_FIELD].as_str()) {
        Err(fault) => Err(fault),
        Ok(path) => if is_listed(present, &path) {
            decode_row(&f)
        } else {
            Ok(None)
        },
    }
}

/// What a table yields where only physical devices count: the counters of
/// the complete lines whose device has its descriptor among `present`, in the
/// order of the lines; or, where a line cannot be decoded, the first such
/// line and its fault.
pub open spec fn physical_stats_of(lines: Seq<Seq<char>>, present: Seq<Seq<char>>) -> Result<
    Seq<IoStatsView>,
    StatsErrorView,
> {
    collect(lines.map_values(|line: Seq<char>| physical_line_stats(line, present)))
}

/// Decodes the text of the disk statistics table into the counters of each
/// physical device: each device whose descriptor is among `present`, the
/// paths that exist.
pub fn get_iostats_physical(text: &str, present: &Vec<String>) -> (r: Result<
    Vec<IoStats>,
    StatsError,
>)
    ensures
        table_view(r) == physical_stats_of(lines_of(text@), present.deep_view()),
        r matches Ok(all) ==> forall|i: int| 0 <= i < all.len() ==> (#[trigger] all[i])@.is_valid(),
{
    let lines = split_lines(text);
    let ghost listed = present.deep_view();
    let ghost outcomes = lines.deep_view().map_values(
        |line: Seq<char>| physical_line_stats(line, listed),
    );
    let mut all: Vec<IoStats> = Vec::new();
    let mut i: usize = 0;
    assert(all.deep_view() == Seq::<IoStatsView>::empty());
    while i < lines.len()
        invariant
            i <= lines.len(),
            lines.deep_view() == lines_of(text@),
            listed == present.deep_view(),
            outcomes == lines.deep_view().map_values(
                |line: Seq<char>| physical_line_stats(line, listed),
            ),
            collect(outcomes.take(i as int)) == Ok::<Seq<IoStatsView>, StatsErrorView>(
                all.deep_view(),
            ),
        decreases lines.len() - i,
    {
        let ghost before = all.deep_view();
        assert(outcomes.take(i + 1).drop_last() == outcomes.take(i as int));
        match parse_line_physical(lines[i].as_str(), present) {
            Err(fault) => {
                proof {
                    lemma_error_stays(outcomes, i + 1);
                }
                return Err(StatsError { line: i, fault });
            },
            Ok(None) => {},
            Ok(Some(stats)) => {
                all.push(stats);
                assert(all.deep_view() == before.push(stats@));
            },
        }
        i += 1;
    }
    assert(outcomes.take(lines.len() as int) == outcomes);
    proof {
        lemma_physical_stats_valid(lines.deep_view(), listed, all.deep_view());
        assert forall|i: int| 0 <= i < all.len() implies (#[trigger] all[i])@.is_valid() by {
            assert(all.deep_view()[i].is_valid());
        }
    }
    Ok(all)
}

/// The descriptor of the device of each complete line of `lines` for whose
/// name a path can be made, in the order of the lines.
pub open spec fn descriptors_of(lines: Seq<Seq<char>>) -> Seq<Seq<char>>
    decreases lines.len(),
{
    if lines.len() == 0 {
        Seq::empty()
    } else {
        let before = descriptors_of(lines.drop_last());
        let f = fields(lines.last());
        if f.len() >= COMPLETE_FIELDS && is_nameable(f[NAME_FIELD as int]) {
            before.push(descriptor_of(f[NAME_FIELD as int]))
        } else {
            before
        }
    }
}

/// Lists the paths whose presence decides which devices of the table are
/// physical ones.
pub fn descriptor_paths(text: &str) -> (paths: Vec<String>)
    ensures
        paths.deep_view() == descriptors_of(lines_of(text@)),
{
    let lines = split_lines(text);
    let mut paths: Vec<String> = Vec::new();
    let mut i: usize = 0;
    while i < lines.len()
        invariant
            i <= lines.len(),
            paths.deep_view() == descriptors_of(lines.deep_view().take(i as int)),
        decreases lines.len() - i,
    {
        assert(lines.deep_view().take(i + 1).drop_last() == lines.deep_view().take(i as int));
        let f = split_fields(lines[i].as_str());
        if f.len() >= COMPLETE_FIELDS {
            match descriptor_path(f[NAME_FIELD].as_str()) {
                Ok(path) => {
                    paths.push(path);
                },
                Err(_) => {},
            }
        }
        i += 1;
    }
    assert(lines.deep_view().take(lines.len() as int) == lines.deep_view());
    paths
}

/// Whether the descriptor of the device that `stats` is about is among
/// `present`.
pub open spec fn is_present(stats: IoStatsView, present: Seq<Seq<char>>) -> bool {
    present.contains(descriptor_of(stats.device_name))
}

/// A line with fewer than fourteen fields yields nothing, and no error,
/// whatever is present.
pub proof fn lemma_incomplete_line_skipped_physical(line: Seq<char>, present: Seq<Seq<char>>)
    requires
        fields(line).len() < 14,
    ensures
        physical_line_stats(line, present) == Ok::<Option<IoStatsView>, Fault>(None),
{
}

/// A well-formed line for whose device a path can be made yields that
/// device's counters where its descriptor is present, and nothing where it
/// is not.
pub proof fn lemma_physical_line(line: Seq<char>, present: Seq<Seq<char>>)
    requires
        is_well_formed(line),
        is_nameable(fields(line)[2]),
    ensures
        present.contains(descriptor_of(fields(line)[2])) ==> physical_line_stats(line, present)
            == line_stats(line) && line_stats(line) matches Ok(Some(_)),
        !present.contains(descriptor_of(fields(line)[2])) ==> physical_line_stats(line, present)
            == Ok::<Option<IoStatsView>, Fault>(None),
{
}

/// Where the full table can be decoded and a path can be made for each of
/// its devices, the physical devices are those of the full table whose
/// descriptor is present, in the same order.
pub proof fn lemma_physical_keeps_present(lines: Seq<Seq<char>>, present: Seq<Seq<char>>)
    requires
        forall|i: int| 0 <= i < lines.len() ==> line_stats(#[trigger] lines[i]) is Ok,
        forall|i: int|
            0 <= i < lines.len() && fields(#[trigger] lines[i]).len() >= 14 ==> is_nameable(
                fields(lines[i])[2],
            ),
    ensures
        stats_of(lines) matches Ok(all) && physical_stats_of(lines, present) == Ok::<
            Seq<IoStatsView>,
            StatsErrorView,
        >(all.filter(|stats: IoStatsView| is_present(stats, present))),
    decreases lines.len(),
{
    reveal(Seq::filter);
    if lines.len() > 0 {
        let head = lines.drop_last();
        lemma_physical_keeps_present(head, present);
        assert(lines.map_values(|line: Seq<char>| line_stats(line)).drop_last()
            == head.map_values(|line: Seq<char>| line_stats(line)));
        assert(lines.map_values(|line: Seq<char>| physical_line_stats(line, present)).drop_last()
            == head.map_values(|line: Seq<char>| physical_line_stats(line, present)));
        let last = lines[lines.len() - 1];
        let all = stats_of(head)->Ok_0;
        match line_stats(last) {
            Ok(Some(stats)) => {
                assert(all.push(stats).drop_last() == all);
            },
            _ => {},
        }
    }
}

/// A physical device is reported under its name as the line has it, slashes
/// included, though its descriptor was looked up under the name with `!` for
/// each slash.
pub proof fn lemma_reported_under_own_name(line: Seq<char>, present: Seq<Seq<char>>)
    requires
        physical_line_stats(line, present) matches Ok(Some(_)),
    ensures
        physical_line_stats(line, present) matches Ok(Some(stats)) && {
            &&& stats.device_name == fields(line)[2]
            &&& present.contains(descriptor_of(stats.device_name))
            &&& descriptor_of(stats.device_name) == "/sys/block/"@ + stats.device_name.map_values(
                |c: char| file_name_char(c),
            ) + "/device"@
        },
{
}

/// The descriptor of every complete line for whose device a path can be
/// made is among those that `descriptors_of` lists.
pub proof fn lemma_descriptor_is_listed(lines: Seq<Seq<char>>, i: int)
    requires
        0 <= i < lines.len(),
        fields(lines[i]).len() >= 14,
        is_nameable(fields(lines[i])[2]),
    ensures
        descriptors_of(lines).contains(descriptor_of(fields(lines[i])[2])),
    decreases lines.len(),
{
    let before = descriptors_of(lines.drop_last());
    if i == lines.len() - 1 {
        assert(descriptors_of(lines)[before.len() as int] == descriptor_of(fields(lines[i])[2]));
    } else {
        lemma_descriptor_is_listed(lines.drop_last(), i);
        let found = choose|k: int|
            0 <= k < before.len() && before[k] == descriptor_of(fields(lines[i])[2]);
        assert(descriptors_of(lines)[found] == before[found]);
    }
}

/// What a table yields depends on what is present only through the paths
/// that `descriptors_of` lists for it.
pub proof fn lemma_only_descriptors_matter(
    lines: Seq<Seq<char>>,
    one: Seq<Seq<char>>,
    other: Seq<Seq<char>>,
)
    requires
        forall|path: Seq<char>| #[trigger]
            descriptors_of(lines).contains(path) ==> (one.contains(path) <==> other.contains(
                path,
            )),
    ensures
        physical_stats_of(lines, one) == physical_stats_of(lines, other),
{
    let with_one = lines.map_values(|line: Seq<char>| physical_line_stats(line, one));
    let with_other = lines.map_values(|line: Seq<char>| physical_line_stats(line, other));
    assert forall|i: int| 0 <= i < lines.len() implies with_one[i] == with_other[i] by {
        let f = fields(lines[i]);
        if f.len() >= 14 && is_nameable(f[2]) {
            lemma_descriptor_is_listed(lines, i);
        }
    }
    assert(with_one == with_other);
}

/// To decode the physical devices of a table it is enough to know which of
/// the paths that `descriptors_of` lists for it are present.
pub proof fn lemma_listed_paths_suffice(lines: Seq<Seq<char>>, present: Seq<Seq<char>>)
    ensures
        physical_stats_of(
            lines,
            descriptors_of(lines).filter(|path: Seq<char>| present.contains(path)),
        ) == physical_stats_of(lines, present),
{
    let listed = descriptors_of(lines);
    let found = listed.filter(|path: Seq<char>| present.contains(path));
    lemma_only_descriptors_matter(lines, found, present);
}

/// Every physical device has valid counters.
pub proof fn lemma_physical_stats_valid(
    lines: Seq<Seq<char>>,
    present: Seq<Seq<char>>,
    all: Seq<IoStatsView>,
)
    requires
        physical_stats_of(lines, present) == Ok::<Seq<IoStatsView>, StatsErrorView>(all),
    ensures
        forall|i: int| 0 <= i < all.len() ==> (#[trigger] all[i]).is_valid(),
{
    lemma_collected_stats_valid(
        lines.map_values(|line: Seq<char>| physical_line_stats(line, present)),
        all,
    );
}

} // verus!
