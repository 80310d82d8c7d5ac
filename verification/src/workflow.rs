//! Planning the renames of a run, and deciding about each of them.
use vstd::prelude::*;

use crate::duplicates;
use crate::duplicates::Standing;
use crate::model;
use crate::metadata::{MovieMatch, SeriesMatch};
use crate::model::{MediaPath, PathView, PlanView, RenamePlan};
use crate::number;
use crate::quality::QualityView;
use crate::rename;
use crate::rename::{EpisodeVars, MovieVars};
use crate::report;
use crate::report::{LogRecord, RecordView, Status};
use crate::settings::Settings;
use crate::text;

verus! {

/// Where a file is to go.
pub enum Destination {
    /// The template gave no name.
    NoName,
    /// To where it already is.
    Unchanged(MediaPath),
    /// To this path.
    New(MediaPath),
}

/// The directory in which a file's destination lies.
pub open spec fn destination_dir(output_dir: Option<Seq<char>>, source: PathView) -> Seq<char> {
    match output_dir {
        Some(dir) => dir,
        None => source.directory,
    }
}

/// Settles where a file is to go: under the name that the template gave, in the
/// output directory where there is one, else in its own.
pub fn settle_destination(target: &str, output_dir: &Option<String>, source: &MediaPath) -> (res:
    Destination)
    ensures
        match res {
            Destination::NoName => target@.len() == 0,
            Destination::Unchanged(path) => target@.len() > 0 && path@ == model::target_path(
                destination_dir(text::opt_view(*output_dir), source@),
                target@,
            ) && path@ == source@,
            Destination::New(path) => target@.len() > 0 && path@ == model::target_path(
                destination_dir(text::opt_view(*output_dir), source@),
                target@,
            ) && path@ != source@,
        },
{
    if target.is_empty() {
        return Destination::NoName;
    }
    let directory = match output_dir {
        Some(dir) => dir.as_str(),
        None => source.directory.as_str(),
    };
    let path = model::destination_path(directory, target);
    if path.same(source) {
        Destination::Unchanged(path)
    } else {
        Destination::New(path)
    }
}

/// How a file ended before its rename was planned.
#[derive(Debug, Clone, PartialEq, Eq)]
pub enum FileOutcome {
    /// Its name was refused, or a lookup or the search for its subtitles failed,
    /// with this message.
    Failed(String),
    /// No movie was found, or none was chosen.
    NoMovie,
    /// No series was found, or none was chosen.
    NoSeries,
    /// The template gave no name.
    NoName,
    /// It already has its name.
    Unchanged,
}

/// What is entered for a file that ended this way: its status and the reason.
pub open spec fn outcome_entry(outcome: FileOutcome) -> (Status, Seq<char>) {
    match outcome {
        FileOutcome::Failed(message) => (Status::Failed, message@),
        FileOutcome::NoMovie => (Status::Skipped, "no movie match chosen"@),
        FileOutcome::NoSeries => (Status::Skipped, "no series match chosen"@),
        FileOutcome::NoName => (
            Status::Failed,
            "filename template produced an empty destination name"@,
        ),
        FileOutcome::Unchanged => (Status::Skipped, "already correctly named"@),
    }
}

/// The status and the reason of a file that ended before its rename was planned.
pub fn file_end(outcome: &FileOutcome) -> (res: (Status, String))
    ensures
        res.0 == outcome_entry(*outcome).0,
        res.1@ == outcome_entry(*outcome).1,
{
    match outcome {
        FileOutcome::Failed(message) => (Status::Failed, message.clone()),
        FileOutcome::NoMovie => (Status::Skipped, String::from_str("no movie match chosen")),
        FileOutcome::NoSeries => (Status::Skipped, String::from_str("no series match chosen")),
        FileOutcome::NoName => (
            Status::Failed,
            String::from_str("filename template produced an empty destination name"),
        ),
        FileOutcome::Unchanged => (Status::Skipped, String::from_str("already correctly named")),
    }
}

/// Why a planned group is skipped.
#[derive(Debug, Clone, Copy, PartialEq, Eq, Structural)]
pub enum SkipGroup {
    Outranked,
    Undecided,
    DestinationExists,
    SubtitleExists,
    Declined,
}

impl SkipGroup {
    /// The reason as it stands in the log.
    pub open spec fn words(self) -> Seq<char> {
        match self {
            SkipGroup::Outranked => "a higher-quality duplicate was selected"@,
            SkipGroup::Undecided => "duplicate quality is tied, unknown, or not comparable"@,
            SkipGroup::DestinationExists => "destination already exists"@,
            SkipGroup::SubtitleExists => "a subtitle destination already exists"@,
            SkipGroup::Declined => "rename declined by user"@,
        }
    }

    /// The reason as it stands in the log.
    pub fn reason(self) -> (res: &'static str)
        ensures
            res@ == self.words(),
    {
        match self {
            SkipGroup::Outranked => "a higher-quality duplicate was selected",
            SkipGroup::Undecided => "duplicate quality is tied, unknown, or not comparable",
            SkipGroup::DestinationExists => "destination already exists",
            SkipGroup::SubtitleExists => "a subtitle destination already exists",
            SkipGroup::Declined => "rename declined by user",
        }
    }
}

/// What is known when a planned group comes up.
#[derive(Debug, Clone, Copy, PartialEq, Eq)]
pub struct GroupFacts {
    /// Its place among the plans with the same destination.
    pub standing: Standing,
    /// Whether something already stands at the video's destination.
    pub destination_exists: bool,
    /// Whether something already stands at the destination of a subtitle.
    pub subtitle_exists: bool,
    /// Whether nobody is asked.
    pub batch: bool,
    /// Whether nothing is to be changed.
    pub dry_run: bool,
    /// What the user answered, where they were asked.
    pub answer: Option<bool>,
}

/// What to do with a planned group.
#[derive(Debug, Clone, Copy, PartialEq, Eq)]
pub enum GroupStep {
    Skip(SkipGroup),
    /// Ask whether to go on.
    Ask,
    /// Only report what would be done.
    Show,
    /// Move the files.
    Apply,
}

/// What to do with a planned group.
pub open spec fn next_step(f: GroupFacts) -> GroupStep {
    if f.standing is Outranked {
        GroupStep::Skip(SkipGroup::Outranked)
    } else if f.standing is Undecided {
        GroupStep::Skip(SkipGroup::Undecided)
    } else if f.destination_exists {
        GroupStep::Skip(SkipGroup::DestinationExists)
    } else if f.subtitle_exists {
        GroupStep::Skip(SkipGroup::SubtitleExists)
    } else if f.dry_run {
        GroupStep::Show
    } else if f.batch {
        GroupStep::Apply
    } else {
        match f.answer {
            None => GroupStep::Ask,
            Some(true) => GroupStep::Apply,
            Some(false) => GroupStep::Skip(SkipGroup::Declined),
        }
    }
}

/// Decides what to do with a planned group.
pub fn group_step(f: GroupFacts) -> (res: GroupStep)
    ensures
        res == next_step(f),
{
    match f.standing {
        Standing::Outranked => return GroupStep::Skip(SkipGroup::Outranked),
        Standing::Undecided => return GroupStep::Skip(SkipGroup::Undecided),
        Standing::Alone | Standing::Preferred => {},
    }
    if f.destination_exists {
        return GroupStep::Skip(SkipGroup::DestinationExists);
    }
    if f.subtitle_exists {
        return GroupStep::Skip(SkipGroup::SubtitleExists);
    }
    if f.dry_run {
        return GroupStep::Show;
    }
    if f.batch {
        return GroupStep::Apply;
    }
    match f.answer {
        None => GroupStep::Ask,
        Some(true) => GroupStep::Apply,
        Some(false) => GroupStep::Skip(SkipGroup::Declined),
    }
}

/// Files are moved only where nothing stands at any destination of the group,
/// no other plan has a better claim to it, changes are wanted, and nobody who
/// was to be asked declined.
pub proof fn law_groups_are_moved_only_with_a_free_way(f: GroupFacts)
    ensures
        next_step(f) is Apply <==> {
            &&& f.standing is Alone || f.standing is Preferred
            &&& !f.destination_exists
            &&& !f.subtitle_exists
            &&& !f.dry_run
            &&& f.batch || f.answer == Some(true)
        },
{
}

/// A dry run moves nothing and asks nothing, and a batch run asks nothing.
pub proof fn law_dry_runs_change_nothing(f: GroupFacts)
    ensures
        f.dry_run ==> !(next_step(f) is Apply) && !(next_step(f) is Ask),
        f.batch ==> !(next_step(f) is Ask),
{
}

/// A question is asked once: with an answer the group is settled.
pub proof fn law_answers_settle_a_group(f: GroupFacts)
    requires
        f.answer is Some,
    ensures
        !(next_step(f) is Ask),
{
}

/// Of several plans with one destination and different sources, at most one is
/// moved.
pub proof fn law_one_source_at_most_is_moved(
    plans: Seq<PlanView>,
    qualities: Seq<Option<QualityView>>,
    i: int,
    j: int,
    f: GroupFacts,
    g: GroupFacts,
)
    requires
        0 <= i < plans.len(),
        0 <= j < plans.len(),
        plans[i].source != plans[j].source,
        duplicates::duplicate_key(plans[i].destination) == duplicates::duplicate_key(
            plans[j].destination,
        ),
        f.standing == duplicates::standing(
            plans,
            qualities,
            plans[i].source,
            duplicates::duplicate_key(plans[i].destination),
        ),
        g.standing == duplicates::standing(
            plans,
            qualities,
            plans[j].source,
            duplicates::duplicate_key(plans[j].destination),
        ),
    ensures
        !(next_step(f) is Apply && next_step(g) is Apply),
{
    duplicates::law_one_plan_at_most_takes_a_destination(plans, qualities, i, j);
    duplicates::law_one_plan_at_most_takes_a_destination(plans, qualities, j, i);
}

/// How many files were renamed, skipped and failed.
#[derive(Debug, Clone, Copy, PartialEq, Eq)]
pub struct Tally {
    pub renamed: usize,
    pub skipped: usize,
    pub failed: usize,
}

/// How many files a planned group has.
pub open spec fn group_size(plan: PlanView) -> nat {
    1 + plan.subtitles.len()
}

impl Tally {
    /// All files that were counted.
    pub open spec fn total(self) -> int {
        self.renamed + self.skipped + self.failed
    }

    /// A tally of nothing.
    pub fn new() -> (res: Tally)
        ensures
            res.renamed == 0,
            res.skipped == 0,
            res.failed == 0,
    {
        Tally { renamed: 0, skipped: 0, failed: 0 }
    }

    /// Counts some files. Files that were only shown are not counted.
    fn count(&mut self, status: Status, files: usize)
        requires
            old(self).total() + files <= usize::MAX,
        ensures
            final(self).renamed == old(self).renamed + (if status == Status::Renamed {
                files as int
            } else {
                0
            }),
            final(self).skipped == old(self).skipped + (if status == Status::Skipped {
                files as int
            } else {
                0
            }),
            final(self).failed == old(self).failed + (if status == Status::Failed {
                files as int
            } else {
                0
            }),
    {
        match status {
            Status::Renamed => {
                self.renamed = self.renamed + files;
            },
            Status::Skipped => {
                self.skipped = self.skipped + files;
            },
            Status::Failed => {
                self.failed = self.failed + files;
            },
            Status::DryRun => {},
        }
    }

    /// The tally in words.
    pub fn summary(&self) -> (res: String)
        ensures
            res@ == number::decimal(self.renamed as nat) + " renamed, "@ + number::decimal(
                self.skipped as nat,
            ) + " skipped, "@ + number::decimal(self.failed as nat) + " failed."@,
    {
        let mut out = number::decimal_text(self.renamed as u64);
        out.append(" renamed, ");
        out.append(number::decimal_text(self.skipped as u64).as_str());
        out.append(" skipped, ");
        out.append(number::decimal_text(self.failed as u64).as_str());
        out.append(" failed.");
        out
    }
}

/// How many records have a status.
pub open spec fn status_count(log: Seq<RecordView>, status: Status) -> nat
    decreases log.len(),
{
    if log.len() == 0 {
        0
    } else {
        status_count(log.drop_last(), status) + (if log.last().status == status {
            1nat
        } else {
            0nat
        })
    }
}

proof fn lemma_status_count_push(log: Seq<RecordView>, record: RecordView, status: Status)
    ensures
        status_count(log.push(record), status) == status_count(log, status) + (if record.status
            == status {
            1nat
        } else {
            0nat
        }),
{
    assert(log.push(record).drop_last() =~= log);
}

proof fn lemma_status_counts_fit(log: Seq<RecordView>)
    ensures
        status_count(log, Status::Renamed) + status_count(log, Status::Skipped) + status_count(
            log,
            Status::Failed,
        ) <= log.len(),
    decreases log.len(),
{
    if log.len() > 0 {
        lemma_status_counts_fit(log.drop_last());
    }
}

/// The outcomes of a run: its log, and the tally of it.
#[derive(Debug)]
pub struct Ledger {
    log: Vec<LogRecord>,
    tally: Tally,
}

impl View for Ledger {
    type V = Seq<RecordView>;

    closed spec fn view(&self) -> Seq<RecordView> {
        report::record_views(self.log@)
    }
}

impl Ledger {
    /// The tally counts the records of the log.
    #[verifier::type_invariant]
    spec fn is_counted(&self) -> bool {
        &&& self.tally.renamed == status_count(report::record_views(self.log@), Status::Renamed)
        &&& self.tally.skipped == status_count(report::record_views(self.log@), Status::Skipped)
        &&& self.tally.failed == status_count(report::record_views(self.log@), Status::Failed)
    }

    /// An empty ledger.
    pub fn new() -> (res: Ledger)
        ensures
            res@.len() == 0,
    {
        let log: Vec<LogRecord> = Vec::new();
        Ledger { log, tally: Tally::new() }
    }

    /// The records so far.
    pub fn records(&self) -> (res: &Vec<LogRecord>)
        ensures
            report::record_views(res@) == self@,
    {
        &self.log
    }

    /// The tally: how many records have each status.
    pub fn tally(&self) -> (res: Tally)
        ensures
            res.renamed == status_count(self@, Status::Renamed),
            res.skipped == status_count(self@, Status::Skipped),
            res.failed == status_count(self@, Status::Failed),
    {
        proof {
            use_type_invariant(self);
        }
        self.tally
    }

    fn add(self, record: LogRecord) -> (res: Ledger)
        ensures
            res@ == self@.push(record@),
    {
        proof {
            use_type_invariant(&self);
        }
        let status = record.status;
        let mut log = self.log;
        let mut tally = self.tally;
        let ghost before = report::record_views(log@);
        log.push(record);
        let ghost after = report::record_views(log@);
        let size = log.len();
        proof {
            assert(after =~= before.push(record@));
            lemma_status_counts_fit(before);
            lemma_status_count_push(before, record@, Status::Renamed);
            lemma_status_count_push(before, record@, Status::Skipped);
            lemma_status_count_push(before, record@, Status::Failed);
            assert(after.len() == size);
        }
        tally.count(status, 1);
        Ledger { log, tally }
    }

    fn add_all(self, records: Vec<LogRecord>) -> (res: Ledger)
        ensures
            res@ == self@ + report::record_views(records@),
    {
        let ghost more = report::record_views(records@);
        let ghost start = self@;
        let mut ledger = self;
        let mut i: usize = 0;
        assert(start + more.take(0) =~= start);
        while i < records.len()
            invariant
                i <= records.len(),
                more == report::record_views(records@),
                ledger@ == start + more.take(i as int),
            decreases records.len() - i,
        {
            let record = report::copy_record(&records[i]);
            ledger = ledger.add(record);
            assert(more[i as int] == records@[i as int]@);
            assert(start + more.take(i + 1) =~= (start + more.take(i as int)).push(
                more[i as int],
            ));
            i += 1;
        }
        assert(more.take(more.len() as int) =~= more);
        ledger
    }

    /// Enters a file that failed before its rename was planned, or was skipped.
    pub fn end_file(self, source: &str, destination: Option<String>, status: Status, reason: &str) -> (res:
        Ledger)
        ensures
            res@ == self@.push(
                (RecordView {
                    source: source@,
                    destination: text::opt_view(destination),
                    status,
                    reason: reason@,
                }),
            ),
    {
        self.add(report::record_file(source, destination, status, reason))
    }

    /// Enters a planned group.
    pub fn end_group(self, plan: &RenamePlan, end: &GroupEnd) -> (res: Ledger)
        ensures
            res@ == self@ + end_records(plan@, *end),
    {
        let records = match end {
            GroupEnd::Skipped(reason) => report::record_group(
                plan,
                Status::Skipped,
                reason.reason(),
            ),
            GroupEnd::Shown => report::record_dry_run(plan),
            GroupEnd::Renamed => report::record_renamed(plan),
            GroupEnd::Failed(message) => report::record_group(
                plan,
                Status::Failed,
                message.as_str(),
            ),
        };
        self.add_all(records)
    }
}

/// How a planned group ended.
#[derive(Debug, Clone)]
pub enum GroupEnd {
    Skipped(SkipGroup),
    /// It was only shown.
    Shown,
    Renamed,
    /// It failed, with this message.
    Failed(String),
}

/// The records of a group that ended this way.
pub open spec fn end_records(plan: PlanView, end: GroupEnd) -> Seq<RecordView> {
    match end {
        GroupEnd::Skipped(reason) => report::plan_records(
            plan,
            Status::Skipped,
            reason.words(),
            report::group_reason(Status::Skipped, reason.words()),
        ),
        GroupEnd::Shown => report::plan_records(
            plan,
            Status::DryRun,
            "rename was not applied"@,
            "subtitle rename was not applied"@,
        ),
        GroupEnd::Renamed => report::plan_records(
            plan,
            Status::Renamed,
            "rename completed"@,
            "subtitle rename completed"@,
        ),
        GroupEnd::Failed(message) => report::plan_records(
            plan,
            Status::Failed,
            message@,
            report::group_reason(Status::Failed, message@),
        ),
    }
}

/// The status that all records of a group have.
pub open spec fn end_status(end: GroupEnd) -> Status {
    match end {
        GroupEnd::Skipped(_) => Status::Skipped,
        GroupEnd::Shown => Status::DryRun,
        GroupEnd::Renamed => Status::Renamed,
        GroupEnd::Failed(_) => Status::Failed,
    }
}

/// However a group ends, all of its files count, and all in the same way: the
/// video and each of its subtitles.
pub proof fn law_groups_count_as_a_whole(log: Seq<RecordView>, plan: PlanView, end: GroupEnd, status: Status)
    ensures
        status_count(log + end_records(plan, end), status) == status_count(log, status) + (
        if end_status(end) == status {
            group_size(plan)
        } else {
            0
        }),
{
    let records = end_records(plan, end);
    assert forall|i: int| 0 <= i < records.len() implies (#[trigger] records[i]).status
        == end_status(end) by {}
    lemma_uniform_count(log, records, end_status(end), status);
}

proof fn lemma_uniform_count(
    log: Seq<RecordView>,
    records: Seq<RecordView>,
    shared: Status,
    status: Status,
)
    requires
        forall|i: int| 0 <= i < records.len() ==> (#[trigger] records[i]).status == shared,
    ensures
        status_count(log + records, status) == status_count(log, status) + (if shared == status {
            records.len()
        } else {
            0
        }),
    decreases records.len(),
{
    if records.len() == 0 {
        assert(log + records =~= log);
    } else {
        let rest = records.drop_last();
        assert forall|i: int| 0 <= i < rest.len() implies (#[trigger] rest[i]).status == shared by {
            assert(rest[i] == records[i]);
        }
        lemma_uniform_count(log, rest, shared, status);
        assert((log + records).drop_last() =~= log + rest);
    }
}

/// The name that a movie gets by the settings.
pub fn movie_name(settings: &Settings, found: &MovieMatch, ext: &str) -> (res: String)
    ensures
        res@ == rename::rendered_movie(
            settings.format_movie@,
            found.title@,
            found.year,
            ext@,
            settings.lower,
            settings.scene,
        ),
{
    rename::render_movie(
        settings.format_movie.as_str(),
        &MovieVars { title: found.title.as_str(), year: found.year, ext },
        settings.lower,
        settings.scene,
    )
}

/// The name that an episode gets by the settings.
pub fn episode_name(
    settings: &Settings,
    series: &SeriesMatch,
    season: u32,
    episode: u32,
    episode_end: Option<u32>,
    title: &str,
    ext: &str,
) -> (res: String)
    ensures
        res@ == rename::rendered_episode(
            settings.format_episode@,
            rename::field_values(
                settings.format_episode@,
                series.name@,
                series.first_air_year,
                season,
                episode,
                episode_end,
                title@,
                ext@,
            ),
            settings.lower,
            settings.scene,
        ),
{
    rename::render_episode(
        settings.format_episode.as_str(),
        &EpisodeVars {
            series: series.name.as_str(),
            year: series.first_air_year,
            season,
            episode,
            episode_end,
            episode_title: title,
            ext,
        },
        settings.lower,
        settings.scene,
    )
}

/// Some files failed.
#[derive(Debug, Clone, PartialEq, Eq)]
pub struct FilesFailed {
    pub failed: usize,
}

impl FilesFailed {
    /// The message shown for this error.
    pub fn message(&self) -> (res: String)
        ensures
            res@ == number::decimal(self.failed as nat) + (if self.failed == 1 {
                " file"@
            } else {
                " files"@
            }) + " failed; see the messages above"@,
    {
        let mut out = number::decimal_text(self.failed as u64);
        if self.failed == 1 {
            out.append(" file");
        } else {
            out.append(" files");
        }
        out.append(" failed; see the messages above");
        out
    }
}

/// Reports the run as failed where a file failed.
pub fn ensure_no_failures(failed: usize) -> (res: Result<(), FilesFailed>)
    ensures
        match res {
            Ok(()) => failed == 0,
            Err(e) => failed > 0 && e.failed == failed,
        },
{
    if failed > 0 {
        Err(FilesFailed { failed })
    } else {
        Ok(())
    }
}

/// How many records have a status is how many are left when the others are
/// taken out.
pub proof fn law_records_are_counted_by_status(log: Seq<RecordView>, status: Status)
    ensures
        status_count(log, status) == log.filter(|r: RecordView| r.status == status).len(),
    decreases log.len(),
{
    reveal(Seq::filter);
    if log.len() > 0 {
        law_records_are_counted_by_status(log.drop_last(), status);
    }
}

/// A file whose planning failed counts as failed, with the message; so does one
/// without a name. A file without a match, or that has its name, is skipped.
pub proof fn law_files_without_a_plan_are_accounted_for(message: String)
    ensures
        outcome_entry(FileOutcome::Failed(message)) == (Status::Failed, message@),
        outcome_entry(FileOutcome::NoName).0 == Status::Failed,
        outcome_entry(FileOutcome::NoMovie).0 == Status::Skipped,
        outcome_entry(FileOutcome::NoSeries).0 == Status::Skipped,
        outcome_entry(FileOutcome::Unchanged).0 == Status::Skipped,
{
}

/// What is recorded of a group that ended says how: each of its files with its
/// paths, the status of the group, and for the video the reason.
pub proof fn law_groups_are_recorded_as_they_ended(plan: PlanView, end: GroupEnd, i: int)
    ensures
        end_records(plan, end).len() == plan.subtitles.len() + 1,
        end_records(plan, end)[0].source == model::inside(plan.source.directory, plan.source.name),
        end_records(plan, end)[0].destination == Some(
            model::inside(plan.destination.directory, plan.destination.name),
        ),
        0 <= i < plan.subtitles.len() ==> end_records(plan, end)[i + 1].source == model::inside(
            plan.subtitles[i].source.directory,
            plan.subtitles[i].source.name,
        ) && end_records(plan, end)[i + 1].destination == Some(
            model::inside(
                plan.subtitles[i].destination.directory,
                plan.subtitles[i].destination.name,
            ),
        ),
        0 <= i <= plan.subtitles.len() ==> end_records(plan, end)[i].status == (match end {
            GroupEnd::Skipped(_) => Status::Skipped,
            GroupEnd::Shown => Status::DryRun,
            GroupEnd::Renamed => Status::Renamed,
            GroupEnd::Failed(_) => Status::Failed,
        }),
        end matches GroupEnd::Failed(message) ==> end_records(plan, end)[0].reason == message@,
        end matches GroupEnd::Skipped(reason) ==> end_records(plan, end)[0].reason
            == reason.words(),
{
}

/// A group that is not moved is skipped for the first of these that holds: a
/// better rival, no better one among rivals, a video or a subtitle in the way, a
/// refusal. Otherwise it is shown in a dry run, and asked about where a user is
/// there to answer.
pub proof fn law_groups_are_skipped_with_a_reason(f: GroupFacts)
    ensures
        f.standing is Outranked ==> next_step(f) == GroupStep::Skip(SkipGroup::Outranked),
        f.standing is Undecided ==> next_step(f) == GroupStep::Skip(SkipGroup::Undecided),
        (f.standing is Alone || f.standing is Preferred) && f.destination_exists ==> next_step(f)
            == GroupStep::Skip(SkipGroup::DestinationExists),
        (f.standing is Alone || f.standing is Preferred) && !f.destination_exists
            && f.subtitle_exists ==> next_step(f) == GroupStep::Skip(SkipGroup::SubtitleExists),
        (f.standing is Alone || f.standing is Preferred) && !f.destination_exists
            && !f.subtitle_exists ==> {
            &&& f.dry_run ==> next_step(f) == GroupStep::Show
            &&& !f.dry_run && !f.batch && f.answer is None ==> next_step(f) == GroupStep::Ask
            &&& !f.dry_run && !f.batch && f.answer == Some(false) ==> next_step(f)
                == GroupStep::Skip(SkipGroup::Declined)
        },
{
}

/// A file goes into the output directory where there is one, and else stays in
/// its own.
pub proof fn law_files_go_to_the_output_directory(dir: Seq<char>, source: PathView)
    ensures
        destination_dir(Some(dir), source) == dir,
        destination_dir(None, source) == source.directory,
{
}

/// The subtitles of a group that was skipped or failed are recorded with the
/// reason of the group, those of any other with their own.
pub proof fn law_subtitles_are_recorded_with_a_reason(plan: PlanView, end: GroupEnd, i: int)
    requires
        0 <= i < plan.subtitles.len(),
    ensures
        end matches GroupEnd::Failed(message) ==> end_records(plan, end)[i + 1].reason
            == "subtitle rename group "@ + "failed"@ + ": "@ + message@,
        end matches GroupEnd::Skipped(reason) ==> end_records(plan, end)[i + 1].reason
            == "subtitle rename group "@ + "skipped"@ + ": "@ + reason.words(),
        end is Renamed ==> end_records(plan, end)[i + 1].reason == "subtitle rename completed"@
            && end_records(plan, end)[0].reason == "rename completed"@,
        end is Shown ==> end_records(plan, end)[i + 1].reason
            == "subtitle rename was not applied"@ && end_records(plan, end)[0].reason
            == "rename was not applied"@,
{
}

} // verus!
