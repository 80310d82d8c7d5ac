//! The records of a run's log.
use vstd::prelude::*;

use crate::model;
use crate::model::{PathView, PlanView, RenamePlan, SubtitleView};
use crate::text;

verus! {

/// What happened to a file.
#[derive(Debug, Clone, Copy, PartialEq, Eq, Structural)]
pub enum Status {
    Renamed,
    Skipped,
    Failed,
    DryRun,
}

impl Status {
    /// The status as it stands in the log.
    pub open spec fn shown(self) -> Seq<char> {
        match self {
            Status::Renamed => "renamed"@,
            Status::Skipped => "skipped"@,
            Status::Failed => "failed"@,
            Status::DryRun => "dry_run"@,
        }
    }

    /// The status as it stands in the log.
    pub fn name(self) -> (res: &'static str)
        ensures
            res@ == self.shown(),
    {
        match self {
            Status::Renamed => "renamed",
            Status::Skipped => "skipped",
            Status::Failed => "failed",
            Status::DryRun => "dry_run",
        }
    }
}

/// One line of the log.
#[derive(Debug, Clone, PartialEq, Eq)]
pub struct LogRecord {
    pub source: String,
    pub destination: Option<String>,
    pub status: Status,
    pub reason: String,
}

/// A record with its texts as sequences of characters.
pub struct RecordView {
    pub source: Seq<char>,
    pub destination: Option<Seq<char>>,
    pub status: Status,
    pub reason: Seq<char>,
}

impl View for LogRecord {
    type V = RecordView;

    open spec fn view(&self) -> RecordView {
        RecordView {
            source: self.source@,
            destination: text::opt_view(self.destination),
            status: self.status,
            reason: self.reason@,
        }
    }
}

/// The views of a list of records.
pub open spec fn record_views(list: Seq<LogRecord>) -> Seq<RecordView> {
    list.map_values(|r: LogRecord| r@)
}

/// The record of one move.
pub open spec fn move_record(
    source: PathView,
    destination: PathView,
    status: Status,
    reason: Seq<char>,
) -> RecordView {
    RecordView {
        source: source.shown(),
        destination: Some(destination.shown()),
        status,
        reason,
    }
}

/// The records of a video and its subtitles.
pub open spec fn plan_records(
    plan: PlanView,
    status: Status,
    reason: Seq<char>,
    subtitle_reason: Seq<char>,
) -> Seq<RecordView> {
    seq![move_record(plan.source, plan.destination, status, reason)] + plan.subtitles.map_values(
        |s: SubtitleView| move_record(s.source, s.destination, status, subtitle_reason),
    )
}

/// The reason in the records of a group's subtitles.
pub open spec fn group_reason(status: Status, reason: Seq<char>) -> Seq<char> {
    "subtitle rename group "@ + status.shown() + ": "@ + reason
}

/// Writes one record for a video and one for each of its subtitles.
pub fn record_plan(plan: &RenamePlan, status: Status, reason: &str, subtitle_reason: &str) -> (res:
    Vec<LogRecord>)
    ensures
        record_views(res@) == plan_records(plan@, status, reason@, subtitle_reason@),
{
    let ghost subtitles = plan@.subtitles;
    let ghost f = |s: SubtitleView| move_record(s.source, s.destination, status, subtitle_reason@);
    let mut out: Vec<LogRecord> = Vec::new();
    out.push(
        LogRecord {
            source: plan.source.display(),
            destination: Some(plan.destination.display()),
            status,
            reason: String::from_str(reason),
        },
    );
    let ghost head = move_record(plan@.source, plan@.destination, status, reason@);
    let mut i: usize = 0;
    assert(record_views(out@) =~= seq![head] + subtitles.take(0).map_values(f));
    while i < plan.subtitles.len()
        invariant
            i <= plan.subtitles.len(),
            subtitles == model::subtitle_views(plan.subtitles@),
            f == (|s: SubtitleView| move_record(s.source, s.destination, status, subtitle_reason@)),
            record_views(out@) == seq![head] + subtitles.take(i as int).map_values(f),
        decreases plan.subtitles.len() - i,
    {
        let ghost before = record_views(out@);
        out.push(
            LogRecord {
                source: plan.subtitles[i].source.display(),
                destination: Some(plan.subtitles[i].destination.display()),
                status,
                reason: String::from_str(subtitle_reason),
            },
        );
        assert(subtitles[i as int] == plan.subtitles@[i as int]@);
        assert(record_views(out@) =~= before.push(f(subtitles[i as int])));
        assert(seq![head] + subtitles.take(i + 1).map_values(f) =~= before.push(
            f(subtitles[i as int]),
        ));
        i += 1;
    }
    assert(subtitles.take(subtitles.len() as int) =~= subtitles);
    out
}

/// Writes the records of a group that was skipped or failed as a whole. A failed
/// group may have been rolled back or not, or may have stopped before a subtitle
/// was attempted: the records report the outcome of the group, not the state of
/// each file.
pub fn record_group(plan: &RenamePlan, status: Status, reason: &str) -> (res: Vec<LogRecord>)
    ensures
        record_views(res@) == plan_records(plan@, status, reason@, group_reason(status, reason@)),
{
    let mut subtitle_reason = String::from_str("subtitle rename group ");
    subtitle_reason.append(status.name());
    subtitle_reason.append(": ");
    subtitle_reason.append(reason);
    record_plan(plan, status, reason, subtitle_reason.as_str())
}

/// Writes the records of a group that was renamed.
pub fn record_renamed(plan: &RenamePlan) -> (res: Vec<LogRecord>)
    ensures
        record_views(res@) == plan_records(
            plan@,
            Status::Renamed,
            "rename completed"@,
            "subtitle rename completed"@,
        ),
{
    record_plan(plan, Status::Renamed, "rename completed", "subtitle rename completed")
}

/// Writes the records of a group that was only shown.
pub fn record_dry_run(plan: &RenamePlan) -> (res: Vec<LogRecord>)
    ensures
        record_views(res@) == plan_records(
            plan@,
            Status::DryRun,
            "rename was not applied"@,
            "subtitle rename was not applied"@,
        ),
{
    record_plan(plan, Status::DryRun, "rename was not applied", "subtitle rename was not applied")
}

/// Writes the record of a file that did not come to a rename.
pub fn record_file(source: &str, destination: Option<String>, status: Status, reason: &str) -> (res:
    LogRecord)
    ensures
        res@ == (RecordView {
            source: source@,
            destination: text::opt_view(destination),
            status,
            reason: reason@,
        }),
{
    LogRecord {
        source: String::from_str(source),
        destination,
        status,
        reason: String::from_str(reason),
    }
}

/// A copy of a record.
pub fn copy_record(record: &LogRecord) -> (res: LogRecord)
    ensures
        res@ == record@,
{
    LogRecord {
        source: record.source.clone(),
        destination: match &record.destination {
            Some(d) => Some(d.clone()),
            None => None,
        },
        status: record.status,
        reason: record.reason.clone(),
    }
}

/// A group's records are one for each of its files, in order, all with the
/// group's status, and each subtitle's reason ends with the group's.
pub proof fn law_every_member_of_a_group_is_recorded(plan: PlanView, status: Status, reason: Seq<char>)
    ensures
        plan_records(plan, status, reason, group_reason(status, reason)).len() == 1
            + plan.subtitles.len(),
        forall|i: int|
            0 <= i < 1 + plan.subtitles.len() ==> (#[trigger] plan_records(
                plan,
                status,
                reason,
                group_reason(status, reason),
            )[i]).status == status,
        forall|i: int|
            0 <= i < plan.subtitles.len() ==> {
                let record = plan_records(plan, status, reason, group_reason(status, reason))[i + 1];
                &&& record.source == (#[trigger] plan.subtitles[i]).source.shown()
                &&& record.destination == Some(plan.subtitles[i].destination.shown())
                &&& record.reason.len() >= reason.len()
                &&& record.reason.skip(record.reason.len() - reason.len()) == reason
            },
{
    let long = group_reason(status, reason);
    assert(long.skip(long.len() - reason.len()) =~= reason);
}

/// The first record of a group is that of the video, with its paths, the status
/// and the reason; the others are those of the subtitles, in order.
pub proof fn law_records_show_where_files_went(
    plan: PlanView,
    status: Status,
    reason: Seq<char>,
    subtitle_reason: Seq<char>,
    i: int,
)
    ensures
        plan_records(plan, status, reason, subtitle_reason).len() == plan.subtitles.len() + 1,
        plan_records(plan, status, reason, subtitle_reason)[0] == (RecordView {
            source: model::inside(plan.source.directory, plan.source.name),
            destination: Some(model::inside(plan.destination.directory, plan.destination.name)),
            status,
            reason,
        }),
        0 <= i < plan.subtitles.len() ==> plan_records(plan, status, reason, subtitle_reason)[i + 1]
            == (RecordView {
            source: model::inside(
                plan.subtitles[i].source.directory,
                plan.subtitles[i].source.name,
            ),
            destination: Some(
                model::inside(
                    plan.subtitles[i].destination.directory,
                    plan.subtitles[i].destination.name,
                ),
            ),
            status,
            reason: subtitle_reason,
        }),
{
}

/// The reason in a subtitle's record says what became of its group and why.
pub proof fn law_subtitle_reasons_tell_of_the_group(status: Status, reason: Seq<char>)
    ensures
        group_reason(status, reason) == "subtitle rename group "@ + (match status {
            Status::Renamed => "renamed"@,
            Status::Skipped => "skipped"@,
            Status::Failed => "failed"@,
            Status::DryRun => "dry_run"@,
        }) + ": "@ + reason,
{
}

} // verus!
