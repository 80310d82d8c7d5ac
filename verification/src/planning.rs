//! Planning the files of a run one after the other, step by step.
use vstd::prelude::*;

use crate::cli::MediaType;
use crate::model::{MediaPath, SubtitlePlan};
use crate::parser;
use crate::parser::Guess;
use crate::resolve;
use crate::workflow::{Destination, FileOutcome};

verus! {

/// How far the planning of a file is.
pub enum FileStage {
    /// Its name is read.
    Guess,
    /// The movie that it names is looked up.
    Movie { title: String, year: Option<u32> },
    /// The episodes that it names are looked up.
    Episode { series: String, season: u32, episode: u32, episode_end: Option<u32> },
    /// Its destination is settled, by this new name.
    Named(String),
    /// Its subtitles are searched for; it goes to this path.
    Subtitles(MediaPath),
    /// It is renamed, with the subtitles where those were searched for.
    Planned { destination: MediaPath, subtitles: Option<Vec<SubtitlePlan>> },
    /// It is not renamed. Its destination is known where it was settled before.
    Ended { outcome: FileOutcome, destination: Option<MediaPath> },
}

/// What came of the work on a file at its stage.
pub enum FileEvent {
    /// Its name was refused, with this message.
    Refused(String),
    /// Its name was read.
    Guessed(Guess),
    /// The lookup found what the name stands for; the file is to have this name.
    Found(String),
    /// The lookup found nothing, or nothing was chosen.
    NotFound,
    /// The lookup, or the search for subtitles, failed with this message.
    Failed(String),
    /// Its destination was settled, and whether subtitles go with it.
    Settled { destination: Destination, subtitles: bool },
    /// The search for subtitles found these.
    SubtitlesFound(Vec<SubtitlePlan>),
}

/// Whether a file is being looked up.
pub open spec fn is_lookup(stage: FileStage) -> bool {
    stage is Movie || stage is Episode
}

/// Whether nothing more is done to plan a file.
pub open spec fn is_over(stage: FileStage) -> bool {
    stage is Planned || stage is Ended
}

/// The stage at which what a name says is looked up.
pub open spec fn lookup_of(guess: Guess) -> FileStage {
    match guess {
        Guess::Movie { title, year } => FileStage::Movie { title, year },
        Guess::Episode { series, season, episode, episode_end, .. } => FileStage::Episode {
            series,
            season,
            episode,
            episode_end,
        },
    }
}

/// The end of a file whose destination was not settled.
pub open spec fn ended(outcome: FileOutcome) -> FileStage {
    FileStage::Ended { outcome, destination: None }
}

/// The stage of a file whose destination was settled.
pub open spec fn settled(destination: Destination, subtitles: bool) -> FileStage {
    match destination {
        Destination::NoName => ended(FileOutcome::NoName),
        Destination::Unchanged(path) => FileStage::Ended {
            outcome: FileOutcome::Unchanged,
            destination: Some(path),
        },
        Destination::New(path) => if subtitles {
            FileStage::Subtitles(path)
        } else {
            FileStage::Planned { destination: path, subtitles: None }
        },
    }
}

/// The stage that follows an event: reading the name, the lookup, settling the
/// destination, the subtitles, in this order. A stage that does not wait for an
/// event of that kind stays as it is.
pub open spec fn next_file_stage(stage: FileStage, event: FileEvent) -> FileStage {
    match (stage, event) {
        (FileStage::Guess, FileEvent::Refused(message)) => ended(FileOutcome::Failed(message)),
        (FileStage::Guess, FileEvent::Guessed(guess)) => lookup_of(guess),
        (FileStage::Movie { .. }, FileEvent::Found(name)) => FileStage::Named(name),
        (FileStage::Movie { .. }, FileEvent::NotFound) => ended(FileOutcome::NoMovie),
        (FileStage::Movie { .. }, FileEvent::Failed(message)) => ended(
            FileOutcome::Failed(message),
        ),
        (FileStage::Episode { .. }, FileEvent::Found(name)) => FileStage::Named(name),
        (FileStage::Episode { .. }, FileEvent::NotFound) => ended(FileOutcome::NoSeries),
        (FileStage::Episode { .. }, FileEvent::Failed(message)) => ended(
            FileOutcome::Failed(message),
        ),
        (FileStage::Named(_), FileEvent::Settled { destination, subtitles }) => settled(
            destination,
            subtitles,
        ),
        (FileStage::Subtitles(path), FileEvent::SubtitlesFound(found)) => FileStage::Planned {
            destination: path,
            subtitles: Some(found),
        },
        (FileStage::Subtitles(path), FileEvent::Failed(message)) => FileStage::Ended {
            outcome: FileOutcome::Failed(message),
            destination: Some(path),
        },
        (stage, _) => stage,
    }
}

fn look_up(guess: Guess) -> (res: FileStage)
    ensures
        res == lookup_of(guess),
{
    match guess {
        Guess::Movie { title, year } => FileStage::Movie { title, year },
        Guess::Episode { series, season, episode, episode_end, .. } => FileStage::Episode {
            series,
            season,
            episode,
            episode_end,
        },
    }
}

fn settle(destination: Destination, subtitles: bool) -> (res: FileStage)
    ensures
        res == settled(destination, subtitles),
{
    match destination {
        Destination::NoName => FileStage::Ended {
            outcome: FileOutcome::NoName,
            destination: None,
        },
        Destination::Unchanged(path) => FileStage::Ended {
            outcome: FileOutcome::Unchanged,
            destination: Some(path),
        },
        Destination::New(path) => if subtitles {
            FileStage::Subtitles(path)
        } else {
            FileStage::Planned { destination: path, subtitles: None }
        },
    }
}

/// Goes on with a file after an event.
pub fn file_step(stage: FileStage, event: FileEvent) -> (res: FileStage)
    ensures
        res == next_file_stage(stage, event),
{
    match (stage, event) {
        (FileStage::Guess, FileEvent::Refused(message)) => FileStage::Ended {
            outcome: FileOutcome::Failed(message),
            destination: None,
        },
        (FileStage::Guess, FileEvent::Guessed(guess)) => look_up(guess),
        (FileStage::Movie { .. }, FileEvent::Found(name)) => FileStage::Named(name),
        (FileStage::Movie { .. }, FileEvent::NotFound) => FileStage::Ended {
            outcome: FileOutcome::NoMovie,
            destination: None,
        },
        (FileStage::Movie { .. }, FileEvent::Failed(message)) => FileStage::Ended {
            outcome: FileOutcome::Failed(message),
            destination: None,
        },
        (FileStage::Episode { .. }, FileEvent::Found(name)) => FileStage::Named(name),
        (FileStage::Episode { .. }, FileEvent::NotFound) => FileStage::Ended {
            outcome: FileOutcome::NoSeries,
            destination: None,
        },
        (FileStage::Episode { .. }, FileEvent::Failed(message)) => FileStage::Ended {
            outcome: FileOutcome::Failed(message),
            destination: None,
        },
        (FileStage::Named(_), FileEvent::Settled { destination, subtitles }) => settle(
            destination,
            subtitles,
        ),
        (FileStage::Subtitles(path), FileEvent::SubtitlesFound(found)) => FileStage::Planned {
            destination: path,
            subtitles: Some(found),
        },
        (FileStage::Subtitles(path), FileEvent::Failed(message)) => FileStage::Ended {
            outcome: FileOutcome::Failed(message),
            destination: Some(path),
        },
        (stage, _) => stage,
    }
}

/// Reads a file's name: what it says, taken for the kind of media that was asked
/// for, or why it is refused.
pub fn read_name(stem: &str, media: MediaType) -> (res: FileEvent)
    ensures
        match parser::name_error(parser::normalized(stem@)) {
            Some(error) => res matches FileEvent::Refused(message) && message@ == error.message(),
            None => res matches FileEvent::Guessed(guess) && guess@ == resolve::as_media(
                media,
                parser::guessed(parser::normalized(stem@)),
            ),
        },
{
    match resolve::guess_file(stem, media) {
        Ok(guess) => FileEvent::Guessed(guess),
        Err(error) => FileEvent::Refused(error.message()),
    }
}

/// A run's place among its files: the number of the file that is being planned,
/// and how far it is.
pub struct Planning {
    pub file: usize,
    pub stage: FileStage,
}

impl Planning {
    /// The place after an event: the next file begins when one is over, however
    /// it ended.
    pub open spec fn after(self, event: FileEvent) -> Planning {
        let stage = next_file_stage(self.stage, event);
        if is_over(stage) {
            Planning { file: (self.file + 1) as usize, stage: FileStage::Guess }
        } else {
            Planning { file: self.file, stage }
        }
    }

    /// How the file ended, where the event is its last.
    pub open spec fn end(self, event: FileEvent) -> Option<FileStage> {
        let stage = next_file_stage(self.stage, event);
        if is_over(stage) {
            Some(stage)
        } else {
            None
        }
    }

    /// Begins with the first file.
    pub fn new() -> (res: Planning)
        ensures
            res == (Planning { file: 0, stage: FileStage::Guess }),
    {
        Planning { file: 0, stage: FileStage::Guess }
    }

    /// Goes on after an event. The end of a file is handed out when it is over.
    pub fn step(self, event: FileEvent) -> (res: (Planning, Option<FileStage>))
        requires
            self.file < usize::MAX,
        ensures
            res.0 == self.after(event),
            res.1 == self.end(event),
    {
        match file_step(self.stage, event) {
            FileStage::Planned { destination, subtitles } => (
                Planning { file: self.file + 1, stage: FileStage::Guess },
                Some(FileStage::Planned { destination, subtitles }),
            ),
            FileStage::Ended { outcome, destination } => (
                Planning { file: self.file + 1, stage: FileStage::Guess },
                Some(FileStage::Ended { outcome, destination }),
            ),
            stage => (Planning { file: self.file, stage }, None),
        }
    }
}

/// The stage of a file after several events.
pub open spec fn file_after(stage: FileStage, events: Seq<FileEvent>) -> FileStage
    decreases events.len(),
{
    if events.len() == 0 {
        stage
    } else {
        file_after(next_file_stage(stage, events[0]), events.skip(1))
    }
}

/// A run's place after several events.
pub open spec fn place_after(place: Planning, events: Seq<FileEvent>) -> Planning
    decreases events.len(),
{
    if events.len() == 0 {
        place
    } else {
        place_after(place.after(events[0]), events.skip(1))
    }
}

/// The ends of the files of a run, from the stage of the first of them.
pub open spec fn file_ends(stage: FileStage, events: Seq<FileEvent>) -> Seq<FileStage>
    decreases events.len(),
{
    if events.len() == 0 {
        Seq::empty()
    } else {
        let next = next_file_stage(stage, events[0]);
        if is_over(next) {
            seq![next] + file_ends(FileStage::Guess, events.skip(1))
        } else {
            file_ends(next, events.skip(1))
        }
    }
}

/// A file that is over stays as it is.
pub proof fn law_files_that_are_over_stay_so(stage: FileStage, events: Seq<FileEvent>)
    requires
        is_over(stage),
    ensures
        file_after(stage, events) == stage,
    decreases events.len(),
{
    if events.len() > 0 {
        law_files_that_are_over_stay_so(stage, events.skip(1));
    }
}

/// A refused name never reaches a lookup: the file is reported as failed with
/// the message of its refusal, whatever happens next.
pub proof fn law_refused_names_are_not_looked_up(message: String, events: Seq<FileEvent>)
    ensures
        file_after(FileStage::Guess, seq![FileEvent::Refused(message)] + events) == ended(
            FileOutcome::Failed(message),
        ),
        !is_lookup(file_after(FileStage::Guess, seq![FileEvent::Refused(message)] + events)),
{
    let all = seq![FileEvent::Refused(message)] + events;
    assert(all.skip(1) =~= events);
    law_files_that_are_over_stay_so(ended(FileOutcome::Failed(message)), events);
}

/// Whatever is looked up for a file was read from its name before.
pub proof fn law_lookups_follow_a_name(events: Seq<FileEvent>)
    requires
        is_lookup(file_after(FileStage::Guess, events)),
    ensures
        exists|i: int|
            0 <= i < events.len() && (#[trigger] events[i] matches FileEvent::Guessed(guess)
                && file_after(FileStage::Guess, events) == lookup_of(guess)),
    decreases events.len(),
{
    let rest = events.skip(1);
    match events[0] {
        FileEvent::Guessed(guess) => {
            lemma_lookup_stays(lookup_of(guess), rest);
            assert(events[0] == FileEvent::Guessed(guess));
        },
        FileEvent::Refused(message) => {
            law_files_that_are_over_stay_so(ended(FileOutcome::Failed(message)), rest);
        },
        _ => {
            law_lookups_follow_a_name(rest);
            let i = choose|i: int|
                0 <= i < rest.len() && (#[trigger] rest[i] matches FileEvent::Guessed(guess)
                    && file_after(FileStage::Guess, rest) == lookup_of(guess));
            assert(events[i + 1] == rest[i]);
        },
    }
}

/// How many stages a file has behind it at most.
pub open spec fn rank(stage: FileStage) -> int {
    match stage {
        FileStage::Guess => 0,
        FileStage::Movie { .. } | FileStage::Episode { .. } => 1,
        FileStage::Named(_) => 2,
        FileStage::Subtitles(_) => 3,
        FileStage::Planned { .. } | FileStage::Ended { .. } => 4,
    }
}

/// An event leaves a file as it is or brings it forward.
pub proof fn law_files_go_forward(stage: FileStage, event: FileEvent)
    ensures
        next_file_stage(stage, event) == stage || rank(next_file_stage(stage, event)) > rank(
            stage,
        ),
{
}

proof fn lemma_lookup_stays(stage: FileStage, events: Seq<FileEvent>)
    requires
        is_lookup(stage),
    ensures
        is_lookup(file_after(stage, events)) ==> file_after(stage, events) == stage,
    decreases events.len(),
{
    if events.len() > 0 {
        let next = next_file_stage(stage, events[0]);
        if is_lookup(next) {
            lemma_lookup_stays(next, events.skip(1));
        } else {
            lemma_past_lookup(next, events.skip(1));
        }
    }
}

proof fn lemma_past_lookup(stage: FileStage, events: Seq<FileEvent>)
    requires
        rank(stage) > 1,
    ensures
        rank(file_after(stage, events)) > 1,
    decreases events.len(),
{
    if events.len() > 0 {
        law_files_go_forward(stage, events[0]);
        lemma_past_lookup(next_file_stage(stage, events[0]), events.skip(1));
    }
}

/// Whether these are all the events of one file: it is over after the last of
/// them and not before.
pub open spec fn is_whole_file(stage: FileStage, events: Seq<FileEvent>) -> bool
    decreases events.len(),
{
    if events.len() == 0 {
        is_over(stage)
    } else {
        !is_over(stage) && is_whole_file(next_file_stage(stage, events[0]), events.skip(1))
    }
}

/// The other files of a run go on after one that is over, however it ended: the
/// next file begins at its name, and what becomes of it, and of all after it, is
/// what would become of them alone.
pub proof fn law_other_files_go_on(place: Planning, events: Seq<FileEvent>, more: Seq<FileEvent>)
    requires
        place.file < usize::MAX,
        !is_over(place.stage),
        is_whole_file(place.stage, events),
    ensures
        place_after(place, events) == (Planning {
            file: (place.file + 1) as usize,
            stage: FileStage::Guess,
        }),
        file_ends(place.stage, events + more) == seq![file_after(place.stage, events)]
            + file_ends(FileStage::Guess, more),
    decreases events.len(),
{
    reveal_with_fuel(is_whole_file, 2);
    let all = events + more;
    let rest = events.skip(1);
    let next = next_file_stage(place.stage, events[0]);
    assert(all.skip(1) =~= rest + more);
    assert(all[0] == events[0]);
    if is_over(next) {
        assert(rest + more =~= more);
        assert(file_after(next, rest) == next);
        assert(place_after(place.after(events[0]), rest) == place.after(events[0]));
    } else {
        law_other_files_go_on(place.after(events[0]), rest, more);
    }
}

/// Each stage leads to the next with what it came to: the name that was read to a
/// lookup of what it says, the lookup to the new name, the destination to the
/// subtitles where these are asked for, and those to the plan. Where a stage
/// comes to nothing the file ends with the reason.
pub proof fn law_stages_hand_on_what_they_came_to(
    series: String,
    season: u32,
    episode: u32,
    episode_end: Option<u32>,
    year: Option<u32>,
    text: String,
    path: MediaPath,
    found: Vec<SubtitlePlan>,
)
    ensures
        ({
            let movie = FileStage::Movie { title: series, year };
            let lookup = FileStage::Episode { series, season, episode, episode_end };
            let guess = Guess::Episode { series, season, episode, episode_end, year };
            let new = FileEvent::Settled { destination: Destination::New(path), subtitles: true };
            let alone = FileEvent::Settled {
                destination: Destination::New(path),
                subtitles: false,
            };
            let same = FileEvent::Settled {
                destination: Destination::Unchanged(path),
                subtitles: true,
            };
            let none = FileEvent::Settled { destination: Destination::NoName, subtitles: true };
            &&& next_file_stage(
                FileStage::Guess,
                FileEvent::Guessed(Guess::Movie { title: series, year }),
            ) == movie
            &&& next_file_stage(FileStage::Guess, FileEvent::Guessed(guess)) == lookup
            &&& next_file_stage(movie, FileEvent::Found(text)) == FileStage::Named(text)
            &&& next_file_stage(lookup, FileEvent::Found(text)) == FileStage::Named(text)
            &&& next_file_stage(movie, FileEvent::NotFound) == (FileStage::Ended {
                outcome: FileOutcome::NoMovie,
                destination: None,
            })
            &&& next_file_stage(lookup, FileEvent::NotFound) == (FileStage::Ended {
                outcome: FileOutcome::NoSeries,
                destination: None,
            })
            &&& next_file_stage(movie, FileEvent::Failed(text)) == (FileStage::Ended {
                outcome: FileOutcome::Failed(text),
                destination: None,
            })
            &&& next_file_stage(lookup, FileEvent::Failed(text)) == (FileStage::Ended {
                outcome: FileOutcome::Failed(text),
                destination: None,
            })
            &&& next_file_stage(FileStage::Named(text), new) == FileStage::Subtitles(path)
            &&& next_file_stage(FileStage::Named(text), alone) == (FileStage::Planned {
                destination: path,
                subtitles: None,
            })
            &&& next_file_stage(FileStage::Named(text), same) == (FileStage::Ended {
                outcome: FileOutcome::Unchanged,
                destination: Some(path),
            })
            &&& next_file_stage(FileStage::Named(text), none) == (FileStage::Ended {
                outcome: FileOutcome::NoName,
                destination: None,
            })
            &&& next_file_stage(FileStage::Subtitles(path), FileEvent::SubtitlesFound(found)) == (
            FileStage::Planned { destination: path, subtitles: Some(found) })
            &&& next_file_stage(FileStage::Subtitles(path), FileEvent::Failed(text)) == (
            FileStage::Ended { outcome: FileOutcome::Failed(text), destination: Some(path) })
        }),
{
}

} // verus!
