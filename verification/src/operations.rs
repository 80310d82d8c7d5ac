//! Moving files without ever replacing one, and undoing half-done groups.
use vstd::prelude::*;

use crate::text;

verus! {

/// Why a move failed.
#[derive(Debug, Clone, Copy, PartialEq, Eq)]
pub enum MoveFailure {
    /// The destination's directory could not be made.
    Parent,
    /// Something stands at the destination.
    Exists,
    /// Something came to stand at the destination meanwhile.
    Appeared,
    /// The original could not be removed; the new link was.
    LinkUndone,
    /// Neither the original nor the new link could be removed.
    LinkStuck,
    Open,
    Metadata,
    Temporary,
    Copy,
    Permissions,
    Sync,
    Publish,
    /// The original could not be removed; the copy was.
    CopyUndone,
    /// Neither the original nor the copy could be removed.
    CopyStuck,
}

/// How far a move is.
#[derive(Debug, Clone, Copy, PartialEq, Eq)]
pub enum MoveStage {
    /// The destination's directory is made.
    MakeParent,
    /// It is checked that nothing stands at the destination.
    Check,
    /// The destination is linked to the source.
    Link,
    /// After a failed link it is checked again that nothing stands there.
    Recheck,
    /// The source is removed after the link.
    RemoveLinked,
    /// The link is removed again.
    UndoLink,
    /// The source is opened.
    Open,
    /// The permissions of the source are read.
    Metadata,
    /// A temporary file is made beside the destination.
    Temporary,
    /// The source is copied to the temporary file.
    Copy,
    /// The temporary file gets the permissions of the source.
    Permissions,
    /// The temporary file is written out.
    Sync,
    /// The temporary file becomes the destination, unless something stands there.
    Publish,
    /// The source is removed after the copy.
    RemoveCopied,
    /// The copy is removed again.
    UndoCopy,
    /// The file has moved.
    Done,
    /// The file has not moved.
    Failed(MoveFailure),
}

/// The stage after this one, by whether it went well. A check goes well where
/// nothing stands at the destination.
pub open spec fn next_stage(stage: MoveStage, force_copy: bool, ok: bool) -> MoveStage {
    match (stage, ok) {
        (MoveStage::MakeParent, true) => MoveStage::Check,
        (MoveStage::MakeParent, false) => MoveStage::Failed(MoveFailure::Parent),
        (MoveStage::Check, true) => if force_copy {
            MoveStage::Open
        } else {
            MoveStage::Link
        },
        (MoveStage::Check, false) => MoveStage::Failed(MoveFailure::Exists),
        (MoveStage::Link, true) => MoveStage::RemoveLinked,
        (MoveStage::Link, false) => MoveStage::Recheck,
        (MoveStage::Recheck, true) => MoveStage::Open,
        (MoveStage::Recheck, false) => MoveStage::Failed(MoveFailure::Appeared),
        (MoveStage::RemoveLinked, true) => MoveStage::Done,
        (MoveStage::RemoveLinked, false) => MoveStage::UndoLink,
        (MoveStage::UndoLink, true) => MoveStage::Failed(MoveFailure::LinkUndone),
        (MoveStage::UndoLink, false) => MoveStage::Failed(MoveFailure::LinkStuck),
        (MoveStage::Open, true) => MoveStage::Metadata,
        (MoveStage::Open, false) => MoveStage::Failed(MoveFailure::Open),
        (MoveStage::Metadata, true) => MoveStage::Temporary,
        (MoveStage::Metadata, false) => MoveStage::Failed(MoveFailure::Metadata),
        (MoveStage::Temporary, true) => MoveStage::Copy,
        (MoveStage::Temporary, false) => MoveStage::Failed(MoveFailure::Temporary),
        (MoveStage::Copy, true) => MoveStage::Permissions,
        (MoveStage::Copy, false) => MoveStage::Failed(MoveFailure::Copy),
        (MoveStage::Permissions, true) => MoveStage::Sync,
        (MoveStage::Permissions, false) => MoveStage::Failed(MoveFailure::Permissions),
        (MoveStage::Sync, true) => MoveStage::Publish,
        (MoveStage::Sync, false) => MoveStage::Failed(MoveFailure::Sync),
        (MoveStage::Publish, true) => MoveStage::RemoveCopied,
        (MoveStage::Publish, false) => MoveStage::Failed(MoveFailure::Publish),
        (MoveStage::RemoveCopied, true) => MoveStage::Done,
        (MoveStage::RemoveCopied, false) => MoveStage::UndoCopy,
        (MoveStage::UndoCopy, true) => MoveStage::Failed(MoveFailure::CopyUndone),
        (MoveStage::UndoCopy, false) => MoveStage::Failed(MoveFailure::CopyStuck),
        (MoveStage::Done, _) => MoveStage::Done,
        (MoveStage::Failed(f), _) => MoveStage::Failed(f),
    }
}

/// Decides the stage after this one.
pub fn stage_after(stage: MoveStage, force_copy: bool, ok: bool) -> (res: MoveStage)
    ensures
        res == next_stage(stage, force_copy, ok),
{
    match (stage, ok) {
        (MoveStage::MakeParent, true) => MoveStage::Check,
        (MoveStage::MakeParent, false) => MoveStage::Failed(MoveFailure::Parent),
        (MoveStage::Check, true) => if force_copy {
            MoveStage::Open
        } else {
            MoveStage::Link
        },
        (MoveStage::Check, false) => MoveStage::Failed(MoveFailure::Exists),
        (MoveStage::Link, true) => MoveStage::RemoveLinked,
        (MoveStage::Link, false) => MoveStage::Recheck,
        (MoveStage::Recheck, true) => MoveStage::Open,
        (MoveStage::Recheck, false) => MoveStage::Failed(MoveFailure::Appeared),
        (MoveStage::RemoveLinked, true) => MoveStage::Done,
        (MoveStage::RemoveLinked, false) => MoveStage::UndoLink,
        (MoveStage::UndoLink, true) => MoveStage::Failed(MoveFailure::LinkUndone),
        (MoveStage::UndoLink, false) => MoveStage::Failed(MoveFailure::LinkStuck),
        (MoveStage::Open, true) => MoveStage::Metadata,
        (MoveStage::Open, false) => MoveStage::Failed(MoveFailure::Open),
        (MoveStage::Metadata, true) => MoveStage::Temporary,
        (MoveStage::Metadata, false) => MoveStage::Failed(MoveFailure::Metadata),
        (MoveStage::Temporary, true) => MoveStage::Copy,
        (MoveStage::Temporary, false) => MoveStage::Failed(MoveFailure::Temporary),
        (MoveStage::Copy, true) => MoveStage::Permissions,
        (MoveStage::Copy, false) => MoveStage::Failed(MoveFailure::Copy),
        (MoveStage::Permissions, true) => MoveStage::Sync,
        (MoveStage::Permissions, false) => MoveStage::Failed(MoveFailure::Permissions),
        (MoveStage::Sync, true) => MoveStage::Publish,
        (MoveStage::Sync, false) => MoveStage::Failed(MoveFailure::Sync),
        (MoveStage::Publish, true) => MoveStage::RemoveCopied,
        (MoveStage::Publish, false) => MoveStage::Failed(MoveFailure::Publish),
        (MoveStage::RemoveCopied, true) => MoveStage::Done,
        (MoveStage::RemoveCopied, false) => MoveStage::UndoCopy,
        (MoveStage::UndoCopy, true) => MoveStage::Failed(MoveFailure::CopyUndone),
        (MoveStage::UndoCopy, false) => MoveStage::Failed(MoveFailure::CopyStuck),
        (MoveStage::Done, _) => MoveStage::Done,
        (MoveStage::Failed(f), _) => MoveStage::Failed(f),
    }
}

/// One move under way, with the messages of what went wrong in it.
#[derive(Debug, Clone)]
pub struct Move {
    pub stage: MoveStage,
    pub force_copy: bool,
    /// What went wrong first.
    pub cause: String,
    /// What went wrong when the move was undone.
    pub cleanup: String,
}

/// Where a move starts: a destination without a directory needs none made.
pub open spec fn first_stage(has_parent: bool) -> MoveStage {
    if has_parent {
        MoveStage::MakeParent
    } else {
        MoveStage::Check
    }
}

impl Move {
    /// A move that has not begun. `force_copy` rules a link out.
    pub fn new(has_parent: bool, force_copy: bool) -> (res: Move)
        ensures
            res.stage == first_stage(has_parent),
            res.force_copy == force_copy,
            res.cause@.len() == 0,
            res.cleanup@.len() == 0,
    {
        Move {
            stage: if has_parent {
                MoveStage::MakeParent
            } else {
                MoveStage::Check
            },
            force_copy,
            cause: String::new(),
            cleanup: String::new(),
        }
    }

    /// Goes on to the next stage, with what came of this one. What goes wrong is
    /// remembered: when the move is undone apart from what went wrong before.
    pub fn advance(&mut self, outcome: Result<(), String>)
        ensures
            final(self).stage == next_stage(old(self).stage, old(self).force_copy, outcome is Ok),
            final(self).force_copy == old(self).force_copy,
            match outcome {
                Ok(()) => final(self).cause == old(self).cause && final(self).cleanup
                    == old(self).cleanup,
                Err(message) => match old(self).stage {
                    MoveStage::UndoLink | MoveStage::UndoCopy => final(self).cause
                        == old(self).cause && final(self).cleanup == message,
                    MoveStage::Recheck | MoveStage::Done | MoveStage::Failed(_) => final(self).cause
                        == old(self).cause && final(self).cleanup == old(self).cleanup,
                    _ => final(self).cause == message && final(self).cleanup
                        == old(self).cleanup,
                },
            },
    {
        let stage = self.stage;
        match outcome {
            Ok(()) => {
                self.stage = stage_after(stage, self.force_copy, true);
            },
            Err(message) => {
                self.stage = stage_after(stage, self.force_copy, false);
                match stage {
                    MoveStage::UndoLink | MoveStage::UndoCopy => {
                        self.cleanup = message;
                    },
                    MoveStage::Recheck | MoveStage::Done | MoveStage::Failed(_) => {},
                    _ => {
                        self.cause = message;
                    },
                }
            },
        }
    }
}

/// The files of a file system by their paths, and a temporary file.
pub struct World {
    pub files: Map<Seq<char>, Seq<u8>>,
    pub temporary: Option<Seq<u8>>,
}

/// What a stage that ends this way does to the files.
pub open spec fn effect(
    stage: MoveStage,
    ok: bool,
    w: World,
    from: Seq<char>,
    to: Seq<char>,
) -> World {
    if !ok {
        w
    } else {
        match stage {
            MoveStage::Link => World { files: w.files.insert(to, w.files[from]), ..w },
            MoveStage::RemoveLinked | MoveStage::RemoveCopied => World {
                files: w.files.remove(from),
                ..w
            },
            MoveStage::UndoLink | MoveStage::UndoCopy => World { files: w.files.remove(to), ..w },
            MoveStage::Copy => World { temporary: Some(w.files[from]), ..w },
            MoveStage::Publish => World {
                files: w.files.insert(to, w.temporary->0),
                temporary: None,
            },
            _ => w,
        }
    }
}

/// Whether a stage can end this way: checks tell the truth, a link is made only
/// from a file to where nothing stands, and only what is there can be read,
/// copied or removed.
pub open spec fn can_end(
    stage: MoveStage,
    ok: bool,
    w: World,
    from: Seq<char>,
    to: Seq<char>,
) -> bool {
    match stage {
        MoveStage::Check | MoveStage::Recheck => ok == !w.files.contains_key(to),
        MoveStage::Link => ok ==> w.files.contains_key(from) && !w.files.contains_key(to),
        MoveStage::Open | MoveStage::Copy => ok ==> w.files.contains_key(from),
        MoveStage::Publish => ok ==> !w.files.contains_key(to),
        MoveStage::RemoveLinked | MoveStage::RemoveCopied => ok ==> w.files.contains_key(from),
        MoveStage::UndoLink | MoveStage::UndoCopy => ok ==> w.files.contains_key(to),
        _ => true,
    }
}

/// The files after a move.
pub open spec fn moved(
    files: Map<Seq<char>, Seq<u8>>,
    from: Seq<char>,
    to: Seq<char>,
) -> Map<Seq<char>, Seq<u8>> {
    files.remove(from).insert(to, files[from])
}

/// Whether a move can be made: there is a source, and nothing stands at the
/// destination.
pub open spec fn movable(
    files: Map<Seq<char>, Seq<u8>>,
    from: Seq<char>,
    to: Seq<char>,
) -> bool {
    files.contains_key(from) && !files.contains_key(to)
}

/// How the files stand at a stage of a move that began with `before`.
pub open spec fn files_at(
    stage: MoveStage,
    w: World,
    before: Map<Seq<char>, Seq<u8>>,
    from: Seq<char>,
    to: Seq<char>,
) -> bool {
    match stage {
        MoveStage::MakeParent | MoveStage::Check => w.files == before,
        MoveStage::Link
        | MoveStage::Recheck
        | MoveStage::Open
        | MoveStage::Metadata
        | MoveStage::Temporary
        | MoveStage::Copy => w.files == before && !before.contains_key(to),
        MoveStage::Permissions | MoveStage::Sync | MoveStage::Publish => {
            &&& w.files == before
            &&& movable(before, from, to)
            &&& w.temporary == Some(before[from])
        },
        MoveStage::RemoveLinked
        | MoveStage::RemoveCopied
        | MoveStage::UndoLink
        | MoveStage::UndoCopy => {
            &&& movable(before, from, to)
            &&& w.files == before.insert(to, before[from])
        },
        MoveStage::Done => movable(before, from, to) && w.files == moved(before, from, to),
        MoveStage::Failed(f) => match f {
            MoveFailure::LinkStuck | MoveFailure::CopyStuck => {
                &&& movable(before, from, to)
                &&& w.files == before.insert(to, before[from])
            },
            MoveFailure::Exists => w.files == before && before.contains_key(to),
            _ => w.files == before,
        },
    }
}

/// The stage and the files after some outcomes, one for each stage.
pub open spec fn run_move(
    stage: MoveStage,
    force_copy: bool,
    w: World,
    from: Seq<char>,
    to: Seq<char>,
    outcomes: Seq<bool>,
) -> (MoveStage, World)
    decreases outcomes.len(),
{
    if outcomes.len() == 0 {
        (stage, w)
    } else {
        run_move(
            next_stage(stage, force_copy, outcomes[0]),
            force_copy,
            effect(stage, outcomes[0], w, from, to),
            from,
            to,
            outcomes.skip(1),
        )
    }
}

/// Whether the outcomes can come one after the other.
pub open spec fn can_run(
    stage: MoveStage,
    force_copy: bool,
    w: World,
    from: Seq<char>,
    to: Seq<char>,
    outcomes: Seq<bool>,
) -> bool
    decreases outcomes.len(),
{
    outcomes.len() == 0 || {
        &&& can_end(stage, outcomes[0], w, from, to)
        &&& can_run(
            next_stage(stage, force_copy, outcomes[0]),
            force_copy,
            effect(stage, outcomes[0], w, from, to),
            from,
            to,
            outcomes.skip(1),
        )
    }
}

proof fn lemma_stage_keeps(
    stage: MoveStage,
    force_copy: bool,
    ok: bool,
    w: World,
    before: Map<Seq<char>, Seq<u8>>,
    from: Seq<char>,
    to: Seq<char>,
)
    requires
        files_at(stage, w, before, from, to),
        can_end(stage, ok, w, from, to),
    ensures
        files_at(
            next_stage(stage, force_copy, ok),
            effect(stage, ok, w, from, to),
            before,
            from,
            to,
        ),
{
    let after = effect(stage, ok, w, from, to);
    match stage {
        MoveStage::RemoveLinked | MoveStage::RemoveCopied => {
            if ok {
                assert(after.files =~= moved(before, from, to));
            }
        },
        MoveStage::UndoLink | MoveStage::UndoCopy => {
            if ok {
                assert(after.files =~= before);
            }
        },
        _ => {},
    }
}

/// However a move goes, at every stage of it the files are the old ones, or the
/// old ones with the destination added to the source, or, when it is done, the
/// old ones with the source moved to the destination. An existing destination
/// is never touched, and what the source held is never lost.
pub proof fn law_moves_replace_and_lose_nothing(
    has_parent: bool,
    force_copy: bool,
    before: World,
    from: Seq<char>,
    to: Seq<char>,
    outcomes: Seq<bool>,
)
    requires
        can_run(first_stage(has_parent), force_copy, before, from, to, outcomes),
    ensures
        ({
            let (stage, after) = run_move(
                first_stage(has_parent),
                force_copy,
                before,
                from,
                to,
                outcomes,
            );
            &&& files_at(stage, after, before.files, from, to)
            &&& before.files.contains_key(to) ==> after.files == before.files
            &&& before.files.contains_key(from) ==> {
                ||| after.files.contains_key(from) && after.files[from] == before.files[from]
                ||| after.files.contains_key(to) && after.files[to] == before.files[from]
            }
            &&& forall|other: Seq<char>|
                other != from && other != to ==> (#[trigger] after.files.contains_key(other)
                    == before.files.contains_key(other)) && after.files[other]
                    == before.files[other]
        }),
{
    lemma_run_keeps(
        first_stage(has_parent),
        force_copy,
        before,
        before.files,
        from,
        to,
        outcomes,
    );
}

proof fn lemma_run_keeps(
    stage: MoveStage,
    force_copy: bool,
    w: World,
    before: Map<Seq<char>, Seq<u8>>,
    from: Seq<char>,
    to: Seq<char>,
    outcomes: Seq<bool>,
)
    requires
        files_at(stage, w, before, from, to),
        can_run(stage, force_copy, w, from, to, outcomes),
    ensures
        ({
            let (last, after) = run_move(stage, force_copy, w, from, to, outcomes);
            files_at(last, after, before, from, to)
        }),
    decreases outcomes.len(),
{
    if outcomes.len() > 0 {
        lemma_stage_keeps(stage, force_copy, outcomes[0], w, before, from, to);
        lemma_run_keeps(
            next_stage(stage, force_copy, outcomes[0]),
            force_copy,
            effect(stage, outcomes[0], w, from, to),
            before,
            from,
            to,
            outcomes.skip(1),
        );
    }
}

/// How many stages may still follow.
pub open spec fn stages_left(stage: MoveStage) -> nat {
    match stage {
        MoveStage::MakeParent => 13,
        MoveStage::Check => 12,
        MoveStage::Link => 11,
        MoveStage::Recheck => 10,
        MoveStage::Open => 9,
        MoveStage::Metadata => 8,
        MoveStage::Temporary => 7,
        MoveStage::Copy => 6,
        MoveStage::Permissions => 5,
        MoveStage::Sync => 4,
        MoveStage::Publish => 3,
        MoveStage::RemoveCopied | MoveStage::RemoveLinked => 2,
        MoveStage::UndoCopy | MoveStage::UndoLink => 1,
        MoveStage::Done | MoveStage::Failed(_) => 0,
    }
}

/// Every move comes to an end: each stage leaves fewer to follow.
pub proof fn law_moves_end(stage: MoveStage, force_copy: bool, ok: bool)
    requires
        !(stage is Done),
        !(stage is Failed),
    ensures
        stages_left(next_stage(stage, force_copy, ok)) < stages_left(stage),
{
}

/// What went wrong in a move, in words.
pub open spec fn failure_words(
    failure: MoveFailure,
    from: Seq<char>,
    to: Seq<char>,
    cause: Seq<char>,
    cleanup: Seq<char>,
) -> Seq<char> {
    match failure {
        MoveFailure::Parent => "failed to create destination directory"@,
        MoveFailure::Exists => "destination already exists: "@ + to,
        MoveFailure::Appeared => "destination appeared before the move completed and was left unchanged: "@
            + to + " ("@ + cause + ")"@,
        MoveFailure::LinkUndone => "could not remove original "@ + from
            + "; newly created destination was rolled back"@,
        MoveFailure::LinkStuck => "could not remove original "@ + from
            + "; cleanup of newly created destination "@ + to + " also failed: "@ + cleanup,
        MoveFailure::Open => "failed to open source file for copying"@,
        MoveFailure::Metadata => "failed to read source file metadata"@,
        MoveFailure::Temporary => "failed to create temporary destination file"@,
        MoveFailure::Copy => "failed while copying file to temporary destination"@,
        MoveFailure::Permissions => "failed to preserve source file permissions"@,
        MoveFailure::Sync => "failed to finish writing temporary destination file"@,
        MoveFailure::Publish => "failed to publish copied file at destination"@,
        MoveFailure::CopyUndone => "failed to remove original file after copy; published destination was rolled back"@,
        MoveFailure::CopyStuck => "failed to remove original file after copy; cleanup of published destination also failed: "@
            + cleanup,
    }
}

/// Whether the cause of a failure is shown behind it.
pub open spec fn has_cause(failure: MoveFailure) -> bool {
    !(failure is Exists) && !(failure is Appeared)
}

/// What went wrong in a move, and behind it the cause.
pub open spec fn failure_chain(
    failure: MoveFailure,
    from: Seq<char>,
    to: Seq<char>,
    cause: Seq<char>,
    cleanup: Seq<char>,
) -> Seq<char> {
    if has_cause(failure) {
        failure_words(failure, from, to, cause, cleanup) + ": "@ + cause
    } else {
        failure_words(failure, from, to, cause, cleanup)
    }
}

impl Move {
    /// What went wrong, in words.
    pub fn message(&self, failure: MoveFailure, from: &str, to: &str) -> (res: String)
        ensures
            res@ == failure_words(failure, from@, to@, self.cause@, self.cleanup@),
    {
        match failure {
            MoveFailure::Parent => String::from_str("failed to create destination directory"),
            MoveFailure::Exists => {
                let mut out = String::from_str("destination already exists: ");
                out.append(to);
                out
            },
            MoveFailure::Appeared => {
                let mut out = String::from_str(
                    "destination appeared before the move completed and was left unchanged: ",
                );
                out.append(to);
                out.append(" (");
                out.append(self.cause.as_str());
                out.append(")");
                out
            },
            MoveFailure::LinkUndone => {
                let mut out = String::from_str("could not remove original ");
                out.append(from);
                out.append("; newly created destination was rolled back");
                out
            },
            MoveFailure::LinkStuck => {
                let mut out = String::from_str("could not remove original ");
                out.append(from);
                out.append("; cleanup of newly created destination ");
                out.append(to);
                out.append(" also failed: ");
                out.append(self.cleanup.as_str());
                out
            },
            MoveFailure::Open => String::from_str("failed to open source file for copying"),
            MoveFailure::Metadata => String::from_str("failed to read source file metadata"),
            MoveFailure::Temporary => String::from_str(
                "failed to create temporary destination file",
            ),
            MoveFailure::Copy => String::from_str(
                "failed while copying file to temporary destination",
            ),
            MoveFailure::Permissions => String::from_str(
                "failed to preserve source file permissions",
            ),
            MoveFailure::Sync => String::from_str(
                "failed to finish writing temporary destination file",
            ),
            MoveFailure::Publish => String::from_str(
                "failed to publish copied file at destination",
            ),
            MoveFailure::CopyUndone => String::from_str(
                "failed to remove original file after copy; published destination was rolled back",
            ),
            MoveFailure::CopyStuck => {
                let mut out = String::from_str(
                    "failed to remove original file after copy; cleanup of published destination also failed: ",
                );
                out.append(self.cleanup.as_str());
                out
            },
        }
    }

    /// What went wrong, in words, and behind it the cause.
    pub fn full_message(&self, failure: MoveFailure, from: &str, to: &str) -> (res: String)
        ensures
            res@ == failure_chain(failure, from@, to@, self.cause@, self.cleanup@),
    {
        let mut out = self.message(failure, from, to);
        match failure {
            MoveFailure::Exists | MoveFailure::Appeared => {},
            _ => {
                out.append(": ");
                out.append(self.cause.as_str());
            },
        }
        out
    }
}

/// How far a group of moves is.
#[derive(Debug, Clone, Copy, PartialEq, Eq)]
pub enum GroupStage {
    /// The move with this index is made.
    Moving(usize),
    /// After the move `failed` went wrong, the move with index `next - 1` is
    /// undone, where there is one.
    Undoing { failed: usize, next: usize },
    /// All moves are made.
    Done,
    /// The move with this index went wrong; no move before it stands, unless
    /// one could not be undone. The failed move may have left its destination.
    Failed(usize),
}

/// The stage of a group of `count` moves after a move, or the undoing of one,
/// went well or not. Completed moves are undone in reverse order; what cannot be
/// undone does not keep the others from being undone.
pub open spec fn next_group_stage(stage: GroupStage, count: nat, ok: bool) -> GroupStage {
    match stage {
        GroupStage::Moving(i) => if ok {
            if i + 1 >= count {
                GroupStage::Done
            } else {
                GroupStage::Moving((i + 1) as usize)
            }
        } else if i == 0 {
            GroupStage::Failed(0)
        } else {
            GroupStage::Undoing { failed: i, next: i }
        },
        GroupStage::Undoing { failed, next } => if next <= 1 {
            GroupStage::Failed(failed)
        } else {
            GroupStage::Undoing { failed, next: (next - 1) as usize }
        },
        GroupStage::Done => GroupStage::Done,
        GroupStage::Failed(i) => GroupStage::Failed(i),
    }
}

/// A group of moves under way: a video first, then its subtitles.
#[derive(Debug, Clone)]
pub struct GroupMove {
    pub count: usize,
    pub stage: GroupStage,
    /// What went wrong first.
    pub error: String,
    /// What went wrong when moves were undone.
    pub undo_errors: Vec<String>,
}

impl GroupMove {
    /// A group of moves that has not begun.
    pub fn new(count: usize) -> (res: GroupMove)
        requires
            count > 0,
        ensures
            res.count == count,
            res.stage == GroupStage::Moving(0),
            res.error@.len() == 0,
            res.undo_errors@.len() == 0,
    {
        GroupMove {
            count,
            stage: GroupStage::Moving(0),
            error: String::new(),
            undo_errors: Vec::new(),
        }
    }

    /// Goes on, with what came of the move or of its undoing.
    pub fn advance(&mut self, outcome: Result<(), String>)
        ensures
            final(self).count == old(self).count,
            final(self).stage == next_group_stage(
                old(self).stage,
                old(self).count as nat,
                outcome is Ok,
            ),
            match (old(self).stage, outcome) {
                (GroupStage::Moving(_), Err(message)) => {
                    &&& final(self).error == message
                    &&& final(self).undo_errors == old(self).undo_errors
                },
                (GroupStage::Undoing { .. }, Err(message)) => {
                    &&& final(self).error == old(self).error
                    &&& final(self).undo_errors@ == old(self).undo_errors@.push(message)
                },
                _ => {
                    &&& final(self).error == old(self).error
                    &&& final(self).undo_errors == old(self).undo_errors
                },
            },
    {
        match self.stage {
            GroupStage::Moving(i) => match outcome {
                Ok(()) => {
                    if i >= self.count || i + 1 >= self.count {
                        self.stage = GroupStage::Done;
                    } else {
                        self.stage = GroupStage::Moving(i + 1);
                    }
                },
                Err(message) => {
                    self.error = message;
                    if i == 0 {
                        self.stage = GroupStage::Failed(0);
                    } else {
                        self.stage = GroupStage::Undoing { failed: i, next: i };
                    }
                },
            },
            GroupStage::Undoing { failed, next } => {
                if let Err(message) = outcome {
                    self.undo_errors.push(message);
                }
                if next <= 1 {
                    self.stage = GroupStage::Failed(failed);
                } else {
                    self.stage = GroupStage::Undoing { failed, next: next - 1 };
                }
            },
            GroupStage::Done | GroupStage::Failed(_) => {},
        }
    }
}

/// What went wrong with a group, in words. `what` is the error of the move that
/// went wrong and `source` its source.
pub open spec fn group_words(
    failed: int,
    source: Seq<char>,
    what: Seq<char>,
    undo_errors: Seq<Seq<char>>,
) -> Seq<char> {
    if failed == 0 {
        what
    } else if undo_errors.len() == 0 {
        "subtitle move failed for "@ + source + "; completed group changes were rolled back: "@
            + what
    } else {
        "subtitle move failed for "@ + source + "; rollback also failed: "@ + text::joined(
            undo_errors,
            "; "@,
        ) + ": "@ + what
    }
}

impl GroupMove {
    /// What went wrong with the group, in words: the first move's own error, or
    /// which subtitle could not be moved and whether the others were undone.
    pub fn message(&self, failed: usize, source: &str) -> (res: String)
        ensures
            res@ == group_words(
                failed as int,
                source@,
                self.error@,
                text::views(self.undo_errors@),
            ),
    {
        if failed == 0 {
            return self.error.clone();
        }
        let mut out = String::from_str("subtitle move failed for ");
        out.append(source);
        if self.undo_errors.len() == 0 {
            out.append("; completed group changes were rolled back: ");
        } else {
            out.append("; rollback also failed: ");
            out.append(text::join(&self.undo_errors, "; ").as_str());
            out.append(": ");
        }
        out.append(self.error.as_str());
        out
    }
}

/// The message that a move could not be undone.
pub fn undo_message(destination: &str, source: &str, error: &str) -> (res: String)
    ensures
        res@ == destination@ + " -> "@ + source@ + ": "@ + error@,
{
    let mut out = String::from_str(destination);
    out.append(" -> ");
    out.append(source);
    out.append(": ");
    out.append(error);
    out
}

/// A source and a destination.
pub struct Step {
    pub from: Seq<char>,
    pub to: Seq<char>,
}

/// How one move went: whether its destination's directory was made, whether a
/// link was ruled out, and how each of its stages ended.
pub struct MoveRun {
    pub has_parent: bool,
    pub force_copy: bool,
    pub outcomes: Seq<bool>,
}

/// Where a move ended, and the files after it.
pub open spec fn run_end(run: MoveRun, files: Map<Seq<char>, Seq<u8>>, step: Step) -> (
    MoveStage,
    Map<Seq<char>, Seq<u8>>,
) {
    let (stage, w) = run_move(
        first_stage(run.has_parent),
        run.force_copy,
        World { files, temporary: None },
        step.from,
        step.to,
        run.outcomes,
    );
    (stage, w.files)
}

/// Whether a move can go this way to its end.
pub open spec fn is_run(run: MoveRun, files: Map<Seq<char>, Seq<u8>>, step: Step) -> bool {
    &&& can_run(
        first_stage(run.has_parent),
        run.force_copy,
        World { files, temporary: None },
        step.from,
        step.to,
        run.outcomes,
    )
    &&& run_end(run, files, step).0 is Done || run_end(run, files, step).0 is Failed
}

/// Whether a move ended with its source and its destination both in place.
pub open spec fn is_stuck(stage: MoveStage) -> bool {
    stage == MoveStage::Failed(MoveFailure::LinkStuck) || stage == MoveStage::Failed(
        MoveFailure::CopyStuck,
    )
}

/// What is moved at this stage of a group; undoing moves back.
pub open spec fn step_at(stage: GroupStage, steps: Seq<Step>) -> Step {
    match stage {
        GroupStage::Moving(i) => steps[i as int],
        GroupStage::Undoing { next, .. } => Step {
            from: steps[next - 1].to,
            to: steps[next - 1].from,
        },
        _ => Step { from: Seq::empty(), to: Seq::empty() },
    }
}

/// The files after the first `n` moves.
pub open spec fn after_moves(
    steps: Seq<Step>,
    n: nat,
    files: Map<Seq<char>, Seq<u8>>,
) -> Map<Seq<char>, Seq<u8>>
    decreases n,
{
    if n == 0 {
        files
    } else {
        moved(
            after_moves(steps, (n - 1) as nat, files),
            steps[n - 1].from,
            steps[n - 1].to,
        )
    }
}

/// Whether the first `n` moves can be made one after the other.
pub open spec fn can_make(steps: Seq<Step>, n: nat, files: Map<Seq<char>, Seq<u8>>) -> bool
    decreases n,
{
    n == 0 || {
        &&& can_make(steps, (n - 1) as nat, files)
        &&& movable(
            after_moves(steps, (n - 1) as nat, files),
            steps[n - 1].from,
            steps[n - 1].to,
        )
    }
}

/// The stage and the files after some moves, each made or undone to its end.
pub open spec fn run_group(
    stage: GroupStage,
    steps: Seq<Step>,
    files: Map<Seq<char>, Seq<u8>>,
    runs: Seq<MoveRun>,
) -> (GroupStage, Map<Seq<char>, Seq<u8>>)
    decreases runs.len(),
{
    if runs.len() == 0 {
        (stage, files)
    } else {
        let (end, after) = run_end(runs[0], files, step_at(stage, steps));
        run_group(
            next_group_stage(stage, steps.len(), end is Done),
            steps,
            after,
            runs.skip(1),
        )
    }
}

/// Whether a group can go this way.
pub open spec fn can_run_group(
    stage: GroupStage,
    steps: Seq<Step>,
    files: Map<Seq<char>, Seq<u8>>,
    runs: Seq<MoveRun>,
) -> bool
    decreases runs.len(),
{
    runs.len() == 0 || {
        let (end, after) = run_end(runs[0], files, step_at(stage, steps));
        &&& stage is Moving || stage is Undoing
        &&& is_run(runs[0], files, step_at(stage, steps))
        &&& can_run_group(
            next_group_stage(stage, steps.len(), end is Done),
            steps,
            after,
            runs.skip(1),
        )
    }
}

/// Whether every undoing on the way went well.
pub open spec fn is_undone_well(
    stage: GroupStage,
    steps: Seq<Step>,
    files: Map<Seq<char>, Seq<u8>>,
    runs: Seq<MoveRun>,
) -> bool
    decreases runs.len(),
{
    runs.len() == 0 || {
        let (end, after) = run_end(runs[0], files, step_at(stage, steps));
        &&& stage is Undoing ==> end is Done
        &&& is_undone_well(
            next_group_stage(stage, steps.len(), end is Done),
            steps,
            after,
            runs.skip(1),
        )
    }
}

/// What a move that got stuck left at its destination: the copy of its source
/// that could not be removed again.
pub open spec fn left_behind(
    stage: GroupStage,
    steps: Seq<Step>,
    files: Map<Seq<char>, Seq<u8>>,
    runs: Seq<MoveRun>,
) -> Option<Seq<u8>>
    decreases runs.len(),
{
    if runs.len() == 0 {
        None
    } else {
        let step = step_at(stage, steps);
        let (end, after) = run_end(runs[0], files, step);
        if stage is Moving && is_stuck(end) {
            Some(files[step.from])
        } else {
            left_behind(
                next_group_stage(stage, steps.len(), end is Done),
                steps,
                after,
                runs.skip(1),
            )
        }
    }
}

/// Files with something more at one path, where there is something more.
pub open spec fn with_left(
    files: Map<Seq<char>, Seq<u8>>,
    path: Seq<char>,
    left: Option<Seq<u8>>,
) -> Map<Seq<char>, Seq<u8>> {
    match left {
        Some(content) => files.insert(path, content),
        None => files,
    }
}

/// How the files stand at a stage of a group that began with `before`: with the
/// moves so far made, and all of them undone where one failed, but for what the
/// failed move left behind.
pub open spec fn group_files_at(
    stage: GroupStage,
    steps: Seq<Step>,
    files: Map<Seq<char>, Seq<u8>>,
    before: Map<Seq<char>, Seq<u8>>,
    left: Option<Seq<u8>>,
) -> bool {
    match stage {
        GroupStage::Moving(i) => {
            &&& i < steps.len()
            &&& can_make(steps, i as nat, before)
            &&& files == after_moves(steps, i as nat, before)
            &&& left is None
        },
        GroupStage::Undoing { failed, next } => {
            let made = after_moves(steps, next as nat, before);
            &&& 0 < next <= failed < steps.len()
            &&& can_make(steps, next as nat, before)
            &&& files == with_left(made, steps[failed as int].to, left)
            &&& left is Some ==> !made.contains_key(steps[failed as int].to)
        },
        GroupStage::Done => {
            &&& can_make(steps, steps.len(), before)
            &&& files == after_moves(steps, steps.len(), before)
            &&& left is None
        },
        GroupStage::Failed(i) => {
            &&& i < steps.len()
            &&& files == with_left(before, steps[i as int].to, left)
            &&& left is Some ==> !before.contains_key(steps[i as int].to)
        },
    }
}

proof fn lemma_run_end(run: MoveRun, files: Map<Seq<char>, Seq<u8>>, step: Step)
    requires
        is_run(run, files, step),
    ensures
        ({
            let (end, after) = run_end(run, files, step);
            if end is Done {
                movable(files, step.from, step.to) && after == moved(files, step.from, step.to)
            } else if is_stuck(end) {
                movable(files, step.from, step.to) && after == files.insert(
                    step.to,
                    files[step.from],
                )
            } else {
                after == files
            }
        }),
{
    lemma_run_keeps(
        first_stage(run.has_parent),
        run.force_copy,
        World { files, temporary: None },
        files,
        step.from,
        step.to,
        run.outcomes,
    );
}

/// Undoing a move restores the files.
pub proof fn law_moves_are_undone_by_moving_back(
    files: Map<Seq<char>, Seq<u8>>,
    from: Seq<char>,
    to: Seq<char>,
)
    requires
        movable(files, from, to),
    ensures
        movable(moved(files, from, to), to, from),
        moved(moved(files, from, to), to, from) == files,
{
    assert(moved(moved(files, from, to), to, from) =~= files);
}

proof fn lemma_undo(
    steps: Seq<Step>,
    n: nat,
    before: Map<Seq<char>, Seq<u8>>,
    path: Seq<char>,
    left: Option<Seq<u8>>,
)
    requires
        n > 0,
        can_make(steps, n, before),
        left is Some ==> !after_moves(steps, n, before).contains_key(path),
        movable(
            with_left(after_moves(steps, n, before), path, left),
            steps[n - 1].to,
            steps[n - 1].from,
        ),
    ensures
        moved(
            with_left(after_moves(steps, n, before), path, left),
            steps[n - 1].to,
            steps[n - 1].from,
        ) == with_left(after_moves(steps, (n - 1) as nat, before), path, left),
        left is Some ==> !after_moves(steps, (n - 1) as nat, before).contains_key(path),
{
    let earlier = after_moves(steps, (n - 1) as nat, before);
    let made = after_moves(steps, n, before);
    let from = steps[n - 1].from;
    let to = steps[n - 1].to;
    law_moves_are_undone_by_moving_back(earlier, from, to);
    if let Some(content) = left {
        assert(made.contains_key(to));
        assert(with_left(made, path, left).contains_key(path));
        assert(path != to && path != from);
        assert(moved(made.insert(path, content), to, from) =~= earlier.insert(path, content));
    }
}

proof fn lemma_group_run_keeps(
    stage: GroupStage,
    steps: Seq<Step>,
    files: Map<Seq<char>, Seq<u8>>,
    before: Map<Seq<char>, Seq<u8>>,
    left: Option<Seq<u8>>,
    runs: Seq<MoveRun>,
)
    requires
        steps.len() <= usize::MAX,
        group_files_at(stage, steps, files, before, left),
        can_run_group(stage, steps, files, runs),
        is_undone_well(stage, steps, files, runs),
    ensures
        ({
            let (last, after) = run_group(stage, steps, files, runs);
            let more = left_behind(stage, steps, files, runs);
            group_files_at(last, steps, after, before, if stage is Moving {
                more
            } else {
                left
            })
        }),
        !(stage is Moving) ==> left_behind(stage, steps, files, runs) is None,
    decreases runs.len(),
{
    if runs.len() > 0 {
        let step = step_at(stage, steps);
        let (end, after) = run_end(runs[0], files, step);
        let next = next_group_stage(stage, steps.len(), end is Done);
        lemma_run_end(runs[0], files, step);
        match stage {
            GroupStage::Moving(i) => {
                let now = if is_stuck(end) {
                    Some(files[step.from])
                } else {
                    None
                };
                assert(group_files_at(next, steps, after, before, now));
                lemma_group_run_keeps(next, steps, after, before, now, runs.skip(1));
            },
            GroupStage::Undoing { failed, next: k } => {
                lemma_undo(steps, k as nat, before, steps[failed as int].to, left);
                assert(group_files_at(next, steps, after, before, left));
                lemma_group_run_keeps(next, steps, after, before, left, runs.skip(1));
            },
            _ => {},
        }
    }
}

/// However the moves of a group go: when the group is done, every move is made.
/// When it has failed and the completed moves could be undone, every file is
/// where it was; the one thing that may be left is a second copy at the
/// destination of the failed move, where nothing stood before, and only where
/// that move got stuck. Undoing goes through the completed moves in reverse.
pub proof fn law_failed_groups_are_restored(
    steps: Seq<Step>,
    before: Map<Seq<char>, Seq<u8>>,
    runs: Seq<MoveRun>,
)
    requires
        0 < steps.len() <= usize::MAX,
        can_run_group(GroupStage::Moving(0), steps, before, runs),
        is_undone_well(GroupStage::Moving(0), steps, before, runs),
    ensures
        ({
            let (stage, files) = run_group(GroupStage::Moving(0), steps, before, runs);
            let left = left_behind(GroupStage::Moving(0), steps, before, runs);
            &&& stage is Done ==> files == after_moves(steps, steps.len(), before)
            &&& stage matches GroupStage::Failed(i) ==> {
                &&& left is None ==> files == before
                &&& left matches Some(content) ==> !before.contains_key(steps[i as int].to)
                    && files == before.insert(steps[i as int].to, content)
            }
        }),
{
    lemma_group_run_keeps(GroupStage::Moving(0), steps, before, before, None, runs);
}

/// Whether some file holds this content.
pub open spec fn holds(files: Map<Seq<char>, Seq<u8>>, content: Seq<u8>) -> bool {
    exists|path: Seq<char>| #[trigger] files.contains_key(path) && files[path] == content
}

proof fn lemma_run_loses_nothing(
    run: MoveRun,
    files: Map<Seq<char>, Seq<u8>>,
    step: Step,
    content: Seq<u8>,
)
    requires
        is_run(run, files, step),
        holds(files, content),
    ensures
        holds(run_end(run, files, step).1, content),
{
    lemma_run_end(run, files, step);
    let (end, after) = run_end(run, files, step);
    let path = choose|path: Seq<char>| #[trigger] files.contains_key(path) && files[path] == content;
    if end is Done && path == step.from {
        assert(after.contains_key(step.to) && after[step.to] == content);
    } else {
        assert(after.contains_key(path) && after[path] == content);
    }
}

/// However the moves of a group go, stuck ones and undoings that fail included,
/// whatever a file held some file still holds.
pub proof fn law_groups_lose_nothing(
    stage: GroupStage,
    steps: Seq<Step>,
    files: Map<Seq<char>, Seq<u8>>,
    runs: Seq<MoveRun>,
    content: Seq<u8>,
)
    requires
        can_run_group(stage, steps, files, runs),
        holds(files, content),
    ensures
        holds(run_group(stage, steps, files, runs).1, content),
    decreases runs.len(),
{
    if runs.len() > 0 {
        let step = step_at(stage, steps);
        let (end, after) = run_end(runs[0], files, step);
        lemma_run_loses_nothing(runs[0], files, step, content);
        law_groups_lose_nothing(
            next_group_stage(stage, steps.len(), end is Done),
            steps,
            after,
            runs.skip(1),
            content,
        );
    }
}

/// Every group comes to an end: each stage leaves fewer to follow.
pub proof fn law_groups_end(stage: GroupStage, count: nat, ok: bool)
    requires
        count <= usize::MAX,
        match stage {
            GroupStage::Moving(i) => i < count,
            GroupStage::Undoing { failed, next } => next <= failed < count,
            _ => false,
        },
    ensures
        group_stages_left(next_group_stage(stage, count, ok), count) < group_stages_left(
            stage,
            count,
        ),
{
}

/// How many stages of a group may still follow.
pub open spec fn group_stages_left(stage: GroupStage, count: nat) -> int {
    match stage {
        GroupStage::Moving(i) => 2 * count - i + 1,
        GroupStage::Undoing { next, .. } => next + 1,
        GroupStage::Done | GroupStage::Failed(_) => 0,
    }
}

/// A move whose every step goes well is done, with the file at its destination:
/// by a link and the removal of the source, or, where a copy was asked for or the
/// link fails, by a copy that is published and the removal of the source.
pub proof fn law_moves_succeed_when_their_steps_do(
    files: Map<Seq<char>, Seq<u8>>,
    from: Seq<char>,
    to: Seq<char>,
)
    requires
        movable(files, from, to),
    ensures
        ({
            let w = World { files, temporary: None };
            let linked = run_move(MoveStage::Check, false, w, from, to, seq![true, true, true]);
            linked.0 is Done && linked.1.files == files.remove(from).insert(to, files[from])
        }),
        ({
            let w = World { files, temporary: None };
            let copied = run_move(
                MoveStage::Check,
                true,
                w,
                from,
                to,
                seq![true, true, true, true, true, true, true, true, true],
            );
            copied.0 is Done && copied.1.files == files.remove(from).insert(to, files[from])
        }),
        ({
            let w = World { files, temporary: None };
            let copied = run_move(
                MoveStage::Check,
                false,
                w,
                from,
                to,
                seq![true, false, true, true, true, true, true, true, true, true, true],
            );
            copied.0 is Done && copied.1.files == files.remove(from).insert(to, files[from])
        }),
        next_stage(MoveStage::MakeParent, true, true) == MoveStage::Check,
        next_stage(MoveStage::MakeParent, false, true) == MoveStage::Check,
{
    let w = World { files, temporary: None };
    lemma_linked(w, from, to);
    lemma_copied(true, w, from, to);
    lemma_copied(false, w, from, to);
    let rest = seq![true, true, true, true, true, true, true, true];
    let forced = seq![true, true, true, true, true, true, true, true, true];
    assert(forced.skip(1) =~= rest);
    let fallback = seq![true, false, true, true, true, true, true, true, true, true, true];
    assert(fallback.skip(1).skip(1).skip(1) =~= rest);
    assert(fallback.skip(1)[0] == false);
    assert(fallback.skip(1).skip(1)[0] == true);
    reveal_with_fuel(run_move, 4);
}

proof fn lemma_linked(w: World, from: Seq<char>, to: Seq<char>)
    requires
        movable(w.files, from, to),
    ensures
        run_move(MoveStage::Check, false, w, from, to, seq![true, true, true]).0 is Done,
        run_move(MoveStage::Check, false, w, from, to, seq![true, true, true]).1.files
            == w.files.remove(from).insert(to, w.files[from]),
{
    let all = seq![true, true, true];
    assert(all.skip(1) =~= seq![true, true]);
    assert(all.skip(1).skip(1) =~= seq![true]);
    assert(all.skip(1).skip(1).skip(1) =~= Seq::<bool>::empty());
    reveal_with_fuel(run_move, 5);
    let end = run_move(MoveStage::Check, false, w, from, to, all);
    assert(end.1.files =~= w.files.remove(from).insert(to, w.files[from]));
}

proof fn lemma_copied(force: bool, w: World, from: Seq<char>, to: Seq<char>)
    requires
        movable(w.files, from, to),
    ensures
        ({
            let all = seq![true, true, true, true, true, true, true, true];
            let end = run_move(MoveStage::Open, force, w, from, to, all);
            end.0 is Done && end.1.files == w.files.remove(from).insert(to, w.files[from])
        }),
{
    let all = seq![true, true, true, true, true, true, true, true];
    assert(all.skip(1) =~= seq![true, true, true, true, true, true, true]);
    assert(all.skip(1).skip(1) =~= seq![true, true, true, true, true, true]);
    assert(all.skip(1).skip(1).skip(1) =~= seq![true, true, true, true, true]);
    assert(all.skip(1).skip(1).skip(1).skip(1) =~= seq![true, true, true, true]);
    assert(all.skip(1).skip(1).skip(1).skip(1).skip(1) =~= seq![true, true, true]);
    assert(all.skip(1).skip(1).skip(1).skip(1).skip(1).skip(1) =~= seq![true, true]);
    assert(all.skip(1).skip(1).skip(1).skip(1).skip(1).skip(1).skip(1) =~= seq![true]);
    assert(all.skip(1).skip(1).skip(1).skip(1).skip(1).skip(1).skip(1).skip(1) =~= Seq::<
        bool,
    >::empty());
    reveal_with_fuel(run_move, 10);
    let end = run_move(MoveStage::Open, force, w, from, to, all);
    assert(end.1.files =~= w.files.remove(from).insert(to, w.files[from]));
}

/// The stage of a group after moves and undoings of which it is known whether
/// they went well.
pub open spec fn group_after(stage: GroupStage, count: nat, outcomes: Seq<bool>) -> GroupStage
    decreases outcomes.len(),
{
    if outcomes.len() == 0 {
        stage
    } else {
        group_after(next_group_stage(stage, count, outcomes[0]), count, outcomes.skip(1))
    }
}

/// A group whose moves all go well is done after the last of them, and not
/// before; at each stage the next file is moved.
pub proof fn law_groups_are_done_when_all_files_are_moved(
    count: usize,
    done: usize,
    outcomes: Seq<bool>,
)
    requires
        done < count,
        outcomes.len() <= count - done,
        forall|k: int| 0 <= k < outcomes.len() ==> #[trigger] outcomes[k],
    ensures
        group_after(GroupStage::Moving(done), count as nat, outcomes) == (if outcomes.len() == count
            - done {
            GroupStage::Done
        } else {
            GroupStage::Moving((done + outcomes.len()) as usize)
        }),
    decreases outcomes.len(),
{
    if outcomes.len() > 0 {
        let rest = outcomes.skip(1);
        assert(outcomes[0]);
        assert forall|k: int| 0 <= k < rest.len() implies #[trigger] rest[k] by {
            assert(rest[k] == outcomes[k + 1]);
        }
        if done + 1 < count {
            law_groups_are_done_when_all_files_are_moved(count, (done + 1) as usize, rest);
        } else {
            assert(rest.len() == 0);
        }
    }
}

/// When a move of a group fails, as many moves are undone as were made, the last
/// first, whether or not an undoing goes well; then the group has failed at that
/// move. Where the first move fails there is nothing to undo.
pub proof fn law_as_many_moves_are_undone_as_were_made(
    count: nat,
    failed: usize,
    next: usize,
    outcomes: Seq<bool>,
)
    requires
        1 <= next <= failed,
        outcomes.len() == next,
    ensures
        next_group_stage(GroupStage::Moving(0), count, false) == GroupStage::Failed(0),
        next_group_stage(GroupStage::Moving(failed), count, false) == (GroupStage::Undoing {
            failed,
            next: failed,
        }),
        group_after(GroupStage::Undoing { failed, next }, count, outcomes) == GroupStage::Failed(
            failed,
        ),
        next > 1 ==> next_group_stage(
            GroupStage::Undoing { failed, next },
            count,
            outcomes[0],
        ) == (GroupStage::Undoing { failed, next: (next - 1) as usize }),
    decreases outcomes.len(),
{
    let rest = outcomes.skip(1);
    if next > 1 {
        law_as_many_moves_are_undone_as_were_made(count, failed, (next - 1) as usize, rest);
    } else {
        assert(rest.len() == 0);
        assert(group_after(GroupStage::Failed(failed), count, rest) == GroupStage::Failed(failed));
    }
}

/// A step that fails before anything stands at the destination ends the move
/// with that step's own failure, but for a link, after which a copy is tried
/// unless something has appeared; a source that stays takes its copy back.
pub proof fn law_failed_steps_end_a_move(force_copy: bool)
    ensures
        first_stage(true) == MoveStage::MakeParent,
        first_stage(false) == MoveStage::Check,
        next_stage(MoveStage::MakeParent, force_copy, false) == MoveStage::Failed(
            MoveFailure::Parent,
        ),
        next_stage(MoveStage::Check, force_copy, false) == MoveStage::Failed(MoveFailure::Exists),
        next_stage(MoveStage::Link, force_copy, false) == MoveStage::Recheck,
        next_stage(MoveStage::Recheck, force_copy, false) == MoveStage::Failed(
            MoveFailure::Appeared,
        ),
        next_stage(MoveStage::Recheck, force_copy, true) == MoveStage::Open,
        next_stage(MoveStage::RemoveLinked, force_copy, false) == MoveStage::UndoLink,
        next_stage(MoveStage::UndoLink, force_copy, true) == MoveStage::Failed(
            MoveFailure::LinkUndone,
        ),
        next_stage(MoveStage::UndoLink, force_copy, false) == MoveStage::Failed(
            MoveFailure::LinkStuck,
        ),
        next_stage(MoveStage::Open, force_copy, false) == MoveStage::Failed(MoveFailure::Open),
        next_stage(MoveStage::Metadata, force_copy, false) == MoveStage::Failed(
            MoveFailure::Metadata,
        ),
        next_stage(MoveStage::Temporary, force_copy, false) == MoveStage::Failed(
            MoveFailure::Temporary,
        ),
        next_stage(MoveStage::Copy, force_copy, false) == MoveStage::Failed(MoveFailure::Copy),
        next_stage(MoveStage::Permissions, force_copy, false) == MoveStage::Failed(
            MoveFailure::Permissions,
        ),
        next_stage(MoveStage::Sync, force_copy, false) == MoveStage::Failed(MoveFailure::Sync),
        next_stage(MoveStage::Publish, force_copy, false) == MoveStage::Failed(
            MoveFailure::Publish,
        ),
        next_stage(MoveStage::RemoveCopied, force_copy, false) == MoveStage::UndoCopy,
        next_stage(MoveStage::UndoCopy, force_copy, true) == MoveStage::Failed(
            MoveFailure::CopyUndone,
        ),
        next_stage(MoveStage::UndoCopy, force_copy, false) == MoveStage::Failed(
            MoveFailure::CopyStuck,
        ),
{
}

/// What is reported of a failed move names the files at fault and the cause: the
/// destination that was in the way, the source that stayed, what went wrong with
/// the clean-up, and behind every other failure what caused it.
pub proof fn law_move_failures_name_files_and_cause(
    failure: MoveFailure,
    from: Seq<char>,
    to: Seq<char>,
    cause: Seq<char>,
    cleanup: Seq<char>,
)
    ensures
        text::has_text(failure_words(MoveFailure::Exists, from, to, cause, cleanup), to),
        text::has_text(failure_words(MoveFailure::Appeared, from, to, cause, cleanup), to),
        text::has_text(failure_words(MoveFailure::Appeared, from, to, cause, cleanup), cause),
        text::has_text(failure_words(MoveFailure::LinkUndone, from, to, cause, cleanup), from),
        text::has_text(failure_words(MoveFailure::LinkStuck, from, to, cause, cleanup), from),
        text::has_text(failure_words(MoveFailure::LinkStuck, from, to, cause, cleanup), to),
        text::has_text(failure_words(MoveFailure::LinkStuck, from, to, cause, cleanup), cleanup),
        text::has_text(failure_words(MoveFailure::CopyStuck, from, to, cause, cleanup), cleanup),
        !(failure is Exists) && !(failure is Appeared) ==> failure_chain(
            failure,
            from,
            to,
            cause,
            cleanup,
        ) == failure_words(failure, from, to, cause, cleanup) + ": "@ + cause,
        failure is Exists || failure is Appeared ==> failure_chain(
            failure,
            from,
            to,
            cause,
            cleanup,
        ) == failure_words(failure, from, to, cause, cleanup),
{
    let none = Seq::<char>::empty();
    let exists_words = "destination already exists: "@;
    lemma_named(exists_words, to, none);
    assert(exists_words + to + none =~= exists_words + to);
    let appeared = "destination appeared before the move completed and was left unchanged: "@;
    lemma_named(appeared, to, " ("@ + cause + ")"@);
    assert(appeared + to + (" ("@ + cause + ")"@) =~= appeared + to + " ("@ + cause + ")"@);
    lemma_named(appeared + to + " ("@, cause, ")"@);
    let stays = "could not remove original "@;
    lemma_named(stays, from, "; newly created destination was rolled back"@);
    let undo = "; cleanup of newly created destination "@;
    let also = " also failed: "@;
    let stuck = stays + from + undo + to + also + cleanup;
    lemma_named(stays, from, undo + to + also + cleanup);
    assert(stays + from + (undo + to + also + cleanup) =~= stuck);
    lemma_named(stays + from + undo, to, also + cleanup);
    assert(stays + from + undo + to + (also + cleanup) =~= stuck);
    lemma_named(stays + from + undo + to + also, cleanup, none);
    assert(stuck + none =~= stuck);
    let copied = "failed to remove original file after copy; cleanup of published destination also failed: "@;
    lemma_named(copied, cleanup, none);
    assert(copied + cleanup + none =~= copied + cleanup);
}

proof fn lemma_named(before: Seq<char>, name: Seq<char>, after: Seq<char>)
    ensures
        text::has_text(before + name + after, name),
{
    text::law_texts_are_found_where_they_stand(before, name, after);
}

/// A group whose first move failed reports that failure alone; any other names
/// the subtitle, says whether the completed moves were undone, and gives every
/// failure on the way.
pub proof fn law_group_failures_tell_what_was_undone(
    failed: int,
    source: Seq<char>,
    what: Seq<char>,
    undo_errors: Seq<Seq<char>>,
)
    ensures
        group_words(0, source, what, undo_errors) == what,
        failed != 0 && undo_errors.len() == 0 ==> group_words(failed, source, what, undo_errors)
            == "subtitle move failed for "@ + source
            + "; completed group changes were rolled back: "@ + what,
        failed != 0 && undo_errors.len() > 0 ==> group_words(failed, source, what, undo_errors)
            == "subtitle move failed for "@ + source + "; rollback also failed: "@ + text::joined(
            undo_errors,
            "; "@,
        ) + ": "@ + what,
{
}

} // verus!
