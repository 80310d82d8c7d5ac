//! Paths and planned renames.
use vstd::prelude::*;

use crate::chars::CharSet;
use crate::text;

verus! {

/// A file by its directory and its name in that directory.
#[derive(Debug, Clone, PartialEq, Eq)]
pub struct MediaPath {
    pub directory: String,
    pub name: String,
}

/// A path with its texts as sequences of characters.
pub struct PathView {
    pub directory: Seq<char>,
    pub name: Seq<char>,
}

impl View for MediaPath {
    type V = PathView;

    open spec fn view(&self) -> PathView {
        PathView { directory: self.directory@, name: self.name@ }
    }
}

/// A subtitle that is renamed with its video.
#[derive(Debug, Clone, PartialEq, Eq)]
pub struct SubtitlePlan {
    pub source: MediaPath,
    pub destination: MediaPath,
}

/// A video and the subtitles that are renamed with it.
#[derive(Debug, Clone, PartialEq, Eq)]
pub struct RenamePlan {
    pub source: MediaPath,
    pub destination: MediaPath,
    pub subtitles: Vec<SubtitlePlan>,
}

/// A subtitle plan with its paths as views.
pub struct SubtitleView {
    pub source: PathView,
    pub destination: PathView,
}

impl View for SubtitlePlan {
    type V = SubtitleView;

    open spec fn view(&self) -> SubtitleView {
        SubtitleView { source: self.source@, destination: self.destination@ }
    }
}

/// The views of a list of subtitle plans.
pub open spec fn subtitle_views(list: Seq<SubtitlePlan>) -> Seq<SubtitleView> {
    list.map_values(|s: SubtitlePlan| s@)
}

/// A rename plan with its paths as views.
pub struct PlanView {
    pub source: PathView,
    pub destination: PathView,
    pub subtitles: Seq<SubtitleView>,
}

impl View for RenamePlan {
    type V = PlanView;

    open spec fn view(&self) -> PlanView {
        PlanView {
            source: self.source@,
            destination: self.destination@,
            subtitles: subtitle_views(self.subtitles@),
        }
    }
}

/// The views of a list of rename plans.
pub open spec fn plan_views(list: Seq<RenamePlan>) -> Seq<PlanView> {
    list.map_values(|p: RenamePlan| p@)
}

/// The position of the last dot of a name.
pub open spec fn last_dot(name: Seq<char>) -> Option<int>
    decreases name.len(),
{
    if name.len() == 0 {
        None
    } else if name.last() == '.' {
        Some(name.len() - 1)
    } else {
        last_dot(name.drop_last())
    }
}

/// Where the extension of a file name starts: behind its last dot, unless the
/// name only begins with that dot. The name of a parent directory has none.
pub open spec fn extension_dot(name: Seq<char>) -> Option<int> {
    if name == seq!['.', '.'] {
        None
    } else {
        match last_dot(name) {
            Some(i) => if i == 0 {
                None
            } else {
                Some(i)
            },
            None => None,
        }
    }
}

/// The extension of a file name, without its dot.
pub open spec fn extension(name: Seq<char>) -> Option<Seq<char>> {
    match extension_dot(name) {
        Some(i) => Some(name.skip(i + 1)),
        None => None,
    }
}

/// A file name without its extension.
pub open spec fn stem(name: Seq<char>) -> Seq<char> {
    match extension_dot(name) {
        Some(i) => name.take(i),
        None => name,
    }
}

pub proof fn lemma_last_dot(name: Seq<char>)
    ensures
        match last_dot(name) {
            Some(i) => 0 <= i < name.len() && name[i] == '.' && forall|j: int|
                i < j < name.len() ==> #[trigger] name[j] != '.',
            None => forall|j: int| 0 <= j < name.len() ==> #[trigger] name[j] != '.',
        },
    decreases name.len(),
{
    if name.len() > 0 && name.last() != '.' {
        lemma_last_dot(name.drop_last());
        assert forall|j: int| 0 <= j < name.len() - 1 implies name.drop_last()[j] == #[trigger] name[j] by {}
    }
}

fn find_extension_dot(letters: &Vec<char>) -> (res: Option<usize>)
    ensures
        match res {
            Some(i) => extension_dot(letters@) == Some(i as int) && i < letters@.len(),
            None => extension_dot(letters@) is None,
        },
{
    proof {
        lemma_last_dot(letters@);
    }
    if letters.len() == 2 && letters[0] == '.' && letters[1] == '.' {
        assert(letters@ =~= seq!['.', '.']);
        return None;
    }
    let mut i: usize = letters.len();
    assert(letters@.take(letters@.len() as int) =~= letters@);
    while i > 0
        invariant
            i <= letters.len(),
            last_dot(letters@) == last_dot(letters@.take(i as int)),
            letters@ != seq!['.', '.'],
        decreases i,
    {
        assert(letters@.take(i as int).drop_last() =~= letters@.take(i - 1));
        if letters[i - 1] == '.' {
            if i == 1 {
                return None;
            }
            return Some(i - 1);
        }
        i -= 1;
    }
    None
}

/// The extension of a file name, without its dot.
pub fn extension_of(name: &str) -> (res: Option<String>)
    ensures
        text::opt_view(res) == extension(name@),
{
    let letters = text::to_chars(name);
    let end = letters.len();
    match find_extension_dot(&letters) {
        Some(i) => {
            assert(name@.skip(i + 1) =~= name@.subrange(i + 1, name@.len() as int));
            Some(text::from_chars(&letters, i + 1, end))
        },
        None => None,
    }
}

/// A file name without its extension.
pub fn stem_of(name: &str) -> (res: String)
    ensures
        res@ == stem(name@),
{
    let letters = text::to_chars(name);
    match find_extension_dot(&letters) {
        Some(i) => {
            assert(name@.take(i as int) =~= name@.subrange(0, i as int));
            text::from_chars(&letters, 0, i)
        },
        None => String::from_str(name),
    }
}

impl PathView {
    /// The path as one text.
    pub open spec fn shown(self) -> Seq<char> {
        inside(self.directory, self.name)
    }
}

impl MediaPath {
    /// The path as one text.
    pub fn display(&self) -> (res: String)
        ensures
            res@ == self@.shown(),
    {
        join_inside(self.directory.as_str(), self.name.as_str())
    }

    /// Whether two paths name the same file.
    pub fn same(&self, other: &MediaPath) -> (res: bool)
        ensures
            res == (self@ == other@),
    {
        text::same_text(self.directory.as_str(), other.directory.as_str()) && text::same_text(
            self.name.as_str(),
            other.name.as_str(),
        )
    }

    /// A copy of the path.
    pub fn copy(&self) -> (res: MediaPath)
        ensures
            res@ == self@,
    {
        MediaPath { directory: self.directory.clone(), name: self.name.clone() }
    }
}

/// A relative path inside a directory.
pub open spec fn inside(directory: Seq<char>, relative: Seq<char>) -> Seq<char> {
    if directory.len() == 0 {
        relative
    } else if directory.last() == '/' {
        directory + relative
    } else {
        directory + "/"@ + relative
    }
}

/// Joins a directory and a relative path.
pub fn join_inside(directory: &str, relative: &str) -> (res: String)
    ensures
        res@ == inside(directory@, relative@),
{
    let letters = text::to_chars(directory);
    let mut out = String::from_str(directory);
    if letters.len() > 0 && letters[letters.len() - 1] != '/' {
        out.append("/");
    }
    out.append(relative);
    assert(out@ =~= inside(directory@, relative@));
    out
}

/// The path of a target inside a directory; the target may itself name
/// directories.
pub open spec fn target_path(directory: Seq<char>, target: Seq<char>) -> PathView {
    let parts = text::split(target, CharSet::Slash);
    PathView {
        directory: if parts.len() == 1 {
            directory
        } else {
            inside(directory, text::joined(parts.drop_last(), "/"@))
        },
        name: parts.last(),
    }
}

/// The path of a target inside a directory.
pub fn destination_path(directory: &str, target: &str) -> (res: MediaPath)
    ensures
        res@ == target_path(directory@, target@),
{
    proof {
        text::lemma_split_nonempty(target@, CharSet::Slash);
    }
    let mut parts = text::split_text(target, CharSet::Slash);
    let ghost all = text::views(parts@);
    assert(all.last() == parts@.last()@);
    match parts.pop() {
        Some(name) => {
            assert(text::views(parts@) =~= all.drop_last());
            if parts.len() == 0 {
                return MediaPath { directory: String::from_str(directory), name };
            }
            let relative = text::join(&parts, "/");
            MediaPath { directory: join_inside(directory, relative.as_str()), name }
        },
        None => MediaPath { directory: String::from_str(directory), name: String::new() },
    }
}

/// A file name is its stem, and, where it has an extension, a dot and the
/// extension, which holds no dot.
pub proof fn law_names_are_stem_and_extension(name: Seq<char>)
    ensures
        match extension(name) {
            Some(ext) => name == stem(name) + seq!['.'] + ext && stem(name).len() > 0 && forall|
                j: int,
            |
                0 <= j < ext.len() ==> #[trigger] ext[j] != '.',
            None => stem(name) == name,
        },
{
    lemma_last_dot(name);
    if let Some(i) = extension_dot(name) {
        let ext = name.skip(i + 1);
        assert(name =~= name.take(i) + seq!['.'] + ext);
        assert forall|j: int| 0 <= j < ext.len() implies #[trigger] ext[j] != '.' by {
            assert(ext[j] == name[i + 1 + j]);
        }
    }
}

/// What stands behind the last dot of a name is its extension, and what stands
/// before it its stem, unless that is nothing; a name without a dot, or with one
/// at its beginning only, has no extension.
pub proof fn law_extensions_follow_the_last_dot(stem_part: Seq<char>, ext: Seq<char>)
    requires
        forall|i: int| 0 <= i < ext.len() ==> #[trigger] ext[i] != '.',
    ensures
        stem_part.len() > 0 && stem_part + seq!['.'] + ext != seq!['.', '.'] ==> extension(
            stem_part + seq!['.'] + ext,
        ) == Some(ext) && stem(stem_part + seq!['.'] + ext) == stem_part,
        extension(ext) is None && stem(ext) == ext,
        extension(seq!['.'] + ext) is None && stem(seq!['.'] + ext) == seq!['.'] + ext,
        extension(seq!['.', '.']) is None && stem(seq!['.', '.']) == seq!['.', '.'],
{
    let name = stem_part + seq!['.'] + ext;
    lemma_last_dot(name);
    lemma_last_dot(ext);
    let hidden = seq!['.'] + ext;
    lemma_last_dot(hidden);
    let i = stem_part.len() as int;
    assert(name[i] == '.');
    assert forall|k: int| i < k < name.len() implies #[trigger] name[k] != '.' by {
        assert(name[k] == ext[k - i - 1]);
    }
    assert(last_dot(name) == Some(i));
    assert(name.skip(i + 1) =~= ext);
    assert(name.take(i) =~= stem_part);
    assert(hidden[0] == '.');
    assert forall|k: int| 0 < k < hidden.len() implies #[trigger] hidden[k] != '.' by {
        assert(hidden[k] == ext[k - 1]);
    }
    assert(last_dot(hidden) == Some(0int));
    if last_dot(ext) is Some {
        assert(ext[last_dot(ext)->0] != '.');
    }
}

/// A target without a slash is a name in the directory; behind its last slash a
/// target names the file, and before it the directories inside the directory.
pub proof fn law_targets_lie_inside_the_directory(
    directory: Seq<char>,
    dirs: Seq<char>,
    name: Seq<char>,
)
    requires
        forall|i: int| 0 <= i < name.len() ==> #[trigger] name[i] != '/',
    ensures
        target_path(directory, name) == (PathView { directory, name }),
        target_path(directory, dirs.push('/') + name) == (PathView {
            directory: inside(directory, dirs),
            name,
        }),
{
    let set = CharSet::Slash;
    assert forall|i: int| 0 <= i < name.len() implies !set.contains(#[trigger] name[i]) by {
        assert(name[i] != '/');
    }
    text::law_texts_are_split_at_the_set(name, '/', Seq::empty(), set);
    text::law_texts_are_split_at_the_set(dirs, '/', name, set);
    let parts = text::split(dirs.push('/') + name, set);
    let front = text::split(dirs, set);
    text::lemma_split_nonempty(dirs, set);
    assert(parts =~= front + seq![name]);
    assert(parts.last() == name);
    assert(parts.drop_last() =~= front);
    reveal_strlit("/");
    assert("/"@ =~= seq!['/']);
    text::lemma_split_rejoins(dirs, set, '/');
}

/// A path inside a directory is the directory and the path with one slash
/// between them; inside the current directory it is the path itself.
pub proof fn law_one_slash_follows_a_directory(directory: Seq<char>, relative: Seq<char>)
    ensures
        inside(Seq::empty(), relative) == relative,
        inside(directory.push('/'), relative) == directory.push('/') + relative,
        directory.len() > 0 && directory.last() != '/' ==> inside(directory, relative)
            == directory.push('/') + relative,
        (PathView { directory, name: relative }).shown() == inside(directory, relative),
{
    reveal_strlit("/");
    assert("/"@ =~= seq!['/']);
    assert(directory + "/"@ =~= directory.push('/'));
}

} // verus!
