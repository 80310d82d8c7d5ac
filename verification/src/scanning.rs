//! Collecting the files to process.
use vstd::prelude::*;

use crate::chars;
use crate::chars::CharSet;
use crate::model;
use crate::model::{MediaPath, PathView, SubtitlePlan, SubtitleView};
use crate::path_order;
use crate::text;

verus! {

/// The extensions of subtitle files.
pub open spec fn is_subtitle_extension(ext: Seq<char>) -> bool {
    let e = chars::ascii_lower_text(ext);
    e == "srt"@ || e == "ass"@ || e == "ssa"@ || e == "sub"@ || e == "vtt"@
}

/// Whether a file name is that of a subtitle.
pub open spec fn names_subtitle(name: Seq<char>) -> bool {
    match model::extension(name) {
        Some(ext) => is_subtitle_extension(ext),
        None => false,
    }
}

/// Whether a file name is that of a subtitle.
pub fn is_subtitle(name: &str) -> (res: bool)
    ensures
        res == names_subtitle(name@),
{
    match model::extension_of(name) {
        Some(ext) => {
            let lowered = chars::lower_ascii(ext.as_str());
            let e = lowered.as_str();
            text::same_text(e, "srt") || text::same_text(e, "ass") || text::same_text(e, "ssa")
                || text::same_text(e, "sub") || text::same_text(e, "vtt")
        },
        None => false,
    }
}

/// What follows a video's stem in the name of a subtitle that belongs to it.
pub open spec fn suffix_after(source_stem: Seq<char>, name: Seq<char>) -> Option<Seq<char>> {
    if names_subtitle(name) && text::begins_with(name, source_stem) && name.len()
        > source_stem.len() && name[source_stem.len() as int] == '.' {
        Some(name.skip(source_stem.len() as int))
    } else {
        None
    }
}

/// The part of a subtitle's name behind the stem of the video it belongs to:
/// a dot, markers such as the language, and the extension.
pub fn subtitle_suffix(source_stem: &str, name: &str) -> (res: Option<String>)
    ensures
        text::opt_view(res) == suffix_after(source_stem@, name@),
{
    if !is_subtitle(name) {
        return None;
    }
    match text::strip_prefix(name, source_stem) {
        Some(suffix) => {
            let letters = text::to_chars(suffix.as_str());
            if letters.len() > 0 && letters[0] == '.' {
                Some(suffix)
            } else {
                None
            }
        },
        None => None,
    }
}

/// The rename of one file beside a video, where it is a subtitle of that video.
pub open spec fn planned_subtitle(
    video: PathView,
    destination: PathView,
    name: Seq<char>,
) -> Option<SubtitleView> {
    match suffix_after(model::stem(video.name), name) {
        Some(suffix) => Some(
            SubtitleView {
                source: PathView { directory: video.directory, name },
                destination: PathView {
                    directory: destination.directory,
                    name: model::stem(destination.name) + suffix,
                },
            },
        ),
        None => None,
    }
}

/// The renames of the subtitles among the files beside a video.
pub open spec fn planned_subtitles(
    video: PathView,
    destination: PathView,
    names: Seq<Seq<char>>,
) -> Seq<SubtitleView>
    decreases names.len(),
{
    if names.len() == 0 {
        Seq::empty()
    } else {
        let plans = planned_subtitles(video, destination, names.drop_last());
        match planned_subtitle(video, destination, names.last()) {
            Some(plan) => plans.push(plan),
            None => plans,
        }
    }
}

/// The sources of a list of subtitle plans.
pub open spec fn subtitle_sources(plans: Seq<SubtitleView>) -> Seq<PathView> {
    plans.map_values(|s: SubtitleView| s.source)
}

/// One list holds the plans of another in the path order of their sources.
pub open spec fn is_sorted_by_source(plans: Seq<SubtitleView>, sorted: Seq<SubtitleView>) -> bool {
    exists|order: Seq<usize>| #[trigger]
        path_order::is_sorting(subtitle_sources(plans), order) && sorted =~= order.map_values(
            |i: usize| plans[i as int],
        )
}

/// Plans the renames of the subtitles of a video. `names` holds the names of
/// the files in the video's directory.
pub fn find_subtitle_plans(
    video: &MediaPath,
    destination: &MediaPath,
    names: &Vec<String>,
) -> (res: Vec<SubtitlePlan>)
    ensures
        is_sorted_by_source(
            planned_subtitles(video@, destination@, text::views(names@)),
            model::subtitle_views(res@),
        ),
{
    let source_stem = model::stem_of(video.name.as_str());
    let destination_stem = model::stem_of(destination.name.as_str());
    let ghost all = text::views(names@);
    let ghost planned = planned_subtitles(video@, destination@, all);
    let mut sources: Vec<MediaPath> = Vec::new();
    let mut destinations: Vec<MediaPath> = Vec::new();
    let mut i: usize = 0;
    while i < names.len()
        invariant
            i <= names.len(),
            all == text::views(names@),
            source_stem@ == model::stem(video.name@),
            destination_stem@ == model::stem(destination.name@),
            sources@.len() == destinations@.len(),
            sources@.len() == planned_subtitles(video@, destination@, all.take(i as int)).len(),
            forall|k: int|
                0 <= k < sources@.len() ==> planned_subtitles(
                    video@,
                    destination@,
                    all.take(i as int),
                )[k] == (SubtitleView {
                    source: (#[trigger] sources@[k])@,
                    destination: destinations@[k]@,
                }),
        decreases names.len() - i,
    {
        assert(all.take(i + 1).drop_last() =~= all.take(i as int));
        assert(all[i as int] == names@[i as int]@);
        if let Some(suffix) = subtitle_suffix(source_stem.as_str(), names[i].as_str()) {
            let mut name = destination_stem.clone();
            name.append(suffix.as_str());
            sources.push(MediaPath { directory: video.directory.clone(), name: names[i].clone() });
            destinations.push(MediaPath { directory: destination.directory.clone(), name });
        }
        i += 1;
    }
    assert(all.take(all.len() as int) =~= all);
    assert(path_order::path_views(sources@) =~= subtitle_sources(planned));
    let order = path_order::sort_order(&sources);
    let mut out: Vec<SubtitlePlan> = Vec::new();
    let mut k: usize = 0;
    while k < order.len()
        invariant
            k <= order.len(),
            path_order::indices_below(order@, sources@.len() as int),
            sources@.len() == destinations@.len(),
            sources@.len() == planned.len(),
            forall|k: int|
                0 <= k < sources@.len() ==> planned[k] == (SubtitleView {
                    source: (#[trigger] sources@[k])@,
                    destination: destinations@[k]@,
                }),
            out@.len() == k,
            forall|l: int| 0 <= l < k ==> (#[trigger] out@[l])@ == planned[order@[l] as int],
        decreases order.len() - k,
    {
        assert(order@[k as int] < sources@.len());
        let n = order[k];
        out.push(
            SubtitlePlan { source: sources[n].copy(), destination: destinations[n].copy() },
        );
        k += 1;
    }
    assert(model::subtitle_views(out@) =~= order@.map_values(|i: usize| planned[i as int]));
    out
}

/// Whether a subtitle belongs to one of the videos.
pub open spec fn matches_a_video(subtitle: PathView, videos: Seq<PathView>) -> bool {
    exists|i: int|
        0 <= i < videos.len() && (#[trigger] videos[i]).directory == subtitle.directory
            && suffix_after(model::stem(videos[i].name), subtitle.name) is Some
}

/// What is reported of a subtitle among the inputs.
pub open spec fn input_report(shown: Seq<char>, matched: bool) -> Seq<char> {
    if matched {
        "subtitle: "@ + shown
            + " matches a video input; will be considered with that video's rename"@
    } else {
        "warning: unmatched subtitle "@ + shown
            + "; left unchanged (must match a video input's complete filename stem in the same directory)"@
    }
}

/// Reports whether a subtitle among the inputs belongs to a video among them.
/// The paths name their directories as resolved, so that two names of one
/// directory count as the same; `shown` is the path as it was given.
pub fn subtitle_input_message(
    shown: &str,
    subtitle: &MediaPath,
    videos: &Vec<MediaPath>,
) -> (res: String)
    ensures
        res@ == input_report(
            shown@,
            matches_a_video(subtitle@, path_order::path_views(videos@)),
        ),
{
    let ghost views = path_order::path_views(videos@);
    let mut matched = false;
    let mut i: usize = 0;
    while i < videos.len()
        invariant
            i <= videos.len(),
            views == path_order::path_views(videos@),
            matched == exists|k: int|
                0 <= k < i && (#[trigger] views[k]).directory == subtitle@.directory
                    && suffix_after(model::stem(views[k].name), subtitle@.name) is Some,
        decreases videos.len() - i,
    {
        assert(views[i as int] == videos@[i as int]@);
        if text::same_text(videos[i].directory.as_str(), subtitle.directory.as_str()) {
            let stem = model::stem_of(videos[i].name.as_str());
            if subtitle_suffix(stem.as_str(), subtitle.name.as_str()).is_some() {
                matched = true;
            }
        }
        i += 1;
    }
    if matched {
        let mut out = String::from_str("subtitle: ");
        out.append(shown);
        out.append(" matches a video input; will be considered with that video's rename");
        out
    } else {
        let mut out = String::from_str("warning: unmatched subtitle ");
        out.append(shown);
        out.append(
            "; left unchanged (must match a video input's complete filename stem in the same directory)",
        );
        out
    }
}

/// The first among the first `n` files with each identity.
pub open spec fn first_of_each(identities: Seq<Seq<char>>, n: nat) -> Seq<usize>
    decreases n,
{
    if n == 0 {
        Seq::empty()
    } else {
        let kept = first_of_each(identities, (n - 1) as nat);
        if exists|j: int| 0 <= j < n - 1 && #[trigger] identities[j] == identities[n - 1] {
            kept
        } else {
            kept.push((n - 1) as usize)
        }
    }
}

/// Keeps the first file with each identity. An identity is the resolved path of
/// a file; it only serves as a key.
pub fn deduplicate_input_files(identities: &Vec<String>) -> (res: Vec<usize>)
    ensures
        res@ == first_of_each(text::views(identities@), identities@.len()),
{
    let ghost all = text::views(identities@);
    let mut out: Vec<usize> = Vec::new();
    let mut i: usize = 0;
    while i < identities.len()
        invariant
            i <= identities.len(),
            all == text::views(identities@),
            out@ == first_of_each(all, i as nat),
        decreases identities.len() - i,
    {
        let mut seen = false;
        let mut j: usize = 0;
        assert(all[i as int] == identities@[i as int]@);
        while j < i
            invariant
                j <= i < identities.len(),
                all == text::views(identities@),
                seen == exists|k: int| 0 <= k < j && #[trigger] all[k] == all[i as int],
            decreases i - j,
        {
            assert(all[j as int] == identities@[j as int]@);
            assert(all[i as int] == identities@[i as int]@);
            if text::same_text(identities[j].as_str(), identities[i].as_str()) {
                seen = true;
            }
            j += 1;
        }
        if !seen {
            out.push(i);
        }
        i += 1;
    }
    out
}

/// An extension without blanks and leading dots, in lower case.
pub open spec fn plain_extension(ext: Seq<char>) -> Seq<char> {
    chars::ascii_lower_text(text::trimmed_start(text::trimmed(ext, CharSet::Space), CharSet::Dot))
}

/// Extensions as they are compared; empty ones are dropped.
pub open spec fn plain_extensions(list: Seq<Seq<char>>) -> Seq<Seq<char>> {
    text::nonempty(list.map_values(|e: Seq<char>| plain_extension(e)))
}

/// Brings extensions to the form in which they are compared.
pub fn normalize_extensions(extensions: &Vec<String>) -> (res: Vec<String>)
    ensures
        text::views(res@) == plain_extensions(text::views(extensions@)),
{
    let ghost all = text::views(extensions@);
    let ghost f = |e: Seq<char>| plain_extension(e);
    let mut out: Vec<String> = Vec::new();
    let mut i: usize = 0;
    proof {
        reveal(Seq::filter);
        assert(all.take(0).map_values(f) =~= Seq::<Seq<char>>::empty());
        assert(text::views(out@) =~= text::nonempty(all.take(0).map_values(f)));
    }
    while i < extensions.len()
        invariant
            i <= extensions.len(),
            all == text::views(extensions@),
            f == (|e: Seq<char>| plain_extension(e)),
            text::views(out@) == text::nonempty(all.take(i as int).map_values(f)),
        decreases extensions.len() - i,
    {
        assert(all[i as int] == extensions@[i as int]@);
        proof {
            text::lemma_nonempty_step(all, f, i as int);
        }
        let trimmed = text::trim(extensions[i].as_str(), CharSet::Space);
        let plain = chars::lower_ascii(text::trim_start(trimmed.as_str(), CharSet::Dot).as_str());
        let ghost before = text::views(out@);
        if !plain.as_str().is_empty() {
            out.push(plain);
            assert(text::views(out@) =~= before.push(plain@));
        }
        i += 1;
    }
    assert(all.take(all.len() as int) =~= all);
    out
}

/// Whether a file name has one of the extensions.
pub open spec fn names_media(name: Seq<char>, extensions: Seq<Seq<char>>) -> bool {
    match model::extension(name) {
        Some(ext) => extensions.contains(chars::ascii_lower_text(ext)),
        None => false,
    }
}

/// Whether a file name has one of the extensions.
pub fn has_media_extension(name: &str, extensions: &Vec<String>) -> (res: bool)
    ensures
        res == names_media(name@, text::views(extensions@)),
{
    match model::extension_of(name) {
        Some(ext) => {
            let lowered = chars::lower_ascii(ext.as_str());
            let ghost all = text::views(extensions@);
            let mut i: usize = 0;
            while i < extensions.len()
                invariant
                    i <= extensions.len(),
                    all == text::views(extensions@),
                    model::extension(name@) == Some(ext@),
                    lowered@ == chars::ascii_lower_text(ext@),
                    forall|k: int| 0 <= k < i ==> #[trigger] all[k] != lowered@,
                decreases extensions.len() - i,
            {
                assert(all[i as int] == extensions@[i as int]@);
                if text::same_text(extensions[i].as_str(), lowered.as_str()) {
                    return true;
                }
                i += 1;
            }
            false
        },
        None => false,
    }
}

/// What an input file is.
#[derive(Debug, Clone, Copy, PartialEq, Eq)]
pub enum InputKind {
    Video,
    Subtitle,
    Other,
}

/// What a file with this name is: a video by its extension, else a subtitle
/// where subtitles are asked for.
pub open spec fn kind_of_input(
    name: Seq<char>,
    extensions: Seq<Seq<char>>,
    subtitles: bool,
) -> InputKind {
    if names_media(name, extensions) {
        InputKind::Video
    } else if subtitles && names_subtitle(name) {
        InputKind::Subtitle
    } else {
        InputKind::Other
    }
}

/// Tells what a file with this name is.
pub fn input_kind(name: &str, extensions: &Vec<String>, subtitles: bool) -> (res: InputKind)
    ensures
        res == kind_of_input(name@, text::views(extensions@), subtitles),
{
    if has_media_extension(name, extensions) {
        InputKind::Video
    } else if subtitles && is_subtitle(name) {
        InputKind::Subtitle
    } else {
        InputKind::Other
    }
}

/// The files among those found that are of one kind, once each and in path
/// order, as a list of indices.
pub open spec fn is_collected(
    found: Seq<PathView>,
    extensions: Seq<Seq<char>>,
    subtitles: bool,
    kind: InputKind,
    list: Seq<usize>,
) -> bool {
    &&& path_order::indices_below(list, found.len() as int)
    &&& list.no_duplicates()
    &&& path_order::in_order(found, list)
    &&& forall|i: usize|
        i < found.len() ==> (#[trigger] list.contains(i) <==> kind_of_input(
            found[i as int].name,
            extensions,
            subtitles,
        ) == kind)
}

/// Picks the videos and the subtitles out of the files that were found, each in
/// path order.
pub fn collect_files(found: &Vec<MediaPath>, extensions: &Vec<String>, subtitles: bool) -> (res: (
    Vec<usize>,
    Vec<usize>,
))
    ensures
        is_collected(
            path_order::path_views(found@),
            plain_extensions(text::views(extensions@)),
            subtitles,
            InputKind::Video,
            res.0@,
        ),
        is_collected(
            path_order::path_views(found@),
            plain_extensions(text::views(extensions@)),
            subtitles,
            InputKind::Subtitle,
            res.1@,
        ),
{
    let enabled = normalize_extensions(extensions);
    let ghost views = path_order::path_views(found@);
    let ghost plain = plain_extensions(text::views(extensions@));
    let mut videos: Vec<usize> = Vec::new();
    let mut others: Vec<usize> = Vec::new();
    let mut i: usize = 0;
    while i < found.len()
        invariant
            i <= found.len(),
            views == path_order::path_views(found@),
            text::views(enabled@) == plain,
            picked_up_to(views, plain, subtitles, InputKind::Video, videos@, i as int),
            picked_up_to(views, plain, subtitles, InputKind::Subtitle, others@, i as int),
        decreases found.len() - i,
    {
        assert(views[i as int] == found@[i as int]@);
        let kind = input_kind(found[i].name.as_str(), &enabled, subtitles);
        let ghost old_videos = videos@;
        let ghost old_others = others@;
        match kind {
            InputKind::Video => videos.push(i),
            InputKind::Subtitle => others.push(i),
            InputKind::Other => {},
        }
        proof {
            lemma_picked_step(views, plain, subtitles, InputKind::Video, old_videos, i as int);
            lemma_picked_step(views, plain, subtitles, InputKind::Subtitle, old_others, i as int);
        }
        i += 1;
    }
    (path_order::sort_indices(found, &videos), path_order::sort_indices(found, &others))
}

/// The list holds the indices below `n` of the files of one kind, ascending.
spec fn picked_up_to(
    found: Seq<PathView>,
    extensions: Seq<Seq<char>>,
    subtitles: bool,
    kind: InputKind,
    list: Seq<usize>,
    n: int,
) -> bool {
    &&& path_order::indices_below(list, n)
    &&& list.no_duplicates()
    &&& forall|i: usize|
        i < n ==> (#[trigger] list.contains(i) <==> kind_of_input(
            found[i as int].name,
            extensions,
            subtitles,
        ) == kind)
}

proof fn lemma_picked_step(
    found: Seq<PathView>,
    extensions: Seq<Seq<char>>,
    subtitles: bool,
    kind: InputKind,
    list: Seq<usize>,
    n: int,
)
    requires
        picked_up_to(found, extensions, subtitles, kind, list, n),
        0 <= n < usize::MAX,
    ensures
        kind_of_input(found[n].name, extensions, subtitles) == kind ==> picked_up_to(
            found,
            extensions,
            subtitles,
            kind,
            list.push(n as usize),
            n + 1,
        ),
        kind_of_input(found[n].name, extensions, subtitles) != kind ==> picked_up_to(
            found,
            extensions,
            subtitles,
            kind,
            list,
            n + 1,
        ),
{
    let longer = list.push(n as usize);
    assert forall|i: usize| i < n implies (#[trigger] longer.contains(i) <==> list.contains(i)) by {
        if list.contains(i) {
            let k = choose|k: int| 0 <= k < list.len() && list[k] == i;
            assert(longer[k] == i);
        }
        if longer.contains(i) {
            let k = choose|k: int| 0 <= k < longer.len() && longer[k] == i;
            assert(list[k] == i);
        }
    }
    assert(longer[list.len() as int] == n as usize);
    assert(longer.contains(n as usize));
    if list.contains(n as usize) {
        let k = choose|k: int| 0 <= k < list.len() && list[k] == n as usize;
        assert(list[k] < n);
    }
}

/// What a target on the command line turns out to be.
#[derive(Debug, Clone, Copy, PartialEq, Eq)]
pub enum TargetState {
    File,
    Directory,
    /// It exists, but is neither a file nor a directory that can be read.
    Unreadable,
    Missing,
}

/// What to do with a target.
#[derive(Debug, Clone, Copy, PartialEq, Eq)]
pub enum TargetStep {
    TakeVideo,
    TakeSubtitle,
    /// Walk through the directory, to any depth or not below it.
    Walk { deep: bool },
    /// Leave it out with a warning.
    Skip(SkipReason),
}

/// Why a target is left out.
#[derive(Debug, Clone, Copy, PartialEq, Eq)]
pub enum SkipReason {
    NotEnabled,
    Unreadable,
    Missing,
}

/// What to do with a target.
pub open spec fn step_for_target(
    state: TargetState,
    name: Seq<char>,
    extensions: Seq<Seq<char>>,
    subtitles: bool,
    recursive: bool,
) -> TargetStep {
    match state {
        TargetState::File => match kind_of_input(name, extensions, subtitles) {
            InputKind::Video => TargetStep::TakeVideo,
            InputKind::Subtitle => TargetStep::TakeSubtitle,
            InputKind::Other => TargetStep::Skip(SkipReason::NotEnabled),
        },
        TargetState::Directory => TargetStep::Walk { deep: recursive },
        TargetState::Unreadable => TargetStep::Skip(SkipReason::Unreadable),
        TargetState::Missing => TargetStep::Skip(SkipReason::Missing),
    }
}

/// Decides what to do with a target.
pub fn target_step(
    state: TargetState,
    name: &str,
    extensions: &Vec<String>,
    subtitles: bool,
    recursive: bool,
) -> (res: TargetStep)
    ensures
        res == step_for_target(state, name@, text::views(extensions@), subtitles, recursive),
{
    match state {
        TargetState::File => match input_kind(name, extensions, subtitles) {
            InputKind::Video => TargetStep::TakeVideo,
            InputKind::Subtitle => TargetStep::TakeSubtitle,
            InputKind::Other => TargetStep::Skip(SkipReason::NotEnabled),
        },
        TargetState::Directory => TargetStep::Walk { deep: recursive },
        TargetState::Unreadable => TargetStep::Skip(SkipReason::Unreadable),
        TargetState::Missing => TargetStep::Skip(SkipReason::Missing),
    }
}

/// Why a target is left out, in words.
pub open spec fn skip_words(reason: SkipReason) -> Seq<char> {
    match reason {
        SkipReason::NotEnabled => " does not have an enabled media extension, skipping"@,
        SkipReason::Unreadable => " is not a readable file or directory, skipping"@,
        SkipReason::Missing => " does not exist, skipping"@,
    }
}

/// The warning that a target is left out.
pub fn skip_warning(shown: &str, reason: SkipReason) -> (res: String)
    ensures
        res@ == shown@ + skip_words(reason),
{
    let mut out = String::from_str(shown);
    match reason {
        SkipReason::NotEnabled => out.append(
            " does not have an enabled media extension, skipping",
        ),
        SkipReason::Unreadable => out.append(" is not a readable file or directory, skipping"),
        SkipReason::Missing => out.append(" does not exist, skipping"),
    }
    out
}

/// A subtitle keeps the markers and the extension of its name, and moves into
/// the directory of its video's destination.
pub proof fn law_subtitles_keep_their_suffix(
    video: PathView,
    destination: PathView,
    name: Seq<char>,
)
    requires
        destination.name.len() > 0,
    ensures
        planned_subtitle(video, destination, name) matches Some(plan) ==> {
            let suffix = suffix_after(model::stem(video.name), name)->0;
            &&& plan.source == (PathView { directory: video.directory, name })
            &&& plan.destination.directory == destination.directory
            &&& name == model::stem(video.name) + suffix
            &&& plan.destination.name == model::stem(destination.name) + suffix
            &&& suffix[0] == '.'
            &&& model::extension(plan.destination.name) == model::extension(name)
        },
{
    if let Some(plan) = planned_subtitle(video, destination, name) {
        let stem = model::stem(video.name);
        let suffix = name.skip(stem.len() as int);
        let to = model::stem(destination.name);
        assert(name =~= stem + suffix);
        model::lemma_last_dot(name);
        model::lemma_last_dot(destination.name);
        let i = model::extension_dot(name)->0;
        let j = to.len() + (i - stem.len());
        let renamed = to + suffix;
        model::lemma_last_dot(renamed);
        assert(name[stem.len() as int] == '.');
        assert(i >= stem.len());
        assert(renamed[j] == name[i]);
        assert forall|k: int| j < k < renamed.len() implies #[trigger] renamed[k] != '.' by {
            assert(renamed[k] == name[k - to.len() + stem.len()]);
        }
        assert(model::last_dot(renamed) == Some(j));
        assert(renamed.skip(j + 1) =~= name.skip(i + 1));
        reveal_strlit("srt");
        reveal_strlit("ass");
        reveal_strlit("ssa");
        reveal_strlit("sub");
        reveal_strlit("vtt");
        assert(chars::ascii_lower_text(name.skip(i + 1)).len() == 3);
        assert(renamed.len() > 2);
    }
}

/// Two different subtitles of one video get different destinations.
pub proof fn law_subtitles_do_not_collide(
    video: PathView,
    destination: PathView,
    a: Seq<char>,
    b: Seq<char>,
)
    requires
        planned_subtitle(video, destination, a) is Some,
        planned_subtitle(video, destination, b) is Some,
        planned_subtitle(video, destination, a)->0.destination == planned_subtitle(
            video,
            destination,
            b,
        )->0.destination,
    ensures
        a == b,
{
    let stem = model::stem(video.name);
    let to = model::stem(destination.name);
    let x = a.skip(stem.len() as int);
    let y = b.skip(stem.len() as int);
    assert(a =~= stem + x);
    assert(b =~= stem + y);
    assert((to + x).skip(to.len() as int) =~= x);
    assert((to + y).skip(to.len() as int) =~= y);
}

/// Whether a list keeps a file with this identity.
pub open spec fn is_kept(identities: Seq<Seq<char>>, kept: Seq<usize>, identity: Seq<char>) -> bool {
    exists|i: int| 0 <= i < kept.len() && identities[#[trigger] kept[i] as int] == identity
}

/// The files that are kept are the first with their identity: they stand in
/// their old order, no two have the same identity, and every identity that was
/// there is kept.
pub proof fn law_each_identity_is_kept_once(identities: Seq<Seq<char>>, n: nat)
    requires
        n <= identities.len(),
        n <= usize::MAX,
    ensures
        forall|i: int, j: int|
            0 <= i < j < first_of_each(identities, n).len() ==> #[trigger] first_of_each(
                identities,
                n,
            )[i] < #[trigger] first_of_each(identities, n)[j] && identities[first_of_each(
                identities,
                n,
            )[i] as int] != identities[first_of_each(identities, n)[j] as int],
        forall|i: int|
            0 <= i < first_of_each(identities, n).len() ==> #[trigger] first_of_each(
                identities,
                n,
            )[i] < n,
        forall|k: int|
            0 <= k < n ==> is_kept(identities, first_of_each(identities, n), #[trigger] identities[k]),
    decreases n,
{
    if n > 0 {
        let m = (n - 1) as nat;
        law_each_identity_is_kept_once(identities, m);
        let before = first_of_each(identities, m);
        let after = first_of_each(identities, n);
        assert forall|k: int| 0 <= k < n implies is_kept(
            identities,
            after,
            #[trigger] identities[k],
        ) by {
            if k < m {
                assert(is_kept(identities, before, identities[k]));
                let i = choose|i: int|
                    0 <= i < before.len() && identities[#[trigger] before[i] as int]
                        == identities[k];
                assert(after[i] == before[i]);
            } else if exists|j: int| 0 <= j < m && #[trigger] identities[j] == identities[k] {
                let j = choose|j: int| 0 <= j < m && #[trigger] identities[j] == identities[k];
                assert(is_kept(identities, before, identities[j]));
                let i = choose|i: int|
                    0 <= i < before.len() && identities[#[trigger] before[i] as int]
                        == identities[j];
                assert(after[i] == before[i]);
            } else {
                assert(after[before.len() as int] == m);
            }
        }
    }
}

/// No subtitle is taken for a video unless its extension was asked for, and a
/// file that is neither is never taken.
pub proof fn law_inputs_are_told_apart(
    name: Seq<char>,
    extensions: Seq<Seq<char>>,
    subtitles: bool,
)
    ensures
        kind_of_input(name, extensions, subtitles) is Video <==> names_media(name, extensions),
        kind_of_input(name, extensions, subtitles) is Subtitle ==> subtitles && names_subtitle(
            name,
        ) && !names_media(name, extensions),
        !subtitles ==> !(kind_of_input(name, extensions, subtitles) is Subtitle),
{
}

/// Whether an extension is that of a subtitle, letter by letter in either case.
pub open spec fn spells_subtitle_extension(ext: Seq<char>) -> bool {
    let e = chars::ascii_lower_text(ext);
    ||| e == seq!['s', 'r', 't']
    ||| e == seq!['a', 's', 's']
    ||| e == seq!['s', 's', 'a']
    ||| e == seq!['s', 'u', 'b']
    ||| e == seq!['v', 't', 't']
}

proof fn lemma_spelled_extension(ext: Seq<char>)
    ensures
        is_subtitle_extension(ext) <==> spells_subtitle_extension(ext),
        spells_subtitle_extension(ext) ==> ext.len() == 3 && forall|k: int|
            0 <= k < 3 ==> #[trigger] ext[k] != '.',
{
    reveal_strlit("srt");
    reveal_strlit("ass");
    reveal_strlit("ssa");
    reveal_strlit("sub");
    reveal_strlit("vtt");
    let e = chars::ascii_lower_text(ext);
    assert("srt"@ =~= seq!['s', 'r', 't']);
    assert("ass"@ =~= seq!['a', 's', 's']);
    assert("ssa"@ =~= seq!['s', 's', 'a']);
    assert("sub"@ =~= seq!['s', 'u', 'b']);
    assert("vtt"@ =~= seq!['v', 't', 't']);
    assert(e.len() == ext.len());
    if spells_subtitle_extension(ext) {
        assert forall|k: int| 0 <= k < 3 implies #[trigger] ext[k] != '.' by {
            assert(e[k] == chars::ascii_lower(ext[k]));
            assert(e[k] != '.');
        }
    }
}

/// Every file whose name is a video's stem, a dot, any markers and the extension
/// of a subtitle belongs to that video; what stands behind the stem is its
/// suffix. Without the dot behind the stem, or with another extension, no file
/// does.
pub proof fn law_subtitles_are_found(stem: Seq<char>, markers: Seq<char>, ext: Seq<char>)
    requires
        stem.len() > 0,
    ensures
        spells_subtitle_extension(ext) ==> suffix_after(stem, stem + seq!['.'] + ext) == Some(
            seq!['.'] + ext,
        ),
        spells_subtitle_extension(ext) ==> suffix_after(
            stem,
            stem + seq!['.'] + markers + seq!['.'] + ext,
        ) == Some(seq!['.'] + markers + seq!['.'] + ext),
{
    if spells_subtitle_extension(ext) {
        lemma_subtitle_name(stem, Seq::empty(), ext);
        assert(stem + Seq::<char>::empty() + seq!['.'] + ext =~= stem + seq!['.'] + ext);
        assert(Seq::<char>::empty() + seq!['.'] + ext =~= seq!['.'] + ext);
        lemma_subtitle_name(stem, seq!['.'] + markers, ext);
        assert(stem + (seq!['.'] + markers) + seq!['.'] + ext =~= stem + seq!['.'] + markers
            + seq!['.'] + ext);
    }
}

proof fn lemma_subtitle_name(stem: Seq<char>, middle: Seq<char>, ext: Seq<char>)
    requires
        stem.len() > 0,
        middle.len() == 0 || middle[0] == '.',
        spells_subtitle_extension(ext),
    ensures
        suffix_after(stem, stem + middle + seq!['.'] + ext) == Some(middle + seq!['.'] + ext),
{
    let name = stem + middle + seq!['.'] + ext;
    let i = (stem.len() + middle.len()) as int;
    lemma_spelled_extension(ext);
    model::lemma_last_dot(name);
    assert(name[i] == '.');
    assert forall|k: int| i < k < name.len() implies #[trigger] name[k] != '.' by {
        assert(name[k] == ext[k - i - 1]);
    }
    assert(model::last_dot(name) == Some(i));
    assert(name.len() > 2);
    assert(name.skip(i + 1) =~= ext);
    assert(name.subrange(0, stem.len() as int) =~= stem);
    assert(name.skip(stem.len() as int) =~= middle + seq!['.'] + ext);
    assert(name[stem.len() as int] == '.');
}

/// A file belongs to a video only where its name is the video's stem and a
/// suffix that begins with a dot and ends in the extension of a subtitle.
pub proof fn law_only_subtitles_are_found(stem: Seq<char>, name: Seq<char>)
    ensures
        suffix_after(stem, name) matches Some(suffix) ==> {
            &&& name == stem + suffix
            &&& suffix.len() > 3
            &&& suffix[0] == '.'
            &&& suffix[suffix.len() - 4] == '.'
            &&& spells_subtitle_extension(suffix.skip(suffix.len() - 3))
        },
{
    if let Some(suffix) = suffix_after(stem, name) {
        model::lemma_last_dot(name);
        let i = model::extension_dot(name)->0;
        let ext = name.skip(i + 1);
        lemma_spelled_extension(ext);
        assert(name.subrange(0, stem.len() as int) == stem);
        assert(name =~= stem + suffix);
        assert(i >= stem.len());
        assert(suffix[i - stem.len()] == name[i]);
        assert(suffix.skip(suffix.len() - 3) =~= ext);
    }
}

/// Every file beside a video that is named by its stem, a dot, any markers and
/// the extension of a subtitle is planned, once for each time it is listed, and
/// goes to the stem of the destination with the same suffix; nothing else is.
pub proof fn law_listed_subtitles_are_planned(
    video: PathView,
    destination: PathView,
    names: Seq<Seq<char>>,
)
    ensures
        forall|i: int|
            0 <= i < names.len() && suffix_after(model::stem(video.name), #[trigger] names[i])
                is Some ==> planned_subtitles(video, destination, names).contains(
                SubtitleView {
                    source: PathView { directory: video.directory, name: names[i] },
                    destination: PathView {
                        directory: destination.directory,
                        name: model::stem(destination.name) + suffix_after(
                            model::stem(video.name),
                            names[i],
                        )->0,
                    },
                },
            ),
        forall|k: int|
            0 <= k < planned_subtitles(video, destination, names).len() ==> ({
                let plan = #[trigger] planned_subtitles(video, destination, names)[k];
                &&& names.contains(plan.source.name)
                &&& suffix_after(model::stem(video.name), plan.source.name) is Some
            }),
        planned_subtitles(video, destination, names).len() == names.filter(
            |name: Seq<char>| suffix_after(model::stem(video.name), name) is Some,
        ).len(),
    decreases names.len(),
{
    reveal(Seq::filter);
    if names.len() > 0 {
        let front = names.drop_last();
        law_listed_subtitles_are_planned(video, destination, front);
        let before = planned_subtitles(video, destination, front);
        let after = planned_subtitles(video, destination, names);
        assert forall|i: int|
            0 <= i < names.len() && suffix_after(
                model::stem(video.name),
                #[trigger] names[i],
            ) is Some implies after.contains(
            SubtitleView {
                source: PathView { directory: video.directory, name: names[i] },
                destination: PathView {
                    directory: destination.directory,
                    name: model::stem(destination.name) + suffix_after(
                        model::stem(video.name),
                        names[i],
                    )->0,
                },
            },
        ) by {
            let plan = SubtitleView {
                source: PathView { directory: video.directory, name: names[i] },
                destination: PathView {
                    directory: destination.directory,
                    name: model::stem(destination.name) + suffix_after(
                        model::stem(video.name),
                        names[i],
                    )->0,
                },
            };
            if i < front.len() {
                assert(front[i] == names[i]);
                assert(before.contains(plan));
                let k = choose|k: int| 0 <= k < before.len() && before[k] == plan;
                assert(after[k] == plan);
            } else {
                assert(after[after.len() - 1] == plan);
            }
        }
        assert forall|k: int| 0 <= k < after.len() implies ({
            let plan = #[trigger] after[k];
            &&& names.contains(plan.source.name)
            &&& suffix_after(model::stem(video.name), plan.source.name) is Some
        }) by {
            let plan = after[k];
            if k < before.len() {
                assert(before[k] == plan);
                let i = choose|i: int| 0 <= i < front.len() && front[i] == plan.source.name;
                assert(names[i] == plan.source.name);
            } else {
                assert(names[names.len() - 1] == plan.source.name);
            }
        }
    }
}

/// A file is a video just where its extension, in lower case, is one of those
/// that are enabled; the case of the name makes no difference.
pub proof fn law_videos_are_told_by_extension(
    stem: Seq<char>,
    ext: Seq<char>,
    extensions: Seq<Seq<char>>,
)
    requires
        stem.len() > 0,
        ext.len() > 0,
        forall|i: int| 0 <= i < ext.len() ==> #[trigger] ext[i] != '.',
    ensures
        names_media(stem + seq!['.'] + ext, extensions) <==> exists|k: int|
            0 <= k < extensions.len() && #[trigger] extensions[k] == chars::ascii_lower_text(ext),
        names_subtitle(stem + seq!['.'] + ext) <==> spells_subtitle_extension(ext),
        !names_media(ext, extensions),
        !names_subtitle(ext),
        !names_media(seq!['.'] + ext, extensions),
        !names_subtitle(seq!['.'] + ext),
{
    let name = stem + seq!['.'] + ext;
    assert(name != seq!['.', '.']) by {
        if name == seq!['.', '.'] {
            assert(name[1] == ext[0] || name.len() > 2);
        }
    }
    model::law_extensions_follow_the_last_dot(stem, ext);
    lemma_spelled_extension(ext);
}

/// What a file is taken for: a video where its extension is enabled, else a
/// subtitle where subtitles are asked for and its extension is one of theirs.
pub proof fn law_other_files_are_left_alone(
    name: Seq<char>,
    extensions: Seq<Seq<char>>,
    subtitles: bool,
)
    ensures
        names_media(name, extensions) ==> kind_of_input(name, extensions, subtitles)
            == InputKind::Video,
        !names_media(name, extensions) && subtitles && names_subtitle(name) ==> kind_of_input(
            name,
            extensions,
            subtitles,
        ) == InputKind::Subtitle,
        !names_media(name, extensions) && !(subtitles && names_subtitle(name)) ==> kind_of_input(
            name,
            extensions,
            subtitles,
        ) == InputKind::Other,
{
}

/// An extension is compared in lower case, without white space around it and
/// without dots before it.
pub proof fn law_extensions_are_compared_plainly(
    left: Seq<char>,
    dots: Seq<char>,
    ext: Seq<char>,
    right: Seq<char>,
)
    requires
        forall|i: int| 0 <= i < left.len() ==> CharSet::Space.contains(#[trigger] left[i]),
        forall|i: int| 0 <= i < right.len() ==> CharSet::Space.contains(#[trigger] right[i]),
        forall|i: int| 0 <= i < dots.len() ==> #[trigger] dots[i] == '.',
        ext.len() > 0,
        ext[0] != '.',
        !chars::is_space(ext[0]),
        !chars::is_space(ext.last()),
    ensures
        plain_extension(left + (dots + ext) + right) == chars::ascii_lower_text(ext),
{
    let core = dots + ext;
    assert(core.last() == ext.last());
    if dots.len() > 0 {
        assert(core[0] == dots[0]);
    } else {
        assert(core =~= ext);
    }
    text::law_trimming_takes_the_ends_off(left, core, right, CharSet::Space);
    assert forall|i: int| 0 <= i < dots.len() implies CharSet::Dot.contains(#[trigger] dots[i]) by {
        assert(dots[i] == '.');
    }
    text::lemma_dots_before(dots, ext);
}

/// The enabled extensions are those that were given, in order, without those
/// that are empty.
pub proof fn law_empty_extensions_are_dropped(a: Seq<Seq<char>>, e: Seq<char>, b: Seq<Seq<char>>)
    ensures
        plain_extensions(a + b) == plain_extensions(a) + plain_extensions(b),
        plain_extension(e).len() > 0 ==> plain_extensions(seq![e]) == seq![plain_extension(e)],
        plain_extension(e).len() == 0 ==> plain_extensions(seq![e]).len() == 0,
{
    let f = |e: Seq<char>| plain_extension(e);
    assert((a + b).map_values(f) =~= a.map_values(f) + b.map_values(f));
    text::lemma_nonempty_concat(a.map_values(f), b.map_values(f));
    let one = seq![e].map_values(f);
    assert(one =~= seq![plain_extension(e)]);
    reveal(Seq::filter);
    assert(one.drop_last() =~= Seq::<Seq<char>>::empty());
    assert(text::nonempty(Seq::empty()) =~= Seq::<Seq<char>>::empty());
    assert(text::nonempty(one) =~= (if plain_extension(e).len() > 0 {
        one
    } else {
        Seq::empty()
    }));
}

/// Of the files with one identity the first is the one that is kept.
pub proof fn law_the_first_of_each_identity_is_kept(identities: Seq<Seq<char>>, n: nat, i: int)
    requires
        n <= identities.len(),
        n <= usize::MAX,
        0 <= i < first_of_each(identities, n).len(),
    ensures
        forall|j: int|
            0 <= j < first_of_each(identities, n)[i] ==> #[trigger] identities[j]
                != identities[first_of_each(identities, n)[i] as int],
    decreases n,
{
    let m = (n - 1) as nat;
    let before = first_of_each(identities, m);
    if i < before.len() {
        law_the_first_of_each_identity_is_kept(identities, m, i);
        assert(first_of_each(identities, n)[i] == before[i]);
    }
}

/// A subtitle among the inputs belongs to a video among them just where that
/// lies in the same directory and the subtitle is one of its own.
pub proof fn law_subtitle_inputs_need_their_video(
    subtitle: PathView,
    videos: Seq<PathView>,
    i: int,
)
    ensures
        0 <= i < videos.len() && videos[i].directory == subtitle.directory && suffix_after(
            model::stem(videos[i].name),
            subtitle.name,
        ) is Some ==> matches_a_video(subtitle, videos),
        (forall|k: int|
            0 <= k < videos.len() ==> (#[trigger] videos[k]).directory != subtitle.directory
                || suffix_after(model::stem(videos[k].name), subtitle.name) is None)
            ==> !matches_a_video(subtitle, videos),
{
}

/// Every file that is a video, or a subtitle, is collected as such, and nothing
/// else is.
pub proof fn law_all_files_of_a_kind_are_collected(
    found: Seq<PathView>,
    extensions: Seq<Seq<char>>,
    subtitles: bool,
    videos: Seq<usize>,
    others: Seq<usize>,
    i: usize,
)
    requires
        is_collected(found, extensions, subtitles, InputKind::Video, videos),
        is_collected(found, extensions, subtitles, InputKind::Subtitle, others),
        i < found.len(),
    ensures
        videos.contains(i) <==> names_media(found[i as int].name, extensions),
        others.contains(i) <==> subtitles && names_subtitle(found[i as int].name) && !names_media(
            found[i as int].name,
            extensions,
        ),
        videos.no_duplicates() && others.no_duplicates(),
        forall|k: int, l: int|
            0 <= k < l < videos.len() ==> !path_order::path_before(
                found[#[trigger] videos[l] as int],
                found[#[trigger] videos[k] as int],
            ),
{
    assert(videos.contains(i) <==> kind_of_input(found[i as int].name, extensions, subtitles)
        == InputKind::Video);
    assert(others.contains(i) <==> kind_of_input(found[i as int].name, extensions, subtitles)
        == InputKind::Subtitle);
    assert forall|k: int, l: int| 0 <= k < l < videos.len() implies !path_order::path_before(
        found[#[trigger] videos[l] as int],
        found[#[trigger] videos[k] as int],
    ) by {
        assert(!path_order::index_before(found, videos[l] as int, videos[k] as int));
    }
}

/// A target is taken by what it is: a file by its kind, a directory to be walked
/// through, as deep as was asked for, and anything else left out with the reason.
pub proof fn law_targets_are_taken_by_what_they_are(
    name: Seq<char>,
    extensions: Seq<Seq<char>>,
    subtitles: bool,
    recursive: bool,
)
    ensures
        names_media(name, extensions) ==> step_for_target(
            TargetState::File,
            name,
            extensions,
            subtitles,
            recursive,
        ) == TargetStep::TakeVideo,
        !names_media(name, extensions) && subtitles && names_subtitle(name) ==> step_for_target(
            TargetState::File,
            name,
            extensions,
            subtitles,
            recursive,
        ) == TargetStep::TakeSubtitle,
        !names_media(name, extensions) && !(subtitles && names_subtitle(name)) ==> step_for_target(
            TargetState::File,
            name,
            extensions,
            subtitles,
            recursive,
        ) == TargetStep::Skip(SkipReason::NotEnabled),
        step_for_target(TargetState::Directory, name, extensions, subtitles, recursive) == (
        TargetStep::Walk { deep: recursive }),
        step_for_target(TargetState::Unreadable, name, extensions, subtitles, recursive)
            == TargetStep::Skip(SkipReason::Unreadable),
        step_for_target(TargetState::Missing, name, extensions, subtitles, recursive)
            == TargetStep::Skip(SkipReason::Missing),
{
}

/// What is reported of a subtitle names it, and says differently whether it
/// belongs to a video.
pub proof fn law_subtitle_reports_name_the_file(shown: Seq<char>)
    ensures
        input_report(shown, true) == "subtitle: "@ + shown
            + " matches a video input; will be considered with that video's rename"@,
        text::has_text(input_report(shown, false), shown),
        input_report(shown, true) != input_report(shown, false),
{
    reveal_strlit("subtitle: ");
    reveal_strlit("warning: unmatched subtitle ");
    text::law_texts_are_found_where_they_stand(
        "warning: unmatched subtitle "@,
        shown,
        "; left unchanged (must match a video input's complete filename stem in the same directory)"@,
    );
    assert(input_report(shown, true)[0] == 's');
    assert(input_report(shown, false)[0] == 'w');
}

/// The planned renames that are handed out are those of the subtitles that were
/// found, each once, in the path order of their sources.
pub proof fn law_sorted_plans_are_the_same_plans(
    plans: Seq<SubtitleView>,
    sorted: Seq<SubtitleView>,
    i: int,
    j: int,
)
    requires
        is_sorted_by_source(plans, sorted),
        plans.len() <= usize::MAX,
        0 <= i < sorted.len(),
        0 <= j < sorted.len(),
    ensures
        sorted.len() == plans.len(),
        plans.contains(sorted[i]),
        forall|k: int| 0 <= k < plans.len() ==> sorted.contains(#[trigger] plans[k]),
        path_order::path_before(sorted[i].source, sorted[j].source) ==> i < j,
{
    let sources = subtitle_sources(plans);
    let order = choose|order: Seq<usize>| #[trigger]
        path_order::is_sorting(sources, order) && sorted =~= order.map_values(
            |i: usize| plans[i as int],
        );
    path_order::law_sortings_lead_through_all_paths(sources, order, i, j);
    path_order::law_sortings_lead_through_all_paths(sources, order, j, i);
    assert(plans[order[i] as int] == sorted[i]);
    assert(sources[order[i] as int] == sorted[i].source);
    assert(sources[order[j] as int] == sorted[j].source);
    assert forall|k: int| 0 <= k < plans.len() implies sorted.contains(#[trigger] plans[k]) by {
        assert(order.contains(k as usize));
        let m = choose|m: int| 0 <= m < order.len() && order[m] == k as usize;
        assert(sorted[m] == plans[k]);
    }
}

} // verus!
