//! Plans that would give several videos the same destination name.
use vstd::prelude::*;

use crate::model;
use crate::model::{MediaPath, PathView, PlanView, RenamePlan};
use crate::number;
use crate::path_order;
use crate::pattern;
use crate::pattern::FoundView;
use crate::quality;
use crate::quality::{QualityView, VideoQuality};
use crate::text;

verus! {

/// What two destinations share that differ in their extension alone.
pub open spec fn duplicate_key(destination: PathView) -> PathView {
    PathView { directory: destination.directory, name: model::stem(destination.name) }
}

/// Keeps the directory and the complete title, but ignores the final container
/// extension. The key only serves to compare candidates.
pub fn duplicate_destination_key(destination: &MediaPath) -> (res: MediaPath)
    ensures
        res@ == duplicate_key(destination@),
{
    MediaPath {
        directory: destination.directory.clone(),
        name: model::stem_of(destination.name.as_str()),
    }
}

/// How many of the plans have a destination with this key.
pub open spec fn key_count(plans: Seq<PlanView>, key: PathView) -> nat
    decreases plans.len(),
{
    if plans.len() == 0 {
        0
    } else {
        key_count(plans.drop_last(), key) + (if duplicate_key(plans.last().destination) == key {
            1nat
        } else {
            0nat
        })
    }
}

proof fn lemma_key_count(plans: Seq<PlanView>, key: PathView)
    ensures
        key_count(plans, key) <= plans.len(),
        key_count(plans, key) > 0 <==> exists|i: int|
            0 <= i < plans.len() && duplicate_key((#[trigger] plans[i]).destination) == key,
    decreases plans.len(),
{
    if plans.len() > 0 {
        lemma_key_count(plans.drop_last(), key);
        if key_count(plans.drop_last(), key) > 0 {
            let i = choose|i: int|
                0 <= i < plans.len() - 1 && duplicate_key(
                    (#[trigger] plans.drop_last()[i]).destination,
                ) == key;
            assert(plans[i] == plans.drop_last()[i]);
        }
        if exists|i: int| 0 <= i < plans.len() && duplicate_key((#[trigger] plans[i]).destination) == key {
            let i = choose|i: int|
                0 <= i < plans.len() && duplicate_key((#[trigger] plans[i]).destination) == key;
            if i < plans.len() - 1 {
                assert(plans.drop_last()[i] == plans[i]);
            }
        }
    }
}

/// How many plans have each destination key.
pub struct DestinationCounts {
    pub entries: Vec<(MediaPath, usize)>,
}

/// The count beside a key in a list, or none.
pub open spec fn listed_count(entries: Seq<(MediaPath, usize)>, key: PathView) -> nat
    decreases entries.len(),
{
    if entries.len() == 0 {
        0
    } else if entries.last().0@ == key {
        entries.last().1 as nat
    } else {
        listed_count(entries.drop_last(), key)
    }
}

impl DestinationCounts {
    /// The count of a key.
    pub open spec fn count(&self, key: PathView) -> nat {
        listed_count(self.entries@, key)
    }

    /// How many plans have a destination with this key.
    pub fn get(&self, key: &MediaPath) -> (res: usize)
        ensures
            res == self.count(key@),
    {
        let mut i: usize = self.entries.len();
        assert(self.entries@.take(i as int) =~= self.entries@);
        while i > 0
            invariant
                i <= self.entries.len(),
                self.count(key@) == listed_count(self.entries@.take(i as int), key@),
            decreases i,
        {
            assert(self.entries@.take(i as int).drop_last() =~= self.entries@.take(i - 1));
            if self.entries[i - 1].0.same(key) {
                return self.entries[i - 1].1;
            }
            i -= 1;
        }
        0
    }
}

/// Whether the source of a plan is probed: another plan has the same destination.
pub fn needs_probe(plan: &RenamePlan, counts: &DestinationCounts) -> (res: bool)
    ensures
        res == (counts.count(duplicate_key(plan.destination@)) > 1),
{
    counts.get(&duplicate_destination_key(&plan.destination)) > 1
}

proof fn lemma_listed_push(entries: Seq<(MediaPath, usize)>, entry: (MediaPath, usize), key: PathView)
    ensures
        listed_count(entries.push(entry), key) == (if entry.0@ == key {
            entry.1 as nat
        } else {
            listed_count(entries, key)
        }),
{
    assert(entries.push(entry).drop_last() =~= entries);
}

/// Counts the plans for each destination key.
pub fn count_destinations(plans: &[RenamePlan]) -> (res: DestinationCounts)
    ensures
        forall|key: PathView| #[trigger] res.count(key) == key_count(model::plan_views(plans@), key),
{
    let ghost views = model::plan_views(plans@);
    let mut counts = DestinationCounts { entries: Vec::new() };
    let mut i: usize = 0;
    assert(views.take(0) =~= Seq::<PlanView>::empty());
    while i < plans.len()
        invariant
            i <= plans.len(),
            views == model::plan_views(plans@),
            forall|key: PathView| #[trigger] counts.count(key) == key_count(views.take(i as int), key),
        decreases plans.len() - i,
    {
        let key = duplicate_destination_key(&plans[i].destination);
        let n = counts.get(&key);
        let ghost before = counts;
        proof {
            lemma_key_count(views.take(i as int), key@);
            assert(views.take(i + 1).drop_last() =~= views.take(i as int));
            assert(views[i as int] == plans@[i as int]@);
        }
        let ghost key_view = key@;
        counts.entries.push((key, n + 1));
        proof {
            assert forall|k: PathView| #[trigger] counts.count(k) == key_count(views.take(i + 1), k) by {
                lemma_listed_push(before.entries@, counts.entries@.last(), k);
                assert(before.count(k) == key_count(views.take(i as int), k));
            }
        }
        i += 1;
    }
    assert(views.take(views.len() as int) =~= views);
    counts
}

/// The plans of one key among all, each with its quality where that is known.
pub open spec fn candidates(
    plans: Seq<PlanView>,
    qualities: Seq<Option<QualityView>>,
    key: PathView,
) -> Seq<Option<QualityView>> {
    Seq::new(
        plans.len(),
        |i: int|
            if duplicate_key(plans[i].destination) == key {
                qualities[i]
            } else {
                None
            },
    )
}

/// Which plan is to be preferred among several with one key.
pub open spec fn preferred_plan(
    plans: Seq<PlanView>,
    qualities: Seq<Option<QualityView>>,
    key: PathView,
) -> Option<int> {
    let group = candidates(plans, qualities, key);
    if key_count(plans, key) >= 2 && exists|i: int| quality::is_preferred(group, i) {
        Some(choose|i: int| quality::is_preferred(group, i))
    } else {
        None
    }
}

/// Finds the plan to prefer among those with one key.
pub fn find_preferred_plan(
    plans: &[RenamePlan],
    qualities: &Vec<Option<VideoQuality>>,
    key: &MediaPath,
) -> (res: Option<usize>)
    requires
        qualities@.len() == plans@.len(),
    ensures
        match res {
            Some(i) => preferred_plan(
                model::plan_views(plans@),
                quality::candidate_views(qualities@),
                key@,
            ) == Some(i as int) && i < plans@.len(),
            None => preferred_plan(
                model::plan_views(plans@),
                quality::candidate_views(qualities@),
                key@,
            ) is None,
        },
{
    let ghost views = model::plan_views(plans@);
    let ghost known = quality::candidate_views(qualities@);
    let mut group: Vec<Option<VideoQuality>> = Vec::new();
    let mut count: usize = 0;
    let mut i: usize = 0;
    assert(views.take(0) =~= Seq::<PlanView>::empty());
    while i < plans.len()
        invariant
            i <= plans.len(),
            qualities@.len() == plans@.len(),
            views == model::plan_views(plans@),
            known == quality::candidate_views(qualities@),
            group@.len() == i,
            count <= i,
            count == key_count(views.take(i as int), key@),
            forall|k: int|
                0 <= k < i ==> quality::quality_view(#[trigger] group@[k]) == candidates(
                    views,
                    known,
                    key@,
                )[k],
        decreases plans.len() - i,
    {
        assert(views.take(i + 1).drop_last() =~= views.take(i as int));
        assert(views[i as int] == plans@[i as int]@);
        assert(known[i as int] == quality::quality_view(qualities@[i as int]));
        if duplicate_destination_key(&plans[i].destination).same(key) {
            group.push(
                match &qualities[i] {
                    Some(q) => Some(quality::copy_quality(q)),
                    None => None,
                },
            );
            count += 1;
        } else {
            group.push(None);
        }
        i += 1;
    }
    assert(views.take(views.len() as int) =~= views);
    assert(quality::candidate_views(group@) =~= candidates(views, known, key@));
    if count < 2 {
        return None;
    }
    match quality::preferred_candidate(&group) {
        Some(k) => {
            proof {
                let chosen = choose|j: int| quality::is_preferred(candidates(views, known, key@), j);
                quality::law_at_most_one_is_preferred(candidates(views, known, key@), chosen, k as int);
            }
            Some(k)
        },
        None => None,
    }
}

/// A preferred plan is one of several with the key, and its quality is known.
pub proof fn law_preferred_plan_has_the_key(
    plans: Seq<PlanView>,
    qualities: Seq<Option<QualityView>>,
    key: PathView,
)
    requires
        plans.len() == qualities.len(),
    ensures
        preferred_plan(plans, qualities, key) matches Some(i) ==> {
            &&& 0 <= i < plans.len()
            &&& duplicate_key(plans[i].destination) == key
            &&& qualities[i] is Some
            &&& key_count(plans, key) >= 2
        },
{
}

/// The list of texts that is shown for the candidates of one key among the
/// first `n` plans.
pub open spec fn quality_lines(
    plans: Seq<PlanView>,
    qualities: Seq<Option<QualityView>>,
    probed: Seq<bool>,
    key: PathView,
    n: nat,
) -> Seq<Seq<char>>
    decreases n,
{
    if n == 0 {
        Seq::empty()
    } else {
        let lines = quality_lines(plans, qualities, probed, key, (n - 1) as nat);
        if duplicate_key(plans[n - 1].destination) == key {
            lines.push(
                "  quality: "@ + plans[n - 1].source.shown() + ": "@ + quality::described(
                    qualities[n - 1],
                    quality::origin(probed[n - 1]),
                ),
            )
        } else {
            lines
        }
    }
}

/// Whether the quality of some candidate of a key is unknown.
pub open spec fn some_unknown(
    plans: Seq<PlanView>,
    qualities: Seq<Option<QualityView>>,
    key: PathView,
) -> bool {
    exists|i: int|
        0 <= i < plans.len() && duplicate_key((#[trigger] plans[i]).destination) == key
            && qualities[i] is None
}

/// What is shown of the comparison of the candidates of one key.
pub open spec fn comparison_lines(
    plans: Seq<PlanView>,
    qualities: Seq<Option<QualityView>>,
    key: PathView,
) -> Seq<Seq<char>> {
    match preferred_plan(plans, qualities, key) {
        Some(i) => {
            let preferred = seq![
                "  comparison: preferred "@ + plans[i].source.shown()
                    + " (highest known resolution; same-codec bitrate breaks resolution ties)"@,
            ];
            if some_unknown(plans, qualities, key) {
                preferred.push(
                    "  comparison: some candidates have unknown quality; preference uses known metadata only"@,
                )
            } else {
                preferred
            }
        },
        None => seq![
            "  comparison: no unique preference; quality is unknown, tied, or codecs/bitrates cannot be compared"@,
        ],
    }
}

/// What is shown of the candidates of one key: nothing of a single one.
pub open spec fn notes_on(
    plans: Seq<PlanView>,
    qualities: Seq<Option<QualityView>>,
    probed: Seq<bool>,
    key: PathView,
) -> Seq<Seq<char>> {
    if key_count(plans, key) < 2 {
        Seq::empty()
    } else {
        quality_lines(plans, qualities, probed, key, plans.len()) + comparison_lines(
            plans,
            qualities,
            key,
        )
    }
}

/// Which of the sources with one destination key is preferred, and what is
/// shown of the comparison.
pub struct Preference {
    pub key: MediaPath,
    pub source: Option<MediaPath>,
    pub notes: Vec<String>,
}

/// The source of a preferred plan.
pub open spec fn preferred_source(
    plans: Seq<PlanView>,
    qualities: Seq<Option<QualityView>>,
    key: PathView,
) -> Option<PathView> {
    match preferred_plan(plans, qualities, key) {
        Some(i) => Some(plans[i].source),
        None => None,
    }
}

/// The view of an optional path.
pub open spec fn opt_path(p: Option<MediaPath>) -> Option<PathView> {
    match p {
        Some(path) => Some(path@),
        None => None,
    }
}

/// Which candidates were probed.
pub open spec fn probed_flags(probed: Seq<Option<VideoQuality>>) -> Seq<bool> {
    probed.map_values(|p: Option<VideoQuality>| p is Some)
}

fn write_notes(
    plans: &[RenamePlan],
    qualities: &Vec<Option<VideoQuality>>,
    probed: &Vec<Option<VideoQuality>>,
    key: &MediaPath,
    preferred: Option<usize>,
) -> (res: Vec<String>)
    requires
        qualities@.len() == plans@.len(),
        probed@.len() == plans@.len(),
        key_count(model::plan_views(plans@), key@) >= 2,
        preferred matches Some(i) ==> i < plans@.len(),
        preferred_plan(model::plan_views(plans@), quality::candidate_views(qualities@), key@) == (
        match preferred {
            Some(i) => Some(i as int),
            None => None,
        }),
    ensures
        text::views(res@) == notes_on(
            model::plan_views(plans@),
            quality::candidate_views(qualities@),
            probed_flags(probed@),
            key@,
        ),
{
    let ghost views = model::plan_views(plans@);
    let ghost known = quality::candidate_views(qualities@);
    let ghost flags = probed_flags(probed@);
    let mut out: Vec<String> = Vec::new();
    let mut unknown = false;
    let mut i: usize = 0;
    assert(text::views(out@) =~= Seq::<Seq<char>>::empty());
    while i < plans.len()
        invariant
            i <= plans.len(),
            qualities@.len() == plans@.len(),
            probed@.len() == plans@.len(),
            views == model::plan_views(plans@),
            known == quality::candidate_views(qualities@),
            flags == probed_flags(probed@),
            text::views(out@) == quality_lines(views, known, flags, key@, i as nat),
            unknown == exists|k: int|
                0 <= k < i && duplicate_key((#[trigger] views[k]).destination) == key@
                    && known[k] is None,
        decreases plans.len() - i,
    {
        assert(views[i as int] == plans@[i as int]@);
        assert(known[i as int] == quality::quality_view(qualities@[i as int]));
        assert(flags[i as int] == (probed@[i as int] is Some));
        if duplicate_destination_key(&plans[i].destination).same(key) {
            let mut line = String::from_str("  quality: ");
            line.append(plans[i].source.display().as_str());
            line.append(": ");
            let from = if probed[i].is_some() {
                "ffprobe"
            } else {
                "filename tag"
            };
            line.append(quality::quality_description(&qualities[i], from).as_str());
            let ghost before = text::views(out@);
            out.push(line);
            assert(text::views(out@) =~= before.push(line@));
            unknown = unknown || qualities[i].is_none();
        }
        i += 1;
    }
    let ghost lines = text::views(out@);
    match preferred {
        Some(k) => {
            let mut line = String::from_str("  comparison: preferred ");
            line.append(plans[k].source.display().as_str());
            line.append(" (highest known resolution; same-codec bitrate breaks resolution ties)");
            out.push(line);
            assert(views[k as int] == plans@[k as int]@);
            if unknown {
                out.push(
                    String::from_str(
                        "  comparison: some candidates have unknown quality; preference uses known metadata only",
                    ),
                );
            }
        },
        None => {
            out.push(
                String::from_str(
                    "  comparison: no unique preference; quality is unknown, tied, or codecs/bitrates cannot be compared",
                ),
            );
        },
    }
    assert(text::views(out@) =~= lines + comparison_lines(views, known, key@));
    out
}

/// The preference among the candidates of one key is the one that the plans
/// and their qualities give.
pub open spec fn preference_holds(
    p: Preference,
    plans: Seq<PlanView>,
    qualities: Seq<Option<QualityView>>,
    probed: Seq<bool>,
) -> bool {
    &&& opt_path(p.source) == preferred_source(plans, qualities, p.key@)
    &&& text::views(p.notes@) == notes_on(plans, qualities, probed, p.key@)
}

fn prefer(
    plans: &[RenamePlan],
    qualities: &Vec<Option<VideoQuality>>,
    probed: &Vec<Option<VideoQuality>>,
    key: &MediaPath,
) -> (res: Preference)
    requires
        qualities@.len() == plans@.len(),
        probed@.len() == plans@.len(),
    ensures
        res.key@ == key@,
        preference_holds(
            res,
            model::plan_views(plans@),
            quality::candidate_views(qualities@),
            probed_flags(probed@),
        ),
{
    let preferred = find_preferred_plan(plans, qualities, key);
    let count = count_destinations(plans).get(key);
    let notes = if count < 2 {
        let none: Vec<String> = Vec::new();
        assert(text::views(none@) =~= Seq::<Seq<char>>::empty());
        none
    } else {
        write_notes(plans, qualities, probed, key, preferred)
    };
    Preference {
        key: key.copy(),
        source: match preferred {
            Some(i) => {
                assert(model::plan_views(plans@)[i as int] == plans@[i as int]@);
                Some(plans[i].source.copy())
            },
            None => None,
        },
        notes,
    }
}

/// The destination keys of a list of plans.
pub open spec fn is_key_of(plans: Seq<PlanView>, key: PathView) -> bool {
    exists|i: int| 0 <= i < plans.len() && duplicate_key((#[trigger] plans[i]).destination) == key
}

/// The different destination keys of the plans, in path order.
pub fn destination_keys(plans: &[RenamePlan]) -> (res: Vec<MediaPath>)
    ensures
        forall|i: int, j: int|
            0 <= i < j < res@.len() ==> (#[trigger] res@[i])@ != (#[trigger] res@[j])@
                && !path_order::path_before(res@[j]@, res@[i]@),
        forall|i: int| 0 <= i < res@.len() ==> is_key_of(model::plan_views(plans@), (#[trigger] res@[i])@),
        forall|key: PathView| #[trigger]
            is_key_of(model::plan_views(plans@), key) ==> exists|i: int|
                0 <= i < res@.len() && (#[trigger] res@[i])@ == key,
{
    let ghost views = model::plan_views(plans@);
    let mut keys: Vec<MediaPath> = Vec::new();
    let mut i: usize = 0;
    while i < plans.len()
        invariant
            i <= plans.len(),
            views == model::plan_views(plans@),
            forall|k: int, l: int|
                0 <= k < l < keys@.len() ==> (#[trigger] keys@[k])@ != (#[trigger] keys@[l])@,
            forall|k: int| 0 <= k < keys@.len() ==> is_key_of(views, (#[trigger] keys@[k])@),
            forall|k: int|
                0 <= k < i ==> exists|l: int|
                    0 <= l < keys@.len() && (#[trigger] keys@[l])@ == duplicate_key(
                        (#[trigger] views[k]).destination,
                    ),
        decreases plans.len() - i,
    {
        assert(views[i as int] == plans@[i as int]@);
        let key = duplicate_destination_key(&plans[i].destination);
        let mut known = false;
        let mut j: usize = 0;
        while j < keys.len() && !known
            invariant
                j <= keys.len(),
                known == exists|l: int| 0 <= l < j && (#[trigger] keys@[l])@ == key@,
            decreases keys.len() - j,
        {
            known = keys[j].same(&key);
            j += 1;
        }
        let ghost before = keys@;
        if !known {
            keys.push(key);
            assert(keys@[keys@.len() - 1]@ == duplicate_key(views[i as int].destination));
        }
        assert forall|k: int| 0 <= k < i + 1 implies exists|l: int|
            0 <= l < keys@.len() && (#[trigger] keys@[l])@ == duplicate_key(
                (#[trigger] views[k]).destination,
            ) by {
            if k < i {
                let l = choose|l: int|
                    0 <= l < before.len() && (#[trigger] before[l])@ == duplicate_key(
                        views[k].destination,
                    );
                assert(keys@[l] == before[l]);
            }
        }
        i += 1;
    }
    let order = path_order::sort_order(&keys);
    let mut out: Vec<MediaPath> = Vec::new();
    let mut k: usize = 0;
    while k < order.len()
        invariant
            k <= order.len(),
            path_order::indices_below(order@, keys@.len() as int),
            out@.len() == k,
            forall|l: int| 0 <= l < k ==> (#[trigger] out@[l])@ == keys@[order@[l] as int]@,
        decreases order.len() - k,
    {
        out.push(keys[order[k]].copy());
        k += 1;
    }
    proof {
        let paths = path_order::path_views(keys@);
        assert forall|i: int, j: int| 0 <= i < j < out@.len() implies (#[trigger] out@[i])@ != (
        #[trigger] out@[j])@ && !path_order::path_before(out@[j]@, out@[i]@) by {
            let a = order@[i] as int;
            let b = order@[j] as int;
            assert(a != b);
            assert(paths[a] == keys@[a]@ && paths[b] == keys@[b]@);
            assert(!path_order::index_before(paths, b, a));
            if a < b {
                assert(keys@[a]@ != keys@[b]@);
            } else {
                assert(keys@[b]@ != keys@[a]@);
            }
        }
        assert forall|key: PathView| #[trigger] is_key_of(views, key) implies exists|i: int|
            0 <= i < out@.len() && (#[trigger] out@[i])@ == key by {
            let k = choose|i: int|
                0 <= i < views.len() && duplicate_key((#[trigger] views[i]).destination) == key;
            let l = choose|l: int|
                0 <= l < keys@.len() && (#[trigger] keys@[l])@ == duplicate_key(
                    views[k].destination,
                );
            assert(order@.contains(l as usize));
            let m = choose|m: int| 0 <= m < order@.len() && #[trigger] order@[m] == l;
            assert(out@[m]@ == keys@[l]@);
        }
    }
    out
}

/// A list holds one preference for each destination key of the plans, in path
/// order, and each is the one that the plans and their qualities give.
pub open spec fn preferences_hold(
    list: Seq<Preference>,
    plans: Seq<PlanView>,
    qualities: Seq<Option<QualityView>>,
    probed: Seq<bool>,
) -> bool {
    &&& forall|i: int, j: int|
        0 <= i < j < list.len() ==> (#[trigger] list[i]).key@ != (#[trigger] list[j]).key@
            && !path_order::path_before(list[j].key@, list[i].key@)
    &&& forall|i: int| 0 <= i < list.len() ==> is_key_of(plans, (#[trigger] list[i]).key@)
    &&& forall|key: PathView| #[trigger]
        is_key_of(plans, key) ==> exists|i: int|
            0 <= i < list.len() && (#[trigger] list[i]).key@ == key
    &&& forall|i: int|
        0 <= i < list.len() ==> preference_holds(#[trigger] list[i], plans, qualities, probed)
}

/// Compares the candidates of each destination key by qualities that are given.
pub fn preferences(
    plans: &[RenamePlan],
    qualities: &Vec<Option<VideoQuality>>,
    probed: &Vec<Option<VideoQuality>>,
) -> (res: Vec<Preference>)
    requires
        qualities@.len() == plans@.len(),
        probed@.len() == plans@.len(),
    ensures
        preferences_hold(
            res@,
            model::plan_views(plans@),
            quality::candidate_views(qualities@),
            probed_flags(probed@),
        ),
{
    let keys = destination_keys(plans);
    let mut out: Vec<Preference> = Vec::new();
    let mut i: usize = 0;
    while i < keys.len()
        invariant
            i <= keys.len(),
            qualities@.len() == plans@.len(),
            probed@.len() == plans@.len(),
            out@.len() == i,
            forall|k: int|
                0 <= k < i ==> (#[trigger] out@[k]).key@ == keys@[k]@ && preference_holds(
                    out@[k],
                    model::plan_views(plans@),
                    quality::candidate_views(qualities@),
                    probed_flags(probed@),
                ),
        decreases keys.len() - i,
    {
        out.push(prefer(plans, qualities, probed, &keys[i]));
        i += 1;
    }
    proof {
        assert forall|key: PathView| #[trigger]
            is_key_of(model::plan_views(plans@), key) implies exists|i: int|
            0 <= i < out@.len() && (#[trigger] out@[i]).key@ == key by {
            let k = choose|k: int| 0 <= k < keys@.len() && (#[trigger] keys@[k])@ == key;
            assert(out@[k].key@ == key);
        }
    }
    out
}

/// The qualities of the sources: as probed, or by the tags in their names.
pub open spec fn source_qualities(
    plans: Seq<PlanView>,
    probed: Seq<Option<QualityView>>,
) -> Seq<Option<QualityView>> {
    Seq::new(
        plans.len(),
        |i: int|
            quality::known_quality(
                probed[i],
                quality::greatest_height(
                    pattern::regex_captures_iter(quality::RESOLUTION@, plans[i].source.name),
                ),
            ),
    )
}

/// Chooses among the sources of each destination: by what probing them gave,
/// and by the tags in their names where it gave nothing.
pub fn select_preferred_sources(
    plans: &[RenamePlan],
    probed: &Vec<Option<VideoQuality>>,
) -> (res: Vec<Preference>)
    requires
        probed@.len() == plans@.len(),
    ensures
        preferences_hold(
            res@,
            model::plan_views(plans@),
            source_qualities(model::plan_views(plans@), quality::candidate_views(probed@)),
            probed_flags(probed@),
        ),
{
    let ghost views = model::plan_views(plans@);
    let ghost found = quality::candidate_views(probed@);
    let mut qualities: Vec<Option<VideoQuality>> = Vec::new();
    let mut i: usize = 0;
    while i < plans.len()
        invariant
            i <= plans.len(),
            probed@.len() == plans@.len(),
            views == model::plan_views(plans@),
            found == quality::candidate_views(probed@),
            qualities@.len() == i,
            forall|k: int|
                0 <= k < i ==> quality::quality_view(#[trigger] qualities@[k]) == source_qualities(
                    views,
                    found,
                )[k],
        decreases plans.len() - i,
    {
        assert(views[i as int] == plans@[i as int]@);
        assert(found[i as int] == quality::quality_view(probed@[i as int]));
        let (known, _) = quality::quality_from_path(plans[i].source.name.as_str(), &probed[i]);
        qualities.push(known);
        i += 1;
    }
    assert(quality::candidate_views(qualities@) =~= source_qualities(views, found));
    preferences(plans, &qualities, probed)
}

/// Finds the preference for a destination key.
pub fn preference_for<'a>(list: &'a Vec<Preference>, key: &MediaPath) -> (res: Option<
    &'a Preference,
>)
    ensures
        match res {
            Some(p) => p.key@ == key@ && exists|i: int|
                0 <= i < list@.len() && *p == #[trigger] list@[i],
            None => forall|i: int| 0 <= i < list@.len() ==> (#[trigger] list@[i]).key@ != key@,
        },
{
    let mut i: usize = 0;
    while i < list.len()
        invariant
            i <= list.len(),
            forall|k: int| 0 <= k < i ==> (#[trigger] list@[k]).key@ != key@,
        decreases list.len() - i,
    {
        if list[i].key.same(key) {
            assert(list@[i as int].key@ == key@);
            return Some(&list[i]);
        }
        i += 1;
    }
    None
}

/// What becomes of a plan beside the others with the same destination.
#[derive(Debug, Clone, Copy, PartialEq, Eq)]
pub enum Standing {
    /// No other plan has this destination.
    Alone,
    /// It is the preferred one among several.
    Preferred,
    /// Another one is preferred.
    Outranked,
    /// None of them is preferred.
    Undecided,
}

/// What becomes of a plan with this source and key.
pub open spec fn standing(
    plans: Seq<PlanView>,
    qualities: Seq<Option<QualityView>>,
    source: PathView,
    key: PathView,
) -> Standing {
    if key_count(plans, key) <= 1 {
        Standing::Alone
    } else {
        match preferred_source(plans, qualities, key) {
            Some(preferred) => if preferred == source {
                Standing::Preferred
            } else {
                Standing::Outranked
            },
            None => Standing::Undecided,
        }
    }
}

/// Decides what becomes of a plan beside the others with the same destination.
pub fn standing_of(
    plan: &RenamePlan,
    counts: &DestinationCounts,
    preferences: &Vec<Preference>,
) -> (res: Standing)
    ensures
        res is Alone <==> counts.count(duplicate_key(plan.destination@)) <= 1,
        forall|plans: Seq<PlanView>, qualities: Seq<Option<QualityView>>, probed: Seq<bool>|
            (forall|key: PathView| #[trigger] counts.count(key) == key_count(plans, key))
                && is_key_of(plans, duplicate_key(plan.destination@)) && (
            #[trigger] preferences_hold(preferences@, plans, qualities, probed)) ==> res == standing(
                plans,
                qualities,
                plan.source@,
                duplicate_key(plan.destination@),
            ),
{
    let key = duplicate_destination_key(&plan.destination);
    let n = counts.get(&key);
    if n <= 1 {
        return Standing::Alone;
    }
    match preference_for(preferences, &key) {
        Some(p) => match &p.source {
            Some(preferred) => if preferred.same(&plan.source) {
                Standing::Preferred
            } else {
                Standing::Outranked
            },
            None => Standing::Undecided,
        },
        None => Standing::Undecided,
    }
}

/// Of several plans with one destination and different sources, at most one is
/// preferred, and every plan is one of: alone, preferred, outranked, undecided.
pub proof fn law_one_plan_at_most_takes_a_destination(
    plans: Seq<PlanView>,
    qualities: Seq<Option<QualityView>>,
    i: int,
    j: int,
)
    requires
        0 <= i < plans.len(),
        0 <= j < plans.len(),
        plans[i].source != plans[j].source,
        duplicate_key(plans[i].destination) == duplicate_key(plans[j].destination),
    ensures
        ({
            let key = duplicate_key(plans[i].destination);
            &&& !(standing(plans, qualities, plans[i].source, key) is Alone)
            &&& !(standing(plans, qualities, plans[i].source, key) is Preferred && standing(
                plans,
                qualities,
                plans[j].source,
                key,
            ) is Preferred)
        }),
{
    lemma_two_count(plans, duplicate_key(plans[i].destination), i, j);
}

proof fn lemma_two_count(plans: Seq<PlanView>, key: PathView, i: int, j: int)
    requires
        0 <= i < plans.len(),
        0 <= j < plans.len(),
        i != j,
        duplicate_key(plans[i].destination) == key,
        duplicate_key(plans[j].destination) == key,
    ensures
        key_count(plans, key) >= 2,
    decreases plans.len(),
{
    let rest = plans.drop_last();
    if i < rest.len() && j < rest.len() {
        lemma_two_count(rest, key, i, j);
    } else {
        lemma_key_count(rest, key);
        if i < rest.len() {
            assert(duplicate_key(rest[i].destination) == key);
        } else {
            assert(duplicate_key(rest[j].destination) == key);
        }
    }
}

/// Only the extension of a destination's name can differ between duplicates.
pub proof fn law_duplicates_share_directory_and_stem(a: PathView, b: PathView)
    ensures
        duplicate_key(a) == duplicate_key(b) <==> a.directory == b.directory && model::stem(a.name)
            == model::stem(b.name),
{
}

/// Whether two plans have destinations that differ in their extension alone.
pub open spec fn compete(a: PlanView, b: PlanView) -> bool {
    a.destination.directory == b.destination.directory && model::stem(a.destination.name)
        == model::stem(b.destination.name)
}

/// A destination is contested just where two plans have it, up to the extension.
pub proof fn law_contested_destinations_have_two_plans(plans: Seq<PlanView>, i: int)
    requires
        0 <= i < plans.len(),
    ensures
        key_count(plans, duplicate_key(plans[i].destination)) > 1 <==> exists|j: int|
            0 <= j < plans.len() && j != i && compete(plans[i], #[trigger] plans[j]),
        key_count(plans, duplicate_key(plans[i].destination)) >= 1,
{
    let key = duplicate_key(plans[i].destination);
    lemma_key_count(plans, key);
    if exists|j: int| 0 <= j < plans.len() && j != i && compete(plans[i], #[trigger] plans[j]) {
        let j = choose|j: int|
            0 <= j < plans.len() && j != i && compete(plans[i], #[trigger] plans[j]);
        lemma_two_count(plans, key, i, j);
    } else {
        assert forall|j: int| 0 <= j < plans.len() && j != i implies duplicate_key(
            (#[trigger] plans[j]).destination,
        ) != key by {
            assert(!compete(plans[i], plans[j]));
        }
        lemma_one_count(plans, key, i);
    }
}

proof fn lemma_one_count(plans: Seq<PlanView>, key: PathView, i: int)
    requires
        forall|j: int|
            0 <= j < plans.len() && j != i ==> duplicate_key((#[trigger] plans[j]).destination)
                != key,
    ensures
        key_count(plans, key) <= 1,
    decreases plans.len(),
{
    if plans.len() > 0 {
        let front = plans.drop_last();
        assert forall|j: int| 0 <= j < front.len() && j != i implies duplicate_key(
            (#[trigger] front[j]).destination,
        ) != key by {
            assert(front[j] == plans[j]);
        }
        lemma_one_count(front, key, i);
        if i == plans.len() - 1 {
            lemma_key_count(front, key);
            if key_count(front, key) > 0 {
                let j = choose|j: int|
                    0 <= j < front.len() && duplicate_key((#[trigger] front[j]).destination) == key;
                assert(plans[j] == front[j]);
            }
        } else {
            assert(duplicate_key(plans[plans.len() - 1].destination) != key);
        }
    }
}

/// A plan without a rival takes its destination. Among rivals the one whose
/// quality is known and higher than that of every other known one takes it, and
/// the others do not.
pub proof fn law_highest_source_takes_the_destination(
    plans: Seq<PlanView>,
    qualities: Seq<Option<QualityView>>,
    i: int,
    j: int,
)
    requires
        plans.len() == qualities.len(),
        0 <= i < plans.len(),
        0 <= j < plans.len(),
        i != j,
        compete(plans[i], plans[j]),
        qualities[i] is Some,
        forall|k: int|
            0 <= k < plans.len() && k != i && compete(plans[i], #[trigger] plans[k])
                && qualities[k] is Some ==> qualities[k]->0.height < qualities[i]->0.height,
    ensures
        standing(plans, qualities, plans[i].source, duplicate_key(plans[i].destination))
            == Standing::Preferred,
        plans[j].source != plans[i].source ==> standing(
            plans,
            qualities,
            plans[j].source,
            duplicate_key(plans[j].destination),
        ) == Standing::Outranked,
{
    let key = duplicate_key(plans[i].destination);
    let group = candidates(plans, qualities, key);
    lemma_two_count(plans, key, i, j);
    assert forall|k: int| 0 <= k < group.len() && k != i && (#[trigger] group[k]) is Some implies
        group[k]->0.height < group[i]->0.height by {
        assert(compete(plans[i], plans[k]));
    }
    quality::law_strictly_highest_is_preferred(group, i);
    let chosen = choose|k: int| quality::is_preferred(group, k);
    quality::law_at_most_one_is_preferred(group, chosen, i);
}

/// A plan whose destination no other plan has, up to the extension, is alone.
pub proof fn law_plans_without_rivals_are_alone(
    plans: Seq<PlanView>,
    qualities: Seq<Option<QualityView>>,
    i: int,
)
    requires
        0 <= i < plans.len(),
        forall|j: int|
            0 <= j < plans.len() && j != i ==> !compete(plans[i], #[trigger] plans[j]),
    ensures
        standing(plans, qualities, plans[i].source, duplicate_key(plans[i].destination))
            == Standing::Alone,
{
    law_contested_destinations_have_two_plans(plans, i);
}

/// Of two rivals of one height, above all other known ones, the one with the
/// greater bitrate takes the destination where both have the same known codec
/// and known bitrates that differ; in every other case neither does.
pub proof fn law_rivals_of_one_height_compare_bitrates(
    plans: Seq<PlanView>,
    qualities: Seq<Option<QualityView>>,
    i: int,
    j: int,
)
    requires
        plans.len() == qualities.len(),
        0 <= i < plans.len(),
        0 <= j < plans.len(),
        i != j,
        compete(plans[i], plans[j]),
        plans[i].source != plans[j].source,
        qualities[i] is Some,
        qualities[j] is Some,
        qualities[i]->0.height == qualities[j]->0.height,
        forall|k: int|
            0 <= k < plans.len() && k != i && k != j && compete(plans[i], #[trigger] plans[k])
                && qualities[k] is Some ==> qualities[k]->0.height < qualities[i]->0.height,
    ensures
        ({
            let a = qualities[i]->0;
            let b = qualities[j]->0;
            let comparable = a.codec is Some && a.codec == b.codec && a.bitrate is Some && b.bitrate
                is Some && a.bitrate->0 != b.bitrate->0;
            let mine = standing(
                plans,
                qualities,
                plans[i].source,
                duplicate_key(plans[i].destination),
            );
            &&& comparable && a.bitrate->0 > b.bitrate->0 ==> mine == Standing::Preferred
            &&& comparable && a.bitrate->0 < b.bitrate->0 ==> mine == Standing::Outranked
            &&& !comparable ==> mine == Standing::Undecided
        }),
{
    let key = duplicate_key(plans[i].destination);
    let group = candidates(plans, qualities, key);
    lemma_two_count(plans, key, i, j);
    assert forall|k: int|
        0 <= k < group.len() && k != i && k != j && (#[trigger] group[k]) is Some implies group[k]->0.height
        < group[i]->0.height by {
        assert(compete(plans[i], plans[k]));
    }
    quality::law_equal_heights_are_told_apart_by_bitrate(group, i, j);
    quality::law_equal_heights_are_told_apart_by_bitrate(group, j, i);
    if exists|k: int| quality::is_preferred(group, k) {
        let chosen = choose|k: int| quality::is_preferred(group, k);
        assert(chosen == i || chosen == j);
    }
    if quality::is_preferred(group, i) {
        let chosen = choose|k: int| quality::is_preferred(group, k);
        quality::law_at_most_one_is_preferred(group, chosen, i);
    }
    if quality::is_preferred(group, j) {
        let chosen = choose|k: int| quality::is_preferred(group, k);
        quality::law_at_most_one_is_preferred(group, chosen, j);
    }
}

/// The quality of a source is what probing it gave, or else the greatest height
/// that its name is tagged with.
pub proof fn law_sources_are_judged_by_probe_then_tag(
    plans: Seq<PlanView>,
    probed: Seq<Option<QualityView>>,
    i: int,
)
    requires
        plans.len() == probed.len(),
        0 <= i < plans.len(),
    ensures
        source_qualities(plans, probed).len() == plans.len(),
        probed[i] is Some ==> source_qualities(plans, probed)[i] == probed[i],
        probed[i] is None ==> ({
            let tags = pattern::regex_captures_iter(quality::RESOLUTION@, plans[i].source.name);
            match source_qualities(plans, probed)[i] {
                Some(q) => {
                    &&& q.bitrate is None
                    &&& q.codec is None
                    &&& exists|k: int|
                        0 <= k < tags.len() && quality::found_height(#[trigger] tags[k]) == Some(
                            q.height,
                        )
                    &&& forall|k: int|
                        0 <= k < tags.len() ==> (quality::found_height(#[trigger] tags[k]) matches Some(
                            h,
                        ) ==> h <= q.height)
                },
                None => forall|k: int|
                    0 <= k < tags.len() ==> quality::found_height(#[trigger] tags[k]) is None,
            }
        }),
{
    quality::law_names_have_their_highest_tag(
        pattern::regex_captures_iter(quality::RESOLUTION@, plans[i].source.name),
    );
}

/// Of two rivals that are not probed, each tagged once with a number of lines in
/// its name, the one with the greater number takes the destination.
pub proof fn law_higher_tagged_sources_take_the_destination(
    plans: Seq<PlanView>,
    probed: Seq<Option<QualityView>>,
    i: int,
    j: int,
    m: u32,
    n: u32,
)
    requires
        plans.len() == probed.len(),
        0 <= i < plans.len(),
        0 <= j < plans.len(),
        i != j,
        compete(plans[i], plans[j]),
        plans[i].source != plans[j].source,
        forall|k: int|
            0 <= k < plans.len() && k != i && k != j ==> !compete(plans[i], #[trigger] plans[k]),
        probed[i] is None,
        probed[j] is None,
        is_tagged(plans[i].source.name, n),
        is_tagged(plans[j].source.name, m),
        m < n,
    ensures
        standing(
            plans,
            source_qualities(plans, probed),
            plans[i].source,
            duplicate_key(plans[i].destination),
        ) == Standing::Preferred,
        standing(
            plans,
            source_qualities(plans, probed),
            plans[j].source,
            duplicate_key(plans[j].destination),
        ) == Standing::Outranked,
{
    let qualities = source_qualities(plans, probed);
    law_sources_are_judged_by_probe_then_tag(plans, probed, i);
    law_sources_are_judged_by_probe_then_tag(plans, probed, j);
    let a = pattern::regex_captures_iter(quality::RESOLUTION@, plans[i].source.name);
    let b = pattern::regex_captures_iter(quality::RESOLUTION@, plans[j].source.name);
    lemma_tag_height(a[0], n);
    lemma_tag_height(b[0], m);
    law_highest_source_takes_the_destination(plans, qualities, i, j);
}

/// Whether a name holds one resolution tag, a number of lines.
pub open spec fn is_tagged(name: Seq<char>, lines: u32) -> bool {
    let tags = pattern::regex_captures_iter(quality::RESOLUTION@, name);
    &&& tags.len() == 1
    &&& tags[0].groups.len() > 1
    &&& tags[0].groups[1] is Some
    &&& tags[0].groups[1]->0 == number::decimal(lines as nat).push('p') || tags[0].groups[1]->0
        == number::decimal(lines as nat).push('P')
}

proof fn lemma_tag_height(tag: FoundView, lines: u32)
    requires
        tag.groups.len() > 1,
        tag.groups[1] is Some,
        tag.groups[1]->0 == number::decimal(lines as nat).push('p') || tag.groups[1]->0
            == number::decimal(lines as nat).push('P'),
    ensures
        quality::found_height(tag) == Some(lines),
{
    quality::law_p_tags_stand_for_their_number(lines, tag.groups[1]->0);
}

/// Nothing is noted of a destination with one plan; of any other there is a line
/// for each of its plans, with the path of its source, and then the comparison.
pub proof fn law_each_rival_is_noted(
    plans: Seq<PlanView>,
    qualities: Seq<Option<QualityView>>,
    probed: Seq<bool>,
    key: PathView,
)
    ensures
        key_count(plans, key) < 2 ==> notes_on(plans, qualities, probed, key).len() == 0,
        key_count(plans, key) >= 2 ==> notes_on(plans, qualities, probed, key).len() == key_count(
            plans,
            key,
        ) + comparison_lines(plans, qualities, key).len(),
        1 <= comparison_lines(plans, qualities, key).len() <= 2,
        comparison_lines(plans, qualities, key).len() == 2 ==> preferred_plan(plans, qualities, key)
            is Some,
{
    lemma_line_count(plans, qualities, probed, key, plans.len());
    assert(plans.take(plans.len() as int) =~= plans);
}

proof fn lemma_line_count(
    plans: Seq<PlanView>,
    qualities: Seq<Option<QualityView>>,
    probed: Seq<bool>,
    key: PathView,
    n: nat,
)
    requires
        n <= plans.len(),
    ensures
        quality_lines(plans, qualities, probed, key, n).len() == key_count(
            plans.take(n as int),
            key,
        ),
    decreases n,
{
    if n > 0 {
        lemma_line_count(plans, qualities, probed, key, (n - 1) as nat);
        assert(plans.take(n as int).drop_last() =~= plans.take(n - 1));
        assert(plans.take(n as int).last() == plans[n - 1]);
    }
}

/// What is noted of a contested destination names the source that is preferred,
/// or says that there is none, and each line shows the quality of one of its
/// sources.
pub proof fn law_notes_name_sources_and_preference(
    plans: Seq<PlanView>,
    qualities: Seq<Option<QualityView>>,
    probed: Seq<bool>,
    key: PathView,
    i: int,
)
    requires
        0 <= i < plans.len(),
        duplicate_key(plans[i].destination) == key,
        key_count(plans, key) >= 2,
    ensures
        notes_on(plans, qualities, probed, key).contains(
            "  quality: "@ + model::inside(plans[i].source.directory, plans[i].source.name)
                + ": "@ + quality::described(qualities[i], quality::origin(probed[i])),
        ),
        preferred_plan(plans, qualities, key) == Some(i) ==> notes_on(
            plans,
            qualities,
            probed,
            key,
        ).contains(
            "  comparison: preferred "@ + model::inside(
                plans[i].source.directory,
                plans[i].source.name,
            ) + " (highest known resolution; same-codec bitrate breaks resolution ties)"@,
        ),
        preferred_plan(plans, qualities, key) is None ==> notes_on(
            plans,
            qualities,
            probed,
            key,
        ).last()
            == "  comparison: no unique preference; quality is unknown, tied, or codecs/bitrates cannot be compared"@,
        preferred_plan(plans, qualities, key) is Some && qualities[i] is None ==> notes_on(
            plans,
            qualities,
            probed,
            key,
        ).last()
            == "  comparison: some candidates have unknown quality; preference uses known metadata only"@,
{
    let lines = quality_lines(plans, qualities, probed, key, plans.len());
    let more = comparison_lines(plans, qualities, key);
    let notes = notes_on(plans, qualities, probed, key);
    lemma_line_of(plans, qualities, probed, key, plans.len(), i);
    let line = "  quality: "@ + plans[i].source.shown() + ": "@ + quality::described(
        qualities[i],
        quality::origin(probed[i]),
    );
    let k = choose|k: int| 0 <= k < lines.len() && lines[k] == line;
    assert(notes[k] == line);
    assert(notes[lines.len() as int] == more[0]);
    assert(notes.last() == more.last());
    if qualities[i] is None {
        assert(duplicate_key(plans[i].destination) == key && qualities[i] is None);
        assert(some_unknown(plans, qualities, key));
    }
}

proof fn lemma_line_of(
    plans: Seq<PlanView>,
    qualities: Seq<Option<QualityView>>,
    probed: Seq<bool>,
    key: PathView,
    n: nat,
    i: int,
)
    requires
        0 <= i < n <= plans.len(),
        duplicate_key(plans[i].destination) == key,
    ensures
        quality_lines(plans, qualities, probed, key, n).contains(
            "  quality: "@ + plans[i].source.shown() + ": "@ + quality::described(
                qualities[i],
                quality::origin(probed[i]),
            ),
        ),
    decreases n,
{
    let lines = quality_lines(plans, qualities, probed, key, n);
    let before = quality_lines(plans, qualities, probed, key, (n - 1) as nat);
    let line = "  quality: "@ + plans[i].source.shown() + ": "@ + quality::described(
        qualities[i],
        quality::origin(probed[i]),
    );
    if i == n - 1 {
        assert(lines[before.len() as int] == line);
    } else {
        lemma_line_of(plans, qualities, probed, key, (n - 1) as nat, i);
        let k = choose|k: int| 0 <= k < before.len() && before[k] == line;
        assert(lines[k] == line);
    }
}

/// The preferences that are handed out are one for each destination key, and each
/// holds the source of the preferred plan where there is one.
pub proof fn law_each_destination_has_its_preference(
    list: Seq<Preference>,
    plans: Seq<PlanView>,
    qualities: Seq<Option<QualityView>>,
    probed: Seq<bool>,
    i: int,
)
    requires
        preferences_hold(list, plans, qualities, probed),
        0 <= i < plans.len(),
    ensures
        exists|k: int|
            {
                let key = duplicate_key(plans[i].destination);
                &&& 0 <= k < list.len()
                &&& (#[trigger] list[k]).key@ == key
                &&& match preferred_plan(plans, qualities, key) {
                    Some(best) => list[k].source is Some && list[k].source->0@
                        == plans[best].source,
                    None => list[k].source is None,
                }
                &&& text::views(list[k].notes@) == notes_on(plans, qualities, probed, key)
            },
        forall|k: int, l: int|
            0 <= k < l < list.len() ==> (#[trigger] list[k]).key@ != (#[trigger] list[l]).key@,
{
    let key = duplicate_key(plans[i].destination);
    assert(duplicate_key(plans[i].destination) == key);
    assert(is_key_of(plans, key));
    let k = choose|k: int| 0 <= k < list.len() && (#[trigger] list[k]).key@ == key;
    assert(preference_holds(list[k], plans, qualities, probed));
}

} // verus!
