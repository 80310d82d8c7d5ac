//! What is known of the quality of a video, and which quality is preferred.
use vstd::prelude::*;

use crate::chars;
use crate::chars::CharSet;
use crate::number;
use crate::pattern;
use crate::pattern::{Found, FoundView};
use crate::text;

verus! {

/// What is known of a video's quality.
#[derive(Debug, Clone, PartialEq, Eq)]
pub struct VideoQuality {
    pub height: u32,
    pub bitrate: Option<u64>,
    pub codec: Option<String>,
}

/// A quality with its codec as a sequence of characters.
pub struct QualityView {
    pub height: u32,
    pub bitrate: Option<u64>,
    pub codec: Option<Seq<char>>,
}

impl View for VideoQuality {
    type V = QualityView;

    open spec fn view(&self) -> QualityView {
        QualityView {
            height: self.height,
            bitrate: self.bitrate,
            codec: text::opt_view(self.codec),
        }
    }
}

/// The view of an optional quality.
pub open spec fn quality_view(q: Option<VideoQuality>) -> Option<QualityView> {
    match q {
        Some(v) => Some(v@),
        None => None,
    }
}

/// The views of a list of candidates; a candidate may be unknown.
pub open spec fn candidate_views(list: Seq<Option<VideoQuality>>) -> Seq<Option<QualityView>> {
    list.map_values(|q: Option<VideoQuality>| quality_view(q))
}

/// The views of a list of qualities.
pub open spec fn known_views(list: Seq<VideoQuality>) -> Seq<Option<QualityView>> {
    list.map_values(|q: VideoQuality| Some(q@))
}

/// A known candidate of the greatest height.
pub open spec fn is_top(q: Seq<Option<QualityView>>, i: int) -> bool {
    0 <= i < q.len() && q[i] is Some && forall|j: int|
        0 <= j < q.len() && (#[trigger] q[j]) is Some ==> q[j]->0.height <= q[i]->0.height
}

/// The candidate to prefer: the only one of the greatest height, or, where all
/// of the greatest height have the same known codec and a known bitrate, the
/// only one of the greatest bitrate.
pub open spec fn is_preferred(q: Seq<Option<QualityView>>, i: int) -> bool {
    &&& is_top(q, i)
    &&& {
        ||| forall|j: int| #[trigger] is_top(q, j) ==> j == i
        ||| {
            &&& q[i]->0.codec is Some
            &&& q[i]->0.bitrate is Some
            &&& forall|j: int|
                #[trigger] is_top(q, j) && j != i ==> {
                    &&& q[j]->0.codec == q[i]->0.codec
                    &&& q[j]->0.bitrate is Some
                    &&& q[j]->0.bitrate->0 < q[i]->0.bitrate->0
                }
        }
    }
}

fn has_top_height(q: &Vec<Option<VideoQuality>>, i: usize) -> (res: bool)
    requires
        i < q.len(),
    ensures
        res == is_top(candidate_views(q@), i as int),
{
    let ghost views = candidate_views(q@);
    assert(views[i as int] == quality_view(q@[i as int]));
    match &q[i] {
        Some(own) => {
            let mut j: usize = 0;
            while j < q.len()
                invariant
                    i < q.len(),
                    j <= q.len(),
                    views == candidate_views(q@),
                    views[i as int] == Some(own@),
                    forall|k: int|
                        0 <= k < j && (#[trigger] views[k]) is Some ==> views[k]->0.height
                            <= own.height,
                decreases q.len() - j,
            {
                assert(views[j as int] == quality_view(q@[j as int]));
                if let Some(other) = &q[j] {
                    if other.height > own.height {
                        return false;
                    }
                }
                j += 1;
            }
            true
        },
        None => false,
    }
}

fn same_codec(a: &Option<String>, b: &Option<String>) -> (res: bool)
    ensures
        res == (text::opt_view(*a) == text::opt_view(*b)),
{
    match (a, b) {
        (Some(x), Some(y)) => text::same_text(x.as_str(), y.as_str()),
        (None, None) => true,
        _ => false,
    }
}

/// Whether two candidates of the greatest height leave the first to be
/// preferred: same known codec and a greater bitrate, both known.
pub open spec fn outranks(a: QualityView, b: QualityView) -> bool {
    &&& a.codec is Some
    &&& a.bitrate is Some
    &&& b.codec == a.codec
    &&& b.bitrate is Some
    &&& b.bitrate->0 < a.bitrate->0
}

fn has_greater_bitrate(a: &VideoQuality, b: &VideoQuality) -> (res: bool)
    ensures
        res == outranks(a@, b@),
{
    match (a.bitrate, b.bitrate) {
        (Some(x), Some(y)) => a.codec.is_some() && same_codec(&a.codec, &b.codec) && y < x,
        _ => false,
    }
}

fn is_candidate_preferred(q: &Vec<Option<VideoQuality>>, i: usize) -> (res: bool)
    requires
        i < q.len(),
    ensures
        res == is_preferred(candidate_views(q@), i as int),
{
    let ghost views = candidate_views(q@);
    if !has_top_height(q, i) {
        return false;
    }
    assert(views[i as int] == quality_view(q@[i as int]));
    match &q[i] {
        Some(own) => {
            let mut j: usize = 0;
            while j < q.len()
                invariant
                    i < q.len(),
                    j <= q.len(),
                    views == candidate_views(q@),
                    views.len() == q.len(),
                    is_top(views, i as int),
                    views[i as int] == Some(own@),
                    forall|k: int|
                        0 <= k < j && #[trigger] is_top(views, k) && k != i ==> outranks(
                            own@,
                            views[k]->0,
                        ),
                decreases q.len() - j,
            {
                assert(views[j as int] == quality_view(q@[j as int]));
                if j != i && has_top_height(q, j) {
                    if let Some(other) = &q[j] {
                        if !has_greater_bitrate(own, other) {
                            assert(is_top(views, j as int) && j != i);
                            return false;
                        }
                    }
                }
                j += 1;
            }
            assert forall|k: int| #[trigger] is_top(views, k) && k != i implies outranks(
                own@,
                views[k]->0,
            ) by {}
            proof {
                if exists|k: int| #[trigger] is_top(views, k) && k != i {
                    let k = choose|k: int| #[trigger] is_top(views, k) && k != i;
                    assert(outranks(own@, views[k]->0));
                }
            }
            true
        },
        None => false,
    }
}

/// The candidate to prefer among known and unknown ones.
pub fn preferred_candidate(q: &Vec<Option<VideoQuality>>) -> (res: Option<usize>)
    ensures
        match res {
            Some(i) => is_preferred(candidate_views(q@), i as int),
            None => forall|i: int| !#[trigger] is_preferred(candidate_views(q@), i),
        },
{
    let mut i: usize = 0;
    while i < q.len()
        invariant
            i <= q.len(),
            forall|k: int| 0 <= k < i ==> !#[trigger] is_preferred(candidate_views(q@), k),
        decreases q.len() - i,
    {
        if is_candidate_preferred(q, i) {
            return Some(i);
        }
        i += 1;
    }
    assert(candidate_views(q@).len() == q@.len());
    None
}

/// A copy of a quality.
pub fn copy_quality(q: &VideoQuality) -> (res: VideoQuality)
    ensures
        res@ == q@,
{
    VideoQuality {
        height: q.height,
        bitrate: q.bitrate,
        codec: match &q.codec {
            Some(c) => Some(c.clone()),
            None => None,
        },
    }
}

/// The quality to prefer: the greatest height, then, among equals of one known
/// codec, the greatest bitrate. Anything else leaves the choice open.
pub fn preferred_quality_index(qualities: &[VideoQuality]) -> (res: Option<usize>)
    ensures
        match res {
            Some(i) => is_preferred(known_views(qualities@), i as int),
            None => forall|i: int| !#[trigger] is_preferred(known_views(qualities@), i),
        },
{
    let mut all: Vec<Option<VideoQuality>> = Vec::new();
    let mut i: usize = 0;
    while i < qualities.len()
        invariant
            i <= qualities.len(),
            all@.len() == i,
            forall|k: int| 0 <= k < i ==> quality_view(#[trigger] all@[k]) == Some(qualities@[k]@),
        decreases qualities.len() - i,
    {
        all.push(Some(copy_quality(&qualities[i])));
        i += 1;
    }
    assert(candidate_views(all@) =~= known_views(qualities@));
    preferred_candidate(&all)
}

/// At most one candidate is preferred.
pub proof fn law_at_most_one_is_preferred(q: Seq<Option<QualityView>>, i: int, j: int)
    requires
        is_preferred(q, i),
        is_preferred(q, j),
    ensures
        i == j,
{
    assert(is_top(q, i) && is_top(q, j));
}

/// A preferred candidate is known, and no known candidate is higher.
pub proof fn law_preferred_is_highest(q: Seq<Option<QualityView>>, i: int, j: int)
    requires
        is_preferred(q, i),
        0 <= j < q.len(),
        q[j] is Some,
    ensures
        q[i] is Some,
        q[j]->0.height <= q[i]->0.height,
{
}

/// The choice depends on the candidates, not on their order.
pub proof fn law_preference_ignores_order(
    q: Seq<Option<QualityView>>,
    r: Seq<Option<QualityView>>,
    to: Seq<int>,
    from: Seq<int>,
    i: int,
)
    requires
        q.len() == r.len() == to.len() == from.len(),
        forall|k: int|
            0 <= k < q.len() ==> 0 <= #[trigger] to[k] < q.len() && r[to[k]] == q[k] && from[to[k]]
                == k,
        forall|k: int| 0 <= k < q.len() ==> 0 <= #[trigger] from[k] < q.len() && to[from[k]] == k,
        0 <= i < q.len(),
    ensures
        is_preferred(q, i) <==> is_preferred(r, to[i]),
{
    assert forall|k: int| 0 <= k < q.len() implies (is_top(q, k) <==> is_top(r, #[trigger] to[k])) by {
        if is_top(q, k) {
            assert forall|j: int| 0 <= j < r.len() && (#[trigger] r[j]) is Some implies r[j]->0.height
                <= r[to[k]]->0.height by {
                assert(q[from[j]] == r[to[from[j]]]);
            }
        }
        if is_top(r, to[k]) {
            assert forall|j: int| 0 <= j < q.len() && (#[trigger] q[j]) is Some implies q[j]->0.height
                <= q[k]->0.height by {
                assert(r[to[j]] == q[j]);
            }
        }
    }
    let t = to[i];
    if is_preferred(q, i) {
        if forall|j: int| #[trigger] is_top(q, j) ==> j == i {
            assert forall|j: int| #[trigger] is_top(r, j) implies j == t by {
                assert(is_top(q, from[j])) by {
                    assert(is_top(r, to[from[j]]));
                }
            }
        } else {
            assert forall|j: int| #[trigger] is_top(r, j) && j != t implies {
                &&& r[j]->0.codec == r[t]->0.codec
                &&& r[j]->0.bitrate is Some
                &&& r[j]->0.bitrate->0 < r[t]->0.bitrate->0
            } by {
                assert(is_top(q, from[j])) by {
                    assert(is_top(r, to[from[j]]));
                }
                assert(r[to[from[j]]] == q[from[j]]);
            }
        }
    }
    if is_preferred(r, t) {
        if forall|j: int| #[trigger] is_top(r, j) ==> j == t {
            assert forall|j: int| #[trigger] is_top(q, j) implies j == i by {
                assert(is_top(r, to[j]));
                assert(from[to[j]] == j);
            }
        } else {
            assert forall|j: int| #[trigger] is_top(q, j) && j != i implies {
                &&& q[j]->0.codec == q[i]->0.codec
                &&& q[j]->0.bitrate is Some
                &&& q[j]->0.bitrate->0 < q[i]->0.bitrate->0
            } by {
                assert(is_top(r, to[j]));
                assert(from[to[j]] == j);
            }
        }
    }
}

/// Resolution tags in a file name.
pub const RESOLUTION: &'static str = r"(?i)\b(4320p|8k|2160p|4k|uhd|1080p|720p|576p|480p)\b";

/// The height that a resolution tag stands for.
pub open spec fn tag_height(tag: Seq<char>) -> Option<u32> {
    let t = chars::ascii_lower_text(tag);
    if t == "8k"@ || t == "4320p"@ {
        Some(4320u32)
    } else if t == "4k"@ || t == "uhd"@ || t == "2160p"@ {
        Some(2160u32)
    } else if t.len() > 0 && t.last() == 'p' {
        number::u32_value(t.drop_last())
    } else {
        None
    }
}

/// Reads the height that a resolution tag stands for.
pub fn height_of_tag(tag: &str) -> (res: Option<u32>)
    ensures
        res == tag_height(tag@),
{
    let lowered = chars::lower_ascii(tag);
    let t = lowered.as_str();
    if text::same_text(t, "8k") || text::same_text(t, "4320p") {
        return Some(4320);
    }
    if text::same_text(t, "4k") || text::same_text(t, "uhd") || text::same_text(t, "2160p") {
        return Some(2160);
    }
    let letters = text::to_chars(t);
    if letters.len() > 0 && letters[letters.len() - 1] == 'p' {
        assert(t@.drop_last() =~= t@.subrange(0, t@.len() - 1));
        number::parse_u32(text::from_chars(&letters, 0, letters.len() - 1).as_str())
    } else {
        None
    }
}

/// The height that a match of a resolution tag stands for.
pub open spec fn found_height(found: FoundView) -> Option<u32> {
    match found.group(1) {
        Some(tag) => tag_height(tag),
        None => None,
    }
}

/// The greatest of the heights that the matches stand for.
pub open spec fn greatest_height(found: Seq<FoundView>) -> Option<u32>
    decreases found.len(),
{
    if found.len() == 0 {
        None
    } else {
        match (greatest_height(found.drop_last()), found_height(found.last())) {
            (Some(a), Some(b)) => Some(if a < b {
                b
            } else {
                a
            }),
            (Some(a), None) => Some(a),
            (None, h) => h,
        }
    }
}

/// Finds the greatest of the heights that the matches stand for.
pub fn greatest_found_height(found: &Vec<Found>) -> (res: Option<u32>)
    ensures
        res == greatest_height(pattern::found_views(found@)),
{
    let ghost views = pattern::found_views(found@);
    let mut best: Option<u32> = None;
    let mut i: usize = 0;
    while i < found.len()
        invariant
            i <= found.len(),
            views == pattern::found_views(found@),
            best == greatest_height(views.take(i as int)),
        decreases found.len() - i,
    {
        assert(views.take(i + 1).drop_last() =~= views.take(i as int));
        assert(views[i as int] == found@[i as int]@);
        let height: Option<u32> = match found[i].group(1) {
            Some(tag) => height_of_tag(tag.as_str()),
            None => None,
        };
        best = match (best, height) {
            (Some(a), Some(b)) => Some(if a < b {
                b
            } else {
                a
            }),
            (Some(a), None) => Some(a),
            (None, h) => h,
        };
        i += 1;
    }
    assert(views.take(views.len() as int) =~= views);
    best
}

/// The greatest resolution that a file name is tagged with.
pub fn resolution_from_filename(name: &str) -> (res: Option<u32>)
    ensures
        res == greatest_height(pattern::regex_captures_iter(RESOLUTION@, name@)),
{
    greatest_found_height(&pattern::captures_iter(RESOLUTION, name))
}

/// The quality of a file: as probed, or by the height its name is tagged with.
pub open spec fn known_quality(
    probed: Option<QualityView>,
    tagged: Option<u32>,
) -> Option<QualityView> {
    match (probed, tagged) {
        (Some(q), _) => Some(q),
        (None, Some(height)) => Some(QualityView { height, bitrate: None, codec: None }),
        (None, None) => None,
    }
}

/// Where what is known of a quality comes from.
pub open spec fn origin(probed: bool) -> Seq<char> {
    if probed {
        "ffprobe"@
    } else {
        "filename tag"@
    }
}

/// The quality of a file by a probe result, or else by a tagged height.
pub fn quality_by(probed: &Option<VideoQuality>, tagged: Option<u32>) -> (res: (
    Option<VideoQuality>,
    &'static str,
))
    ensures
        quality_view(res.0) == known_quality(quality_view(*probed), tagged),
        res.1@ == origin(probed is Some),
{
    match probed {
        Some(q) => (Some(copy_quality(q)), "ffprobe"),
        None => (
            match tagged {
                Some(height) => Some(VideoQuality { height, bitrate: None, codec: None }),
                None => None,
            },
            "filename tag",
        ),
    }
}

/// The quality of a file and where it is known from: the result of a probe
/// where there is one, else the resolution that the name is tagged with.
pub fn quality_from_path(name: &str, probed: &Option<VideoQuality>) -> (res: (
    Option<VideoQuality>,
    &'static str,
))
    ensures
        quality_view(res.0) == known_quality(
            quality_view(*probed),
            greatest_height(pattern::regex_captures_iter(RESOLUTION@, name@)),
        ),
        res.1@ == origin(probed is Some),
{
    match probed {
        Some(_) => quality_by(probed, None),
        None => quality_by(probed, resolution_from_filename(name)),
    }
}

/// A quality in words.
pub open spec fn described(quality: Option<QualityView>, origin: Seq<char>) -> Seq<char> {
    match quality {
        None => "unknown (no usable probe result or filename resolution tag)"@,
        Some(q) => number::decimal(q.height as nat) + " pixels high; codec "@ + (match q.codec {
            Some(c) => c,
            None => "unknown"@,
        }) + "; bitrate "@ + (match q.bitrate {
            Some(b) => number::decimal(b as nat) + " bit/s"@,
            None => "unknown"@,
        }) + "; source: "@ + origin,
    }
}

/// Describes a quality in words.
pub fn quality_description(quality: &Option<VideoQuality>, origin: &str) -> (res: String)
    ensures
        res@ == described(quality_view(*quality), origin@),
{
    match quality {
        None => String::from_str("unknown (no usable probe result or filename resolution tag)"),
        Some(q) => {
            let mut out = number::decimal_text(q.height as u64);
            out.append(" pixels high; codec ");
            match &q.codec {
                Some(c) => out.append(c.as_str()),
                None => out.append("unknown"),
            }
            out.append("; bitrate ");
            match q.bitrate {
                Some(b) => {
                    let ghost before = out@;
                    out.append(number::decimal_text(b).as_str());
                    out.append(" bit/s");
                    assert(out@ =~= before + (number::decimal(b as nat) + " bit/s"@));
                },
                None => out.append("unknown"),
            }
            out.append("; source: ");
            out.append(origin);
            out
        },
    }
}

/// What a probe reports of one video stream.
pub struct VideoStream {
    pub height: Option<u32>,
    pub bit_rate: Option<String>,
    pub codec_name: Option<String>,
}

/// A bit rate that is a positive number.
pub open spec fn usable_bitrate(bit_rate: Option<Seq<char>>) -> Option<u64> {
    match bit_rate {
        Some(t) => match number::u64_value(t) {
            Some(n) => if n > 0 {
                Some(n)
            } else {
                None
            },
            None => None,
        },
        None => None,
    }
}

/// A codec that has a name, in lower case.
pub open spec fn usable_codec(codec: Option<Seq<char>>) -> Option<Seq<char>> {
    match codec {
        Some(t) => {
            let c = chars::ascii_lower_text(text::trimmed(t, CharSet::Space));
            if c.len() == 0 || c == "unknown"@ {
                None
            } else {
                Some(c)
            }
        },
        None => None,
    }
}

/// The quality that a probed stream has; none without a positive height.
pub open spec fn stream_quality(
    height: Option<u32>,
    bit_rate: Option<Seq<char>>,
    codec_name: Option<Seq<char>>,
) -> Option<QualityView> {
    match height {
        Some(h) => if h > 0 {
            Some(
                QualityView {
                    height: h,
                    bitrate: usable_bitrate(bit_rate),
                    codec: usable_codec(codec_name),
                },
            )
        } else {
            None
        },
        None => None,
    }
}

/// The quality that a probed stream has.
pub fn quality_from_stream(stream: &VideoStream) -> (res: Option<VideoQuality>)
    ensures
        quality_view(res) == stream_quality(
            stream.height,
            text::opt_view(stream.bit_rate),
            text::opt_view(stream.codec_name),
        ),
{
    match stream.height {
        Some(height) => {
            if height == 0 {
                return None;
            }
            let bitrate: Option<u64> = match &stream.bit_rate {
                Some(t) => match number::parse_u64(t.as_str()) {
                    Some(n) => if n > 0 {
                        Some(n)
                    } else {
                        None
                    },
                    None => None,
                },
                None => None,
            };
            let codec: Option<String> = match &stream.codec_name {
                Some(t) => {
                    let c = chars::lower_ascii(text::trim(t.as_str(), CharSet::Space).as_str());
                    if c.as_str().is_empty() || text::same_text(c.as_str(), "unknown") {
                        None
                    } else {
                        Some(c)
                    }
                },
                None => None,
            };
            Some(VideoQuality { height, bitrate, codec })
        },
        None => None,
    }
}

/// The quality of the first of the streams that a probe reports.
pub fn quality_from_streams(streams: &Vec<VideoStream>) -> (res: Option<VideoQuality>)
    ensures
        quality_view(res) == (if streams@.len() == 0 {
            None
        } else {
            stream_quality(
                streams@[0].height,
                text::opt_view(streams@[0].bit_rate),
                text::opt_view(streams@[0].codec_name),
            )
        }),
{
    if streams.len() == 0 {
        None
    } else {
        quality_from_stream(&streams[0])
    }
}

/// The quality that a probe gives: none of what is no file, none where the probe
/// did not succeed, else that of the first stream it reports.
pub fn probed_quality(is_file: bool, succeeded: bool, streams: &Vec<VideoStream>) -> (res: Option<
    VideoQuality,
>)
    ensures
        quality_view(res) == (if !is_file || !succeeded || streams@.len() == 0 {
            None
        } else {
            stream_quality(
                streams@[0].height,
                text::opt_view(streams@[0].bit_rate),
                text::opt_view(streams@[0].codec_name),
            )
        }),
{
    if is_file && succeeded {
        quality_from_streams(streams)
    } else {
        None
    }
}

/// Why a probe gave no result.
pub enum ProbeFailure {
    /// The executable could not be found.
    NotFound,
    /// The probe ran out of time.
    TimedOut,
    /// Anything else, with its message.
    Other(String),
}

/// What went wrong with a probe, in words.
pub open spec fn failure_detail(failure: ProbeFailure) -> Seq<char> {
    match failure {
        ProbeFailure::NotFound => "ffprobe could not be found or launched; ensure the ffprobe executable is installed and its directory is on PATH (Homebrew on Apple Silicon usually uses /opt/homebrew/bin)"@,
        ProbeFailure::TimedOut => "video probe timed out"@,
        ProbeFailure::Other(message) => "ffprobe could not run: "@ + message@,
    }
}

/// The warning that a file's probe gave no result.
pub fn probe_error_message(path: &str, failure: &ProbeFailure) -> (res: String)
    ensures
        res@ == failure_detail(*failure) + " for "@ + path@
            + "; falling back to filename resolution tags; quality may be unknown"@,
{
    let mut out = match failure {
        ProbeFailure::NotFound => String::from_str(
            "ffprobe could not be found or launched; ensure the ffprobe executable is installed and its directory is on PATH (Homebrew on Apple Silicon usually uses /opt/homebrew/bin)",
        ),
        ProbeFailure::TimedOut => String::from_str("video probe timed out"),
        ProbeFailure::Other(message) => {
            let mut detail = String::from_str("ffprobe could not run: ");
            detail.append(message.as_str());
            detail
        },
    };
    out.append(" for ");
    out.append(path);
    out.append("; falling back to filename resolution tags; quality may be unknown");
    out
}

/// How a running probe looks when it is polled.
pub enum ProbeState {
    Exited,
    Running { elapsed_nanos: u128 },
    Failed,
}

/// What to do with a polled probe.
#[derive(Debug, Clone, Copy, PartialEq, Eq)]
pub enum ProbeStep {
    /// Read its output.
    Collect,
    /// Wait a moment and poll it again.
    Wait { millis: u64 },
    /// Stop it and report that it ran out of time.
    StopTimedOut,
    /// Stop it and report the failure.
    StopFailed,
}

/// How long one probe may take, in seconds.
pub const PROBE_SECONDS: u64 = 10;

/// Decides what to do with a polled probe: it is read once it has exited, left
/// alone while it has time, and stopped otherwise.
pub fn probe_step(state: &ProbeState, timeout_nanos: u128) -> (res: ProbeStep)
    ensures
        res == (match *state {
            ProbeState::Exited => ProbeStep::Collect,
            ProbeState::Running { elapsed_nanos } => if elapsed_nanos < timeout_nanos {
                ProbeStep::Wait { millis: 20 }
            } else {
                ProbeStep::StopTimedOut
            },
            ProbeState::Failed => ProbeStep::StopFailed,
        }),
{
    match state {
        ProbeState::Exited => ProbeStep::Collect,
        ProbeState::Running { elapsed_nanos } => if *elapsed_nanos < timeout_nanos {
            ProbeStep::Wait { millis: 20 }
        } else {
            ProbeStep::StopTimedOut
        },
        ProbeState::Failed => ProbeStep::StopFailed,
    }
}

/// A tag that is a number with the letter p behind it, in either case, stands
/// for that many lines.
pub proof fn law_p_tags_stand_for_their_number(n: u32, tag: Seq<char>)
    requires
        tag == number::decimal(n as nat).push('p') || tag == number::decimal(n as nat).push('P'),
    ensures
        tag_height(tag) == Some(n),
{
    let digits = number::decimal(n as nat);
    let t = chars::ascii_lower_text(tag);
    number::law_written_numbers_read_back(n as nat, 0);
    number::lemma_decimal_value(n as nat);
    assert(t =~= digits.push('p')) by {
        assert forall|i: int| 0 <= i < digits.len() implies #[trigger] t[i] == digits[i] by {
            assert(chars::is_digit(digits[i]));
        }
    }
    assert(t.drop_last() =~= digits);
    assert(t.last() == 'p');
    reveal_strlit("8k");
    reveal_strlit("4k");
    reveal_strlit("uhd");
    reveal_strlit("4320p");
    reveal_strlit("2160p");
    assert("8k"@.last() == 'k');
    assert("4k"@.last() == 'k');
    assert("uhd"@.last() == 'd');
    if t == "4320p"@ {
        assert(digits =~= seq!['4', '3', '2', '0']);
        lemma_four_digits('4', '3', '2', '0');
    }
    if t == "2160p"@ {
        assert(digits =~= seq!['2', '1', '6', '0']);
        lemma_four_digits('2', '1', '6', '0');
    }
}

proof fn lemma_four_digits(a: char, b: char, c: char, d: char)
    ensures
        number::digits_value(seq![a, b, c, d]) == 1000 * number::digit_value(a) + 100
            * number::digit_value(b) + 10 * number::digit_value(c) + number::digit_value(d),
{
    let s = seq![a, b, c, d];
    assert(s.drop_last() =~= seq![a, b, c]);
    assert(s.drop_last().drop_last() =~= seq![a, b]);
    assert(s.drop_last().drop_last().drop_last() =~= seq![a]);
    assert(seq![a].drop_last() =~= Seq::empty());
    reveal_with_fuel(number::digits_value, 5);
}

/// The tags 4k and uhd stand for 2160 lines and the tag 8k for 4320, in either
/// case, and no other tag without the letter p stands for anything.
pub proof fn law_other_tags_stand_for_fixed_heights(tag: Seq<char>)
    ensures
        tag.len() == 2 && tag[0] == '4' && (tag[1] == 'k' || tag[1] == 'K') ==> tag_height(tag)
            == Some(2160u32),
        tag.len() == 2 && tag[0] == '8' && (tag[1] == 'k' || tag[1] == 'K') ==> tag_height(tag)
            == Some(4320u32),
        tag.len() == 3 && (tag[0] == 'u' || tag[0] == 'U') && (tag[1] == 'h' || tag[1] == 'H') && (
        tag[2] == 'd' || tag[2] == 'D') ==> tag_height(tag) == Some(2160u32),
        tag_height(tag) is Some ==> tag.len() > 1 && (tag.last() == 'p' || tag.last() == 'P'
            || tag.last() == 'k' || tag.last() == 'K' || tag.last() == 'd' || tag.last() == 'D'),
        tag_height(tag) is Some && (tag.last() == 'k' || tag.last() == 'K') ==> tag.len() == 2 && (
        tag[0] == '4' || tag[0] == '8'),
        tag_height(tag) is Some && (tag.last() == 'd' || tag.last() == 'D') ==> tag.len() == 3 && (
        tag[0] == 'u' || tag[0] == 'U') && (tag[1] == 'h' || tag[1] == 'H'),
        tag_height(tag) is Some && (tag.last() == 'p' || tag.last() == 'P') ==> tag_height(tag)
            == number::u32_value(tag.drop_last()),
{
    let t = chars::ascii_lower_text(tag);
    reveal_strlit("8k");
    reveal_strlit("4k");
    reveal_strlit("uhd");
    reveal_strlit("4320p");
    reveal_strlit("2160p");
    if tag.len() == 2 && tag[0] == '4' && (tag[1] == 'k' || tag[1] == 'K') {
        assert(t =~= "4k"@);
    }
    if tag.len() == 2 && tag[0] == '8' && (tag[1] == 'k' || tag[1] == 'K') {
        assert(t =~= "8k"@);
        assert("8k"@[0] != "4k"@[0]);
    }
    if tag.len() == 3 && (tag[0] == 'u' || tag[0] == 'U') && (tag[1] == 'h' || tag[1] == 'H') && (
    tag[2] == 'd' || tag[2] == 'D') {
        assert(t =~= "uhd"@);
    }
    if tag.len() > 0 {
        assert(t.last() == chars::ascii_lower(tag.last()));
        assert(t[0] == chars::ascii_lower(tag[0]));
    }
    if tag.len() > 1 {
        assert(t[1] == chars::ascii_lower(tag[1]));
    }
    if tag_height(tag) is Some {
        assert(t.drop_last().len() > 0);
        if t.last() == 'p' {
            lemma_lower_digits(tag.drop_last());
            assert(t.drop_last() =~= chars::ascii_lower_text(tag.drop_last()));
            if t == "4320p"@ {
                assert(t.drop_last() =~= seq!['4', '3', '2', '0']);
                lemma_four_digits('4', '3', '2', '0');
            } else if t == "2160p"@ {
                assert(t.drop_last() =~= seq!['2', '1', '6', '0']);
                lemma_four_digits('2', '1', '6', '0');
            }
        }
    }
}

proof fn lemma_lower_digits(s: Seq<char>)
    ensures
        number::u32_value(chars::ascii_lower_text(s)) == number::u32_value(s),
{
    let t = chars::ascii_lower_text(s);
    if number::all_digits(s) {
        assert forall|i: int| 0 <= i < s.len() implies #[trigger] t[i] == s[i] by {
            assert(chars::is_digit(s[i]));
        }
        assert(t =~= s);
    }
    let a = s.skip(1);
    let b = t.skip(1);
    if s.len() > 0 {
        assert(b =~= chars::ascii_lower_text(a));
        if number::all_digits(a) {
            assert forall|i: int| 0 <= i < a.len() implies #[trigger] b[i] == a[i] by {
                assert(chars::is_digit(a[i]));
            }
            assert(b =~= a);
        }
        assert(t[0] == chars::ascii_lower(s[0]));
    }
    if number::all_digits(t) {
        assert forall|i: int| 0 <= i < s.len() implies chars::is_digit(#[trigger] s[i]) by {
            assert(chars::is_digit(t[i]));
        }
    }
    if number::all_digits(b) && s.len() > 0 {
        assert forall|i: int| 0 <= i < a.len() implies chars::is_digit(#[trigger] a[i]) by {
            assert(chars::is_digit(b[i]));
        }
    }
}

/// The height of a name is that of one of its tags, and no tag of it stands for
/// more. There is none just where no tag stands for a height.
pub proof fn law_names_have_their_highest_tag(found: Seq<FoundView>)
    ensures
        match greatest_height(found) {
            Some(height) => {
                &&& exists|i: int|
                    0 <= i < found.len() && found_height(#[trigger] found[i]) == Some(height)
                &&& forall|i: int|
                    0 <= i < found.len() ==> (found_height(#[trigger] found[i]) matches Some(h)
                        ==> h <= height)
            },
            None => forall|i: int|
                0 <= i < found.len() ==> found_height(#[trigger] found[i]) is None,
        },
    decreases found.len(),
{
    if found.len() > 0 {
        let front = found.drop_last();
        law_names_have_their_highest_tag(front);
        assert forall|i: int| 0 <= i < found.len() - 1 implies #[trigger] found[i] == front[i] by {}
        assert(found[found.len() - 1] == found.last());
        if let Some(height) = greatest_height(front) {
            let i = choose|i: int|
                0 <= i < front.len() && found_height(#[trigger] front[i]) == Some(height);
            assert(found[i] == front[i]);
        }
    }
}

/// Of two names that are each tagged once with a number of lines, and without
/// anything known from a probe, the one with the greater number is preferred.
pub proof fn law_higher_tags_are_preferred(a: FoundView, b: FoundView, m: u32, n: u32)
    requires
        a.groups.len() > 1,
        b.groups.len() > 1,
        a.groups[1] == Some(number::decimal(m as nat).push('p')),
        b.groups[1] == Some(number::decimal(n as nat).push('p')),
        m < n,
    ensures
        is_preferred(
            seq![
                known_quality(None, greatest_height(seq![a])),
                known_quality(None, greatest_height(seq![b])),
            ],
            1,
        ),
        is_preferred(
            seq![
                known_quality(None, greatest_height(seq![b])),
                known_quality(None, greatest_height(seq![a])),
            ],
            0,
        ),
        known_quality(None, greatest_height(seq![a, b])) == known_quality(
            None,
            greatest_height(seq![b]),
        ),
{
    law_p_tags_stand_for_their_number(m, number::decimal(m as nat).push('p'));
    law_p_tags_stand_for_their_number(n, number::decimal(n as nat).push('p'));
    assert(found_height(a) == Some(m));
    assert(found_height(b) == Some(n));
    law_names_have_their_highest_tag(seq![a]);
    law_names_have_their_highest_tag(seq![b]);
    law_names_have_their_highest_tag(seq![a, b]);
    assert(seq![a][0] == a);
    assert(seq![b][0] == b);
    assert(seq![a, b][0] == a);
    assert(seq![a, b][1] == b);
    assert(greatest_height(seq![a]) == Some(m));
    assert(greatest_height(seq![b]) == Some(n));
    let q = seq![
        known_quality(None, greatest_height(seq![a])),
        known_quality(None, greatest_height(seq![b])),
    ];
    let r = seq![
        known_quality(None, greatest_height(seq![b])),
        known_quality(None, greatest_height(seq![a])),
    ];
    law_strictly_highest_is_preferred(q, 1);
    law_strictly_highest_is_preferred(r, 0);
}

/// A candidate that is higher than every other known one is preferred.
pub proof fn law_strictly_highest_is_preferred(q: Seq<Option<QualityView>>, i: int)
    requires
        0 <= i < q.len(),
        q[i] is Some,
        forall|j: int|
            0 <= j < q.len() && j != i && (#[trigger] q[j]) is Some ==> q[j]->0.height
                < q[i]->0.height,
    ensures
        is_preferred(q, i),
{
    assert(is_top(q, i));
    assert forall|j: int| #[trigger] is_top(q, j) implies j == i by {
        if j != i {
            assert(q[j]->0.height < q[i]->0.height);
        }
    }
}

/// Of two candidates of one height the one with the greater bitrate is preferred
/// where both have the same known codec and known bitrates; in every other case
/// neither is, even beside lower candidates.
pub proof fn law_equal_heights_are_told_apart_by_bitrate(
    q: Seq<Option<QualityView>>,
    i: int,
    j: int,
)
    requires
        0 <= i < q.len(),
        0 <= j < q.len(),
        i != j,
        q[i] is Some,
        q[j] is Some,
        q[i]->0.height == q[j]->0.height,
        forall|k: int|
            0 <= k < q.len() && k != i && k != j && (#[trigger] q[k]) is Some ==> q[k]->0.height
                < q[i]->0.height,
    ensures
        is_preferred(q, i) <==> {
            &&& q[i]->0.codec is Some
            &&& q[i]->0.codec == q[j]->0.codec
            &&& q[i]->0.bitrate is Some
            &&& q[j]->0.bitrate is Some
            &&& q[i]->0.bitrate->0 > q[j]->0.bitrate->0
        },
        forall|k: int| k != i && k != j ==> !is_preferred(q, k),
{
    assert(is_top(q, i));
    assert(is_top(q, j));
    assert forall|k: int| #[trigger] is_top(q, k) implies k == i || k == j by {
        if k != i && k != j {
            assert(q[k]->0.height < q[i]->0.height);
        }
    }
}

/// What is unknown takes no part in the choice: dropping the last candidate
/// where nothing is known of it changes nothing.
pub proof fn law_unknown_candidates_do_not_count(q: Seq<Option<QualityView>>, i: int)
    ensures
        !is_preferred(q.push(None), q.len() as int),
        0 <= i < q.len() ==> (is_preferred(q.push(None), i) <==> is_preferred(q, i)),
{
    let r = q.push(None);
    assert(r[q.len() as int] is None);
    assert forall|k: int| #[trigger] is_top(q, k) <==> is_top(r, k) by {
        if is_top(q, k) {
            assert forall|j: int| 0 <= j < r.len() && (#[trigger] r[j]) is Some implies r[j]->0.height
                <= r[k]->0.height by {
                assert(q[j] == r[j]);
            }
        }
        if is_top(r, k) {
            assert(k < q.len());
            assert forall|j: int| 0 <= j < q.len() && (#[trigger] q[j]) is Some implies q[j]->0.height
                <= q[k]->0.height by {
                assert(q[j] == r[j]);
            }
        }
    }
    if 0 <= i < q.len() {
        assert(q[i] == r[i]);
        assert forall|j: int| #[trigger] is_top(q, j) implies q[j] == r[j] by {}
        if is_preferred(q, i) {
            assert forall|j: int| #[trigger] is_top(r, j) implies is_top(q, j) && q[j] == r[j] by {
                assert(is_top(q, j) <==> is_top(r, j));
            }
        }
        if is_preferred(r, i) {
            assert(is_top(q, i) <==> is_top(r, i));
            assert forall|j: int| #[trigger] is_top(q, j) implies is_top(r, j) && q[j] == r[j] by {}
        }
    }
}

/// A probe result stands against any tag; a tag counts where there is none, and
/// says nothing of bitrate and codec.
pub proof fn law_probes_stand_against_tags(probed: Option<QualityView>, tagged: Option<u32>)
    ensures
        probed is Some ==> known_quality(probed, tagged) == probed,
        probed is None ==> (known_quality(probed, tagged) is Some <==> tagged is Some),
        probed is None && tagged is Some ==> {
            let q = known_quality(probed, tagged)->0;
            q.height == tagged->0 && q.bitrate is None && q.codec is None
        },
{
}

/// A probed stream of some height has that height, the bitrate that is written
/// in it where that is a number above zero, and a codec that does not depend on
/// case or on blanks around it. A stream without a height has no quality.
pub proof fn law_streams_have_what_was_probed(
    height: Option<u32>,
    bitrate: u64,
    codec: Seq<char>,
)
    requires
        codec.len() > 0,
        !chars::is_space(codec[0]),
        !chars::is_space(codec.last()),
    ensures
        stream_quality(height, Some(number::decimal(bitrate as nat)), Some(codec)) is Some <==> height
            is Some && height->0 > 0,
        stream_quality(height, Some(number::decimal(bitrate as nat)), Some(codec)) matches Some(q)
            ==> {
            &&& Some(q.height) == height
            &&& q.bitrate == (if bitrate > 0 {
                Some(bitrate)
            } else {
                None
            })
            &&& chars::ascii_lower_text(codec) != "unknown"@ ==> q.codec == Some(
                chars::ascii_lower_text(codec),
            )
            &&& chars::ascii_lower_text(codec) == "unknown"@ ==> q.codec is None
        },
        stream_quality(height, None, None) matches Some(q) ==> q.bitrate is None && q.codec is None,
{
    number::law_written_numbers_read_back(bitrate as nat, 0);
    text::lemma_trimmed_fixed(codec, CharSet::Space);
    assert(chars::ascii_lower_text(codec).len() == codec.len());
}

/// A candidate is preferred just where it is known and every other known one is
/// lower, or of the same height and the same known codec with a smaller bitrate,
/// both bitrates known.
pub proof fn law_preferred_beats_every_other(q: Seq<Option<QualityView>>, i: int)
    requires
        0 <= i < q.len(),
    ensures
        is_preferred(q, i) <==> {
            &&& q[i] is Some
            &&& forall|j: int|
                0 <= j < q.len() && j != i && (#[trigger] q[j]) is Some ==> {
                    ||| q[j]->0.height < q[i]->0.height
                    ||| {
                        &&& q[j]->0.height == q[i]->0.height
                        &&& q[i]->0.codec is Some
                        &&& q[j]->0.codec == q[i]->0.codec
                        &&& q[i]->0.bitrate is Some
                        &&& q[j]->0.bitrate is Some
                        &&& q[j]->0.bitrate->0 < q[i]->0.bitrate->0
                    }
                }
        },
{
    if is_preferred(q, i) {
        assert forall|j: int| 0 <= j < q.len() && j != i && (#[trigger] q[j]) is Some implies {
            ||| q[j]->0.height < q[i]->0.height
            ||| {
                &&& q[j]->0.height == q[i]->0.height
                &&& q[i]->0.codec is Some
                &&& q[j]->0.codec == q[i]->0.codec
                &&& q[i]->0.bitrate is Some
                &&& q[j]->0.bitrate is Some
                &&& q[j]->0.bitrate->0 < q[i]->0.bitrate->0
            }
        } by {
            if q[j]->0.height == q[i]->0.height {
                assert(is_top(q, j));
            }
        }
    }
    if q[i] is Some && forall|j: int|
        0 <= j < q.len() && j != i && (#[trigger] q[j]) is Some ==> {
            ||| q[j]->0.height < q[i]->0.height
            ||| {
                &&& q[j]->0.height == q[i]->0.height
                &&& q[i]->0.codec is Some
                &&& q[j]->0.codec == q[i]->0.codec
                &&& q[i]->0.bitrate is Some
                &&& q[j]->0.bitrate is Some
                &&& q[j]->0.bitrate->0 < q[i]->0.bitrate->0
            }
        } {
        assert(is_top(q, i));
        assert forall|j: int| #[trigger] is_top(q, j) && j != i implies {
            &&& q[i]->0.codec is Some
            &&& q[i]->0.bitrate is Some
            &&& q[j]->0.codec == q[i]->0.codec
            &&& q[j]->0.bitrate is Some
            &&& q[j]->0.bitrate->0 < q[i]->0.bitrate->0
        } by {
            assert(q[j] is Some);
        }
        if exists|j: int| #[trigger] is_top(q, j) && j != i {
            let j = choose|j: int| #[trigger] is_top(q, j) && j != i;
            assert(q[j] is Some);
        }
    }
}

/// A bitrate that is no number, or zero, is unknown; any other is the number. A
/// codec is told without white space around it and in any case, and is unknown
/// where nothing or that word is left.
pub proof fn law_unusable_measures_are_unknown(
    bit_rate: Seq<char>,
    left: Seq<char>,
    codec: Seq<char>,
    right: Seq<char>,
)
    requires
        forall|i: int| 0 <= i < left.len() ==> CharSet::Space.contains(#[trigger] left[i]),
        forall|i: int| 0 <= i < right.len() ==> CharSet::Space.contains(#[trigger] right[i]),
        codec.len() > 0 ==> !CharSet::Space.contains(codec[0]) && !CharSet::Space.contains(
            codec.last(),
        ),
    ensures
        number::u64_value(bit_rate) is None ==> usable_bitrate(Some(bit_rate)) is None,
        number::u64_value(bit_rate) matches Some(n) ==> usable_bitrate(Some(bit_rate)) == (if n
            == 0 {
            None
        } else {
            Some(n)
        }),
        usable_bitrate(None) is None,
        usable_codec(None) is None,
        codec.len() == 0 ==> usable_codec(Some(left + codec + right)) is None,
        chars::ascii_lower_text(codec) == seq!['u', 'n', 'k', 'n', 'o', 'w', 'n'] ==> usable_codec(
            Some(left + codec + right),
        ) is None,
        codec.len() > 0 && chars::ascii_lower_text(codec) != seq!['u', 'n', 'k', 'n', 'o', 'w', 'n']
            ==> usable_codec(Some(left + codec + right)) == Some(chars::ascii_lower_text(codec)),
{
    reveal_strlit("unknown");
    assert("unknown"@ =~= seq!['u', 'n', 'k', 'n', 'o', 'w', 'n']);
    text::law_trimming_takes_the_ends_off(left, codec, right, CharSet::Space);
    assert(chars::ascii_lower_text(codec).len() == codec.len());
}

/// A quality is described by its height, its codec, its bitrate and where these
/// are known from.
pub proof fn law_descriptions_tell_what_is_known(q: QualityView, source: Seq<char>)
    ensures
        described(Some(q), source) == number::decimal(q.height as nat) + " pixels high; codec "@
            + (if q.codec is Some {
            q.codec->0
        } else {
            "unknown"@
        }) + "; bitrate "@ + (if q.bitrate is Some {
            number::decimal(q.bitrate->0 as nat) + " bit/s"@
        } else {
            "unknown"@
        }) + "; source: "@ + source,
        described(None, source) == "unknown (no usable probe result or filename resolution tag)"@,
        origin(true) == "ffprobe"@,
        origin(false) == "filename tag"@,
{
}

/// The resolution tags that are looked for in a name.
pub open spec fn resolution_tags() -> Seq<Seq<char>> {
    seq![
        "4320p"@,
        "8k"@,
        "2160p"@,
        "4k"@,
        "uhd"@,
        "1080p"@,
        "720p"@,
        "576p"@,
        "480p"@,
    ]
}

/// The tags that are looked for stand each for a height, from the greatest to the
/// smallest, and stand alone between other characters than letters and digits.
pub proof fn law_tags_that_are_looked_for_stand_for_heights(i: int, j: int)
    requires
        0 <= i <= j < resolution_tags().len(),
    ensures
        RESOLUTION@ == "(?i)\\b("@ + text::joined(resolution_tags(), "|"@) + ")\\b"@,
        tag_height(resolution_tags()[i]) is Some,
        tag_height(resolution_tags()[j]) is Some,
        tag_height(resolution_tags()[i])->0 >= tag_height(resolution_tags()[j])->0,
{
    lemma_resolution_pattern();
    lemma_tag_heights();
}

proof fn lemma_resolution_pattern()
    ensures
        RESOLUTION@ == "(?i)\\b("@ + text::joined(resolution_tags(), "|"@) + ")\\b"@,
{
    reveal_strlit("4320p");
    reveal_strlit("8k");
    reveal_strlit("2160p");
    reveal_strlit("4k");
    reveal_strlit("uhd");
    reveal_strlit("1080p");
    reveal_strlit("720p");
    reveal_strlit("576p");
    reveal_strlit("480p");
    reveal_strlit("|");
    reveal_strlit("(?i)\\b(");
    reveal_strlit(")\\b");
    reveal_strlit(r"(?i)\b(4320p|8k|2160p|4k|uhd|1080p|720p|576p|480p)\b");
    let t = resolution_tags();
    assert(t.drop_last() =~= t.take(8));
    assert(t.take(8).drop_last() =~= t.take(7));
    assert(t.take(7).drop_last() =~= t.take(6));
    assert(t.take(6).drop_last() =~= t.take(5));
    assert(t.take(5).drop_last() =~= t.take(4));
    assert(t.take(4).drop_last() =~= t.take(3));
    assert(t.take(3).drop_last() =~= t.take(2));
    assert(t.take(2).drop_last() =~= t.take(1));
    reveal_with_fuel(text::joined, 10);
    assert(RESOLUTION@ =~= "(?i)\\b("@ + text::joined(t, "|"@) + ")\\b"@);
}

proof fn lemma_tag_heights()
    ensures
        tag_height("4320p"@) == Some(4320u32),
        tag_height("8k"@) == Some(4320u32),
        tag_height("2160p"@) == Some(2160u32),
        tag_height("4k"@) == Some(2160u32),
        tag_height("uhd"@) == Some(2160u32),
        tag_height("1080p"@) == Some(1080u32),
        tag_height("720p"@) == Some(720u32),
        tag_height("576p"@) == Some(576u32),
        tag_height("480p"@) == Some(480u32),
{
    reveal_strlit("4320p");
    reveal_strlit("8k");
    reveal_strlit("2160p");
    reveal_strlit("4k");
    reveal_strlit("uhd");
    reveal_strlit("1080p");
    reveal_strlit("720p");
    reveal_strlit("576p");
    reveal_strlit("480p");
    reveal_with_fuel(number::decimal, 5);
    law_other_tags_stand_for_fixed_heights("8k"@);
    law_other_tags_stand_for_fixed_heights("4k"@);
    law_other_tags_stand_for_fixed_heights("uhd"@);
    assert("4320p"@ =~= number::decimal(4320).push('p'));
    law_p_tags_stand_for_their_number(4320, "4320p"@);
    assert("2160p"@ =~= number::decimal(2160).push('p'));
    law_p_tags_stand_for_their_number(2160, "2160p"@);
    assert("1080p"@ =~= number::decimal(1080).push('p'));
    law_p_tags_stand_for_their_number(1080, "1080p"@);
    assert("720p"@ =~= number::decimal(720).push('p'));
    law_p_tags_stand_for_their_number(720, "720p"@);
    assert("576p"@ =~= number::decimal(576).push('p'));
    law_p_tags_stand_for_their_number(576, "576p"@);
    assert("480p"@ =~= number::decimal(480).push('p'));
    law_p_tags_stand_for_their_number(480, "480p"@);
}

/// A probe that could not run is reported with its own message, one that ran out
/// of time as such.
pub proof fn law_probe_failures_give_their_cause(message: String)
    ensures
        failure_detail(ProbeFailure::Other(message)) == "ffprobe could not run: "@ + message@,
        failure_detail(ProbeFailure::TimedOut) == "video probe timed out"@,
        failure_detail(ProbeFailure::NotFound) != failure_detail(ProbeFailure::TimedOut),
{
    reveal_strlit("video probe timed out");
    reveal_strlit("ffprobe could not be found or launched; ensure the ffprobe executable is installed and its directory is on PATH (Homebrew on Apple Silicon usually uses /opt/homebrew/bin)");
    assert(failure_detail(ProbeFailure::NotFound)[0] == 'f');
}

} // verus!
