//! Rendering destination names from templates.
use vstd::prelude::*;

use crate::chars;
use crate::chars::CharSet;
use crate::number;
use crate::text;

verus! {

/// Characters that common file systems refuse in a name.
pub open spec fn is_illegal(c: char) -> bool {
    c == '/' || c == '\\' || c == ':' || c == '*' || c == '?' || c == '"' || c == '<' || c == '>'
        || c == '|'
}

/// A text with a blank in place of every illegal character.
pub open spec fn legal(s: Seq<char>) -> Seq<char> {
    s.map_values(
        |c: char|
            if is_illegal(c) {
                ' '
            } else {
                c
            },
    )
}

/// A name without illegal characters, its words one blank apart, and without
/// dots and blanks around it.
pub open spec fn sanitized(s: Seq<char>) -> Seq<char> {
    let collapsed = text::joined(text::words(legal(s), CharSet::Space), " "@);
    text::trimmed(text::trimmed(collapsed, CharSet::Dot), CharSet::Space)
}

/// Removes characters that are illegal (or just annoying) in file names on
/// common file systems, and trims the result.
pub fn sanitize(name: &str) -> (res: String)
    ensures
        res@ == sanitized(name@),
{
    let letters = text::to_chars(name);
    let mut cleaned = String::new();
    let mut i: usize = 0;
    while i < letters.len()
        invariant
            letters@ == name@,
            i <= letters.len(),
            cleaned@ == legal(name@.take(i as int)),
        decreases letters.len() - i,
    {
        let c = letters[i];
        if c == '/' || c == '\\' || c == ':' || c == '*' || c == '?' || c == '"' || c == '<' || c
            == '>' || c == '|' {
            cleaned.push(' ');
        } else {
            cleaned.push(c);
        }
        i += 1;
        assert(cleaned@ =~= legal(name@.take(i as int)));
    }
    assert(name@.take(name@.len() as int) =~= name@);
    let collapsed = text::join(&text::split_words(cleaned.as_str(), CharSet::Space), " ");
    text::trim(text::trim(collapsed.as_str(), CharSet::Dot).as_str(), CharSet::Space)
}

/// The fields of a movie template.
pub struct MovieVars<'a> {
    pub title: &'a str,
    pub year: Option<u32>,
    pub ext: &'a str,
}

/// The fields of an episode template.
pub struct EpisodeVars<'a> {
    pub series: &'a str,
    pub year: Option<u32>,
    pub season: u32,
    pub episode: u32,
    pub episode_end: Option<u32>,
    pub episode_title: &'a str,
    pub ext: &'a str,
}

/// A text in the case and with the word separators that were asked for.
pub open spec fn cased(s: Seq<char>, lower: bool, scene: bool) -> Seq<char> {
    let out = if lower {
        chars::lower_text(s)
    } else {
        s
    };
    if scene {
        text::replaced(out, " "@, "."@)
    } else {
        out
    }
}

/// Lower-cases a text and turns its blanks into dots, as asked for.
pub fn apply_case(s: String, lower: bool, scene: bool) -> (res: String)
    ensures
        res@ == cased(s@, lower, scene),
{
    let out = if lower {
        chars::lower(s.as_str())
    } else {
        s
    };
    if scene {
        proof {
            reveal_strlit(" ");
        }
        text::replace(out.as_str(), " ", ".")
    } else {
        out
    }
}

/// A name in the case and style that were asked for, cleaned. In scene style the
/// blanks that cleaning puts in place of illegal characters become dots too.
pub open spec fn styled(s: Seq<char>, lower: bool, scene: bool) -> Seq<char> {
    cased(sanitized(cased(s, lower, scene)), false, scene)
}

/// Brings a name to the case and style that were asked for.
fn style_name(s: String, lower: bool, scene: bool) -> (res: String)
    ensures
        res@ == styled(s@, lower, scene),
{
    apply_case(sanitize(apply_case(s, lower, scene).as_str()), false, scene)
}

/// A year, or that it is unknown.
pub open spec fn year_field(year: Option<u32>) -> Seq<char> {
    match year {
        Some(y) => number::decimal(y as nat),
        None => "Unknown"@,
    }
}

/// A file extension with its dot, or nothing.
pub open spec fn ext_field(ext: Seq<char>) -> Seq<char> {
    if ext.len() == 0 {
        Seq::empty()
    } else {
        "."@ + ext
    }
}

fn year_text(year: Option<u32>) -> (res: String)
    ensures
        res@ == year_field(year),
{
    match year {
        Some(y) => number::decimal_text(y as u64),
        None => String::from_str("Unknown"),
    }
}

fn ext_text(ext: &str) -> (res: String)
    ensures
        res@ == ext_field(ext@),
{
    if ext.is_empty() {
        String::new()
    } else {
        String::from_str(".").concat(ext)
    }
}

/// Renders every directory and the file name of a template: each part between
/// slashes is a name of its own, and a part that comes out empty is left out.
pub open spec fn rendered_path(parts: Seq<Seq<char>>, render: spec_fn(Seq<char>) -> Seq<char>) -> Seq<
    char,
> {
    text::joined(text::nonempty(parts.map_values(render)), "/"@)
}

/// One part of a movie template with its fields filled in, as it stands.
pub open spec fn filled_movie_part(
    part: Seq<char>,
    title: Seq<char>,
    year: Option<u32>,
    ext: Seq<char>,
) -> Seq<char> {
    let titled = text::replaced(part, "{title}"@, title);
    let dated = text::replaced(titled, "{year}"@, year_field(year));
    text::replaced(dated, "{ext}"@, ext_field(ext))
}

/// One part of a movie template with its fields filled in, in its style.
pub open spec fn movie_part(
    part: Seq<char>,
    title: Seq<char>,
    year: Option<u32>,
    ext: Seq<char>,
    lower: bool,
    scene: bool,
) -> Seq<char> {
    styled(filled_movie_part(part, title, year, ext), lower, scene)
}

/// A movie template with its fields filled in.
pub open spec fn rendered_movie(
    template: Seq<char>,
    title: Seq<char>,
    year: Option<u32>,
    ext: Seq<char>,
    lower: bool,
    scene: bool,
) -> Seq<char> {
    rendered_path(
        text::split(template, CharSet::Slash),
        |part: Seq<char>| movie_part(part, title, year, ext, lower, scene),
    )
}

fn render_movie_part(part: &str, vars: &MovieVars, lower: bool, scene: bool) -> (res: String)
    ensures
        res@ == movie_part(part@, vars.title@, vars.year, vars.ext@, lower, scene),
{
    proof {
        reveal_strlit("{title}");
        reveal_strlit("{year}");
        reveal_strlit("{ext}");
    }
    let titled = text::replace(part, "{title}", vars.title);
    let dated = text::replace(titled.as_str(), "{year}", year_text(vars.year).as_str());
    let filled = text::replace(dated.as_str(), "{ext}", ext_text(vars.ext).as_str());
    style_name(filled, lower, scene)
}

/// Renders the destination of a movie, directories included.
pub fn render_movie(template: &str, vars: &MovieVars, lower: bool, scene: bool) -> (res: String)
    ensures
        res@ == rendered_movie(template@, vars.title@, vars.year, vars.ext@, lower, scene),
{
    let parts = text::split_text(template, CharSet::Slash);
    let ghost all = text::views(parts@);
    let ghost render = |part: Seq<char>|
        movie_part(part, vars.title@, vars.year, vars.ext@, lower, scene);
    let mut out: Vec<String> = Vec::new();
    let mut i: usize = 0;
    while i < parts.len()
        invariant
            all == text::views(parts@),
            i <= parts.len(),
            render == (|part: Seq<char>|
                movie_part(part, vars.title@, vars.year, vars.ext@, lower, scene)),
            text::views(out@) == text::nonempty(all.take(i as int).map_values(render)),
        decreases parts.len() - i,
    {
        let name = render_movie_part(parts[i].as_str(), vars, lower, scene);
        assert(name@ == render(all[i as int]));
        proof {
            text::lemma_nonempty_step(all, render, i as int);
        }
        let ghost before = text::views(out@);
        if !name.as_str().is_empty() {
            out.push(name);
            assert(text::views(out@) =~= before.push(render(all[i as int])));
        }
        i += 1;
    }
    assert(all.take(all.len() as int) =~= all);
    text::join(&out, "/")
}

/// An episode range as in `03-E04`, or a single episode as in `03`.
pub open spec fn range_field(episode: u32, episode_end: Option<u32>) -> Seq<char> {
    match episode_end {
        Some(end) => number::padded(episode as nat, 2) + "-E"@ + number::padded(end as nat, 2),
        None => number::padded(episode as nat, 2),
    }
}

/// The last episode of a range, or nothing.
pub open spec fn end_field(episode_end: Option<u32>) -> Seq<char> {
    match episode_end {
        Some(end) => number::padded(end as nat, 2),
        None => Seq::empty(),
    }
}

/// Whether a template says itself where the end of a range goes.
pub open spec fn handles_ranges(template: Seq<char>) -> bool {
    text::has_text(template, "{episode_end}"@) || text::has_text(template, "{episode_range}"@)
}

/// What the episode field of a template stands for: the first episode where
/// the template handles ranges, the whole range where it does not.
pub open spec fn episode_field(template: Seq<char>, episode: u32, episode_end: Option<u32>) -> Seq<
    char,
> {
    if handles_ranges(template) {
        number::padded(episode as nat, 2)
    } else {
        range_field(episode, episode_end)
    }
}

/// The values of the episode fields.
pub struct EpisodeFields {
    pub series: Seq<char>,
    pub year: Seq<char>,
    pub season: Seq<char>,
    pub episode: Seq<char>,
    pub episode_end: Seq<char>,
    pub episode_range: Seq<char>,
    pub episode_title: Seq<char>,
    pub ext: Seq<char>,
}

/// The values that the fields have in a template.
pub open spec fn field_values(
    template: Seq<char>,
    series: Seq<char>,
    year: Option<u32>,
    season: u32,
    episode: u32,
    episode_end: Option<u32>,
    episode_title: Seq<char>,
    ext: Seq<char>,
) -> EpisodeFields {
    EpisodeFields {
        series,
        year: year_field(year),
        season: number::padded(season as nat, 2),
        episode: episode_field(template, episode, episode_end),
        episode_end: end_field(episode_end),
        episode_range: range_field(episode, episode_end),
        episode_title,
        ext: ext_field(ext),
    }
}

impl<'a> EpisodeVars<'a> {
    /// The values that the fields have in a template.
    pub open spec fn fields(&self, template: Seq<char>) -> EpisodeFields {
        field_values(
            template,
            self.series@,
            self.year,
            self.season,
            self.episode,
            self.episode_end,
            self.episode_title@,
            self.ext@,
        )
    }
}

/// One part of an episode template with its fields filled in, as it stands.
pub open spec fn filled_part(part: Seq<char>, fields: EpisodeFields) -> Seq<char> {
    let a = text::replaced(part, "{series}"@, fields.series);
    let b = text::replaced(a, "{year}"@, fields.year);
    let c = text::replaced(b, "{season}"@, fields.season);
    let d = text::replaced(c, "{episode}"@, fields.episode);
    let e = text::replaced(d, "{episode_end}"@, fields.episode_end);
    let f = text::replaced(e, "{episode_range}"@, fields.episode_range);
    let g = text::replaced(f, "{episode_title}"@, fields.episode_title);
    text::replaced(g, "{ext}"@, fields.ext)
}

/// One part of an episode template with its fields filled in, in its style.
pub open spec fn episode_part(
    part: Seq<char>,
    fields: EpisodeFields,
    lower: bool,
    scene: bool,
) -> Seq<char> {
    styled(filled_part(part, fields), lower, scene)
}

/// An episode template with its fields filled in.
pub open spec fn rendered_episode(
    template: Seq<char>,
    fields: EpisodeFields,
    lower: bool,
    scene: bool,
) -> Seq<char> {
    rendered_path(
        text::split(template, CharSet::Slash),
        |part: Seq<char>| episode_part(part, fields, lower, scene),
    )
}

fn range_text(episode: u32, episode_end: Option<u32>) -> (res: String)
    ensures
        res@ == range_field(episode, episode_end),
{
    let mut out = number::padded_text(episode as u64, 2);
    if let Some(end) = episode_end {
        out.append("-E");
        out.append(number::padded_text(end as u64, 2).as_str());
    }
    out
}

fn render_episode_part(
    template: &str,
    part: &str,
    vars: &EpisodeVars,
    lower: bool,
    scene: bool,
) -> (res: String)
    ensures
        res@ == episode_part(part@, vars.fields(template@), lower, scene),
{
    proof {
        reveal_strlit("{series}");
        reveal_strlit("{year}");
        reveal_strlit("{season}");
        reveal_strlit("{episode}");
        reveal_strlit("{episode_end}");
        reveal_strlit("{episode_range}");
        reveal_strlit("{episode_title}");
        reveal_strlit("{ext}");
    }
    let range = range_text(vars.episode, vars.episode_end);
    let end = match vars.episode_end {
        Some(e) => number::padded_text(e as u64, 2),
        None => String::new(),
    };
    let explicit = text::contains(template, "{episode_end}") || text::contains(
        template,
        "{episode_range}",
    );
    let episode = if explicit {
        number::padded_text(vars.episode as u64, 2)
    } else {
        range.clone()
    };
    let a = text::replace(part, "{series}", vars.series);
    let b = text::replace(a.as_str(), "{year}", year_text(vars.year).as_str());
    let c = text::replace(
        b.as_str(),
        "{season}",
        number::padded_text(vars.season as u64, 2).as_str(),
    );
    let d = text::replace(c.as_str(), "{episode}", episode.as_str());
    let e = text::replace(d.as_str(), "{episode_end}", end.as_str());
    let f = text::replace(e.as_str(), "{episode_range}", range.as_str());
    let g = text::replace(f.as_str(), "{episode_title}", vars.episode_title);
    let filled = text::replace(g.as_str(), "{ext}", ext_text(vars.ext).as_str());
    style_name(filled, lower, scene)
}

/// Renders the destination of an episode, directories included.
pub fn render_episode(template: &str, vars: &EpisodeVars, lower: bool, scene: bool) -> (res: String)
    ensures
        res@ == rendered_episode(template@, vars.fields(template@), lower, scene),
{
    let parts = text::split_text(template, CharSet::Slash);
    let ghost all = text::views(parts@);
    let ghost fields = vars.fields(template@);
    let ghost render = |part: Seq<char>| episode_part(part, fields, lower, scene);
    let mut out: Vec<String> = Vec::new();
    let mut i: usize = 0;
    while i < parts.len()
        invariant
            all == text::views(parts@),
            i <= parts.len(),
            fields == vars.fields(template@),
            render == (|part: Seq<char>| episode_part(part, fields, lower, scene)),
            text::views(out@) == text::nonempty(all.take(i as int).map_values(render)),
        decreases parts.len() - i,
    {
        let name = render_episode_part(template, parts[i].as_str(), vars, lower, scene);
        assert(name@ == render(all[i as int]));
        proof {
            text::lemma_nonempty_step(all, render, i as int);
        }
        let ghost before = text::views(out@);
        if !name.as_str().is_empty() {
            out.push(name);
            assert(text::views(out@) =~= before.push(render(all[i as int])));
        }
        i += 1;
    }
    assert(all.take(all.len() as int) =~= all);
    text::join(&out, "/")
}

/// Whether a text holds no illegal character.
pub open spec fn is_legal(s: Seq<char>) -> bool {
    forall|i: int| 0 <= i < s.len() ==> !is_illegal(#[trigger] s[i])
}

/// Whether a text holds no illegal character but slashes.
pub open spec fn is_legal_path(s: Seq<char>) -> bool {
    forall|i: int| 0 <= i < s.len() && is_illegal(#[trigger] s[i]) ==> s[i] == '/'
}

/// A sanitized name holds no illegal character, and its white space is one
/// blank at a time between other characters.
pub proof fn law_sanitized_names_are_clean(s: Seq<char>)
    ensures
        is_legal(sanitized(s)),
        text::spaced_once(sanitized(s)),
{
    let ok = |c: char| !is_illegal(c);
    let flat = legal(s);
    assert(text::all_chars(flat, ok));
    text::lemma_collapsed(flat, ok);
    let collapsed = text::joined(text::words(flat, CharSet::Space), " "@);
    text::lemma_trimmed_chars(collapsed, CharSet::Dot, ok);
    text::lemma_trimmed_chars(text::trimmed(collapsed, CharSet::Dot), CharSet::Space, ok);
    text::lemma_trimmed_spaced_once(collapsed, CharSet::Dot);
    assert forall|i: int| 0 <= i < sanitized(s).len() implies !is_illegal(
        #[trigger] sanitized(s)[i],
    ) by {
        assert(ok(sanitized(s)[i]));
    }
}

/// A clean name that neither begins nor ends with a dot is left as it is.
pub proof fn law_clean_names_are_kept(s: Seq<char>)
    requires
        is_legal(s),
        text::spaced_once(s),
        s.len() > 0 ==> s[0] != '.' && s.last() != '.',
    ensures
        sanitized(s) == s,
{
    assert(legal(s) =~= s);
    text::lemma_collapsed_fixed(s);
    text::lemma_trimmed_fixed(s, CharSet::Dot);
    if s.len() > 0 {
        assert(!chars::is_space(s[0]));
        assert(!chars::is_space(s[s.len() - 1]));
    }
    text::lemma_trimmed_fixed(s, CharSet::Space);
}

/// Sanitizing a second time changes nothing, where the first time left no dot
/// at the ends.
pub proof fn law_sanitizing_twice_is_sanitizing_once(s: Seq<char>)
    requires
        sanitized(s).len() > 0 ==> sanitized(s)[0] != '.' && sanitized(s).last() != '.',
    ensures
        sanitized(sanitized(s)) == sanitized(s),
{
    law_sanitized_names_are_clean(s);
    law_clean_names_are_kept(sanitized(s));
}

/// Joined by slashes, clean names hold no other illegal character; without a
/// slash in the template there is none in the destination.
proof fn lemma_rendered_path(template: Seq<char>, render: spec_fn(Seq<char>) -> Seq<char>)
    requires
        forall|part: Seq<char>| is_legal(#[trigger] render(part)),
    ensures
        is_legal_path(rendered_path(text::split(template, CharSet::Slash), render)),
        (forall|i: int| 0 <= i < template.len() ==> #[trigger] template[i] != '/') ==> is_legal(
            rendered_path(text::split(template, CharSet::Slash), render),
        ),
{
    let parts = text::split(template, CharSet::Slash);
    let names = parts.map_values(render);
    let out = rendered_path(parts, render);
    let ok = |c: char| !is_illegal(c) || c == '/';
    assert(text::all_piece_chars(names, ok)) by {
        assert forall|k: int| 0 <= k < names.len() implies text::all_chars(#[trigger] names[k], ok) by {
            assert(is_legal(render(parts[k])));
        }
    }
    text::lemma_nonempty_chars(names, ok);
    reveal_strlit("/");
    text::lemma_joined_chars(text::nonempty(names), "/"@, ok);
    assert forall|i: int| 0 <= i < out.len() && is_illegal(#[trigger] out[i]) implies out[i]
        == '/' by {
        assert(ok(out[i]));
    }
    if forall|i: int| 0 <= i < template.len() ==> #[trigger] template[i] != '/' {
        lemma_single_name(template, render);
        assert(is_legal(render(template)));
    }
}

pub proof fn lemma_single_name(template: Seq<char>, render: spec_fn(Seq<char>) -> Seq<char>)
    requires
        forall|i: int| 0 <= i < template.len() ==> #[trigger] template[i] != '/',
    ensures
        rendered_path(text::split(template, CharSet::Slash), render) == render(template),
{
    let parts = text::split(template, CharSet::Slash);
    let names = parts.map_values(render);
    lemma_one_part(template);
    reveal(Seq::filter);
    assert(names =~= seq![render(template)]);
    assert(names.drop_last() =~= Seq::empty());
    assert(text::nonempty(Seq::empty()) =~= Seq::empty());
    if render(template).len() > 0 {
        assert(text::nonempty(names) =~= names);
    } else {
        assert(text::nonempty(names) =~= Seq::empty());
        assert(rendered_path(parts, render) =~= render(template));
    }
}

proof fn lemma_one_part(template: Seq<char>)
    requires
        forall|i: int| 0 <= i < template.len() ==> #[trigger] template[i] != '/',
    ensures
        text::split(template, CharSet::Slash) == seq![template],
    decreases template.len(),
{
    if template.len() == 0 {
        assert(template =~= Seq::empty());
        assert(text::split(template, CharSet::Slash) =~= seq![template]);
    } else {
        let front = template.drop_last();
        assert forall|i: int| 0 <= i < front.len() implies #[trigger] front[i] != '/' by {
            assert(front[i] == template[i]);
        }
        lemma_one_part(front);
        assert(template[template.len() - 1] != '/');
        assert(front.push(template.last()) =~= template);
        assert(text::split(template, CharSet::Slash) =~= seq![template]);
    }
}

/// A rendered movie destination holds no illegal character but the slashes
/// that the template asks for: no title makes a directory.
pub proof fn law_movie_destinations_are_legal(
    template: Seq<char>,
    title: Seq<char>,
    year: Option<u32>,
    ext: Seq<char>,
    lower: bool,
    scene: bool,
)
    ensures
        is_legal_path(rendered_movie(template, title, year, ext, lower, scene)),
        (forall|i: int| 0 <= i < template.len() ==> #[trigger] template[i] != '/') ==> is_legal(
            rendered_movie(template, title, year, ext, lower, scene),
        ),
{
    let render = |part: Seq<char>| movie_part(part, title, year, ext, lower, scene);
    assert forall|part: Seq<char>| is_legal(#[trigger] render(part)) by {
        lemma_styled_is_clean(filled_movie_part(part, title, year, ext), lower, scene);
    }
    lemma_rendered_path(template, render);
}

/// A rendered episode destination holds no illegal character but the slashes
/// that the template asks for: no title makes a directory.
pub proof fn law_episode_destinations_are_legal(
    template: Seq<char>,
    fields: EpisodeFields,
    lower: bool,
    scene: bool,
)
    ensures
        is_legal_path(rendered_episode(template, fields, lower, scene)),
        (forall|i: int| 0 <= i < template.len() ==> #[trigger] template[i] != '/') ==> is_legal(
            rendered_episode(template, fields, lower, scene),
        ),
{
    let render = |part: Seq<char>| episode_part(part, fields, lower, scene);
    assert forall|part: Seq<char>| is_legal(#[trigger] render(part)) by {
        lemma_styled_is_clean(filled_part(part, fields), lower, scene);
    }
    lemma_rendered_path(template, render);
}

/// In a template that handles ranges itself the episode field is the first
/// episode; in any other it is the whole range, so that no episode is lost.
pub proof fn law_older_templates_keep_the_range(template: Seq<char>, episode: u32, end: u32)
    ensures
        handles_ranges(template) ==> episode_field(template, episode, Some(end)) == number::padded(
            episode as nat,
            2,
        ),
        !handles_ranges(template) ==> episode_field(template, episode, Some(end)) == range_field(
            episode,
            Some(end),
        ),
        episode_field(template, episode, None) == range_field(episode, None),
{
}

proof fn lemma_styled_is_clean(s: Seq<char>, lower: bool, scene: bool)
    ensures
        is_legal(styled(s, lower, scene)),
        scene ==> has_no_space(styled(s, lower, scene)),
{
    law_sanitized_names_are_clean(cased(s, lower, scene));
    if scene {
        lemma_dotted_has_no_space(sanitized(cased(s, lower, scene)));
    }
}

/// Whether a text holds no white space.
pub open spec fn has_no_space(s: Seq<char>) -> bool {
    forall|i: int| 0 <= i < s.len() ==> !chars::is_space(#[trigger] s[i])
}

proof fn lemma_dotted_has_no_space(s: Seq<char>)
    requires
        is_legal(s),
        text::spaced_once(s),
    ensures
        has_no_space(cased(s, false, true)),
        is_legal(cased(s, false, true)),
{
    reveal_strlit(" ");
    reveal_strlit(".");
    assert(" "@ =~= seq![' ']);
    let dotted = cased(s, false, true);
    let plain = |c: char| !chars::is_space(c) && !is_illegal(c);
    text::lemma_replaced_char(s, ' ', "."@, plain);
    assert forall|i: int| 0 <= i < dotted.len() implies !chars::is_space(#[trigger] dotted[i])
        && !is_illegal(dotted[i]) by {
        assert(plain(dotted[i]));
    }
}

/// In scene style a name is dotted and cleaned, and nothing more where that
/// leaves no blank: blanks that stand side by side become dots side by side.
pub proof fn law_scene_names_are_dotted_names(s: Seq<char>, lower: bool)
    requires
        has_no_space(sanitized(cased(s, lower, true))),
    ensures
        styled(s, lower, true) == sanitized(cased(s, lower, true)),
{
    let clean = sanitized(cased(s, lower, true));
    reveal_strlit(" ");
    assert(" "@ =~= seq![' ']);
    assert forall|i: int| 0 <= i < clean.len() implies #[trigger] clean[i] != ' ' by {
        assert(!chars::is_space(clean[i]));
    }
    text::lemma_replaced_absent(clean, ' ', "."@);
}

proof fn lemma_path_has_no_space(parts: Seq<Seq<char>>, render: spec_fn(Seq<char>) -> Seq<char>)
    requires
        forall|part: Seq<char>| has_no_space(#[trigger] render(part)),
    ensures
        has_no_space(rendered_path(parts, render)),
{
    let names = parts.map_values(render);
    let out = rendered_path(parts, render);
    let ok = |c: char| !chars::is_space(c);
    assert(text::all_piece_chars(names, ok)) by {
        assert forall|k: int| 0 <= k < names.len() implies text::all_chars(
            #[trigger] names[k],
            ok,
        ) by {
            assert(has_no_space(render(parts[k])));
        }
    }
    text::lemma_nonempty_chars(names, ok);
    reveal_strlit("/");
    text::lemma_joined_chars(text::nonempty(names), "/"@, ok);
    assert forall|i: int| 0 <= i < out.len() implies !chars::is_space(#[trigger] out[i]) by {
        assert(ok(out[i]));
    }
}

/// In scene style no movie destination holds white space, whatever the template
/// and the title.
pub proof fn law_scene_movies_hold_no_blank(
    template: Seq<char>,
    title: Seq<char>,
    year: Option<u32>,
    ext: Seq<char>,
    lower: bool,
)
    ensures
        has_no_space(rendered_movie(template, title, year, ext, lower, true)),
{
    let render = |part: Seq<char>| movie_part(part, title, year, ext, lower, true);
    assert forall|part: Seq<char>| has_no_space(#[trigger] render(part)) by {
        lemma_styled_is_clean(filled_movie_part(part, title, year, ext), lower, true);
    }
    lemma_path_has_no_space(text::split(template, CharSet::Slash), render);
}

/// In scene style no episode destination holds white space, whatever the
/// template and the titles.
pub proof fn law_scene_episodes_hold_no_blank(
    template: Seq<char>,
    fields: EpisodeFields,
    lower: bool,
)
    ensures
        has_no_space(rendered_episode(template, fields, lower, true)),
{
    let render = |part: Seq<char>| episode_part(part, fields, lower, true);
    assert forall|part: Seq<char>| has_no_space(#[trigger] render(part)) by {
        lemma_styled_is_clean(filled_part(part, fields), lower, true);
    }
    lemma_path_has_no_space(text::split(template, CharSet::Slash), render);
}

/// Each character that is illegal or white space, between two parts of a name
/// that neither begin nor end in one or in a dot, leaves one blank between them.
pub proof fn law_illegal_characters_become_blanks(a: Seq<char>, c: char, b: Seq<char>)
    requires
        a.len() > 0,
        b.len() > 0,
        ends_in_letters(a),
        ends_in_letters(b),
        seq!['/', '\\', ':', '*', '?', '"', '<', '>', '|'].contains(c) || chars::is_space(c),
    ensures
        sanitized(a.push(c) + b) == sanitized(a) + " "@ + sanitized(b),
        sanitized(a).len() > 0,
{
    let all = a.push(c) + b;
    let d = if is_illegal(c) {
        ' '
    } else {
        c
    };
    assert(legal(all) =~= legal(a).push(d) + legal(b));
    assert(legal(a)[0] == a[0] && legal(a).last() == a.last());
    assert(legal(b)[0] == b[0] && legal(b).last() == b.last());
    text::lemma_collapsed_ends(legal(a));
    text::lemma_collapsed_ends(legal(b));
    text::lemma_collapsed_concat(legal(a), d, legal(b));
    let x = text::joined(text::words(legal(a), CharSet::Space), " "@);
    let y = text::joined(text::words(legal(b), CharSet::Space), " "@);
    let z = x + " "@ + y;
    assert(z[0] == x[0]);
    assert(z.last() == y.last());
    lemma_collapsed_is_sanitized(x);
    lemma_collapsed_is_sanitized(y);
    lemma_collapsed_is_sanitized(z);
}

/// Whether a text begins and ends in a character that names keep at their ends.
pub open spec fn ends_in_letters(s: Seq<char>) -> bool {
    &&& s[0] != '.' && s.last() != '.'
    &&& !is_illegal(s[0]) && !is_illegal(s.last())
    &&& !chars::is_space(s[0]) && !chars::is_space(s.last())
}

proof fn lemma_collapsed_is_sanitized(x: Seq<char>)
    requires
        x.len() > 0,
        x[0] != '.' && x.last() != '.',
        !chars::is_space(x[0]) && !chars::is_space(x.last()),
    ensures
        text::trimmed(text::trimmed(x, CharSet::Dot), CharSet::Space) == x,
{
    text::lemma_trimmed_fixed(x, CharSet::Dot);
    text::lemma_trimmed_fixed(x, CharSet::Space);
}

/// Dots, white space and illegal characters around a name are dropped.
pub proof fn law_ends_of_names_are_dropped(s: Seq<char>, c: char)
    requires
        s.len() > 0,
        ends_in_letters(s),
        c == '.' || seq!['/', '\\', ':', '*', '?', '"', '<', '>', '|'].contains(c)
            || chars::is_space(c),
    ensures
        sanitized(s.push(c)) == sanitized(s),
        sanitized(seq![c] + s) == sanitized(s),
{
    let flat = legal(s);
    let x = text::joined(text::words(flat, CharSet::Space), " "@);
    assert(flat[0] == s[0] && flat.last() == s.last());
    text::lemma_collapsed_ends(flat);
    lemma_collapsed_is_sanitized(x);
    let none = Seq::<char>::empty();
    let behind = s.push(c);
    let before = seq![c] + s;
    if c == '.' {
        assert(legal(behind) =~= flat.push('.'));
        assert(legal(before) =~= seq!['.'] + flat);
        lemma_dot_behind(flat);
        lemma_dot_before(flat);
        text::law_trimming_takes_the_ends_off(none, x, seq!['.'], CharSet::Dot);
        text::law_trimming_takes_the_ends_off(seq!['.'], x, none, CharSet::Dot);
        assert(none + x + seq!['.'] =~= x.push('.'));
        assert(seq!['.'] + x + none =~= seq!['.'] + x);
    } else {
        let d = if is_illegal(c) {
            ' '
        } else {
            c
        };
        assert(legal(behind) =~= flat.push(d) + none);
        assert(legal(before) =~= none.push(d) + flat);
        text::law_texts_are_split_at_the_set(flat, d, none, CharSet::Space);
        text::law_texts_are_split_at_the_set(none, d, flat, CharSet::Space);
        let ws = text::words(flat, CharSet::Space);
        assert(ws + Seq::<Seq<char>>::empty() =~= ws);
        assert(Seq::<Seq<char>>::empty() + ws =~= ws);
    }
}

proof fn lemma_dot_behind(flat: Seq<char>)
    requires
        flat.len() > 0,
        !chars::is_space(flat.last()),
    ensures
        text::joined(text::words(flat.push('.'), CharSet::Space), " "@) == text::joined(
            text::words(flat, CharSet::Space),
            " "@,
        ).push('.'),
{
    let dotted = flat.push('.');
    let pieces = text::split(flat, CharSet::Space);
    let longer = text::split(dotted, CharSet::Space);
    assert(dotted.drop_last() =~= flat);
    text::lemma_split_nonempty(flat, CharSet::Space);
    assert(longer == pieces.drop_last().push(pieces.last().push('.')));
    assert(pieces.last().len() > 0);
    let head = text::nonempty(pieces.drop_last());
    reveal(Seq::filter);
    assert(longer.drop_last() =~= pieces.drop_last());
    assert(text::nonempty(longer) =~= head.push(pieces.last().push('.')));
    assert(text::nonempty(pieces) =~= head.push(pieces.last()));
    assert(text::nonempty(longer).drop_last() =~= head);
    assert(text::nonempty(pieces).drop_last() =~= head);
    let x = text::joined(text::nonempty(pieces), " "@);
    let y = text::joined(text::nonempty(longer), " "@);
    assert(y =~= x.push('.'));
}

proof fn lemma_dot_before(flat: Seq<char>)
    requires
        flat.len() > 0,
        !chars::is_space(flat[0]),
    ensures
        text::joined(text::words(seq!['.'] + flat, CharSet::Space), " "@) == seq!['.']
            + text::joined(text::words(flat, CharSet::Space), " "@),
    decreases flat.len(),
{
    let dotted = seq!['.'] + flat;
    if flat.len() == 1 {
        assert(dotted =~= seq!['.', flat[0]]);
        text::law_texts_are_split_at_the_set(dotted, ' ', Seq::empty(), CharSet::Space);
        text::law_texts_are_split_at_the_set(flat, ' ', Seq::empty(), CharSet::Space);
        assert(text::joined(seq![dotted], " "@) == dotted);
        assert(text::joined(seq![flat], " "@) == flat);
    } else {
        lemma_dotted_split(flat);
        let pieces = text::split(flat, CharSet::Space);
        let longer = text::split(dotted, CharSet::Space);
        assert(longer == pieces.update(0, seq!['.'] + pieces[0]));
        let none = Seq::<Seq<char>>::empty();
        assert(pieces =~= seq![pieces[0]] + pieces.skip(1));
        assert(longer =~= seq![longer[0]] + pieces.skip(1));
        text::lemma_nonempty_concat(seq![pieces[0]], pieces.skip(1));
        text::lemma_nonempty_concat(seq![longer[0]], pieces.skip(1));
        reveal(Seq::filter);
        assert(seq![pieces[0]].drop_last() =~= none);
        assert(seq![longer[0]].drop_last() =~= none);
        assert(text::nonempty(none) =~= none);
        assert(text::nonempty(seq![pieces[0]]) =~= seq![pieces[0]]);
        assert(text::nonempty(seq![longer[0]]) =~= seq![longer[0]]);
        let rest = text::nonempty(pieces.skip(1));
        text::law_joining_separates_pieces(seq![pieces[0]], rest, " "@);
        text::law_joining_separates_pieces(seq![longer[0]], rest, " "@);
        if rest.len() == 0 {
            assert(seq![pieces[0]] + rest =~= seq![pieces[0]]);
            assert(seq![longer[0]] + rest =~= seq![longer[0]]);
        }
        assert(text::joined(text::nonempty(longer), " "@) =~= seq!['.'] + text::joined(
            text::nonempty(pieces),
            " "@,
        ));
    }
}

proof fn lemma_dotted_split(flat: Seq<char>)
    requires
        flat.len() > 0,
        !chars::is_space(flat[0]),
    ensures
        text::split(flat, CharSet::Space).len() > 0,
        text::split(flat, CharSet::Space)[0].len() > 0,
        text::split(seq!['.'] + flat, CharSet::Space) == text::split(flat, CharSet::Space).update(
            0,
            seq!['.'] + text::split(flat, CharSet::Space)[0],
        ),
    decreases flat.len(),
{
    let dotted = seq!['.'] + flat;
    let front = flat.drop_last();
    assert(dotted.drop_last() =~= seq!['.'] + front);
    assert(dotted.last() == flat.last());
    let pieces = text::split(flat, CharSet::Space);
    if front.len() == 0 {
        assert(dotted =~= seq!['.', flat[0]]);
        text::law_texts_are_split_at_the_set(dotted, ' ', Seq::empty(), CharSet::Space);
        text::law_texts_are_split_at_the_set(flat, ' ', Seq::empty(), CharSet::Space);
        assert(text::split(dotted, CharSet::Space) =~= pieces.update(0, seq!['.'] + pieces[0]));
    } else {
        lemma_dotted_split(front);
        assert(text::split(dotted, CharSet::Space) =~= pieces.update(0, seq!['.'] + pieces[0]));
    }
}

/// A text with a dot in place of each blank.
pub open spec fn dotted(s: Seq<char>) -> Seq<char> {
    s.map_values(
        |c: char|
            if c == ' ' {
                '.'
            } else {
                c
            },
    )
}

/// In scene style a clean name has a dot in place of each blank and is otherwise
/// as it was; in plain style it is as it was.
pub proof fn law_scene_style_puts_dots_for_blanks(s: Seq<char>)
    requires
        is_legal(s),
        text::spaced_once(s),
        s.len() > 0 ==> s[0] != '.' && s.last() != '.',
    ensures
        styled(s, false, false) == s,
        styled(s, false, true) == dotted(s),
{
    let name = dotted(s);
    reveal_strlit(" ");
    reveal_strlit(".");
    assert(" "@ =~= seq![' ']);
    assert("."@ =~= seq!['.']);
    law_clean_names_are_kept(s);
    lemma_blanks_replaced(s);
    assert(cased(s, false, true) == name);
    assert forall|i: int| 0 <= i < name.len() implies !chars::is_space(#[trigger] name[i])
        && !is_illegal(name[i]) by {
        assert(chars::is_space(s[i]) ==> s[i] == ' ');
    }
    if s.len() > 0 {
        assert(name[0] == s[0]);
        assert(name.last() == s.last());
    }
    law_clean_names_are_kept(name);
    text::lemma_replaced_absent(name, ' ', "."@);
}

proof fn lemma_blanks_replaced(s: Seq<char>)
    ensures
        text::replaced(s, seq![' '], seq!['.']) == dotted(s),
{
    text::lemma_replaced_one(s, ' ', '.');
    assert(text::replaced(s, seq![' '], seq!['.']) =~= dotted(s));
}

/// The parts of a template between slashes are names of their own, one inside
/// the other; a part that comes out empty is passed over.
pub proof fn law_slashes_nest_names(
    a: Seq<char>,
    b: Seq<char>,
    title: Seq<char>,
    year: Option<u32>,
    ext: Seq<char>,
    fields: EpisodeFields,
    lower: bool,
    scene: bool,
)
    ensures
        ({
            let x = rendered_movie(a, title, year, ext, lower, scene);
            let y = rendered_movie(b, title, year, ext, lower, scene);
            let all = rendered_movie(a.push('/') + b, title, year, ext, lower, scene);
            all == nested(x, y)
        }),
        ({
            let x = rendered_episode(a, fields, lower, scene);
            let y = rendered_episode(b, fields, lower, scene);
            let all = rendered_episode(a.push('/') + b, fields, lower, scene);
            all == nested(x, y)
        }),
{
    lemma_nested(a, b, |part: Seq<char>| movie_part(part, title, year, ext, lower, scene));
    lemma_nested(a, b, |part: Seq<char>| episode_part(part, fields, lower, scene));
}

/// A name inside another, or the one of the two that is not empty.
pub open spec fn nested(outer: Seq<char>, inner: Seq<char>) -> Seq<char> {
    if outer.len() == 0 {
        inner
    } else if inner.len() == 0 {
        outer
    } else {
        outer + seq!['/'] + inner
    }
}

proof fn lemma_nested(a: Seq<char>, b: Seq<char>, render: spec_fn(Seq<char>) -> Seq<char>)
    ensures
        rendered_path(text::split(a.push('/') + b, CharSet::Slash), render) == nested(
            rendered_path(text::split(a, CharSet::Slash), render),
            rendered_path(text::split(b, CharSet::Slash), render),
        ),
{
    reveal_strlit("/");
    assert("/"@ =~= seq!['/']);
    text::law_texts_are_split_at_the_set(a, '/', b, CharSet::Slash);
    let x = text::split(a, CharSet::Slash).map_values(render);
    let y = text::split(b, CharSet::Slash).map_values(render);
    let all = text::split(a.push('/') + b, CharSet::Slash).map_values(render);
    assert(all =~= x + y);
    text::lemma_nonempty_concat(x, y);
    let none = |c: char| true;
    assert(text::all_piece_chars(x, none));
    assert(text::all_piece_chars(y, none));
    text::lemma_nonempty_chars(x, none);
    text::lemma_nonempty_chars(y, none);
    let p = text::nonempty(x);
    let q = text::nonempty(y);
    text::law_joining_separates_pieces(p, q, "/"@);
    if p.len() == 0 {
        assert(p + q =~= q);
    } else {
        lemma_joined_is_not_empty(p);
    }
    if q.len() == 0 {
        assert(p + q =~= p);
    } else {
        lemma_joined_is_not_empty(q);
    }
}

proof fn lemma_joined_is_not_empty(pieces: Seq<Seq<char>>)
    requires
        pieces.len() > 0,
        forall|k: int| 0 <= k < pieces.len() ==> (#[trigger] pieces[k]).len() > 0,
    ensures
        text::joined(pieces, "/"@).len() > 0,
{
    reveal_strlit("/");
    assert(pieces[0].len() > 0);
}

/// The fields of a movie or an episode stand for its values: numbers in decimal,
/// season and episodes with two digits at least, a range as its first and its
/// last episode, and the extension behind a dot. The episode alone stands for
/// the range where neither the range nor its end is named in the template.
pub proof fn law_fields_stand_for_their_values(
    template: Seq<char>,
    series: Seq<char>,
    year: u32,
    season: u32,
    first: u32,
    last: u32,
    title: Seq<char>,
    ext: Seq<char>,
)
    requires
        ext.len() > 0,
    ensures
        ({
            let f = field_values(
                template,
                series,
                Some(year),
                season,
                first,
                Some(last),
                title,
                ext,
            );
            let range = number::padded(first as nat, 2) + seq!['-', 'E'] + number::padded(
                last as nat,
                2,
            );
            &&& f.series == series
            &&& f.year == number::decimal(year as nat)
            &&& f.season == number::padded(season as nat, 2)
            &&& f.episode_end == number::padded(last as nat, 2)
            &&& f.episode_range == range
            &&& f.episode_title == title
            &&& f.ext == seq!['.'] + ext
            &&& f.episode == (if (exists|i: int|
                #[trigger] text::occurs_at(template, "{episode_end}"@, i)) || (exists|i: int|
                #[trigger] text::occurs_at(template, "{episode_range}"@, i)) {
                number::padded(first as nat, 2)
            } else {
                range
            })
        }),
        ({
            let f = field_values(template, series, None, season, first, None, title, Seq::empty());
            &&& f.series == series
            &&& f.year == "Unknown"@
            &&& f.season == number::padded(season as nat, 2)
            &&& f.episode == number::padded(first as nat, 2)
            &&& f.episode_end == Seq::<char>::empty()
            &&& f.episode_range == number::padded(first as nat, 2)
            &&& f.episode_title == title
            &&& f.ext == Seq::<char>::empty()
        }),
{
    reveal_strlit("-E");
    reveal_strlit(".");
    assert("-E"@ =~= seq!['-', 'E']);
    assert("."@ =~= seq!['.']);
    text::law_texts_are_found_where_they_stand(template, "{episode_end}"@, Seq::empty());
    text::law_texts_are_found_where_they_stand(template, "{episode_range}"@, Seq::empty());
    if let Some(i) = text::find_from(template, "{episode_end}"@, 0) {
        text::lemma_found_first(template, "{episode_end}"@, 0);
        assert(text::occurs_at(template, "{episode_end}"@, i));
    }
    if let Some(i) = text::find_from(template, "{episode_range}"@, 0) {
        text::lemma_found_first(template, "{episode_range}"@, 0);
        assert(text::occurs_at(template, "{episode_range}"@, i));
    }
}

/// Both ends of a range can be read back from its text, so that two ranges that
/// differ in either end are written differently.
pub proof fn law_ranges_are_read_back(first: u32, last: u32, other_first: u32, other_last: u32)
    ensures
        ({
            let range = range_field(first, Some(last));
            let other = range_field(other_first, Some(other_last));
            let k = number::padded(first as nat, 2).len() as int;
            &&& number::unsigned_value(range.take(k)) == Some(first as nat)
            &&& range[k] == '-'
            &&& range[k + 1] == 'E'
            &&& number::unsigned_value(range.skip(k + 2)) == Some(last as nat)
            &&& range == other ==> first == other_first && last == other_last
            &&& range != range_field(first, None)
        }),
{
    reveal_strlit("-E");
    let a = number::padded(first as nat, 2);
    let b = number::padded(last as nat, 2);
    let c = number::padded(other_first as nat, 2);
    let d = number::padded(other_last as nat, 2);
    number::law_written_numbers_read_back(first as nat, 2);
    number::law_written_numbers_read_back(last as nat, 2);
    number::law_written_numbers_read_back(other_first as nat, 2);
    number::law_written_numbers_read_back(other_last as nat, 2);
    number::lemma_padded_value(first as nat, 2);
    number::lemma_padded_value(other_first as nat, 2);
    let range = range_field(first, Some(last));
    let other = range_field(other_first, Some(other_last));
    assert(range.take(a.len() as int) =~= a);
    assert(range.skip(a.len() as int + 2) =~= b);
    assert(other.take(c.len() as int) =~= c);
    assert(other.skip(c.len() as int + 2) =~= d);
    if range == other {
        if a.len() < c.len() {
            assert(chars::is_digit(c[a.len() as int]));
            assert(other[a.len() as int] == c[a.len() as int]);
        } else if c.len() < a.len() {
            assert(chars::is_digit(a[c.len() as int]));
            assert(range[c.len() as int] == a[c.len() as int]);
        }
    }
    assert(range.len() > a.len());
}

/// Nine characters are illegal in a name, and no others.
pub proof fn law_nine_characters_are_illegal(c: char)
    ensures
        is_illegal(c) <==> seq!['/', '\\', ':', '*', '?', '"', '<', '>', '|'].contains(c),
        is_illegal(c) ==> legal(seq![c]) == seq![' '],
        !is_illegal(c) ==> legal(seq![c]) == seq![c],
{
    let all = seq!['/', '\\', ':', '*', '?', '"', '<', '>', '|'];
    assert(all[0] == '/' && all[1] == '\\' && all[2] == ':' && all[3] == '*' && all[4] == '?');
    assert(all[5] == '"' && all[6] == '<' && all[7] == '>' && all[8] == '|');
    assert(legal(seq![c]) =~= seq![
        if is_illegal(c) {
            ' '
        } else {
            c
        },
    ]);
}

/// In plain style a name is lower-cased where that is asked for, and cleaned; in
/// scene style its blanks become dots before it is cleaned and after.
pub proof fn law_names_are_styled_then_cleaned(s: Seq<char>)
    ensures
        styled(s, false, false) == sanitized(s),
        styled(s, true, false) == sanitized(chars::lower_text(s)),
        styled(s, false, true) == dotted(sanitized(dotted(s))),
        styled(s, true, true) == dotted(sanitized(dotted(chars::lower_text(s)))),
{
    reveal_strlit(" ");
    reveal_strlit(".");
    assert(" "@ =~= seq![' ']);
    assert("."@ =~= seq!['.']);
    lemma_blanks_replaced(s);
    lemma_blanks_replaced(chars::lower_text(s));
    lemma_blanks_replaced(sanitized(dotted(s)));
    lemma_blanks_replaced(sanitized(dotted(chars::lower_text(s))));
}

/// A template without a slash comes to one name: its fields are filled in one
/// kind after the other, the title or the series first and the extension last,
/// and the result is styled.
pub proof fn law_fields_are_filled_in_in_order(
    template: Seq<char>,
    title: Seq<char>,
    year: u32,
    ext: Seq<char>,
    fields: EpisodeFields,
    lower: bool,
    scene: bool,
)
    requires
        forall|i: int| 0 <= i < template.len() ==> #[trigger] template[i] != '/',
    ensures
        rendered_movie(template, title, Some(year), ext, lower, scene) == styled(
            text::replaced(
                text::replaced(
                    text::replaced(template, "{title}"@, title),
                    "{year}"@,
                    number::decimal(year as nat),
                ),
                "{ext}"@,
                if ext.len() == 0 {
                    ext
                } else {
                    seq!['.'] + ext
                },
            ),
            lower,
            scene,
        ),
        ({
            let a = text::replaced(template, "{series}"@, fields.series);
            let b = text::replaced(a, "{year}"@, fields.year);
            let c = text::replaced(b, "{season}"@, fields.season);
            let d = text::replaced(c, "{episode}"@, fields.episode);
            let e = text::replaced(d, "{episode_end}"@, fields.episode_end);
            let f = text::replaced(e, "{episode_range}"@, fields.episode_range);
            let g = text::replaced(f, "{episode_title}"@, fields.episode_title);
            rendered_episode(template, fields, lower, scene) == styled(
                text::replaced(g, "{ext}"@, fields.ext),
                lower,
                scene,
            )
        }),
{
    reveal_strlit(".");
    assert("."@ =~= seq!['.']);
    if ext.len() == 0 {
        assert(ext =~= Seq::empty());
    }
    lemma_single_name(
        template,
        |part: Seq<char>| movie_part(part, title, Some(year), ext, lower, scene),
    );
    lemma_single_name(template, |part: Seq<char>| episode_part(part, fields, lower, scene));
}

} // verus!
