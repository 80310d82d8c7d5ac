//! What lower case leaves alone: where a text is trimmed, split and cleaned does
//! not depend on the case of its letters.
use vstd::prelude::*;

use crate::chars;
use crate::chars::CharSet;
use crate::number;
use crate::parser;
use crate::rename;
use crate::rename::EpisodeFields;
use crate::text;

verus! {

/// A list of texts with their ASCII capitals in lower case.
pub open spec fn lower_all(pieces: Seq<Seq<char>>) -> Seq<Seq<char>> {
    pieces.map_values(|p: Seq<char>| chars::ascii_lower_text(p))
}

pub proof fn lemma_lower_char(c: char)
    ensures
        chars::ascii_lower(chars::ascii_lower(c)) == chars::ascii_lower(c),
        chars::is_ascii_upper(c) ==> chars::is_ascii_lower(chars::ascii_lower(c)),
        !chars::is_ascii_upper(c) ==> chars::ascii_lower(c) == c,
        forall|set: CharSet|
            #![trigger set.contains(c)]
            #![trigger set.contains(chars::ascii_lower(c))]
            set.contains(chars::ascii_lower(c)) == set.contains(c),
        rename::is_illegal(chars::ascii_lower(c)) == rename::is_illegal(c),
{
    if chars::is_ascii_upper(c) {
        let d = chars::ascii_lower(c);
        assert(d as int == c as int + 32);
    }
}

pub proof fn lemma_lower_trimmed_start(s: Seq<char>, set: CharSet)
    ensures
        text::trimmed_start(chars::ascii_lower_text(s), set) == chars::ascii_lower_text(
            text::trimmed_start(s, set),
        ),
    decreases s.len(),
{
    let low = chars::ascii_lower_text(s);
    if s.len() > 0 {
        lemma_lower_char(s[0]);
        assert(low[0] == chars::ascii_lower(s[0]));
        if set.contains(s[0]) {
            lemma_lower_trimmed_start(s.skip(1), set);
            assert(low.skip(1) =~= chars::ascii_lower_text(s.skip(1)));
        }
    }
}

pub proof fn lemma_lower_trimmed_end(s: Seq<char>, set: CharSet)
    ensures
        text::trimmed_end(chars::ascii_lower_text(s), set) == chars::ascii_lower_text(
            text::trimmed_end(s, set),
        ),
    decreases s.len(),
{
    let low = chars::ascii_lower_text(s);
    if s.len() > 0 {
        lemma_lower_char(s.last());
        assert(low.last() == chars::ascii_lower(s.last()));
        if set.contains(s.last()) {
            lemma_lower_trimmed_end(s.drop_last(), set);
            assert(low.drop_last() =~= chars::ascii_lower_text(s.drop_last()));
        }
    }
}

pub proof fn lemma_lower_trimmed(s: Seq<char>, set: CharSet)
    ensures
        text::trimmed(chars::ascii_lower_text(s), set) == chars::ascii_lower_text(
            text::trimmed(s, set),
        ),
{
    lemma_lower_trimmed_start(s, set);
    lemma_lower_trimmed_end(text::trimmed_start(s, set), set);
}

pub proof fn lemma_lower_split(s: Seq<char>, set: CharSet)
    ensures
        text::split(chars::ascii_lower_text(s), set) == lower_all(text::split(s, set)),
    decreases s.len(),
{
    let low = chars::ascii_lower_text(s);
    if s.len() == 0 {
        assert(chars::ascii_lower_text(Seq::empty()) =~= Seq::empty());
        assert(text::split(low, set) =~= lower_all(text::split(s, set)));
    } else {
        let front = s.drop_last();
        lemma_lower_char(s.last());
        lemma_lower_split(front, set);
        text::lemma_split_nonempty(front, set);
        assert(low.drop_last() =~= chars::ascii_lower_text(front));
        assert(low.last() == chars::ascii_lower(s.last()));
        assert(chars::ascii_lower_text(Seq::empty()) =~= Seq::empty());
        let pieces = text::split(front, set);
        assert(chars::ascii_lower_text(pieces.last().push(s.last())) =~= chars::ascii_lower_text(
            pieces.last(),
        ).push(chars::ascii_lower(s.last())));
        assert(text::split(low, set) =~= lower_all(text::split(s, set)));
    }
}

pub proof fn lemma_lower_nonempty(pieces: Seq<Seq<char>>)
    ensures
        text::nonempty(lower_all(pieces)) == lower_all(text::nonempty(pieces)),
    decreases pieces.len(),
{
    reveal(Seq::filter);
    if pieces.len() == 0 {
        assert(lower_all(pieces) =~= pieces);
        assert(text::nonempty(pieces) =~= Seq::empty());
        assert(lower_all(Seq::empty()) =~= Seq::empty());
    } else {
        let front = pieces.drop_last();
        lemma_lower_nonempty(front);
        assert(lower_all(pieces).drop_last() =~= lower_all(front));
        assert(lower_all(pieces).last() == chars::ascii_lower_text(pieces.last()));
        assert(text::nonempty(lower_all(pieces)) =~= lower_all(text::nonempty(pieces)));
    }
}

pub proof fn lemma_lower_joined(pieces: Seq<Seq<char>>, sep: Seq<char>)
    requires
        chars::ascii_lower_text(sep) == sep,
    ensures
        text::joined(lower_all(pieces), sep) == chars::ascii_lower_text(
            text::joined(pieces, sep),
        ),
    decreases pieces.len(),
{
    let low = lower_all(pieces);
    if pieces.len() == 0 {
        assert(text::joined(low, sep) =~= chars::ascii_lower_text(text::joined(pieces, sep)));
    } else if pieces.len() > 1 {
        lemma_lower_joined(pieces.drop_last(), sep);
        assert(low.drop_last() =~= lower_all(pieces.drop_last()));
        assert(low.last() == chars::ascii_lower_text(pieces.last()));
        let head = text::joined(pieces.drop_last(), sep);
        assert(chars::ascii_lower_text(head + sep + pieces.last()) =~= chars::ascii_lower_text(head)
            + chars::ascii_lower_text(sep) + chars::ascii_lower_text(pieces.last()));
    }
}

pub proof fn lemma_lower_dotted(s: Seq<char>)
    ensures
        text::replaced(chars::ascii_lower_text(s), " "@, "."@) == chars::ascii_lower_text(
            text::replaced(s, " "@, "."@),
        ),
    decreases s.len(),
{
    reveal_strlit(" ");
    reveal_strlit(".");
    let low = chars::ascii_lower_text(s);
    if s.len() > 0 {
        lemma_lower_char(s[0]);
        lemma_lower_dotted(s.skip(1));
        assert(low.skip(1) =~= chars::ascii_lower_text(s.skip(1)));
        assert(low[0] == chars::ascii_lower(s[0]));
        let rest = text::replaced(s.skip(1), " "@, "."@);
        let head = if s[0] == ' ' {
            "."@
        } else {
            seq![s[0]]
        };
        assert(s[0] == ' ' <==> low[0] == ' ') by {
            assert(CharSet::Blank.contains(s[0]) == CharSet::Blank.contains(low[0]));
        }
        assert(s[0] == ' ' ==> s.take(1) =~= " "@);
        assert(low[0] == ' ' ==> low.take(1) =~= " "@);
        assert(s[0] != ' ' ==> s.take(1)[0] != " "@[0]);
        assert(low[0] != ' ' ==> low.take(1)[0] != " "@[0]);
        assert(text::replaced(s, " "@, "."@) == head + rest);
        assert(text::replaced(low, " "@, "."@) =~= chars::ascii_lower_text(head)
            + chars::ascii_lower_text(rest));
        assert(chars::ascii_lower_text(head + rest) =~= chars::ascii_lower_text(head)
            + chars::ascii_lower_text(rest));
    }
}

pub proof fn lemma_lower_sanitized(s: Seq<char>)
    ensures
        rename::sanitized(chars::ascii_lower_text(s)) == chars::ascii_lower_text(
            rename::sanitized(s),
        ),
{
    let low = chars::ascii_lower_text(s);
    assert(rename::legal(low) =~= chars::ascii_lower_text(rename::legal(s))) by {
        assert forall|i: int| 0 <= i < s.len() implies rename::legal(low)[i]
            == chars::ascii_lower_text(rename::legal(s))[i] by {
            lemma_lower_char(s[i]);
            lemma_lower_char(' ');
        }
    }
    reveal_strlit(" ");
    lemma_lower_char(' ');
    assert(chars::ascii_lower_text(" "@) =~= " "@);
    let flat = rename::legal(s);
    lemma_lower_split(flat, CharSet::Space);
    lemma_lower_nonempty(text::split(flat, CharSet::Space));
    lemma_lower_joined(text::words(flat, CharSet::Space), " "@);
    let collapsed = text::joined(text::words(flat, CharSet::Space), " "@);
    lemma_lower_trimmed(collapsed, CharSet::Dot);
    lemma_lower_trimmed(text::trimmed(collapsed, CharSet::Dot), CharSet::Space);
}

proof fn lemma_lower_styled(s: Seq<char>, scene: bool)
    requires
        chars::is_ascii_text(s),
    ensures
        rename::styled(s, true, scene) == chars::ascii_lower_text(
            rename::styled(s, false, scene),
        ),
{
    let dotted = rename::cased(s, false, scene);
    lemma_lower_dotted(s);
    assert(rename::cased(s, true, scene) == chars::ascii_lower_text(dotted));
    lemma_lower_sanitized(dotted);
    lemma_lower_dotted(rename::sanitized(dotted));
}

proof fn lemma_lower_path(
    parts: Seq<Seq<char>>,
    upper: spec_fn(Seq<char>) -> Seq<char>,
    lower: spec_fn(Seq<char>) -> Seq<char>,
)
    requires
        forall|k: int|
            0 <= k < parts.len() ==> lower(#[trigger] parts[k]) == chars::ascii_lower_text(
                upper(parts[k]),
            ),
    ensures
        rename::rendered_path(parts, lower) == chars::ascii_lower_text(
            rename::rendered_path(parts, upper),
        ),
{
    let names = parts.map_values(upper);
    assert(parts.map_values(lower) =~= lower_all(names));
    lemma_lower_nonempty(names);
    reveal_strlit("/");
    lemma_lower_char('/');
    assert(chars::ascii_lower_text("/"@) =~= "/"@);
    lemma_lower_joined(text::nonempty(names), "/"@);
}

proof fn lemma_ascii_filled(s: Seq<char>, from: Seq<char>, to: Seq<char>)
    requires
        chars::is_ascii_text(s),
        chars::is_ascii_text(to),
    ensures
        chars::is_ascii_text(text::replaced(s, from, to)),
{
    let p = |c: char| chars::is_ascii_char(c);
    text::lemma_replaced_chars(s, from, to, p);
    let out = text::replaced(s, from, to);
    assert forall|i: int| 0 <= i < out.len() implies chars::is_ascii_char(#[trigger] out[i]) by {
        assert(p(out[i]));
    }
}

proof fn lemma_ascii_parts(template: Seq<char>)
    requires
        chars::is_ascii_text(template),
    ensures
        forall|k: int|
            0 <= k < text::split(template, CharSet::Slash).len() ==> chars::is_ascii_text(
                #[trigger] text::split(template, CharSet::Slash)[k],
            ),
{
    let p = |c: char| chars::is_ascii_char(c);
    text::lemma_split_chars(template, CharSet::Slash, p);
    let parts = text::split(template, CharSet::Slash);
    assert forall|k: int| 0 <= k < parts.len() implies chars::is_ascii_text(
        #[trigger] parts[k],
    ) by {
        assert(text::all_chars(parts[k], p));
        assert forall|i: int| 0 <= i < parts[k].len() implies chars::is_ascii_char(
            #[trigger] parts[k][i],
        ) by {
            assert(p(parts[k][i]));
        }
    }
}

proof fn lemma_ascii_digits(s: Seq<char>)
    requires
        number::all_digits(s),
    ensures
        chars::is_ascii_text(s),
{
    assert forall|i: int| 0 <= i < s.len() implies chars::is_ascii_char(#[trigger] s[i]) by {
        assert(chars::is_digit(s[i]));
    }
}

proof fn lemma_ascii_fields(
    year: Option<u32>,
    season: u32,
    episode: u32,
    episode_end: Option<u32>,
    ext: Seq<char>,
)
    requires
        chars::is_ascii_text(ext),
    ensures
        chars::is_ascii_text(rename::year_field(year)),
        chars::is_ascii_text(rename::ext_field(ext)),
        chars::is_ascii_text(number::padded(season as nat, 2)),
        chars::is_ascii_text(number::padded(episode as nat, 2)),
        chars::is_ascii_text(rename::range_field(episode, episode_end)),
        chars::is_ascii_text(rename::end_field(episode_end)),
{
    reveal_strlit("Unknown");
    reveal_strlit(".");
    reveal_strlit("-E");
    number::lemma_padded_value(season as nat, 2);
    number::lemma_padded_value(episode as nat, 2);
    lemma_ascii_digits(number::padded(season as nat, 2));
    lemma_ascii_digits(number::padded(episode as nat, 2));
    if let Some(y) = year {
        number::lemma_decimal_value(y as nat);
        lemma_ascii_digits(number::decimal(y as nat));
    }
    if let Some(end) = episode_end {
        number::lemma_padded_value(end as nat, 2);
        lemma_ascii_digits(number::padded(end as nat, 2));
    }
}

/// On ASCII texts, asking for lower case gives the lower case of the movie
/// destination that comes without it: the whole of it, and nothing else changes.
pub proof fn law_lower_case_movies(
    template: Seq<char>,
    title: Seq<char>,
    year: Option<u32>,
    ext: Seq<char>,
    scene: bool,
)
    requires
        chars::is_ascii_text(template),
        chars::is_ascii_text(title),
        chars::is_ascii_text(ext),
    ensures
        rename::rendered_movie(template, title, year, ext, true, scene) == chars::ascii_lower_text(
            rename::rendered_movie(template, title, year, ext, false, scene),
        ),
{
    let parts = text::split(template, CharSet::Slash);
    let upper = |part: Seq<char>| rename::movie_part(part, title, year, ext, false, scene);
    let lower = |part: Seq<char>| rename::movie_part(part, title, year, ext, true, scene);
    lemma_ascii_parts(template);
    lemma_ascii_fields(year, 0, 0, None, ext);
    assert forall|k: int| 0 <= k < parts.len() implies lower(#[trigger] parts[k])
        == chars::ascii_lower_text(upper(parts[k])) by {
        let titled = text::replaced(parts[k], "{title}"@, title);
        let dated = text::replaced(titled, "{year}"@, rename::year_field(year));
        lemma_ascii_filled(parts[k], "{title}"@, title);
        lemma_ascii_filled(titled, "{year}"@, rename::year_field(year));
        lemma_ascii_filled(dated, "{ext}"@, rename::ext_field(ext));
        lemma_lower_styled(rename::filled_movie_part(parts[k], title, year, ext), scene);
    }
    lemma_lower_path(parts, upper, lower);
}

/// On ASCII texts, asking for lower case gives the lower case of the episode
/// destination that comes without it: the whole of it, and nothing else changes.
pub proof fn law_lower_case_episodes(
    template: Seq<char>,
    series: Seq<char>,
    year: Option<u32>,
    season: u32,
    episode: u32,
    episode_end: Option<u32>,
    title: Seq<char>,
    ext: Seq<char>,
    scene: bool,
)
    requires
        chars::is_ascii_text(template),
        chars::is_ascii_text(series),
        chars::is_ascii_text(title),
        chars::is_ascii_text(ext),
    ensures
        ({
            let fields = rename::field_values(
                template,
                series,
                year,
                season,
                episode,
                episode_end,
                title,
                ext,
            );
            rename::rendered_episode(template, fields, true, scene) == chars::ascii_lower_text(
                rename::rendered_episode(template, fields, false, scene),
            )
        }),
{
    let fields = rename::field_values(
        template,
        series,
        year,
        season,
        episode,
        episode_end,
        title,
        ext,
    );
    let parts = text::split(template, CharSet::Slash);
    let upper = |part: Seq<char>| rename::episode_part(part, fields, false, scene);
    let lower = |part: Seq<char>| rename::episode_part(part, fields, true, scene);
    lemma_ascii_parts(template);
    lemma_ascii_fields(year, season, episode, episode_end, ext);
    assert forall|k: int| 0 <= k < parts.len() implies lower(#[trigger] parts[k])
        == chars::ascii_lower_text(upper(parts[k])) by {
        lemma_ascii_filled_part(parts[k], fields);
        lemma_lower_styled(rename::filled_part(parts[k], fields), scene);
    }
    lemma_lower_path(parts, upper, lower);
}

proof fn lemma_ascii_filled_part(part: Seq<char>, fields: EpisodeFields)
    requires
        chars::is_ascii_text(part),
        chars::is_ascii_text(fields.series),
        chars::is_ascii_text(fields.year),
        chars::is_ascii_text(fields.season),
        chars::is_ascii_text(fields.episode),
        chars::is_ascii_text(fields.episode_end),
        chars::is_ascii_text(fields.episode_range),
        chars::is_ascii_text(fields.episode_title),
        chars::is_ascii_text(fields.ext),
    ensures
        chars::is_ascii_text(rename::filled_part(part, fields)),
{
    let a = text::replaced(part, "{series}"@, fields.series);
    let b = text::replaced(a, "{year}"@, fields.year);
    let c = text::replaced(b, "{season}"@, fields.season);
    let d = text::replaced(c, "{episode}"@, fields.episode);
    let e = text::replaced(d, "{episode_end}"@, fields.episode_end);
    let f = text::replaced(e, "{episode_range}"@, fields.episode_range);
    let g = text::replaced(f, "{episode_title}"@, fields.episode_title);
    lemma_ascii_filled(part, "{series}"@, fields.series);
    lemma_ascii_filled(a, "{year}"@, fields.year);
    lemma_ascii_filled(b, "{season}"@, fields.season);
    lemma_ascii_filled(c, "{episode}"@, fields.episode);
    lemma_ascii_filled(d, "{episode_end}"@, fields.episode_end);
    lemma_ascii_filled(e, "{episode_range}"@, fields.episode_range);
    lemma_ascii_filled(f, "{episode_title}"@, fields.episode_title);
    lemma_ascii_filled(g, "{ext}"@, fields.ext);
}

/// A title without the white space and the padding around it.
pub open spec fn title_core(raw: Seq<char>) -> Seq<char> {
    text::trimmed(text::trimmed(raw, CharSet::Space), CharSet::Padding)
}

proof fn lemma_upper_char(c: char)
    ensures
        chars::ascii_lower(chars::ascii_upper(c)) == chars::ascii_lower(c),
        chars::ascii_upper(chars::ascii_upper(c)) == chars::ascii_upper(c),
        chars::ascii_upper(c) == ' ' <==> c == ' ',
        chars::is_ascii_char(c) ==> chars::is_ascii_char(chars::ascii_upper(c)),
        chars::is_ascii_char(c) ==> chars::is_ascii_char(chars::ascii_lower(c)),
        chars::ascii_lower(c) == ' ' <==> c == ' ',
{
    if chars::is_ascii_lower(c) {
        let d = chars::ascii_upper(c);
        assert(d as int == c as int - 32);
        assert(chars::is_ascii_upper(d));
        assert(chars::ascii_lower(d) as int == d as int + 32);
    }
    if chars::is_ascii_upper(c) {
        let d = chars::ascii_lower(c);
        assert(d as int == c as int + 32);
    }
}

proof fn lemma_title_word(w: Seq<char>)
    requires
        chars::is_ascii_text(w),
    ensures
        parser::title_word(w).len() == w.len(),
        chars::is_ascii_text(parser::title_word(w)),
        chars::ascii_lower_text(parser::title_word(w)) == chars::ascii_lower_text(w),
        parser::title_word(parser::title_word(w)) == parser::title_word(w),
        forall|i: int|
            0 <= i < w.len() ==> (#[trigger] parser::title_word(w)[i] == ' ' <==> w[i] == ' '),
{
    let t = parser::title_word(w);
    if !(parser::has_upper(w) && parser::has_lower(w)) && w.len() > 0 {
        let rest = w.skip(1);
        assert(chars::is_ascii_text(rest)) by {
            assert forall|i: int| 0 <= i < rest.len() implies chars::is_ascii_char(
                #[trigger] rest[i],
            ) by {
                assert(rest[i] == w[i + 1]);
            }
        }
        assert(chars::is_ascii_char(w[0]));
        assert(t =~= seq![chars::ascii_upper(w[0])] + chars::ascii_lower_text(rest));
        assert forall|i: int| 0 <= i < w.len() implies chars::ascii_lower(#[trigger] t[i])
            == chars::ascii_lower(w[i]) && chars::is_ascii_char(t[i]) && (t[i] == ' ' <==> w[i]
            == ' ') by {
            lemma_upper_char(w[i]);
            lemma_lower_char(w[i]);
            assert(chars::is_ascii_char(w[i]));
            if i > 0 {
                assert(t[i] == chars::ascii_lower(rest[i - 1]));
            }
        }
        assert(chars::ascii_lower_text(t) =~= chars::ascii_lower_text(w));
        let again = chars::capitalized(t);
        assert(again =~= t) by {
            assert(chars::is_ascii_char(t[0]));
            assert(chars::is_ascii_text(t.skip(1))) by {
                assert forall|i: int| 0 <= i < t.skip(1).len() implies chars::is_ascii_char(
                    #[trigger] t.skip(1)[i],
                ) by {
                    assert(t.skip(1)[i] == t[i + 1]);
                }
            }
            lemma_upper_char(w[0]);
            assert forall|i: int| 0 <= i < t.len() implies again[i] == #[trigger] t[i] by {
                if i > 0 {
                    lemma_lower_char(rest[i - 1]);
                    assert(again[i] == chars::ascii_lower(t.skip(1)[i - 1]));
                    assert(t[i] == chars::ascii_lower(rest[i - 1]));
                }
            }
        }
    }
}

proof fn lemma_trimmed_in_either_case(a: Seq<char>, b: Seq<char>, set: CharSet)
    requires
        chars::ascii_lower_text(a) == chars::ascii_lower_text(b),
        text::trimmed(b, set) == b,
    ensures
        text::trimmed(a, set) == a,
{
    lemma_lower_trimmed(a, set);
    lemma_lower_trimmed(b, set);
    assert(chars::ascii_lower_text(text::trimmed(a, set)).len() == text::trimmed(a, set).len());
    assert(chars::ascii_lower_text(a).len() == a.len());
    text::lemma_trimmed(a, set);
    let (i, j) = choose|i: int, j: int|
        0 <= i <= j <= a.len() && text::trimmed(a, set) == #[trigger] a.subrange(i, j);
    assert(a.subrange(i, j) =~= a);
}

proof fn lemma_title_words(pieces: Seq<Seq<char>>)
    requires
        forall|k: int| 0 <= k < pieces.len() ==> chars::is_ascii_text(#[trigger] pieces[k]),
        text::all_piece_chars(pieces, |c: char| !CharSet::Blank.contains(c)),
    ensures
        text::all_piece_chars(
            parser::title_words(pieces),
            |c: char| !CharSet::Blank.contains(c),
        ),
        parser::title_words(parser::title_words(pieces)) == parser::title_words(pieces),
{
    let words = parser::title_words(pieces);
    let blank_free = |c: char| !CharSet::Blank.contains(c);
    assert(text::all_piece_chars(words, blank_free)) by {
        assert forall|k: int| 0 <= k < words.len() implies text::all_chars(
            #[trigger] words[k],
            blank_free,
        ) by {
            lemma_title_word(pieces[k]);
            assert(text::all_chars(pieces[k], blank_free));
            assert forall|i: int| 0 <= i < words[k].len() implies blank_free(
                #[trigger] words[k][i],
            ) by {
                assert(words[k][i] == parser::title_word(pieces[k])[i]);
                assert(blank_free(pieces[k][i]));
            }
        }
    }
    assert(parser::title_words(words) =~= words) by {
        assert forall|k: int| 0 <= k < words.len() implies parser::title_words(words)[k]
            == words[k] by {
            lemma_title_word(pieces[k]);
        }
    }
}

/// The pieces of a title as it is cleaned.
spec fn core_pieces(raw: Seq<char>) -> Seq<Seq<char>> {
    text::split(title_core(raw), CharSet::Blank)
}

proof fn lemma_core_pieces(raw: Seq<char>)
    requires
        chars::is_ascii_text(raw),
    ensures
        core_pieces(raw).len() > 0,
        forall|k: int|
            0 <= k < core_pieces(raw).len() ==> chars::is_ascii_text(
                #[trigger] core_pieces(raw)[k],
            ),
        text::all_piece_chars(core_pieces(raw), |c: char| !CharSet::Blank.contains(c)),
        text::joined(core_pieces(raw), seq![' ']) == title_core(raw),
{
    let p = |c: char| chars::is_ascii_char(c);
    let pieces = core_pieces(raw);
    text::lemma_trimmed_chars(raw, CharSet::Space, p);
    text::lemma_trimmed_chars(text::trimmed(raw, CharSet::Space), CharSet::Padding, p);
    text::lemma_split_chars(title_core(raw), CharSet::Blank, p);
    text::lemma_split_rejoins(title_core(raw), CharSet::Blank, ' ');
    assert forall|k: int| 0 <= k < pieces.len() implies chars::is_ascii_text(
        #[trigger] pieces[k],
    ) by {
        assert(text::all_chars(pieces[k], p));
        assert forall|i: int| 0 <= i < pieces[k].len() implies chars::is_ascii_char(
            #[trigger] pieces[k][i],
        ) by {
            assert(p(pieces[k][i]));
        }
    }
}

/// On ASCII text, cleaning a title changes nothing but the case of its letters
/// between the ends that are trimmed.
pub proof fn law_cleaned_titles_change_in_case_only(raw: Seq<char>)
    requires
        chars::is_ascii_text(raw),
    ensures
        chars::ascii_lower_text(parser::cleaned_title(raw)) == chars::ascii_lower_text(
            title_core(raw),
        ),
        parser::cleaned_title(raw).len() == title_core(raw).len(),
        (forall|i: int| 0 <= i < raw.len() && chars::is_space(#[trigger] raw[i]) ==> raw[i] == ' ')
            ==> title_core(raw) == text::trimmed(raw, CharSet::Padding),
{
    let pieces = core_pieces(raw);
    let words = parser::title_words(pieces);
    lemma_core_pieces(raw);
    reveal_strlit(" ");
    assert(" "@ =~= seq![' ']);
    lemma_lower_char(' ');
    assert(chars::ascii_lower_text(seq![' ']) =~= seq![' ']);
    assert(lower_all(words) =~= lower_all(pieces)) by {
        assert forall|k: int| 0 <= k < pieces.len() implies lower_all(words)[k] == lower_all(
            pieces,
        )[k] by {
            lemma_title_word(pieces[k]);
        }
    }
    lemma_lower_joined(words, seq![' ']);
    lemma_lower_joined(pieces, seq![' ']);
    let cleaned = parser::cleaned_title(raw);
    assert(cleaned == text::joined(words, seq![' ']));
    assert(chars::ascii_lower_text(cleaned).len() == cleaned.len());
    assert(chars::ascii_lower_text(title_core(raw)).len() == title_core(raw).len());
    if forall|i: int| 0 <= i < raw.len() && chars::is_space(#[trigger] raw[i]) ==> raw[i] == ' ' {
        assert forall|i: int|
            0 <= i < raw.len() && CharSet::Space.contains(#[trigger] raw[i]) implies
            CharSet::Padding.contains(raw[i]) by {
            assert(chars::is_space(raw[i]));
        }
        text::lemma_trimmed_after_trimmed(raw, CharSet::Space, CharSet::Padding);
    }
}

/// Cleaning a title twice is cleaning it once, on ASCII text whose trimmed title
/// has no white space at its ends.
pub proof fn law_cleaning_titles_twice_is_cleaning_once(raw: Seq<char>)
    requires
        chars::is_ascii_text(raw),
        text::trimmed(title_core(raw), CharSet::Space) == title_core(raw),
    ensures
        parser::cleaned_title(parser::cleaned_title(raw)) == parser::cleaned_title(raw),
{
    let core = title_core(raw);
    let pieces = core_pieces(raw);
    let words = parser::title_words(pieces);
    let cleaned = parser::cleaned_title(raw);
    lemma_core_pieces(raw);
    law_cleaned_titles_change_in_case_only(raw);
    reveal_strlit(" ");
    assert(" "@ =~= seq![' ']);
    let spaced = text::trimmed(raw, CharSet::Space);
    text::lemma_trimmed(spaced, CharSet::Padding);
    text::lemma_trimmed_fixed(core, CharSet::Padding);
    lemma_trimmed_in_either_case(cleaned, core, CharSet::Space);
    lemma_trimmed_in_either_case(cleaned, core, CharSet::Padding);
    assert(title_core(cleaned) == cleaned);
    lemma_title_words(pieces);
    text::lemma_split_joined(words, CharSet::Blank, ' ');
}

} // verus!
