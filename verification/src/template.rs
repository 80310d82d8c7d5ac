//! What templates come to: literal text and fields, one after the other.
use vstd::prelude::*;

use crate::chars;
use crate::chars::CharSet;
use crate::cli::{DEFAULT_FORMAT_EPISODE, DEFAULT_FORMAT_MOVIE};
use crate::model;
use crate::number;
use crate::rename;
use crate::rename::EpisodeFields;
use crate::text;

verus! {

/// A piece of a template.
pub enum Piece {
    Text(Seq<char>),
    /// A field by its name.
    Field(Seq<char>),
}

/// A field as it stands in a template.
pub open spec fn braced(name: Seq<char>) -> Seq<char> {
    seq!['{'] + name + seq!['}']
}

/// A piece as it stands in a template.
pub open spec fn piece_text(p: Piece) -> Seq<char> {
    match p {
        Piece::Text(t) => t,
        Piece::Field(name) => braced(name),
    }
}

/// A template as it is written.
pub open spec fn written(pieces: Seq<Piece>) -> Seq<char>
    decreases pieces.len(),
{
    if pieces.len() == 0 {
        Seq::empty()
    } else {
        piece_text(pieces[0]) + written(pieces.skip(1))
    }
}

/// Whether a text holds no brace.
pub open spec fn is_plain(s: Seq<char>) -> bool {
    forall|i: int| 0 <= i < s.len() ==> #[trigger] s[i] != '{' && s[i] != '}'
}

/// Whether a text begins no field.
pub open spec fn is_literal(s: Seq<char>) -> bool {
    forall|i: int| 0 <= i < s.len() ==> #[trigger] s[i] != '{'
}

/// Whether the opening braces of a template stand around its fields only.
pub open spec fn is_well_formed(pieces: Seq<Piece>) -> bool {
    forall|i: int|
        0 <= i < pieces.len() ==> match #[trigger] pieces[i] {
            Piece::Text(t) => is_literal(t),
            Piece::Field(name) => is_plain(name),
        }
}

/// A piece with a field filled in.
pub open spec fn filled_piece(p: Piece, name: Seq<char>, value: Seq<char>) -> Piece {
    if p == Piece::Field(name) {
        Piece::Text(value)
    } else {
        p
    }
}

/// A template with a field filled in wherever it stands.
pub open spec fn filled(pieces: Seq<Piece>, name: Seq<char>, value: Seq<char>) -> Seq<Piece> {
    pieces.map_values(|p: Piece| filled_piece(p, name, value))
}

proof fn lemma_replaced_behind(a: Seq<char>, rest: Seq<char>, from: Seq<char>, to: Seq<char>)
    requires
        from.len() > 0,
        forall|i: int| 0 <= i < a.len() ==> #[trigger] a[i] != from[0],
    ensures
        text::replaced(a + rest, from, to) == a + text::replaced(rest, from, to),
    decreases a.len(),
{
    if a.len() == 0 {
        assert(a + rest =~= rest);
        assert(a + text::replaced(rest, from, to) =~= text::replaced(rest, from, to));
    } else {
        let all = a + rest;
        let tail = a.skip(1);
        assert forall|i: int| 0 <= i < tail.len() implies #[trigger] tail[i] != from[0] by {
            assert(tail[i] == a[i + 1]);
        }
        lemma_replaced_behind(tail, rest, from, to);
        assert(all.skip(1) =~= tail + rest);
        assert(all[0] == a[0]);
        if all.len() >= from.len() {
            assert(all.take(from.len() as int)[0] == a[0]);
            assert(text::replaced(all, from, to) =~= a + text::replaced(rest, from, to));
        } else {
            assert(text::replaced(rest, from, to) == rest);
        }
    }
}

proof fn lemma_replaced_field(
    name: Seq<char>,
    rest: Seq<char>,
    field: Seq<char>,
    to: Seq<char>,
)
    requires
        is_plain(name),
        is_plain(field),
    ensures
        text::replaced(braced(name) + rest, braced(field), to) == (if name == field {
            to + text::replaced(rest, braced(field), to)
        } else {
            braced(name) + text::replaced(rest, braced(field), to)
        }),
{
    let all = braced(name) + rest;
    let from = braced(field);
    if name == field {
        assert(all.take(from.len() as int) =~= from);
        assert(all.skip(from.len() as int) =~= rest);
    } else {
        let tail = name + seq!['}'];
        assert forall|i: int| 0 <= i < tail.len() implies #[trigger] tail[i] != from[0] by {
            if i < name.len() {
                assert(tail[i] == name[i]);
            }
        }
        lemma_replaced_behind(tail, rest, from, to);
        assert(all.skip(1) =~= tail + rest);
        assert(braced(name) =~= seq!['{'] + tail);
        if all.len() >= from.len() {
            assert(all.take(from.len() as int) != from) by {
                let head = all.take(from.len() as int);
                if head == from {
                    let n = name.len() as int + 1;
                    let m = field.len() as int + 1;
                    assert(all[n] == '}' && from[m] == '}');
                    if n < m {
                        assert(head[n] == from[n]);
                        assert(from[n] == field[n - 1]);
                    } else if m < n {
                        assert(head[m] == from[m]);
                        assert(all[m] == name[m - 1]);
                    } else {
                        assert forall|i: int| 0 <= i < name.len() implies name[i] == field[i] by {
                            assert(head[i + 1] == from[i + 1]);
                            assert(all[i + 1] == name[i]);
                            assert(from[i + 1] == field[i]);
                        }
                        assert(name =~= field);
                    }
                }
            }
            assert(text::replaced(all, from, to) =~= braced(name) + text::replaced(rest, from, to));
        } else {
            assert(text::replaced(rest, from, to) == rest);
        }
    }
}

/// Replacing the text of a field in a template fills that field in, and changes
/// nothing else.
pub proof fn law_fields_are_filled_in(pieces: Seq<Piece>, name: Seq<char>, value: Seq<char>)
    requires
        is_well_formed(pieces),
        is_plain(name),
    ensures
        text::replaced(written(pieces), braced(name), value) == written(
            filled(pieces, name, value),
        ),
    decreases pieces.len(),
{
    let from = braced(name);
    let after = filled(pieces, name, value);
    if pieces.len() == 0 {
        assert(after =~= Seq::empty());
        assert(text::replaced(Seq::empty(), from, value) == Seq::<char>::empty());
    } else {
        let rest = pieces.skip(1);
        assert(is_well_formed(rest)) by {
            assert forall|i: int| 0 <= i < rest.len() implies match #[trigger] rest[i] {
                Piece::Text(t) => is_literal(t),
                Piece::Field(n) => is_plain(n),
            } by {
                assert(rest[i] == pieces[i + 1]);
            }
        }
        law_fields_are_filled_in(rest, name, value);
        assert(after.skip(1) =~= filled(rest, name, value));
        assert(after[0] == filled_piece(pieces[0], name, value));
        match pieces[0] {
            Piece::Text(t) => {
                assert(from[0] == '{');
                assert(is_literal(t));
                lemma_replaced_behind(t, written(rest), from, value);
            },
            Piece::Field(n) => {
                assert(is_plain(n));
                lemma_replaced_field(n, written(rest), name, value);
            },
        }
    }
}

proof fn lemma_filled_well_formed(pieces: Seq<Piece>, name: Seq<char>, value: Seq<char>)
    requires
        is_well_formed(pieces),
        is_literal(value),
    ensures
        is_well_formed(filled(pieces, name, value)),
{
    let after = filled(pieces, name, value);
    assert forall|i: int| 0 <= i < after.len() implies match #[trigger] after[i] {
        Piece::Text(t) => is_literal(t),
        Piece::Field(n) => is_plain(n),
    } by {
        assert(after[i] == filled_piece(pieces[i], name, value));
        assert(match pieces[i] {
            Piece::Text(t) => is_literal(t),
            Piece::Field(n) => is_plain(n),
        });
    }
}

/// A movie template with its fields filled in one after the other.
pub open spec fn filled_movie(
    pieces: Seq<Piece>,
    title: Seq<char>,
    year: Option<u32>,
    ext: Seq<char>,
) -> Seq<Piece> {
    let a = filled(pieces, "title"@, title);
    let b = filled(a, "year"@, rename::year_field(year));
    filled(b, "ext"@, rename::ext_field(ext))
}

proof fn lemma_plain_digits(s: Seq<char>)
    requires
        number::all_digits(s),
    ensures
        is_literal(s),
{
    assert forall|i: int| 0 <= i < s.len() implies #[trigger] s[i] != '{' by {
        assert(chars::is_digit(s[i]));
    }
}

proof fn lemma_plain_year(year: Option<u32>)
    ensures
        is_literal(rename::year_field(year)),
{
    reveal_strlit("Unknown");
    if let Some(y) = year {
        number::lemma_decimal_value(y as nat);
        lemma_plain_digits(number::decimal(y as nat));
    }
}

proof fn lemma_plain_ext(ext: Seq<char>)
    requires
        is_literal(ext),
    ensures
        is_literal(rename::ext_field(ext)),
{
    reveal_strlit(".");
    let out = rename::ext_field(ext);
    assert forall|i: int| 0 <= i < out.len() implies #[trigger] out[i] != '{' by {
        if i > 0 {
            assert(out[i] == ext[i - 1]);
        }
    }
}

/// A part of a movie template comes to its pieces with every field replaced by
/// its value, cleaned and styled; no value is taken for a field.
pub proof fn law_movie_names_hold_their_values(
    pieces: Seq<Piece>,
    title: Seq<char>,
    year: Option<u32>,
    ext: Seq<char>,
    lower: bool,
    scene: bool,
)
    requires
        is_well_formed(pieces),
        is_literal(title),
        is_literal(ext),
    ensures
        rename::movie_part(written(pieces), title, year, ext, lower, scene) == rename::styled(
            written(filled_movie(pieces, title, year, ext)),
            lower,
            scene,
        ),
{
    reveal_strlit("{title}");
    reveal_strlit("{year}");
    reveal_strlit("{ext}");
    reveal_strlit("title");
    reveal_strlit("year");
    reveal_strlit("ext");
    assert("{title}"@ =~= braced("title"@));
    assert("{year}"@ =~= braced("year"@));
    assert("{ext}"@ =~= braced("ext"@));
    lemma_plain_year(year);
    lemma_plain_ext(ext);
    let a = filled(pieces, "title"@, title);
    let b = filled(a, "year"@, rename::year_field(year));
    law_fields_are_filled_in(pieces, "title"@, title);
    lemma_filled_well_formed(pieces, "title"@, title);
    law_fields_are_filled_in(a, "year"@, rename::year_field(year));
    lemma_filled_well_formed(a, "year"@, rename::year_field(year));
    law_fields_are_filled_in(b, "ext"@, rename::ext_field(ext));
}

/// An episode template with its fields filled in one after the other.
pub open spec fn filled_episode(pieces: Seq<Piece>, fields: EpisodeFields) -> Seq<Piece> {
    let a = filled(pieces, "series"@, fields.series);
    let b = filled(a, "year"@, fields.year);
    let c = filled(b, "season"@, fields.season);
    let d = filled(c, "episode"@, fields.episode);
    let e = filled(d, "episode_end"@, fields.episode_end);
    let f = filled(e, "episode_range"@, fields.episode_range);
    let g = filled(f, "episode_title"@, fields.episode_title);
    filled(g, "ext"@, fields.ext)
}

/// Whether no value of a field begins a field.
pub open spec fn plain_fields(fields: EpisodeFields) -> bool {
    &&& is_literal(fields.series)
    &&& is_literal(fields.year)
    &&& is_literal(fields.season)
    &&& is_literal(fields.episode)
    &&& is_literal(fields.episode_end)
    &&& is_literal(fields.episode_range)
    &&& is_literal(fields.episode_title)
    &&& is_literal(fields.ext)
}

/// A part of an episode template comes to its pieces with every field replaced
/// by its value, cleaned and styled; no value is taken for a field.
pub proof fn law_episode_names_hold_their_values(
    pieces: Seq<Piece>,
    fields: EpisodeFields,
    lower: bool,
    scene: bool,
)
    requires
        is_well_formed(pieces),
        plain_fields(fields),
    ensures
        rename::episode_part(written(pieces), fields, lower, scene) == rename::styled(
            written(filled_episode(pieces, fields)),
            lower,
            scene,
        ),
{
    lemma_episode_fields();
    let a = filled(pieces, "series"@, fields.series);
    let b = filled(a, "year"@, fields.year);
    let c = filled(b, "season"@, fields.season);
    let d = filled(c, "episode"@, fields.episode);
    let e = filled(d, "episode_end"@, fields.episode_end);
    let f = filled(e, "episode_range"@, fields.episode_range);
    let g = filled(f, "episode_title"@, fields.episode_title);
    law_fields_are_filled_in(pieces, "series"@, fields.series);
    lemma_filled_well_formed(pieces, "series"@, fields.series);
    law_fields_are_filled_in(a, "year"@, fields.year);
    lemma_filled_well_formed(a, "year"@, fields.year);
    law_fields_are_filled_in(b, "season"@, fields.season);
    lemma_filled_well_formed(b, "season"@, fields.season);
    law_fields_are_filled_in(c, "episode"@, fields.episode);
    lemma_filled_well_formed(c, "episode"@, fields.episode);
    law_fields_are_filled_in(d, "episode_end"@, fields.episode_end);
    lemma_filled_well_formed(d, "episode_end"@, fields.episode_end);
    law_fields_are_filled_in(e, "episode_range"@, fields.episode_range);
    lemma_filled_well_formed(e, "episode_range"@, fields.episode_range);
    law_fields_are_filled_in(f, "episode_title"@, fields.episode_title);
    lemma_filled_well_formed(f, "episode_title"@, fields.episode_title);
    law_fields_are_filled_in(g, "ext"@, fields.ext);
}

proof fn lemma_episode_fields()
    ensures
        "{series}"@ == braced("series"@) && is_plain("series"@),
        "{year}"@ == braced("year"@) && is_plain("year"@),
        "{season}"@ == braced("season"@) && is_plain("season"@),
        "{episode}"@ == braced("episode"@) && is_plain("episode"@),
        "{episode_end}"@ == braced("episode_end"@) && is_plain("episode_end"@),
        "{episode_range}"@ == braced("episode_range"@) && is_plain("episode_range"@),
        "{episode_title}"@ == braced("episode_title"@) && is_plain("episode_title"@),
        "{ext}"@ == braced("ext"@) && is_plain("ext"@),
{
    reveal_strlit("{series}");
    reveal_strlit("{year}");
    reveal_strlit("{season}");
    reveal_strlit("{episode}");
    reveal_strlit("{episode_end}");
    reveal_strlit("{episode_range}");
    reveal_strlit("{episode_title}");
    reveal_strlit("{ext}");
    reveal_strlit("series");
    reveal_strlit("year");
    reveal_strlit("season");
    reveal_strlit("episode");
    reveal_strlit("episode_end");
    reveal_strlit("episode_range");
    reveal_strlit("episode_title");
    reveal_strlit("ext");
    assert("{series}"@ =~= braced("series"@));
    assert("{year}"@ =~= braced("year"@));
    assert("{season}"@ =~= braced("season"@));
    assert("{episode}"@ =~= braced("episode"@));
    assert("{episode_end}"@ =~= braced("episode_end"@));
    assert("{episode_range}"@ =~= braced("episode_range"@));
    assert("{episode_title}"@ =~= braced("episode_title"@));
    assert("{ext}"@ =~= braced("ext"@));
}

/// A title that needs no cleaning: no illegal character, words one blank apart,
/// no opening brace, and no dot at its start.
pub open spec fn is_clean_title(s: Seq<char>) -> bool {
    &&& s.len() > 0
    &&& rename::is_legal(s)
    &&& text::spaced_once(s)
    &&& is_literal(s)
    &&& s[0] != '.'
}

/// An extension that needs no cleaning: no illegal character, no white space, no
/// opening brace and no dot.
pub open spec fn is_clean_extension(s: Seq<char>) -> bool {
    &&& s.len() > 0
    &&& rename::is_legal(s)
    &&& is_literal(s)
    &&& forall|i: int| 0 <= i < s.len() ==> !chars::is_space(#[trigger] s[i]) && s[i] != '.'
}

/// Whether a text is not empty and needs no cleaning but for dots at its ends.
pub open spec fn is_clean(s: Seq<char>) -> bool {
    s.len() > 0 && rename::is_legal(s) && text::spaced_once(s)
}

proof fn lemma_clean_concat(a: Seq<char>, b: Seq<char>)
    requires
        is_clean(a),
        is_clean(b),
    ensures
        is_clean(a + b),
        is_clean(a + seq![' '] + b),
{
    let n = a.len() as int;
    let x = a + b;
    assert forall|i: int| 0 <= i < x.len() implies x[i] == (if i < n {
        a[i]
    } else {
        b[i - n]
    }) by {}
    assert(x[x.len() - 1] == b[b.len() - 1]);
    assert(rename::is_legal(x)) by {
        assert forall|i: int| 0 <= i < x.len() implies !rename::is_illegal(#[trigger] x[i]) by {
            if i < n {
                assert(!rename::is_illegal(a[i]));
            } else {
                assert(!rename::is_illegal(b[i - n]));
            }
        }
    }
    assert forall|i: int, j: int|
        0 <= i < j < x.len() && j == i + 1 && chars::is_space(#[trigger] x[i]) implies
        !chars::is_space(#[trigger] x[j]) by {
        if j < n {
            assert(!chars::is_space(a[j]));
        } else if i >= n {
            assert(chars::is_space(b[i - n]));
            assert(!chars::is_space(b[j - n]));
        }
    }
    let y = a + seq![' '] + b;
    assert forall|i: int| 0 <= i < y.len() implies y[i] == (if i < n {
        a[i]
    } else if i == n {
        ' '
    } else {
        b[i - n - 1]
    }) by {}
    assert(y[y.len() - 1] == b[b.len() - 1]);
    assert(rename::is_legal(y)) by {
        assert forall|i: int| 0 <= i < y.len() implies !rename::is_illegal(#[trigger] y[i]) by {
            if i < n {
                assert(!rename::is_illegal(a[i]));
            } else if i > n {
                assert(!rename::is_illegal(b[i - n - 1]));
            }
        }
    }
    assert forall|i: int, j: int|
        0 <= i < j < y.len() && j == i + 1 && chars::is_space(#[trigger] y[i]) implies
        !chars::is_space(#[trigger] y[j]) by {
        if j < n {
            assert(!chars::is_space(a[j]));
        } else if j == n {
            assert(!chars::is_space(a[i]));
        } else if i == n {
            assert(!chars::is_space(b[0]));
        } else {
            assert(chars::is_space(b[i - n - 1]));
            assert(!chars::is_space(b[j - n - 1]));
        }
    }
}

proof fn lemma_clean_solid(s: Seq<char>)
    requires
        s.len() > 0,
        forall|i: int|
            0 <= i < s.len() ==> !rename::is_illegal(#[trigger] s[i]) && !chars::is_space(s[i]),
    ensures
        is_clean(s),
{
}

proof fn lemma_clean_digits(s: Seq<char>)
    requires
        s.len() > 0,
        number::all_digits(s),
    ensures
        is_clean(s),
        is_literal(s),
{
    lemma_plain_digits(s);
    assert forall|i: int| 0 <= i < s.len() implies !rename::is_illegal(#[trigger] s[i])
        && !chars::is_space(s[i]) by {
        assert(chars::is_digit(s[i]));
    }
}

/// A name that ends in a dot and an extension has that extension.
proof fn lemma_extension_of(stem: Seq<char>, ext: Seq<char>)
    requires
        stem.len() > 0,
        is_clean_extension(ext),
    ensures
        model::extension(stem + "."@ + ext) == Some(ext),
        model::stem(stem + "."@ + ext) == stem,
{
    reveal_strlit(".");
    let name = stem + "."@ + ext;
    let i = stem.len() as int;
    model::lemma_last_dot(name);
    assert(name[i] == '.');
    assert forall|j: int| i < j < name.len() implies #[trigger] name[j] != '.' by {
        assert(name[j] == ext[j - i - 1]);
    }
    assert(model::last_dot(name) == Some(i));
    assert(name.len() > 2 || name[1] == ext[0] || name[1] == '.');
    assert(name != seq!['.', '.']) by {
        if name == seq!['.', '.'] {
            assert(name[name.len() - 1] == ext[ext.len() - 1]);
        }
    }
    assert(name.skip(i + 1) =~= ext);
    assert(name.take(i) =~= stem);
}

/// With the default template a movie is named by its title, its year in
/// brackets, and its extension, which it keeps.
pub proof fn law_default_movie_name(title: Seq<char>, year: u32, ext: Seq<char>)
    requires
        is_clean_title(title),
        is_clean_extension(ext),
    ensures
        ({
            let name = rename::rendered_movie(
                DEFAULT_FORMAT_MOVIE@,
                title,
                Some(year),
                ext,
                false,
                false,
            );
            let stem = title + " ("@ + number::decimal(year as nat) + ")"@;
            &&& name == stem + "."@ + ext
            &&& model::stem(name) == stem
            &&& model::extension(name) == Some(ext)
        }),
{
    let y = number::decimal(year as nat);
    let pieces = seq![
        Piece::Field("title"@),
        Piece::Text(" ("@),
        Piece::Field("year"@),
        Piece::Text(")"@),
        Piece::Field("ext"@),
    ];
    let values = seq![
        Piece::Text(title),
        Piece::Text(" ("@),
        Piece::Text(y),
        Piece::Text(")"@),
        Piece::Text("."@ + ext),
    ];
    let stem = title + " ("@ + y + ")"@;
    let name = stem + "."@ + ext;
    reveal_strlit("title");
    reveal_strlit("year");
    reveal_strlit("ext");
    reveal_strlit(" (");
    reveal_strlit(")");
    reveal_strlit(".");
    reveal_strlit("{title} ({year}){ext}");
    number::lemma_decimal_value(year as nat);
    assert(is_well_formed(pieces));
    assert(written(pieces) =~= DEFAULT_FORMAT_MOVIE@) by {
        reveal_with_fuel(written, 6);
    }
    assert(filled_movie(pieces, title, Some(year), ext) =~= values);
    assert(written(values) =~= name) by {
        reveal_with_fuel(written, 6);
    }
    law_movie_names_hold_their_values(pieces, title, Some(year), ext, false, false);
    lemma_clean_digits(y);
    lemma_clean_solid(seq!['(']);
    lemma_clean_solid(seq![')', '.']);
    lemma_clean_solid(ext);
    lemma_clean_concat(seq!['('], y);
    lemma_clean_concat(seq!['('] + y, seq![')', '.']);
    lemma_clean_concat(seq!['('] + y + seq![')', '.'], ext);
    lemma_clean_concat(title, seq!['('] + y + seq![')', '.'] + ext);
    assert(name =~= title + seq![' '] + (seq!['('] + y + seq![')', '.'] + ext));
    assert(name[0] == title[0]);
    assert(name[name.len() - 1] == ext[ext.len() - 1]);
    rename::law_clean_names_are_kept(name);
    let render = |part: Seq<char>|
        rename::movie_part(part, title, Some(year), ext, false, false);
    rename::lemma_single_name(DEFAULT_FORMAT_MOVIE@, render);
    lemma_extension_of(stem, ext);
}

proof fn lemma_range_field(episode: u32, episode_end: Option<u32>)
    ensures
        is_clean(rename::range_field(episode, episode_end)),
        is_literal(rename::range_field(episode, episode_end)),
        is_literal(rename::end_field(episode_end)),
{
    reveal_strlit("-E");
    let first = number::padded(episode as nat, 2);
    number::lemma_padded_value(episode as nat, 2);
    lemma_clean_digits(first);
    if let Some(end) = episode_end {
        let last = number::padded(end as nat, 2);
        number::lemma_padded_value(end as nat, 2);
        lemma_clean_digits(last);
        lemma_clean_solid("-E"@);
        lemma_clean_concat(first, "-E"@);
        lemma_clean_concat(first + "-E"@, last);
        let range = first + "-E"@ + last;
        assert forall|i: int| 0 <= i < range.len() implies #[trigger] range[i] != '{' && range[i]
            != '}' by {
            if i < first.len() {
                assert(range[i] == first[i]);
            } else if i >= first.len() + 2 {
                assert(range[i] == last[i - first.len() - 2]);
            }
        }
    }
}

/// With the default template an episode is named by its series, its season and
/// episodes, its title and its extension, which it keeps.
pub proof fn law_default_episode_name(
    series: Seq<char>,
    year: Option<u32>,
    season: u32,
    episode: u32,
    episode_end: Option<u32>,
    title: Seq<char>,
    ext: Seq<char>,
)
    requires
        is_clean_title(series),
        is_clean(title),
        is_literal(title),
        is_clean_extension(ext),
    ensures
        ({
            let name = rename::rendered_episode(
                DEFAULT_FORMAT_EPISODE@,
                rename::field_values(
                    DEFAULT_FORMAT_EPISODE@,
                    series,
                    year,
                    season,
                    episode,
                    episode_end,
                    title,
                    ext,
                ),
                false,
                false,
            );
            let stem = series + " - S"@ + number::padded(season as nat, 2) + "E"@
                + number::padded(episode as nat, 2) + (match episode_end {
                Some(end) => "-E"@ + number::padded(end as nat, 2),
                None => Seq::empty(),
            }) + " - "@ + title;
            &&& name == stem + "."@ + ext
            &&& model::stem(name) == stem
            &&& model::extension(name) == Some(ext)
        }),
{
    lemma_default_episode_name(series, year, season, episode, episode_end, title, ext);
    let head = series + " - S"@ + number::padded(season as nat, 2) + "E"@;
    let e = number::padded(episode as nat, 2);
    let end = match episode_end {
        Some(end) => "-E"@ + number::padded(end as nat, 2),
        None => Seq::empty(),
    };
    assert(rename::range_field(episode, episode_end) =~= e + end);
    assert(head + (e + end) =~= head + e + end);
}

proof fn lemma_default_episode_name(
    series: Seq<char>,
    year: Option<u32>,
    season: u32,
    episode: u32,
    episode_end: Option<u32>,
    title: Seq<char>,
    ext: Seq<char>,
)
    requires
        is_clean_title(series),
        is_clean(title),
        is_literal(title),
        is_clean_extension(ext),
    ensures
        ({
            let name = rename::rendered_episode(
                DEFAULT_FORMAT_EPISODE@,
                rename::field_values(
                    DEFAULT_FORMAT_EPISODE@,
                    series,
                    year,
                    season,
                    episode,
                    episode_end,
                    title,
                    ext,
                ),
                false,
                false,
            );
            let stem = series + " - S"@ + number::padded(season as nat, 2) + "E"@
                + rename::range_field(episode, episode_end) + " - "@ + title;
            &&& name == stem + "."@ + ext
            &&& model::stem(name) == stem
            &&& model::extension(name) == Some(ext)
        }),
{
    let fields = rename::field_values(
        DEFAULT_FORMAT_EPISODE@,
        series,
        year,
        season,
        episode,
        episode_end,
        title,
        ext,
    );
    let s = number::padded(season as nat, 2);
    let r = rename::range_field(episode, episode_end);
    let stem = series + " - S"@ + s + "E"@ + r + " - "@ + title;
    let name = stem + "."@ + ext;
    lemma_range_field(episode, episode_end);
    lemma_range_field(episode, None);
    number::lemma_padded_value(season as nat, 2);
    lemma_clean_digits(s);
    lemma_plain_year(year);
    lemma_plain_ext(ext);
    lemma_default_episode_filled(fields);
    lemma_default_episode_clean(series, s, r, title, ext);
    assert(rename::ext_field(ext) == "."@ + ext);
    assert(written(default_episode_values(fields)) =~= name) by {
        reveal_with_fuel(written, 9);
    }
    rename::law_clean_names_are_kept(name);
    let render = |part: Seq<char>| rename::episode_part(part, fields, false, false);
    lemma_default_episode();
    rename::lemma_single_name(DEFAULT_FORMAT_EPISODE@, render);
    lemma_extension_of(stem, ext);
}

/// The pieces of the default episode template.
spec fn default_episode_pieces() -> Seq<Piece> {
    seq![
        Piece::Field("series"@),
        Piece::Text(" - S"@),
        Piece::Field("season"@),
        Piece::Text("E"@),
        Piece::Field("episode_range"@),
        Piece::Text(" - "@),
        Piece::Field("episode_title"@),
        Piece::Field("ext"@),
    ]
}

/// The pieces of the default episode template with its fields filled in.
spec fn default_episode_values(fields: EpisodeFields) -> Seq<Piece> {
    seq![
        Piece::Text(fields.series),
        Piece::Text(" - S"@),
        Piece::Text(fields.season),
        Piece::Text("E"@),
        Piece::Text(fields.episode_range),
        Piece::Text(" - "@),
        Piece::Text(fields.episode_title),
        Piece::Text(fields.ext),
    ]
}

proof fn lemma_default_episode_filled(fields: EpisodeFields)
    requires
        plain_fields(fields),
    ensures
        rename::episode_part(DEFAULT_FORMAT_EPISODE@, fields, false, false) == rename::sanitized(
            written(default_episode_values(fields)),
        ),
{
    let pieces = default_episode_pieces();
    lemma_default_episode();
    lemma_different_fields();
    let a = filled(pieces, "series"@, fields.series);
    let b = filled(a, "year"@, fields.year);
    let c = filled(b, "season"@, fields.season);
    let d = filled(c, "episode"@, fields.episode);
    let e = filled(d, "episode_end"@, fields.episode_end);
    let f = filled(e, "episode_range"@, fields.episode_range);
    let g = filled(f, "episode_title"@, fields.episode_title);
    assert(a =~= pieces.update(0, Piece::Text(fields.series)));
    assert(b =~= a);
    assert(c =~= a.update(2, Piece::Text(fields.season)));
    assert(d =~= c);
    assert(e =~= c);
    assert(f =~= c.update(4, Piece::Text(fields.episode_range)));
    assert(g =~= f.update(6, Piece::Text(fields.episode_title)));
    assert(filled_episode(pieces, fields) =~= default_episode_values(fields));
    law_episode_names_hold_their_values(pieces, fields, false, false);
}

proof fn lemma_default_episode_clean(
    series: Seq<char>,
    s: Seq<char>,
    r: Seq<char>,
    title: Seq<char>,
    ext: Seq<char>,
)
    requires
        is_clean_title(series),
        is_clean(s),
        is_clean(r),
        is_clean(title),
        is_clean_extension(ext),
    ensures
        ({
            let name = series + " - S"@ + s + "E"@ + r + " - "@ + title + "."@ + ext;
            &&& is_clean(name)
            &&& name[0] != '.'
            &&& name.last() != '.'
        }),
{
    reveal_strlit(" - S");
    reveal_strlit("E");
    reveal_strlit(" - ");
    reveal_strlit(".");
    let name = series + " - S"@ + s + "E"@ + r + " - "@ + title + "."@ + ext;
    let dash = seq!['-'];
    let blank = seq![' '];
    let dotted = "."@ + ext;
    assert(is_clean(dotted)) by {
        assert forall|i: int| 0 <= i < dotted.len() implies !rename::is_illegal(
            #[trigger] dotted[i],
        ) && !chars::is_space(dotted[i]) by {
            if i > 0 {
                assert(dotted[i] == ext[i - 1]);
            }
        }
        lemma_clean_solid(dotted);
    }
    lemma_clean_solid(dash);
    lemma_clean_solid(seq!['S']);
    lemma_clean_solid("E"@);
    let mark = seq!['S'] + s + "E"@ + r;
    lemma_clean_concat(seq!['S'], s);
    lemma_clean_concat(seq!['S'] + s, "E"@);
    lemma_clean_concat(seq!['S'] + s + "E"@, r);
    let tail = title + dotted;
    lemma_clean_concat(title, dotted);
    let last = dash + blank + tail;
    lemma_clean_concat(dash, tail);
    let middle = mark + blank + last;
    lemma_clean_concat(mark, last);
    let rest = dash + blank + middle;
    lemma_clean_concat(dash, middle);
    lemma_clean_concat(series, rest);
    assert(name =~= series + blank + rest);
    assert(name[0] == series[0]);
    assert(name[name.len() - 1] == ext[ext.len() - 1]);
}

proof fn lemma_default_episode()
    ensures
        written(default_episode_pieces()) == DEFAULT_FORMAT_EPISODE@,
        is_well_formed(default_episode_pieces()),
        forall|i: int|
            0 <= i < DEFAULT_FORMAT_EPISODE@.len() ==> #[trigger] DEFAULT_FORMAT_EPISODE@[i]
                != '/',
{
    reveal_strlit("series");
    reveal_strlit("season");
    reveal_strlit("episode_range");
    reveal_strlit("episode_title");
    reveal_strlit("ext");
    reveal_strlit(" - S");
    reveal_strlit("E");
    reveal_strlit(" - ");
    reveal_strlit("{series} - S{season}E{episode_range} - {episode_title}{ext}");
    reveal_with_fuel(written, 9);
    assert(written(default_episode_pieces()) =~= DEFAULT_FORMAT_EPISODE@);
}

proof fn lemma_different_fields()
    ensures
        "series"@.len() == 6,
        "year"@.len() == 4,
        "season"@.len() == 6,
        "series"@[2] != "season"@[2],
        "episode"@.len() == 7,
        "episode_end"@.len() == 11,
        "episode_range"@.len() == 13,
        "episode_title"@.len() == 13,
        "episode_range"@[8] != "episode_title"@[8],
        "ext"@.len() == 3,
{
    reveal_strlit("series");
    reveal_strlit("year");
    reveal_strlit("season");
    reveal_strlit("episode");
    reveal_strlit("episode_end");
    reveal_strlit("episode_range");
    reveal_strlit("episode_title");
    reveal_strlit("ext");
}

/// A template by the pieces of each of its parts, the directories and the name.
pub open spec fn template_text(parts: Seq<Seq<Piece>>) -> Seq<char> {
    text::joined(parts.map_values(|p: Seq<Piece>| written(p)), "/"@)
}

/// A piece with the range in place of the episode.
pub open spec fn ranged_piece(p: Piece) -> Piece {
    if p == Piece::Field("episode"@) {
        Piece::Field("episode_range"@)
    } else {
        p
    }
}

/// The pieces of a part with the range in place of the episode.
pub open spec fn ranged(pieces: Seq<Piece>) -> Seq<Piece> {
    pieces.map_values(|p: Piece| ranged_piece(p))
}

/// All pieces of a template, with the slashes between its parts.
spec fn whole(parts: Seq<Seq<Piece>>) -> Seq<Piece>
    decreases parts.len(),
{
    if parts.len() == 0 {
        Seq::empty()
    } else if parts.len() == 1 {
        parts[0]
    } else {
        whole(parts.drop_last()) + seq![Piece::Text("/"@)] + parts.last()
    }
}

proof fn lemma_written_concat(a: Seq<Piece>, b: Seq<Piece>)
    ensures
        written(a + b) == written(a) + written(b),
    decreases a.len(),
{
    if a.len() == 0 {
        assert(a + b =~= b);
        assert(written(a) + written(b) =~= written(b));
    } else {
        lemma_written_concat(a.skip(1), b);
        assert((a + b).skip(1) =~= a.skip(1) + b);
        assert((a + b)[0] == a[0]);
        assert(written(a + b) =~= written(a) + written(b));
    }
}

proof fn lemma_whole_written(parts: Seq<Seq<Piece>>)
    ensures
        written(whole(parts)) == template_text(parts),
    decreases parts.len(),
{
    let texts = parts.map_values(|p: Seq<Piece>| written(p));
    if parts.len() > 1 {
        let front = parts.drop_last();
        let slash = seq![Piece::Text("/"@)];
        lemma_whole_written(front);
        lemma_written_concat(whole(front) + slash, parts.last());
        lemma_written_concat(whole(front), slash);
        assert(written(slash) =~= "/"@) by {
            reveal_with_fuel(written, 2);
        }
        assert(texts.drop_last() =~= front.map_values(|p: Seq<Piece>| written(p)));
        assert(texts.last() == written(parts.last()));
    } else if parts.len() == 1 {
        assert(texts[0] == written(parts[0]));
    }
}

proof fn lemma_whole_filled(parts: Seq<Seq<Piece>>, name: Seq<char>, value: Seq<char>)
    ensures
        filled(whole(parts), name, value) == whole(
            parts.map_values(|p: Seq<Piece>| filled(p, name, value)),
        ),
    decreases parts.len(),
{
    let after = parts.map_values(|p: Seq<Piece>| filled(p, name, value));
    if parts.len() == 0 {
        assert(filled(whole(parts), name, value) =~= whole(after));
    } else if parts.len() > 1 {
        let front = parts.drop_last();
        lemma_whole_filled(front, name, value);
        assert(after.drop_last() =~= front.map_values(|p: Seq<Piece>| filled(p, name, value)));
        assert(after.last() == filled(parts.last(), name, value));
        assert(filled(whole(parts), name, value) =~= filled(whole(front), name, value) + seq![
            Piece::Text("/"@),
        ] + filled(parts.last(), name, value));
    }
}

proof fn lemma_whole_well_formed(parts: Seq<Seq<Piece>>)
    requires
        forall|k: int| 0 <= k < parts.len() ==> is_well_formed(#[trigger] parts[k]),
    ensures
        is_well_formed(whole(parts)),
    decreases parts.len(),
{
    if parts.len() == 1 {
        assert(is_well_formed(parts[0]));
    } else if parts.len() > 1 {
        let front = parts.drop_last();
        let last = parts.last();
        assert forall|k: int| 0 <= k < front.len() implies is_well_formed(#[trigger] front[k]) by {
            assert(front[k] == parts[k]);
        }
        lemma_whole_well_formed(front);
        assert(is_well_formed(parts[parts.len() - 1]));
        reveal_strlit("/");
        let head = whole(front);
        let all = whole(parts);
        assert forall|i: int| 0 <= i < all.len() implies match #[trigger] all[i] {
            Piece::Text(t) => is_literal(t),
            Piece::Field(name) => is_plain(name),
        } by {
            if i < head.len() {
                assert(all[i] == head[i]);
            } else if i == head.len() {
                assert(all[i] == Piece::Text("/"@));
            } else {
                assert(all[i] == last[i - head.len() - 1]);
            }
        }
    }
}

proof fn lemma_written_alike(a: Seq<Piece>, b: Seq<Piece>)
    requires
        a.len() == b.len(),
        forall|i: int| 0 <= i < a.len() ==> piece_text(#[trigger] a[i]) == piece_text(b[i]),
    ensures
        written(a) == written(b),
    decreases a.len(),
{
    if a.len() > 0 {
        let x = a.skip(1);
        let y = b.skip(1);
        assert forall|i: int| 0 <= i < x.len() implies piece_text(#[trigger] x[i]) == piece_text(
            y[i],
        ) by {
            assert(x[i] == a[i + 1] && y[i] == b[i + 1]);
        }
        lemma_written_alike(x, y);
        assert(piece_text(a[0]) == piece_text(b[0]));
    }
}

/// One part of a template as the text of its range form.
proof fn lemma_ranged_part(pieces: Seq<Piece>)
    requires
        is_well_formed(pieces),
        forall|i: int| 0 <= i < written(pieces).len() ==> #[trigger] written(pieces)[i] != '/',
    ensures
        written(filled(pieces, "episode"@, "{episode_range}"@)) == written(ranged(pieces)),
        is_well_formed(ranged(pieces)),
        text::all_chars(written(ranged(pieces)), |c: char| c != '/'),
{
    lemma_episode_fields();
    let a = filled(pieces, "episode"@, "{episode_range}"@);
    let b = ranged(pieces);
    assert forall|i: int| 0 <= i < a.len() implies piece_text(#[trigger] a[i]) == piece_text(
        b[i],
    ) by {
        assert(a[i] == filled_piece(pieces[i], "episode"@, "{episode_range}"@));
        assert(b[i] == ranged_piece(pieces[i]));
    }
    lemma_written_alike(a, b);
    assert forall|i: int| 0 <= i < b.len() implies match #[trigger] b[i] {
        Piece::Text(t) => is_literal(t),
        Piece::Field(name) => is_plain(name),
    } by {
        assert(b[i] == ranged_piece(pieces[i]));
        assert(match pieces[i] {
            Piece::Text(t) => is_literal(t),
            Piece::Field(name) => is_plain(name),
        });
    }
    law_fields_are_filled_in(pieces, "episode"@, "{episode_range}"@);
    let p = |c: char| c != '/';
    reveal_strlit("{episode_range}");
    text::lemma_replaced_chars(written(pieces), "{episode}"@, "{episode_range}"@, p);
}

/// What a piece comes to when all fields are filled in.
spec fn settled(p: Piece, fields: EpisodeFields) -> Piece {
    let a = filled_piece(p, "series"@, fields.series);
    let b = filled_piece(a, "year"@, fields.year);
    let c = filled_piece(b, "season"@, fields.season);
    let d = filled_piece(c, "episode"@, fields.episode);
    let e = filled_piece(d, "episode_end"@, fields.episode_end);
    let f = filled_piece(e, "episode_range"@, fields.episode_range);
    let g = filled_piece(f, "episode_title"@, fields.episode_title);
    filled_piece(g, "ext"@, fields.ext)
}

proof fn lemma_settled(pieces: Seq<Piece>, fields: EpisodeFields)
    ensures
        filled_episode(pieces, fields) == pieces.map_values(|p: Piece| settled(p, fields)),
{
    assert(filled_episode(pieces, fields) =~= pieces.map_values(|p: Piece| settled(p, fields)));
}

proof fn lemma_ranged_alike(pieces: Seq<Piece>, first: EpisodeFields, second: EpisodeFields)
    requires
        first.episode == first.episode_range,
        second == (EpisodeFields { episode: second.episode, ..first }),
    ensures
        filled_episode(pieces, first) == filled_episode(ranged(pieces), second),
{
    lemma_settled(pieces, first);
    lemma_settled(ranged(pieces), second);
    lemma_different_fields();
    assert forall|i: int| 0 <= i < pieces.len() implies settled(pieces[i], first) == settled(
        #[trigger] ranged(pieces)[i],
        second,
    ) by {
        assert(ranged(pieces)[i] == ranged_piece(pieces[i]));
    }
    assert(filled_episode(pieces, first) =~= filled_episode(ranged(pieces), second));
}

proof fn lemma_plain_values(
    template: Seq<char>,
    series: Seq<char>,
    year: Option<u32>,
    season: u32,
    episode: u32,
    episode_end: Option<u32>,
    title: Seq<char>,
    ext: Seq<char>,
)
    requires
        is_literal(series),
        is_literal(title),
        is_literal(ext),
    ensures
        plain_fields(
            rename::field_values(
                template,
                series,
                year,
                season,
                episode,
                episode_end,
                title,
                ext,
            ),
        ),
{
    lemma_range_field(episode, episode_end);
    lemma_range_field(episode, None);
    number::lemma_padded_value(season as nat, 2);
    lemma_clean_digits(number::padded(season as nat, 2));
    lemma_plain_year(year);
    lemma_plain_ext(ext);
}

/// A template that knows nothing of ranges gives the same destination as the
/// same template with the range in place of the episode, whether or not there
/// is a last episode: no episode of a range is lost.
pub proof fn law_older_templates_render_the_range(
    parts: Seq<Seq<Piece>>,
    series: Seq<char>,
    year: Option<u32>,
    season: u32,
    episode: u32,
    episode_end: Option<u32>,
    title: Seq<char>,
    ext: Seq<char>,
    lower: bool,
    scene: bool,
)
    requires
        parts.len() > 0,
        forall|k: int| 0 <= k < parts.len() ==> is_well_formed(#[trigger] parts[k]),
        forall|k: int, i: int|
            0 <= k < parts.len() && 0 <= i < written(parts[k]).len() ==> #[trigger] written(
                parts[k],
            )[i] != '/',
        !rename::handles_ranges(template_text(parts)),
        is_literal(series),
        is_literal(title),
        is_literal(ext),
    ensures
        ({
            let older = template_text(parts);
            let newer = text::replaced(older, "{episode}"@, "{episode_range}"@);
            rename::rendered_episode(
                older,
                rename::field_values(
                    older,
                    series,
                    year,
                    season,
                    episode,
                    episode_end,
                    title,
                    ext,
                ),
                lower,
                scene,
            ) == rename::rendered_episode(
                newer,
                rename::field_values(
                    newer,
                    series,
                    year,
                    season,
                    episode,
                    episode_end,
                    title,
                    ext,
                ),
                lower,
                scene,
            )
        }),
{
    let older = template_text(parts);
    let newer = text::replaced(older, "{episode}"@, "{episode_range}"@);
    let first = rename::field_values(
        older,
        series,
        year,
        season,
        episode,
        episode_end,
        title,
        ext,
    );
    let second = rename::field_values(
        newer,
        series,
        year,
        season,
        episode,
        episode_end,
        title,
        ext,
    );
    let texts = parts.map_values(|p: Seq<Piece>| written(p));
    let after = parts.map_values(|p: Seq<Piece>| ranged(p));
    let after_texts = after.map_values(|p: Seq<Piece>| written(p));
    lemma_ranged_template(parts);
    lemma_template_parts(parts);
    assert forall|k: int| 0 <= k < after.len() implies text::all_chars(
        written(#[trigger] after[k]),
        |c: char| c != '/',
    ) by {
        lemma_part_has_no_slash(parts, k);
        lemma_ranged_part(parts[k]);
    }
    assert forall|k: int, i: int| 0 <= k < after.len() && 0 <= i < written(after[k]).len() implies
        #[trigger] written(after[k])[i] != '/' by {
        let p = |c: char| c != '/';
        assert(text::all_chars(written(after[k]), p));
        assert(p(written(after[k])[i]));
    }
    lemma_template_parts(after);
    lemma_plain_values(older, series, year, season, episode, episode_end, title, ext);
    lemma_plain_values(newer, series, year, season, episode, episode_end, title, ext);
    let render = |part: Seq<char>| rename::episode_part(part, first, lower, scene);
    let render_after = |part: Seq<char>| rename::episode_part(part, second, lower, scene);
    assert(texts.map_values(render) =~= after_texts.map_values(render_after)) by {
        assert forall|k: int| 0 <= k < texts.len() implies render(texts[k]) == render_after(
            #[trigger] after_texts[k],
        ) by {
            lemma_part_has_no_slash(parts, k);
            lemma_ranged_part(parts[k]);
            law_episode_names_hold_their_values(parts[k], first, lower, scene);
            law_episode_names_hold_their_values(ranged(parts[k]), second, lower, scene);
            lemma_ranged_alike(parts[k], first, second);
        }
    }
}

proof fn lemma_part_has_no_slash(parts: Seq<Seq<Piece>>, k: int)
    requires
        0 <= k < parts.len(),
        forall|k: int| 0 <= k < parts.len() ==> is_well_formed(#[trigger] parts[k]),
        forall|k: int, i: int|
            0 <= k < parts.len() && 0 <= i < written(parts[k]).len() ==> #[trigger] written(
                parts[k],
            )[i] != '/',
    ensures
        is_well_formed(parts[k]),
        forall|i: int|
            0 <= i < written(parts[k]).len() ==> #[trigger] written(parts[k])[i] != '/',
{
}

proof fn lemma_template_parts(parts: Seq<Seq<Piece>>)
    requires
        parts.len() > 0,
        forall|k: int, i: int|
            0 <= k < parts.len() && 0 <= i < written(parts[k]).len() ==> #[trigger] written(
                parts[k],
            )[i] != '/',
    ensures
        text::split(template_text(parts), CharSet::Slash) == parts.map_values(
            |p: Seq<Piece>| written(p),
        ),
{
    let texts = parts.map_values(|p: Seq<Piece>| written(p));
    let other = |c: char| !CharSet::Slash.contains(c);
    reveal_strlit("/");
    assert("/"@ =~= seq!['/']);
    assert forall|k: int| 0 <= k < texts.len() implies text::all_chars(
        #[trigger] texts[k],
        other,
    ) by {
        assert(texts[k] == written(parts[k]));
        assert forall|i: int| 0 <= i < texts[k].len() implies other(#[trigger] texts[k][i]) by {
            assert(written(parts[k])[i] != '/');
        }
    }
    text::lemma_split_joined(texts, CharSet::Slash, '/');
}

proof fn lemma_ranged_template(parts: Seq<Seq<Piece>>)
    requires
        forall|k: int| 0 <= k < parts.len() ==> is_well_formed(#[trigger] parts[k]),
        forall|k: int, i: int|
            0 <= k < parts.len() && 0 <= i < written(parts[k]).len() ==> #[trigger] written(
                parts[k],
            )[i] != '/',
    ensures
        text::replaced(template_text(parts), "{episode}"@, "{episode_range}"@) == template_text(
            parts.map_values(|p: Seq<Piece>| ranged(p)),
        ),
{
    let name = "episode"@;
    let value = "{episode_range}"@;
    let halfway = parts.map_values(|p: Seq<Piece>| filled(p, name, value));
    let after = parts.map_values(|p: Seq<Piece>| ranged(p));
    lemma_episode_fields();
    lemma_whole_well_formed(parts);
    lemma_whole_written(parts);
    lemma_whole_written(halfway);
    lemma_whole_filled(parts, name, value);
    law_fields_are_filled_in(whole(parts), name, value);
    assert(halfway.map_values(|p: Seq<Piece>| written(p)) =~= after.map_values(
        |p: Seq<Piece>| written(p),
    )) by {
        assert forall|k: int| 0 <= k < parts.len() implies written(#[trigger] halfway[k])
            == written(after[k]) by {
            lemma_part_has_no_slash(parts, k);
            lemma_ranged_part(parts[k]);
        }
    }
}

/// Under the default template two files that differ in their last episode, or of
/// which only one is a range, get different names, and the last episode can be
/// read back from the name.
pub proof fn law_default_episode_names_tell_ranges_apart(
    series: Seq<char>,
    year: Option<u32>,
    season: u32,
    episode: u32,
    end: u32,
    other: Option<u32>,
    title: Seq<char>,
    ext: Seq<char>,
)
    requires
        is_clean_title(series),
        is_clean(title),
        is_literal(title),
        is_clean_extension(ext),
    ensures
        ({
            let name = rename::rendered_episode(
                DEFAULT_FORMAT_EPISODE@,
                rename::field_values(
                    DEFAULT_FORMAT_EPISODE@,
                    series,
                    year,
                    season,
                    episode,
                    Some(end),
                    title,
                    ext,
                ),
                false,
                false,
            );
            let again = rename::rendered_episode(
                DEFAULT_FORMAT_EPISODE@,
                rename::field_values(
                    DEFAULT_FORMAT_EPISODE@,
                    series,
                    year,
                    season,
                    episode,
                    other,
                    title,
                    ext,
                ),
                false,
                false,
            );
            let k = series.len() + 4 + number::padded(season as nat, 2).len() + 1
                + number::padded(episode as nat, 2).len() + 2;
            let n = number::padded(end as nat, 2).len();
            &&& number::unsigned_value(name.subrange(k as int, (k + n) as int)) == Some(end as nat)
            &&& name == again ==> other == Some(end)
        }),
{
    law_default_episode_name(series, year, season, episode, Some(end), title, ext);
    law_default_episode_name(series, year, season, episode, other, title, ext);
    reveal_strlit(" - S");
    reveal_strlit("E");
    reveal_strlit("-E");
    reveal_strlit(" - ");
    let s = number::padded(season as nat, 2);
    let e = number::padded(episode as nat, 2);
    let b = number::padded(end as nat, 2);
    let head = series + " - S"@ + s + "E"@ + e;
    let tail = " - "@ + title + "."@ + ext;
    let name = head + ("-E"@ + b) + tail;
    let k = (head.len() + 2) as int;
    number::law_written_numbers_read_back(end as nat, 2);
    number::lemma_padded_value(end as nat, 2);
    assert(name.subrange(k, k + b.len()) =~= b);
    let given = rename::rendered_episode(
        DEFAULT_FORMAT_EPISODE@,
        rename::field_values(
            DEFAULT_FORMAT_EPISODE@,
            series,
            year,
            season,
            episode,
            Some(end),
            title,
            ext,
        ),
        false,
        false,
    );
    assert(given =~= name);
    match other {
        Some(o) => {
            let c = number::padded(o as nat, 2);
            let again = head + ("-E"@ + c) + tail;
            number::law_written_numbers_read_back(o as nat, 2);
            number::lemma_padded_value(o as nat, 2);
            assert(again.subrange(k, k + c.len()) =~= c);
            assert(rename::rendered_episode(
                DEFAULT_FORMAT_EPISODE@,
                rename::field_values(
                    DEFAULT_FORMAT_EPISODE@,
                    series,
                    year,
                    season,
                    episode,
                    other,
                    title,
                    ext,
                ),
                false,
                false,
            ) =~= again);
            assert(name.len() == head.len() + 2 + b.len() + tail.len());
            assert(again.len() == head.len() + 2 + c.len() + tail.len());
        },
        None => {
            let again = head + tail;
            assert(rename::rendered_episode(
                DEFAULT_FORMAT_EPISODE@,
                rename::field_values(
                    DEFAULT_FORMAT_EPISODE@,
                    series,
                    year,
                    season,
                    episode,
                    other,
                    title,
                    ext,
                ),
                false,
                false,
            ) =~= again);
            assert(again.len() < name.len());
        },
    }
}

} // verus!
