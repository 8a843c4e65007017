//! What linking torrents and linking folders have in common: where a book goes
//! and which of its files are wanted.
use vstd::prelude::*;
use vstd::string::*;

use crate::model::{Library, MetaView, Series, SeriesView, TorrentContent, TorrentMeta};
use crate::outside::{sanitize, to_lowercase};
use crate::path::PathBuf;
use crate::text::{concat, concat3, ends_with, starts_with};

verus! {

/// The entry of a path mapping that applies to a path: among those whose first
/// path the path lies under, the one with the most components, and of several
/// such the last.
pub open spec fn best_mapping(m: Seq<(PathBuf, PathBuf)>, path: Seq<char>) -> Option<int>
    decreases m.len(),
{
    if m.len() == 0 {
        None
    } else {
        let i = m.len() - 1;
        let before = best_mapping(m.drop_last(), path);
        if crate::path::lies_under(path, m[i].0@) && (before matches Some(j) ==> crate::path::parts(
            m[j].0@,
        ).len() <= crate::path::parts(m[i].0@).len()) {
            Some(i)
        } else {
            before
        }
    }
}

/// A path of the download client as a path of this machine.
pub open spec fn mapped_path(m: Seq<(PathBuf, PathBuf)>, path: Seq<char>) -> Seq<char> {
    match best_mapping(m, path) {
        Some(i) => crate::path::path_join(
            m[i].1@,
            crate::path::path_rest(path, crate::path::parts(m[i].0@).len() as int),
        ),
        None => path,
    }
}

/// The mapping that applies is the most specific one: the path lies under its
/// first path, and its first path lies under that of every other entry that
/// the path lies under. Where no entry applies, the path lies under none.
pub proof fn mapping_is_most_specific(m: Seq<(PathBuf, PathBuf)>, path: Seq<char>)
    ensures
        match best_mapping(m, path) {
            Some(i) => 0 <= i < m.len() && crate::path::lies_under(path, m[i].0@) && (forall|j: int|
                0 <= j < m.len() && crate::path::lies_under(path, (#[trigger] m[j]).0@)
                    ==> crate::path::lies_under(m[i].0@, m[j].0@)),
            None => forall|j: int|
                0 <= j < m.len() ==> !crate::path::lies_under(path, (#[trigger] m[j]).0@),
        },
    decreases m.len(),
{
    if m.len() > 0 {
        let rest = m.drop_last();
        mapping_is_most_specific(rest, path);
        let best = best_mapping(m, path);
        let p = crate::path::parts(path);
        assert forall|j: int|
            0 <= j < m.len() && crate::path::lies_under(path, (#[trigger] m[j]).0@) implies best
            is Some && crate::path::lies_under(m[best.unwrap()].0@, m[j].0@) by {
            if j < m.len() - 1 {
                assert(rest[j] == m[j]);
            }
            let i = best.unwrap();
            let a = crate::path::parts(m[i].0@);
            let b = crate::path::parts(m[j].0@);
            if j < m.len() - 1 {
                let k = best_mapping(rest, path).unwrap();
                assert(rest[k] == m[k]);
                let c = crate::path::parts(m[k].0@);
                assert(b.len() <= c.len());
            }
            assert(a.take(b.len() as int) == b) by {
                assert(p.take(a.len() as int).take(b.len() as int) == p.take(b.len() as int));
            }
        }
        if best is Some {
            let i = best.unwrap();
            if i < m.len() - 1 {
                assert(rest[i] == m[i]);
            }
        }
    }
}

/// A path that a mapping applies to keeps the components that follow those of
/// the mapping's first path, behind the mapping's second path; every other path
/// is left as it is.
pub proof fn mapping_moves_path(m: Seq<(PathBuf, PathBuf)>, path: Seq<char>, i: int)
    ensures
        best_mapping(m, path) is None ==> mapped_path(m, path) == path,
        best_mapping(m, path) == Some(i) && m[i].1@.len() > 0 && crate::path::parts(
            m[i].0@,
        ).len() > 0 ==> crate::path::parts(mapped_path(m, path)) == crate::path::parts(m[i].1@)
            + crate::path::parts(path).skip(crate::path::parts(m[i].0@).len() as int),
{
    if best_mapping(m, path) == Some(i) && m[i].1@.len() > 0 && crate::path::parts(m[i].0@).len()
        > 0 {
        mapping_is_most_specific(m, path);
        let k = crate::path::parts(m[i].0@).len() as int;
        let p = crate::path::parts(path);
        let rest = crate::path::path_rest(path, k);
        crate::path::rest_drops_first_parts(path, k);
        crate::path::join_appends_parts(m[i].1@, rest);
        assert(crate::path::parts(rest) == p.skip(k));
        if k < p.len() {
            crate::path::lemma_part_shapes(path, k);
            assert(p.skip(k)[0] == p[k]);
        }
        assert(crate::path::added_parts(rest) == p.skip(k));
    }
}

/// Turns a path of the download client into a path of this machine.
pub fn map_path(path_mapping: &Vec<(PathBuf, PathBuf)>, save_path: &str) -> (r: PathBuf)
    ensures
        r@ == mapped_path(path_mapping@, save_path@),
{
    let path = PathBuf::new(save_path);
    let mut best: Option<usize> = None;
    let mut best_len: usize = 0;
    let mut i: usize = 0;
    while i < path_mapping.len()
        invariant
            i <= path_mapping@.len(),
            path@ == save_path@,
            best is Some == best_mapping(path_mapping@.take(i as int), save_path@) is Some,
            best matches Some(j) ==> best_mapping(path_mapping@.take(i as int), save_path@) == Some(
                j as int,
            ) && j < i && best_len == crate::path::parts(path_mapping@[j as int].0@).len(),
        decreases path_mapping@.len() - i,
    {
        let from = &path_mapping[i].0;
        let len: usize = from.components().len();
        let ghost now = path_mapping@.take(i + 1);
        proof {
            assert(now.drop_last() == path_mapping@.take(i as int));
            assert(now[i as int] == path_mapping@[i as int]);
            assert(crate::path::parts(from@).len() == len);
        }
        let longer = match best {
            Some(_) => best_len <= len,
            None => true,
        };
        if path.starts_with(from) && longer {
            best = Some(i);
            best_len = len;
        }
        i = i + 1;
    }
    assert(path_mapping@.take(i as int) == path_mapping@);
    match best {
        Some(j) => path_mapping[j].1.join(path.rest(best_len).as_str()),
        None => path,
    }
}

/// The place of the first series with a number, from `i` on.
pub open spec fn numbered_from(s: Seq<SeriesView>, i: int) -> Option<int>
    decreases s.len() - i,
{
    if i < 0 || i >= s.len() {
        None
    } else if s[i].numbered {
        Some(i)
    } else {
        numbered_from(s, i + 1)
    }
}

/// The series that a book is filed under: the first in which it has a number,
/// else the first.
pub open spec fn filing_series(s: Seq<SeriesView>) -> Option<SeriesView> {
    match numbered_from(s, 0) {
        Some(i) => Some(s[i]),
        None => if s.len() > 0 {
            Some(s[0])
        } else {
            None
        },
    }
}

/// The name of a book's own directory in a series.
pub open spec fn numbered_title(s: SeriesView, title: Seq<char>) -> Seq<char> {
    if s.numbered {
        s.name + " #"@ + s.entries + " - "@ + title
    } else {
        title
    }
}

/// A book's directory by author, series and title.
pub open spec fn base_dir(author: Seq<char>, meta: MetaView) -> Seq<char> {
    let top = crate::outside::sanitized(author);
    match filing_series(meta.series) {
        Some(s) => crate::path::path_join(
            crate::path::path_join(top, crate::outside::sanitized(s.name)),
            crate::outside::sanitized(numbered_title(s, meta.title)),
        ),
        None => crate::path::path_join(top, crate::outside::sanitized(meta.title)),
    }
}

/// The directory with a text added to its name.
pub open spec fn extended_dir(dir: Seq<char>, text: Seq<char>) -> Seq<char> {
    crate::path::path_with_file_name(
        dir,
        crate::outside::sanitized(crate::path::path_file_name(dir).unwrap() + text),
    )
}

/// The directory with the book's edition in its name.
pub open spec fn edition_dir(dir: Seq<char>, meta: MetaView) -> Seq<char> {
    match meta.edition {
        Some(e) => extended_dir(dir, ", "@ + e.0),
        None => dir,
    }
}

/// The directory with the book's first narrator in its name.
pub open spec fn narrator_dir(exclude: bool, dir: Seq<char>, meta: MetaView) -> Seq<char> {
    if meta.narrators.len() > 0 && !exclude {
        extended_dir(dir, " {"@ + meta.narrators[0] + "}"@)
    } else {
        dir
    }
}

/// A book's directory below the directory of its library.
pub open spec fn book_dir(exclude: bool, meta: MetaView) -> Seq<char> {
    narrator_dir(exclude, edition_dir(base_dir(meta.authors[0], meta), meta), meta)
}

/// Where the edition or the narrator is to be added to the directory's name,
/// author, series and title leave a name to add it to.
pub open spec fn has_book_dir(exclude: bool, meta: MetaView) -> bool {
    meta.authors.len() > 0 && (meta.edition is Some || (meta.narrators.len() > 0 && !exclude))
        ==> crate::path::path_file_name(base_dir(meta.authors[0], meta)) is Some
}

/// The directory of a book in a library; a book without an author has none.
pub open spec fn wanted_dir(exclude: bool, library: Seq<char>, meta: MetaView) -> Option<Seq<char>> {
    if meta.authors.len() == 0 {
        None
    } else {
        Some(crate::path::path_join(library, book_dir(exclude, meta)))
    }
}

proof fn lemma_filter_chars(s: Seq<char>, p: spec_fn(char) -> bool)
    ensures
        forall|i: int| 0 <= i < s.filter(p).len() ==> p(#[trigger] s.filter(p)[i]),
        forall|i: int| 0 <= i < s.len() && p(#[trigger] s[i]) ==> s.filter(p).contains(s[i]),
    decreases s.len(),
{
    reveal(Seq::filter);
    if s.len() > 0 {
        let rest = s.drop_last();
        lemma_filter_chars(rest, p);
        let sub = rest.filter(p);
        assert forall|i: int| 0 <= i < s.len() && p(#[trigger] s[i]) implies s.filter(p).contains(
            s[i],
        ) by {
            if i < s.len() - 1 {
                assert(rest[i] == s[i]);
                assert(sub.contains(s[i]));
                let k = choose|k: int| 0 <= k < sub.len() && sub[k] == s[i];
                assert(s.filter(p)[k] == s[i]);
            } else {
                assert(s.filter(p).last() == s[i]);
            }
        }
    }
}

proof fn lemma_fitting(s: Seq<char>, n: nat)
    requires
        n >= 4,
    ensures
        crate::outside::fitting(s, n).len() <= s.len(),
        crate::outside::fitting(s, n) == s.take(crate::outside::fitting(s, n).len() as int),
        crate::outside::fitting(s, n) == s || crate::outside::fitting(s, n).len() * 4 + 4 > n,
        s.len() > 0 ==> crate::outside::fitting(s, n).len() > 0,
    decreases s.len(),
{
    reveal_with_fuel(crate::text::utf8_len, 2);
    assert(s.take(s.len() as int) == s);
    if s.len() > 0 && crate::text::utf8_len(s) > n {
        let rest = s.drop_last();
        lemma_fitting(rest, n);
        let k = crate::outside::fitting(s, n).len() as int;
        assert(rest.take(k) == s.take(k));
        crate::text::lemma_utf8_bound(rest);
        if rest.len() == 0 {
            assert(crate::text::utf8_len(rest) == 0);
        }
        if crate::outside::fitting(s, n) == rest {
            assert(crate::text::utf8_len(rest) + 4 >= crate::text::utf8_len(s));
        }
    }
}

/// A sanitized name holds no separator and is neither `.` nor `..`; it is empty
/// only where nothing but dots could be kept of the text.
pub proof fn sanitized_is_plain_name(text: Seq<char>)
    ensures
        !crate::outside::sanitized(text).contains('/'),
        crate::outside::sanitized(text) != seq!['.'],
        crate::outside::sanitized(text) != seq!['.', '.'],
        forall|i: int|
            0 <= i < text.len() && crate::outside::is_file_char(#[trigger] text[i]) && text[i]
                != '.' ==> crate::outside::sanitized(text).len() > 0,
{
    let p = |c: char| crate::outside::is_file_char(c);
    let kept = text.filter(p);
    let r = crate::outside::sanitized(text);
    lemma_filter_chars(text, p);
    lemma_fitting(kept, 255);
    if forall|i: int| 0 <= i < kept.len() ==> kept[i] == '.' {
        assert(r == Seq::<char>::empty());
        assert forall|i: int|
            0 <= i < text.len() && crate::outside::is_file_char(#[trigger] text[i]) && text[i]
                != '.' implies false by {
            assert(kept.contains(text[i]));
        }
    } else {
        let i = choose|i: int| 0 <= i < kept.len() && kept[i] != '.';
        assert(r == crate::outside::fitting(kept, 255));
        assert forall|k: int| 0 <= k < r.len() implies r[k] == kept[k] by {}
        assert forall|k: int| 0 <= k < r.len() implies r[k] != '/' by {
            assert(p(kept[k]));
        }
        if r == seq!['.'] || r == seq!['.', '.'] {
            assert(r.len() <= 2);
            assert(r == kept);
            assert(kept[i] == '.');
        }
    }
}

proof fn lemma_join_name(p: Seq<char>, name: Seq<char>)
    requires
        name.len() > 0,
        !name.contains('/'),
        crate::path::is_name(name),
        !crate::path::is_absolute(p),
    ensures
        crate::path::path_file_name(crate::path::path_join(p, name)) == Some(name),
        !crate::path::is_absolute(crate::path::path_join(p, name)),
{
    assert(name[0] != '/');
    crate::path::lemma_single_name(name);
    if p.len() > 0 {
        crate::path::join_appends_parts(p, name);
        assert((crate::path::parts(p) + seq![name]).last() == name);
        assert(crate::path::path_join(p, name)[0] == p[0]);
    } else {
        assert(crate::path::path_join(p, name) == name);
        assert(seq![name].last() == name);
    }
}

proof fn lemma_join_relative(p: Seq<char>, name: Seq<char>)
    requires
        !name.contains('/'),
        !crate::path::is_absolute(p),
    ensures
        !crate::path::is_absolute(crate::path::path_join(p, name)),
{
    if name.len() > 0 {
        assert(name[0] != '/');
    }
    if p.len() > 0 {
        assert(crate::path::path_join(p, name)[0] == p[0]);
    } else {
        assert(crate::path::path_join(p, name) == name);
    }
}

proof fn lemma_parent_relative(dir: Seq<char>)
    requires
        !crate::path::is_absolute(dir),
        crate::path::path_parent(dir) is Some,
    ensures
        !crate::path::is_absolute(crate::path::path_parent(dir).unwrap()),
{
    crate::path::lemma_spans(dir);
    let p = crate::path::path_parent(dir).unwrap();
    if p.len() > 0 {
        assert(p[0] == dir[0]);
    }
}

proof fn lemma_extended_dir(dir: Seq<char>, text: Seq<char>)
    requires
        !crate::path::is_absolute(dir),
        crate::path::path_file_name(dir) is Some,
        exists|i: int|
            0 <= i < text.len() && crate::outside::is_file_char(#[trigger] text[i]) && text[i]
                != '.',
    ensures
        !crate::path::is_absolute(extended_dir(dir, text)),
        crate::path::path_file_name(extended_dir(dir, text)) is Some,
{
    let f = crate::path::path_file_name(dir).unwrap();
    let name = f + text;
    let s = crate::outside::sanitized(name);
    sanitized_is_plain_name(name);
    let i = choose|i: int|
        0 <= i < text.len() && crate::outside::is_file_char(#[trigger] text[i]) && text[i] != '.';
    assert(name[f.len() + i] == text[i]);
    assert(s.len() > 0);
    assert(s[0] != '/');
    assert(crate::path::is_name(s));
    crate::path::lemma_spans(dir);
    assert(crate::path::path_parent(dir) is Some);
    let p = crate::path::path_parent(dir).unwrap();
    lemma_parent_relative(dir);
    lemma_join_name(p, s);
}

proof fn lemma_base_relative(author: Seq<char>, meta: MetaView)
    ensures
        !crate::path::is_absolute(base_dir(author, meta)),
{
    let top = crate::outside::sanitized(author);
    sanitized_is_plain_name(author);
    if top.len() > 0 {
        assert(top[0] != '/');
    }
    match filing_series(meta.series) {
        Some(s) => {
            sanitized_is_plain_name(s.name);
            sanitized_is_plain_name(numbered_title(s, meta.title));
            lemma_join_relative(top, crate::outside::sanitized(s.name));
            lemma_join_relative(
                crate::path::path_join(top, crate::outside::sanitized(s.name)),
                crate::outside::sanitized(numbered_title(s, meta.title)),
            );
        },
        None => {
            sanitized_is_plain_name(meta.title);
            lemma_join_relative(top, crate::outside::sanitized(meta.title));
        },
    }
}

proof fn lemma_edition_dir(author: Seq<char>, meta: MetaView)
    requires
        meta.edition is Some ==> crate::path::path_file_name(base_dir(author, meta)) is Some,
    ensures
        !crate::path::is_absolute(edition_dir(base_dir(author, meta), meta)),
        crate::path::path_file_name(base_dir(author, meta)) is Some
            ==> crate::path::path_file_name(edition_dir(base_dir(author, meta), meta)) is Some,
{
    lemma_base_relative(author, meta);
    if meta.edition is Some {
        let text = ", "@ + meta.edition.unwrap().0;
        reveal_strlit(", ");
        assert(text[0] == ',');
        assert(crate::outside::is_file_char(text[0]));
        lemma_extended_dir(base_dir(author, meta), text);
    }
}

/// A book's directory lies under the directory of its library, whatever the
/// book's title, author, series, edition and narrator are.
pub proof fn book_dir_stays_in_library(exclude: bool, library: Seq<char>, meta: MetaView)
    requires
        meta.authors.len() > 0,
        has_book_dir(exclude, meta),
    ensures
        crate::path::lies_under(wanted_dir(exclude, library, meta).unwrap(), library),
{
    let base = base_dir(meta.authors[0], meta);
    lemma_edition_dir(meta.authors[0], meta);
    let dir = edition_dir(base, meta);
    if meta.narrators.len() > 0 && !exclude {
        let text = " {"@ + meta.narrators[0] + "}"@;
        reveal_strlit(" {");
        assert(text[0] == ' ');
        assert(crate::outside::is_file_char(text[0]));
        lemma_extended_dir(dir, text);
    }
    crate::path::join_stays_under(library, book_dir(exclude, meta));
}

/// Whether the narrator is left out of directory names makes no difference to a
/// book without narrators.
pub proof fn narrator_setting_needs_narrator(library: Seq<char>, meta: MetaView)
    requires
        meta.narrators.len() == 0,
    ensures
        wanted_dir(true, library, meta) == wanted_dir(false, library, meta),
{
}

/// A text that a file name can hold as it is.
pub open spec fn is_plain_text(s: Seq<char>) -> bool {
    forall|i: int| 0 <= i < s.len() ==> crate::outside::is_file_char(#[trigger] s[i])
}

proof fn lemma_filter_plain(s: Seq<char>, p: spec_fn(char) -> bool)
    requires
        forall|i: int| 0 <= i < s.len() ==> p(#[trigger] s[i]),
    ensures
        s.filter(p) == s,
    decreases s.len(),
{
    reveal(Seq::filter);
    if s.len() > 0 {
        let rest = s.drop_last();
        assert forall|i: int| 0 <= i < rest.len() implies p(#[trigger] rest[i]) by {
            assert(rest[i] == s[i]);
        }
        lemma_filter_plain(rest, p);
        assert(p(s[s.len() - 1]));
        assert(s == rest.push(s.last()));
    }
}

/// Sanitizing keeps only characters that file names have, and it keeps a short
/// text of such characters as it is, unless that is made of dots.
pub proof fn plain_text_is_kept(text: Seq<char>)
    ensures
        is_plain_text(crate::outside::sanitized(text)),
        is_plain_text(text) && crate::text::utf8_len(text) <= 255 && (exists|i: int|
            0 <= i < text.len() && #[trigger] text[i] != '.') ==> crate::outside::sanitized(text)
            == text,
{
    let p = |c: char| crate::outside::is_file_char(c);
    let kept = text.filter(p);
    let r = crate::outside::sanitized(text);
    lemma_filter_chars(text, p);
    lemma_fitting(kept, 255);
    assert forall|i: int| 0 <= i < r.len() implies crate::outside::is_file_char(#[trigger] r[i]) by {
        assert(r[i] == kept[i]);
        assert(p(kept[i]));
    }
    if is_plain_text(text) && crate::text::utf8_len(text) <= 255 && (exists|i: int|
        0 <= i < text.len() && #[trigger] text[i] != '.') {
        assert forall|i: int| 0 <= i < text.len() implies p(#[trigger] text[i]) by {
            assert(crate::outside::is_file_char(text[i]));
        }
        lemma_filter_plain(text, p);
        let i = choose|i: int| 0 <= i < text.len() && #[trigger] text[i] != '.';
        assert(kept[i] != '.');
    }
}

/// A list of names of directories and files, none of them special.
spec fn are_names(p: Seq<Seq<char>>) -> bool {
    forall|k: int|
        0 <= k < p.len() ==> (#[trigger] p[k]).len() > 0 && crate::path::is_name(p[k])
            && is_plain_text(p[k])
}

proof fn lemma_join_sanitized(p: Seq<char>, text: Seq<char>)
    requires
        !crate::path::is_absolute(p),
        are_names(crate::path::parts(p)),
    ensures
        ({
            let s = crate::outside::sanitized(text);
            let r = crate::path::parts(crate::path::path_join(p, s));
            &&& !crate::path::is_absolute(crate::path::path_join(p, s))
            &&& are_names(r)
            &&& s.len() > 0 ==> r == crate::path::parts(p).push(s)
            &&& s.len() == 0 ==> r == crate::path::parts(p)
        }),
{
    let s = crate::outside::sanitized(text);
    let t = crate::path::path_join(p, s);
    sanitized_is_plain_name(text);
    plain_text_is_kept(text);
    lemma_join_relative(p, s);
    crate::path::lemma_no_parts();
    if s.len() > 0 {
        assert(s[0] != '/');
        crate::path::lemma_single_name(s);
        assert(crate::path::is_name(s)) by {
            assert(s != seq!['/']) by {
                assert(seq!['/'].contains('/')) by {
                    assert(seq!['/'][0] == '/');
                }
            }
        }
        if p.len() > 0 {
            crate::path::join_appends_parts(p, s);
            assert(crate::path::parts(t) == crate::path::parts(p).push(s));
        } else {
            assert(p == Seq::<char>::empty());
            assert(t == s);
            assert(crate::path::parts(t) == crate::path::parts(p).push(s));
        }
    } else {
        assert(s == Seq::<char>::empty());
        if p.len() > 0 {
            crate::path::join_appends_parts(p, s);
            assert(crate::path::parts(t) == crate::path::parts(p));
        } else {
            assert(t == p);
        }
    }
}

proof fn lemma_base_names(author: Seq<char>, meta: MetaView)
    ensures
        !crate::path::is_absolute(base_dir(author, meta)),
        are_names(crate::path::parts(base_dir(author, meta))),
{
    let top = crate::outside::sanitized(author);
    let none = Seq::<char>::empty();
    crate::path::lemma_no_parts();
    lemma_join_sanitized(none, author);
    assert(crate::path::path_join(none, top) == top);
    match filing_series(meta.series) {
        Some(s) => {
            lemma_join_sanitized(top, s.name);
            lemma_join_sanitized(
                crate::path::path_join(top, crate::outside::sanitized(s.name)),
                numbered_title(s, meta.title),
            );
        },
        None => {
            lemma_join_sanitized(top, meta.title);
        },
    }
}

proof fn lemma_extended_names(dir: Seq<char>, text: Seq<char>)
    requires
        !crate::path::is_absolute(dir),
        are_names(crate::path::parts(dir)),
        crate::path::parts(dir).len() > 0,
        exists|i: int|
            0 <= i < text.len() && crate::outside::is_file_char(#[trigger] text[i]) && text[i]
                != '.',
    ensures
        ({
            let p = crate::path::parts(dir);
            let r = crate::path::parts(extended_dir(dir, text));
            &&& !crate::path::is_absolute(extended_dir(dir, text))
            &&& are_names(r)
            &&& r == p.drop_last().push(crate::outside::sanitized(p.last() + text))
        }),
{
    let p = crate::path::parts(dir);
    assert(p.last() == p[p.len() - 1]);
    let name = p.last() + text;
    sanitized_is_plain_name(name);
    let i = choose|i: int|
        0 <= i < text.len() && crate::outside::is_file_char(#[trigger] text[i]) && text[i] != '.';
    assert(name[p.last().len() + i] == text[i]);
    crate::path::lemma_spans(dir);
    let above = crate::path::path_parent(dir).unwrap();
    lemma_parent_relative(dir);
    crate::path::parent_drops_last_part(dir);
    assert forall|k: int| 0 <= k < p.drop_last().len() implies (#[trigger] p.drop_last()[k]).len()
        > 0 && crate::path::is_name(p.drop_last()[k]) && is_plain_text(p.drop_last()[k]) by {
        assert(p.drop_last()[k] == p[k]);
    }
    lemma_join_sanitized(above, name);
}

/// A book's directory joined to that of its library: the components of both.
proof fn lemma_in_library(library: Seq<char>, dir: Seq<char>)
    requires
        !crate::path::is_absolute(dir),
        are_names(crate::path::parts(dir)),
    ensures
        crate::path::parts(crate::path::path_join(library, dir)) == crate::path::parts(library)
            + crate::path::parts(dir),
{
    let p = crate::path::parts(dir);
    crate::path::lemma_no_parts();
    if library.len() > 0 {
        if p.len() > 0 {
            assert(p[0] != seq!['.']);
        }
        crate::path::join_appends_parts(library, dir);
    } else {
        assert(library == Seq::<char>::empty());
        assert(crate::path::path_join(library, dir) == dir);
        assert(crate::path::parts(library) + p == p);
    }
}

proof fn lemma_edition_names(author: Seq<char>, meta: MetaView)
    requires
        meta.edition is Some ==> crate::path::path_file_name(base_dir(author, meta)) is Some,
    ensures
        ({
            let base = crate::path::parts(base_dir(author, meta));
            let dir = edition_dir(base_dir(author, meta), meta);
            &&& !crate::path::is_absolute(dir)
            &&& are_names(crate::path::parts(dir))
            &&& are_names(base)
            &&& crate::path::parts(dir) == match meta.edition {
                Some(e) => base.drop_last().push(
                    crate::outside::sanitized(base.last() + (", "@ + e.0)),
                ),
                None => base,
            }
        }),
{
    lemma_base_names(author, meta);
    if meta.edition is Some {
        let text = ", "@ + meta.edition.unwrap().0;
        reveal_strlit(", ");
        assert(text[0] == ',');
        assert(crate::outside::is_file_char(text[0]));
        lemma_extended_names(base_dir(author, meta), text);
    }
}

/// A book that has an edition goes where it would go without one, but for the
/// name of its directory, which ends in the edition: this holds whether or not
/// the book belongs to a series.
pub proof fn edition_ends_directory_name(library: Seq<char>, meta: MetaView)
    requires
        meta.authors.len() > 0,
        meta.edition is Some,
        has_book_dir(true, meta),
    ensures
        ({
            let plain = MetaView { edition: None, ..meta };
            let with = crate::path::parts(wanted_dir(true, library, meta).unwrap());
            let without = crate::path::parts(wanted_dir(true, library, plain).unwrap());
            &&& without.len() > 0
            &&& with == without.drop_last().push(
                crate::outside::sanitized(without.last() + ", "@ + meta.edition.unwrap().0),
            )
            &&& crate::path::path_file_name(wanted_dir(true, library, plain).unwrap()) == Some(
                without.last(),
            )
        }),
{
    let plain = MetaView { edition: None, ..meta };
    let author = meta.authors[0];
    let e = meta.edition.unwrap();
    let base = crate::path::parts(base_dir(author, meta));
    assert(base_dir(author, plain) == base_dir(author, meta));
    lemma_edition_names(author, meta);
    lemma_edition_names(author, plain);
    lemma_in_library(library, book_dir(true, meta));
    lemma_in_library(library, book_dir(true, plain));
    let l = crate::path::parts(library);
    let with = crate::path::parts(wanted_dir(true, library, meta).unwrap());
    let without = crate::path::parts(wanted_dir(true, library, plain).unwrap());
    assert(without == l + base);
    assert(without.last() == base.last());
    assert(base.last() == base[base.len() - 1]);
    assert(base.last() + (", "@ + e.0) == base.last() + ", "@ + e.0);
    assert(with == without.drop_last().push(
        crate::outside::sanitized(without.last() + ", "@ + e.0),
    ));
}

/// A book whose narrator is named goes where it would go with the narrator left
/// out, but for the name of its directory, which ends in the first narrator in
/// braces, behind the edition.
pub proof fn narrator_ends_directory_name(library: Seq<char>, meta: MetaView)
    requires
        meta.authors.len() > 0,
        meta.narrators.len() > 0,
        has_book_dir(false, meta),
    ensures
        ({
            let with = crate::path::parts(wanted_dir(false, library, meta).unwrap());
            let without = crate::path::parts(wanted_dir(true, library, meta).unwrap());
            &&& without.len() > 0
            &&& with == without.drop_last().push(
                crate::outside::sanitized(without.last() + " {"@ + meta.narrators[0] + "}"@),
            )
        }),
{
    let author = meta.authors[0];
    let text = " {"@ + meta.narrators[0] + "}"@;
    let dir = edition_dir(base_dir(author, meta), meta);
    let p = crate::path::parts(dir);
    lemma_edition_names(author, meta);
    reveal_strlit(" {");
    assert(text[0] == ' ');
    assert(crate::outside::is_file_char(text[0]));
    assert(p.len() > 0);
    lemma_extended_names(dir, text);
    lemma_in_library(library, book_dir(false, meta));
    lemma_in_library(library, book_dir(true, meta));
    let l = crate::path::parts(library);
    let with = crate::path::parts(wanted_dir(false, library, meta).unwrap());
    let without = crate::path::parts(wanted_dir(true, library, meta).unwrap());
    assert(without == l + p);
    assert(without.last() == p.last());
    assert(p.last() + text == p.last() + " {"@ + meta.narrators[0] + "}"@);
    assert(with == without.drop_last().push(
        crate::outside::sanitized(without.last() + " {"@ + meta.narrators[0] + "}"@),
    ));
}

/// Where narrators are left out, the narrators of a book make no difference to
/// its directory, nor do they where they are named but for the first; and
/// neither do the authors but for the first.
pub proof fn only_first_names_count(
    exclude: bool,
    library: Seq<char>,
    meta: MetaView,
    authors: Seq<Seq<char>>,
    narrators: Seq<Seq<char>>,
)
    requires
        meta.authors.len() > 0,
        authors.len() > 0,
        authors[0] == meta.authors[0],
        exclude || (narrators.len() > 0 && meta.narrators.len() > 0 && narrators[0]
            == meta.narrators[0]),
    ensures
        wanted_dir(exclude, library, MetaView { authors, narrators, ..meta }) == wanted_dir(
            exclude,
            library,
            meta,
        ),
{
}

/// Two books that differ in nothing but the names of their editions go into
/// different directories, where the names are plain and fit.
pub proof fn editions_are_kept_apart(
    library: Seq<char>,
    meta: MetaView,
    a: (Seq<char>, u64),
    b: (Seq<char>, u64),
)
    requires
        meta.authors.len() > 0,
        has_book_dir(true, MetaView { edition: Some(a), ..meta }),
        a.0 != b.0,
        is_plain_text(a.0),
        is_plain_text(b.0),
        ({
            let plain = MetaView { edition: None, ..meta };
            let own = crate::path::parts(wanted_dir(true, library, plain).unwrap()).last();
            &&& crate::text::utf8_len(own + ", "@ + a.0) <= 255
            &&& crate::text::utf8_len(own + ", "@ + b.0) <= 255
        }),
    ensures
        !crate::path::same_path(
            wanted_dir(true, library, MetaView { edition: Some(a), ..meta }).unwrap(),
            wanted_dir(true, library, MetaView { edition: Some(b), ..meta }).unwrap(),
        ),
{
    let x = MetaView { edition: Some(a), ..meta };
    let y = MetaView { edition: Some(b), ..meta };
    let plain = MetaView { edition: None, ..meta };
    let author = meta.authors[0];
    assert(base_dir(author, x) == base_dir(author, y));
    assert(base_dir(author, x) == base_dir(author, plain));
    assert(MetaView { edition: None, ..x } == plain);
    assert(MetaView { edition: None, ..y } == plain);
    edition_ends_directory_name(library, x);
    edition_ends_directory_name(library, y);
    let without = crate::path::parts(wanted_dir(true, library, plain).unwrap());
    let own = without.last();
    assert(is_plain_text(own)) by {
        lemma_edition_names(author, plain);
        lemma_in_library(library, book_dir(true, plain));
        let base = crate::path::parts(base_dir(author, plain));
        assert(base.len() > 0);
        assert(base.last() == base[base.len() - 1]);
        assert(without.last() == base.last());
    }
    reveal_strlit(", ");
    lemma_named_with(own, a.0);
    lemma_named_with(own, b.0);
    let p = own + ", "@ + a.0;
    let q = own + ", "@ + b.0;
    if p == q {
        assert(p.skip((own + ", "@).len() as int) == a.0);
        assert(q.skip((own + ", "@).len() as int) == b.0);
    }
    assert(without.drop_last().push(p).last() == p);
    assert(without.drop_last().push(q).last() == q);
}

proof fn lemma_named_with(own: Seq<char>, edition: Seq<char>)
    requires
        is_plain_text(own),
        is_plain_text(edition),
        crate::text::utf8_len(own + ", "@ + edition) <= 255,
    ensures
        crate::outside::sanitized(own + ", "@ + edition) == own + ", "@ + edition,
{
    reveal_strlit(", ");
    let p = own + ", "@ + edition;
    assert forall|i: int| 0 <= i < p.len() implies crate::outside::is_file_char(#[trigger] p[i]) by {
        if i < own.len() {
            assert(p[i] == own[i]);
        } else if i < own.len() + 2 {
            assert(p[i] == ", "@[i - own.len()]);
        } else {
            assert(p[i] == edition[i - own.len() - 2]);
        }
    }
    assert(p[own.len() as int] == ',');
    plain_text_is_kept(p);
}

proof fn lemma_numbered_from(s: Seq<SeriesView>, from: int, i: int)
    requires
        0 <= from <= i <= s.len(),
        forall|j: int| from <= j < i ==> !(#[trigger] s[j]).numbered,
        i < s.len() ==> s[i].numbered,
    ensures
        numbered_from(s, from) == (if i < s.len() {
            Some(i)
        } else {
            None
        }),
    decreases i - from,
{
    if from < i {
        assert(!s[from].numbered);
        lemma_numbered_from(s, from + 1, i);
    }
}

/// A book's directory in full, but for edition and narrator: the author's, in it
/// the one of the series, if there is one, and in that the book's own. The
/// series is the first in which the book has a number, and then the number
/// stands before the title; else it is the first. `i` is the place of the
/// first series with a number.
pub proof fn directory_is_by_author_series_and_title(library: Seq<char>, meta: MetaView, i: int)
    requires
        meta.authors.len() > 0,
        meta.edition is None,
        0 <= i <= meta.series.len(),
        forall|j: int| 0 <= j < i ==> !(#[trigger] meta.series[j]).numbered,
        i < meta.series.len() ==> meta.series[i].numbered,
        crate::outside::sanitized(meta.authors[0]).len() > 0,
        crate::outside::sanitized(meta.title).len() > 0,
    ensures
        ({
            let top = crate::path::parts(library).push(crate::outside::sanitized(meta.authors[0]));
            let dir = crate::path::parts(wanted_dir(true, library, meta).unwrap());
            &&& meta.series.len() == 0 ==> dir == top.push(crate::outside::sanitized(meta.title))
            &&& i < meta.series.len() && crate::outside::sanitized(meta.series[i].name).len() > 0
                ==> dir == top.push(crate::outside::sanitized(meta.series[i].name)).push(
                crate::outside::sanitized(
                    meta.series[i].name + " #"@ + meta.series[i].entries + " - "@ + meta.title,
                ),
            )
            &&& i == meta.series.len() && i > 0 && crate::outside::sanitized(
                meta.series[0].name,
            ).len() > 0 ==> dir == top.push(crate::outside::sanitized(meta.series[0].name)).push(
                crate::outside::sanitized(meta.title),
            )
        }),
{
    let none = Seq::<char>::empty();
    let author = meta.authors[0];
    let top = crate::outside::sanitized(author);
    let l = crate::path::parts(library);
    let dir = crate::path::parts(wanted_dir(true, library, meta).unwrap());
    lemma_numbered_from(meta.series, 0, i);
    crate::path::lemma_no_parts();
    lemma_join_sanitized(none, author);
    assert(crate::path::path_join(none, top) == top);
    assert(crate::path::parts(top) == Seq::<Seq<char>>::empty().push(top));
    lemma_base_names(author, meta);
    lemma_in_library(library, book_dir(true, meta));
    match filing_series(meta.series) {
        Some(s) => {
            let name = crate::outside::sanitized(s.name);
            let own = numbered_title(s, meta.title);
            let mid = crate::path::path_join(top, name);
            lemma_join_sanitized(top, s.name);
            lemma_join_sanitized(mid, own);
            if name.len() > 0 {
                if s.numbered {
                    reveal_strlit(" #");
                    assert(own[s.name.len() as int + 1] == '#');
                    assert(crate::outside::is_file_char(own[s.name.len() as int + 1]));
                    sanitized_is_plain_name(own);
                }
                assert(dir == l.push(top).push(name).push(crate::outside::sanitized(own)));
            }
        },
        None => {
            lemma_join_sanitized(top, meta.title);
            assert(dir == l.push(top).push(crate::outside::sanitized(meta.title)));
        },
    }
}

/// A book has a directory in every library if it has an author, and in none if
/// it has not.
pub proof fn author_is_needed(exclude: bool, library: Seq<char>, meta: MetaView)
    ensures
        wanted_dir(exclude, library, meta) is Some <==> meta.authors.len() > 0,
{
}

fn filing_index(series: &Vec<Series>) -> (r: Option<usize>)
    ensures
        r is Some == filing_series(crate::model::series_of(series@)) is Some,
        r matches Some(i) ==> i < series@.len() && filing_series(crate::model::series_of(series@))
            == Some(series@[i as int]@),
{
    let ghost s = crate::model::series_of(series@);
    let mut i: usize = 0;
    while i < series.len()
        invariant
            i <= series@.len(),
            s == crate::model::series_of(series@),
            numbered_from(s, 0) == numbered_from(s, i as int),
        decreases series@.len() - i,
    {
        if series[i].numbered {
            return Some(i);
        }
        i = i + 1;
    }
    if series.len() > 0 {
        Some(0)
    } else {
        None
    }
}

fn extend_dir(dir: &mut PathBuf, text: &str)
    requires
        crate::path::path_file_name(old(dir)@) is Some,
    ensures
        final(dir)@ == extended_dir(old(dir)@, text@),
{
    match dir.file_name() {
        Some(name) => {
            let wanted = sanitize(concat(name.as_str(), text).as_str());
            dir.set_file_name(wanted.as_str());
        },
        None => {},
    }
}

/// The directory of a book by author, series and title alone.
fn base_path(author: &str, meta: &TorrentMeta) -> (r: PathBuf)
    ensures
        r@ == base_dir(author@, meta@),
{
    let top = PathBuf::new(sanitize(author).as_str());
    match filing_index(&meta.series) {
        Some(i) => {
            let s = &meta.series[i];
            let title = if s.numbered {
                let mut t = concat3(s.name.as_str(), " #", s.entries.as_str());
                t.append(" - ");
                t.append(meta.title.as_str());
                t
            } else {
                meta.title.clone()
            };
            assert(title@ == numbered_title(s@, meta.title@));
            top.join(sanitize(s.name.as_str()).as_str()).join(sanitize(title.as_str()).as_str())
        },
        None => top.join(sanitize(meta.title.as_str()).as_str()),
    }
}

/// Whether `library_dir` can name a book's directory: where the edition or the
/// narrator is to be added, author, series and title have to leave a name to add
/// it to.
pub fn has_dir_name(exclude_narrator_in_library_dir: bool, meta: &TorrentMeta) -> (r: bool)
    ensures
        r == has_book_dir(exclude_narrator_in_library_dir, meta@),
{
    if meta.authors.len() == 0 {
        return true;
    }
    if meta.edition.is_none() && (meta.narrators.len() == 0 || exclude_narrator_in_library_dir) {
        return true;
    }
    assert(meta.authors@[0]@ == meta@.authors[0]);
    base_path(meta.authors[0].as_str(), meta).file_name().is_some()
}

/// The directory of a book in a library: by author, series and title, with the
/// edition and, unless it is to be left out, the first narrator. A book without
/// an author has none.
pub fn library_dir(
    exclude_narrator_in_library_dir: bool,
    library: &Library,
    meta: &TorrentMeta,
) -> (r: Option<PathBuf>)
    requires
        has_book_dir(exclude_narrator_in_library_dir, meta@),
    ensures
        crate::model::path_of(r) == wanted_dir(
            exclude_narrator_in_library_dir,
            library.opts().library_dir@,
            meta@,
        ),
{
    if meta.authors.len() == 0 {
        return None;
    }
    let author = meta.authors[0].as_str();
    assert(author@ == meta@.authors[0]);
    let mut dir = base_path(author, meta);
    let ghost base = dir@;
    proof {
        if meta.edition is Some || (meta.narrators@.len() > 0 && !exclude_narrator_in_library_dir) {
            lemma_edition_dir(author@, meta@);
        }
    }
    match &meta.edition {
        Some(e) => {
            let text = concat(", ", e.0.as_str());
            extend_dir(&mut dir, text.as_str());
        },
        None => {},
    }
    assert(dir@ == edition_dir(base, meta@));
    if meta.narrators.len() > 0 && !exclude_narrator_in_library_dir {
        assert(meta.narrators@[0]@ == meta@.narrators[0]);
        let text = concat3(" {", meta.narrators[0].as_str(), "}");
        extend_dir(&mut dir, text.as_str());
    }
    Some(library.options().library_dir.join(dir.as_str()))
}

/// Something with a file name.
pub trait HasFileName {
    /// The file name in lowercase, which each type says for itself.
    open spec fn lower_name(&self) -> Seq<char> {
        arbitrary()
    }

    /// The file name in lowercase.
    fn name_lower(&self) -> (r: String)
        ensures
            r@ == self.lower_name(),
    ;
}

impl HasFileName for TorrentContent {
    open spec fn lower_name(&self) -> Seq<char> {
        crate::outside::lowercase(self.name@)
    }

    fn name_lower(&self) -> (r: String) {
        to_lowercase(self.name.as_str())
    }
}

/// A wanted format as the ending of a file name: in lowercase, with a dot.
pub open spec fn format_ending(format: Seq<char>) -> Seq<char> {
    let l = crate::outside::lowercase(format);
    if crate::text::has_prefix(l, "."@) {
        l
    } else {
        "."@ + l
    }
}

/// The lowercase names of a list of files.
pub open spec fn lower_names<T: HasFileName>(files: Seq<T>) -> Seq<Seq<char>> {
    files.map_values(|f: T| f.lower_name())
}

/// Some name has the ending.
pub open spec fn some_ends_with(names: Seq<Seq<char>>, ending: Seq<char>) -> bool {
    exists|i: int| 0 <= i < names.len() && crate::text::has_suffix(#[trigger] names[i], ending)
}

/// The ending of the first of the wanted formats that a file has.
pub open spec fn selected_format(wanted: Seq<Seq<char>>, names: Seq<Seq<char>>) -> Option<Seq<char>>
    decreases wanted.len(),
{
    if wanted.len() == 0 {
        None
    } else if some_ends_with(names, format_ending(wanted[0])) {
        Some(format_ending(wanted[0]))
    } else {
        selected_format(wanted.skip(1), names)
    }
}

/// The formats that are looked for: a library's own list, even an empty one, in
/// place of the general list.
pub open spec fn formats_in_force(own: Option<Vec<String>>, general: Seq<String>) -> Seq<Seq<char>> {
    match own {
        Some(v) => crate::text::texts(v@),
        None => crate::text::texts(general),
    }
}

/// What a search for a format returns is the ending of one of the wanted
/// formats, some file has it, and no file has the ending of a format that is
/// wanted more. Nothing is returned only where no file has a wanted ending.
pub proof fn selected_format_is_most_wanted(wanted: Seq<Seq<char>>, names: Seq<Seq<char>>)
    ensures
        match selected_format(wanted, names) {
            Some(e) => some_ends_with(names, e) && exists|i: int|
                0 <= i < wanted.len() && e == format_ending(#[trigger] wanted[i]) && (forall|j: int|
                    0 <= j < i ==> !some_ends_with(names, format_ending(#[trigger] wanted[j]))),
            None => forall|j: int|
                0 <= j < wanted.len() ==> !some_ends_with(
                    names,
                    format_ending(#[trigger] wanted[j]),
                ),
        },
    decreases wanted.len(),
{
    if wanted.len() > 0 && !some_ends_with(names, format_ending(wanted[0])) {
        let rest = wanted.skip(1);
        selected_format_is_most_wanted(rest, names);
        match selected_format(rest, names) {
            Some(e) => {
                let k = choose|i: int|
                    0 <= i < rest.len() && e == format_ending(#[trigger] rest[i]) && (forall|j: int|
                        0 <= j < i ==> !some_ends_with(names, format_ending(#[trigger] rest[j])));
                assert(e == format_ending(wanted[k + 1]));
                assert forall|j: int| 0 <= j < k + 1 implies !some_ends_with(
                    names,
                    format_ending(#[trigger] wanted[j]),
                ) by {
                    if j > 0 {
                        assert(rest[j - 1] == wanted[j]);
                    }
                }
            },
            None => {
                assert forall|j: int| 0 <= j < wanted.len() implies !some_ends_with(
                    names,
                    format_ending(#[trigger] wanted[j]),
                ) by {
                    if j > 0 {
                        assert(rest[j - 1] == wanted[j]);
                    }
                }
            },
        }
    } else if wanted.len() > 0 {
        assert(format_ending(wanted[0]) == format_ending(wanted[0]));
    }
}

fn any_ends_with<T: HasFileName>(files: &[T], ending: &str) -> (r: bool)
    ensures
        r == some_ends_with(lower_names(files@), ending@),
{
    let ghost names = lower_names(files@);
    let mut i: usize = 0;
    while i < files.len()
        invariant
            i <= files@.len(),
            names == lower_names(files@),
            forall|k: int| 0 <= k < i ==> !crate::text::has_suffix(#[trigger] names[k], ending@),
        decreases files@.len() - i,
    {
        let name = files[i].name_lower();
        assert(name@ == names[i as int]);
        if ends_with(name.as_str(), ending) {
            return true;
        }
        i = i + 1;
    }
    false
}

/// The first of the wanted formats that some file has, as the ending of a file
/// name.
pub fn select_format<T: HasFileName>(
    overridden_wanted_formats: &Option<Vec<String>>,
    wanted_formats: &[String],
    files: &[T],
) -> (r: Option<String>)
    ensures
        crate::text::text_of(r) == selected_format(
            formats_in_force(*overridden_wanted_formats, wanted_formats@),
            lower_names(files@),
        ),
{
    let wanted = match overridden_wanted_formats {
        Some(v) => v.as_slice(),
        None => wanted_formats,
    };
    let ghost all = crate::text::texts(wanted@);
    let ghost names = lower_names(files@);
    let mut i: usize = 0;
    assert(all.skip(0) == all);
    while i < wanted.len()
        invariant
            i <= wanted@.len(),
            all == crate::text::texts(wanted@),
            all == formats_in_force(*overridden_wanted_formats, wanted_formats@),
            names == lower_names(files@),
            selected_format(all, names) == selected_format(all.skip(i as int), names),
        decreases wanted@.len() - i,
    {
        let lower = to_lowercase(wanted[i].as_str());
        let ending = if starts_with(lower.as_str(), ".") {
            lower
        } else {
            concat(".", lower.as_str())
        };
        assert(ending@ == format_ending(all[i as int]));
        assert(all.skip(i as int)[0] == all[i as int]);
        assert(all.skip(i as int).skip(1) == all.skip(i + 1));
        if any_ends_with(files, ending.as_str()) {
            return Some(ending);
        }
        i = i + 1;
    }
    None
}

/// Of several mappings with the same number of components the last one counts,
/// and one with more components counts before any with fewer.
pub proof fn last_of_equal_mappings_counts(m: Seq<(PathBuf, PathBuf)>, path: Seq<char>, j: int)
    requires
        0 <= j < m.len(),
        crate::path::lies_under(path, m[j].0@),
    ensures
        best_mapping(m, path) matches Some(i) && 0 <= i < m.len() && crate::path::parts(
            m[j].0@,
        ).len() <= crate::path::parts(m[i].0@).len() && (crate::path::parts(m[j].0@).len()
            == crate::path::parts(m[i].0@).len() ==> j <= i),
    decreases m.len(),
{
    let rest = m.drop_last();
    if j < m.len() - 1 {
        assert(rest[j] == m[j]);
        last_of_equal_mappings_counts(rest, path, j);
        let k = best_mapping(rest, path).unwrap();
        assert(rest[k] == m[k]);
    } else {
        mapping_is_most_specific(rest, path);
        if best_mapping(rest, path) is Some {
            let k = best_mapping(rest, path).unwrap();
            assert(rest[k] == m[k]);
        }
    }
}

/// A wanted format is looked for in lowercase with a single dot before it,
/// whether or not it is given with the dot.
pub proof fn format_is_looked_for_with_dot(format: Seq<char>)
    ensures
        ({
            let lower = crate::outside::lowercase(format);
            let ending = format_ending(format);
            &&& ending.len() > 0 && ending[0] == '.'
            &&& lower.len() > 0 && lower[0] == '.' ==> ending == lower
            &&& lower.len() == 0 || lower[0] != '.' ==> ending.len() == lower.len() + 1
                && ending.skip(1) == lower
        }),
{
    reveal_strlit(".");
    let lower = crate::outside::lowercase(format);
    if lower.len() > 0 {
        assert(lower.take(1)[0] == lower[0]);
        if lower[0] == '.' {
            assert(lower.take(1) == "."@);
        }
    }
    assert(("."@ + lower).skip(1) == lower);
}

/// A library's own list of formats takes the place of the general one, even
/// where it is empty, and the names of the files are compared in lowercase.
pub proof fn own_formats_replace_general_ones(
    own: Vec<String>,
    general: Seq<String>,
    files: Seq<TorrentContent>,
    i: int,
)
    ensures
        formats_in_force(Some(own), general) == crate::text::texts(own@),
        formats_in_force(None, general) == crate::text::texts(general),
        lower_names(files).len() == files.len(),
        0 <= i < files.len() ==> lower_names(files)[i] == crate::outside::lowercase(files[i].name@),
{
}

} // verus!
