//! Storytel's categories and genres as categories and tags of the library.
use vstd::prelude::*;
use vstd::string::*;

use crate::order::insert_text;
use crate::text::{same_text, trim};

verus! {

/// The categories of the library that Storytel's values map to.
#[derive(Clone, Copy, Debug, PartialEq, Eq, PartialOrd, Ord, Structural)]
pub enum Category {
    Children,
    Crime,
    YoungAdult,
}

/// Categories and tags, each in ascending order and each once.
#[derive(Debug, PartialEq)]
pub struct CategoryMapping {
    pub categories: Vec<Category>,
    pub freeform_tags: Vec<String>,
}

/// The category and the genres, in one list, without white space around them.
pub open spec fn storytel_values(category: Option<Seq<char>>, genres: Seq<Seq<char>>) -> Seq<
    Seq<char>,
> {
    (match category {
        Some(c) => seq![crate::text::trimmed(c)],
        None => seq![],
    }) + genres.map_values(|g: Seq<char>| crate::text::trimmed(g))
}

/// The categories that a book has, in ascending order.
pub open spec fn storytel_categories(values: Seq<Seq<char>>, kids_book: bool) -> Seq<Category> {
    (if kids_book {
        seq![Category::Children]
    } else {
        seq![]
    }) + (if values.contains("Crime"@) {
        seq![Category::Crime]
    } else {
        seq![]
    }) + (if values.contains("Teens & Young Adult"@) {
        seq![Category::YoungAdult]
    } else {
        seq![]
    })
}

/// The tag that a value becomes, where it becomes one.
pub open spec fn storytel_tag(value: Seq<char>) -> Option<Seq<char>> {
    if value == ""@ || value == "Audiobook"@ || value == "Crime"@ || value
        == "Teens & Young Adult"@ {
        None
    } else if value == "Fiction"@ {
        Some("Literature & Fiction"@)
    } else {
        Some(value)
    }
}

/// The tag stands for one of the values.
pub open spec fn is_storytel_tag(values: Seq<Seq<char>>, tag: Seq<char>) -> bool {
    exists|i: int| 0 <= i < values.len() && storytel_tag(#[trigger] values[i]) == Some(tag)
}

struct Found {
    crime: bool,
    young_adult: bool,
}

fn take_value(value: &str, found: &mut Found, tags: &mut Vec<String>)
    requires
        crate::order::is_ascending(crate::text::texts(old(tags)@)),
    ensures
        crate::order::is_ascending(crate::text::texts(final(tags)@)),
        forall|x: Seq<char>| #[trigger]
            crate::text::texts(final(tags)@).contains(x) <==> crate::text::texts(
                old(tags)@,
            ).contains(x) || storytel_tag(crate::text::trimmed(value@)) == Some(x),
        final(found).crime == (old(found).crime || crate::text::trimmed(value@) == "Crime"@),
        final(found).young_adult == (old(found).young_adult || crate::text::trimmed(value@)
            == "Teens & Young Adult"@),
{
    proof {
        reveal_strlit("");
        reveal_strlit("Audiobook");
        reveal_strlit("Crime");
        reveal_strlit("Teens & Young Adult");
        reveal_strlit("Fiction");
        assert("Fiction"@.len() == 7);
        assert(""@.len() == 0 && "Audiobook"@.len() == 9 && "Crime"@.len() == 5
            && "Teens & Young Adult"@.len() == 19);
    }
    let v = trim(value);
    if same_text(v.as_str(), "") || same_text(v.as_str(), "Audiobook") {
        return ;
    }
    if same_text(v.as_str(), "Crime") {
        found.crime = true;
    } else if same_text(v.as_str(), "Fiction") {
        insert_text(tags, "Literature & Fiction".to_owned());
    } else if same_text(v.as_str(), "Teens & Young Adult") {
        found.young_adult = true;
    } else {
        insert_text(tags, v);
    }
}

/// Maps a book's category and genres to categories and tags.
pub fn map_storytel_categories(category: Option<&str>, genres: &Vec<String>, kids_book: bool) -> (r:
    CategoryMapping)
    ensures
        ({
            let values = storytel_values(
                crate::linker::torrent::str_of(category),
                crate::text::texts(genres@),
            );
            &&& r.categories@ == storytel_categories(values, kids_book)
            &&& crate::order::is_ascending(crate::text::texts(r.freeform_tags@))
            &&& forall|x: Seq<char>| #[trigger]
                crate::text::texts(r.freeform_tags@).contains(x) <==> is_storytel_tag(values, x)
        }),
{
    let ghost values = storytel_values(
        crate::linker::torrent::str_of(category),
        crate::text::texts(genres@),
    );
    let mut tags: Vec<String> = Vec::new();
    let mut found = Found { crime: false, young_adult: false };
    let ghost n: int = 0;
    match category {
        Some(c) => {
            take_value(c, &mut found, &mut tags);
            proof {
                n = 1;
                assert(values[0] == crate::text::trimmed(c@));
                assert(values.take(1)[0] == values[0]);
            }
        },
        None => {},
    }
    assert(found.crime == values.take(n).contains("Crime"@));
    assert(found.young_adult == values.take(n).contains("Teens & Young Adult"@));
    let mut i: usize = 0;
    while i < genres.len()
        invariant
            i <= genres@.len(),
            0 <= n <= 1,
            n == (if category is Some {
                1int
            } else {
                0int
            }),
            values == storytel_values(
                crate::linker::torrent::str_of(category),
                crate::text::texts(genres@),
            ),
            values.len() == n + genres@.len(),
            crate::order::is_ascending(crate::text::texts(tags@)),
            forall|x: Seq<char>| #[trigger]
                crate::text::texts(tags@).contains(x) <==> is_storytel_tag(values.take(n + i), x),
            found.crime == values.take(n + i).contains("Crime"@),
            found.young_adult == values.take(n + i).contains("Teens & Young Adult"@),
        decreases genres@.len() - i,
    {
        let ghost before = values.take(n + i);
        let ghost now = values.take(n + i + 1);
        take_value(genres[i].as_str(), &mut found, &mut tags);
        proof {
            let v = crate::text::trimmed(genres@[i as int]@);
            assert(values[n + i] == v);
            assert(now == before.push(v));
            assert(now.last() == v && now[n + i] == v);
            assert forall|x: Seq<char>| is_storytel_tag(now, x) <==> is_storytel_tag(before, x)
                || storytel_tag(v) == Some(x) by {
                if is_storytel_tag(now, x) {
                    let k = choose|k: int|
                        0 <= k < now.len() && storytel_tag(#[trigger] now[k]) == Some(x);
                    if k < n + i {
                        assert(before[k] == now[k]);
                    }
                }
                if is_storytel_tag(before, x) {
                    let k = choose|k: int|
                        0 <= k < before.len() && storytel_tag(#[trigger] before[k]) == Some(x);
                    assert(now[k] == before[k]);
                }
            }
            assert forall|x: Seq<char>| now.contains(x) <==> before.contains(x) || x == v by {
                if now.contains(x) {
                    let k = choose|k: int| 0 <= k < now.len() && now[k] == x;
                    if k < n + i {
                        assert(before[k] == x);
                    }
                }
                if before.contains(x) {
                    let k = choose|k: int| 0 <= k < before.len() && before[k] == x;
                    assert(now[k] == x);
                }
            }
        }
        i = i + 1;
    }
    assert(values.take(n + i) == values);
    let mut categories: Vec<Category> = Vec::new();
    if kids_book {
        categories.push(Category::Children);
    }
    if found.crime {
        categories.push(Category::Crime);
    }
    if found.young_adult {
        categories.push(Category::YoungAdult);
    }
    assert(categories@ == storytel_categories(values, kids_book));
    CategoryMapping { categories, freeform_tags: tags }
}

/// What a value becomes: `Crime` and `Teens & Young Adult` become categories and
/// no tags, an empty one and `Audiobook` become nothing, `Fiction` becomes a tag
/// of another name, and every other value becomes a tag as it is. Children's
/// books are told by themselves.
pub proof fn value_becomes_category_or_tag(
    values: Seq<Seq<char>>,
    value: Seq<char>,
    kids_book: bool,
)
    ensures
        storytel_categories(values, kids_book).contains(Category::Children) <==> kids_book,
        storytel_categories(values, kids_book).contains(Category::Crime) <==> values.contains(
            "Crime"@,
        ),
        storytel_categories(values, kids_book).contains(Category::YoungAdult) <==> values.contains(
            "Teens & Young Adult"@,
        ),
        !is_storytel_tag(values, seq![]),
        !is_storytel_tag(values, "Audiobook"@),
        !is_storytel_tag(values, "Crime"@),
        !is_storytel_tag(values, "Teens & Young Adult"@),
        !is_storytel_tag(values, "Fiction"@),
        values.contains("Fiction"@) ==> is_storytel_tag(values, "Literature & Fiction"@),
        value.len() > 0 && value != "Audiobook"@ && value != "Crime"@ && value
            != "Teens & Young Adult"@ && value != "Fiction"@ && value != "Literature & Fiction"@
            ==> (is_storytel_tag(values, value) <==> values.contains(value)),
{
    reveal_strlit("");
    reveal_strlit("Audiobook");
    reveal_strlit("Crime");
    reveal_strlit("Teens & Young Adult");
    reveal_strlit("Fiction");
    reveal_strlit("Literature & Fiction");
    assert(""@.len() == 0 && "Audiobook"@.len() == 9 && "Crime"@.len() == 5
        && "Teens & Young Adult"@.len() == 19 && "Fiction"@.len() == 7
        && "Literature & Fiction"@.len() == 20);
    assert(""@ == Seq::<char>::empty());
    let none = Seq::<Category>::empty();
    let a = if kids_book {
        seq![Category::Children]
    } else {
        none
    };
    let b = if values.contains("Crime"@) {
        seq![Category::Crime]
    } else {
        none
    };
    let c = if values.contains("Teens & Young Adult"@) {
        seq![Category::YoungAdult]
    } else {
        none
    };
    let all = storytel_categories(values, kids_book);
    assert(all == a + b + c);
    if kids_book {
        assert(all[0] == Category::Children);
    }
    if values.contains("Crime"@) {
        assert(all[a.len() as int] == Category::Crime);
    }
    if values.contains("Teens & Young Adult"@) {
        assert(all[(a.len() + b.len()) as int] == Category::YoungAdult);
    }
    if values.contains("Fiction"@) {
        let k = choose|k: int| 0 <= k < values.len() && values[k] == "Fiction"@;
        assert(storytel_tag(values[k]) == Some("Literature & Fiction"@));
    }
    if values.contains(value) {
        let k = choose|k: int| 0 <= k < values.len() && values[k] == value;
        assert(values[k] == value);
    }
}

/// The values of a book are its category, where it has one, and its genres, each
/// without the white space around it.
pub proof fn values_are_category_and_genres(
    category: Seq<char>,
    genres: Seq<Seq<char>>,
    i: int,
)
    requires
        0 <= i < genres.len(),
    ensures
        storytel_values(None, genres).len() == genres.len(),
        storytel_values(None, genres)[i] == crate::text::trimmed(genres[i]),
        storytel_values(Some(category), genres).len() == genres.len() + 1,
        storytel_values(Some(category), genres)[0] == crate::text::trimmed(category),
        storytel_values(Some(category), genres)[i + 1] == crate::text::trimmed(genres[i]),
{
}

} // verus!
