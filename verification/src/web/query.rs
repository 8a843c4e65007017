//! The state of the page of selected torrents, in the address of the page.
use vstd::prelude::*;
use vstd::string::*;

use crate::text::{number_text, parse_usize, same_text};
use crate::web::selected::{SelectedPageFilter, SelectedPageSort};

verus! {

/// The names that columns and conditions have in an address.
#[derive(Debug, PartialEq)]
pub struct QueryNames {
    pub sorts: Vec<(SelectedPageSort, String)>,
    pub filters: Vec<(SelectedPageFilter, String)>,
}

/// The name of a column, from the entry `i` on.
pub open spec fn sort_name(v: Seq<(SelectedPageSort, String)>, sort: SelectedPageSort, i: int) -> Option<
    Seq<char>,
>
    decreases v.len() - i,
{
    if i < 0 || i >= v.len() {
        None
    } else if v[i].0 == sort {
        Some(v[i].1@)
    } else {
        sort_name(v, sort, i + 1)
    }
}

/// The column with a name, from the entry `i` on.
pub open spec fn named_sort(v: Seq<(SelectedPageSort, String)>, name: Seq<char>, i: int) -> Option<
    SelectedPageSort,
>
    decreases v.len() - i,
{
    if i < 0 || i >= v.len() {
        None
    } else if v[i].1@ == name {
        Some(v[i].0)
    } else {
        named_sort(v, name, i + 1)
    }
}

/// The name of a condition, from the entry `i` on.
pub open spec fn filter_key(
    v: Seq<(SelectedPageFilter, String)>,
    filter: SelectedPageFilter,
    i: int,
) -> Option<Seq<char>>
    decreases v.len() - i,
{
    if i < 0 || i >= v.len() {
        None
    } else if v[i].0 == filter {
        Some(v[i].1@)
    } else {
        filter_key(v, filter, i + 1)
    }
}

/// The condition with a name, from the entry `i` on.
pub open spec fn named_filter(v: Seq<(SelectedPageFilter, String)>, name: Seq<char>, i: int) -> Option<
    SelectedPageFilter,
>
    decreases v.len() - i,
{
    if i < 0 || i >= v.len() {
        None
    } else if v[i].1@ == name {
        Some(v[i].0)
    } else {
        named_filter(v, name, i + 1)
    }
}

impl QueryNames {
    fn name_of_sort(&self, sort: SelectedPageSort) -> (r: Option<String>)
        ensures
            crate::text::text_of(r) == sort_name(self.sorts@, sort, 0),
    {
        let mut i: usize = 0;
        while i < self.sorts.len()
            invariant
                i <= self.sorts@.len(),
                sort_name(self.sorts@, sort, 0) == sort_name(self.sorts@, sort, i as int),
            decreases self.sorts@.len() - i,
        {
            if self.sorts[i].0 == sort {
                return Some(self.sorts[i].1.clone());
            }
            i = i + 1;
        }
        None
    }

    fn sort_of_name(&self, name: &str) -> (r: Option<SelectedPageSort>)
        ensures
            r == named_sort(self.sorts@, name@, 0),
    {
        let mut i: usize = 0;
        while i < self.sorts.len()
            invariant
                i <= self.sorts@.len(),
                named_sort(self.sorts@, name@, 0) == named_sort(self.sorts@, name@, i as int),
            decreases self.sorts@.len() - i,
        {
            if same_text(self.sorts[i].1.as_str(), name) {
                return Some(self.sorts[i].0);
            }
            i = i + 1;
        }
        None
    }

    fn name_of_filter(&self, filter: SelectedPageFilter) -> (r: Option<String>)
        ensures
            crate::text::text_of(r) == filter_key(self.filters@, filter, 0),
    {
        let mut i: usize = 0;
        while i < self.filters.len()
            invariant
                i <= self.filters@.len(),
                filter_key(self.filters@, filter, 0) == filter_key(
                    self.filters@,
                    filter,
                    i as int,
                ),
            decreases self.filters@.len() - i,
        {
            if self.filters[i].0 == filter {
                return Some(self.filters[i].1.clone());
            }
            i = i + 1;
        }
        None
    }

    fn filter_of_name(&self, name: &str) -> (r: Option<SelectedPageFilter>)
        ensures
            r == named_filter(self.filters@, name@, 0),
    {
        let mut i: usize = 0;
        while i < self.filters.len()
            invariant
                i <= self.filters@.len(),
                named_filter(self.filters@, name@, 0) == named_filter(
                    self.filters@,
                    name@,
                    i as int,
                ),
            decreases self.filters@.len() - i,
        {
            if same_text(self.filters[i].1.as_str(), name) {
                return Some(self.filters[i].0);
            }
            i = i + 1;
        }
        None
    }
}

/// What the page shows: its order, its conditions, where it begins, and its
/// columns as their text in an address, where they are not the usual ones.
#[derive(Debug, PartialEq)]
pub struct PageQueryState {
    pub sort: Option<SelectedPageSort>,
    pub asc: bool,
    pub filters: Vec<(SelectedPageFilter, String)>,
    pub from: usize,
    pub show: Option<String>,
}

#[verifier::ext_equal]
pub struct StateView {
    pub sort: Option<SelectedPageSort>,
    pub asc: bool,
    pub filters: Seq<(SelectedPageFilter, Seq<char>)>,
    pub from: usize,
    pub show: Option<Seq<char>>,
}

pub open spec fn conditions_of(v: Seq<(SelectedPageFilter, String)>) -> Seq<
    (SelectedPageFilter, Seq<char>),
> {
    v.map_values(|p: (SelectedPageFilter, String)| (p.0, p.1@))
}

impl View for PageQueryState {
    type V = StateView;

    open spec fn view(&self) -> StateView {
        StateView {
            sort: self.sort,
            asc: self.asc,
            filters: conditions_of(self.filters@),
            from: self.from,
            show: crate::text::text_of(self.show),
        }
    }
}

/// The state of a page whose address says nothing.
pub open spec fn initial_state() -> StateView {
    StateView { sort: None, asc: false, filters: seq![], from: 0, show: None }
}

impl Default for PageQueryState {
    fn default() -> (r: Self)
        ensures
            r@ == initial_state(),
    {
        let r = PageQueryState {
            sort: None,
            asc: false,
            filters: Vec::new(),
            from: 0,
            show: None,
        };
        assert(r@ =~= initial_state());
        r
    }
}

pub open spec fn pairs_of(v: Seq<(String, String)>) -> Seq<(Seq<char>, Seq<char>)> {
    v.map_values(|p: (String, String)| (p.0@, p.1@))
}

/// The state after one more parameter. The parameters `sort_by`, `asc`, `from`
/// and `show` stand for what they say; the others are conditions, and those
/// that are not known do not count.
pub open spec fn with_parameter(
    sorts: Seq<(SelectedPageSort, String)>,
    filters: Seq<(SelectedPageFilter, String)>,
    state: StateView,
    key: Seq<char>,
    value: Seq<char>,
) -> StateView {
    if key == "sort_by"@ {
        StateView { sort: named_sort(sorts, value, 0), ..state }
    } else if key == "asc"@ {
        StateView { asc: value == "true"@, ..state }
    } else if key == "from"@ {
        match crate::text::parsed_number(value) {
            Some(n) if n <= usize::MAX => StateView { from: n as usize, ..state },
            _ => state,
        }
    } else if key == "show"@ {
        StateView { show: Some(value), ..state }
    } else {
        match named_filter(filters, key, 0) {
            Some(f) => StateView { filters: state.filters.push((f, value)), ..state },
            None => state,
        }
    }
}

/// The state that an address's parameters stand for.
pub open spec fn parsed_state(
    sorts: Seq<(SelectedPageSort, String)>,
    filters: Seq<(SelectedPageFilter, String)>,
    pairs: Seq<(Seq<char>, Seq<char>)>,
) -> StateView
    decreases pairs.len(),
{
    if pairs.len() == 0 {
        initial_state()
    } else {
        with_parameter(
            sorts,
            filters,
            parsed_state(sorts, filters, pairs.drop_last()),
            pairs.last().0,
            pairs.last().1,
        )
    }
}

proof fn lemma_key_words()
    ensures
        "sort_by"@ != "asc"@,
        "sort_by"@ != "from"@,
        "sort_by"@ != "show"@,
        "asc"@ != "from"@,
        "asc"@ != "show"@,
        "from"@ != "show"@,
{
    reveal_strlit("sort_by");
    reveal_strlit("asc");
    reveal_strlit("from");
    reveal_strlit("show");
    assert("sort_by"@.len() == 7 && "asc"@.len() == 3 && "from"@.len() == 4 && "show"@.len() == 4);
    assert("from"@[0] == 'f' && "show"@[0] == 's');
}

/// The state that an address's parameters, in order, stand for.
pub fn parse_query_state(pairs: &Vec<(String, String)>, names: &QueryNames) -> (r: PageQueryState)
    ensures
        r@ == parsed_state(names.sorts@, names.filters@, pairs_of(pairs@)),
{
    let ghost all = pairs_of(pairs@);
    let mut sort: Option<SelectedPageSort> = None;
    let mut asc = false;
    let mut filters: Vec<(SelectedPageFilter, String)> = Vec::new();
    let mut from: usize = 0;
    let mut show: Option<String> = None;
    let mut i: usize = 0;
    proof {
        lemma_key_words();
        assert(conditions_of(filters@) == Seq::<(SelectedPageFilter, Seq<char>)>::empty());
    }
    while i < pairs.len()
        invariant
            i <= pairs@.len(),
            all == pairs_of(pairs@),
            (StateView {
                sort,
                asc,
                filters: conditions_of(filters@),
                from,
                show: crate::text::text_of(show),
            }) == parsed_state(names.sorts@, names.filters@, all.take(i as int)),
        decreases pairs@.len() - i,
    {
        let key = pairs[i].0.as_str();
        let value = pairs[i].1.as_str();
        let ghost now = all.take(i + 1);
        let ghost before = parsed_state(names.sorts@, names.filters@, all.take(i as int));
        let ghost old_filters = conditions_of(filters@);
        proof {
            assert(now.drop_last() == all.take(i as int));
            assert(now.last() == (key@, value@));
        }
        if same_text(key, "sort_by") {
            sort = names.sort_of_name(value);
        } else if same_text(key, "asc") {
            asc = same_text(value, "true");
        } else if same_text(key, "from") {
            match parse_usize(value) {
                Some(n) => {
                    from = n;
                },
                None => {},
            }
        } else if same_text(key, "show") {
            show = Some(value.to_owned());
        } else {
            match names.filter_of_name(key) {
                Some(f) => {
                    filters.push((f, value.to_owned()));
                    assert(conditions_of(filters@) == old_filters.push((f, value@)));
                },
                None => {},
            }
        }
        assert((StateView {
            sort,
            asc,
            filters: conditions_of(filters@),
            from,
            show: crate::text::text_of(show),
        }) == with_parameter(names.sorts@, names.filters@, before, key@, value@));
        i = i + 1;
    }
    assert(all.take(i as int) == all);
    PageQueryState { sort, asc, filters, from, show }
}

/// The parameters for the conditions, in order; one without a name has none.
pub open spec fn condition_pairs(
    filters: Seq<(SelectedPageFilter, String)>,
    conditions: Seq<(SelectedPageFilter, Seq<char>)>,
) -> Seq<(Seq<char>, Seq<char>)>
    decreases conditions.len(),
{
    if conditions.len() == 0 {
        seq![]
    } else {
        let before = condition_pairs(filters, conditions.drop_last());
        match filter_key(filters, conditions.last().0, 0) {
            Some(name) => before.push((name, conditions.last().1)),
            None => before,
        }
    }
}

/// The parameters of the address of a page in a state: only what differs from
/// the initial state is said.
pub open spec fn state_pairs(
    sorts: Seq<(SelectedPageSort, String)>,
    filters: Seq<(SelectedPageFilter, String)>,
    state: StateView,
) -> Seq<(Seq<char>, Seq<char>)> {
    (match state.sort {
        Some(s) => match sort_name(sorts, s, 0) {
            Some(name) => seq![("sort_by"@, name)],
            None => seq![],
        },
        None => seq![],
    }) + crate::web::types::only_if(state.asc, ("asc"@, "true"@)) + crate::web::types::only_if(
        state.from > 0,
        ("from"@, crate::text::decimal(state.from as nat)),
    ) + (match state.show {
        Some(s) => seq![("show"@, s)],
        None => seq![],
    }) + condition_pairs(filters, state.filters)
}

fn push_pair(params: &mut Vec<(String, String)>, key: String, value: String)
    ensures
        pairs_of(final(params)@) == pairs_of(old(params)@) + seq![(key@, value@)],
{
    let ghost before = pairs_of(params@);
    let ghost pair = (key@, value@);
    params.push((key, value));
    assert(pairs_of(params@) == before.push(pair));
    assert(before.push(pair) == before + seq![pair]);
}

/// The parameters, in order, of the address of a page in a state. `show` is the
/// text of the page's columns, where they are not the usual ones.
pub fn build_query_url(
    sort: Option<SelectedPageSort>,
    asc: bool,
    filters: &Vec<(SelectedPageFilter, String)>,
    from: usize,
    show: Option<String>,
    names: &QueryNames,
) -> (r: Vec<(String, String)>)
    ensures
        pairs_of(r@) == state_pairs(
            names.sorts@,
            names.filters@,
            StateView {
                sort,
                asc,
                filters: conditions_of(filters@),
                from,
                show: crate::text::text_of(show),
            },
        ),
{
    let ghost state = StateView {
        sort,
        asc,
        filters: conditions_of(filters@),
        from,
        show: crate::text::text_of(show),
    };
    let mut params: Vec<(String, String)> = Vec::new();
    assert(pairs_of(params@) == Seq::<(Seq<char>, Seq<char>)>::empty());
    let ghost mut want = pairs_of(params@);
    match sort {
        Some(s) => match names.name_of_sort(s) {
            Some(name) => {
                push_pair(&mut params, "sort_by".to_owned(), name);
                proof {
                    want = want + seq![("sort_by"@, name@)];
                    assert(want == seq![("sort_by"@, name@)]);
                }
            },
            None => {},
        },
        None => {},
    }
    proof {
        reveal(crate::web::types::only_if);
    }
    if asc {
        push_pair(&mut params, "asc".to_owned(), "true".to_owned());
    }
    proof {
        let add = crate::web::types::only_if(asc, ("asc"@, "true"@));
        if !asc {
            assert(want + add == want);
        }
        want = want + add;
    }
    if from > 0 {
        push_pair(&mut params, "from".to_owned(), number_text(from as u64));
    }
    proof {
        let add = crate::web::types::only_if(
            from > 0,
            ("from"@, crate::text::decimal(from as nat)),
        );
        if from == 0 {
            assert(want + add == want);
        }
        want = want + add;
    }
    match show {
        Some(s) => {
            push_pair(&mut params, "show".to_owned(), s);
            proof {
                want = want + seq![("show"@, s@)];
            }
        },
        None => {
            proof {
                let add = Seq::<(Seq<char>, Seq<char>)>::empty();
                assert(want + add == want);
            }
        },
    }
    let ghost head = want;
    let ghost conditions = conditions_of(filters@);
    let mut i: usize = 0;
    assert(head + Seq::<(Seq<char>, Seq<char>)>::empty() == head);
    while i < filters.len()
        invariant
            i <= filters@.len(),
            conditions == conditions_of(filters@),
            pairs_of(params@) == head + condition_pairs(
                names.filters@,
                conditions.take(i as int),
            ),
        decreases filters@.len() - i,
    {
        let ghost now = conditions.take(i + 1);
        let ghost before = condition_pairs(names.filters@, conditions.take(i as int));
        proof {
            assert(now.drop_last() == conditions.take(i as int));
            assert(now.last() == conditions[i as int]);
        }
        match names.name_of_filter(filters[i].0) {
            Some(name) => {
                let value = filters[i].1.clone();
                push_pair(&mut params, name, value);
                proof {
                    assert(head + before + seq![(name@, value@)] == head + before.push(
                        (name@, value@),
                    ));
                }
            },
            None => {},
        }
        i = i + 1;
    }
    assert(conditions.take(i as int) == conditions);
    assert(pairs_of(params@) == state_pairs(names.sorts@, names.filters@, state));
    params
}

/// The name of each column and each condition that the state has leads back to
/// it, and no condition is named like one of the other parameters.
pub open spec fn names_fit(
    sorts: Seq<(SelectedPageSort, String)>,
    filters: Seq<(SelectedPageFilter, String)>,
    state: StateView,
) -> bool {
    &&& state.sort matches Some(s) ==> (sort_name(sorts, s, 0) matches Some(name) && named_sort(
        sorts,
        name,
        0,
    ) == Some(s))
    &&& forall|i: int|
        0 <= i < state.filters.len() ==> fits(filters, (#[trigger] state.filters[i]).0)
}

/// The condition's name leads back to it and is not that of another parameter.
pub open spec fn fits(filters: Seq<(SelectedPageFilter, String)>, f: SelectedPageFilter) -> bool {
    filter_key(filters, f, 0) matches Some(name) && named_filter(filters, name, 0) == Some(f)
        && name != "sort_by"@ && name != "asc"@ && name != "from"@ && name != "show"@
}

proof fn lemma_read_conditions(
    sorts: Seq<(SelectedPageSort, String)>,
    filters: Seq<(SelectedPageFilter, String)>,
    head: Seq<(Seq<char>, Seq<char>)>,
    conditions: Seq<(SelectedPageFilter, Seq<char>)>,
)
    requires
        parsed_state(sorts, filters, head).filters.len() == 0,
        forall|i: int|
            0 <= i < conditions.len() ==> fits(filters, (#[trigger] conditions[i]).0),
    ensures
        parsed_state(sorts, filters, head + condition_pairs(filters, conditions)) == (StateView {
            filters: conditions,
            ..parsed_state(sorts, filters, head)
        }),
    decreases conditions.len(),
{
    let base = parsed_state(sorts, filters, head);
    if conditions.len() == 0 {
        assert(head + condition_pairs(filters, conditions) == head);
        assert(base.filters == conditions);
    } else {
        let rest = conditions.drop_last();
        assert forall|i: int| 0 <= i < rest.len() implies fits(
            filters,
            (#[trigger] rest[i]).0,
        ) by {
            assert(rest[i] == conditions[i]);
        }
        lemma_read_conditions(sorts, filters, head, rest);
        let last = conditions.last();
        assert(fits(filters, conditions[conditions.len() - 1].0));
        let name = filter_key(filters, last.0, 0).unwrap();
        let all = head + condition_pairs(filters, conditions);
        assert(all.drop_last() == head + condition_pairs(filters, rest));
        assert(all.last() == (name, last.1));
        assert(rest.push(last) == conditions);
    }
}

/// What an address is built from is what it is read as.
pub proof fn address_is_read_back(
    sorts: Seq<(SelectedPageSort, String)>,
    filters: Seq<(SelectedPageFilter, String)>,
    state: StateView,
)
    requires
        names_fit(sorts, filters, state),
    ensures
        parsed_state(sorts, filters, state_pairs(sorts, filters, state)) == state,
{
    lemma_key_words();
    reveal(crate::web::types::only_if);
    let none = Seq::<(Seq<char>, Seq<char>)>::empty();
    let a = match state.sort {
        Some(s) => match sort_name(sorts, s, 0) {
            Some(name) => seq![("sort_by"@, name)],
            None => seq![],
        },
        None => seq![],
    };
    let b = a + crate::web::types::only_if(state.asc, ("asc"@, "true"@));
    let c = b + crate::web::types::only_if(
        state.from > 0,
        ("from"@, crate::text::decimal(state.from as nat)),
    );
    let d = c + (match state.show {
        Some(s) => seq![("show"@, s)],
        None => seq![],
    });
    let empty = initial_state();
    assert(parsed_state(sorts, filters, none) == empty);
    let sa = StateView { sort: state.sort, ..empty };
    assert(parsed_state(sorts, filters, a) == sa) by {
        if state.sort is Some {
            let name = sort_name(sorts, state.sort.unwrap(), 0).unwrap();
            assert(a.drop_last() == none);
            assert(a.last() == ("sort_by"@, name));
        } else {
            assert(a == none);
        }
    }
    let sb = StateView { asc: state.asc, ..sa };
    assert(parsed_state(sorts, filters, b) == sb) by {
        if state.asc {
            assert(b.drop_last() == a);
            assert(b.last() == ("asc"@, "true"@));
        } else {
            assert(b == a);
        }
    }
    let sc = StateView { from: state.from, ..sb };
    assert(parsed_state(sorts, filters, c) == sc) by {
        if state.from > 0 {
            assert(c.drop_last() == b);
            assert(c.last() == ("from"@, crate::text::decimal(state.from as nat)));
            crate::text::decimal_is_read_back(state.from as nat);
        } else {
            assert(c == b);
        }
    }
    let sd = StateView { show: state.show, ..sc };
    assert(parsed_state(sorts, filters, d) == sd) by {
        match state.show {
            Some(s) => {
                assert(d.drop_last() == c);
                assert(d.last() == ("show"@, s));
            },
            None => {
                assert(d == c);
            },
        }
    }
    lemma_read_conditions(sorts, filters, d, state.filters);
    assert(state_pairs(sorts, filters, state) == d + condition_pairs(filters, state.filters));
}

/// What each parameter of an address sets; the last one of a name counts, a
/// number that cannot be read changes nothing, and neither does a parameter
/// whose name is not known.
pub proof fn parameter_sets_its_part(
    sorts: Seq<(SelectedPageSort, String)>,
    filters: Seq<(SelectedPageFilter, String)>,
    pairs: Seq<(Seq<char>, Seq<char>)>,
    key: Seq<char>,
    value: Seq<char>,
    n: usize,
)
    ensures
        ({
            let before = parsed_state(sorts, filters, pairs);
            &&& parsed_state(sorts, filters, pairs.push(("sort_by"@, value))) == (StateView {
                sort: named_sort(sorts, value, 0),
                ..before
            })
            &&& parsed_state(sorts, filters, pairs.push(("asc"@, "true"@))) == (StateView {
                asc: true,
                ..before
            })
            &&& value != "true"@ ==> parsed_state(sorts, filters, pairs.push(("asc"@, value))) == (
            StateView { asc: false, ..before })
            &&& parsed_state(
                sorts,
                filters,
                pairs.push(("from"@, crate::text::decimal(n as nat))),
            ) == (StateView { from: n, ..before })
            &&& crate::text::parsed_number(value) is None ==> parsed_state(
                sorts,
                filters,
                pairs.push(("from"@, value)),
            ) == before
            &&& parsed_state(sorts, filters, pairs.push(("show"@, value))) == (StateView {
                show: Some(value),
                ..before
            })
            &&& key != "sort_by"@ && key != "asc"@ && key != "from"@ && key != "show"@ ==> match named_filter(
                filters,
                key,
                0,
            ) {
                Some(f) => parsed_state(sorts, filters, pairs.push((key, value))) == (StateView {
                    filters: before.filters.push((f, value)),
                    ..before
                }),
                None => parsed_state(sorts, filters, pairs.push((key, value))) == before,
            }
        }),
        parsed_state(sorts, filters, seq![]) == (StateView {
            sort: None,
            asc: false,
            filters: seq![],
            from: 0,
            show: None,
        }),
{
    reveal_strlit("sort_by");
    reveal_strlit("asc");
    reveal_strlit("from");
    reveal_strlit("show");
    assert("sort_by"@.len() == 7 && "asc"@.len() == 3 && "from"@.len() == 4 && "show"@.len() == 4);
    assert("from"@[0] == 'f' && "show"@[0] == 's');
    crate::text::decimal_is_read_back(n as nat);
    let a = ("sort_by"@, value);
    let b = ("asc"@, value);
    let t = ("asc"@, "true"@);
    let c = ("from"@, value);
    let d = ("from"@, crate::text::decimal(n as nat));
    let e = ("show"@, value);
    let f = (key, value);
    assert(pairs.push(a).drop_last() == pairs && pairs.push(a).last() == a);
    assert(pairs.push(b).drop_last() == pairs && pairs.push(b).last() == b);
    assert(pairs.push(t).drop_last() == pairs && pairs.push(t).last() == t);
    assert(pairs.push(c).drop_last() == pairs && pairs.push(c).last() == c);
    assert(pairs.push(d).drop_last() == pairs && pairs.push(d).last() == d);
    assert(pairs.push(e).drop_last() == pairs && pairs.push(e).last() == e);
    assert(pairs.push(f).drop_last() == pairs && pairs.push(f).last() == f);
}

} // verus!
