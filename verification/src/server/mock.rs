//! A stand-in for the torrent client and the tracker, to try the manager out
//! with: which torrents and search results it makes up.
use vstd::prelude::*;
use vstd::string::*;

use crate::outside::to_lowercase;
use crate::text::{concat, concat3, has_text, number_text, parse_usize, slice, split, starts_with, trim};

verus! {

/// How many torrents the client has.
pub const TORRENT_COUNT: usize = 35;

/// The number at which the ids of search results begin.
pub const FIRST_RESULT_ID: u64 = 99_000;

/// `n` zeros.
pub open spec fn zeros(n: nat) -> Seq<char> {
    Seq::new(n, |i: int| '0')
}

/// A number in decimal notation, with zeros in front of it up to a width.
pub open spec fn padded(n: nat, width: nat) -> Seq<char> {
    let d = crate::text::decimal(n);
    if d.len() < width {
        zeros((width - d.len()) as nat) + d
    } else {
        d
    }
}

/// A number in decimal notation, with zeros in front of it up to a width.
pub fn padded_text(n: u64, width: usize) -> (r: String)
    ensures
        r@ == padded(n as nat, width as nat),
{
    let digits = number_text(n);
    let len: usize = digits.as_str().unicode_len();
    let mut front = "".to_owned();
    proof {
        reveal_strlit("");
        reveal_strlit("0");
    }
    let mut have: usize = len;
    while have < width
        invariant
            digits@ == crate::text::decimal(n as nat),
            len == digits@.len(),
            len <= have,
            have <= width || have == len,
            front@ == zeros((have - len) as nat),
            "0"@ == seq!['0'],
        decreases width - have,
    {
        front.append("0");
        have = have + 1;
        assert(front@ == zeros((have - len) as nat));
    }
    let r = concat(front.as_str(), digits.as_str());
    assert(zeros(0) + digits@ == digits@);
    r
}

proof fn lemma_zeros_value(k: nat, d: Seq<char>)
    requires
        forall|i: int| 0 <= i < d.len() ==> crate::text::is_digit(#[trigger] d[i]),
    ensures
        crate::text::digits_value(zeros(k) + d) == crate::text::digits_value(d),
        forall|i: int|
            0 <= i < (zeros(k) + d).len() ==> crate::text::is_digit(#[trigger] (zeros(k) + d)[i]),
    decreases d.len(), k,
{
    let s = zeros(k) + d;
    assert forall|i: int| 0 <= i < s.len() implies crate::text::is_digit(#[trigger] s[i]) by {
        if i >= k {
            assert(s[i] == d[i - k]);
        }
    }
    if d.len() > 0 {
        lemma_zeros_value(k, d.drop_last());
        assert(s.drop_last() == zeros(k) + d.drop_last());
        assert(s.last() == d.last());
    } else if k > 0 {
        lemma_zeros_value((k - 1) as nat, d);
        assert(s.drop_last() == zeros((k - 1) as nat) + d);
        assert(s.last() == '0');
    } else {
        assert(s == d);
    }
}

/// The number in a torrent's hash.
pub open spec fn torrent_index(hash: Seq<char>) -> Option<nat> {
    if crate::text::has_prefix(hash, "torrent-"@) {
        crate::text::parsed_number(hash.skip("torrent-"@.len() as int))
    } else {
        None
    }
}

/// The number in a torrent's hash, where it fits.
pub fn parse_torrent_index(hash: &str) -> (r: Option<usize>)
    ensures
        r == (match torrent_index(hash@) {
            Some(n) if n <= usize::MAX => Some(n as usize),
            _ => None,
        }),
{
    proof {
        reveal_strlit("torrent-");
    }
    if !starts_with(hash, "torrent-") {
        return None;
    }
    let rest = slice(hash, 8, hash.unicode_len());
    assert(rest@ == hash@.skip(8));
    parse_usize(rest.as_str())
}

/// The hash that a number is written into is read back as that number.
pub proof fn torrent_hash_is_read_back(n: nat, width: nat)
    ensures
        torrent_index("torrent-"@ + padded(n, width)) == Some(n),
{
    let p = padded(n, width);
    let h = "torrent-"@ + p;
    assert(h.take("torrent-"@.len() as int) == "torrent-"@);
    assert(h.skip("torrent-"@.len() as int) == p);
    crate::text::lemma_decimal(n);
    let d = crate::text::decimal(n);
    if d.len() < width {
        lemma_zeros_value((width - d.len()) as nat, d);
    }
    assert(crate::text::is_digit(p[0]));
}

/// The title of a made-up torrent.
pub open spec fn title(n: nat) -> Seq<char> {
    "Test Book "@ + padded(n, 3)
}

/// The title of a made-up torrent.
pub fn torrent_title(index: usize) -> (r: String)
    ensures
        r@ == title(index as nat),
{
    concat("Test Book ", padded_text(index as u64, 3).as_str())
}

/// A torrent that the client has.
#[derive(Debug, PartialEq)]
pub struct MockTorrent {
    pub hash: String,
    pub title: String,
}

/// The client has the torrent.
pub open spec fn is_listed(hash: Seq<char>) -> bool {
    torrent_index(hash) matches Some(n) && 1 <= n <= TORRENT_COUNT
}

/// The torrent of a hash, as the client lists it.
pub open spec fn is_listing(hash: Seq<char>, t: MockTorrent) -> bool {
    is_listed(hash) && t.hash@ == hash && t.title@ == title(torrent_index(hash).unwrap())
}

/// The torrent of a hash, where the client has it.
pub fn mock_qbit_torrent(hash: &str) -> (r: Option<MockTorrent>)
    ensures
        r is Some == is_listed(hash@),
        r matches Some(t) ==> is_listing(hash@, t),
{
    match parse_torrent_index(hash) {
        Some(n) => {
            if n < 1 || n > TORRENT_COUNT {
                return None;
            }
            Some(MockTorrent { hash: hash.to_owned(), title: torrent_title(n) })
        },
        None => None,
    }
}

/// The hashes that are asked for: those between the bars, or the first one
/// where none is given.
pub open spec fn asked_hashes(hashes: Option<Seq<char>>) -> Seq<Seq<char>> {
    match hashes {
        Some(h) if h.len() > 0 => crate::text::pieces(h, "|"@),
        _ => seq!["torrent-001"@],
    }
}

/// The hashes that the client has torrents for.
pub open spec fn listed_hashes(hashes: Seq<Seq<char>>) -> Seq<Seq<char>>
    decreases hashes.len(),
{
    if hashes.len() == 0 {
        seq![]
    } else {
        let before = listed_hashes(hashes.drop_last());
        if is_listed(hashes.last()) {
            before.push(hashes.last())
        } else {
            before
        }
    }
}

/// The torrents that are asked for, of those that the client has. Where no
/// hashes are given, the first torrent is listed.
pub fn qbit_torrents_info(hashes: &Option<String>) -> (r: Vec<MockTorrent>)
    ensures
        ({
            let asked = listed_hashes(asked_hashes(crate::text::text_of(*hashes)));
            r@.len() == asked.len() && (forall|i: int|
                0 <= i < r@.len() ==> is_listing(asked[i], #[trigger] r@[i]))
        }),
{
    proof {
        reveal_strlit("|");
    }
    let requested: Vec<String> = match hashes {
        Some(h) => {
            if h.as_str().unicode_len() > 0 {
                split(h.as_str(), "|")
            } else {
                first_hash()
            }
        },
        None => first_hash(),
    };
    let ghost asked = asked_hashes(crate::text::text_of(*hashes));
    assert(crate::text::texts(requested@) == asked);
    let mut r: Vec<MockTorrent> = Vec::new();
    let mut i: usize = 0;
    while i < requested.len()
        invariant
            i <= requested@.len(),
            crate::text::texts(requested@) == asked,
            r@.len() == listed_hashes(asked.take(i as int)).len(),
            forall|k: int|
                0 <= k < r@.len() ==> is_listing(
                    listed_hashes(asked.take(i as int))[k],
                    #[trigger] r@[k],
                ),
        decreases requested@.len() - i,
    {
        let ghost now = asked.take(i + 1);
        proof {
            assert(now.drop_last() == asked.take(i as int));
            assert(now.last() == requested@[i as int]@);
        }
        match mock_qbit_torrent(requested[i].as_str()) {
            Some(t) => {
                r.push(t);
            },
            None => {},
        }
        i = i + 1;
    }
    assert(asked.take(i as int) == asked);
    r
}

fn first_hash() -> (r: Vec<String>)
    ensures
        crate::text::texts(r@) == seq!["torrent-001"@],
{
    let mut r: Vec<String> = Vec::new();
    r.push("torrent-001".to_owned());
    assert(crate::text::texts(r@) == seq!["torrent-001"@]);
    r
}

/// Where no hashes are given, a torrent is listed.
pub proof fn default_torrent_is_listed()
    ensures
        listed_hashes(asked_hashes(None)) == seq!["torrent-001"@],
{
    reveal_strlit("torrent-001");
    reveal_strlit("torrent-");
    reveal_with_fuel(listed_hashes, 2);
    reveal_with_fuel(crate::text::decimal, 2);
    torrent_hash_is_read_back(1, 3);
    assert(padded(1, 3) == seq!['0', '0', '1']);
    assert("torrent-001"@ == "torrent-"@ + padded(1, 3));
    assert(seq!["torrent-001"@].drop_last() == Seq::<Seq<char>>::empty());
}

/// The name of a torrent's only file, where the client has the torrent.
pub fn qbit_files(hash: &Option<String>) -> (r: Option<String>)
    ensures
        match crate::text::text_of(*hash) {
            Some(h) if is_listed(h) => r matches Some(name) && name@ == title(
                torrent_index(h).unwrap(),
            ) + ".m4b"@,
            _ => r is None,
        },
{
    match hash {
        Some(h) => match mock_qbit_torrent(h.as_str()) {
            Some(t) => Some(concat(t.title.as_str(), ".m4b")),
            None => None,
        },
        None => None,
    }
}

/// A search result that the tracker makes up; the rest of it is the same for
/// all.
#[derive(Debug, PartialEq)]
pub struct SearchResult {
    pub id: u64,
    pub added: String,
    pub author_info: String,
    pub comments: u64,
    pub filetype: String,
    pub free: bool,
    pub leechers: u64,
    pub narrator_info: String,
    pub seeders: u64,
    pub series_info: String,
    pub size: String,
    pub tags: String,
    pub times_completed: u64,
    pub title: String,
}

/// The single entry of a name list, under its number.
pub open spec fn name_entry(n: nat, name: Seq<char>) -> Seq<char> {
    "{\""@ + crate::text::decimal(n) + "\":\""@ + name + padded(n, 3) + "\"}"@
}

fn name_entry_text(n: u64, name: &str) -> (r: String)
    ensures
        r@ == name_entry(n as nat, name@),
{
    let mut r = concat3("{\"", number_text(n).as_str(), "\":\"");
    r.append(name);
    r.append(padded_text(n, 3).as_str());
    r.append("\"}");
    r
}

/// The largest number whose size in MiB is exact.
pub const MAX_RESULT: u64 = 9_007_199_254_740_000;

/// What the search result of a number is.
pub open spec fn is_result(id: u64, n: nat, r: SearchResult) -> bool {
    &&& r.id == id
    &&& r.added@ == "2024-"@ + padded(n % 12 + 1, 2) + "-"@ + padded(n % 28 + 1, 2)
        + " 10:00:00"@
    &&& r.author_info@ == name_entry(n, "Test Author "@)
    &&& r.narrator_info@ == name_entry(n, "Test Narrator "@)
    &&& r.comments == n % 6
    &&& r.leechers == n % 4
    &&& r.seeders == 15 + n % 10
    &&& r.times_completed == 100 + n
    &&& r.filetype@ == (if n % 2 == 0 {
        "m4b"@
    } else {
        "mp3"@
    })
    &&& r.free == (n % 5 == 0)
    &&& r.series_info@ == "{}"@
    &&& r.size@ == crate::text::decimal(300 + n) + ".00 MiB"@
    &&& r.tags@ == "fantasy test"@
    &&& r.title@ == "Mock Search Result "@ + padded(n, 3)
}

/// The search result of a number.
pub fn mock_search_result(id: u64, index: u64) -> (r: SearchResult)
    requires
        index <= MAX_RESULT,
    ensures
        is_result(id, index as nat, r),
{
    let mut added = concat3("2024-", padded_text(index % 12 + 1, 2).as_str(), "-");
    added.append(padded_text(index % 28 + 1, 2).as_str());
    added.append(" 10:00:00");
    let filetype = if index % 2 == 0 {
        "m4b"
    } else {
        "mp3"
    };
    SearchResult {
        id,
        added,
        author_info: name_entry_text(index, "Test Author "),
        comments: index % 6,
        filetype: filetype.to_owned(),
        free: index % 5 == 0,
        leechers: index % 4,
        narrator_info: name_entry_text(index, "Test Narrator "),
        seeders: 15 + index % 10,
        series_info: "{}".to_owned(),
        size: concat(number_text(300 + index).as_str(), ".00 MiB"),
        tags: "fantasy test".to_owned(),
        times_completed: 100 + index,
        title: concat("Mock Search Result ", padded_text(index, 3).as_str()),
    }
}

/// The title of the single result.
pub const SINGLE_TITLE: &'static str = "Updated Mock Search Result Title";

/// What the single result under an id is.
pub open spec fn is_single_result(id: u64, r: SearchResult) -> bool {
    &&& r.id == id
    &&& r.added@ == "2024-03-15 14:30:00"@
    &&& r.author_info@ == "{\"1\":\"Updated Author Name\"}"@
    &&& r.narrator_info@ == "{\"1\":\"Updated Narrator Name\"}"@
    &&& r.series_info@ == "{\"1\":{\"name\":\"Updated Series\",\"position\":\"3\"}}"@
    &&& r.comments == 5
    &&& r.leechers == 2
    &&& r.seeders == 25
    &&& r.times_completed == 150
    &&& r.filetype@ == "m4b"@
    &&& !r.free
    &&& r.size@ == "350.50 MiB"@
    &&& r.tags@ == "updated fantasy epic"@
    &&& r.title@ == SINGLE_TITLE@
}

/// The single result under an id: its metadata differs from that of the
/// client's torrents.
pub fn mock_mam_torrent_result(id: u64) -> (r: SearchResult)
    ensures
        is_single_result(id, r),
{
    SearchResult {
        id,
        added: "2024-03-15 14:30:00".to_owned(),
        author_info: "{\"1\":\"Updated Author Name\"}".to_owned(),
        comments: 5,
        filetype: "m4b".to_owned(),
        free: false,
        leechers: 2,
        narrator_info: "{\"1\":\"Updated Narrator Name\"}".to_owned(),
        seeders: 25,
        series_info: "{\"1\":{\"name\":\"Updated Series\",\"position\":\"3\"}}".to_owned(),
        size: "350.50 MiB".to_owned(),
        tags: "updated fantasy epic".to_owned(),
        times_completed: 150,
        title: SINGLE_TITLE.to_owned(),
    }
}

/// The single result has another title than every torrent of the client, and
/// than every numbered result.
pub proof fn single_result_differs(id: u64, r: SearchResult, n: nat)
    requires
        is_single_result(id, r),
    ensures
        r.title@ != title(n),
        r.title@ != "Mock Search Result "@ + padded(n, 3),
{
    reveal_strlit("Updated Mock Search Result Title");
    reveal_strlit("Test Book ");
    reveal_strlit("Mock Search Result ");
    assert(r.title@[0] == 'U');
    assert(title(n)[0] == 'T');
    assert(("Mock Search Result "@ + padded(n, 3))[0] == 'M');
}

/// What the tracker is asked for.
pub struct SearchRequest {
    pub perpage: Option<usize>,
    pub id: u64,
    pub text: String,
    pub start_number: usize,
}

/// A page of search results.
#[derive(Debug, PartialEq)]
pub struct SearchPage {
    pub total: usize,
    pub perpage: usize,
    pub start: usize,
    pub data: Vec<SearchResult>,
}

/// What the tracker answers.
#[derive(Debug, PartialEq)]
pub enum SearchReply {
    /// The single result of an id.
    Single(SearchResult),
    Page(SearchPage),
}

/// How many results a query, in small letters, has.
pub open spec fn total_of(query: Seq<char>) -> nat {
    if query.len() == 0 {
        0
    } else if crate::text::contains_text(query, "test book"@) || crate::text::contains_text(
        query,
        "mock search"@,
    ) {
        205
    } else {
        2
    }
}

/// How many results a query, in small letters, has.
pub fn search_total(query: &str) -> (r: usize)
    ensures
        r == total_of(query@),
{
    if query.unicode_len() == 0 {
        0
    } else if has_text(query, "test book") || has_text(query, "mock search") {
        205
    } else {
        2
    }
}

/// How many results stand on a page.
pub open spec fn page_size(perpage: Option<usize>) -> nat {
    match perpage {
        None => 100,
        Some(n) => if n < 1 {
            1
        } else if n > 100 {
            100
        } else {
            n as nat
        },
    }
}

pub open spec fn smaller(a: nat, b: nat) -> nat {
    if a <= b {
        a
    } else {
        b
    }
}

/// The page of results from `start` on, of `total`.
pub open spec fn is_page(total: nat, perpage: nat, start: nat, r: SearchPage) -> bool {
    let from = smaller(start, total);
    &&& r.total == total
    &&& r.perpage == perpage
    &&& r.start == from
    &&& r.data@.len() == smaller(from + perpage, total) - from
    &&& forall|k: int|
        0 <= k < r.data@.len() ==> is_result(
            (FIRST_RESULT_ID + from + k + 1) as u64,
            (from + k + 1) as nat,
            #[trigger] r.data@[k],
        )
}

/// A page of the results of a query that has `total` of them.
pub fn search_page(total: usize, perpage: Option<usize>, start_number: usize) -> (r: SearchPage)
    requires
        total <= 205,
    ensures
        is_page(total as nat, page_size(perpage), start_number as nat, r),
{
    let size: usize = match perpage {
        None => 100,
        Some(n) => if n < 1 {
            1
        } else if n > 100 {
            100
        } else {
            n
        },
    };
    let start: usize = if start_number <= total {
        start_number
    } else {
        total
    };
    let end: usize = if start + size <= total {
        start + size
    } else {
        total
    };
    let mut data: Vec<SearchResult> = Vec::new();
    let mut i: usize = start;
    while i < end
        invariant
            start <= i <= end,
            end <= 205,
            data@.len() == i - start,
            forall|k: int|
                0 <= k < data@.len() ==> is_result(
                    (FIRST_RESULT_ID + start + k + 1) as u64,
                    (start + k + 1) as nat,
                    #[trigger] data@[k],
                ),
        decreases end - i,
    {
        let n: u64 = i as u64 + 1;
        data.push(mock_search_result(FIRST_RESULT_ID + n, n));
        i = i + 1;
    }
    SearchPage { total, perpage: size, start, data }
}

/// The tracker's answer to a search: the single result of an id where one is
/// given, else a page of what the query finds.
pub fn mam_search(request: &SearchRequest) -> (r: SearchReply)
    ensures
        if request.id != 0 {
            r matches SearchReply::Single(single) && is_single_result(request.id, single)
        } else {
            r matches SearchReply::Page(p) && is_page(
                total_of(crate::outside::lowercase(crate::text::trimmed(request.text@))),
                page_size(request.perpage),
                request.start_number as nat,
                p,
            )
        },
{
    if request.id != 0 {
        return SearchReply::Single(mock_mam_torrent_result(request.id));
    }
    let query = to_lowercase(trim(request.text.as_str()).as_str());
    let total: usize = search_total(query.as_str());
    SearchReply::Page(search_page(total, request.perpage, request.start_number))
}

/// Pages of one size, one after the other, show every result on exactly one of
/// them.
pub proof fn pages_show_every_result_once(total: nat, perpage: nat, n: nat)
    requires
        perpage > 0,
        1 <= n <= total,
    ensures
        exists|k: nat| #[trigger] is_on_page(total, perpage, k, n),
        forall|j: nat, k: nat| #[trigger]
            is_on_page(total, perpage, j, n) && #[trigger] is_on_page(total, perpage, k, n) ==> j
                == k,
{
    let k = (n - 1) as nat / perpage;
    assert(k * perpage <= n - 1 < k * perpage + perpage) by (nonlinear_arith)
        requires
            perpage > 0,
            n >= 1,
            k == (n - 1) as nat / perpage,
    ;
    assert(is_on_page(total, perpage, k, n));
    assert forall|i: nat, j: nat| #[trigger]
        is_on_page(total, perpage, i, n) && #[trigger] is_on_page(total, perpage, j, n) implies i
        == j by {
        assert(i == j) by (nonlinear_arith)
            requires
                i * perpage < n <= i * perpage + perpage,
                j * perpage < n <= j * perpage + perpage,
        ;
    }
}

/// The result of a number is on the `k`-th page of a size.
pub open spec fn is_on_page(total: nat, perpage: nat, k: nat, n: nat) -> bool {
    let from = smaller(k * perpage, total);
    from < n <= smaller(from + perpage, total)
}

} // verus!
