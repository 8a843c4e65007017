//! Talking to the torrent client: which categories it has, when to try again,
//! and which client has a torrent.
use vstd::prelude::*;
use vstd::string::*;

use crate::model::QbitTorrent;
use crate::text::{clone_texts, has_entry, has_text, same_text};

verus! {

/// How long a client's categories are taken as known, in nanoseconds.
pub const CATEGORY_CACHE_TTL_NANOS: u128 = 60_000_000_000;

/// How many times a request is made at most.
pub const RETRY_MAX_ATTEMPTS: u32 = 3;

/// How long the first pause before another attempt is, in milliseconds.
pub const RETRY_DELAY_MS: u64 = 500;

/// The categories of the client at an address, and when they were asked for.
pub struct CachedCategories {
    pub url: String,
    pub categories: Vec<String>,
    pub at: u128,
}

/// What is known of the client at an address: its categories, and since when.
pub open spec fn cached_entry(s: Seq<CachedCategories>, url: Seq<char>) -> Option<
    (Seq<Seq<char>>, u128),
>
    decreases s.len(),
{
    if s.len() == 0 {
        None
    } else if s.last().url@ == url {
        Some((crate::text::texts(s.last().categories@), s.last().at))
    } else {
        cached_entry(s.drop_last(), url)
    }
}

/// The categories that clients are known to have.
pub struct CategoryCache {
    entries: Vec<CachedCategories>,
}

impl Default for CategoryCache {
    fn default() -> (r: CategoryCache)
        ensures
            forall|u: Seq<char>| #[trigger] r.entry(u) is None,
    {
        CategoryCache::new()
    }
}

/// Categories that were asked for at `at` still count at `now`.
pub open spec fn is_fresh(at: u128, now: u128) -> bool {
    now - at < CATEGORY_CACHE_TTL_NANOS
}

impl CategoryCache {
    /// What is known of the client at an address.
    pub closed spec fn entry(&self, url: Seq<char>) -> Option<(Seq<Seq<char>>, u128)> {
        cached_entry(self.entries@, url)
    }

    /// What still counts at `now` of what is known of the client at an address.
    pub open spec fn known(&self, url: Seq<char>, now: u128) -> Option<Seq<Seq<char>>> {
        match self.entry(url) {
            Some((c, at)) if is_fresh(at, now) => Some(c),
            _ => None,
        }
    }

    /// Nothing is known.
    pub fn new() -> (r: CategoryCache)
        ensures
            forall|u: Seq<char>| #[trigger] r.entry(u) is None,
    {
        CategoryCache { entries: Vec::new() }
    }

    /// The categories that are known of the client at an address, unless they
    /// are too old.
    pub fn get(&self, url: &str, now: u128) -> (r: Option<Vec<String>>)
        ensures
            r is Some == self.known(url@, now) is Some,
            r matches Some(c) ==> self.known(url@, now) == Some(crate::text::texts(c@)),
    {
        let ghost all = self.entries@;
        let mut i: usize = self.entries.len();
        assert(all.take(i as int) == all);
        while i > 0
            invariant
                i <= self.entries@.len(),
                all == self.entries@,
                cached_entry(all, url@) == cached_entry(all.take(i as int), url@),
            decreases i,
        {
            i = i - 1;
            let entry = &self.entries[i];
            assert(all.take(i + 1).last() == *entry);
            assert(all.take(i + 1).drop_last() == all.take(i as int));
            if same_text(entry.url.as_str(), url) {
                if now < entry.at || now - entry.at < CATEGORY_CACHE_TTL_NANOS {
                    return Some(clone_texts(&entry.categories));
                }
                return None;
            }
        }
        None
    }

    /// Forgets what is known of the client at an address.
    pub fn invalidate(&mut self, url: &str)
        ensures
            final(self).entry(url@) is None,
            forall|u: Seq<char>|
                u != url@ ==> #[trigger] final(self).entry(u) == old(self).entry(u),
    {
        let ghost all = self.entries@;
        let mut kept: Vec<CachedCategories> = Vec::new();
        let mut i: usize = 0;
        while i < self.entries.len()
            invariant
                i <= self.entries@.len(),
                all == self.entries@,
                cached_entry(kept@, url@) is None,
                forall|u: Seq<char>|
                    u != url@ ==> #[trigger] cached_entry(kept@, u) == cached_entry(
                        all.take(i as int),
                        u,
                    ),
            decreases self.entries@.len() - i,
        {
            let entry = &self.entries[i];
            let ghost now = all.take(i + 1);
            let ghost before = kept@;
            proof {
                assert(now.last() == *entry);
                assert(now.drop_last() == all.take(i as int));
            }
            if !same_text(entry.url.as_str(), url) {
                let copy = CachedCategories {
                    url: entry.url.clone(),
                    categories: clone_texts(&entry.categories),
                    at: entry.at,
                };
                kept.push(copy);
                assert(kept@.drop_last() == before);
            }
            assert forall|u: Seq<char>| u != url@ implies #[trigger] cached_entry(kept@, u)
                == cached_entry(now, u) by {
                assert(cached_entry(before, u) == cached_entry(all.take(i as int), u));
            }
            i = i + 1;
        }
        assert(all.take(i as int) == all);
        self.entries = kept;
    }

    /// Keeps what the client at an address was asked for at `at`.
    pub fn store(&mut self, url: &str, categories: &Vec<String>, at: u128)
        ensures
            final(self).entry(url@) == Some((crate::text::texts(categories@), at)),
            forall|u: Seq<char>|
                u != url@ ==> #[trigger] final(self).entry(u) == old(self).entry(u),
    {
        self.invalidate(url);
        let ghost middle = *self;
        let ghost before = self.entries@;
        self.entries.push(
            CachedCategories { url: url.to_owned(), categories: clone_texts(categories), at },
        );
        assert(self.entries@.drop_last() == before);
        assert forall|u: Seq<char>| u != url@ implies #[trigger] self.entry(u) == middle.entry(
            u,
        ) by {}
    }
}

/// Categories that were kept are the ones that are known, until they are too old.
pub proof fn kept_categories_are_known(
    cache: CategoryCache,
    url: Seq<char>,
    categories: Seq<Seq<char>>,
    at: u128,
    now: u128,
)
    requires
        cache.entry(url) == Some((categories, at)),
    ensures
        now - at < CATEGORY_CACHE_TTL_NANOS ==> cache.known(url, now) == Some(categories),
        now - at >= CATEGORY_CACHE_TTL_NANOS ==> cache.known(url, now) is None,
{
}

/// How far the making of a category has come.
pub enum CategoryState {
    Asked,
    /// The client's categories are being asked for, since the given time.
    Fetching { at: u128 },
    Creating,
    /// The category is being made once more, after the given error.
    Retrying(String),
    Finished,
}

/// How many steps lie behind at least.
pub open spec fn category_stage(state: CategoryState) -> int {
    match state {
        CategoryState::Asked => 0,
        CategoryState::Fetching { .. } => 1,
        CategoryState::Creating => 2,
        CategoryState::Retrying(_) => 3,
        CategoryState::Finished => 4,
    }
}

/// What was learned.
pub enum CategoryEvent {
    Begin { now: u128 },
    Fetched(Result<Vec<String>, String>),
    Created(Result<(), String>),
}

/// What to do next.
pub enum CategoryAction {
    /// The category is there.
    Done,
    Fetch,
    Create,
    /// Report the error.
    Fail(String),
    /// The event does not belong to the state.
    Ignore,
}

/// A step in making sure of a category.
pub struct CategoryStep {
    pub state: CategoryState,
    pub action: CategoryAction,
}

/// The step on learning a client's categories.
pub open spec fn category_known(categories: Seq<Seq<char>>, category: Seq<char>, r: CategoryStep)
    -> bool {
    if categories.contains(category) {
        r.state is Finished && r.action is Done
    } else {
        r.state is Creating && r.action is Create
    }
}

fn look_for(categories: &Vec<String>, category: &str) -> (r: CategoryStep)
    ensures
        category_known(crate::text::texts(categories@), category@, r),
{
    if has_entry(categories, category) {
        CategoryStep { state: CategoryState::Finished, action: CategoryAction::Done }
    } else {
        CategoryStep { state: CategoryState::Creating, action: CategoryAction::Create }
    }
}

/// The step makes no difference to what is known.
pub open spec fn keeps_cache(a: CategoryCache, b: CategoryCache) -> bool {
    forall|u: Seq<char>| #[trigger] b.entry(u) == a.entry(u)
}

/// The next step in making sure that a client has a category. An empty category
/// needs nothing. The client's categories are asked for unless they are known;
/// a category that is not among them is made, a second time where the first
/// fails, and then what was known is forgotten. Where both fail, the first error
/// is reported. Every step leads on, so this comes to an end.
pub fn ensure_category_exists(
    cache: &mut CategoryCache,
    url: &str,
    category: &str,
    state: CategoryState,
    event: CategoryEvent,
) -> (r: CategoryStep)
    ensures
        match (state, event) {
            (CategoryState::Asked, CategoryEvent::Begin { now }) => keeps_cache(
                *old(cache),
                *final(cache),
            ) && (if category@.len() == 0 {
                r.state is Finished && r.action is Done
            } else {
                match old(cache).known(url@, now) {
                    Some(c) => category_known(c, category@, r),
                    None => r.action is Fetch && (r.state matches CategoryState::Fetching { at }
                        && at == now),
                }
            }),
            (CategoryState::Fetching { at }, CategoryEvent::Fetched(Ok(c))) => category_known(
                crate::text::texts(c@),
                category@,
                r,
            ) && final(cache).entry(url@) == Some((crate::text::texts(c@), at)) && (forall|
                u: Seq<char>,
            |
                u != url@ ==> #[trigger] final(cache).entry(u) == old(cache).entry(u)),
            (CategoryState::Fetching { .. }, CategoryEvent::Fetched(Err(e))) => keeps_cache(
                *old(cache),
                *final(cache),
            ) && r.state is Finished && r.action == CategoryAction::Fail(e),
            (CategoryState::Creating, CategoryEvent::Created(Err(e))) => keeps_cache(
                *old(cache),
                *final(cache),
            ) && r.state == CategoryState::Retrying(e) && r.action is Create,
            (CategoryState::Retrying(first), CategoryEvent::Created(Err(_))) => keeps_cache(
                *old(cache),
                *final(cache),
            ) && r.state is Finished && r.action == CategoryAction::Fail(first),
            (CategoryState::Creating, CategoryEvent::Created(Ok(_)))
            | (CategoryState::Retrying(_), CategoryEvent::Created(Ok(_))) => r.state is Finished
                && r.action is Done && final(cache).entry(url@) is None && (forall|u: Seq<char>|
                u != url@ ==> #[trigger] final(cache).entry(u) == old(cache).entry(u)),
            _ => keeps_cache(*old(cache), *final(cache)) && r.state is Finished
                && r.action is Ignore,
        },
        state is Finished || category_stage(r.state) > category_stage(state),
{
    match (state, event) {
        (CategoryState::Asked, CategoryEvent::Begin { now }) => {
            if category.unicode_len() == 0 {
                return CategoryStep {
                    state: CategoryState::Finished,
                    action: CategoryAction::Done,
                };
            }
            match cache.get(url, now) {
                Some(c) => look_for(&c, category),
                None => CategoryStep {
                    state: CategoryState::Fetching { at: now },
                    action: CategoryAction::Fetch,
                },
            }
        },
        (CategoryState::Fetching { at }, CategoryEvent::Fetched(Ok(c))) => {
            cache.store(url, &c, at);
            look_for(&c, category)
        },
        (CategoryState::Fetching { .. }, CategoryEvent::Fetched(Err(e))) => CategoryStep {
            state: CategoryState::Finished,
            action: CategoryAction::Fail(e),
        },
        (CategoryState::Creating, CategoryEvent::Created(Err(e))) => CategoryStep {
            state: CategoryState::Retrying(e),
            action: CategoryAction::Create,
        },
        (CategoryState::Retrying(first), CategoryEvent::Created(Err(_))) => CategoryStep {
            state: CategoryState::Finished,
            action: CategoryAction::Fail(first),
        },
        (CategoryState::Creating, CategoryEvent::Created(Ok(_)))
        | (CategoryState::Retrying(_), CategoryEvent::Created(Ok(_))) => {
            cache.invalidate(url);
            CategoryStep { state: CategoryState::Finished, action: CategoryAction::Done }
        },
        _ => CategoryStep { state: CategoryState::Finished, action: CategoryAction::Ignore },
    }
}

/// The category to make sure of before a torrent is added: its own, unless that
/// is empty.
pub fn category_to_ensure(category: &Option<String>) -> (r: Option<String>)
    ensures
        crate::text::text_of(r) == (match category {
            Some(c) if c@.len() > 0 => Some(c@),
            _ => None,
        }),
{
    match category {
        Some(c) => {
            if c.as_str().unicode_len() > 0 {
                Some(c.clone())
            } else {
                None
            }
        },
        None => None,
    }
}

/// The pause before a request that failed is made again, in milliseconds.
pub open spec fn retry_pause(attempt: nat, error: Seq<char>) -> Option<nat> {
    if attempt < RETRY_MAX_ATTEMPTS && crate::text::contains_text(error, "403"@) {
        Some(RETRY_DELAY_MS as nat * attempt)
    } else {
        None
    }
}

/// The pause, in milliseconds, after the attempt of the given number failed and
/// before the next one. There is none after the last attempt, nor after an
/// error other than that the client forbids the request.
pub fn retry_delay(attempt: u32, error: &str) -> (r: Option<u64>)
    ensures
        match retry_pause(attempt as nat, error@) {
            Some(p) => r matches Some(d) && d == p,
            None => r is None,
        },
{
    if attempt >= RETRY_MAX_ATTEMPTS || !has_text(error, "403") {
        return None;
    }
    Some(RETRY_DELAY_MS * attempt as u64)
}

/// No request is made more than three times, and the pauses between the
/// attempts come to a second and a half at most.
pub proof fn retries_end(errors: spec_fn(nat) -> Seq<char>, attempt: nat)
    ensures
        attempt >= 3 ==> retry_pause(attempt, errors(attempt)) is None,
        ({
            let first = retry_pause(1, errors(1));
            let second = retry_pause(2, errors(2));
            (match first {
                Some(a) => a,
                None => 0,
            }) + (match second {
                Some(b) => b,
                None => 0,
            }) <= 1500
        }),
{
}

/// What a client's categories were is known for less than a minute.
pub proof fn categories_are_known_for_a_minute(
    cache: CategoryCache,
    url: Seq<char>,
    categories: Seq<Seq<char>>,
    at: u128,
    now: u128,
)
    requires
        cache.entry(url) == Some((categories, at)),
    ensures
        now - at < 60_000_000_000 ==> cache.known(url, now) == Some(categories),
        now - at >= 60_000_000_000 ==> cache.known(url, now) is None,
        forall|other: Seq<char>|
            cache.entry(other) is None ==> (#[trigger] cache.known(other, now)) is None,
{
}

/// A request that the client forbids is made again until the third attempt,
/// after pauses that grow by half a second; any other error is reported at once.
pub proof fn forbidden_request_is_made_again(error: Seq<char>)
    ensures
        crate::text::contains_text(error, "403"@) ==> retry_pause(1, error) == Some(500nat)
            && retry_pause(2, error) == Some(1000nat),
        forall|attempt: nat|
            !crate::text::contains_text(error, "403"@) ==> (#[trigger] retry_pause(attempt, error))
                is None,
{
}

/// What a client answered when it was asked for a torrent.
pub enum ClientAnswer {
    NoLogin,
    Failed(String),
    Torrents(Vec<QbitTorrent>),
}

/// What to make of a client's answer.
pub enum ClientSearch {
    /// Ask the next client.
    Next,
    /// Report the error.
    Fail(String),
    /// The client has the torrent.
    Found(QbitTorrent),
}

/// What to make of a client's answer: the first torrent of its list is the one;
/// a client that cannot be logged in to, or has no such torrent, is passed over;
/// one that fails to list its torrents ends the search.
pub fn get_torrent(answer: ClientAnswer) -> (r: ClientSearch)
    ensures
        r == (match answer {
            ClientAnswer::NoLogin => ClientSearch::Next,
            ClientAnswer::Failed(e) => ClientSearch::Fail(e),
            ClientAnswer::Torrents(v) => if v@.len() == 0 {
                ClientSearch::Next
            } else {
                ClientSearch::Found(v@[0])
            },
        }),
{
    match answer {
        ClientAnswer::NoLogin => ClientSearch::Next,
        ClientAnswer::Failed(e) => ClientSearch::Fail(e),
        ClientAnswer::Torrents(v) => {
            let mut v = v;
            if v.len() == 0 {
                ClientSearch::Next
            } else {
                ClientSearch::Found(v.remove(0))
            }
        },
    }
}

/// A category that the client has is not made again, and one that it does not
/// have is made.
pub proof fn missing_category_is_made(
    categories: Seq<Seq<char>>,
    category: Seq<char>,
    r: CategoryStep,
)
    requires
        category_known(categories, category, r),
    ensures
        r.action is Create <==> !categories.contains(category),
        r.action is Done <==> categories.contains(category),
{
}

} // verus!
