//! Cursor pagination as a stepper: the caller sends each page's request and
//! hands back the decoded response; the pager decides what comes next.
use vstd::prelude::*;
use crate::error::EngineError;
use crate::json::{field, first_member, get_field, pairs_view, JsonValue};
use crate::text::str_eq;

verus! {

/// The initial query without its `bookmark` pairs, order kept.
pub open spec fn base_of(q: Seq<(Seq<char>, Seq<char>)>) -> Seq<(Seq<char>, Seq<char>)>
    decreases q.len(),
{
    if q.len() == 0 {
        q
    } else if q.last().0 == "bookmark"@ {
        base_of(q.drop_last())
    } else {
        base_of(q.drop_last()).push(q.last())
    }
}

/// The cursor given in the initial query: its last `bookmark` value.
pub open spec fn bookmark_of(q: Seq<(Seq<char>, Seq<char>)>) -> Option<Seq<char>>
    decreases q.len(),
{
    if q.len() == 0 {
        None
    } else if q.last().0 == "bookmark"@ {
        Some(q.last().1)
    } else {
        bookmark_of(q.drop_last())
    }
}

/// The items of a page, if it has an `items` array.
pub open spec fn page_items(resp: JsonValue) -> Option<Seq<JsonValue>> {
    match field(resp, "items"@) {
        Some(JsonValue::Array(items, _)) => Some(items@),
        _ => None,
    }
}

/// The cursor for the next page: a non-empty string `bookmark` field.
pub open spec fn next_bookmark(resp: JsonValue) -> Option<Seq<char>> {
    match field(resp, "bookmark"@) {
        Some(JsonValue::Str(s)) => if s@.len() > 0 {
            Some(s@)
        } else {
            None
        },
        _ => None,
    }
}

/// One page taken in: the items after it and whether the sweep ends; `None`
/// for a page without an `items` array. Items fill up to the cap (0: none),
/// the rest of a page past the cap is dropped and the sweep ends; otherwise
/// it ends when the page gives no next cursor.
pub open spec fn page_step(items: Seq<JsonValue>, max_items: u64, resp: JsonValue) -> Option<(Seq<JsonValue>, bool)> {
    match page_items(resp) {
        None => None,
        Some(its) => {
            let room = max_items - items.len();
            if max_items > 0 && its.len() >= room {
                Some((items + its.take(room), true))
            } else {
                Some((items + its, next_bookmark(resp) is None))
            }
        },
    }
}

/// A sweep over an endpoint that answers fetch `k` with `pages[k]`, from
/// fetch `i` on with `items` gathered: the items it returns and how many
/// fetches it made; `None` for a malformed page or an endpoint that ran out.
pub open spec fn sweep(pages: Seq<JsonValue>, i: nat, items: Seq<JsonValue>, max_pages: u64, max_items: u64) -> Option<(Seq<JsonValue>, nat)>
    decreases pages.len() - i,
{
    if max_pages > 0 && i + 1 > max_pages {
        Some((items, i))
    } else if i >= pages.len() {
        None
    } else {
        match page_step(items, max_items, pages[i as int]) {
            None => None,
            Some((next, done)) => if done {
                Some((next, i + 1))
            } else {
                sweep(pages, i + 1, next, max_pages, max_items)
            },
        }
    }
}

/// The items of the first `k` pages, concatenated.
pub open spec fn all_items(pages: Seq<JsonValue>, k: nat) -> Seq<JsonValue>
    decreases k,
{
    if k == 0 || k > pages.len() {
        Seq::empty()
    } else {
        all_items(pages, (k - 1) as nat) + page_items(pages[k - 1])->0
    }
}

/// Pages `i..j` each have items and a next cursor, and the cap is not
/// reached before page `j`: the sweep goes on to page `j`.
proof fn lemma_sweep_runs_to(pages: Seq<JsonValue>, i: nat, j: nat, max_items: u64)
    requires
        i <= j < pages.len(),
        forall|k: int| 0 <= k <= j ==> page_items(#[trigger] pages[k]) is Some,
        forall|k: int| 0 <= k < j ==> next_bookmark(#[trigger] pages[k]) is Some,
        max_items == 0 || all_items(pages, j) .len() < max_items,
    ensures
        sweep(pages, i, all_items(pages, i), 0, max_items) == sweep(pages, j, all_items(pages, j), 0, max_items),
    decreases j - i,
{
    if i < j {
        lemma_all_items_grow(pages, i + 1, j);
        assert(all_items(pages, i + 1) == all_items(pages, i) + page_items(pages[i as int])->0);
        lemma_sweep_runs_to(pages, i + 1, j, max_items);
    }
}

proof fn lemma_all_items_grow(pages: Seq<JsonValue>, i: nat, j: nat)
    requires
        i <= j <= pages.len(),
    ensures
        all_items(pages, i).len() <= all_items(pages, j).len(),
    decreases j - i,
{
    if i < j {
        lemma_all_items_grow(pages, i, (j - 1) as nat);
    }
}

/// Item cap: with a cap of `n` and no page cap, when the `n`th item lies on
/// page `j` (earlier pages each giving a next cursor), the sweep returns the
/// first `n` items of pages `0..=j` after exactly `j + 1` fetches; the rest
/// of page `j` is dropped and no later page is fetched.
pub proof fn lemma_sweep_item_cap(pages: Seq<JsonValue>, j: nat, n: u64)
    requires
        j < pages.len(),
        n > 0,
        forall|k: int| 0 <= k <= j ==> page_items(#[trigger] pages[k]) is Some,
        forall|k: int| 0 <= k < j ==> next_bookmark(#[trigger] pages[k]) is Some,
        all_items(pages, j).len() < n <= all_items(pages, j + 1).len(),
    ensures
        sweep(pages, 0, Seq::empty(), 0, n) == Some((all_items(pages, j + 1).take(n as int), j + 1)),
{
    lemma_sweep_runs_to(pages, 0, j, n);
    let before = all_items(pages, j);
    let its = page_items(pages[j as int])->0;
    assert(all_items(pages, j + 1) == before + its);
    assert((before + its.take(n - before.len())) =~= (before + its).take(n as int));
}

/// Exhaustion: without caps, when page `j` is the first without a next
/// cursor, the sweep returns every item of pages `0..=j`, in order, after
/// exactly `j + 1` fetches.
pub proof fn lemma_sweep_exhausts(pages: Seq<JsonValue>, j: nat)
    requires
        j < pages.len(),
        forall|k: int| 0 <= k <= j ==> page_items(#[trigger] pages[k]) is Some,
        forall|k: int| 0 <= k < j ==> next_bookmark(#[trigger] pages[k]) is Some,
        next_bookmark(pages[j as int]) is None,
    ensures
        sweep(pages, 0, Seq::empty(), 0, 0) == Some((all_items(pages, j + 1), j + 1)),
{
    lemma_sweep_runs_to(pages, 0, j, 0);
}

/// An optional string as an optional character sequence.
pub open spec fn opt_view(o: Option<String>) -> Option<Seq<char>> {
    match o {
        Some(s) => Some(s@),
        None => None,
    }
}

/// The state of a pagination sweep.
#[derive(Debug)]
pub struct Pager {
    /// The query repeated on every page.
    pub base_query: Vec<(String, String)>,
    /// The cursor for the next page, if any.
    pub bookmark: Option<String>,
    /// Pages asked for so far.
    pub pages: u64,
    /// Items accumulated so far.
    pub items: Vec<JsonValue>,
    /// Cap on pages; 0 means none.
    pub max_pages: u64,
    /// Cap on items; 0 means none.
    pub max_items: u64,
    /// Whether the sweep has ended.
    pub done: bool,
}

impl Pager {
    /// While the sweep runs, the item cap has not been reached.
    pub open spec fn wf(&self) -> bool {
        !self.done ==> (self.max_items == 0 || self.items@.len() < self.max_items)
    }

    /// Starts a sweep; only GET can be paginated. A `bookmark` in the
    /// initial query is the first cursor, the rest is the base query.
    pub fn start(method: &str, query: &Vec<(String, String)>, max_pages: u64, max_items: u64) -> (r: Result<Pager, EngineError>)
        ensures
            method@ != "GET"@ ==> r matches Err(EngineError::PaginationUnsupported),
            method@ == "GET"@ ==> (r matches Ok(p) && p.wf() && !p.done && p.pages == 0 && p.items@.len() == 0
                && p.max_pages == max_pages && p.max_items == max_items
                && pairs_view(p.base_query@) == base_of(pairs_view(query@))
                && opt_view(p.bookmark) == bookmark_of(pairs_view(query@))),
    {
        if !str_eq(method, "GET") {
            return Err(EngineError::PaginationUnsupported);
        }
        let ghost q = pairs_view(query@);
        let mut base: Vec<(String, String)> = Vec::new();
        let mut bookmark: Option<String> = None;
        let mut i: usize = 0;
        while i < query.len()
            invariant
                i <= query.len(),
                q == pairs_view(query@),
                pairs_view(base@) == base_of(q.subrange(0, i as int)),
                opt_view(bookmark) == bookmark_of(q.subrange(0, i as int)),
            decreases query.len() - i,
        {
            assert(q.subrange(0, i + 1).drop_last() =~= q.subrange(0, i as int));
            if str_eq(query[i].0.as_str(), "bookmark") {
                bookmark = Some(query[i].1.clone());
            } else {
                let ghost b = base@;
                base.push((query[i].0.clone(), query[i].1.clone()));
                assert(pairs_view(base@) =~= pairs_view(b).push(q[i as int]));
            }
            i = i + 1;
        }
        assert(q.subrange(0, query@.len() as int) =~= q);
        Ok(Pager { base_query: base, bookmark, pages: 0, items: Vec::new(), max_pages, max_items, done: false })
    }

    /// Counts the next page and gives its query (the base query, then the
    /// cursor if there is one), or ends the sweep when the page cap would be
    /// exceeded.
    pub fn next_query(&mut self) -> (r: Option<Vec<(String, String)>>)
        requires
            old(self).wf(),
            !old(self).done,
            old(self).pages < u64::MAX,
        ensures
            final(self).wf(),
            final(self).pages == old(self).pages + 1,
            final(self).items == old(self).items,
            final(self).bookmark == old(self).bookmark,
            final(self).base_query == old(self).base_query,
            final(self).max_pages == old(self).max_pages,
            final(self).max_items == old(self).max_items,
            old(self).max_pages > 0 && final(self).pages > old(self).max_pages ==> r is None && final(self).done,
            !(old(self).max_pages > 0 && final(self).pages > old(self).max_pages) ==> !final(self).done && (r matches Some(q)
                && pairs_view(q@) == match opt_view(old(self).bookmark) {
                    Some(b) => pairs_view(old(self).base_query@).push(("bookmark"@, b)),
                    None => pairs_view(old(self).base_query@),
                }),
    {
        self.pages = self.pages + 1;
        if self.max_pages > 0 && self.pages > self.max_pages {
            self.done = true;
            return None;
        }
        let mut q: Vec<(String, String)> = Vec::new();
        let mut i: usize = 0;
        while i < self.base_query.len()
            invariant
                i <= self.base_query.len(),
                pairs_view(q@) == pairs_view(self.base_query@.subrange(0, i as int)),
            decreases self.base_query.len() - i,
        {
            let ghost b = q@;
            q.push((self.base_query[i].0.clone(), self.base_query[i].1.clone()));
            assert(pairs_view(q@) =~= pairs_view(b).push((self.base_query@[i as int].0@, self.base_query@[i as int].1@)));
            assert(pairs_view(self.base_query@.subrange(0, i + 1)) =~= pairs_view(self.base_query@.subrange(0, i as int)).push((self.base_query@[i as int].0@, self.base_query@[i as int].1@)));
            i = i + 1;
        }
        assert(self.base_query@.subrange(0, self.base_query@.len() as int) =~= self.base_query@);
        if let Some(b) = &self.bookmark {
            let ghost before = q@;
            q.push(("bookmark".to_owned(), b.clone()));
            assert(pairs_view(q@) =~= pairs_view(before).push(("bookmark"@, b@)));
        }
        Some(q)
    }

    /// Takes in one page's response. A response without an `items` array is
    /// an error. Its items are appended in order; once the item cap is
    /// reached the rest of the page is dropped and the sweep ends. Otherwise
    /// the response's non-empty `bookmark` is the next cursor, and without
    /// one the sweep ends.
    pub fn take_page(&mut self, resp: JsonValue) -> (r: Result<(), EngineError>)
        requires
            old(self).wf(),
            !old(self).done,
        ensures
            final(self).wf(),
            final(self).pages == old(self).pages,
            final(self).base_query == old(self).base_query,
            final(self).max_pages == old(self).max_pages,
            final(self).max_items == old(self).max_items,
            page_items(resp) is None ==> r matches Err(EngineError::MalformedPaginatedResponse),
            page_step(old(self).items@, old(self).max_items, resp) matches Some((its, d))
                ==> final(self).items@ == its && final(self).done == d,
            page_items(resp) matches Some(its) ==> r is Ok && ({
                let room = old(self).max_items - old(self).items@.len();
                if old(self).max_items > 0 && its.len() >= room {
                    final(self).items@ == old(self).items@ + its.take(room)
                        && final(self).done
                } else {
                    final(self).items@ == old(self).items@ + its
                        && opt_view(final(self).bookmark) == next_bookmark(resp)
                        && final(self).done == (next_bookmark(resp) is None)
                }
            }),
    {
        let next: Option<String> = match get_field(&resp, "bookmark") {
            Some(JsonValue::Str(s)) => if s.as_str().is_empty() {
                None
            } else {
                Some(s.clone())
            },
            _ => None,
        };
        let ghost resp0 = resp;
        let mut m = match resp {
            JsonValue::Object(m, _) => m,
            _ => return Err(EngineError::MalformedPaginatedResponse),
        };
        let idx = match find_member(&m, "items") {
            Some(i) => i,
            None => return Err(EngineError::MalformedPaginatedResponse),
        };
        let (_, v) = m.remove(idx);
        let mut its = match v {
            JsonValue::Array(its, _) => its,
            _ => return Err(EngineError::MalformedPaginatedResponse),
        };
        assert(page_items(resp0) == Some(its@));
        if self.max_items > 0 && its.len() as u64 >= self.max_items - self.items.len() as u64 {
            let room = (self.max_items - self.items.len() as u64) as usize;
            its.truncate(room);
            self.items.append(&mut its);
            self.done = true;
            return Ok(());
        }
        self.items.append(&mut its);
        self.done = next.is_none();
        self.bookmark = next;
        Ok(())
    }
}

/// The index of the first member under `key`.
fn find_member(m: &Vec<(String, JsonValue)>, key: &str) -> (r: Option<usize>)
    ensures
        r matches Some(i) ==> i < m@.len() && first_member(m@, key@) == Some(m@[i as int].1),
        r is None ==> first_member(m@, key@) is None,
{
    let mut i: usize = 0;
    assert(m@.subrange(0, m@.len() as int) =~= m@);
    while i < m.len()
        invariant
            i <= m.len(),
            first_member(m@, key@) == first_member(m@.subrange(i as int, m@.len() as int), key@),
        decreases m.len() - i,
    {
        let ghost rest = m@.subrange(i as int, m@.len() as int);
        assert(rest.subrange(1, rest.len() as int) =~= m@.subrange(i + 1, m@.len() as int));
        assert(rest[0] == m@[i as int]);
        if str_eq(m[i].0.as_str(), key) {
            assert(first_member(rest, key@) == Some(m@[i as int].1));
            return Some(i);
        }
        i = i + 1;
    }
    None
}

} // verus!
