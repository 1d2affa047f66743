//! Rows of the change feed, and the work units that a batch of them
//! collapses into.

use crate::text::{
    bytes_lt, lemma_bytes_lt_irreflexive, lemma_bytes_lt_total, lemma_bytes_lt_transitive,
    lemma_encoding_injective, str_eq, str_less, str_lt,
};
use crate::wdrc::{item_id_of, WdRc};
use crate::{ItemId, RevisionId};
use vstd::prelude::*;
use vstd::utf8::encode_utf8;

verus! {

/// One row of the change feed.
pub struct RecentChanges {
    item_id: ItemId,
    pub rc_timestamp: String,
    pub rc_title: String,
    pub rc_new: bool,
    pub rc_this_oldid: u64,
    pub rc_last_oldid: u64,
}

/// The mathematical value of a feed row: the item's title, the time of the
/// event, whether the event created the page, and the revision after and
/// before the event.
pub struct EventView {
    pub title: Seq<char>,
    pub timestamp: Seq<char>,
    pub is_new: bool,
    pub this_rev: RevisionId,
    pub last_rev: RevisionId,
}

impl View for RecentChanges {
    type V = EventView;

    closed spec fn view(&self) -> EventView {
        EventView {
            title: self.rc_title@,
            timestamp: self.rc_timestamp@,
            is_new: self.rc_new,
            this_rev: self.rc_this_oldid,
            last_rev: self.rc_last_oldid,
        }
    }
}

/// The values of a list of feed rows.
pub open spec fn events_view(rows: Seq<RecentChanges>) -> Seq<EventView> {
    Seq::new(rows.len(), |i: int| rows[i]@)
}

impl RecentChanges {
    /// The number of the item that the row was made for.
    pub closed spec fn item(&self) -> ItemId {
        self.item_id
    }

    /// A feed row from the columns of a database row. There is none where a
    /// column is missing or the title is no valid identifier.
    pub fn from_row(
        rc_timestamp: Option<String>,
        rc_title: Option<String>,
        rc_new: Option<bool>,
        rc_this_oldid: Option<u64>,
        rc_last_oldid: Option<u64>,
    ) -> (r: Option<RecentChanges>)
        ensures
            r is Some <==> rc_timestamp is Some && rc_title is Some && rc_new is Some
                && rc_this_oldid is Some && rc_last_oldid is Some && item_id_of(
                rc_title->0@,
            ) is Some,
            r matches Some(row) ==> row@ == (EventView {
                title: rc_title->0@,
                timestamp: rc_timestamp->0@,
                is_new: rc_new->0,
                this_rev: rc_this_oldid->0,
                last_rev: rc_last_oldid->0,
            }) && Some(row.item()) == item_id_of(rc_title->0@),
    {
        let rc_timestamp = match rc_timestamp {
            Some(v) => v,
            None => {
                return None;
            },
        };
        let rc_title = match rc_title {
            Some(v) => v,
            None => {
                return None;
            },
        };
        let rc_new = match rc_new {
            Some(v) => v,
            None => {
                return None;
            },
        };
        let rc_this_oldid = match rc_this_oldid {
            Some(v) => v,
            None => {
                return None;
            },
        };
        let rc_last_oldid = match rc_last_oldid {
            Some(v) => v,
            None => {
                return None;
            },
        };
        match WdRc::make_id_numeric(rc_title.as_str()) {
            Ok(item_id) => Some(
                RecentChanges {
                    item_id,
                    rc_timestamp,
                    rc_title,
                    rc_new,
                    rc_this_oldid,
                    rc_last_oldid,
                },
            ),
            Err(_) => None,
        }
    }

    /// The number of the item.
    pub fn item_id(&self) -> (r: ItemId)
        ensures
            r == self.item(),
    {
        self.item_id
    }
}

/// An item that the batch saw created.
#[derive(Debug)]
pub struct NewItem {
    q: String,
    timestamp: String,
}

/// The mathematical value of a [`NewItem`].
pub struct NewItemView {
    pub q: Seq<char>,
    pub timestamp: Seq<char>,
}

impl View for NewItem {
    type V = NewItemView;

    closed spec fn view(&self) -> NewItemView {
        NewItemView { q: self.q@, timestamp: self.timestamp@ }
    }
}

impl NewItem {
    pub fn q(&self) -> (r: &str)
        ensures
            r@ == self@.q,
    {
        self.q.as_str()
    }

    pub fn timestamp(&self) -> (r: &str)
        ensures
            r@ == self@.timestamp,
    {
        self.timestamp.as_str()
    }
}

/// An item that the batch saw edited, with the span of revisions that the
/// edits of the batch cover.
#[derive(Debug)]
pub struct ChangedItem {
    q: String,
    old: RevisionId,
    new: RevisionId,
    timestamp: String,
}

/// The mathematical value of a [`ChangedItem`].
pub struct ChangedItemView {
    pub q: Seq<char>,
    pub old: RevisionId,
    pub new: RevisionId,
    pub timestamp: Seq<char>,
}

impl View for ChangedItem {
    type V = ChangedItemView;

    closed spec fn view(&self) -> ChangedItemView {
        ChangedItemView { q: self.q@, old: self.old, new: self.new, timestamp: self.timestamp@ }
    }
}

impl ChangedItem {
    pub fn q(&self) -> (r: &str)
        ensures
            r@ == self@.q,
    {
        self.q.as_str()
    }

    pub fn rev_old(&self) -> (r: RevisionId)
        ensures
            r == self@.old,
    {
        self.old
    }

    pub fn rev_new(&self) -> (r: RevisionId)
        ensures
            r == self@.new,
    {
        self.new
    }

    pub fn timestamp(&self) -> (r: &str)
        ensures
            r@ == self@.timestamp,
    {
        self.timestamp.as_str()
    }
}

/// The values of a list of new items.
pub open spec fn new_items_view(items: Seq<NewItem>) -> Seq<NewItemView> {
    Seq::new(items.len(), |i: int| items[i]@)
}

/// The values of a list of changed items.
pub open spec fn changed_items_view(items: Seq<ChangedItem>) -> Seq<ChangedItemView> {
    Seq::new(items.len(), |i: int| items[i]@)
}

/// The titles of a list of new items.
pub open spec fn new_titles(items: Seq<NewItemView>) -> Seq<Seq<char>> {
    Seq::new(items.len(), |i: int| items[i].q)
}

/// The titles of a list of changed items.
pub open spec fn changed_titles(items: Seq<ChangedItemView>) -> Seq<Seq<char>> {
    Seq::new(items.len(), |i: int| items[i].q)
}

/// `i` is the first place at which `q` stands in `titles`.
pub open spec fn first_at(titles: Seq<Seq<char>>, q: Seq<char>, i: int) -> bool {
    &&& 0 <= i < titles.len()
    &&& titles[i] == q
    &&& forall|j: int| 0 <= j < i ==> titles[j] != q
}

/// The first place at which `q` stands in `titles`, if it stands there at
/// all.
pub open spec fn position(titles: Seq<Seq<char>>, q: Seq<char>) -> Option<int> {
    if exists|i: int| first_at(titles, q, i) {
        Some(choose|i: int| first_at(titles, q, i))
    } else {
        None
    }
}

/// A title that stands first at `i` has the position `i`.
pub proof fn lemma_position_at(titles: Seq<Seq<char>>, q: Seq<char>, i: int)
    requires
        first_at(titles, q, i),
    ensures
        position(titles, q) == Some(i),
{
    let k = choose|k: int| first_at(titles, q, k);
    if k < i {
        assert(titles[k] != q);
    } else if i < k {
        assert(titles[i] != q);
    }
}

/// A title that stands nowhere has no position.
pub proof fn lemma_position_none(titles: Seq<Seq<char>>, q: Seq<char>)
    requires
        forall|j: int| 0 <= j < titles.len() ==> titles[j] != q,
    ensures
        position(titles, q) is None,
{
}

/// The new items after one more feed row. A row that is no creation leaves
/// them as they are. A creation of an item that is listed replaces its
/// entry, so that the last timestamp stays; any other creation adds an entry
/// at the end.
pub open spec fn new_items_after(items: Seq<NewItemView>, event: EventView) -> Seq<NewItemView> {
    let entry = NewItemView { q: event.title, timestamp: event.timestamp };
    if !event.is_new {
        items
    } else {
        match position(new_titles(items), event.title) {
            Some(i) => items.update(i, entry),
            None => items.push(entry),
        }
    }
}

/// The changed items after one more feed row. A creation leaves them as
/// they are. The first edit of an item adds an entry that spans the row's
/// two revisions. A later edit leaves the older revision as it is; where
/// the row's newer revision is above the entry's, the entry takes it, and
/// the row's timestamp with it.
pub open spec fn changed_items_after(items: Seq<ChangedItemView>, event: EventView) -> Seq<
    ChangedItemView,
> {
    if event.is_new {
        items
    } else {
        match position(changed_titles(items), event.title) {
            Some(i) => if items[i].new < event.this_rev {
                items.update(
                    i,
                    ChangedItemView {
                        q: items[i].q,
                        old: items[i].old,
                        new: event.this_rev,
                        timestamp: event.timestamp,
                    },
                )
            } else {
                items
            },
            None => items.push(
                ChangedItemView {
                    q: event.title,
                    old: event.last_rev,
                    new: event.this_rev,
                    timestamp: event.timestamp,
                },
            ),
        }
    }
}

/// The new items of a batch of feed rows, taken one after the other.
pub open spec fn new_items_of(events: Seq<EventView>) -> Seq<NewItemView>
    decreases events.len(),
{
    if events.len() == 0 {
        Seq::empty()
    } else {
        new_items_after(new_items_of(events.drop_last()), events.last())
    }
}

/// The changed items of a batch of feed rows, taken one after the other.
pub open spec fn changed_items_of(events: Seq<EventView>) -> Seq<ChangedItemView>
    decreases events.len(),
{
    if events.len() == 0 {
        Seq::empty()
    } else {
        changed_items_after(changed_items_of(events.drop_last()), events.last())
    }
}

/// `t` is the timestamp of one of the items, and none of them has a later
/// one.
pub open spec fn is_latest_timestamp(items: Seq<ChangedItemView>, t: Seq<char>) -> bool {
    &&& exists|i: int| 0 <= i < items.len() && (#[trigger] items[i]).timestamp == t
    &&& forall|j: int| 0 <= j < items.len() ==> !str_lt(t, (#[trigger] items[j]).timestamp)
}

/// The latest timestamp of the changed items, or `fallback` where there are
/// none.
pub open spec fn last_timestamp(items: Seq<ChangedItemView>, fallback: Seq<char>) -> Seq<char> {
    if items.len() == 0 {
        fallback
    } else {
        choose|t: Seq<char>| is_latest_timestamp(items, t)
    }
}

/// Only one timestamp is the latest.
pub proof fn lemma_latest_timestamp_unique(items: Seq<ChangedItemView>, a: Seq<char>, b: Seq<char>)
    requires
        is_latest_timestamp(items, a),
        is_latest_timestamp(items, b),
    ensures
        a == b,
{
    lemma_bytes_lt_total(encode_utf8(a), encode_utf8(b));
    if encode_utf8(a) == encode_utf8(b) {
        lemma_encoding_injective(a, b);
    }
}

/// The work units of one batch of feed rows.
#[derive(Debug)]
pub struct RecentChangesResults {
    new_items: Vec<NewItem>,
    changed_items: Vec<ChangedItem>,
}

/// The mathematical value of a [`RecentChangesResults`].
pub struct ResultsView {
    pub new_items: Seq<NewItemView>,
    pub changed_items: Seq<ChangedItemView>,
}

impl View for RecentChangesResults {
    type V = ResultsView;

    closed spec fn view(&self) -> ResultsView {
        ResultsView {
            new_items: new_items_view(self.new_items@),
            changed_items: changed_items_view(self.changed_items@),
        }
    }
}

/// The place of the new item with the given title.
fn find_new(items: &Vec<NewItem>, q: &str) -> (r: Option<usize>)
    ensures
        match r {
            Some(i) => position(new_titles(new_items_view(items@)), q@) == Some(i as int),
            None => position(new_titles(new_items_view(items@)), q@) is None,
        },
{
    let ghost titles = new_titles(new_items_view(items@));
    let mut i: usize = 0;
    while i < items.len()
        invariant
            0 <= i <= items.len(),
            titles == new_titles(new_items_view(items@)),
            forall|j: int| 0 <= j < i ==> titles[j] != q@,
        decreases items.len() - i,
    {
        if str_eq(items[i].q(), q) {
            proof {
                lemma_position_at(titles, q@, i as int);
            }
            return Some(i);
        }
        i += 1;
    }
    proof {
        lemma_position_none(titles, q@);
    }
    None
}

/// The place of the changed item with the given title.
fn find_changed(items: &Vec<ChangedItem>, q: &str) -> (r: Option<usize>)
    ensures
        match r {
            Some(i) => position(changed_titles(changed_items_view(items@)), q@) == Some(i as int),
            None => position(changed_titles(changed_items_view(items@)), q@) is None,
        },
{
    let ghost titles = changed_titles(changed_items_view(items@));
    let mut i: usize = 0;
    while i < items.len()
        invariant
            0 <= i <= items.len(),
            titles == changed_titles(changed_items_view(items@)),
            forall|j: int| 0 <= j < i ==> titles[j] != q@,
        decreases items.len() - i,
    {
        if str_eq(items[i].q(), q) {
            proof {
                lemma_position_at(titles, q@, i as int);
            }
            return Some(i);
        }
        i += 1;
    }
    proof {
        lemma_position_none(titles, q@);
    }
    None
}

impl RecentChangesResults {
    /// Collapses a batch of feed rows into its work units: one new item for
    /// each item created, one changed item for each item edited.
    pub fn new(results: &Vec<RecentChanges>) -> (r: Self)
        ensures
            r@.new_items == new_items_of(events_view(results@)),
            r@.changed_items == changed_items_of(events_view(results@)),
    {
        let ghost events = events_view(results@);
        let mut new_items: Vec<NewItem> = Vec::new();
        let mut changed_items: Vec<ChangedItem> = Vec::new();
        let mut n: usize = 0;
        proof {
            assert(new_items_view(new_items@) =~= new_items_of(events.take(0)));
            assert(changed_items_view(changed_items@) =~= changed_items_of(events.take(0)));
        }
        while n < results.len()
            invariant
                0 <= n <= results.len(),
                events == events_view(results@),
                new_items_view(new_items@) == new_items_of(events.take(n as int)),
                changed_items_view(changed_items@) == changed_items_of(events.take(n as int)),
            decreases results.len() - n,
        {
            let result = &results[n];
            proof {
                assert(events.take(n + 1).drop_last() =~= events.take(n as int));
                assert(events.take(n + 1).last() == result@);
            }
            let q = result.rc_title.clone();
            let timestamp = result.rc_timestamp.clone();
            if result.rc_new {
                match find_new(&new_items, q.as_str()) {
                    Some(i) => {
                        let entry = NewItem { q, timestamp };
                        proof {
                            assert(new_items_view(new_items@.update(i as int, entry))
                                =~= new_items_view(new_items@).update(i as int, entry@));
                        }
                        new_items.set(i, entry);
                    },
                    None => {
                        let entry = NewItem { q, timestamp };
                        proof {
                            assert(new_items_view(new_items@.push(entry)) =~= new_items_view(
                                new_items@,
                            ).push(entry@));
                        }
                        new_items.push(entry);
                    },
                }
            } else {
                let old = result.rc_last_oldid;
                let new = result.rc_this_oldid;
                match find_changed(&changed_items, q.as_str()) {
                    Some(i) => {
                        if changed_items[i].new < new {
                            let entry = ChangedItem {
                                q,
                                old: changed_items[i].old,
                                new,
                                timestamp,
                            };
                            proof {
                                let items = changed_items_view(changed_items@);
                                assert(changed_titles(items)[i as int] == q@);
                                assert(changed_items_view(changed_items@.update(i as int, entry))
                                    =~= items.update(i as int, entry@));
                            }
                            changed_items.set(i, entry);
                        }
                    },
                    None => {
                        let entry = ChangedItem { q, old, new, timestamp };
                        proof {
                            assert(changed_items_view(changed_items@.push(entry))
                                =~= changed_items_view(changed_items@).push(entry@));
                        }
                        changed_items.push(entry);
                    },
                }
            }
            n += 1;
        }
        proof {
            assert(events.take(results.len() as int) =~= events);
        }
        RecentChangesResults { new_items, changed_items }
    }

    /// The latest timestamp of the changed items, or `oldest` where there
    /// are none.
    pub fn get_last_rc_timetamp(&self, oldest: &str) -> (r: String)
        ensures
            r@ == last_timestamp(self@.changed_items, oldest@),
            self@.changed_items.len() > 0 ==> is_latest_timestamp(self@.changed_items, r@),
    {
        let ghost items = changed_items_view(self.changed_items@);
        if self.changed_items.len() == 0 {
            return oldest.to_owned();
        }
        let mut best: usize = 0;
        let mut i: usize = 1;
        while i < self.changed_items.len()
            invariant
                1 <= i <= self.changed_items.len(),
                0 <= best < i,
                items == changed_items_view(self.changed_items@),
                forall|j: int|
                    0 <= j < i ==> !str_lt(
                        items[best as int].timestamp,
                        (#[trigger] items[j]).timestamp,
                    ),
            decreases self.changed_items.len() - i,
        {
            if str_less(self.changed_items[best].timestamp(), self.changed_items[i].timestamp()) {
                proof {
                    let a = encode_utf8(items[best as int].timestamp);
                    let b = encode_utf8(items[i as int].timestamp);
                    lemma_bytes_lt_irreflexive(b);
                    assert forall|j: int| 0 <= j < i + 1 implies !str_lt(
                        items[i as int].timestamp,
                        (#[trigger] items[j]).timestamp,
                    ) by {
                        let c = encode_utf8(items[j].timestamp);
                        if bytes_lt(b, c) {
                            lemma_bytes_lt_transitive(a, b, c);
                        }
                    }
                }
                best = i;
            }
            i += 1;
        }
        let r = self.changed_items[best].timestamp().to_owned();
        proof {
            assert(items[best as int].timestamp == r@);
            assert(is_latest_timestamp(items, r@));
            let t = choose|t: Seq<char>| is_latest_timestamp(items, t);
            lemma_latest_timestamp_unique(items, t, r@);
        }
        r
    }

    pub fn new_items(&self) -> (r: &Vec<NewItem>)
        ensures
            new_items_view(r@) == self@.new_items,
    {
        &self.new_items
    }

    pub fn changed_items(&self) -> (r: &Vec<ChangedItem>)
        ensures
            changed_items_view(r@) == self@.changed_items,
    {
        &self.changed_items
    }
}

/// One row of the redirects feed: an item that redirects to another.
#[derive(Clone, Debug)]
pub struct RecentRedirects {
    source: String,
    target: String,
    timestamp: String,
}

/// The mathematical value of a [`RecentRedirects`].
pub struct RedirectView {
    pub source: Seq<char>,
    pub target: Seq<char>,
    pub timestamp: Seq<char>,
}

impl View for RecentRedirects {
    type V = RedirectView;

    closed spec fn view(&self) -> RedirectView {
        RedirectView { source: self.source@, target: self.target@, timestamp: self.timestamp@ }
    }
}

/// The values of a list of redirects.
pub open spec fn redirects_view(rows: Seq<RecentRedirects>) -> Seq<RedirectView> {
    Seq::new(rows.len(), |i: int| rows[i]@)
}

impl RecentRedirects {
    /// A redirect from the columns of a database row. There is none where
    /// a column is missing.
    pub fn from_row(
        source: Option<String>,
        target: Option<String>,
        timestamp: Option<String>,
    ) -> (r: Option<Self>)
        ensures
            r is Some <==> source is Some && target is Some && timestamp is Some,
            r matches Some(row) ==> row@ == (RedirectView {
                source: source->0@,
                target: target->0@,
                timestamp: timestamp->0@,
            }),
    {
        match source {
            Some(source) => match target {
                Some(target) => match timestamp {
                    Some(timestamp) => Some(RecentRedirects { source, target, timestamp }),
                    None => None,
                },
                None => None,
            },
            None => None,
        }
    }

    pub fn source(&self) -> (r: &str)
        ensures
            r@ == self@.source,
    {
        self.source.as_str()
    }

    pub fn target(&self) -> (r: &str)
        ensures
            r@ == self@.target,
    {
        self.target.as_str()
    }

    pub fn timestamp(&self) -> (r: &str)
        ensures
            r@ == self@.timestamp,
    {
        self.timestamp.as_str()
    }
}

/// One row of the deletions feed.
#[derive(Clone, Debug)]
pub struct RecentDeletions {
    q: String,
    timestamp: String,
}

/// The mathematical value of a [`RecentDeletions`].
pub struct DeletionView {
    pub q: Seq<char>,
    pub timestamp: Seq<char>,
}

impl View for RecentDeletions {
    type V = DeletionView;

    closed spec fn view(&self) -> DeletionView {
        DeletionView { q: self.q@, timestamp: self.timestamp@ }
    }
}

/// The values of a list of deletions.
pub open spec fn deletions_view(rows: Seq<RecentDeletions>) -> Seq<DeletionView> {
    Seq::new(rows.len(), |i: int| rows[i]@)
}

impl RecentDeletions {
    /// A deletion from the columns of a database row. There is none where
    /// a column is missing.
    pub fn from_row(q: Option<String>, timestamp: Option<String>) -> (r: Option<Self>)
        ensures
            r is Some <==> q is Some && timestamp is Some,
            r matches Some(row) ==> row@ == (DeletionView { q: q->0@, timestamp: timestamp->0@ }),
    {
        match q {
            Some(q) => match timestamp {
                Some(timestamp) => Some(RecentDeletions { q, timestamp }),
                None => None,
            },
            None => None,
        }
    }

    pub fn q(&self) -> (r: &str)
        ensures
            r@ == self@.q,
    {
        self.q.as_str()
    }

    pub fn timestamp(&self) -> (r: &str)
        ensures
            r@ == self@.timestamp,
    {
        self.timestamp.as_str()
    }
}

} // verus!
