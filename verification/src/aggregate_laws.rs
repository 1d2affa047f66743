//! What the work units of a batch say of the batch.

use crate::recent_changes::{
    changed_items_after, changed_items_of, changed_titles, first_at, is_latest_timestamp,
    last_timestamp, lemma_position_at, lemma_position_none, new_items_after, new_items_of,
    new_titles, position, ChangedItemView, EventView, NewItemView,
};
use crate::text::{
    bytes_lt, lemma_bytes_lt_irreflexive, lemma_bytes_lt_total, lemma_bytes_lt_transitive, str_lt,
};
use crate::RevisionId;
use vstd::prelude::*;
use vstd::utf8::encode_utf8;

verus! {

/// Whether a feed row is an edit of the item with the title `q`.
pub open spec fn is_edit_of(event: EventView, q: Seq<char>) -> bool {
    !event.is_new && event.title == q
}

/// The row at `k` is the first edit of the item `q` in the batch.
pub open spec fn first_edit_at(events: Seq<EventView>, q: Seq<char>, k: int) -> bool {
    &&& 0 <= k < events.len()
    &&& is_edit_of(events[k], q)
    &&& forall|j: int| 0 <= j < k ==> !is_edit_of(#[trigger] events[j], q)
}

/// The row at `k` is the first edit of the item `q` that reaches the
/// revision `new`.
pub open spec fn first_reaching_at(
    events: Seq<EventView>,
    q: Seq<char>,
    new: RevisionId,
    k: int,
) -> bool {
    &&& 0 <= k < events.len()
    &&& is_edit_of(events[k], q)
    &&& events[k].this_rev == new
    &&& forall|j: int|
        0 <= j < k && is_edit_of(#[trigger] events[j], q) ==> events[j].this_rev < new
}

/// What a changed item says of the batch that it was made from: its older
/// revision is the one before the first edit of the item; its newer
/// revision is the highest that an edit of the item reached; its timestamp
/// is that of the first edit that reached it.
pub open spec fn spans_edits(events: Seq<EventView>, item: ChangedItemView) -> bool {
    &&& exists|k: int| first_edit_at(events, item.q, k) && events[k].last_rev == item.old
    &&& forall|k: int|
        0 <= k < events.len() && is_edit_of(#[trigger] events[k], item.q) ==> events[k].this_rev
            <= item.new
    &&& exists|k: int|
        first_reaching_at(events, item.q, item.new, k) && events[k].timestamp == item.timestamp
}

/// No title stands twice.
pub open spec fn distinct_titles(titles: Seq<Seq<char>>) -> bool {
    forall|i: int, j: int| 0 <= i < j < titles.len() ==> titles[i] != titles[j]
}

/// The items account for a feed row: a creation asks nothing of them; an
/// edit has its item listed, with a newer revision at or above the row's.
pub open spec fn covers(items: Seq<ChangedItemView>, event: EventView) -> bool {
    event.is_new || match position(changed_titles(items), event.title) {
        Some(i) => event.this_rev <= items[i].new,
        None => false,
    }
}

/// The items are the consolidation of the batch: each item once, every
/// edit accounted for, and each item spanning the edits of its item.
pub open spec fn consolidates(events: Seq<EventView>, items: Seq<ChangedItemView>) -> bool {
    &&& distinct_titles(changed_titles(items))
    &&& forall|k: int| 0 <= k < events.len() ==> covers(items, #[trigger] events[k])
    &&& forall|i: int| 0 <= i < items.len() ==> spans_edits(events, #[trigger] items[i])
}

/// Where a title stands somewhere, it stands somewhere first.
pub proof fn lemma_first_exists(titles: Seq<Seq<char>>, q: Seq<char>, j: int)
    requires
        0 <= j < titles.len(),
        titles[j] == q,
    ensures
        exists|i: int| first_at(titles, q, i),
    decreases j,
{
    if forall|m: int| 0 <= m < j ==> titles[m] != q {
        assert(first_at(titles, q, j));
    } else {
        let m = choose|m: int| 0 <= m < j && titles[m] == q;
        lemma_first_exists(titles, q, m);
    }
}

/// What the position of a title says: where there is one, the title
/// stands first there; where there is none, it stands nowhere.
pub proof fn lemma_position_spec(titles: Seq<Seq<char>>, q: Seq<char>)
    ensures
        match position(titles, q) {
            Some(i) => first_at(titles, q, i),
            None => forall|j: int| 0 <= j < titles.len() ==> titles[j] != q,
        },
{
    if position(titles, q) is None {
        assert forall|j: int| 0 <= j < titles.len() implies titles[j] != q by {
            if titles[j] == q {
                lemma_first_exists(titles, q, j);
            }
        }
    }
}

/// Appending a title moves no position; the appended title gets the last
/// place where it has none yet.
pub proof fn lemma_position_push(titles: Seq<Seq<char>>, x: Seq<char>, q: Seq<char>)
    ensures
        position(titles.push(x), q) == match position(titles, q) {
            Some(i) => Some(i),
            None => if x == q {
                Some(titles.len() as int)
            } else {
                None
            },
        },
{
    lemma_position_spec(titles, q);
    let pushed = titles.push(x);
    match position(titles, q) {
        Some(i) => {
            assert(first_at(pushed, q, i)) by {
                assert(pushed[i] == titles[i]);
                assert forall|j: int| 0 <= j < i implies pushed[j] != q by {
                    assert(pushed[j] == titles[j]);
                }
            }
            lemma_position_at(pushed, q, i);
        },
        None => {
            if x == q {
                assert(first_at(pushed, q, titles.len() as int)) by {
                    assert forall|j: int| 0 <= j < titles.len() implies pushed[j] != q by {
                        assert(pushed[j] == titles[j]);
                    }
                }
                lemma_position_at(pushed, q, titles.len() as int);
            } else {
                assert forall|j: int| 0 <= j < pushed.len() implies pushed[j] != q by {
                    if j < titles.len() {
                        assert(pushed[j] == titles[j]);
                    }
                }
                lemma_position_none(pushed, q);
            }
        },
    }
}

/// One more feed row keeps a consolidation a consolidation.
pub proof fn lemma_consolidates_step(
    events: Seq<EventView>,
    items: Seq<ChangedItemView>,
    event: EventView,
)
    requires
        consolidates(events, items),
    ensures
        consolidates(events.push(event), changed_items_after(items, event)),
{
    let titles = changed_titles(items);
    let after = changed_items_after(items, event);
    let titles_after = changed_titles(after);
    let longer = events.push(event);
    lemma_position_spec(titles, event.title);
    assert forall|k: int| 0 <= k < events.len() implies longer[k] == events[k] by {}
    // What an item that the row does not touch says of the batch still holds.
    assert forall|i: int|
        0 <= i < items.len() && !is_edit_of(event, items[i].q) implies spans_edits(
        longer,
        #[trigger] items[i],
    ) by {
        let item = items[i];
        let a = choose|k: int| first_edit_at(events, item.q, k) && events[k].last_rev == item.old;
        assert(first_edit_at(longer, item.q, a)) by {
            assert forall|j: int| 0 <= j < a implies !is_edit_of(#[trigger] longer[j], item.q) by {
                assert(longer[j] == events[j]);
            }
        }
        assert(longer[a].last_rev == item.old);
        let b = choose|k: int|
            first_reaching_at(events, item.q, item.new, k) && events[k].timestamp
                == item.timestamp;
        assert(first_reaching_at(longer, item.q, item.new, b)) by {
            assert forall|j: int|
                0 <= j < b && is_edit_of(#[trigger] longer[j], item.q) implies longer[j].this_rev
                < item.new by {
                assert(longer[j] == events[j]);
            }
        }
        assert(longer[b].timestamp == item.timestamp);
        assert forall|k: int|
            0 <= k < longer.len() && is_edit_of(
                #[trigger] longer[k],
                item.q,
            ) implies longer[k].this_rev <= item.new by {
            if k < events.len() {
                assert(longer[k] == events[k]);
            }
        }
    }
    if event.is_new {
        assert(after == items);
        assert forall|k: int| 0 <= k < longer.len() implies covers(after, #[trigger] longer[k]) by {
            if k < events.len() {
                assert(longer[k] == events[k]);
            }
        }
    } else {
        match position(titles, event.title) {
            Some(i) => {
                assert(titles[i] == event.title);
                assert(items[i].q == event.title);
                assert forall|m: int| 0 <= m < items.len() && m != i implies !is_edit_of(
                    event,
                    items[m].q,
                ) by {
                    assert(titles[m] == items[m].q);
                    if m < i {
                        assert(titles[m] != titles[i]);
                    } else {
                        assert(titles[i] != titles[m]);
                    }
                }
                let item = items[i];
                let a = choose|k: int|
                    first_edit_at(events, item.q, k) && events[k].last_rev == item.old;
                assert(first_edit_at(longer, item.q, a)) by {
                    assert forall|j: int| 0 <= j < a implies !is_edit_of(
                        #[trigger] longer[j],
                        item.q,
                    ) by {
                        assert(longer[j] == events[j]);
                    }
                }
                assert(longer[a].last_rev == item.old);
                assert(titles_after =~= titles);
                if item.new < event.this_rev {
                    let entry = after[i];
                    assert(entry.q == item.q && entry.old == item.old);
                    assert(first_reaching_at(longer, entry.q, entry.new, events.len() as int)) by {
                        assert forall|j: int|
                            0 <= j < events.len() && is_edit_of(
                                #[trigger] longer[j],
                                entry.q,
                            ) implies longer[j].this_rev < entry.new by {
                            assert(longer[j] == events[j]);
                        }
                    }
                    assert forall|k: int|
                        0 <= k < longer.len() && is_edit_of(
                            #[trigger] longer[k],
                            entry.q,
                        ) implies longer[k].this_rev <= entry.new by {
                        if k < events.len() {
                            assert(longer[k] == events[k]);
                        }
                    }
                    assert(spans_edits(longer, entry));
                    assert forall|m: int| 0 <= m < after.len() implies spans_edits(
                        longer,
                        #[trigger] after[m],
                    ) by {
                        if m != i {
                            assert(after[m] == items[m]);
                        }
                    }
                    assert forall|k: int| 0 <= k < longer.len() implies covers(
                        after,
                        #[trigger] longer[k],
                    ) by {
                        if k < events.len() {
                            assert(longer[k] == events[k]);
                            assert(covers(items, events[k]));
                            if !events[k].is_new {
                                let p = position(titles, events[k].title)->0;
                                lemma_position_spec(titles, events[k].title);
                                if p != i {
                                    assert(after[p] == items[p]);
                                }
                            }
                        }
                    }
                } else {
                    assert(after == items);
                    let b = choose|k: int|
                        first_reaching_at(events, item.q, item.new, k) && events[k].timestamp
                            == item.timestamp;
                    assert(first_reaching_at(longer, item.q, item.new, b)) by {
                        assert forall|j: int|
                            0 <= j < b && is_edit_of(
                                #[trigger] longer[j],
                                item.q,
                            ) implies longer[j].this_rev < item.new by {
                            assert(longer[j] == events[j]);
                        }
                    }
                    assert(longer[b].timestamp == item.timestamp);
                    assert forall|k: int|
                        0 <= k < longer.len() && is_edit_of(
                            #[trigger] longer[k],
                            item.q,
                        ) implies longer[k].this_rev <= item.new by {
                        if k < events.len() {
                            assert(longer[k] == events[k]);
                        }
                    }
                    assert(spans_edits(longer, item));
                    assert forall|k: int| 0 <= k < longer.len() implies covers(
                        after,
                        #[trigger] longer[k],
                    ) by {
                        if k < events.len() {
                            assert(longer[k] == events[k]);
                        }
                    }
                }
            },
            None => {
                let entry = ChangedItemView {
                    q: event.title,
                    old: event.last_rev,
                    new: event.this_rev,
                    timestamp: event.timestamp,
                };
                assert(after == items.push(entry));
                assert(titles_after =~= titles.push(event.title));
                assert forall|m: int| 0 <= m < items.len() implies !is_edit_of(
                    event,
                    items[m].q,
                ) by {
                    assert(titles[m] == items[m].q);
                }
                assert forall|j: int| 0 <= j < events.len() implies !is_edit_of(
                    #[trigger] longer[j],
                    event.title,
                ) by {
                    assert(longer[j] == events[j]);
                    assert(covers(items, events[j]));
                    if !events[j].is_new {
                        lemma_position_spec(titles, events[j].title);
                        let p = position(titles, events[j].title)->0;
                        assert(titles[p] == events[j].title);
                    }
                }
                assert(first_edit_at(longer, entry.q, events.len() as int));
                assert(first_reaching_at(longer, entry.q, entry.new, events.len() as int));
                assert(spans_edits(longer, entry));
                assert forall|m: int| 0 <= m < after.len() implies spans_edits(
                    longer,
                    #[trigger] after[m],
                ) by {
                    if m < items.len() {
                        assert(after[m] == items[m]);
                    }
                }
                assert forall|k: int| 0 <= k < longer.len() implies covers(
                    after,
                    #[trigger] longer[k],
                ) by {
                    lemma_position_push(titles, event.title, longer[k].title);
                    if k < events.len() {
                        assert(longer[k] == events[k]);
                        assert(covers(items, events[k]));
                        if !events[k].is_new {
                            lemma_position_spec(titles, events[k].title);
                            let p = position(titles, events[k].title)->0;
                            assert(after[p] == items[p]);
                        }
                    }
                }
                assert(distinct_titles(titles_after)) by {
                    assert forall|a: int, b: int|
                        0 <= a < b < titles_after.len() implies titles_after[a]
                        != titles_after[b] by {
                        if b < titles.len() {
                            assert(titles_after[a] == titles[a]);
                            assert(titles_after[b] == titles[b]);
                        } else {
                            assert(titles_after[a] == titles[a]);
                        }
                    }
                }
            },
        }
    }
}

/// The changed items of a batch are its consolidation: each edited item
/// stands once, from the revision before its first edit to the highest
/// revision that its edits reached, and every edit is accounted for.
pub proof fn lemma_changed_items_consolidate(events: Seq<EventView>)
    ensures
        consolidates(events, changed_items_of(events)),
    decreases events.len(),
{
    if events.len() > 0 {
        lemma_changed_items_consolidate(events.drop_last());
        lemma_consolidates_step(
            events.drop_last(),
            changed_items_of(events.drop_last()),
            events.last(),
        );
        assert(events.drop_last().push(events.last()) =~= events);
    }
}

/// A feed row that the items account for changes nothing.
pub proof fn lemma_covered_event_changes_nothing(items: Seq<ChangedItemView>, event: EventView)
    requires
        covers(items, event),
    ensures
        changed_items_after(items, event) == items,
{
}

/// Taking a batch twice over gives the changed items of taking it once:
/// each item keeps the older revision of its first edit and the highest
/// newer revision.
pub proof fn lemma_changed_items_idempotent(events: Seq<EventView>)
    ensures
        changed_items_of(events + events) == changed_items_of(events),
{
    lemma_changed_items_repeat(events, events.len() as int);
    assert(events.take(events.len() as int) =~= events);
}

/// After a batch, any of its rows taken again change nothing.
pub proof fn lemma_changed_items_repeat(events: Seq<EventView>, k: int)
    requires
        0 <= k <= events.len(),
    ensures
        changed_items_of(events + events.take(k)) == changed_items_of(events),
    decreases k,
{
    if k == 0 {
        assert(events + events.take(0) =~= events);
    } else {
        lemma_changed_items_repeat(events, k - 1);
        lemma_changed_items_consolidate(events);
        let both = events + events.take(k);
        assert(both.drop_last() =~= events + events.take(k - 1));
        assert(both.last() == events[k - 1]);
        lemma_covered_event_changes_nothing(changed_items_of(events), events[k - 1]);
    }
}

/// Whether a feed row is a creation of the item with the title `q`.
pub open spec fn is_creation_of(event: EventView, q: Seq<char>) -> bool {
    event.is_new && event.title == q
}

/// The row at `k` is the last creation of the item `q` in the batch.
pub open spec fn last_creation_at(events: Seq<EventView>, q: Seq<char>, k: int) -> bool {
    &&& 0 <= k < events.len()
    &&& is_creation_of(events[k], q)
    &&& forall|j: int| k < j < events.len() ==> !is_creation_of(#[trigger] events[j], q)
}

/// What a new item says of the batch that it was made from: its
/// timestamp is that of the last creation of the item.
pub open spec fn dates_creation(events: Seq<EventView>, item: NewItemView) -> bool {
    exists|k: int| last_creation_at(events, item.q, k) && events[k].timestamp == item.timestamp
}

/// The items are the new items of the batch: each item once, every
/// created item among them, and each with the timestamp of its last
/// creation.
pub open spec fn collects(events: Seq<EventView>, items: Seq<NewItemView>) -> bool {
    &&& distinct_titles(new_titles(items))
    &&& forall|k: int|
        0 <= k < events.len() && (#[trigger] events[k]).is_new ==> position(
            new_titles(items),
            events[k].title,
        ) is Some
    &&& forall|i: int| 0 <= i < items.len() ==> dates_creation(events, #[trigger] items[i])
}

/// One more feed row keeps the new items the new items of the batch.
pub proof fn lemma_collects_step(events: Seq<EventView>, items: Seq<NewItemView>, event: EventView)
    requires
        collects(events, items),
    ensures
        collects(events.push(event), new_items_after(items, event)),
{
    let titles = new_titles(items);
    let after = new_items_after(items, event);
    let titles_after = new_titles(after);
    let longer = events.push(event);
    lemma_position_spec(titles, event.title);
    // An item that the row does not create keeps the last creation it had.
    assert forall|i: int|
        0 <= i < items.len() && !is_creation_of(event, items[i].q) implies dates_creation(
        longer,
        #[trigger] items[i],
    ) by {
        let k = choose|k: int|
            last_creation_at(events, items[i].q, k) && events[k].timestamp == items[i].timestamp;
        assert(longer[k] == events[k]);
        assert forall|j: int| k < j < longer.len() implies !is_creation_of(
            #[trigger] longer[j],
            items[i].q,
        ) by {
            if j < events.len() {
                assert(longer[j] == events[j]);
            }
        }
        assert(last_creation_at(longer, items[i].q, k));
    }
    if !event.is_new {
        assert(after == items);
        assert forall|k: int|
            0 <= k < longer.len() && (#[trigger] longer[k]).is_new implies position(
            titles_after,
            longer[k].title,
        ) is Some by {
            assert(longer[k] == events[k]);
        }
        assert forall|m: int| 0 <= m < after.len() implies dates_creation(
            longer,
            #[trigger] after[m],
        ) by {
            assert(after[m] == items[m]);
        }
    } else {
        let entry = NewItemView { q: event.title, timestamp: event.timestamp };
        assert(last_creation_at(longer, entry.q, events.len() as int));
        match position(titles, event.title) {
            Some(i) => {
                assert(titles[i] == event.title);
                assert(titles_after =~= titles);
                assert forall|m: int| 0 <= m < after.len() implies dates_creation(
                    longer,
                    #[trigger] after[m],
                ) by {
                    if m != i {
                        assert(after[m] == items[m]);
                        assert(titles[m] == items[m].q);
                        if m < i {
                            assert(titles[m] != titles[i]);
                        } else {
                            assert(titles[i] != titles[m]);
                        }
                    } else {
                        assert(after[m] == entry);
                    }
                }
                assert forall|k: int|
                    0 <= k < longer.len() && (#[trigger] longer[k]).is_new implies position(
                    titles_after,
                    longer[k].title,
                ) is Some by {
                    if k < events.len() {
                        assert(longer[k] == events[k]);
                    }
                }
            },
            None => {
                assert(after == items.push(entry));
                assert(titles_after =~= titles.push(event.title));
                assert forall|m: int| 0 <= m < after.len() implies dates_creation(
                    longer,
                    #[trigger] after[m],
                ) by {
                    if m < items.len() {
                        assert(after[m] == items[m]);
                        assert(titles[m] == items[m].q);
                    } else {
                        assert(after[m] == entry);
                    }
                }
                assert forall|k: int|
                    0 <= k < longer.len() && (#[trigger] longer[k]).is_new implies position(
                    titles_after,
                    longer[k].title,
                ) is Some by {
                    lemma_position_push(titles, event.title, longer[k].title);
                    if k < events.len() {
                        assert(longer[k] == events[k]);
                    }
                }
                assert(distinct_titles(titles_after)) by {
                    assert forall|a: int, b: int|
                        0 <= a < b < titles_after.len() implies titles_after[a]
                        != titles_after[b] by {
                        assert(titles_after[a] == titles[a]);
                        if b < titles.len() {
                            assert(titles_after[b] == titles[b]);
                        }
                    }
                }
            },
        }
    }
}

/// The new items of a batch are its created items: each stands once, with
/// the timestamp of its last creation in the batch.
pub proof fn lemma_new_items_collect(events: Seq<EventView>)
    ensures
        collects(events, new_items_of(events)),
    decreases events.len(),
{
    if events.len() > 0 {
        lemma_new_items_collect(events.drop_last());
        lemma_collects_step(events.drop_last(), new_items_of(events.drop_last()), events.last());
        assert(events.drop_last().push(events.last()) =~= events);
    }
}

/// Among one or more changed items some timestamp is the latest.
pub proof fn lemma_latest_timestamp_exists(items: Seq<ChangedItemView>)
    requires
        items.len() > 0,
    ensures
        exists|t: Seq<char>| is_latest_timestamp(items, t),
    decreases items.len(),
{
    let last = items.last().timestamp;
    lemma_bytes_lt_irreflexive(encode_utf8(last));
    if items.len() == 1 {
        assert(is_latest_timestamp(items, last));
    } else {
        let before = items.drop_last();
        lemma_latest_timestamp_exists(before);
        let t = choose|t: Seq<char>| is_latest_timestamp(before, t);
        let i = choose|i: int| 0 <= i < before.len() && (#[trigger] before[i]).timestamp == t;
        assert(items[i] == before[i]);
        if str_lt(t, last) {
            assert forall|j: int| 0 <= j < items.len() implies !str_lt(
                last,
                (#[trigger] items[j]).timestamp,
            ) by {
                if j < before.len() {
                    assert(items[j] == before[j]);
                    if str_lt(last, items[j].timestamp) {
                        lemma_bytes_lt_transitive(
                            encode_utf8(t),
                            encode_utf8(last),
                            encode_utf8(items[j].timestamp),
                        );
                    }
                }
            }
            assert(is_latest_timestamp(items, last));
        } else {
            assert forall|j: int| 0 <= j < items.len() implies !str_lt(
                t,
                (#[trigger] items[j]).timestamp,
            ) by {
                if j < before.len() {
                    assert(items[j] == before[j]);
                }
            }
            assert(is_latest_timestamp(items, t));
        }
    }
}

/// The last timestamp is never before the fallback, as long as the items,
/// where there are any, are not all before it.
pub proof fn lemma_last_timestamp_not_before_fallback(
    items: Seq<ChangedItemView>,
    fallback: Seq<char>,
)
    requires
        items.len() == 0 || exists|i: int|
            0 <= i < items.len() && !str_lt((#[trigger] items[i]).timestamp, fallback),
    ensures
        !str_lt(last_timestamp(items, fallback), fallback),
{
    let f = encode_utf8(fallback);
    lemma_bytes_lt_irreflexive(f);
    if items.len() > 0 {
        lemma_latest_timestamp_exists(items);
        let t = last_timestamp(items, fallback);
        let i = choose|i: int|
            0 <= i < items.len() && !str_lt((#[trigger] items[i]).timestamp, fallback);
        let ti = encode_utf8(items[i].timestamp);
        if str_lt(t, fallback) {
            lemma_bytes_lt_total(ti, encode_utf8(t));
            if bytes_lt(ti, encode_utf8(t)) {
                lemma_bytes_lt_transitive(ti, encode_utf8(t), f);
            }
        }
    }
}

/// The last timestamp is the fallback exactly where there are no changed
/// items, as long as the fallback is not itself their latest timestamp.
pub proof fn lemma_last_timestamp_is_fallback_iff_empty(
    items: Seq<ChangedItemView>,
    fallback: Seq<char>,
)
    requires
        !is_latest_timestamp(items, fallback),
    ensures
        last_timestamp(items, fallback) == fallback <==> items.len() == 0,
{
    if items.len() > 0 {
        lemma_latest_timestamp_exists(items);
    }
}

} // verus!
