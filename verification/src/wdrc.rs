//! The sync cycle's own rules: decoding identifiers, and planning what a
//! cycle writes.

use crate::change::{changes_view, lemma_changes_view_concat, Change, ChangeSubject, ChangeView};
use crate::json::{Json, JsonView};
use crate::recent_changes::{
    changed_items_of, deletions_view, events_view, last_timestamp, new_items_of, new_items_view,
    redirects_view, EventView, RecentChanges, RecentChangesResults, RecentDeletions,
    RecentRedirects,
};
use crate::rows::{
    cached_id, claim_row_rule, creation_rule, deletion_rule, interned_text, item_rows_view,
    item_stamps, label_row_rule, label_rows_view, missing_text_rule, redirect_rows_view,
    redirect_rule, redirect_stamps, statement_rows_view, ItemRow, LabelRow, RedirectRow,
    StatementRow,
};
use crate::text::{
    chars_of, contains_str, distinct, lemma_strings_view_push, parse_unsigned, strings_view,
    unsigned_value,
};
use crate::text_cache::{rows_map, TextCache};
use crate::watermark::{later, watermark_after};
use crate::{ItemId, TextId};
use vstd::prelude::*;

verus! {

/// Why a step of the sync failed.
#[derive(Debug, Clone, Copy, PartialEq, Eq, Structural)]
pub enum SyncError {
    /// An identifier is not a letter followed by a positive number.
    InvalidIdentifier,
    /// A requested revision is not in the response, or the response cannot
    /// be read.
    RevisionFetch,
}

/// The digits of an identifier: what follows its first character, without
/// a plus sign in front.
pub open spec fn id_digits(id: Seq<char>) -> Seq<char> {
    let rest = id.drop_first();
    if rest.len() > 0 && rest[0] == '+' {
        rest.drop_first()
    } else {
        rest
    }
}

/// The number of an identifier such as `Q42`: the decimal number after its
/// first character. There is none where the identifier is empty, where the
/// rest is no decimal number that fits `u64`, and where the number is zero.
pub open spec fn item_id_of(id: Seq<char>) -> Option<ItemId> {
    if id.len() == 0 {
        None
    } else {
        match unsigned_value(id_digits(id)) {
            Some(n) => if n == 0 {
                None
            } else {
                Some(n)
            },
            None => None,
        }
    }
}

/// The most feed rows that a cycle asks for, unless the configuration says
/// otherwise.
pub const MAX_RECENT_CHANGES: u64 = 500;

/// The most fetches of revisions that are under way at one time.
pub const MAX_API_CONCURRENT: usize = 50;

/// The event of a feed row that could be read.
pub open spec fn row_event() -> spec_fn(Option<RecentChanges>) -> Option<EventView> {
    |row: Option<RecentChanges>|
        match row {
            Some(row) => Some(row@),
            None => None,
        }
}

/// What a fetch-and-diff task adds to the batch: its changes where it
/// succeeded, nothing where it failed.
pub open spec fn outcome_changes() -> spec_fn(Result<Vec<Change>, SyncError>) -> Seq<ChangeView> {
    |outcome: Result<Vec<Change>, SyncError>|
        match outcome {
            Ok(changes) => changes_view(changes@),
            Err(_) => Seq::empty(),
        }
}

/// The failure of a fetch-and-diff task that failed.
pub open spec fn outcome_failure() -> spec_fn(Result<Vec<Change>, SyncError>) -> Option<
    SyncError,
> {
    |outcome: Result<Vec<Change>, SyncError>|
        match outcome {
            Ok(_) => None,
            Err(e) => Some(e),
        }
}

/// The changes of all tasks that succeeded, task after task.
pub open spec fn collected_changes(outcomes: Seq<Result<Vec<Change>, SyncError>>) -> Seq<
    ChangeView,
> {
    outcomes.map_values(outcome_changes()).flatten()
}

/// Whether logging is switched on in a configuration: the boolean under
/// `logging`, or off where there is none.
pub open spec fn config_logging(config: JsonView) -> bool {
    match config.get("logging"@) {
        Some(value) => match value.as_bool() {
            Some(on) => on,
            None => false,
        },
        None => false,
    }
}

/// The cap on feed rows in a configuration: the number under
/// `max_recent_changes`, or the default where there is none.
pub open spec fn config_max_recent_changes(config: JsonView) -> u64 {
    match config.get("max_recent_changes"@) {
        Some(value) => match value.as_u64() {
            Some(n) => n,
            None => MAX_RECENT_CHANGES,
        },
        None => MAX_RECENT_CHANGES,
    }
}

/// What the fetches of a batch came to: the changes to store, the
/// failures of the tasks that added none, and the watermark to advance to.
#[derive(Debug, Clone, PartialEq)]
pub struct ChangeBatch {
    pub changes: Vec<Change>,
    pub failures: Vec<SyncError>,
    pub watermark: String,
}

/// A step of one sync cycle.
#[derive(Debug, Clone, Copy, PartialEq, Eq, Structural)]
pub enum CycleStep {
    /// Refresh the redirects and the deletions.
    RefreshSideStreams,
    /// Read the watermark, pull the feed rows and aggregate them.
    PullChanges,
    /// Fetch, diff and store the changes, then advance the watermark.
    StoreChanges,
    /// Store the new items.
    StoreNewItems,
    /// The cycle came to its end.
    Done,
    /// The cycle was given up.
    Failed,
}

/// The step that follows a step of the cycle. A failure of the side
/// streams does not stop the cycle; any other failure does.
pub open spec fn step_after(step: CycleStep, succeeded: bool) -> CycleStep {
    match step {
        CycleStep::RefreshSideStreams => CycleStep::PullChanges,
        CycleStep::PullChanges => if succeeded {
            CycleStep::StoreChanges
        } else {
            CycleStep::Failed
        },
        CycleStep::StoreChanges => if succeeded {
            CycleStep::StoreNewItems
        } else {
            CycleStep::Failed
        },
        CycleStep::StoreNewItems => if succeeded {
            CycleStep::Done
        } else {
            CycleStep::Failed
        },
        CycleStep::Done => CycleStep::Done,
        CycleStep::Failed => CycleStep::Failed,
    }
}

/// State of the sync that outlives a cycle.
pub struct WdRc {
    text_cache: TextCache,
    logging: bool,
    max_recent_changes: u64,
}

/// The mathematical value of a [`WdRc`].
pub struct WdRcView {
    pub texts: Map<Seq<char>, TextId>,
    pub logging: bool,
    pub max_recent_changes: u64,
}

impl View for WdRc {
    type V = WdRcView;

    closed spec fn view(&self) -> WdRcView {
        WdRcView {
            texts: self.text_cache@,
            logging: self.logging,
            max_recent_changes: self.max_recent_changes,
        }
    }
}

impl WdRc {
    /// The number of an identifier, or `InvalidIdentifier` where it has none.
    pub fn make_id_numeric(id: &str) -> (r: Result<ItemId, SyncError>)
        ensures
            match item_id_of(id@) {
                Some(n) => r == Ok::<ItemId, SyncError>(n),
                None => r == Err::<ItemId, SyncError>(SyncError::InvalidIdentifier),
            },
    {
        let chars = chars_of(id);
        if chars.len() == 0 {
            return Err(SyncError::InvalidIdentifier);
        }
        let from: usize = if chars.len() > 1 && chars[1] == '+' {
            2
        } else {
            1
        };
        proof {
            let rest = id@.drop_first();
            assert(rest =~= chars@.subrange(1, chars.len() as int));
            if from == 2 {
                assert(rest.drop_first() =~= chars@.subrange(2, chars.len() as int));
            }
            assert(id_digits(id@) == chars@.subrange(from as int, chars.len() as int));
        }
        match parse_unsigned(&chars, from) {
            Some(n) => if n == 0 {
                Err(SyncError::InvalidIdentifier)
            } else {
                Ok(n)
            },
            None => Err(SyncError::InvalidIdentifier),
        }
    }

    /// The state at the start, from the configuration.
    pub fn new(config: &Json) -> (r: WdRc)
        ensures
            r@ == (WdRcView {
                texts: Map::empty(),
                logging: config_logging(config@),
                max_recent_changes: config_max_recent_changes(config@),
            }),
    {
        let logging = match config.get("logging") {
            Some(value) => match value.as_bool() {
                Some(on) => on,
                None => false,
            },
            None => false,
        };
        let max_recent_changes = match config.get("max_recent_changes") {
            Some(value) => match value.as_u64() {
                Some(n) => n,
                None => MAX_RECENT_CHANGES,
            },
            None => MAX_RECENT_CHANGES,
        };
        WdRc { text_cache: TextCache::new(), logging, max_recent_changes }
    }

    /// Whether logging is switched on.
    pub fn logging(&self) -> (r: bool)
        ensures
            r == self@.logging,
    {
        self.logging
    }

    /// The most feed rows that a cycle asks for.
    pub fn max_recent_changes(&self) -> (r: u64)
        ensures
            r == self@.max_recent_changes,
    {
        self.max_recent_changes
    }

    /// The step that follows a step of the cycle.
    pub fn run_once(step: CycleStep, succeeded: bool) -> (r: CycleStep)
        ensures
            r == step_after(step, succeeded),
    {
        match step {
            CycleStep::RefreshSideStreams => CycleStep::PullChanges,
            CycleStep::PullChanges => if succeeded {
                CycleStep::StoreChanges
            } else {
                CycleStep::Failed
            },
            CycleStep::StoreChanges => if succeeded {
                CycleStep::StoreNewItems
            } else {
                CycleStep::Failed
            },
            CycleStep::StoreNewItems => if succeeded {
                CycleStep::Done
            } else {
                CycleStep::Failed
            },
            CycleStep::Done => CycleStep::Done,
            CycleStep::Failed => CycleStep::Failed,
        }
    }

    /// The work units of a batch of the feed, given its rows as far as they
    /// could be read: a row that could not be read is passed over.
    pub fn get_recent_changes(rows: Vec<Option<RecentChanges>>) -> (r: RecentChangesResults)
        ensures
            r@.new_items == new_items_of(rows@.filter_map(row_event())),
            r@.changed_items == changed_items_of(rows@.filter_map(row_event())),
    {
        let ghost all = rows@;
        let ghost rule = row_event();
        let mut results: Vec<RecentChanges> = Vec::new();
        proof {
            assert(events_view(results@) =~= all.take(0).filter_map(rule));
        }
        for row in it: rows
            invariant
                rule == row_event(),
                it.seq() == all,
                events_view(results@) == all.take(it.index() as int).filter_map(rule),
        {
            proof {
                all.lemma_filter_map_take_succ(rule, it.index() as int);
            }
            match row {
                Some(row) => {
                    proof {
                        assert(events_view(results@.push(row)) =~= events_view(results@).push(
                            row@,
                        ));
                    }
                    results.push(row);
                },
                None => {},
            }
        }
        proof {
            assert(all.take(all.len() as int) =~= all);
        }
        RecentChangesResults::new(&results)
    }

    /// Whether the table of texts has to be loaded before a text is
    /// looked up: it has while the cache has no entry.
    pub fn needs_texts(&self) -> (r: bool)
        ensures
            r == (self@.texts == Map::<Seq<char>, TextId>::empty()),
    {
        self.text_cache.is_empty()
    }

    /// Loads the table of texts into the cache where the cache has no
    /// entry yet; a cache with entries stays as it is.
    pub fn chache_texts_in_memory(&mut self, rows: &Vec<(String, TextId)>)
        ensures
            final(self)@ == (WdRcView {
                texts: if old(self)@.texts == Map::<Seq<char>, TextId>::empty() {
                    rows_map(rows@)
                } else {
                    old(self)@.texts
                },
                ..old(self)@
            }),
    {
        self.text_cache.warm(rows);
    }

    /// The identifier of a text that the cache has. `None` asks for a row
    /// to be written for the text; the identifier that the row was given is
    /// then handed to [`WdRc::text_id_created`].
    pub fn get_or_create_text_id(&self, text: &str) -> (r: Option<TextId>)
        ensures
            r == cached_id(self@.texts, text@),
    {
        self.text_cache.get(text)
    }

    /// Enters the identifier that a newly written text was given.
    pub fn text_id_created(&mut self, text: &str, id: TextId)
        ensures
            final(self)@ == (WdRcView { texts: old(self)@.texts.insert(text@, id), ..old(self)@ }),
    {
        self.text_cache.insert(text, id);
    }

    /// The rows to store for the new items of a batch: one for each new
    /// item with a valid identifier.
    pub fn log_new_items(rc: &RecentChangesResults) -> (rows: Vec<ItemRow>)
        ensures
            item_rows_view(rows@) == rc@.new_items.filter_map(creation_rule()),
    {
        let items = rc.new_items();
        let ghost views = new_items_view(items@);
        let ghost rule = creation_rule();
        let mut rows: Vec<ItemRow> = Vec::new();
        let mut i: usize = 0;
        proof {
            assert(item_rows_view(rows@) =~= views.take(0).filter_map(rule));
        }
        while i < items.len()
            invariant
                0 <= i <= items.len(),
                views == new_items_view(items@),
                rule == creation_rule(),
                item_rows_view(rows@) == views.take(i as int).filter_map(rule),
            decreases items.len() - i,
        {
            proof {
                views.lemma_filter_map_take_succ(rule, i as int);
            }
            match Self::make_id_numeric(items[i].q()) {
                Ok(q) => {
                    let row = ItemRow { q, timestamp: items[i].timestamp().to_owned() };
                    proof {
                        assert(item_rows_view(rows@.push(row)) =~= item_rows_view(rows@).push(
                            row@,
                        ));
                    }
                    rows.push(row);
                },
                Err(_) => {},
            }
            i += 1;
        }
        proof {
            assert(views.take(items.len() as int) =~= views);
        }
        rows
    }

    /// Parts the outcomes of the fetch-and-diff tasks: the changes of the
    /// tasks that succeeded, task after task, and the failures of the
    /// others, which add no change.
    pub fn collect_changes(outcomes: Vec<Result<Vec<Change>, SyncError>>) -> (ret: (
        Vec<Change>,
        Vec<SyncError>,
    ))
        ensures
            changes_view(ret.0@) == collected_changes(outcomes@),
            ret.1@ == outcomes@.filter_map(outcome_failure()),
    {
        let ghost all = outcomes@;
        let ghost rule = outcome_changes();
        let ghost failed = outcome_failure();
        let mut ret: Vec<Change> = Vec::new();
        let mut failures: Vec<SyncError> = Vec::new();
        proof {
            assert(all.take(0).map_values(rule) =~= Seq::<Seq<ChangeView>>::empty());
            assert(changes_view(ret@) =~= collected_changes(all.take(0)));
            assert(failures@ =~= all.take(0).filter_map(failed));
        }
        for outcome in it: outcomes
            invariant
                rule == outcome_changes(),
                failed == outcome_failure(),
                it.seq() == all,
                changes_view(ret@) == collected_changes(all.take(it.index() as int)),
                failures@ == all.take(it.index() as int).filter_map(failed),
        {
            let ghost n = it.index() as int;
            proof {
                assert(outcome == all[n]);
                let lists = all.take(n).map_values(rule);
                assert(all.take(n + 1).map_values(rule) =~= lists.push(rule(all[n])));
                lists.lemma_flatten_push(rule(all[n]));
                all.lemma_filter_map_take_succ(failed, n);
            }
            match outcome {
                Ok(changes) => {
                    let mut changes = changes;
                    proof {
                        lemma_changes_view_concat(ret@, changes@);
                    }
                    ret.append(&mut changes);
                },
                Err(e) => {
                    proof {
                        assert(changes_view(ret@) + Seq::<ChangeView>::empty() =~= changes_view(
                            ret@,
                        ));
                    }
                    failures.push(e);
                },
            }
        }
        proof {
            assert(all.take(all.len() as int) =~= all);
        }
        (ret, failures)
    }

    /// What to store after the fetches of a batch came back: the changes of
    /// the tasks that succeeded, with the failures of the others beside
    /// them, and the watermark to advance to, which is the latest timestamp
    /// of the changed items. Nothing is stored, and the watermark stays,
    /// where the batch has no changed item.
    pub fn log_recent_changes(
        rc: &RecentChangesResults,
        outcomes: Vec<Result<Vec<Change>, SyncError>>,
    ) -> (r: Option<ChangeBatch>)
        ensures
            r is None <==> rc@.changed_items.len() == 0,
            r matches Some(batch) ==> changes_view(batch.changes@) == collected_changes(outcomes@)
                && batch.failures@ == outcomes@.filter_map(outcome_failure()) && batch.watermark@
                == last_timestamp(rc@.changed_items, "20000101000000"@),
    {
        if rc.changed_items().len() == 0 {
            return None;
        }
        let (changes, failures) = Self::collect_changes(outcomes);
        let watermark = rc.get_last_rc_timetamp("20000101000000");
        Some(ChangeBatch { changes, failures, watermark })
    }

    /// What to store for a batch of the redirects feed that was asked for
    /// from the watermark `oldest` on: a row for each redirect whose source
    /// and target are valid identifiers, and the watermark to advance to.
    /// Nothing is stored, and the watermark stays, where no row is left.
    pub fn update_recent_redirects(oldest: &str, results: &Vec<RecentRedirects>) -> (r: Option<
        (Vec<RedirectRow>, String),
    >)
        ensures
            r is None <==> redirects_view(results@).filter_map(redirect_rule()).len() == 0,
            r matches Some(batch) ==> redirect_rows_view(batch.0@) == redirects_view(
                results@,
            ).filter_map(redirect_rule()) && batch.1@ == watermark_after(
                oldest@,
                redirect_stamps(redirect_rows_view(batch.0@)),
            ),
    {
        let ghost views = redirects_view(results@);
        let ghost rule = redirect_rule();
        let mut updates: Vec<RedirectRow> = Vec::new();
        let mut new_ts: String = oldest.to_owned();
        let mut i: usize = 0;
        proof {
            assert(redirect_rows_view(updates@) =~= views.take(0).filter_map(rule));
            assert(redirect_stamps(redirect_rows_view(updates@)) =~= Seq::<Seq<char>>::empty());
        }
        while i < results.len()
            invariant
                0 <= i <= results.len(),
                views == redirects_view(results@),
                rule == redirect_rule(),
                redirect_rows_view(updates@) == views.take(i as int).filter_map(rule),
                new_ts@ == watermark_after(oldest@, redirect_stamps(redirect_rows_view(updates@))),
            decreases results.len() - i,
        {
            proof {
                views.lemma_filter_map_take_succ(rule, i as int);
            }
            let result = &results[i];
            match Self::make_id_numeric(result.source()) {
                Ok(source) => match Self::make_id_numeric(result.target()) {
                    Ok(target) => {
                        let row = RedirectRow {
                            source,
                            target,
                            timestamp: result.timestamp().to_owned(),
                        };
                        proof {
                            let rows = redirect_rows_view(updates@);
                            assert(redirect_rows_view(updates@.push(row)) =~= rows.push(row@));
                            assert(redirect_stamps(rows.push(row@)) =~= redirect_stamps(rows).push(
                                row@.timestamp,
                            ));
                            assert(redirect_stamps(rows).push(row@.timestamp).drop_last()
                                =~= redirect_stamps(rows));
                        }
                        new_ts = later(new_ts, result.timestamp());
                        updates.push(row);
                    },
                    Err(_) => {},
                },
                Err(_) => {},
            }
            i += 1;
        }
        proof {
            assert(views.take(results.len() as int) =~= views);
        }
        if updates.len() == 0 {
            return None;
        }
        Some((updates, new_ts))
    }

    /// What to store for a batch of the deletions feed that was asked for
    /// from the watermark `oldest` on: a row for each deletion of a valid
    /// identifier, and the watermark to advance to. Nothing is stored, and
    /// the watermark stays, where no row is left.
    pub fn update_recent_deletions(oldest: &str, results: &Vec<RecentDeletions>) -> (r: Option<
        (Vec<ItemRow>, String),
    >)
        ensures
            r is None <==> deletions_view(results@).filter_map(deletion_rule()).len() == 0,
            r matches Some(batch) ==> item_rows_view(batch.0@) == deletions_view(
                results@,
            ).filter_map(deletion_rule()) && batch.1@ == watermark_after(
                oldest@,
                item_stamps(item_rows_view(batch.0@)),
            ),
    {
        let ghost views = deletions_view(results@);
        let ghost rule = deletion_rule();
        let mut updates: Vec<ItemRow> = Vec::new();
        let mut new_ts: String = oldest.to_owned();
        let mut i: usize = 0;
        proof {
            assert(item_rows_view(updates@) =~= views.take(0).filter_map(rule));
            assert(item_stamps(item_rows_view(updates@)) =~= Seq::<Seq<char>>::empty());
        }
        while i < results.len()
            invariant
                0 <= i <= results.len(),
                views == deletions_view(results@),
                rule == deletion_rule(),
                item_rows_view(updates@) == views.take(i as int).filter_map(rule),
                new_ts@ == watermark_after(oldest@, item_stamps(item_rows_view(updates@))),
            decreases results.len() - i,
        {
            proof {
                views.lemma_filter_map_take_succ(rule, i as int);
            }
            let result = &results[i];
            match Self::make_id_numeric(result.q()) {
                Ok(q) => {
                    let row = ItemRow { q, timestamp: result.timestamp().to_owned() };
                    proof {
                        let rows = item_rows_view(updates@);
                        assert(item_rows_view(updates@.push(row)) =~= rows.push(row@));
                        assert(item_stamps(rows.push(row@)) =~= item_stamps(rows).push(
                            row@.timestamp,
                        ));
                        assert(item_stamps(rows).push(row@.timestamp).drop_last() =~= item_stamps(
                            rows,
                        ));
                    }
                    new_ts = later(new_ts, result.timestamp());
                    updates.push(row);
                },
                Err(_) => {},
            }
            i += 1;
        }
        proof {
            assert(views.take(results.len() as int) =~= views);
        }
        if updates.len() == 0 {
            return None;
        }
        Some((updates, new_ts))
    }

    /// The rows to store for the changes to claims: one for each such
    /// change whose property is a valid identifier.
    pub fn log_statement_changes(changes: &Vec<Change>) -> (rows: Vec<StatementRow>)
        ensures
            statement_rows_view(rows@) == changes_view(changes@).filter_map(claim_row_rule()),
    {
        let ghost views = changes_view(changes@);
        let ghost rule = claim_row_rule();
        let mut rows: Vec<StatementRow> = Vec::new();
        let mut i: usize = 0;
        proof {
            assert(statement_rows_view(rows@) =~= views.take(0).filter_map(rule));
        }
        while i < changes.len()
            invariant
                0 <= i <= changes.len(),
                views == changes_view(changes@),
                rule == claim_row_rule(),
                statement_rows_view(rows@) == views.take(i as int).filter_map(rule),
            decreases changes.len() - i,
        {
            proof {
                views.lemma_filter_map_take_succ(rule, i as int);
            }
            match changes[i].subject {
                ChangeSubject::Claims => match changes[i].log_statement_change() {
                    Ok(row) => {
                        proof {
                            assert(statement_rows_view(rows@.push(row)) =~= statement_rows_view(
                                rows@,
                            ).push(row@));
                        }
                        rows.push(row);
                    },
                    Err(_) => {},
                },
                _ => {},
            }
            i += 1;
        }
        proof {
            assert(views.take(changes.len() as int) =~= views);
        }
        rows
    }

    /// The text that a change is stored under, where it is of the kind
    /// asked for.
    fn text_of<'a>(change: &'a Change, sitelinks: bool) -> (r: Option<&'a str>)
        ensures
            match r {
                Some(text) => interned_text(change@, sitelinks) == Some(text@),
                None => interned_text(change@, sitelinks) is None,
            },
    {
        match change.subject {
            ChangeSubject::Sitelinks => if sitelinks {
                Some(change.site.as_str())
            } else {
                None
            },
            ChangeSubject::Claims => None,
            _ => if sitelinks {
                None
            } else {
                Some(change.language.as_str())
            },
        }
    }

    /// The texts that have to be written before the rows of the changes
    /// can be made: the sites of the sitelink changes, or else the languages
    /// of the changes to labels, descriptions and aliases, that the cache
    /// lacks, each once.
    pub fn missing_texts(&self, changes: &Vec<Change>, sitelinks: bool) -> (texts: Vec<String>)
        ensures
            strings_view(texts@) == distinct(
                changes_view(changes@).filter_map(missing_text_rule(self@.texts, sitelinks)),
            ),
    {
        let ghost views = changes_view(changes@);
        let ghost rule = missing_text_rule(self@.texts, sitelinks);
        let mut texts: Vec<String> = Vec::new();
        let mut i: usize = 0;
        proof {
            assert(strings_view(texts@) =~= distinct(views.take(0).filter_map(rule)));
        }
        while i < changes.len()
            invariant
                0 <= i <= changes.len(),
                views == changes_view(changes@),
                rule == missing_text_rule(self@.texts, sitelinks),
                strings_view(texts@) == distinct(views.take(i as int).filter_map(rule)),
            decreases changes.len() - i,
        {
            proof {
                views.lemma_filter_map_take_succ(rule, i as int);
            }
            if let Some(text) = Self::text_of(&changes[i], sitelinks) {
                if self.text_cache.get(text).is_none() {
                    proof {
                        let found = views.take(i as int).filter_map(rule);
                        assert((found + seq![text@]).drop_last() =~= found);
                    }
                    if !contains_str(&texts, text) {
                        let owned = text.to_owned();
                        proof {
                            lemma_strings_view_push(texts@, owned);
                        }
                        texts.push(owned);
                    }
                }
            }
            i += 1;
        }
        proof {
            assert(views.take(changes.len() as int) =~= views);
        }
        texts
    }

    /// The rows of the changes of one kind whose text the cache has.
    fn label_rows(&self, changes: &Vec<Change>, sitelinks: bool) -> (rows: Vec<LabelRow>)
        ensures
            label_rows_view(rows@) == changes_view(changes@).filter_map(
                label_row_rule(self@.texts, sitelinks),
            ),
    {
        let ghost views = changes_view(changes@);
        let ghost rule = label_row_rule(self@.texts, sitelinks);
        let mut rows: Vec<LabelRow> = Vec::new();
        let mut i: usize = 0;
        proof {
            assert(label_rows_view(rows@) =~= views.take(0).filter_map(rule));
        }
        while i < changes.len()
            invariant
                0 <= i <= changes.len(),
                views == changes_view(changes@),
                rule == label_row_rule(self@.texts, sitelinks),
                label_rows_view(rows@) == views.take(i as int).filter_map(rule),
            decreases changes.len() - i,
        {
            proof {
                views.lemma_filter_map_take_succ(rule, i as int);
            }
            if let Some(text) = Self::text_of(&changes[i], sitelinks) {
                if let Some(text_id) = self.text_cache.get(text) {
                    let row = changes[i].log_label_change(text_id);
                    proof {
                        assert(label_rows_view(rows@.push(row)) =~= label_rows_view(rows@).push(
                            row@,
                        ));
                    }
                    rows.push(row);
                }
            }
            i += 1;
        }
        proof {
            assert(views.take(changes.len() as int) =~= views);
        }
        rows
    }

    /// The rows to store for the changes to sitelinks: one for each such
    /// change whose site has an identifier in the cache.
    pub fn log_sitelinks_changes(&self, changes: &Vec<Change>) -> (rows: Vec<LabelRow>)
        ensures
            label_rows_view(rows@) == changes_view(changes@).filter_map(
                label_row_rule(self@.texts, true),
            ),
    {
        self.label_rows(changes, true)
    }

    /// The rows to store for the changes to labels, descriptions and
    /// aliases: one for each such change whose language has an identifier
    /// in the cache.
    pub fn log_label_changes(&self, changes: &Vec<Change>) -> (rows: Vec<LabelRow>)
        ensures
            label_rows_view(rows@) == changes_view(changes@).filter_map(
                label_row_rule(self@.texts, false),
            ),
    {
        self.label_rows(changes, false)
    }
}

/// Interning is idempotent once the cache is warm: after a text was
/// entered with its identifier, asking for it gives that identifier and no
/// write; and a text that the cache has keeps its identifier whatever
/// other text is entered.
pub proof fn lemma_intern_twice(
    texts: Map<Seq<char>, TextId>,
    text: Seq<char>,
    id: TextId,
    other: Seq<char>,
    other_id: TextId,
)
    ensures
        cached_id(texts.insert(text, id), text) == Some(id),
        other != text ==> cached_id(texts.insert(text, id).insert(other, other_id), text) == Some(
            id,
        ),
        texts.contains_key(text) && other != text ==> cached_id(
            texts.insert(other, other_id),
            text,
        ) == cached_id(texts, text),
{
}

} // verus!
