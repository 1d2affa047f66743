//! The diff of two revision documents of one item.

use crate::change::{
    changes_view, lemma_changes_view_concat, lemma_changes_view_push, Change, ChangeSubject,
    ChangeType, ChangeView,
};
use crate::diff_rules::{
    alias_changes, alias_changes_in_language, alias_text, aliases_in, claim_changes, claim_id,
    claim_record, claims_of, claims_under, find_claim, keyed_changes, keyed_record, keys_of,
    language_alias_rule, lemma_find_claim_found, lemma_find_claim_none, member_claims,
    missing_alias_rule, new_claim_rule, new_entry_rule, old_claim_rule, old_entry_rule,
    revision_changes, text_key, DiffContext, PropertyClaim,
};
use crate::json::{
    find_member, items_view, json_array, json_object, json_text_value, lemma_array_view,
    lemma_lookup_has_key, members_view, Json, JsonView,
};
use crate::response::{
    context_after, document_of, extracted_revisions, page_revisions, revision_entry, revision_rule,
    revisions_of_pages, revisions_url, run_outcome, wanted_slot,
};
use crate::text::{
    contains_str, distinct, lemma_strings_view_push, push_decimal, same_strings, str_eq,
    strings_view,
};
use crate::wdrc::{SyncError, WdRc};
use crate::{ItemId, RevisionId};
use vstd::prelude::*;
use vstd::string::StringExecFns;

verus! {

/// Compares two revisions of an item.
pub struct RevisionCompare {
    item_id: ItemId,
    revision_id: RevisionId,
    timestamp: String,
}

impl View for RevisionCompare {
    type V = DiffContext;

    closed spec fn view(&self) -> DiffContext {
        DiffContext {
            item_id: self.item_id,
            revision_id: self.revision_id,
            timestamp: self.timestamp@,
        }
    }
}

/// The values of a list of claims held by reference.
pub open spec fn claim_refs_view(claims: Seq<(&str, &Json)>) -> Seq<PropertyClaim> {
    Seq::new(claims.len(), |i: int| (claims[i].0@, claims[i].1@))
}

/// All claims of a claims section, each with its property.
fn collect_claims<'a>(section: &'a [(String, Json)]) -> (out: Vec<(&'a str, &'a Json)>)
    ensures
        claim_refs_view(out@) == claims_of(members_view(section@)),
{
    let ghost ms = members_view(section@);
    let mut out: Vec<(&'a str, &'a Json)> = Vec::new();
    let mut i: usize = 0;
    proof {
        assert(ms.take(0).map_values(member_claims()) =~= Seq::<Seq<PropertyClaim>>::empty());
        assert(claim_refs_view(out@) =~= claims_of(ms.take(0)));
    }
    while i < section.len()
        invariant
            0 <= i <= section.len(),
            ms == members_view(section@),
            claim_refs_view(out@) == claims_of(ms.take(i as int)),
        decreases section.len() - i,
    {
        let property = section[i].0.as_str();
        let ghost before = claim_refs_view(out@);
        proof {
            let lists = ms.take(i as int).map_values(member_claims());
            assert(ms.take(i + 1).map_values(member_claims()) =~= lists.push(
                member_claims()(ms[i as int]),
            ));
            lists.lemma_flatten_push(member_claims()(ms[i as int]));
        }
        match &section[i].1 {
            Json::Array(items) => {
                proof {
                    lemma_array_view(*items);
                }
                let ghost its = items_view(items@);
                let mut k: usize = 0;
                proof {
                    assert(claim_refs_view(out@) =~= before + claims_under(
                        property@,
                        its.take(0),
                    ));
                }
                while k < items.len()
                    invariant
                        0 <= k <= items.len(),
                        its == items_view(items@),
                        claim_refs_view(out@) == before + claims_under(
                            property@,
                            its.take(k as int),
                        ),
                    decreases items.len() - k,
                {
                    proof {
                        let under = claims_under(property@, its.take(k as int));
                        let entry = (property@, its[k as int]);
                        assert(its.take(k + 1) =~= its.take(k as int).push(its[k as int]));
                        assert(claims_under(property@, its.take(k + 1)) =~= under.push(entry));
                        assert(claim_refs_view(out@.push((property, &items[k as int])))
                            =~= claim_refs_view(out@).push(entry));
                        assert(before + under.push(entry) =~= (before + under).push(entry));
                    }
                    out.push((property, &items[k]));
                    k += 1;
                }
                proof {
                    assert(its.take(items.len() as int) =~= its);
                }
            },
            _ => {
                proof {
                    assert(claim_refs_view(out@) =~= before + claims_under(
                        property@,
                        ms[i as int].1.items(),
                    ));
                }
            },
        }
        i += 1;
    }
    proof {
        assert(ms.take(section.len() as int) =~= ms);
    }
    out
}

/// The first of the collected claims with the given identifier.
fn find_collected<'a>(claims: &Vec<(&'a str, &'a Json)>, id: &str) -> (r: Option<&'a Json>)
    ensures
        match r {
            Some(claim) => find_claim(claim_refs_view(claims@), id@) == Some(claim@),
            None => find_claim(claim_refs_view(claims@), id@) is None,
        },
{
    let ghost cs = claim_refs_view(claims@);
    let mut i: usize = 0;
    while i < claims.len()
        invariant
            0 <= i <= claims.len(),
            cs == claim_refs_view(claims@),
            forall|j: int| 0 <= j < i ==> claim_id((#[trigger] cs[j]).1) != Some(id@),
        decreases claims.len() - i,
    {
        let claim: &'a Json = claims[i].1;
        if let Some(found) = claim.text_field("id") {
            if str_eq(found, id) {
                proof {
                    lemma_find_claim_found(cs, id@, i as int);
                }
                return Some(claim);
            }
        }
        i += 1;
    }
    proof {
        lemma_find_claim_none(cs, id@);
    }
    None
}

/// The values of a list of documents.
pub open spec fn documents_view(documents: Seq<(RevisionId, Json)>) -> Seq<
    (RevisionId, JsonView),
> {
    Seq::new(documents.len(), |i: int| (documents[i].0, documents[i].1@))
}

/// The value of the result of a run.
pub open spec fn outcome_view(outcome: Result<Vec<Change>, SyncError>) -> Result<
    Seq<ChangeView>,
    SyncError,
> {
    match outcome {
        Ok(changes) => Ok(changes_view(changes@)),
        Err(e) => Err(e),
    }
}

/// The place of the last document with the given number.
fn find_document(documents: &Vec<(RevisionId, Json)>, id: RevisionId) -> (r: Option<usize>)
    ensures
        match r {
            Some(i) => i < documents.len() && document_of(documents_view(documents@), id) == Some(
                documents@[i as int].1@,
            ),
            None => document_of(documents_view(documents@), id) is None,
        },
{
    let ghost views = documents_view(documents@);
    let mut i: usize = documents.len();
    proof {
        assert(views.take(i as int) =~= views);
    }
    while i > 0
        invariant
            0 <= i <= documents.len(),
            views == documents_view(documents@),
            document_of(views, id) == document_of(views.take(i as int), id),
        decreases i,
    {
        i -= 1;
        proof {
            assert(views.take(i + 1).drop_last() =~= views.take(i as int));
            assert(views.take(i + 1).last() == views[i as int]);
        }
        if documents[i].0 == id {
            return Some(i);
        }
    }
    None
}

impl RevisionCompare {
    /// A comparison that no item has been set for yet.
    pub fn new() -> (r: RevisionCompare)
        ensures
            r@ == (DiffContext { item_id: 0, revision_id: 0, timestamp: Seq::empty() }),
    {
        RevisionCompare { item_id: 0, revision_id: 0, timestamp: String::new() }
    }

    /// The record of a change to the text kept under `key`.
    fn keyed_change(
        &self,
        subject: ChangeSubject,
        sitelink: bool,
        change_type: ChangeType,
        key: &str,
        text: &str,
    ) -> (r: Change)
        ensures
            r@ == keyed_record(self@, subject, sitelink, change_type, key@, text@),
    {
        if sitelink {
            Change {
                subject,
                change_type,
                language: String::new(),
                text: String::new(),
                site: key.to_owned(),
                title: text.to_owned(),
                property: String::new(),
                id: String::new(),
                item_id: self.item_id,
                revision_id: self.revision_id,
                timestamp: self.timestamp.clone(),
            }
        } else {
            Change {
                subject,
                change_type,
                language: key.to_owned(),
                text: text.to_owned(),
                site: String::new(),
                title: String::new(),
                property: String::new(),
                id: String::new(),
                item_id: self.item_id,
                revision_id: self.revision_id,
                timestamp: self.timestamp.clone(),
            }
        }
    }

    /// The changes between two sections that keep one text per key.
    fn compare_keyed(
        &self,
        old: &[(String, Json)],
        new: &[(String, Json)],
        subject: ChangeSubject,
        sitelink: bool,
    ) -> (ret: Vec<Change>)
        ensures
            changes_view(ret@) == keyed_changes(
                self@,
                subject,
                sitelink,
                members_view(old@),
                members_view(new@),
            ),
    {
        let field = if sitelink {
            "title"
        } else {
            "value"
        };
        let ghost mo = members_view(old@);
        let ghost mn = members_view(new@);
        let ghost old_rule = old_entry_rule(self@, subject, sitelink, mn);
        let ghost new_rule = new_entry_rule(self@, subject, sitelink, mo);
        let mut ret: Vec<Change> = Vec::new();
        let mut i: usize = 0;
        proof {
            assert(changes_view(ret@) =~= mo.take(0).filter_map(old_rule));
        }
        while i < old.len()
            invariant
                0 <= i <= old.len(),
                mo == members_view(old@),
                mn == members_view(new@),
                field@ == text_key(sitelink),
                old_rule == old_entry_rule(self@, subject, sitelink, mn),
                changes_view(ret@) == mo.take(i as int).filter_map(old_rule),
            decreases old.len() - i,
        {
            proof {
                mo.lemma_filter_map_take_succ(old_rule, i as int);
            }
            let key = old[i].0.as_str();
            if let Some(text) = old[i].1.text_field(field) {
                match find_member(new, key) {
                    Some(other) => {
                        if let Some(new_text) = other.text_field(field) {
                            if !str_eq(text, new_text) {
                                let change = self.keyed_change(
                                    subject,
                                    sitelink,
                                    ChangeType::Changed,
                                    key,
                                    new_text,
                                );
                                proof {
                                    lemma_changes_view_push(ret@, change);
                                }
                                ret.push(change);
                            }
                        }
                    },
                    None => {
                        let change = self.keyed_change(
                            subject,
                            sitelink,
                            ChangeType::Removed,
                            key,
                            text,
                        );
                        proof {
                            lemma_changes_view_push(ret@, change);
                        }
                        ret.push(change);
                    },
                }
            }
            i += 1;
        }
        let ghost from_old = changes_view(ret@);
        let mut k: usize = 0;
        proof {
            assert(mo.take(old.len() as int) =~= mo);
            assert(changes_view(ret@) =~= from_old + mn.take(0).filter_map(new_rule));
        }
        while k < new.len()
            invariant
                0 <= k <= new.len(),
                mo == members_view(old@),
                mn == members_view(new@),
                field@ == text_key(sitelink),
                new_rule == new_entry_rule(self@, subject, sitelink, mo),
                changes_view(ret@) == from_old + mn.take(k as int).filter_map(new_rule),
            decreases new.len() - k,
        {
            proof {
                mn.lemma_filter_map_take_succ(new_rule, k as int);
                lemma_lookup_has_key(mo, mn[k as int].0);
            }
            let key = new[k].0.as_str();
            if find_member(old, key).is_none() {
                if let Some(text) = new[k].1.text_field(field) {
                    let change = self.keyed_change(
                        subject,
                        sitelink,
                        ChangeType::Added,
                        key,
                        text,
                    );
                    proof {
                        lemma_changes_view_push(ret@, change);
                        assert(changes_view(ret@).push(change@) =~= from_old + (mn.take(
                            k as int,
                        ).filter_map(new_rule) + seq![change@]));
                    }
                    ret.push(change);
                }
            }
            k += 1;
        }
        proof {
            assert(mn.take(new.len() as int) =~= mn);
        }
        ret
    }

    /// The changes between the sections of the two revisions that `key`
    /// names, read as one text per language.
    pub fn compare_labels_descriptions(
        &self,
        rev_old: &Json,
        rev_new: &Json,
        key: ChangeSubject,
    ) -> (ret: Vec<Change>)
        ensures
            changes_view(ret@) == keyed_changes(
                self@,
                key,
                false,
                rev_old@.object_field(key.name()),
                rev_new@.object_field(key.name()),
            ),
    {
        let old = json_object(rev_old, key.as_str());
        let new = json_object(rev_new, key.as_str());
        self.compare_keyed(old, new, key, false)
    }

    /// The changes between the labels of the two revisions.
    pub fn compare_labels(&self, rev_old: &Json, rev_new: &Json) -> (ret: Vec<Change>)
        ensures
            changes_view(ret@) == keyed_changes(
                self@,
                ChangeSubject::Labels,
                false,
                rev_old@.object_field("labels"@),
                rev_new@.object_field("labels"@),
            ),
    {
        self.compare_labels_descriptions(rev_old, rev_new, ChangeSubject::Labels)
    }

    /// The changes between the descriptions of the two revisions.
    pub fn compare_descriptions(&self, rev_old: &Json, rev_new: &Json) -> (ret: Vec<Change>)
        ensures
            changes_view(ret@) == keyed_changes(
                self@,
                ChangeSubject::Descriptions,
                false,
                rev_old@.object_field("descriptions"@),
                rev_new@.object_field("descriptions"@),
            ),
    {
        self.compare_labels_descriptions(rev_old, rev_new, ChangeSubject::Descriptions)
    }

    /// The changes between the sitelinks of the two revisions, by site.
    pub fn compare_sitelinks(&self, rev_old: &Json, rev_new: &Json) -> (ret: Vec<Change>)
        ensures
            changes_view(ret@) == keyed_changes(
                self@,
                ChangeSubject::Sitelinks,
                true,
                rev_old@.object_field("sitelinks"@),
                rev_new@.object_field("sitelinks"@),
            ),
    {
        let old = json_object(rev_old, "sitelinks");
        let new = json_object(rev_new, "sitelinks");
        self.compare_keyed(old, new, ChangeSubject::Sitelinks, true)
    }

    /// The record of a change to a claim of a property.
    fn claim_change(&self, change_type: ChangeType, property: &str, id: &str) -> (r: Change)
        ensures
            r@ == claim_record(self@, change_type, property@, id@),
    {
        Change {
            subject: ChangeSubject::Claims,
            change_type,
            language: String::new(),
            text: String::new(),
            site: String::new(),
            title: String::new(),
            property: property.to_owned(),
            id: id.to_owned(),
            item_id: self.item_id,
            revision_id: self.revision_id,
            timestamp: self.timestamp.clone(),
        }
    }

    /// The first claim of a claims section with the given identifier,
    /// whatever its property.
    pub fn get_claim_by_id<'a>(claim_id: &str, claims: &'a [(String, Json)]) -> (r: Option<
        &'a Json,
    >)
        ensures
            match r {
                Some(claim) => find_claim(claims_of(members_view(claims@)), claim_id@) == Some(
                    claim@,
                ),
                None => find_claim(claims_of(members_view(claims@)), claim_id@) is None,
            },
    {
        let all = collect_claims(claims);
        find_collected(&all, claim_id)
    }

    /// The changes between the claims of the two revisions, matched by the
    /// claims' identifiers.
    pub fn compare_statements(&self, rev_old: &Json, rev_new: &Json) -> (ret: Vec<Change>)
        ensures
            changes_view(ret@) == claim_changes(
                self@,
                rev_old@.object_field("claims"@),
                rev_new@.object_field("claims"@),
            ),
    {
        let old_claims = collect_claims(json_object(rev_old, "claims"));
        let new_claims = collect_claims(json_object(rev_new, "claims"));
        let ghost co = claim_refs_view(old_claims@);
        let ghost cn = claim_refs_view(new_claims@);
        let ghost old_rule = old_claim_rule(self@, cn);
        let ghost new_rule = new_claim_rule(self@, co);
        let mut ret: Vec<Change> = Vec::new();
        let mut i: usize = 0;
        proof {
            assert(changes_view(ret@) =~= co.take(0).filter_map(old_rule));
        }
        while i < old_claims.len()
            invariant
                0 <= i <= old_claims.len(),
                co == claim_refs_view(old_claims@),
                cn == claim_refs_view(new_claims@),
                old_rule == old_claim_rule(self@, cn),
                changes_view(ret@) == co.take(i as int).filter_map(old_rule),
            decreases old_claims.len() - i,
        {
            proof {
                co.lemma_filter_map_take_succ(old_rule, i as int);
            }
            let property = old_claims[i].0;
            let claim = old_claims[i].1;
            if let Some(id) = claim.text_field("id") {
                match find_collected(&new_claims, id) {
                    None => {
                        let change = self.claim_change(ChangeType::Removed, property, id);
                        proof {
                            lemma_changes_view_push(ret@, change);
                        }
                        ret.push(change);
                    },
                    Some(other) => {
                        if !claim.deep_eq(other) {
                            let change = self.claim_change(ChangeType::Changed, property, id);
                            proof {
                                lemma_changes_view_push(ret@, change);
                            }
                            ret.push(change);
                        }
                    },
                }
            }
            i += 1;
        }
        let ghost from_old = changes_view(ret@);
        let mut k: usize = 0;
        proof {
            assert(co.take(old_claims.len() as int) =~= co);
            assert(changes_view(ret@) =~= from_old + cn.take(0).filter_map(new_rule));
        }
        while k < new_claims.len()
            invariant
                0 <= k <= new_claims.len(),
                co == claim_refs_view(old_claims@),
                cn == claim_refs_view(new_claims@),
                new_rule == new_claim_rule(self@, co),
                changes_view(ret@) == from_old + cn.take(k as int).filter_map(new_rule),
            decreases new_claims.len() - k,
        {
            proof {
                cn.lemma_filter_map_take_succ(new_rule, k as int);
            }
            let property = new_claims[k].0;
            let claim = new_claims[k].1;
            if let Some(id) = claim.text_field("id") {
                if find_collected(&old_claims, id).is_none() {
                    let change = self.claim_change(ChangeType::Added, property, id);
                    proof {
                        lemma_changes_view_push(ret@, change);
                        assert(changes_view(ret@).push(change@) =~= from_old + (cn.take(
                            k as int,
                        ).filter_map(new_rule) + seq![change@]));
                    }
                    ret.push(change);
                }
            }
            k += 1;
        }
        proof {
            assert(cn.take(new_claims.len() as int) =~= cn);
        }
        ret
    }

    /// The aliases of a language in an aliases section.
    pub fn extract_aliases_from_map(aliases: &[(String, Json)], language: &str) -> (out: Vec<
        String,
    >)
        ensures
            strings_view(out@) == aliases_in(members_view(aliases@), language@),
    {
        let mut out: Vec<String> = Vec::new();
        match find_member(aliases, language) {
            Some(list) => match list {
                Json::Array(items) => {
                    proof {
                        lemma_array_view(*items);
                    }
                    let ghost its = items_view(items@);
                    let mut i: usize = 0;
                    proof {
                        assert(strings_view(out@) =~= its.take(0).filter_map(alias_text()));
                    }
                    while i < items.len()
                        invariant
                            0 <= i <= items.len(),
                            its == items_view(items@),
                            strings_view(out@) == its.take(i as int).filter_map(alias_text()),
                        decreases items.len() - i,
                    {
                        proof {
                            its.lemma_filter_map_take_succ(alias_text(), i as int);
                        }
                        if let Some(text) = items[i].text_field("value") {
                            let alias = text.to_owned();
                            proof {
                                lemma_strings_view_push(out@, alias);
                            }
                            out.push(alias);
                        }
                        i += 1;
                    }
                    proof {
                        assert(its.take(items.len() as int) =~= its);
                    }
                },
                _ => {
                    proof {
                        assert(strings_view(out@) =~= Seq::<Seq<char>>::empty());
                        assert(Seq::<JsonView>::empty().filter_map(alias_text())
                            =~= Seq::<Seq<char>>::empty());
                    }
                },
            },
            None => {
                proof {
                    assert(strings_view(out@) =~= Seq::<Seq<char>>::empty());
                }
            },
        }
        out
    }

    /// The changes between the aliases of one language.
    pub fn compare_aliases_in_language(
        &self,
        language: &str,
        old_aliases: &Vec<String>,
        new_aliases: &Vec<String>,
    ) -> (ret: Vec<Change>)
        ensures
            changes_view(ret@) == alias_changes_in_language(
                self@,
                language@,
                strings_view(old_aliases@),
                strings_view(new_aliases@),
            ),
    {
        let mut ret: Vec<Change> = Vec::new();
        let ghost so = strings_view(old_aliases@);
        let ghost sn = strings_view(new_aliases@);
        if same_strings(old_aliases, new_aliases) {
            proof {
                assert(changes_view(ret@) =~= Seq::<ChangeView>::empty());
            }
            return ret;
        }
        let ghost removed = missing_alias_rule(self@, ChangeType::Removed, language@, sn);
        let ghost added = missing_alias_rule(self@, ChangeType::Added, language@, so);
        let mut i: usize = 0;
        proof {
            assert(changes_view(ret@) =~= so.take(0).filter_map(removed));
        }
        while i < old_aliases.len()
            invariant
                0 <= i <= old_aliases.len(),
                so == strings_view(old_aliases@),
                sn == strings_view(new_aliases@),
                removed == missing_alias_rule(self@, ChangeType::Removed, language@, sn),
                changes_view(ret@) == so.take(i as int).filter_map(removed),
            decreases old_aliases.len() - i,
        {
            proof {
                so.lemma_filter_map_take_succ(removed, i as int);
            }
            let alias = old_aliases[i].as_str();
            if !contains_str(new_aliases, alias) {
                let change = self.keyed_change(
                    ChangeSubject::Aliases,
                    false,
                    ChangeType::Removed,
                    language,
                    alias,
                );
                proof {
                    lemma_changes_view_push(ret@, change);
                }
                ret.push(change);
            }
            i += 1;
        }
        let ghost from_old = changes_view(ret@);
        let mut k: usize = 0;
        proof {
            assert(so.take(old_aliases.len() as int) =~= so);
            assert(changes_view(ret@) =~= from_old + sn.take(0).filter_map(added));
        }
        while k < new_aliases.len()
            invariant
                0 <= k <= new_aliases.len(),
                so == strings_view(old_aliases@),
                sn == strings_view(new_aliases@),
                added == missing_alias_rule(self@, ChangeType::Added, language@, so),
                changes_view(ret@) == from_old + sn.take(k as int).filter_map(added),
            decreases new_aliases.len() - k,
        {
            proof {
                sn.lemma_filter_map_take_succ(added, k as int);
            }
            let alias = new_aliases[k].as_str();
            if !contains_str(old_aliases, alias) {
                let change = self.keyed_change(
                    ChangeSubject::Aliases,
                    false,
                    ChangeType::Added,
                    language,
                    alias,
                );
                proof {
                    lemma_changes_view_push(ret@, change);
                    assert(changes_view(ret@).push(change@) =~= from_old + (sn.take(
                        k as int,
                    ).filter_map(added) + seq![change@]));
                }
                ret.push(change);
            }
            k += 1;
        }
        proof {
            assert(sn.take(new_aliases.len() as int) =~= sn);
        }
        ret
    }

    /// The changes between the aliases of the two revisions.
    pub fn compare_aliases(&self, rev_old: &Json, rev_new: &Json) -> (ret: Vec<Change>)
        ensures
            changes_view(ret@) == alias_changes(
                self@,
                rev_old@.object_field("aliases"@),
                rev_new@.object_field("aliases"@),
            ),
    {
        let old = json_object(rev_old, "aliases");
        let new = json_object(rev_new, "aliases");
        let ghost mo = members_view(old@);
        let ghost mn = members_view(new@);
        let ghost ko = keys_of(mo);
        let ghost kn = keys_of(mn);
        let mut all_languages: Vec<String> = Vec::new();
        let mut i: usize = 0;
        proof {
            assert(strings_view(all_languages@) =~= distinct(ko.take(0)));
        }
        while i < old.len()
            invariant
                0 <= i <= old.len(),
                mo == members_view(old@),
                ko == keys_of(mo),
                strings_view(all_languages@) == distinct(ko.take(i as int)),
            decreases old.len() - i,
        {
            proof {
                assert(ko.take(i + 1).drop_last() =~= ko.take(i as int));
            }
            if !contains_str(&all_languages, old[i].0.as_str()) {
                let language = old[i].0.clone();
                proof {
                    lemma_strings_view_push(all_languages@, language);
                }
                all_languages.push(language);
            }
            i += 1;
        }
        let mut k: usize = 0;
        proof {
            assert(ko.take(old.len() as int) =~= ko);
            assert(ko + kn.take(0) =~= ko);
        }
        while k < new.len()
            invariant
                0 <= k <= new.len(),
                mn == members_view(new@),
                kn == keys_of(mn),
                strings_view(all_languages@) == distinct(ko + kn.take(k as int)),
            decreases new.len() - k,
        {
            proof {
                assert((ko + kn.take(k + 1)).drop_last() =~= ko + kn.take(k as int));
            }
            if !contains_str(&all_languages, new[k].0.as_str()) {
                let language = new[k].0.clone();
                proof {
                    lemma_strings_view_push(all_languages@, language);
                }
                all_languages.push(language);
            }
            k += 1;
        }
        proof {
            assert(kn.take(new.len() as int) =~= kn);
        }
        let ghost languages = strings_view(all_languages@);
        let ghost rule = language_alias_rule(self@, mo, mn);
        let mut ret: Vec<Change> = Vec::new();
        let mut n: usize = 0;
        proof {
            assert(languages.take(0).map_values(rule) =~= Seq::<Seq<ChangeView>>::empty());
            assert(changes_view(ret@) =~= languages.take(0).map_values(rule).flatten());
        }
        while n < all_languages.len()
            invariant
                0 <= n <= all_languages.len(),
                mo == members_view(old@),
                mn == members_view(new@),
                languages == strings_view(all_languages@),
                rule == language_alias_rule(self@, mo, mn),
                changes_view(ret@) == languages.take(n as int).map_values(rule).flatten(),
            decreases all_languages.len() - n,
        {
            let language = all_languages[n].as_str();
            let old_aliases = Self::extract_aliases_from_map(old, language);
            let new_aliases = Self::extract_aliases_from_map(new, language);
            let mut changes = self.compare_aliases_in_language(
                language,
                &old_aliases,
                &new_aliases,
            );
            proof {
                let lists = languages.take(n as int).map_values(rule);
                assert(languages.take(n + 1).map_values(rule) =~= lists.push(
                    rule(languages[n as int]),
                ));
                lists.lemma_flatten_push(rule(languages[n as int]));
                lemma_changes_view_concat(ret@, changes@);
            }
            ret.append(&mut changes);
            n += 1;
        }
        proof {
            assert(languages.take(all_languages.len() as int) =~= languages);
        }
        ret
    }

    /// All changes between two revisions: labels, descriptions, aliases,
    /// claims and sitelinks, in this order.
    pub fn compare_revisions(&self, rev_old: &Json, rev_new: &Json) -> (ret: Vec<Change>)
        ensures
            changes_view(ret@) == revision_changes(self@, rev_old@, rev_new@),
    {
        let mut ret: Vec<Change> = Vec::new();
        let mut labels = self.compare_labels(rev_old, rev_new);
        let mut descriptions = self.compare_descriptions(rev_old, rev_new);
        let mut aliases = self.compare_aliases(rev_old, rev_new);
        let mut claims = self.compare_statements(rev_old, rev_new);
        let mut sitelinks = self.compare_sitelinks(rev_old, rev_new);
        proof {
            lemma_changes_view_concat(ret@, labels@);
            lemma_changes_view_concat(ret@ + labels@, descriptions@);
            lemma_changes_view_concat(ret@ + labels@ + descriptions@, aliases@);
            lemma_changes_view_concat(ret@ + labels@ + descriptions@ + aliases@, claims@);
            lemma_changes_view_concat(
                ret@ + labels@ + descriptions@ + aliases@ + claims@,
                sitelinks@,
            );
            assert(changes_view(ret@) =~= Seq::<ChangeView>::empty());
            assert(changes_view(ret@) + changes_view(labels@) =~= changes_view(labels@));
        }
        ret.append(&mut labels);
        ret.append(&mut descriptions);
        ret.append(&mut aliases);
        ret.append(&mut claims);
        ret.append(&mut sitelinks);
        ret
    }

    /// The address that the two revisions of an item are asked for at.
    pub fn get_revisions_url(q: &str, rev_id_old: RevisionId, rev_id_new: RevisionId) -> (url:
        String)
        ensures
            url@ == revisions_url(q@, rev_id_old, rev_id_new),
    {
        let mut url =
            "https://www.wikidata.org/w/api.php?action=query&prop=revisions&titles=".to_owned();
        url.append(q);
        url.append("&rvprop=ids|content&rvstartid=");
        push_decimal(&mut url, rev_id_new);
        url.append("&rvendid=");
        push_decimal(&mut url, rev_id_old);
        url.append("&rvslots=main&format=json");
        url
    }

    /// The number and the content of a listed revision, where its number
    /// is one of the two asked for and it has a content.
    pub fn revision_slot<'a>(
        rev_id_old: RevisionId,
        rev_id_new: RevisionId,
        revision: &'a Json,
    ) -> (r: Option<(RevisionId, &'a str)>)
        ensures
            match r {
                Some(slot) => wanted_slot(rev_id_old, rev_id_new, revision@) == Some(
                    (slot.0, slot.1@),
                ),
                None => wanted_slot(rev_id_old, rev_id_new, revision@) is None,
            },
    {
        let rev_id = match revision.get("revid") {
            Some(id) => match id.as_u64() {
                Some(n) => n,
                None => {
                    return None;
                },
            },
            None => {
                return None;
            },
        };
        if rev_id != rev_id_old && rev_id != rev_id_new {
            return None;
        }
        match revision.get("slots") {
            Some(slots) => match slots.get("main") {
                Some(main) => match main.text_field("*") {
                    Some(text) => Some((rev_id, text)),
                    None => None,
                },
                None => None,
            },
            None => None,
        }
    }

    /// What a listed revision adds to the documents.
    fn extract_revision(rev_id_old: RevisionId, rev_id_new: RevisionId, revision: &Json) -> (r:
        Option<(RevisionId, Json)>)
        ensures
            match r {
                Some(entry) => revision_entry(rev_id_old, rev_id_new, revision@) == Some(
                    (entry.0, entry.1@),
                ),
                None => revision_entry(rev_id_old, rev_id_new, revision@) is None,
            },
    {
        match Self::revision_slot(rev_id_old, rev_id_new, revision) {
            Some(slot) => match Json::parse(slot.1) {
                Some(document) => Some((slot.0, document)),
                None => None,
            },
            None => None,
        }
    }

    /// The documents of the two revisions asked for that a response holds.
    pub fn extract_revisions(rev_id_old: RevisionId, rev_id_new: RevisionId, j: &Json) -> (ret:
        Vec<(RevisionId, Json)>)
        ensures
            documents_view(ret@) == extracted_revisions(rev_id_old, rev_id_new, j@),
    {
        let mut ret: Vec<(RevisionId, Json)> = Vec::new();
        let ghost rule = revision_rule(rev_id_old, rev_id_new);
        let query = match j.get("query") {
            Some(query) => query,
            None => {
                proof {
                    assert(documents_view(ret@) =~= Seq::<JsonView>::empty().filter_map(rule));
                }
                return ret;
            },
        };
        let pages = json_object(query, "pages");
        let ghost ps = members_view(pages@);
        let mut p: usize = 0;
        proof {
            assert(ps.take(0).map_values(page_revisions()) =~= Seq::<Seq<JsonView>>::empty());
            assert(documents_view(ret@) =~= revisions_of_pages(ps.take(0)).filter_map(rule));
        }
        while p < pages.len()
            invariant
                0 <= p <= pages.len(),
                ps == members_view(pages@),
                rule == revision_rule(rev_id_old, rev_id_new),
                documents_view(ret@) == revisions_of_pages(ps.take(p as int)).filter_map(rule),
            decreases pages.len() - p,
        {
            let revisions = json_array(&pages[p].1, "revisions");
            let ghost before = revisions_of_pages(ps.take(p as int));
            let ghost rs = items_view(revisions@);
            proof {
                let lists = ps.take(p as int).map_values(page_revisions());
                assert(ps.take(p + 1).map_values(page_revisions()) =~= lists.push(
                    page_revisions()(ps[p as int]),
                ));
                lists.lemma_flatten_push(page_revisions()(ps[p as int]));
                assert(before + rs.take(0) =~= before);
            }
            let mut k: usize = 0;
            while k < revisions.len()
                invariant
                    0 <= k <= revisions.len(),
                    rs == items_view(revisions@),
                    rule == revision_rule(rev_id_old, rev_id_new),
                    documents_view(ret@) == (before + rs.take(k as int)).filter_map(rule),
                decreases revisions.len() - k,
            {
                proof {
                    assert((before + rs.take(k + 1)).drop_last() =~= before + rs.take(k as int));
                    assert((before + rs.take(k + 1)).last() == rs[k as int]);
                }
                if let Some(entry) = Self::extract_revision(
                    rev_id_old,
                    rev_id_new,
                    &revisions[k],
                ) {
                    proof {
                        assert(documents_view(ret@.push(entry)) =~= documents_view(ret@) + seq![
                            (entry.0, entry.1@),
                        ]);
                    }
                    ret.push(entry);
                }
                k += 1;
            }
            proof {
                assert(rs.take(revisions.len() as int) =~= rs);
            }
            p += 1;
        }
        proof {
            assert(ps.take(pages.len() as int) =~= ps);
        }
        ret
    }

    /// Compares the two revisions of an item that a response holds. The
    /// comparison is set to the item, the newer revision and the time of the
    /// event; then the documents of the two revisions are taken from the
    /// response and compared. `InvalidIdentifier` where the item's identifier
    /// is not valid; `RevisionFetch` where the response lacks one of the two
    /// revisions.
    pub fn compare_response(
        &mut self,
        q: &str,
        rev_id_old: RevisionId,
        rev_id_new: RevisionId,
        timestamp: &str,
        response: &Json,
    ) -> (r: Result<Vec<Change>, SyncError>)
        ensures
            outcome_view(r) == run_outcome(q@, rev_id_old, rev_id_new, timestamp@, Some(response@)),
            final(self)@ == context_after(old(self)@, q@, rev_id_new, timestamp@),
    {
        match WdRc::make_id_numeric(q) {
            Ok(item_id) => {
                self.item_id = item_id;
            },
            Err(e) => {
                return Err(e);
            },
        }
        self.revision_id = rev_id_new;
        self.timestamp = timestamp.to_owned();
        let revisions = Self::extract_revisions(rev_id_old, rev_id_new, response);
        let rev_old = match find_document(&revisions, rev_id_old) {
            Some(i) => &revisions[i].1,
            None => {
                return Err(SyncError::RevisionFetch);
            },
        };
        let rev_new = match find_document(&revisions, rev_id_new) {
            Some(i) => &revisions[i].1,
            None => {
                return Err(SyncError::RevisionFetch);
            },
        };
        Ok(self.compare_revisions(rev_old, rev_new))
    }

    /// Compares the two revisions of an item, given the body of the
    /// response to the request for them. As [`RevisionCompare::compare_response`],
    /// with `RevisionFetch` also where the body is no JSON.
    pub fn run(
        &mut self,
        q: &str,
        rev_id_old: RevisionId,
        rev_id_new: RevisionId,
        timestamp: &str,
        body: &str,
    ) -> (r: Result<Vec<Change>, SyncError>)
        ensures
            outcome_view(r) == run_outcome(
                q@,
                rev_id_old,
                rev_id_new,
                timestamp@,
                json_text_value(body@),
            ),
            final(self)@ == context_after(old(self)@, q@, rev_id_new, timestamp@),
    {
        match Json::parse(body) {
            Some(response) => self.compare_response(
                q,
                rev_id_old,
                rev_id_new,
                timestamp,
                &response,
            ),
            None => match WdRc::make_id_numeric(q) {
                Ok(item_id) => {
                    self.item_id = item_id;
                    self.revision_id = rev_id_new;
                    self.timestamp = timestamp.to_owned();
                    Err(SyncError::RevisionFetch)
                },
                Err(e) => Err(e),
            },
        }
    }
}

} // verus!
