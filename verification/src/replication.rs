use vstd::prelude::*;
use vstd::string::StringExecFns;

use crate::kvlist::lemma_del_get;
use crate::kvlist::lemma_key_index;
use crate::kvlist::lemma_put_get;
use crate::kvlist::spec_del;
use crate::kvlist::spec_get;
use crate::kvlist::spec_has_key;
use crate::kvlist::spec_put;
use crate::kvlist::spec_key_index;
use crate::kvlist::spec_unique_keys;
use crate::package_data::MinimalPackageData;
use crate::package_data::PackageModel;
use crate::package_data::RegistryDocument;
use crate::package_data::build_versions;
use crate::package_data::opt_kv;
use crate::store::RegistryStore;
use crate::store::StoreModel;
use crate::store::lemma_write_twice_is_once;

verus! {

/// One revision entry of a change-feed event.
pub struct Change {
    pub rev: String,
}

/// One package mutation from the change feed: the package name, whether it
/// was deleted, and the new document when one was included.
pub struct ChangeEvent {
    pub id: String,
    pub changes: Vec<Change>,
    pub deleted: bool,
    pub doc: Option<RegistryDocument>,
}

/// The feed's closing line of a long-poll response.
pub struct FinishedEvent {
    pub last_seq: i64,
    pub pending: Option<u64>,
}

/// One line of a change-feed page.
pub enum Event {
    Change(ChangeEvent),
    Finished(FinishedEvent),
}

/// One page of the change feed: its results and the cursor to resume from.
pub struct ChangesPage {
    pub results: Vec<Event>,
    pub last_seq: i64,
}

/// The record a change document becomes in the store.
pub open spec fn doc_model(doc: RegistryDocument, now: u64) -> PackageModel {
    PackageModel {
        name: doc.id@,
        dist_tags: opt_kv(doc.dist_tags),
        versions: build_versions(
            match doc.versions {
                Some(v) => v@,
                None => Seq::empty(),
            },
        ),
        last_updated: Some(now),
    }
}

/// How one change event rewrites the stored packages: a deletion removes the
/// name; a document replaces the whole record, or removes the name when the
/// document has no versions; an event without a document changes nothing.
pub open spec fn spec_apply_change(
    m: Seq<(Seq<char>, PackageModel)>,
    evt: ChangeEvent,
    now: u64,
) -> Seq<(Seq<char>, PackageModel)> {
    if evt.deleted {
        spec_del(m, evt.id@)
    } else {
        match evt.doc {
            Some(doc) => if doc_model(doc, now).versions.len() == 0 {
                spec_del(m, doc.id@)
            } else {
                spec_put(m, doc.id@, doc_model(doc, now))
            },
            None => m,
        }
    }
}

/// How a page's events rewrite the stored packages, in order.
pub open spec fn spec_apply_events(
    m: Seq<(Seq<char>, PackageModel)>,
    evts: Seq<Event>,
    now: u64,
) -> Seq<(Seq<char>, PackageModel)>
    decreases evts.len(),
{
    if evts.len() == 0 {
        m
    } else {
        let rest = spec_apply_events(m, evts.drop_last(), now);
        match evts.last() {
            Event::Change(evt) => spec_apply_change(rest, evt, now),
            Event::Finished(_) => rest,
        }
    }
}

/// The terminal state a page leaves: its events applied in order and the
/// cursor advanced to the page's final sequence number.
pub open spec fn spec_apply_page(s: StoreModel, page: ChangesPage, now: u64) -> StoreModel {
    StoreModel { packages: spec_apply_events(s.packages, page.results@, now), last_seq: page.last_seq }
}

/// Reflect one change event into the store.
pub fn apply_change(store: &mut RegistryStore, evt: ChangeEvent, now: u64)
    requires
        old(store).wf(),
    ensures
        final(store)@.packages == spec_apply_change(old(store)@.packages, evt, now),
        final(store)@.last_seq == old(store)@.last_seq,
        final(store).wf(),
{
    if evt.deleted {
        store.delete_package(evt.id.as_str());
    } else {
        match evt.doc {
            Some(doc) => {
                let pkg = MinimalPackageData::from_doc(doc, now);
                store.write_package(pkg);
            },
            None => {},
        }
    }
}

/// Reflect one page into the store: apply every change, then advance the
/// cursor to the page's final sequence number.
pub fn apply_page(store: &mut RegistryStore, page: ChangesPage, now: u64)
    requires
        old(store).wf(),
    ensures
        final(store)@ == spec_apply_page(old(store)@, page, now),
        final(store).wf(),
{
    let ghost m0 = store@.packages;
    let ghost evs: Seq<Event> = page.results@;
    let ChangesPage { results, last_seq } = page;
    let mut queue = results;
    let ghost mut done: int = 0;
    proof {
        assert(queue@ =~= evs.skip(0));
        assert(spec_apply_events(m0, evs.take(0), now) =~= m0);
    }
    while queue.len() > 0
        invariant
            store.wf(),
            0 <= done,
            done + queue@.len() == evs.len(),
            queue@ == evs.skip(done),
            store@.packages == spec_apply_events(m0, evs.take(done), now),
            store@.last_seq == old(store)@.last_seq,
            m0 == old(store)@.packages,
        decreases queue.len(),
    {
        let evt = queue.remove(0);
        proof {
            assert(evs.take(done + 1).drop_last() =~= evs.take(done));
            assert(evs.take(done + 1).last() == evs[done]);
        }
        match evt {
            Event::Change(change_event) => {
                apply_change(store, change_event, now);
            },
            Event::Finished(_) => {},
        }
        proof {
            done = done + 1;
            assert(queue@ =~= evs.skip(done));
        }
    }
    store.update_last_seq(last_seq);
    proof {
        assert(evs.take(evs.len() as int) =~= evs);
    }
}

/// Applying a page is a function of the starting store, the page and the
/// ingestion time alone: replaying the same page against the same snapshot
/// reaches the same terminal state.
pub proof fn lemma_replay_deterministic(
    s1: StoreModel,
    s2: StoreModel,
    page1: ChangesPage,
    page2: ChangesPage,
    now: u64,
)
    requires
        s1 == s2,
        page1 == page2,
    ensures
        spec_apply_page(s1, page1, now) == spec_apply_page(s2, page2, now),
{
}

/// Applying the same change event twice leaves the store it left after the
/// first application: re-ingesting a change is a no-op.
pub proof fn lemma_change_replay_idempotent(
    m: Seq<(Seq<char>, PackageModel)>,
    evt: ChangeEvent,
    now: u64,
)
    requires
        spec_unique_keys(m),
    ensures
        spec_unique_keys(spec_apply_change(m, evt, now)),
        spec_apply_change(spec_apply_change(m, evt, now), evt, now) == spec_apply_change(
            m,
            evt,
            now,
        ),
{
    if evt.deleted {
        lemma_del_get(m, evt.id@);
        let once = spec_del(m, evt.id@);
        lemma_key_index(once, evt.id@);
        assert(spec_del(once, evt.id@) == once);
    } else {
        match evt.doc {
            Some(doc) => {
                let model = doc_model(doc, now);
                if model.versions.len() == 0 {
                    lemma_del_get(m, doc.id@);
                    let once = spec_del(m, doc.id@);
                    lemma_key_index(once, doc.id@);
                    assert(spec_del(once, doc.id@) == once);
                } else {
                    lemma_put_get(m, doc.id@, model);
                    lemma_write_twice_is_once(m, doc.id@, model);
                }
            },
            None => {},
        }
    }
}

/// Whether the worker should pause before the next poll: a page with fewer
/// results than half the requested limit means the feed is caught up.
pub fn should_wait(limit: usize, last_result_count: usize) -> (r: bool)
    ensures
        r == (last_result_count < limit / 2),
{
    last_result_count < limit / 2
}

/// The package name a change event writes or removes; an event without a
/// document and without a deletion flag touches nothing.
pub open spec fn touched_key(evt: ChangeEvent) -> Option<Seq<char>> {
    if evt.deleted {
        Some(evt.id@)
    } else {
        match evt.doc {
            Some(doc) => Some(doc.id@),
            None => None,
        }
    }
}

/// Whether `m` already reflects the event: the deleted (or emptied) name is
/// absent, or the documented name reads as the document's record.
pub open spec fn event_settled(
    m: Seq<(Seq<char>, PackageModel)>,
    evt: ChangeEvent,
    now: u64,
) -> bool {
    if evt.deleted {
        !spec_has_key(m, evt.id@)
    } else {
        match evt.doc {
            Some(doc) => if doc_model(doc, now).versions.len() == 0 {
                !spec_has_key(m, doc.id@)
            } else {
                spec_get(m, doc.id@) == Some(doc_model(doc, now))
            },
            None => true,
        }
    }
}

/// Whether a whole page line is already reflected.
pub open spec fn line_settled(m: Seq<(Seq<char>, PackageModel)>, line: Event, now: u64) -> bool {
    match line {
        Event::Change(evt) => event_settled(m, evt, now),
        Event::Finished(_) => true,
    }
}

/// A change the store already reflects changes nothing.
pub proof fn lemma_settled_change_is_noop(
    m: Seq<(Seq<char>, PackageModel)>,
    evt: ChangeEvent,
    now: u64,
)
    requires
        spec_unique_keys(m),
        event_settled(m, evt, now),
    ensures
        spec_apply_change(m, evt, now) == m,
{
    if evt.deleted {
        lemma_key_index(m, evt.id@);
    } else {
        match evt.doc {
            Some(doc) => {
                let model = doc_model(doc, now);
                if model.versions.len() == 0 {
                    lemma_key_index(m, doc.id@);
                } else {
                    lemma_key_index(m, doc.id@);
                    let i = spec_key_index(m, doc.id@);
                    assert(m[i] == (doc.id@, model));
                    assert(spec_put(m, doc.id@, model) =~= m);
                }
            },
            None => {},
        }
    }
}

/// Applying a change settles it, and keeps keys unique.
pub proof fn lemma_change_settles_itself(
    m: Seq<(Seq<char>, PackageModel)>,
    evt: ChangeEvent,
    now: u64,
)
    requires
        spec_unique_keys(m),
    ensures
        spec_unique_keys(spec_apply_change(m, evt, now)),
        event_settled(spec_apply_change(m, evt, now), evt, now),
{
    if evt.deleted {
        lemma_del_get(m, evt.id@);
    } else {
        match evt.doc {
            Some(doc) => {
                let model = doc_model(doc, now);
                if model.versions.len() == 0 {
                    lemma_del_get(m, doc.id@);
                } else {
                    lemma_put_get(m, doc.id@, model);
                }
            },
            None => {},
        }
    }
}

/// A change to one package leaves another package's settledness alone.
pub proof fn lemma_change_frames_other(
    m: Seq<(Seq<char>, PackageModel)>,
    evt: ChangeEvent,
    other: ChangeEvent,
    now: u64,
)
    requires
        spec_unique_keys(m),
        event_settled(m, other, now),
        match (touched_key(evt), touched_key(other)) {
            (Some(a), Some(b)) => a != b,
            _ => true,
        },
    ensures
        event_settled(spec_apply_change(m, evt, now), other, now),
{
    let out = spec_apply_change(m, evt, now);
    match touched_key(evt) {
        None => {},
        Some(a) => {
            if evt.deleted {
                lemma_del_get(m, a);
            } else {
                match evt.doc {
                    Some(doc) => {
                        let model = doc_model(doc, now);
                        if model.versions.len() == 0 {
                            lemma_del_get(m, a);
                        } else {
                            lemma_put_get(m, a, model);
                        }
                    },
                    None => {},
                }
            }
            match touched_key(other) {
                None => {},
                Some(b) => {
                    lemma_key_index(m, b);
                    lemma_key_index(out, b);
                },
            }
        },
    }
}

/// No two change events of the page write or remove the same package.
pub open spec fn distinct_change_keys(evts: Seq<Event>) -> bool {
    forall|i: int, j: int|
        0 <= i < j < evts.len() ==> match (#[trigger] evts[i], #[trigger] evts[j]) {
            (Event::Change(a), Event::Change(b)) => match (touched_key(a), touched_key(b)) {
                (Some(ka), Some(kb)) => ka != kb,
                _ => true,
            },
            _ => true,
        }
}

/// After a page with distinct change keys is applied, every one of its
/// lines is settled, and keys stay unique.
pub proof fn lemma_page_settles_all(
    m: Seq<(Seq<char>, PackageModel)>,
    evts: Seq<Event>,
    now: u64,
)
    requires
        spec_unique_keys(m),
        distinct_change_keys(evts),
    ensures
        spec_unique_keys(spec_apply_events(m, evts, now)),
        forall|i: int| 0 <= i < evts.len() ==> line_settled(
            spec_apply_events(m, evts, now),
            #[trigger] evts[i],
            now,
        ),
    decreases evts.len(),
{
    if evts.len() == 0 {
    } else {
        let front = evts.drop_last();
        assert forall|i: int, j: int|
            0 <= i < j < front.len() implies match (#[trigger] front[i], #[trigger] front[j]) {
            (Event::Change(a), Event::Change(b)) => match (touched_key(a), touched_key(b)) {
                (Some(ka), Some(kb)) => ka != kb,
                _ => true,
            },
            _ => true,
        } by {
            assert(front[i] == evts[i]);
            assert(front[j] == evts[j]);
        }
        lemma_page_settles_all(m, front, now);
        let mid = spec_apply_events(m, front, now);
        let out = spec_apply_events(m, evts, now);
        match evts.last() {
            Event::Change(evt) => {
                lemma_change_settles_itself(mid, evt, now);
                assert forall|i: int| 0 <= i < evts.len() implies line_settled(
                    out,
                    #[trigger] evts[i],
                    now,
                ) by {
                    if i < evts.len() - 1 {
                        assert(front[i] == evts[i]);
                        match evts[i] {
                            Event::Change(other) => {
                                lemma_change_frames_other(mid, evt, other, now);
                            },
                            Event::Finished(_) => {},
                        }
                    }
                }
            },
            Event::Finished(_) => {
                assert forall|i: int| 0 <= i < evts.len() implies line_settled(
                    out,
                    #[trigger] evts[i],
                    now,
                ) by {
                    if i < evts.len() - 1 {
                        assert(front[i] == evts[i]);
                    }
                }
            },
        }
    }
}

/// Applying a page whose lines the store already reflects changes nothing.
pub proof fn lemma_settled_page_is_noop(
    m: Seq<(Seq<char>, PackageModel)>,
    evts: Seq<Event>,
    now: u64,
)
    requires
        spec_unique_keys(m),
        forall|i: int| 0 <= i < evts.len() ==> line_settled(m, #[trigger] evts[i], now),
    ensures
        spec_apply_events(m, evts, now) == m,
    decreases evts.len(),
{
    if evts.len() > 0 {
        let front = evts.drop_last();
        assert forall|i: int| 0 <= i < front.len() implies line_settled(
            m,
            #[trigger] front[i],
            now,
        ) by {
            assert(front[i] == evts[i]);
        }
        lemma_settled_page_is_noop(m, front, now);
        match evts.last() {
            Event::Change(evt) => {
                lemma_settled_change_is_noop(m, evt, now);
            },
            Event::Finished(_) => {},
        }
    }
}

/// Replaying a page leaves the terminal state it produced: for a page whose
/// change events touch distinct packages, applying it a second time is a
/// no-op.
pub proof fn lemma_page_replay_idempotent(s: StoreModel, page: ChangesPage, now: u64)
    requires
        spec_unique_keys(s.packages),
        distinct_change_keys(page.results@),
    ensures
        spec_apply_page(spec_apply_page(s, page, now), page, now) == spec_apply_page(
            s,
            page,
            now,
        ),
{
    let once = spec_apply_page(s, page, now);
    lemma_page_settles_all(s.packages, page.results@, now);
    lemma_settled_page_is_noop(once.packages, page.results@, now);
}

/// The query parameters of one long-poll request to the change feed: the
/// long-poll mode with documents included, the feed's maximum timeout, the
/// page limit, and the cursor to resume from.
pub fn change_feed_params(limit: u64, since: i64) -> (r: Vec<(String, String)>)
    ensures
        r@.len() == 5,
        r@[0].0@ == "feed"@ && r@[0].1@ == "longpoll"@,
        r@[1].0@ == "include_docs"@ && r@[1].1@ == "true"@,
        r@[2].0@ == "timeout"@ && r@[2].1@ == "60000"@,
        r@[3].0@ == "limit"@ && r@[3].1@ == crate::textutil::spec_dec(limit),
        r@[4].0@ == "since"@ && r@[4].1@ == crate::textutil::spec_dec_i64(since),
{
    let mut params: Vec<(String, String)> = Vec::new();
    params.push((String::from_str("feed"), String::from_str("longpoll")));
    params.push((String::from_str("include_docs"), String::from_str("true")));
    params.push((String::from_str("timeout"), String::from_str("60000")));
    params.push((String::from_str("limit"), crate::textutil::u64_to_dec(limit)));
    params.push((String::from_str("since"), crate::textutil::i64_to_dec(since)));
    params
}

} // verus!
