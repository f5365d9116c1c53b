//! The GitHub source port, a fixture, and repository ingestion.

use super::model::item_message;
use super::model::to_message;
use super::model::GitHubItem;
use super::model::GitHubItemView;
use super::model::Repo;
use super::model::RepoView;
use crate::model::message::MessageEnvelopeView;
use crate::model::message::MessageId;
use crate::model::message_log::appended;
use crate::model::message_log::MessageStore;
use crate::model::seqs::views;
use vstd::prelude::*;

verus! {

/// Fetches the items of a repository.
pub trait GitHubSource {
    /// Whether a fetch may give `items`.
    open spec fn fetches(&self, repo: RepoView, items: Seq<GitHubItemView>) -> bool {
        true
    }

    /// Fetches the items.
    fn fetch(&self, repo: &Repo) -> (r: Vec<GitHubItem>)
        ensures
            self.fetches(repo@, views(r@)),
    ;
}

/// A [`GitHubSource`] backed by canned items.
#[derive(Debug)]
pub struct FixtureGitHubSource {
    items: Vec<GitHubItem>,
}

impl View for FixtureGitHubSource {
    type V = Seq<GitHubItemView>;

    closed spec fn view(&self) -> Seq<GitHubItemView> {
        views(self.items@)
    }
}

impl FixtureGitHubSource {
    /// Creates a source from canned items.
    pub fn new(items: Vec<GitHubItem>) -> (r: Self)
        ensures
            r@ == views(items@),
    {
        FixtureGitHubSource { items }
    }
}

impl GitHubSource for FixtureGitHubSource {
    open spec fn fetches(&self, repo: RepoView, items: Seq<GitHubItemView>) -> bool {
        items == self@
    }

    fn fetch(&self, repo: &Repo) -> (r: Vec<GitHubItem>) {
        let r = self.items.clone();
        assert(views(r@) =~= views(self.items@));
        r
    }
}

/// The messages of the items, in order.
pub open spec fn item_messages(items: Seq<GitHubItemView>) -> Seq<MessageEnvelopeView> {
    items.map_values(|i: GitHubItemView| item_message(i))
}

/// The log after appending the messages in order.
pub open spec fn appended_all(
    log: Seq<MessageEnvelopeView>,
    messages: Seq<MessageEnvelopeView>,
) -> Seq<MessageEnvelopeView>
    decreases messages.len(),
{
    if messages.len() == 0 {
        log
    } else {
        appended(appended_all(log, messages.drop_last()), messages.last())
    }
}

/// Maps fetched items to messages and appends them, returning their ids in order.
pub fn ingest_items<M: MessageStore>(items: &[GitHubItem], store: &mut M) -> (r: Vec<MessageId>)
    ensures
        final(store).log() == appended_all(old(store).log(), item_messages(views(items@))),
        views(r@) == item_messages(views(items@)).map_values(|m: MessageEnvelopeView| m.id),
{
    let ghost all = item_messages(views(items@));
    let ghost start = store.log();
    let mut ids: Vec<MessageId> = Vec::new();
    let mut i: usize = 0;
    while i < items.len()
        invariant
            i <= items@.len(),
            all == item_messages(views(items@)),
            ids@.len() == i,
            forall|j: int| 0 <= j < i ==> (#[trigger] ids@[j])@ == all[j].id,
            store.log() == appended_all(start, all.take(i as int)),
        decreases items@.len() - i,
    {
        let message = to_message(&items[i]);
        proof {
            assert(views(items@)[i as int] == items@[i as int]@);
            assert(all[i as int] == message@);
            assert(all.take(i + 1).drop_last() =~= all.take(i as int));
            assert(all.take(i + 1).last() == message@);
        }
        ids.push(message.id.clone());
        store.append(message);
        i = i + 1;
    }
    proof {
        assert(all.take(i as int) =~= all);
        assert(views(ids@) =~= all.map_values(|m: MessageEnvelopeView| m.id));
    }
    ids
}

/// Fetches a repository's items and ingests them.
pub fn ingest_repo<G: GitHubSource, M: MessageStore>(source: &G, repo: &Repo, store: &mut M) -> (r:
    Vec<MessageId>)
    ensures
        exists|items: Seq<GitHubItemView>| #[trigger]
            source.fetches(repo@, items) && final(store).log() == appended_all(
                old(store).log(),
                item_messages(items),
            ) && views(r@) == item_messages(items).map_values(|m: MessageEnvelopeView| m.id),
{
    let items = source.fetch(repo);
    assert(source.fetches(repo@, views(items@)));
    ingest_items(items.as_slice(), store)
}

} // verus!
