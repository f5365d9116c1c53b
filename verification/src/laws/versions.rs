//! Laws of versions, keys and caches: what changes a key, and what a cached entry
//! serves.

use crate::cli::commands::verification;
use crate::llm::tag_text;
use crate::model::alike::Alike;
use crate::model::derivation::composed_version;
use crate::model::derivation::ConversationDerivation;
use crate::model::derivation::DerivedOutputCache;
use crate::model::digest::hasher_input;
use crate::model::message::MessageEnvelopeView;
use crate::model::message_log::conversations_of;
use crate::model::seqs::lookup;
use crate::runtime::cache::Cache;
use crate::runtime::cache::CacheKey;
use crate::runtime::cache::Cached;
use crate::runtime::cache::CachedMemory;
use crate::runtime::frame::Triple;
use crate::runtime::step::Step;
use crate::worker::derived::cache_entry;
use crate::worker::derived::content_texts;
use crate::worker::derived::derivation_in;
use crate::worker::derived::populated;
use crate::worker::replay::ReplayStoresView;
use vstd::prelude::*;
use vstd::utf8::encode_utf8;
use vstd::utf8::encode_utf8_decode_utf8;

verus! {

/// The rest of a text behind a known start is the text's own.
pub proof fn lemma_suffix(start: Seq<char>, a: Seq<char>, b: Seq<char>)
    requires
        start + a == start + b,
    ensures
        a == b,
{
    let n = start.len() as int;
    assert(a =~= (start + a).subrange(n, (start + a).len() as int));
    assert(b =~= (start + b).subrange(n, (start + b).len() as int));
}

/// The start of a text before a known rest is the text's own.
proof fn lemma_prefix(a: Seq<char>, b: Seq<char>, rest: Seq<char>)
    requires
        a + rest == b + rest,
    ensures
        a == b,
{
    assert((a + rest).len() == (b + rest).len());
    assert(a =~= (a + rest).subrange(0, a.len() as int));
    assert(b =~= (b + rest).subrange(0, b.len() as int));
}

/// Another projector version gives another derivation version.
pub proof fn projector_changes_version(strategy: Seq<char>, a: Seq<char>, b: Seq<char>)
    requires
        composed_version(strategy, a) == composed_version(strategy, b),
    ensures
        a == b,
{
    lemma_suffix("1"@ + ":"@ + strategy + ":"@, a, b);
}

/// Another strategy gives another derivation version.
pub proof fn strategy_changes_version(a: Seq<char>, b: Seq<char>, projector: Seq<char>)
    requires
        composed_version(a, projector) == composed_version(b, projector),
    ensures
        a == b,
{
    let rest = ":"@ + projector;
    assert(composed_version(a, projector) =~= ("1"@ + ":"@ + a) + rest);
    assert(composed_version(b, projector) =~= ("1"@ + ":"@ + b) + rest);
    lemma_prefix("1"@ + ":"@ + a, "1"@ + ":"@ + b, rest);
    lemma_suffix("1"@ + ":"@, a, b);
}

/// Whether a text does without a character.
pub open spec fn lacks(s: Seq<char>, mark: char) -> bool {
    forall|i: int| 0 <= i < s.len() ==> #[trigger] s[i] != mark
}

/// What stands before and after the first mark is fixed by the whole.
pub proof fn lemma_before_mark(mark: char, a: Seq<char>, x: Seq<char>, b: Seq<char>, y: Seq<char>)
    requires
        lacks(a, mark),
        lacks(b, mark),
        a + seq![mark] + x == b + seq![mark] + y,
    ensures
        a == b,
        x == y,
{
    let left = a + seq![mark] + x;
    let right = b + seq![mark] + y;
    if a.len() < b.len() {
        assert(left[a.len() as int] == mark);
        assert(right[a.len() as int] == b[a.len() as int]);
    } else if b.len() < a.len() {
        assert(right[b.len() as int] == mark);
        assert(left[b.len() as int] == a[b.len() as int]);
    }
    let n = a.len() as int;
    assert(a =~= left.subrange(0, n));
    assert(b =~= right.subrange(0, n));
    assert(x =~= left.subrange(n + 1, left.len() as int));
    assert(y =~= right.subrange(n + 1, right.len() as int));
}

/// A derivation version tells its strategy and its projector apart, as long as
/// neither strategy id, followed by a colon, starts the other.
pub proof fn versions_do_not_collide(
    a: Seq<char>,
    p: Seq<char>,
    b: Seq<char>,
    q: Seq<char>,
)
    requires
        !(a + ":"@).is_prefix_of(b),
        !(b + ":"@).is_prefix_of(a),
        composed_version(a, p) == composed_version(b, q),
    ensures
        a == b,
        p == q,
{
    reveal_strlit(":");
    let start = "1"@ + ":"@;
    let left = a + ":"@ + p;
    let right = b + ":"@ + q;
    assert(composed_version(a, p) =~= start + left);
    assert(composed_version(b, q) =~= start + right);
    lemma_suffix(start, left, right);
    if a.len() < b.len() {
        let m = a.len() as int + 1;
        assert(a + ":"@ =~= left.subrange(0, m));
        assert(b.subrange(0, m) =~= right.subrange(0, m));
    } else if b.len() < a.len() {
        let m = b.len() as int + 1;
        assert(b + ":"@ =~= right.subrange(0, m));
        assert(a.subrange(0, m) =~= left.subrange(0, m));
    }
    let n = a.len() as int;
    assert(a =~= left.subrange(0, n));
    assert(b =~= right.subrange(0, n));
    assert(p =~= left.subrange(n + 1, left.len() as int));
    assert(q =~= right.subrange(n + 1, right.len() as int));
}

/// A change of the provider, the model or the prompt version alone changes the
/// projection tag.
pub proof fn each_part_changes_the_tag(
    provider: Seq<char>,
    model: Seq<char>,
    prompt: Seq<char>,
    other: Seq<char>,
)
    ensures
        other != provider ==> tag_text(other, model, prompt) != tag_text(provider, model, prompt),
        other != model ==> tag_text(provider, other, prompt) != tag_text(provider, model, prompt),
        other != prompt ==> tag_text(provider, model, other) != tag_text(provider, model, prompt),
{
    let tag = tag_text(provider, model, prompt);
    if tag_text(other, model, prompt) == tag {
        let rest = ":"@ + model + ":"@ + prompt;
        assert(tag_text(other, model, prompt) =~= other + rest);
        assert(tag =~= provider + rest);
        lemma_prefix(other, provider, rest);
    }
    if tag_text(provider, other, prompt) == tag {
        let rest = ":"@ + prompt;
        let start = provider + ":"@;
        assert(tag_text(provider, other, prompt) =~= start + other + rest);
        assert(tag =~= start + model + rest);
        lemma_prefix(start + other, start + model, rest);
        lemma_suffix(start, other, model);
    }
    if tag_text(provider, model, other) == tag {
        lemma_suffix(provider + ":"@ + model + ":"@, other, prompt);
    }
}

/// Entries of different kinds, versions or keys are apart: writing one leaves
/// every other as it was.
pub proof fn entries_do_not_alias<V>(entries: Map<Triple, V>, written: Triple, value: V, read: Triple)
    ensures
        lookup(entries.insert(written, value), written) == Some(value),
        read != written ==> lookup(entries.insert(written, value), read) == lookup(entries, read),
{
}

/// A memoized step runs its inner step at most once per entry: once an output is
/// kept, a run on an input with the same key gives a copy of it and remembers
/// nothing new.
pub proof fn the_inner_step_runs_once<S, C>(
    before: &Cached<S, C>,
    first: &S::In,
    between: &Cached<S, C>,
    out: &S::Out,
    second: &S::In,
    after: CachedMemory<S::Memory, S::Out>,
    again: &S::Out,
) where S: Step, S::In: CacheKey, S::Out: Clone, C: Cache<S::Out>
    requires
        before.runs(first, between.memory(), out),
        first.cache_key_spec() == second.cache_key_spec(),
        between.runs(second, after, again),
    ensures
        after == between.memory(),
        exists|kept: S::Out| #[trigger] cloned(kept, *again) && (cloned(*out, kept) || cloned(
            kept,
            *out,
        )),
{
    let entry = before.entry_of(first);
    assert(between.entry_of(second) == entry);
    if before.cache.entries().contains_key(entry) {
        let kept = before.cache.entries()[entry];
        assert(cloned(kept, *out));
        assert(cloned(kept, *again));
    } else {
        let kept = choose|kept: S::Out|
            cloned(*out, kept) && between.memory().entries
                == #[trigger] before.cache.entries().insert(entry, kept);
        assert(cloned(kept, *again));
    }
}

/// Conversations whose messages differ in an id or a body are not hashed from the
/// same texts.
pub proof fn an_edit_changes_the_texts(
    a: Seq<MessageEnvelopeView>,
    b: Seq<MessageEnvelopeView>,
)
    requires
        content_texts(a) == content_texts(b),
    ensures
        a.len() == b.len(),
        forall|i: int|
            0 <= i < a.len() ==> (#[trigger] a[i]).id == b[i].id && a[i].body == b[i].body,
    decreases a.len(),
{
    lemma_texts_len(a);
    lemma_texts_len(b);
    if a.len() > 0 {
        let x = a.drop_last();
        let y = b.drop_last();
        let left = content_texts(a);
        let n = left.len() as int;
        assert(content_texts(x) =~= left.take(n - 2));
        assert(content_texts(y) =~= content_texts(b).take(n - 2));
        an_edit_changes_the_texts(x, y);
        assert(left[n - 2] == a.last().id && left[n - 1] == a.last().body);
        assert(content_texts(b)[n - 2] == b.last().id && content_texts(b)[n - 1] == b.last().body);
        assert forall|i: int| 0 <= i < a.len() implies (#[trigger] a[i]).id == b[i].id && a[i].body
            == b[i].body by {
            if i < x.len() {
                assert(x[i] == a[i] && y[i] == b[i]);
            }
        }
    }
}

/// Different texts are not fed to the hasher alike.
pub proof fn the_hasher_tells_texts_apart(a: Seq<Seq<char>>, b: Seq<Seq<char>>)
    requires
        hasher_input(a) == hasher_input(b),
    ensures
        a == b,
    decreases a.len(),
{
    lemma_input_len(a);
    lemma_input_len(b);
    if a.len() > 0 {
        let x = a.drop_last();
        let y = b.drop_last();
        let left = hasher_input(a);
        let n = left.len() as int;
        assert(hasher_input(x) =~= left.take(n - 2));
        assert(hasher_input(y) =~= hasher_input(b).take(n - 2));
        the_hasher_tells_texts_apart(x, y);
        assert(left[n - 2] == encode_utf8(a.last()));
        assert(hasher_input(b)[n - 2] == encode_utf8(b.last()));
        encode_utf8_decode_utf8(a.last());
        encode_utf8_decode_utf8(b.last());
        assert(a =~= x.push(a.last()));
        assert(b =~= y.push(b.last()));
    } else {
        assert(a =~= b);
    }
}

proof fn lemma_input_len(a: Seq<Seq<char>>)
    ensures
        hasher_input(a).len() == 2 * a.len(),
    decreases a.len(),
{
    if a.len() > 0 {
        lemma_input_len(a.drop_last());
    }
}

proof fn lemma_texts_len(a: Seq<MessageEnvelopeView>)
    ensures
        content_texts(a).len() == 2 * a.len(),
    decreases a.len(),
{
    if a.len() > 0 {
        lemma_texts_len(a.drop_last());
    }
}

/// What a run caches is served: under the version and the content it was derived
/// from, a conversation's entry holds its derivation.
pub proof fn a_run_is_served_from_the_cache<C: DerivedOutputCache>(
    before: C,
    after: C,
    log: Seq<MessageEnvelopeView>,
    stores: ReplayStoresView,
    version: Seq<char>,
    conversation: Seq<char>,
)
    requires
        populated(before, after, log, stores, version, conversations_of(log)),
        conversations_of(log).contains(conversation),
        derivation_in(log, stores, conversation) is Some,
    ensures
        lookup(after.entries(), cache_entry(log, version, conversation)) == derivation_in(
            log,
            stores,
            conversation,
        ),
{
}

/// A cached derivation that deriving anew gives again is verified.
pub proof fn an_unchanged_derivation_is_verified<C: DerivedOutputCache>(
    before: C,
    after: C,
    log: Seq<MessageEnvelopeView>,
    stores: ReplayStoresView,
    version: Seq<char>,
    conversation: Seq<char>,
)
    requires
        populated(before, after, log, stores, version, conversations_of(log)),
        conversations_of(log).contains(conversation),
        derivation_in(log, stores, conversation) is Some,
        ConversationDerivation::alike(
            derivation_in(log, stores, conversation)->Some_0,
            derivation_in(log, stores, conversation)->Some_0,
        ),
    ensures
        verification(
            after.entries(),
            log,
            version,
            derivation_in(log, stores, conversation)->Some_0,
        ).outcome == "verified"@,
{
}

} // verus!
