//! Laws of reading: what is made of a message, an answer, a projection or an item.

use super::decisions::the_first_rule_wins;
use super::lists::lemma_found;
use super::lists::occurring_in;
use super::versions::lemma_suffix;
use crate::double::ordinal;
use crate::double::two_decimals;
use crate::double::Double;
use crate::double::ONE_BITS;
use crate::github::consumer::projection_draft;
use crate::github::consumer::DraftKind;
use crate::github::model::item_message;
use crate::github::model::GitHubItemKind;
use crate::github::model::GitHubItemView;
use crate::github::model::RepoView;
use crate::github::rest::after_last_slash;
use crate::github::rest::issue_number;
use crate::github::rest::repo_items;
use crate::github::rest::CommentRecordView;
use crate::github::rest::IssueRecordView;
use crate::llm::answer_projection;
use crate::llm::prompt_text;
use crate::llm::PROMPT_TEMPLATE;
use crate::llm::ProjectionAnswer;
use crate::model::message::Source;
use crate::model::projection::Intent;
use crate::model::projection::ProjectionView;
use crate::model::projector::Router;
use crate::model::routing::ConsumerKind;
use crate::provider::mock::entity_keywords;
use crate::provider::mock::keyword_projection;
use crate::provider::mock::topic_keywords;
use crate::provider::routing::intent_name;
use crate::provider::routing::target_name;
use crate::provider::routing::RuleRouter;
use crate::text::decimal;
use crate::text::digit;
use crate::text::digit_of;
use crate::text::digits_number;
use crate::text::joined;
use crate::text::occurs;
use crate::text::parsed;
use crate::text::precedes;
use vstd::prelude::*;

verus! {

/// A text holds a pattern exactly if it is something before it, the pattern, and
/// something behind it.
pub proof fn a_pattern_stands_anywhere(
    s: Seq<char>,
    front: Seq<char>,
    pattern: Seq<char>,
    back: Seq<char>,
)
    ensures
        occurs(front + pattern + back, pattern),
        occurs(s, pattern) ==> exists|a: Seq<char>, b: Seq<char>| s == #[trigger] (a + pattern + b),
{
    let whole = front + pattern + back;
    let n = front.len() as int;
    assert(whole.subrange(n, n + pattern.len()) =~= pattern);
    if occurs(s, pattern) {
        let i = choose|i: int|
            0 <= i <= s.len() - pattern.len() && #[trigger] s.subrange(i, i + pattern.len())
                == pattern;
        let a = s.take(i);
        let b = s.skip(i + pattern.len());
        assert(s =~= a + pattern + b);
    }
}

/// Texts are ordered by the first character in which they differ, and a text comes
/// before what only adds to it.
pub proof fn texts_are_ordered_by_their_first_difference(
    common: Seq<char>,
    x: char,
    a: Seq<char>,
    y: char,
    b: Seq<char>,
)
    requires
        x != y,
    ensures
        precedes(common + seq![x] + a, common + seq![y] + b) <==> x < y,
        precedes(common, common + seq![x] + a),
        !precedes(common + seq![x] + a, common),
        !precedes(common, common),
    decreases common.len(),
{
    let left = common + seq![x] + a;
    let right = common + seq![y] + b;
    if common.len() > 0 {
        let rest = common.drop_first();
        texts_are_ordered_by_their_first_difference(rest, x, a, y, b);
        assert(left.drop_first() =~= rest + seq![x] + a);
        assert(right.drop_first() =~= rest + seq![y] + b);
    }
}

/// The mock projector answers about the message it is asked about, with the known
/// topics and entities that its body holds, in their order, and half a point of
/// confidence plus a tenth for each.
pub proof fn the_mock_finds_what_a_body_holds(id: Seq<char>, body: Seq<char>)
    ensures
        ({
            let p = keyword_projection(id, body);
            &&& p.message_id == id
            &&& p.topics == seq![
                "rust"@,
                "backend"@,
                "sdk"@,
                "infra"@,
                "ai"@,
                "auth"@,
                "oauth"@,
                "ci"@,
            ].filter(occurring_in(body))
            &&& p.entities == seq![
                "postgres"@,
                "sqlite"@,
                "refresh-token"@,
                "authservice"@,
                "opentelemetry"@,
            ].filter(occurring_in(body))
            &&& p.confidence == (Double { bits: 0x3FE0_0000_0000_0000 }).sum_spec(
                (Double { bits: 0x3FB9_9999_9999_999A }).scaled_spec(
                    (p.topics.len() + p.entities.len()) as nat,
                ),
            ).clamp_unit_spec()
        }),
{
    lemma_found(topic_keywords(), body);
    lemma_found(entity_keywords(), body);
}

/// Whether a body holds one of three words.
pub open spec fn says(body: Seq<char>, a: Seq<char>, b: Seq<char>, c: Seq<char>) -> bool {
    occurs(body, a) || occurs(body, b) || occurs(body, c)
}

/// The mock projector's intent goes by the words of the body: a question mark before
/// a proposal, a decision, an issue and a task, in this order; without any of them
/// the message is social.
pub proof fn the_mock_tells_intents_by_words(id: Seq<char>, body: Seq<char>)
    ensures
        ({
            let intent = keyword_projection(id, body).intent;
            let asks = occurs(body, "?"@);
            let proposes = says(body, "propose"@, "proposal"@, "suggest"@);
            let decides = says(body, "decided"@, "let's"@, "we will"@);
            let reports = says(body, "bug"@, "error"@, "broken"@);
            let plans = says(body, "todo"@, "task"@, "need to"@);
            &&& intent == Intent::Question <==> asks
            &&& intent == Intent::Proposal <==> !asks && proposes
            &&& intent == Intent::Decision <==> !asks && !proposes && decides
            &&& intent == Intent::Issue <==> !asks && !proposes && !decides && reports
            &&& intent == Intent::Task <==> !asks && !proposes && !decides && !reports && plans
            &&& intent == Intent::Social <==> !asks && !proposes && !decides && !reports && !plans
        }),
{
}

/// A model's answer is taken as it is, but for the message it is about, which is never
/// the model's to say, and for the confidence, which is brought into range.
pub proof fn an_answer_is_taken_as_it_is(answer: ProjectionAnswer, id: Seq<char>)
    ensures
        ({
            let p = answer_projection(answer, id);
            &&& p.message_id == id
            &&& p.intent == answer.intent
            &&& p.topics.len() == answer.topics@.len()
            &&& forall|i: int|
                0 <= i < p.topics.len() ==> #[trigger] p.topics[i] == answer.topics@[i]@
            &&& p.entities.len() == answer.entities@.len()
            &&& forall|i: int|
                0 <= i < p.entities.len() ==> #[trigger] p.entities[i] == answer.entities@[i]@
            &&& p.confidence.in_unit()
            &&& answer.confidence.in_unit() ==> p.confidence == answer.confidence
            &&& !answer.confidence.is_nan_spec() && ordinal(answer.confidence.bits) > ordinal(
                p.confidence.bits,
            ) ==> p.confidence.bits == ONE_BITS
            &&& !answer.confidence.is_nan_spec() && ordinal(answer.confidence.bits) < ordinal(
                p.confidence.bits,
            ) ==> p.confidence.bits == 0
        }),
{
}

/// A prompt is the same for every message up to the body, which ends it.
pub proof fn a_prompt_ends_with_the_body(a: Seq<char>, b: Seq<char>)
    ensures
        prompt_text(a) == PROMPT_TEMPLATE@ + a,
        prompt_text(a) == prompt_text(b) ==> a == b,
{
    if prompt_text(a) == prompt_text(b) {
        lemma_suffix(PROMPT_TEMPLATE@, a, b);
    }
}

/// A route goes by the threshold first and by the first rule for the intent next, says
/// so in its reason, and its trace shows both checks as far as they were made.
pub proof fn a_route_shows_how_it_was_decided(router: &RuleRouter, p: ProjectionView, first: int)
    requires
        0 <= first <= router@.rules.len(),
        forall|j: int| 0 <= j < first ==> (#[trigger] router@.rules[j]).intent != p.intent,
        first < router@.rules.len() ==> router@.rules[first].intent == p.intent,
    ensures
        ({
            let (decision, trace) = router.route_spec(p);
            let threshold = router@.escalation_threshold;
            let low = !p.confidence.is_nan_spec() && !threshold.is_nan_spec() && ordinal(
                p.confidence.bits,
            ) < ordinal(threshold.bits);
            let ruled = if first < router@.rules.len() {
                router@.rules[first].target
            } else {
                router@.default_target
            };
            &&& decision.message_id == p.message_id
            &&& trace.message_id == p.message_id
            &&& decision.escalated == low
            &&& trace.steps.len() == if low {
                1
            } else {
                2int
            }
            &&& trace.steps[0].rule_name == "confidence_threshold"@
            &&& trace.steps[0].matched == low
            &&& low ==> {
                &&& decision.target == ConsumerKind::Human
                &&& trace.steps[0].resulting_target == Some(ConsumerKind::Human)
                &&& decision.reason == "confidence "@ + two_decimals(p.confidence) + " below "@
                    + two_decimals(threshold) + " threshold; escalated to human"@
            }
            &&& !low ==> {
                &&& decision.target == ruled
                &&& trace.steps[0].resulting_target is None
                &&& trace.steps[1].rule_name == "intent_routing"@
                &&& trace.steps[1].matched
                &&& trace.steps[1].resulting_target == Some(ruled)
                &&& decision.reason == "intent="@ + intent_name(p.intent) + " routed to "@
                    + target_name(ruled)
            }
        }),
{
    the_first_rule_wins(
        router@.rules,
        p.intent,
        router@.default_target,
        first,
    );
}

/// A draft is a pull request exactly for a proposal; its title names the first topic,
/// and its body the message, the confidence, and all topics and entities.
pub proof fn a_draft_tells_its_projection(p: ProjectionView)
    ensures
        ({
            let draft = projection_draft(p);
            let topic = if p.topics.len() > 0 {
                p.topics[0]
            } else {
                "general"@
            };
            &&& draft.message_id == p.message_id
            &&& draft.kind == DraftKind::PullRequest <==> p.intent == Intent::Proposal
            &&& p.intent == Intent::Proposal ==> draft.title == "Proposal: "@ + topic
            &&& p.intent != Intent::Proposal ==> draft.title == "["@ + topic + "] "@ + intent_name(
                p.intent,
            )
            &&& joined(p.topics, ", "@).len() > 0 && joined(p.entities, ", "@).len() > 0
                ==> draft.body == "Auto-drafted from message "@ + p.message_id + " (confidence "@
                + two_decimals(p.confidence) + ").\n\nTopics: "@ + joined(p.topics, ", "@)
                + "\nEntities: "@ + joined(p.entities, ", "@)
            &&& joined(p.topics, ", "@).len() == 0 && joined(p.entities, ", "@).len() > 0
                ==> draft.body == "Auto-drafted from message "@ + p.message_id + " (confidence "@
                + two_decimals(p.confidence) + ").\n\nTopics: "@ + "—"@ + "\nEntities: "@
                + joined(p.entities, ", "@)
            &&& joined(p.topics, ", "@).len() > 0 && joined(p.entities, ", "@).len() == 0
                ==> draft.body == "Auto-drafted from message "@ + p.message_id + " (confidence "@
                + two_decimals(p.confidence) + ").\n\nTopics: "@ + joined(p.topics, ", "@)
                + "\nEntities: "@ + "—"@
            &&& joined(p.topics, ", "@).len() == 0 && joined(p.entities, ", "@).len() == 0
                ==> draft.body == "Auto-drafted from message "@ + p.message_id + " (confidence "@
                + two_decimals(p.confidence) + ").\n\nTopics: "@ + "—"@ + "\nEntities: "@ + "—"@
        }),
{
}

/// A repository's items are its issues and pull requests and then its comments, each
/// with its own number, author and text.
pub proof fn every_record_becomes_an_item(
    repo: RepoView,
    issues: Seq<IssueRecordView>,
    comments: Seq<CommentRecordView>,
    k: int,
)
    ensures
        ({
            let items = repo_items(repo, issues, comments);
            &&& items.len() == issues.len() + comments.len()
            &&& 0 <= k < issues.len() ==> {
                let item = items[k];
                &&& item.repo == repo
                &&& item.kind == if issues[k].is_pull_request {
                    GitHubItemKind::PullRequest
                } else {
                    GitHubItemKind::Issue
                }
                &&& item.number == issues[k].number
                &&& item.id == decimal(issues[k].number as nat)
                &&& item.author_login == issues[k].login
                &&& item.title == issues[k].title
                &&& issues[k].body is None ==> item.body == Seq::<char>::empty()
                &&& issues[k].body matches Some(body) ==> item.body == body
            }
            &&& issues.len() <= k < items.len() ==> {
                let item = items[k];
                let comment = comments[k - issues.len()];
                &&& item.repo == repo
                &&& item.kind == GitHubItemKind::Comment
                &&& item.number == issue_number(comment.issue_url)
                &&& item.id == "c-"@ + decimal(comment.id as nat)
                &&& item.author_login == comment.login
                &&& item.title is None
                &&& comment.body is None ==> item.body == Seq::<char>::empty()
                &&& comment.body matches Some(body) ==> item.body == body
            }
        }),
{
}

/// An item's message has its author and its text: the title above the body, but the
/// body alone for a comment or where there is no title.
pub proof fn an_item_says_what_was_written(item: GitHubItemView)
    ensures
        ({
            let m = item_message(item);
            &&& m.source == Source::GitHub
            &&& m.author.id == item.author_login
            &&& m.author.display_name == item.author_login
            &&& m.conversation.thread is None
            &&& m.conversation.id == "github:"@ + item.repo.owner + "/"@ + item.repo.name + "#"@
                + decimal(item.number as nat)
            &&& item.kind == GitHubItemKind::Comment || item.title is None ==> m.body == item.body
            &&& item.kind != GitHubItemKind::Comment ==> (item.title matches Some(title) ==> m.body
                == title + "\n\n"@ + item.body)
        }),
{
}

/// A decimal numeral stands for the number it was made of, and holds digits only, with
/// no zero in front.
pub proof fn a_numeral_reads_back(n: nat)
    ensures
        digits_number(decimal(n)) == Some(n),
        decimal(n).len() > 0,
        n > 0 ==> decimal(n)[0] != '0',
        forall|i: int| 0 <= i < decimal(n).len() ==> '0' <= #[trigger] decimal(n)[i] <= '9',
    decreases n,
{
    assert(digit(n % 10) == seq![
        '0',
        '1',
        '2',
        '3',
        '4',
        '5',
        '6',
        '7',
        '8',
        '9',
        'a',
        'b',
        'c',
        'd',
        'e',
        'f',
    ][(n % 10) as int]);
    assert(digit_of(digit(n % 10)) == Some(n % 10));
    if n < 10 {
        let s = decimal(n);
        assert(s.drop_last() =~= Seq::<char>::empty());
        assert(digits_number(Seq::<char>::empty()) == Some(0nat));
        assert(s.last() == digit(n));
    } else {
        a_numeral_reads_back(n / 10);
        let s = decimal(n);
        assert(s.drop_last() =~= decimal(n / 10));
        assert(s.last() == digit(n % 10));
        assert forall|i: int| 0 <= i < s.len() implies '0' <= #[trigger] s[i] <= '9' by {
            if i < decimal(n / 10).len() {
                assert(s[i] == decimal(n / 10)[i]);
            }
        }
    }
}

proof fn lemma_after_slash(front: Seq<char>, tail: Seq<char>)
    requires
        forall|i: int| 0 <= i < tail.len() ==> #[trigger] tail[i] != '/',
    ensures
        after_last_slash(front + seq!['/'] + tail) == tail,
        after_last_slash(tail) == tail,
    decreases tail.len(),
{
    let s = front + seq!['/'] + tail;
    if tail.len() == 0 {
        assert(s.last() == '/');
    } else {
        let rest = tail.drop_last();
        assert forall|i: int| 0 <= i < rest.len() implies #[trigger] rest[i] != '/' by {
            assert(rest[i] == tail[i]);
        }
        lemma_after_slash(front, rest);
        assert(s.drop_last() =~= front + seq!['/'] + rest);
        assert(s.last() == tail.last());
        assert(tail[tail.len() - 1] != '/');
        assert(rest.push(tail.last()) =~= tail);
    }
}

/// A comment belongs to the issue that its URL ends with; where the URL ends with no
/// number, to none.
pub proof fn a_url_ends_with_its_number(front: Seq<char>, n: u64, tail: Seq<char>)
    requires
        forall|i: int| 0 <= i < tail.len() ==> #[trigger] tail[i] != '/',
    ensures
        issue_number(front + seq!['/'] + decimal(n as nat)) == n,
        parsed(tail, u64::MAX as nat) is None ==> issue_number(front + seq!['/'] + tail) == 0,
{
    a_numeral_reads_back(n as nat);
    let numeral = decimal(n as nat);
    assert forall|i: int| 0 <= i < numeral.len() implies #[trigger] numeral[i] != '/' by {
        assert('0' <= numeral[i]);
    }
    lemma_after_slash(front, numeral);
    lemma_after_slash(front, tail);
    assert(numeral[0] != '+') by {
        assert('0' <= numeral[0]);
    }
    assert(parsed(numeral, u64::MAX as nat) == Some(n as nat));
}

} // verus!
