//! What the running application does with its rules, said of their fields.
use crate::models::{HistoryView, LastResultView, RuleHealth, RuleKind, RuleView, SyncTrigger};
use crate::rules::PathState;
use crate::state::{
    applied_to_rule, change_due, change_noted, enabled_ids, end_text, enqueued, is_health_of,
    latest_sync, level_of, longer_history, marked_rules, next_run, poll_list, poll_round, poll_turn,
    polled_rules, rule_ids_differ, rule_index, rule_index_finds_the_first, rules_without, run_plan,
    runtime_of, snapshot_rules, start_text, summary_of, trigger_name, wake_up_polls_what_is_due,
    PathStates, StateView, HISTORY_LIMIT, POLL_WAKE_UP_SEC, WATCH_DELAY_MILLIS,
};
use crate::text::{
    occurs_in, text_less, text_order, text_order_equal, text_order_flips, text_order_transitive,
    Order,
};
use vstd::prelude::*;
use vstd::string::*;

verus! {

/// What a filter keeps of a sequence that is longer by one item.
proof fn lemma_filter_one_more<A>(s: Seq<A>, p: spec_fn(A) -> bool)
    requires
        s.len() > 0,
    ensures
        s.filter(p) == if p(s.last()) {
            s.drop_last().filter(p).push(s.last())
        } else {
            s.drop_last().filter(p)
        },
{
    reveal(Seq::filter);
}

/// What passes a test is kept, and what is kept passes it.
proof fn lemma_filter_keeps<A>(s: Seq<A>, p: spec_fn(A) -> bool)
    ensures
        forall|i: int|
            0 <= i < s.len() && p(#[trigger] s[i]) ==> s.filter(p).contains(s[i]),
        forall|j: int|
            0 <= j < s.filter(p).len() ==> p(#[trigger] s.filter(p)[j]) && s.contains(
                s.filter(p)[j],
            ),
    decreases s.len(),
{
    reveal(Seq::filter);
    if s.len() > 0 {
        let front = s.drop_last();
        let kept = front.filter(p);
        lemma_filter_keeps(front, p);
        lemma_filter_one_more(s, p);
        assert forall|i: int| 0 <= i < s.len() && p(#[trigger] s[i]) implies s.filter(p).contains(
            s[i],
        ) by {
            if i < front.len() {
                assert(front[i] == s[i]);
                let j = choose|j: int| 0 <= j < kept.len() && kept[j] == s[i];
                assert(s.filter(p)[j] == s[i]);
            } else {
                assert(s.filter(p)[kept.len() as int] == s.last());
            }
        }
        assert forall|j: int| 0 <= j < s.filter(p).len() implies p(#[trigger] s.filter(p)[j])
            && s.contains(s.filter(p)[j]) by {
            if j < kept.len() {
                assert(front.contains(kept[j]));
                let i = choose|i: int| 0 <= i < front.len() && front[i] == kept[j];
                assert(s[i] == s.filter(p)[j]);
            } else {
                assert(s[s.len() - 1] == s.filter(p)[j]);
            }
        }
    }
}

proof fn lemma_enabled_ids(rules: Seq<RuleView>)
    ensures
        enabled_ids(rules) == rules.filter(|r: RuleView| r.enabled).map_values(|r: RuleView| r.id),
    decreases rules.len(),
{
    let on = |r: RuleView| r.enabled;
    let id = |r: RuleView| r.id;
    if rules.len() > 0 {
        lemma_enabled_ids(rules.drop_last());
        lemma_filter_one_more(rules, on);
        assert(rules.filter(on).map_values(id) =~= enabled_ids(rules));
    } else {
        reveal(Seq::filter);
        assert(rules.filter(on).map_values(id) =~= enabled_ids(rules));
    }
}

/// Where all rules are asked to run, every rule that is switched on does, no
/// other does, and they do so in the order in which they stand.
pub proof fn all_enabled_rules_run(rules: Seq<RuleView>)
    ensures
        enabled_ids(rules) == rules.filter(|r: RuleView| r.enabled).map_values(|r: RuleView| r.id),
        forall|id: Seq<char>| #[trigger]
            enabled_ids(rules).contains(id) <==> exists|i: int|
                0 <= i < rules.len() && (#[trigger] rules[i]).enabled && rules[i].id == id,
{
    let on = |r: RuleView| r.enabled;
    let id = |r: RuleView| r.id;
    let kept = rules.filter(on);
    lemma_enabled_ids(rules);
    lemma_filter_keeps(rules, on);
    assert forall|x: Seq<char>| #[trigger] enabled_ids(rules).contains(x) <==> exists|i: int|
        0 <= i < rules.len() && (#[trigger] rules[i]).enabled && rules[i].id == x by {
        if enabled_ids(rules).contains(x) {
            let j = choose|j: int| 0 <= j < enabled_ids(rules).len() && enabled_ids(rules)[j] == x;
            assert(on(kept[j]));
            assert(rules.contains(kept[j]));
            let i = choose|i: int| 0 <= i < rules.len() && rules[i] == kept[j];
            assert(rules[i].enabled && rules[i].id == x);
        }
        if exists|i: int|
            0 <= i < rules.len() && (#[trigger] rules[i]).enabled && rules[i].id == x {
            let i = choose|i: int|
                0 <= i < rules.len() && (#[trigger] rules[i]).enabled && rules[i].id == x;
            assert(on(rules[i]));
            let j = choose|j: int| 0 <= j < kept.len() && kept[j] == rules[i];
            assert(enabled_ids(rules)[j] == x);
        }
    }
}

proof fn lemma_polled(rules: Seq<RuleView>)
    ensures
        polled_rules(rules) == rules.filter(
            |r: RuleView|
                r.enabled && r.auto_sync && r.poll_fallback_enabled && r.health
                    == RuleHealth::Healthy,
        ).map_values(|r: RuleView| (r.id, r.poll_interval_sec)),
    decreases rules.len(),
{
    let test = |r: RuleView|
        r.enabled && r.auto_sync && r.poll_fallback_enabled && r.health == RuleHealth::Healthy;
    let item = |r: RuleView| (r.id, r.poll_interval_sec);
    if rules.len() > 0 {
        lemma_polled(rules.drop_last());
        lemma_filter_one_more(rules, test);
        assert(rules.filter(test).map_values(item) =~= polled_rules(rules));
    } else {
        reveal(Seq::filter);
        assert(rules.filter(test).map_values(item) =~= polled_rules(rules));
    }
}

/// The rules that are polled are those that are switched on, run by themselves,
/// may be polled and are healthy, in the order in which they stand, each with
/// its interval. A rule that lacks any of the four is not among them, and while
/// rules do not run by themselves none is.
pub proof fn polled_are_the_willing_and_able(s: StateView)
    ensures
        s.paused ==> poll_list(s).len() == 0,
        !s.paused ==> poll_list(s) == s.rules.filter(
            |r: RuleView|
                r.enabled && r.auto_sync && r.poll_fallback_enabled && r.health
                    == RuleHealth::Healthy,
        ).map_values(|r: RuleView| (r.id, r.poll_interval_sec)),
        forall|id: Seq<char>, interval_sec: u64| #[trigger]
            poll_list(s).contains((id, interval_sec)) <==> !s.paused && exists|i: int|
                0 <= i < s.rules.len() && (#[trigger] s.rules[i]).id == id
                    && s.rules[i].poll_interval_sec == interval_sec && s.rules[i].enabled
                    && s.rules[i].auto_sync && s.rules[i].poll_fallback_enabled
                    && s.rules[i].health == RuleHealth::Healthy,
{
    let test = |r: RuleView|
        r.enabled && r.auto_sync && r.poll_fallback_enabled && r.health == RuleHealth::Healthy;
    let kept = s.rules.filter(test);
    lemma_polled(s.rules);
    lemma_filter_keeps(s.rules, test);
    assert forall|id: Seq<char>, interval_sec: u64| #[trigger]
        poll_list(s).contains((id, interval_sec)) <==> !s.paused && exists|i: int|
            0 <= i < s.rules.len() && (#[trigger] s.rules[i]).id == id
                && s.rules[i].poll_interval_sec == interval_sec && s.rules[i].enabled
                && s.rules[i].auto_sync && s.rules[i].poll_fallback_enabled && s.rules[i].health
                == RuleHealth::Healthy by {
        if poll_list(s).contains((id, interval_sec)) {
            let j = choose|j: int|
                0 <= j < poll_list(s).len() && poll_list(s)[j] == (id, interval_sec);
            assert(test(kept[j]));
            assert(s.rules.contains(kept[j]));
            let i = choose|i: int| 0 <= i < s.rules.len() && s.rules[i] == kept[j];
            assert(s.rules[i].id == id);
        }
        if !s.paused && exists|i: int|
            0 <= i < s.rules.len() && (#[trigger] s.rules[i]).id == id
                && s.rules[i].poll_interval_sec == interval_sec && test(s.rules[i]) {
            let i = choose|i: int|
                0 <= i < s.rules.len() && (#[trigger] s.rules[i]).id == id
                    && s.rules[i].poll_interval_sec == interval_sec && test(s.rules[i]);
            let j = choose|j: int| 0 <= j < kept.len() && kept[j] == s.rules[i];
            assert(poll_list(s)[j] == (id, interval_sec));
        }
    }
}

/// At a wake-up a rule is polled exactly where rules run by themselves, the
/// rule is switched on, runs by itself, may be polled and is healthy, and it
/// was never polled or its interval has passed since. Only where it is polled
/// the time is taken note of. The clock does not run backwards.
pub proof fn wake_up_polls_the_willing_and_able(s: StateView, j: int, now: u64)
    requires
        rule_ids_differ(s.rules),
        0 <= j < s.rules.len(),
        runtime_of(s, s.rules[j].id).last_poll_at matches Some(at) ==> at <= now,
    ensures
        ({
            let rule = s.rules[j];
            let round = poll_round(s, poll_list(s), now);
            let last = runtime_of(s, rule.id).last_poll_at;
            &&& round.1.contains(rule.id) <==> {
                &&& !s.paused
                &&& rule.enabled
                &&& rule.auto_sync
                &&& rule.poll_fallback_enabled
                &&& rule.health == RuleHealth::Healthy
                &&& last matches Some(at) ==> now >= at + rule.poll_interval_sec * 1_000_000_000
            }
            &&& round.1.contains(rule.id) ==> runtime_of(round.0, rule.id).last_poll_at == Some(now)
            &&& !round.1.contains(rule.id) ==> runtime_of(round.0, rule.id).last_poll_at == last
        }),
{
    wake_up_polls_what_is_due(s, j, now);
}

/// Rules are polled in the order of the list: a longer list is gone through as
/// its first part and then, from where that leaves off, its second.
pub proof fn polls_follow_the_list(
    s: StateView,
    first: Seq<(Seq<char>, u64)>,
    second: Seq<(Seq<char>, u64)>,
    now: u64,
)
    ensures
        ({
            let begun = poll_round(s, first, now);
            let rest = poll_round(begun.0, second, now);
            poll_round(s, first + second, now) == (rest.0, begun.1 + rest.1)
        }),
    decreases second.len(),
{
    let begun = poll_round(s, first, now);
    if second.len() == 0 {
        assert(first + second =~= first);
        assert(begun.1 + Seq::<Seq<char>>::empty() =~= begun.1);
    } else {
        polls_follow_the_list(s, first, second.drop_last(), now);
        assert((first + second).drop_last() =~= first + second.drop_last());
        assert((first + second).last() == second.last());
        let before = poll_round(begun.0, second.drop_last(), now);
        assert(begun.1 + before.1.push(second.last().0) =~= (begun.1 + before.1).push(
            second.last().0,
        ));
    }
}

/// A single rule of the list is polled where its time has come: it has not been
/// polled yet, or the interval has passed since.
pub proof fn rule_is_polled_when_its_time_has_come(
    s: StateView,
    id: Seq<char>,
    interval_sec: u64,
    now: u64,
)
    requires
        runtime_of(s, id).last_poll_at matches Some(at) ==> at <= now,
    ensures
        poll_round(s, seq![(id, interval_sec)], now).1 == if (runtime_of(s, id).last_poll_at
            matches Some(at) ==> now >= at + interval_sec * 1_000_000_000) {
            seq![id]
        } else {
            Seq::<Seq<char>>::empty()
        },
{
    let list = seq![(id, interval_sec)];
    assert(list.drop_last() =~= Seq::<(Seq<char>, u64)>::empty());
    assert(list.last() == (id, interval_sec));
    reveal_with_fuel(poll_round, 2);
    assert(Seq::<Seq<char>>::empty().push(id) =~= seq![id]);
}

/// The number of the rules that pass a test is that of the rules that a filter
/// by the test keeps.
proof fn lemma_count_rules(rules: Seq<RuleView>, test: spec_fn(RuleView) -> bool)
    ensures
        crate::state::count_rules(rules, test) == rules.filter(test).len(),
    decreases rules.len(),
{
    reveal(Seq::filter);
    if rules.len() > 0 {
        lemma_count_rules(rules.drop_last(), test);
        lemma_filter_one_more(rules, test);
    }
}

proof fn lemma_latest_sync(rules: Seq<RuleView>)
    ensures
        match latest_sync(rules) {
            Some(latest) => {
                &&& exists|i: int|
                    0 <= i < rules.len() && (#[trigger] rules[i]).last_sync_at == Some(latest)
                &&& forall|i: int|
                    0 <= i < rules.len() ==> ((#[trigger] rules[i]).last_sync_at matches Some(at)
                        ==> at == latest || text_less(at, latest))
            },
            None => forall|i: int|
                0 <= i < rules.len() ==> (#[trigger] rules[i]).last_sync_at is None,
        },
    decreases rules.len(),
{
    if rules.len() > 0 {
        let front = rules.drop_last();
        let last = rules.last();
        lemma_latest_sync(front);
        assert forall|i: int| 0 <= i < front.len() implies front[i] == #[trigger] rules[i] by {}
        assert(rules[rules.len() - 1] == last);
        match (latest_sync(front), last.last_sync_at) {
            (Some(a), Some(b)) => {
                text_order_flips(a, b);
                text_order_flips(b, a);
                text_order_equal(a, b);
                let i = choose|i: int|
                    0 <= i < front.len() && (#[trigger] front[i]).last_sync_at == Some(a);
                assert(rules[i].last_sync_at == Some(a));
                if text_order(a, b) != Order::Greater {
                    assert forall|i: int| 0 <= i < rules.len() implies ((
                    #[trigger] rules[i]).last_sync_at matches Some(at) ==> at == b || text_less(
                        at,
                        b,
                    )) by {
                        if i < front.len() {
                            assert(front[i] == rules[i]);
                            if let Some(at) = rules[i].last_sync_at {
                                if at != a && a != b {
                                    text_order_transitive(at, a, b);
                                }
                            }
                        }
                    }
                }
            },
            (Some(a), None) => {
                let i = choose|i: int|
                    0 <= i < front.len() && (#[trigger] front[i]).last_sync_at == Some(a);
                assert(rules[i].last_sync_at == Some(a));
            },
            (None, _) => {},
        }
    }
}

proof fn lemma_first_error(rules: Seq<RuleView>)
    ensures
        match crate::state::first_error(rules) {
            Some(error) => exists|i: int|
                0 <= i < rules.len() && !(#[trigger] rules[i]).last_result.success
                    && rules[i].last_result.message.len() > 0 && error == rules[i].name + "："@
                    + rules[i].last_result.message && forall|k: int|
                    0 <= k < i ==> (#[trigger] rules[k]).last_result.success
                        || rules[k].last_result.message.len() == 0,
            None => forall|i: int|
                0 <= i < rules.len() ==> (#[trigger] rules[i]).last_result.success
                    || rules[i].last_result.message.len() == 0,
        },
    decreases rules.len(),
{
    if rules.len() > 0 {
        let front = rules.drop_last();
        lemma_first_error(front);
        assert forall|i: int| 0 <= i < front.len() implies front[i] == #[trigger] rules[i] by {}
        match crate::state::first_error(front) {
            Some(error) => {
                let i = choose|i: int|
                    0 <= i < front.len() && !(#[trigger] front[i]).last_result.success
                        && front[i].last_result.message.len() > 0 && error == front[i].name + "："@
                        + front[i].last_result.message && forall|k: int|
                        0 <= k < i ==> (#[trigger] front[k]).last_result.success
                            || front[k].last_result.message.len() == 0;
                assert(rules[i] == front[i]);
                assert forall|k: int| 0 <= k < i implies (#[trigger] rules[k]).last_result.success
                    || rules[k].last_result.message.len() == 0 by {
                    assert(front[k] == rules[k]);
                }
            },
            None => {
                let n = rules.len() - 1;
                assert(rules[n] == rules.last());
                assert forall|k: int| 0 <= k < n implies (#[trigger] rules[k]).last_result.success
                    || rules[k].last_result.message.len() == 0 by {
                    assert(front[k] == rules[k]);
                }
            },
        }
    }
}

/// The figures at the top of the window: all rules are counted, those that are
/// switched on, and those that are not healthy. The time shown is that of a
/// rule and no rule has a later one; the error shown is that of the first rule
/// whose last run failed and says why.
pub proof fn summary_counts_the_rules(rules: Seq<RuleView>)
    ensures
        summary_of(rules).total_rules == rules.len(),
        summary_of(rules).enabled_rules == rules.filter(|r: RuleView| r.enabled).len(),
        summary_of(rules).invalid_rules == rules.filter(
            |r: RuleView| r.health != RuleHealth::Healthy,
        ).len(),
        match summary_of(rules).last_sync_at {
            Some(latest) => {
                &&& exists|i: int|
                    0 <= i < rules.len() && (#[trigger] rules[i]).last_sync_at == Some(latest)
                &&& forall|i: int|
                    0 <= i < rules.len() ==> ((#[trigger] rules[i]).last_sync_at matches Some(at)
                        ==> at == latest || text_less(at, latest))
            },
            None => forall|i: int|
                0 <= i < rules.len() ==> (#[trigger] rules[i]).last_sync_at is None,
        },
        match summary_of(rules).last_error {
            Some(error) => exists|i: int|
                0 <= i < rules.len() && !(#[trigger] rules[i]).last_result.success
                    && rules[i].last_result.message.len() > 0 && error == rules[i].name + "："@
                    + rules[i].last_result.message && forall|k: int|
                    0 <= k < i ==> (#[trigger] rules[k]).last_result.success
                        || rules[k].last_result.message.len() == 0,
            None => forall|i: int|
                0 <= i < rules.len() ==> (#[trigger] rules[i]).last_result.success
                    || rules[i].last_result.message.len() == 0,
        },
{
    lemma_count_rules(rules, |r: RuleView| r.enabled);
    lemma_count_rules(rules, |r: RuleView| r.health != RuleHealth::Healthy);
    lemma_latest_sync(rules);
    lemma_first_error(rules);
}

/// What a request to run a rule comes to. While rules do not run by themselves,
/// one that comes from a change or a poll is dropped. Any other runs the first
/// rule with the id where that is switched on, is dropped where it is switched
/// off, and fails where there is no such rule.
pub proof fn request_runs_the_enabled_rule(
    s: StateView,
    id: Seq<char>,
    trigger: SyncTrigger,
    i: int,
)
    requires
        0 <= i <= s.rules.len(),
        forall|k: int| 0 <= k < i ==> (#[trigger] s.rules[k]).id != id,
        i < s.rules.len() ==> s.rules[i].id == id,
    ensures
        s.paused && (trigger == SyncTrigger::Watch || trigger == SyncTrigger::Poll) ==> run_plan(
            s,
            id,
            trigger,
        ) == Ok::<Option<RuleView>, Seq<char>>(None),
        !s.paused || trigger == SyncTrigger::Manual || trigger == SyncTrigger::Startup || trigger
            == SyncTrigger::Cleanup ==> run_plan(s, id, trigger) == if i == s.rules.len() {
            Err("未找到对应的同步规则。"@)
        } else if s.rules[i].enabled {
            Ok(Some(s.rules[i]))
        } else {
            Ok(None)
        },
{
    rule_index_finds_the_first(s.rules, id);
}

/// A request to run an idle rule begins a run; one to run a rule that is
/// running leaves word of itself. Nothing else that is known changes.
pub proof fn request_begins_or_waits(
    s: StateView,
    id: Seq<char>,
    trigger: SyncTrigger,
    other: Seq<char>,
)
    ensures
        ({
            let before = runtime_of(s, id);
            let (after, begins) = enqueued(s, id, trigger);
            let entry = runtime_of(after, id);
            &&& begins == !before.in_progress
            &&& entry.in_progress
            &&& begins ==> entry.rerun_requested == before.rerun_requested && entry.queued_trigger
                == before.queued_trigger
            &&& !begins ==> entry.rerun_requested && entry.queued_trigger == Some(trigger)
            &&& entry.debounce_generation == before.debounce_generation
            &&& entry.last_poll_at == before.last_poll_at
            &&& other != id ==> runtime_of(after, other) == runtime_of(s, other)
            &&& after.rules == s.rules && after.settings == s.settings && after.history
                == s.history && after.failures == s.failures && after.paused == s.paused
        }),
{
}

/// A run is followed by the one that waits, with the trigger that was asked for
/// last; where none waits the rule is idle again. Nothing else that is known
/// changes.
pub proof fn waiting_run_follows(s: StateView, id: Seq<char>, other: Seq<char>)
    ensures
        ({
            let before = runtime_of(s, id);
            let (after, follows) = next_run(s, id);
            let entry = runtime_of(after, id);
            &&& follows is Some <==> before.rerun_requested
            &&& before.rerun_requested && before.queued_trigger is Some ==> follows
                == before.queued_trigger
            &&& before.rerun_requested && before.queued_trigger is None ==> follows == Some(
                SyncTrigger::Watch,
            )
            &&& !entry.rerun_requested
            &&& follows is Some ==> entry.in_progress == before.in_progress && entry.queued_trigger
                is None
            &&& follows is None ==> !entry.in_progress && entry.queued_trigger
                == before.queued_trigger
            &&& entry.debounce_generation == before.debounce_generation
            &&& entry.last_poll_at == before.last_poll_at
            &&& other != id ==> runtime_of(after, other) == runtime_of(s, other)
            &&& after.rules == s.rules && after.settings == s.settings && after.history
                == s.history && after.failures == s.failures && after.paused == s.paused
        }),
{
}

/// A change is numbered by one more than the change before, and is acted on
/// as long as it is the last one and rules run by themselves. Nothing else that
/// is known of the rule changes.
pub proof fn change_is_numbered(s: StateView, id: Seq<char>, generation: u64)
    requires
        runtime_of(s, id).debounce_generation < u64::MAX,
    ensures
        ({
            let before = runtime_of(s, id);
            let (after, number) = change_noted(s, id);
            let entry = runtime_of(after, id);
            &&& number == before.debounce_generation + 1
            &&& entry.debounce_generation == number
            &&& change_due(after, id, generation) <==> generation == number && !s.paused
            &&& entry.in_progress == before.in_progress
            &&& entry.rerun_requested == before.rerun_requested
            &&& entry.queued_trigger == before.queued_trigger
            &&& entry.last_poll_at == before.last_poll_at
            &&& after.rules == s.rules && after.settings == s.settings && after.history
                == s.history && after.failures == s.failures && after.paused == s.paused
        }),
{
}

/// A rule whose files could not be watched is shown with why, unless it shows
/// an error already, and no longer as healthy; every other rule is shown as it
/// is. Nothing but its health and its error is shown otherwise.
pub proof fn unwatched_rules_are_marked(
    rules: Seq<RuleView>,
    failures: Map<Seq<char>, Seq<char>>,
    i: int,
)
    requires
        0 <= i < rules.len(),
    ensures
        ({
            let rule = rules[i];
            let shown = marked_rules(rules, failures)[i];
            &&& !failures.dom().contains(rule.id) ==> shown == rule
            &&& failures.dom().contains(rule.id) ==> {
                &&& rule.health == RuleHealth::Healthy ==> shown.health
                    == RuleHealth::WatchUnavailable
                &&& rule.health != RuleHealth::Healthy ==> shown.health == rule.health
                &&& rule.config_error is None ==> shown.config_error == Some(failures[rule.id])
                &&& rule.config_error is Some ==> shown.config_error == rule.config_error
            }
            &&& shown == (RuleView {
                health: shown.health,
                config_error: shown.config_error,
                ..rule
            })
        }),
{
}

/// What came of a run goes into the first rule with the id and into no other:
/// its result and its time are those of the run, and the mirrored entries that
/// it remembers are the ones that were read, where the run succeeded and they
/// could be read, and the old ones otherwise. Its health is judged anew.
pub proof fn run_is_taken_into_its_rule(
    before: Seq<RuleView>,
    after: Seq<RuleView>,
    id: Seq<char>,
    last_result: LastResultView,
    captured: Option<Seq<Seq<char>>>,
    states: PathStates,
    i: int,
    k: int,
)
    requires
        applied_to_rule(before, after, id, last_result, captured, states),
        0 <= i < before.len(),
        before[i].id == id,
        forall|j: int| 0 <= j < i ==> (#[trigger] before[j]).id != id,
        0 <= k < before.len(),
    ensures
        after.len() == before.len(),
        k != i ==> after[k] == before[k],
        after[i].last_result == last_result,
        after[i].last_sync_at == last_result.finished_at,
        last_result.success && captured is Some ==> after[i].sync_state == captured->0,
        !last_result.success || captured is None ==> after[i].sync_state == before[i].sync_state,
        after[i] == (RuleView {
            last_result: after[i].last_result,
            last_sync_at: after[i].last_sync_at,
            sync_state: after[i].sync_state,
            health: after[i].health,
            ..before[i]
        }),
        is_health_of(
            RuleView { health: before[i].health, ..after[i] },
            states.source,
            states.target,
            after[i].health,
        ),
{
    rule_index_finds_the_first(before, id);
    assert(rule_index(before, id) == Some(i));
}

/// What came of a run of a rule that is there no more changes no rule.
pub proof fn run_of_a_deleted_rule_changes_none(
    before: Seq<RuleView>,
    after: Seq<RuleView>,
    id: Seq<char>,
    last_result: LastResultView,
    captured: Option<Seq<Seq<char>>>,
    states: PathStates,
)
    requires
        applied_to_rule(before, after, id, last_result, captured, states),
        forall|j: int| 0 <= j < before.len() ==> (#[trigger] before[j]).id != id,
    ensures
        after == before,
{
    rule_index_finds_the_first(before, id);
}

/// The health of a rule is judged by what stands at its source and at its
/// target. A healthy rule has a source of its kind, or, where it goes both ways
/// and has a target, none; and its target is not of the other kind. What is
/// said of the source holds of the source.
pub proof fn health_is_judged_by_both_sides(
    rule: RuleView,
    source_state: PathState,
    target_state: PathState,
    health: RuleHealth,
)
    requires
        is_health_of(rule, source_state, target_state, health),
    ensures
        ({
            let own = if rule.kind == RuleKind::File {
                PathState::File
            } else {
                PathState::Folder
            };
            let other = if rule.kind == RuleKind::File {
                PathState::Folder
            } else {
                PathState::File
            };
            &&& health == RuleHealth::InvalidConfiguration <==> rule.config_error is Some
            &&& health == RuleHealth::MissingSource ==> source_state == PathState::Missing && (
            !rule.bidirectional || target_state == PathState::Missing)
            &&& health == RuleHealth::InvalidSourceType ==> source_state != PathState::Missing
                && source_state != own
            &&& health == RuleHealth::Healthy ==> {
                &&& source_state == own || (source_state == PathState::Missing && rule.bidirectional
                    && target_state != PathState::Missing)
                &&& target_state != other
            }
            &&& health == RuleHealth::OverlappingDirectories ==> rule.kind == RuleKind::Folder
                && target_state != PathState::File
        }),
{
}

/// The history grows by the run that is put in front of it, up to two hundred
/// runs; beyond that the oldest ones go.
pub proof fn history_grows_to_its_limit(history: Seq<HistoryView>, item: HistoryView, i: int)
    ensures
        longer_history(history, item).len() == if history.len() < 200 {
            history.len() + 1
        } else {
            200
        },
        longer_history(history, item)[0] == item,
        0 <= i < history.len() && i < 199 ==> longer_history(history, item)[i + 1] == history[i],
{
}

/// A run that failed is logged as an error, and what is logged of any run names
/// its rule, its trigger and its message.
pub proof fn failed_run_is_logged_as_error(item: HistoryView)
    ensures
        !item.success ==> level_of(end_text(item)) == "error"@,
        item.success ==> end_text(item) == "规则“"@ + item.rule_name + "”执行成功，触发方式："@
            + trigger_name(item.trigger) + "，消息："@ + item.message,
        !item.success ==> end_text(item) == "规则“"@ + item.rule_name + "”执行失败，触发方式："@
            + trigger_name(item.trigger) + "，消息："@ + item.message,
{
    if !item.success {
        reveal_strlit("”执行失败，触发方式：");
        reveal_strlit("失败");
        let head = "规则“"@ + item.rule_name;
        let at = head.len() as int + 3;
        let text = end_text(item);
        assert(text.subrange(at, at + 2) =~= "失败"@);
        assert(occurs_in(text, "失败"@));
    }
}

/// A rule of which nothing is known is idle: it is not running, no run waits, no
/// change was noted and it was never polled.
pub proof fn unknown_rule_is_idle(s: StateView, id: Seq<char>)
    ensures
        s.runtime.dom().contains(id) ==> runtime_of(s, id) == s.runtime[id],
        !s.runtime.dom().contains(id) ==> {
            let entry = runtime_of(s, id);
            &&& !entry.in_progress && !entry.rerun_requested && entry.queued_trigger is None
            &&& entry.debounce_generation == 0 && entry.last_poll_at is None
        },
{
}

/// Deleting a rule leaves exactly the rules with other ids, in their order.
pub proof fn deletion_leaves_the_other_rules(rules: Seq<RuleView>, id: Seq<char>, rule: RuleView)
    ensures
        rules_without(rules, id) == rules.filter(|r: RuleView| r.id != id),
        rules_without(rules, id).contains(rule) <==> rules.contains(rule) && rule.id != id,
{
    let other = |r: RuleView| r.id != id;
    lemma_filter_keeps(rules, other);
    assert(rules_without(rules, id) == rules.filter(other));
    if rules_without(rules, id).contains(rule) {
        let j = choose|j: int|
            0 <= j < rules.filter(other).len() && rules.filter(other)[j] == rule;
        assert(other(rules.filter(other)[j]) && rules.contains(rules.filter(other)[j]));
    }
    if rules.contains(rule) && rule.id != id {
        let i = choose|i: int| 0 <= i < rules.len() && rules[i] == rule;
        assert(other(rules[i]));
    }
}

/// The window shows all rules in their order, those that could not be watched
/// with why; a rule that nothing is known against is shown as it is.
pub proof fn window_shows_every_rule(s: StateView, i: int)
    requires
        0 <= i < s.rules.len(),
    ensures
        ({
            let shown = snapshot_rules(s);
            &&& shown.len() == s.rules.len()
            &&& shown[i].id == s.rules[i].id
            &&& !s.failures.dom().contains(s.rules[i].id) ==> shown[i] == s.rules[i]
            &&& s.failures.dom().contains(s.rules[i].id) ==> shown[i].health
                != RuleHealth::Healthy && shown[i].config_error is Some
            &&& s.failures.dom().contains(s.rules[i].id) && s.rules[i].health
                == RuleHealth::Healthy && s.rules[i].config_error is None ==> shown[i].health
                == RuleHealth::WatchUnavailable && shown[i].config_error == Some(
                s.failures[s.rules[i].id],
            )
        }),
{
    unwatched_rules_are_marked(s.rules, s.failures, i);
}

/// A turn at polling notes the time where it is the rule's turn, and changes
/// nothing else that is known, of this rule or any other. A rule that was never
/// polled always has its turn.
pub proof fn poll_notes_only_the_time(
    s: StateView,
    id: Seq<char>,
    interval_sec: u64,
    now: u64,
    other: Seq<char>,
)
    ensures
        ({
            let before = runtime_of(s, id);
            let (after, polled) = poll_turn(s, id, interval_sec, now);
            let entry = runtime_of(after, id);
            &&& before.last_poll_at is None ==> polled
            &&& polled ==> entry.last_poll_at == Some(now)
            &&& !polled ==> entry.last_poll_at == before.last_poll_at
            &&& entry.in_progress == before.in_progress
            &&& entry.rerun_requested == before.rerun_requested
            &&& entry.queued_trigger == before.queued_trigger
            &&& entry.debounce_generation == before.debounce_generation
            &&& other != id ==> runtime_of(after, other) == runtime_of(s, other)
            &&& after.rules == s.rules && after.settings == s.settings && after.history
                == s.history && after.failures == s.failures && after.paused == s.paused
        }),
{
}

/// What is logged of a run that begins names its rule, its trigger, its source
/// and its target.
pub proof fn beginning_run_is_logged_with_its_paths(rule: RuleView, trigger: SyncTrigger)
    ensures
        start_text(rule, trigger) == "开始执行规则“"@ + rule.name + "”，触发方式："@ + trigger_name(
            trigger,
        ) + "，源："@ + rule.source_path + "，目标："@ + rule.target_path,
        trigger_name(SyncTrigger::Manual) == "Manual"@,
        trigger_name(SyncTrigger::Watch) == "Watch"@,
        trigger_name(SyncTrigger::Poll) == "Poll"@,
        trigger_name(SyncTrigger::Startup) == "Startup"@,
        trigger_name(SyncTrigger::Cleanup) == "Cleanup"@,
{
}

/// A rule runs a second and a half after the last change to its files, and the
/// rules are looked through for those to be polled every ten seconds.
pub proof fn waits_are_short()
    ensures
        WATCH_DELAY_MILLIS == 1_500,
        POLL_WAKE_UP_SEC == 10,
        HISTORY_LIMIT == 200,
{
}

} // verus!
