//! What the target registry promises across calls, over the states of
//! [`crate::targets::TargetRegistry`].
use vstd::prelude::*;
use vstd::string::*;
use crate::config;
use crate::config::TargetConfigView;
use crate::targets;
use crate::targets::{Mode, Origin, RegistryView, Target, TargetErrorView, TargetView};
use crate::text;
use crate::urls;

verus! {

/// The registry holds the config targets as they were declared, and behind them
/// dynamic targets only.
pub open spec fn built_on(r: RegistryView, config: Seq<TargetConfigView>) -> bool {
    let fixed = targets::config_targets(config);
    &&& fixed.len() <= r.targets.len()
    &&& r.targets.subrange(0, fixed.len() as int) == fixed
    &&& forall|i: int|
        fixed.len() <= i < r.targets.len() ==> (#[trigger] r.targets[i]).origin == Origin::Dynamic
}

proof fn lemma_merged(config: Seq<TargetConfigView>, stored: Seq<TargetView>)
    requires
        targets::merged(config, stored) is Ok,
    ensures
        targets::merged(config, stored)->Ok_0 == targets::config_targets(config)
            + stored.map_values(|t: TargetView| targets::stored_target(t)),
    decreases stored.len(),
{
    let f = |t: TargetView| targets::stored_target(t);
    let fixed = targets::config_targets(config);
    if stored.len() == 0 {
        assert(fixed + stored.map_values(f) =~= fixed);
    } else {
        lemma_merged(config, stored.drop_last());
        let last = targets::stored_target(stored.last());
        assert((fixed + stored.drop_last().map_values(f)).push(last) =~= fixed + stored.map_values(
            f,
        ));
    }
}

/// A fresh registry holds the config targets first and the stored ones behind
/// them, all of them dynamic.
pub proof fn law_load_keeps_all(
    config: Seq<TargetConfigView>,
    stored: Seq<TargetView>,
    max_dynamic: usize,
    r: RegistryView,
)
    requires
        targets::loaded(config, Some(stored), max_dynamic) == Ok::<_, Seq<char>>(r.targets),
    ensures
        built_on(r, config),
        r.targets == targets::config_targets(config) + stored.map_values(
            |t: TargetView| targets::stored_target(t),
        ),
{
    lemma_merged(config, stored);
    let fixed = targets::config_targets(config);
    let all = fixed + stored.map_values(|t: TargetView| targets::stored_target(t));
    assert(all.subrange(0, fixed.len() as int) =~= fixed);
}

proof fn lemma_first_id_dynamic(r: RegistryView, config: Seq<TargetConfigView>, id: Seq<char>, refusal: Seq<
    char,
>)
    requires
        built_on(r, config),
        targets::change_fault(r.targets, id, refusal) is None,
    ensures
        config.len() <= targets::find_target(r.targets, id) < r.targets.len(),
{
    let i = targets::find_target(r.targets, id) as int;
    lemma_find_target(r.targets, id);
    let fixed = targets::config_targets(config);
    if i < fixed.len() {
        assert(r.targets.subrange(0, fixed.len() as int)[i] == r.targets[i]);
        assert(fixed[i].origin == Origin::Config);
    }
}

proof fn lemma_find_target(all: Seq<TargetView>, id: Seq<char>)
    ensures
        targets::find_target(all, id) <= all.len(),
        targets::find_target(all, id) < all.len() ==> all[targets::find_target(all, id) as int].id
            == id,
        forall|k: int| 0 <= k < targets::find_target(all, id) ==> (#[trigger] all[k]).id != id,
    decreases all.len(),
{
    if all.len() > 0 && all[0].id != id {
        let rest = all.subrange(1, all.len() as int);
        lemma_find_target(rest, id);
        assert forall|k: int| 0 <= k < targets::find_target(all, id) implies (#[trigger] all[k]).id
            != id by {
            if k > 0 {
                assert(rest[k - 1] == all[k]);
            }
        }
    }
}

/// Config targets are immutable: no request to enable or disable changes one.
pub proof fn law_switch_keeps_config(
    before: RegistryView,
    after: RegistryView,
    r: Result<TargetView, TargetErrorView>,
    id: Seq<char>,
    enabled: bool,
    config: Seq<TargetConfigView>,
)
    requires
        built_on(before, config),
        targets::switches(before, after, r, id, enabled),
    ensures
        built_on(after, config),
{
    if r is Ok {
        lemma_first_id_dynamic(before, config, id, "config targets cannot be changed"@);
        let n = config.len() as int;
        assert(after.targets.subrange(0, n) =~= before.targets.subrange(0, n));
    }
}

/// Config targets are immutable: no request to remove takes one away.
pub proof fn law_remove_keeps_config(
    before: RegistryView,
    after: RegistryView,
    r: Result<TargetView, TargetErrorView>,
    id: Seq<char>,
    config: Seq<TargetConfigView>,
)
    requires
        built_on(before, config),
        targets::removes(before, after, r, id),
    ensures
        built_on(after, config),
{
    if r is Ok {
        lemma_first_id_dynamic(before, config, id, "config targets cannot be removed"@);
        let n = config.len() as int;
        let i = targets::find_target(before.targets, id) as int;
        assert(after.targets.subrange(0, n) =~= before.targets.subrange(0, n));
        assert forall|k: int| n <= k < after.targets.len() implies (
        #[trigger] after.targets[k]).origin == Origin::Dynamic by {
            assert(after.targets[k] == if k < i {
                before.targets[k]
            } else {
                before.targets[k + 1]
            });
        }
    }
}

/// Config targets are immutable: adding a target leaves them as they are.
pub proof fn law_add_keeps_config(
    before: RegistryView,
    after: RegistryView,
    r: Result<TargetView, TargetErrorView>,
    name: Option<Seq<char>>,
    url: Seq<char>,
    allow: Option<Seq<Seq<char>>>,
    mode: Mode,
    now: u64,
    config: Seq<TargetConfigView>,
)
    requires
        built_on(before, config),
        targets::adds(before, after, r, name, url, allow, mode, now),
    ensures
        built_on(after, config),
{
    if r is Ok {
        let n = config.len() as int;
        assert(after.targets.subrange(0, n) =~= before.targets.subrange(0, n));
        assert forall|k: int| n <= k < after.targets.len() implies (
        #[trigger] after.targets[k]).origin == Origin::Dynamic by {
            if k < before.targets.len() {
                assert(after.targets[k] == before.targets[k]);
            }
        }
    }
}

/// What was persisted is reloaded: a registry's dynamic targets, stored and
/// loaded again over the same config, give back the same targets.
pub proof fn law_reload(r: RegistryView, config: Seq<TargetConfigView>)
    requires
        targets::sound(r),
        built_on(r, config),
    ensures
        targets::loaded(config, Some(targets::dynamic_of(r.targets)), r.max_dynamic) == Ok::<
            _,
            Seq<char>,
        >(r.targets),
{
    let n = config.len() as int;
    let rest = r.targets.subrange(n, r.targets.len() as int);
    assert forall|i: int| 0 <= i < n implies (#[trigger] r.targets[i]).origin == Origin::Config by {
        assert(r.targets.subrange(0, n)[i] == r.targets[i]);
        assert(targets::config_targets(config)[i].origin == Origin::Config);
    }
    lemma_dynamic_of(r.targets, n);
    lemma_merge_all(r, config, rest.len() as int);
    assert(rest.subrange(0, rest.len() as int) =~= rest);
    assert(r.targets.subrange(0, n + rest.len()) =~= r.targets);
}

proof fn lemma_dynamic_of(all: Seq<TargetView>, n: int)
    requires
        0 <= n <= all.len(),
        forall|i: int| 0 <= i < n ==> (#[trigger] all[i]).origin == Origin::Config,
        forall|i: int| n <= i < all.len() ==> (#[trigger] all[i]).origin == Origin::Dynamic,
    ensures
        targets::dynamic_of(all) == all.subrange(n, all.len() as int),
    decreases all.len(),
{
    if n < all.len() {
        let init = all.drop_last();
        lemma_dynamic_of(init, n);
        assert(all[all.len() - 1].origin == Origin::Dynamic);
        assert(init.subrange(n, init.len() as int).push(all.last()) =~= all.subrange(
            n,
            all.len() as int,
        ));
    } else if all.len() > 0 {
        lemma_dynamic_of(all.drop_last(), n - 1);
        assert(all[all.len() - 1].origin == Origin::Config);
        assert(all.subrange(n, all.len() as int) =~= Seq::empty());
    } else {
        assert(all.subrange(n, all.len() as int) =~= Seq::empty());
    }
}

proof fn lemma_merge_all(r: RegistryView, config: Seq<TargetConfigView>, k: int)
    requires
        targets::sound(r),
        built_on(r, config),
        0 <= k <= r.targets.len() - config.len(),
    ensures
        targets::merged(
            config,
            r.targets.subrange(config.len() as int, r.targets.len() as int).subrange(0, k),
        ) == Ok::<_, Seq<char>>(r.targets.subrange(0, config.len() + k)),
    decreases k,
{
    let n = config.len() as int;
    let rest = r.targets.subrange(n, r.targets.len() as int);
    if k == 0 {
        assert(rest.subrange(0, 0) =~= Seq::empty());
        assert(targets::config_targets(config).len() == n);
    } else {
        lemma_merge_all(r, config, k - 1);
        let part = rest.subrange(0, k);
        let all = r.targets.subrange(0, n + k - 1);
        let t = r.targets[n + k - 1];
        assert(part.drop_last() =~= rest.subrange(0, k - 1));
        assert(part.last() == t);
        assert(t.origin == Origin::Dynamic);
        assert(targets::stored_target(t) == t);
        if targets::url_used(all, t.url) {
            let i = choose|i: int| 0 <= i < all.len() && (#[trigger] all[i]).url == t.url;
            assert(all[i] == r.targets[i]);
        }
        if targets::name_used(all, t.name) {
            let i = choose|i: int| 0 <= i < all.len() && (#[trigger] all[i]).name == t.name;
            assert(all[i] == r.targets[i]);
        }
        assert(all.push(t) =~= r.targets.subrange(0, n + k));
    }
}

/// Names stay unique: over a config whose targets have names of their own, no
/// two targets of the registry share one.
pub proof fn law_names_unique(r: RegistryView, config: Seq<TargetConfigView>, i: int, j: int)
    requires
        targets::sound(r),
        built_on(r, config),
        config::valid_targets(config),
        0 <= i < j < r.targets.len(),
    ensures
        r.targets[i].name != r.targets[j].name,
{
    let n = config.len() as int;
    if j < n {
        let fixed = targets::config_targets(config);
        assert(r.targets.subrange(0, n)[i] == r.targets[i] && r.targets.subrange(0, n)[j]
            == r.targets[j]);
        assert(fixed[i].name == config[i].name && fixed[j].name == config[j].name);
    }
}

/// The sweep covers the targets that are enabled and recurring, and no others.
pub proof fn law_sweep(all: Seq<TargetView>, t: TargetView)
    ensures
        targets::swept(all).contains(t) <==> all.contains(t) && t.enabled && t.mode
            == Mode::Recurring,
    decreases all.len(),
{
    if all.len() > 0 {
        let init = all.drop_last();
        let last = all.last();
        law_sweep(init, t);
        let before = targets::swept(init);
        assert(all[all.len() - 1] == last);
        if init.contains(t) {
            let i = choose|i: int| 0 <= i < init.len() && init[i] == t;
            assert(all[i] == t);
        }
        if all.contains(t) && t != last {
            let i = choose|i: int| 0 <= i < all.len() && all[i] == t;
            assert(init[i] == t);
        }
        if before.contains(t) {
            let i = choose|i: int| 0 <= i < before.len() && before[i] == t;
            assert(before.push(last)[i] == t);
        }
        assert(before.push(last)[before.len() as int] == last);
        if before.push(last).contains(t) && t != last {
            let i = choose|i: int| 0 <= i < before.push(last).len() && before.push(last)[i] == t;
            assert(before[i] == t);
        }
    }
}

/// What was added is found by its URL, and removing it brings back what there
/// was, where no other target has its id.
pub proof fn law_add_find_remove(
    before: RegistryView,
    added: RegistryView,
    t: TargetView,
    name: Option<Seq<char>>,
    url: Seq<char>,
    allow: Option<Seq<Seq<char>>>,
    mode: Mode,
    now: u64,
    after: RegistryView,
    removed: Result<TargetView, TargetErrorView>,
)
    requires
        targets::adds(before, added, Ok(t), name, url, allow, mode, now),
        forall|i: int| 0 <= i < before.targets.len() ==> (#[trigger] before.targets[i]).id != t.id,
        targets::removes(added, after, removed, t.id),
    ensures
        targets::with_url(added.targets, text::trimmed(url)) == Some(t),
        removed == Ok::<_, TargetErrorView>(t),
        after.targets == before.targets,
{
    let n = before.targets.len() as int;
    assert forall|k: int| 0 <= k < n implies (#[trigger] added.targets[k]).id != t.id
        && added.targets[k].url != t.url by {
        assert(added.targets[k] == before.targets[k]);
    }
    lemma_find_target(added.targets, t.id);
    assert(added.targets[n].id == t.id);
    assert(targets::find_target(added.targets, t.id) == n);
    lemma_with_url(added.targets, t.url, n);
    assert(added.targets.remove(n) =~= before.targets);
}

proof fn lemma_with_url(all: Seq<TargetView>, url: Seq<char>, i: int)
    requires
        0 <= i < all.len(),
        all[i].url == url,
        forall|k: int| 0 <= k < i ==> (#[trigger] all[k]).url != url,
    ensures
        targets::with_url(all, url) == Some(all[i]),
    decreases i,
{
    if i > 0 {
        let rest = all.subrange(1, all.len() as int);
        assert(all[0].url != url);
        assert forall|k: int| 0 <= k < i - 1 implies (#[trigger] rest[k]).url != url by {
            assert(rest[k] == all[k + 1]);
        }
        lemma_with_url(rest, url, i - 1);
    }
}

/// A generated id is never the id of a config target.
pub proof fn law_generated_id_is_no_config_id(now: u64, n: u64, t: TargetConfigView)
    ensures
        targets::target_id(now, n) != targets::config_target(t).id,
{
    reveal_strlit("t");
    reveal_strlit("cfg:");
    assert(targets::target_id(now, n)[0] == 't');
    assert(targets::config_target(t).id[0] == 'c');
}

/// Generated ids with different numbers differ, whatever the times: a registry
/// that goes on with the next number never gives out an id again.
pub proof fn law_generated_ids_differ(now: u64, later: u64, m: u64, n: u64)
    requires
        m != n,
    ensures
        targets::target_id(now, m) != targets::target_id(later, n),
{
    lemma_id_number(now, m);
    lemma_id_number(later, n);
    if targets::target_id(now, m) == targets::target_id(later, n) {
        text::lemma_decimal_injective(m as nat, n as nat);
    }
}

proof fn lemma_id_number(now: u64, n: u64)
    ensures
        ({
            let id = targets::target_id(now, n);
            let colon = text::find(id, ':') as int;
            id.subrange(colon + 1, id.len() as int) == text::decimal(n as nat)
        }),
{
    reveal_strlit("t");
    reveal_strlit(":");
    let id = targets::target_id(now, n);
    let digits = text::decimal(now as nat);
    let k = 1 + digits.len() as int;
    assert forall|i: int| 0 <= i < k implies #[trigger] id[i] != ':' by {
        if i > 0 {
            assert(id[i] == digits[i - 1]);
            if id[i] == ':' {
                assert(digits.contains(':'));
                text::lemma_decimal_digits(now as nat, ':');
            }
        }
    }
    assert(id[k] == ':');
    text::lemma_find_at(id, ':', k);
    assert(id.subrange(k + 1, id.len() as int) =~= text::decimal(n as nat));
}

/// A request that changes the registry.
pub enum Change {
    Add {
        name: Option<Seq<char>>,
        url: Seq<char>,
        allow: Option<Seq<Seq<char>>>,
        mode: Mode,
        now: u64,
    },
    Switch { id: Seq<char>, enabled: bool },
    Remove { id: Seq<char> },
}

/// `after` is what the change makes of `before`, with the result `r`.
pub open spec fn changes(
    before: RegistryView,
    after: RegistryView,
    change: Change,
    r: Result<TargetView, TargetErrorView>,
) -> bool {
    match change {
        Change::Add { name, url, allow, mode, now } => targets::adds(
            before,
            after,
            r,
            name,
            url,
            allow,
            mode,
            now,
        ),
        Change::Switch { id, enabled } => targets::switches(before, after, r, id, enabled),
        Change::Remove { id } => targets::removes(before, after, r, id),
    }
}

/// Each of `states` but the first is what one of the changes made of the one
/// before it, whether the change was refused or not.
pub open spec fn evolves(
    states: Seq<RegistryView>,
    list: Seq<Change>,
    results: Seq<Result<TargetView, TargetErrorView>>,
) -> bool {
    &&& states.len() == list.len() + 1
    &&& results.len() == list.len()
    &&& forall|i: int|
        0 <= i < list.len() ==> changes(
            states[i],
            states[i + 1],
            #[trigger] list[i],
            results[i],
        )
}

proof fn lemma_change_sound(
    before: RegistryView,
    after: RegistryView,
    change: Change,
    r: Result<TargetView, TargetErrorView>,
    config: Seq<TargetConfigView>,
)
    requires
        targets::sound(before),
        built_on(before, config),
        changes(before, after, change, r),
    ensures
        targets::sound(after),
        built_on(after, config),
        after.max_dynamic == before.max_dynamic,
{
    match change {
        Change::Add { name, url, allow, mode, now } => {
            law_add_keeps_config(before, after, r, name, url, allow, mode, now, config);
            if r is Ok {
                targets::lemma_arranged_push(before.targets, r->Ok_0);
            }
        },
        Change::Switch { id, enabled } => {
            law_switch_keeps_config(before, after, r, id, enabled, config);
            if r is Ok {
                let i = targets::find_target(before.targets, id) as int;
                lemma_first_id_dynamic(before, config, id, "config targets cannot be changed"@);
                targets::lemma_count_update(before.targets, i, r->Ok_0);
                let all = after.targets;
                assert forall|a: int, b: int| 0 <= a < b < all.len() implies ((
                #[trigger] all[a]).origin == Origin::Dynamic ==> (#[trigger] all[b]).origin
                    == Origin::Dynamic) && (all[b].origin == Origin::Dynamic ==> all[a].name
                    != all[b].name && all[a].url != all[b].url) by {
                    assert(all[a].origin == before.targets[a].origin && all[a].name
                        == before.targets[a].name && all[a].url == before.targets[a].url);
                    assert(all[b].origin == before.targets[b].origin && all[b].name
                        == before.targets[b].name && all[b].url == before.targets[b].url);
                }
            }
        },
        Change::Remove { id } => {
            law_remove_keeps_config(before, after, r, id, config);
            if r is Ok {
                let i = targets::find_target(before.targets, id) as int;
                lemma_first_id_dynamic(before, config, id, "config targets cannot be removed"@);
                targets::lemma_arranged_remove(before.targets, i);
            }
        },
    }
}

proof fn lemma_merged_arranged(config: Seq<TargetConfigView>, stored: Seq<TargetView>)
    requires
        targets::merged(config, stored) is Ok,
    ensures
        targets::arranged(targets::merged(config, stored)->Ok_0),
    decreases stored.len(),
{
    if stored.len() == 0 {
        targets::lemma_config_arranged(config);
    } else {
        lemma_merged_arranged(config, stored.drop_last());
        targets::lemma_arranged_push(
            targets::merged(config, stored.drop_last())->Ok_0,
            targets::stored_target(stored.last()),
        );
    }
}

/// After any sequence of changes to a registry that was loaded from a config, the
/// config targets stand as they were declared, names and URLs of dynamic targets
/// are their own, and there are no more of them than allowed.
pub proof fn law_every_state(
    states: Seq<RegistryView>,
    list: Seq<Change>,
    results: Seq<Result<TargetView, TargetErrorView>>,
    config: Seq<TargetConfigView>,
    stored: Option<Seq<TargetView>>,
    n: int,
)
    requires
        evolves(states, list, results),
        targets::loaded(config, stored, states[0].max_dynamic) == Ok::<_, Seq<char>>(
            states[0].targets,
        ),
        0 <= n < states.len(),
    ensures
        targets::sound(states[n]),
        built_on(states[n], config),
        states[n].max_dynamic == states[0].max_dynamic,
    decreases n,
{
    if n == 0 {
        let kept = match stored {
            Some(s) => s,
            None => Seq::empty(),
        };
        lemma_merged_arranged(config, kept);
        law_load_keeps_all(config, kept, states[0].max_dynamic, states[0]);
    } else {
        law_every_state(states, list, results, config, stored, n - 1);
        assert(changes(states[n - 1], states[n], list[n - 1], results[n - 1]));
        lemma_change_sound(states[n - 1], states[n], list[n - 1], results[n - 1], config);
    }
}

/// What was persisted is reloaded, whatever happened in between: after any
/// sequence of changes to a registry that was loaded from a config, loading its
/// dynamic targets again over the same config gives back the same targets, all
/// fields and the order included.
pub proof fn law_reload_after_changes(
    states: Seq<RegistryView>,
    list: Seq<Change>,
    results: Seq<Result<TargetView, TargetErrorView>>,
    config: Seq<TargetConfigView>,
    stored: Option<Seq<TargetView>>,
)
    requires
        evolves(states, list, results),
        targets::loaded(config, stored, states[0].max_dynamic) == Ok::<_, Seq<char>>(
            states[0].targets,
        ),
    ensures
        targets::loaded(
            config,
            Some(targets::dynamic_of(states.last().targets)),
            states[0].max_dynamic,
        ) == Ok::<_, Seq<char>>(states.last().targets),
{
    law_every_state(states, list, results, config, stored, states.len() - 1);
    law_reload(states.last(), config);
}

/// A target that is added is the one asked for: it accepts exactly the prefixes
/// asked for, or the default ones where none are; it has the trimmed URL, the
/// mode, and the time it was added; a recurring target is enabled. It stands
/// behind the others, which stay as they are.
pub proof fn law_added(
    before: RegistryView,
    after: RegistryView,
    t: TargetView,
    name: Option<Seq<char>>,
    url: Seq<char>,
    allow: Option<Seq<Seq<char>>>,
    mode: Mode,
    now: u64,
)
    requires
        targets::adds(before, after, Ok(t), name, url, allow, mode, now),
    ensures
        allow is Some && allow->0.len() > 0 ==> t.allow == allow->0,
        allow is None || allow->0.len() == 0 ==> t.allow == seq![
            "http_"@,
            "beruang_"@,
            "tonggeret_"@,
            "visitors_"@,
            "unique_"@,
        ],
        t.url == text::trimmed(url),
        t.mode == mode,
        t.enabled <==> mode == Mode::Recurring,
        t.origin == Origin::Dynamic,
        t.created_at == now,
        t.id == "t"@ + text::decimal(now as nat) + (":"@ + text::decimal(before.issued as nat)),
        after.targets == before.targets.push(t),
        after.max_dynamic == before.max_dynamic,
        before.issued < u64::MAX ==> after.issued == before.issued + 1,
{
}

/// The name of a target that is added is the one asked for, trimmed; where none
/// is, or a blank one, it is the first of the URL's slug, the slug with `-2`, with
/// `-3` and so on that no target has.
pub proof fn law_added_name(
    before: RegistryView,
    after: RegistryView,
    t: TargetView,
    name: Option<Seq<char>>,
    url: Seq<char>,
    allow: Option<Seq<Seq<char>>>,
    mode: Mode,
    now: u64,
)
    requires
        targets::adds(before, after, Ok(t), name, url, allow, mode, now),
    ensures
        name is Some && text::trimmed(name->0).len() > 0 ==> t.name == text::trimmed(name->0),
        forall|i: int| 0 <= i < before.targets.len() ==> (#[trigger] before.targets[i]).name != t.name,
        name is None || text::trimmed(name->0).len() == 0 ==> t.name == urls::slug(
            text::trimmed(url),
        ) || exists|n: nat|
            n >= 2 && t.name == urls::slug(text::trimmed(url)) + "-"@ + #[trigger] text::decimal(n)
                && (exists|i: int|
                0 <= i < before.targets.len() && (#[trigger] before.targets[i]).name == urls::slug(
                    text::trimmed(url),
                )) && forall|m: nat|
                2 <= m < n ==> exists|i: int|
                    0 <= i < before.targets.len() && (#[trigger] before.targets[i]).name
                        == urls::slug(text::trimmed(url)) + "-"@ + #[trigger] text::decimal(m),
{
    let s = urls::slug(text::trimmed(url));
    if name is None || text::trimmed(name->0).len() == 0 {
        assert(targets::first_free(before.targets, s, t.name));
        let n = choose|n: nat|
            {
                &&& n >= 1
                &&& t.name == #[trigger] targets::numbered(s, n)
                &&& !targets::name_used(before.targets, t.name)
                &&& forall|m: nat|
                    1 <= m < n ==> targets::name_used(
                        before.targets,
                        #[trigger] targets::numbered(s, m),
                    )
            };
        if n >= 2 {
            assert(t.name == s + "-"@ + text::decimal(n));
            assert(targets::name_used(before.targets, targets::numbered(s, 1)));
            let x = choose|i: int|
                0 <= i < before.targets.len() && (#[trigger] before.targets[i]).name
                    == targets::numbered(s, 1);
            assert(before.targets[x].name == s);
            assert forall|m: nat| 2 <= m < n implies exists|i: int|
                0 <= i < before.targets.len() && (#[trigger] before.targets[i]).name == s + "-"@
                    + #[trigger] text::decimal(m) by {
                assert(targets::name_used(before.targets, targets::numbered(s, m)));
                let y = choose|i: int|
                    0 <= i < before.targets.len() && (#[trigger] before.targets[i]).name
                        == targets::numbered(s, m);
                assert(before.targets[y].name == s + "-"@ + text::decimal(m));
            }
        }
    }
}

/// A request to add a target is granted exactly where its URL is not blank,
/// begins with `http://` or `https://`, holds no white space and is that of no
/// target, where the cap leaves room for a dynamic target, and where no target
/// has the name asked for. Else nothing changes.
pub proof fn law_add_granted(
    before: RegistryView,
    after: RegistryView,
    r: Result<TargetView, TargetErrorView>,
    name: Option<Seq<char>>,
    url: Seq<char>,
    allow: Option<Seq<Seq<char>>>,
    mode: Mode,
    now: u64,
)
    requires
        targets::adds(before, after, r, name, url, allow, mode, now),
    ensures
        r is Err ==> after == before,
        r is Ok <==> text::trimmed(url).len() > 0 && ("http://"@.is_prefix_of(text::trimmed(url))
            || "https://"@.is_prefix_of(text::trimmed(url))) && (forall|i: int|
            0 <= i < text::trimmed(url).len() ==> !text::is_space(#[trigger] text::trimmed(url)[i]))
            && (forall|i: int|
            0 <= i < before.targets.len() ==> (#[trigger] before.targets[i]).url != text::trimmed(
                url,
            )) && targets::dynamic_of(before.targets).len() < before.max_dynamic && (name is Some
            && text::trimmed(name->0).len() > 0 ==> forall|i: int|
            0 <= i < before.targets.len() ==> (#[trigger] before.targets[i]).name != text::trimmed(
                name->0,
            )),
{
    lemma_count_is_len(before.targets);
    let u = text::trimmed(url);
    if urls::has_space(u) {
        let i = choose|i: int| 0 <= i < u.len() && text::is_space(#[trigger] u[i]);
        assert(text::is_space(text::trimmed(url)[i]));
    }
}

proof fn lemma_count_is_len(all: Seq<TargetView>)
    ensures
        targets::dynamic_count(all) == targets::dynamic_of(all).len(),
    decreases all.len(),
{
    if all.len() > 0 {
        lemma_count_is_len(all.drop_last());
    }
}

/// The dynamic targets are those whose origin is dynamic, and the swept ones
/// those that are enabled and recurring, each in order; and their number is
/// counted.
pub proof fn law_one_more_target(all: Seq<TargetView>, t: TargetView)
    ensures
        targets::dynamic_of(Seq::<TargetView>::empty()).len() == 0,
        targets::swept(Seq::<TargetView>::empty()).len() == 0,
        t.origin == Origin::Dynamic ==> targets::dynamic_of(all.push(t)) == targets::dynamic_of(
            all,
        ).push(t),
        t.origin != Origin::Dynamic ==> targets::dynamic_of(all.push(t)) == targets::dynamic_of(all),
        t.enabled && t.mode == Mode::Recurring ==> targets::swept(all.push(t)) == targets::swept(
            all,
        ).push(t),
        !(t.enabled && t.mode == Mode::Recurring) ==> targets::swept(all.push(t)) == targets::swept(
            all,
        ),
        targets::dynamic_count(all) == targets::dynamic_of(all).len(),
{
    assert(all.push(t).drop_last() =~= all);
    lemma_count_is_len(all);
}

/// Switching changes whether the target is enabled and nothing else: it is the
/// first target with that id, a dynamic one. An unknown id or a config target
/// is refused, and nothing changes.
pub proof fn law_switched(
    before: RegistryView,
    after: RegistryView,
    r: Result<TargetView, TargetErrorView>,
    id: Seq<char>,
    enabled: bool,
)
    requires
        targets::switches(before, after, r, id, enabled),
    ensures
        r is Err ==> after == before,
        r is Err ==> r->Err_0 == TargetErrorView::NotFound(id) || r->Err_0
            == TargetErrorView::Invalid("config targets cannot be changed"@),
        r matches Err(TargetErrorView::NotFound(_)) <==> forall|i: int|
            0 <= i < before.targets.len() ==> (#[trigger] before.targets[i]).id != id,
        r is Ok ==> r->Ok_0.enabled == enabled && r->Ok_0.id == id && r->Ok_0.origin
            == Origin::Dynamic && after.targets.len() == before.targets.len() && after.max_dynamic
            == before.max_dynamic && after.issued == before.issued,
        r is Ok ==> exists|i: int|
            {
                &&& 0 <= i < before.targets.len()
                &&& (#[trigger] before.targets[i]).id == id
                &&& after.targets[i] == r->Ok_0
                &&& r->Ok_0.name == before.targets[i].name
                &&& r->Ok_0.url == before.targets[i].url
                &&& r->Ok_0.allow == before.targets[i].allow
                &&& r->Ok_0.mode == before.targets[i].mode
                &&& r->Ok_0.origin == before.targets[i].origin
                &&& r->Ok_0.created_at == before.targets[i].created_at
                &&& forall|k: int|
                    0 <= k < before.targets.len() && k != i ==> #[trigger] after.targets[k]
                        == before.targets[k]
                &&& forall|k: int| 0 <= k < i ==> (#[trigger] before.targets[k]).id != id
            },
{
    lemma_find_target(before.targets, id);
    let i = targets::find_target(before.targets, id) as int;
    if i < before.targets.len() {
        assert(before.targets[i].id == id);
    }
}

/// Removing takes away the first target with that id, a dynamic one, and nothing
/// else. An unknown id or a config target is refused, and nothing changes.
pub proof fn law_removed(
    before: RegistryView,
    after: RegistryView,
    r: Result<TargetView, TargetErrorView>,
    id: Seq<char>,
)
    requires
        targets::removes(before, after, r, id),
    ensures
        r is Err ==> after == before,
        r is Err ==> r->Err_0 == TargetErrorView::NotFound(id) || r->Err_0
            == TargetErrorView::Invalid("config targets cannot be removed"@),
        r matches Err(TargetErrorView::NotFound(_)) <==> forall|i: int|
            0 <= i < before.targets.len() ==> (#[trigger] before.targets[i]).id != id,
        r is Ok ==> r->Ok_0.id == id && r->Ok_0.origin == Origin::Dynamic && after.max_dynamic
            == before.max_dynamic && after.issued == before.issued,
        r is Ok ==> exists|i: int|
            0 <= i < before.targets.len() && (#[trigger] before.targets[i]) == r->Ok_0
                && after.targets == before.targets.remove(i) && forall|k: int|
                0 <= k < i ==> (#[trigger] before.targets[k]).id != id,
{
    lemma_find_target(before.targets, id);
    let i = targets::find_target(before.targets, id) as int;
    if i < before.targets.len() {
        assert(before.targets[i].id == id);
    }
}

/// A target is found by its URL exactly where one has it, and it is the first.
pub proof fn law_found_by_url(all: Seq<TargetView>, url: Seq<char>)
    ensures
        targets::with_url(all, url) is None <==> forall|i: int|
            0 <= i < all.len() ==> (#[trigger] all[i]).url != url,
        targets::with_url(all, url) is Some ==> exists|i: int|
            0 <= i < all.len() && targets::with_url(all, url) == Some(#[trigger] all[i])
                && all[i].url == url && forall|k: int|
                0 <= k < i ==> (#[trigger] all[k]).url != url,
    decreases all.len(),
{
    if all.len() > 0 && all[0].url != url {
        let rest = all.subrange(1, all.len() as int);
        law_found_by_url(rest, url);
        if targets::with_url(rest, url) is None {
            assert forall|i: int| 0 <= i < all.len() implies (#[trigger] all[i]).url != url by {
                if i > 0 {
                    assert(rest[i - 1] == all[i]);
                }
            }
        } else {
            let i = choose|i: int|
                0 <= i < rest.len() && targets::with_url(rest, url) == Some(#[trigger] rest[i])
                    && rest[i].url == url && forall|k: int|
                    0 <= k < i ==> (#[trigger] rest[k]).url != url;
            assert(all[i + 1] == rest[i]);
            assert forall|k: int| 0 <= k < i + 1 implies (#[trigger] all[k]).url != url by {
                if k > 0 {
                    assert(rest[k - 1] == all[k]);
                }
            }
        }
    } else if all.len() > 0 {
        assert(all[0].url == url);
    }
}

/// A loaded registry holds every config target and behind them every stored one,
/// each with all that it was declared or stored with; config targets are
/// enabled, recurring and made at time 0, stored ones are dynamic.
pub proof fn law_loaded(
    config: Seq<TargetConfigView>,
    stored: Seq<TargetView>,
    max_dynamic: usize,
    all: Seq<TargetView>,
    i: int,
)
    requires
        targets::loaded(config, Some(stored), max_dynamic) == Ok::<_, Seq<char>>(all),
    ensures
        all.len() == config.len() + stored.len(),
        0 <= i < config.len() ==> all[i].id == "cfg:"@ + config[i].name && all[i].name
            == config[i].name && all[i].url == config[i].url && all[i].allow == config[i].allow
            && all[i].enabled && all[i].origin == Origin::Config && all[i].mode == Mode::Recurring
            && all[i].created_at == 0,
        0 <= i < stored.len() ==> ({
            let t = all[config.len() + i];
            t.id == stored[i].id && t.name == stored[i].name && t.url == stored[i].url && t.allow
                == stored[i].allow && t.enabled == stored[i].enabled && t.origin == Origin::Dynamic
                && t.mode == stored[i].mode && t.created_at == stored[i].created_at
        }),
        targets::loaded(config, None, max_dynamic) == targets::loaded(
            config,
            Some(Seq::<TargetView>::empty()),
            max_dynamic,
        ),
{
    lemma_merged(config, stored);
}

/// Loading succeeds exactly where no stored target has the name or the URL of a
/// config target or of one stored before it, and there are no more of them than
/// allowed.
pub proof fn law_load_granted(
    config: Seq<TargetConfigView>,
    stored: Seq<TargetView>,
    max_dynamic: usize,
)
    ensures
        targets::loaded(config, Some(stored), max_dynamic) is Ok <==> stored.len() <= max_dynamic && (
        forall|i: int, k: int|
            0 <= i < stored.len() && 0 <= k < config.len() ==> (#[trigger] stored[i]).name != (
            #[trigger] config[k]).name && stored[i].url != config[k].url) && (forall|
            i: int,
            k: int,
        |
            0 <= k < i < stored.len() ==> (#[trigger] stored[i]).name != (#[trigger] stored[k]).name
                && stored[i].url != stored[k].url),
{
    lemma_merged_granted(config, stored);
    if targets::merged(config, stored) is Ok {
        lemma_merged_count(config, stored);
    }
}

proof fn lemma_merged_count(config: Seq<TargetConfigView>, stored: Seq<TargetView>)
    requires
        targets::merged(config, stored) is Ok,
    ensures
        targets::dynamic_count(targets::merged(config, stored)->Ok_0) == stored.len(),
    decreases stored.len(),
{
    if stored.len() == 0 {
        targets::lemma_config_arranged(config);
    } else {
        lemma_merged_count(config, stored.drop_last());
        let before = targets::merged(config, stored.drop_last())->Ok_0;
        let t = targets::stored_target(stored.last());
        assert(before.push(t).drop_last() =~= before);
    }
}

proof fn lemma_merged_granted(config: Seq<TargetConfigView>, stored: Seq<TargetView>)
    ensures
        targets::merged(config, stored) is Ok <==> (forall|i: int, k: int|
            0 <= i < stored.len() && 0 <= k < config.len() ==> (#[trigger] stored[i]).name != (
            #[trigger] config[k]).name && stored[i].url != config[k].url) && (forall|
            i: int,
            k: int,
        |
            0 <= k < i < stored.len() ==> (#[trigger] stored[i]).name != (#[trigger] stored[k]).name
                && stored[i].url != stored[k].url),
    decreases stored.len(),
{
    if stored.len() > 0 {
        let init = stored.drop_last();
        let n = stored.len() - 1;
        let last = stored[n];
        assert(stored.last() == last);
        lemma_merged_granted(config, init);
        if targets::merged(config, init) is Ok {
            let all = targets::merged(config, init)->Ok_0;
            lemma_merged(config, init);
            let c = config.len() as int;
            assert forall|x: int| 0 <= x < all.len() implies (#[trigger] all[x]).name == (if x < c {
                config[x].name
            } else {
                init[x - c].name
            }) && all[x].url == (if x < c {
                config[x].url
            } else {
                init[x - c].url
            }) by {}
            if targets::merged(config, stored) is Ok {
                assert forall|i: int, k: int| 0 <= i < stored.len() && 0 <= k < config.len() implies (
                #[trigger] stored[i]).name != (#[trigger] config[k]).name && stored[i].url
                    != config[k].url by {
                    if i == n {
                        assert(all[k].name != last.name && all[k].url != last.url);
                    } else {
                        assert(init[i] == stored[i]);
                    }
                }
                assert forall|i: int, k: int| 0 <= k < i < stored.len() implies (
                #[trigger] stored[i]).name != (#[trigger] stored[k]).name && stored[i].url
                    != stored[k].url by {
                    assert(init[k] == stored[k]);
                    if i == n {
                        assert(all[c + k].name != last.name && all[c + k].url != last.url);
                    } else {
                        assert(init[i] == stored[i]);
                    }
                }
            } else {
                let x = choose|x: int|
                    0 <= x < all.len() && ((#[trigger] all[x]).name == last.name || all[x].url
                        == last.url);
                assert(0 <= x < all.len() && (all[x].name == last.name || all[x].url == last.url)) by {
                    if targets::url_used(all, last.url) {
                        let y = choose|y: int|
                            0 <= y < all.len() && (#[trigger] all[y]).url == last.url;
                        assert(all[y].url == last.url);
                    } else {
                        let y = choose|y: int|
                            0 <= y < all.len() && (#[trigger] all[y]).name == last.name;
                        assert(all[y].name == last.name);
                    }
                }
                if x >= c {
                    assert(init[x - c] == stored[x - c]);
                    assert(stored[n].name == stored[x - c].name || stored[n].url
                        == stored[x - c].url);
                } else {
                    assert(stored[n].name == config[x].name || stored[n].url == config[x].url);
                }
            }
        } else {
            if forall|i: int, k: int|
                0 <= i < stored.len() && 0 <= k < config.len() ==> (#[trigger] stored[i]).name != (
                #[trigger] config[k]).name && stored[i].url != config[k].url {
                assert forall|i: int, k: int| 0 <= i < init.len() && 0 <= k < config.len() implies (
                #[trigger] init[i]).name != (#[trigger] config[k]).name && init[i].url
                    != config[k].url by {
                    assert(init[i] == stored[i]);
                }
                if forall|i: int, k: int|
                    0 <= k < i < stored.len() ==> (#[trigger] stored[i]).name != (
                    #[trigger] stored[k]).name && stored[i].url != stored[k].url {
                    assert forall|i: int, k: int| 0 <= k < i < init.len() implies (
                    #[trigger] init[i]).name != (#[trigger] init[k]).name && init[i].url
                        != init[k].url by {
                        assert(init[i] == stored[i] && init[k] == stored[k]);
                    }
                }
            }
        }
    }
}

/// A target is what its fields say.
pub proof fn law_target_view(t: Target)
    ensures
        t.deep_view().id == t.id@,
        t.deep_view().name == t.name@,
        t.deep_view().url == t.url@,
        t.deep_view().enabled == t.enabled,
        t.deep_view().origin == t.origin,
        t.deep_view().mode == t.mode,
        t.deep_view().created_at == t.created_at,
        t.deep_view().allow.len() == t.allow@.len(),
        forall|i: int| 0 <= i < t.allow@.len() ==> #[trigger] t.deep_view().allow[i] == t.allow@[i]@,
{
}

/// A refused request to add a target is told the first thing that is wrong: the
/// URL itself, a URL that is taken, the cap, a name that is taken.
pub proof fn law_add_refused(r: RegistryView, name: Option<Seq<char>>, url: Seq<char>)
    ensures
        ({
            let u = text::trimmed(url);
            let spaced = exists|i: int| 0 <= i < u.len() && text::is_space(#[trigger] u[i]);
            let taken = exists|i: int|
                0 <= i < r.targets.len() && (#[trigger] r.targets[i]).url == u;
            let used = name is Some && text::trimmed(name->0).len() > 0 && exists|i: int|
                0 <= i < r.targets.len() && (#[trigger] r.targets[i]).name == text::trimmed(
                    name->0,
                );
            let e = targets::add_fault(r, name, url);
            if u.len() == 0 {
                e == Some(TargetErrorView::Invalid("url must not be empty"@))
            } else if !"http://"@.is_prefix_of(u) && !"https://"@.is_prefix_of(u) {
                e == Some(TargetErrorView::Invalid("url must start with http(s)://: "@ + u))
            } else if spaced {
                e == Some(TargetErrorView::Invalid("url has whitespace: "@ + u))
            } else if taken {
                e == Some(TargetErrorView::Invalid("url already configured: "@ + u))
            } else if targets::dynamic_of(r.targets).len() >= r.max_dynamic {
                e == Some(
                    TargetErrorView::Limit(
                        "dynamic target limit reached ("@ + text::decimal(r.max_dynamic as nat)
                            + ")"@,
                    ),
                )
            } else if used {
                e == Some(
                    TargetErrorView::Invalid("name already used: "@ + text::trimmed(name->0)),
                )
            } else {
                e is None
            }
        }),
{
    lemma_count_is_len(r.targets);
}

/// A load that fails tells the first stored target that conflicts, or how many
/// there are for the cap.
pub proof fn law_load_refused(
    config: Seq<TargetConfigView>,
    stored: Seq<TargetView>,
    t: TargetView,
    max_dynamic: usize,
)
    ensures
        targets::merged(config, stored) is Err ==> targets::merged(config, stored.push(t))
            == targets::merged(config, stored),
        targets::merged(config, stored) is Ok && targets::merged(config, stored.push(t)) is Err
            ==> targets::merged(config, stored.push(t)) == Err::<Seq<TargetView>, _>(
            "dynamic target "@ + t.name + " conflicts with a config target"@,
        ),
        targets::merged(config, stored) is Err ==> targets::loaded(
            config,
            Some(stored),
            max_dynamic,
        ) == targets::merged(config, stored),
        targets::merged(config, stored) is Ok && stored.len() > max_dynamic ==> targets::loaded(
            config,
            Some(stored),
            max_dynamic,
        ) == Err::<Seq<TargetView>, _>(
            text::decimal(stored.len()) + " dynamic targets exceed max_dynamic_targets "@
                + text::decimal(max_dynamic as nat),
        ),
{
    assert(stored.push(t).drop_last() =~= stored);
    if targets::merged(config, stored) is Ok {
        lemma_merged_count(config, stored);
    }
}

}
