//! Runtime target registry: config targets plus dynamically added ones.
//!
//! Config targets are immutable. Dynamic targets are added and removed at run
//! time; they are what is persisted and reloaded.
//!
//! Two modes: `recurring` targets are swept by the periodic executor, `once`
//! targets run only when they are enqueued.
//!
//! Target names are the `scrape_target` label and must stay unique. URLs are
//! deduplicated (exact, trimmed) against both config and dynamic targets.
use vstd::prelude::*;
use vstd::string::*;
use crate::clock;
use crate::config;
use crate::config::{TargetConfig, TargetConfigView};
use crate::labels;
use crate::numbers;
use crate::text;
use crate::urls;
pub use crate::clock::now_unix;
pub use crate::config::DEFAULT_ALLOW_PREFIXES;
pub use crate::urls::validate_url;

verus! {

/// Where a target came from.
#[derive(Debug, Clone, Copy, PartialEq, Eq, Structural)]
pub enum Origin {
    /// Declared in the config; not removable.
    Config,
    /// Added through the control API; persisted.
    Dynamic,
}

/// How a target is scheduled.
#[derive(Debug, Clone, Copy, PartialEq, Eq, Structural)]
pub enum Mode {
    /// Swept every `interval_secs`.
    Recurring,
    /// Run only when enqueued (manual).
    Once,
}

impl Default for Mode {
    fn default() -> (r: Self)
        ensures
            r == Mode::Recurring,
    {
        Mode::Recurring
    }
}

/// One scrape target in the runtime registry.
#[derive(Debug, Clone)]
pub struct Target {
    /// Stable id (`cfg:<name>` for config; generated for dynamic).
    pub id: String,
    /// `scrape_target` label; unique across the registry.
    pub name: String,
    /// `/metrics` URL.
    pub url: String,
    /// Accepted series-name prefixes.
    pub allow: Vec<String>,
    /// Included in the periodic sweep (dynamic only can change).
    pub enabled: bool,
    /// Config or dynamic.
    pub origin: Origin,
    /// Recurring or once.
    pub mode: Mode,
    /// Unix seconds when added (0 for config).
    pub created_at: u64,
}

/// What a [`Target`] holds.
#[verifier::ext_equal]
pub struct TargetView {
    pub id: Seq<char>,
    pub name: Seq<char>,
    pub url: Seq<char>,
    pub allow: Seq<Seq<char>>,
    pub enabled: bool,
    pub origin: Origin,
    pub mode: Mode,
    pub created_at: u64,
}

impl DeepView for Target {
    type V = TargetView;

    open spec fn deep_view(&self) -> TargetView {
        TargetView {
            id: self.id@,
            name: self.name@,
            url: self.url@,
            allow: self.allow.deep_view(),
            enabled: self.enabled,
            origin: self.origin,
            mode: self.mode,
            created_at: self.created_at,
        }
    }
}

impl Target {
    /// Scrape-pipeline view of this target.
    #[must_use]
    pub fn scrape_config(&self) -> (r: TargetConfig)
        ensures
            r.deep_view() == (TargetConfigView {
                name: self.name@,
                url: self.url@,
                allow: self.allow.deep_view(),
            }),
    {
        TargetConfig {
            name: self.name.clone(),
            url: self.url.clone(),
            allow: labels::clone_texts(&self.allow),
        }
    }

    /// A copy of this target.
    pub fn copy(&self) -> (r: Self)
        ensures
            r.deep_view() == self.deep_view(),
    {
        Target {
            id: self.id.clone(),
            name: self.name.clone(),
            url: self.url.clone(),
            allow: labels::clone_texts(&self.allow),
            enabled: self.enabled,
            origin: self.origin,
            mode: self.mode,
            created_at: self.created_at,
        }
    }
}

/// Registry mutation failures.
#[derive(Debug)]
pub enum TargetError {
    /// Bad URL, duplicate, or a config target.
    Invalid(String),
    /// No target with that id.
    NotFound(String),
    /// Dynamic-target cap reached.
    Limit(String),
    /// State file could not be written.
    Persist(String),
}

/// What a [`TargetError`] says.
pub enum TargetErrorView {
    Invalid(Seq<char>),
    NotFound(Seq<char>),
    Limit(Seq<char>),
    Persist(Seq<char>),
}

impl DeepView for TargetError {
    type V = TargetErrorView;

    open spec fn deep_view(&self) -> TargetErrorView {
        match self {
            TargetError::Invalid(s) => TargetErrorView::Invalid(s@),
            TargetError::NotFound(s) => TargetErrorView::NotFound(s@),
            TargetError::Limit(s) => TargetErrorView::Limit(s@),
            TargetError::Persist(s) => TargetErrorView::Persist(s@),
        }
    }
}

impl TargetError {
    /// What went wrong.
    pub fn message(&self) -> (r: String)
        ensures
            r@ == error_text(self.deep_view()),
    {
        match self {
            TargetError::Invalid(s) => s.clone(),
            TargetError::NotFound(s) => text::cat("unknown target ", s.as_str()),
            TargetError::Limit(s) => s.clone(),
            TargetError::Persist(s) => text::cat("persist targets: ", s.as_str()),
        }
    }
}

/// The message of an error.
pub open spec fn error_text(e: TargetErrorView) -> Seq<char> {
    match e {
        TargetErrorView::Invalid(s) => s,
        TargetErrorView::NotFound(s) => "unknown target "@ + s,
        TargetErrorView::Limit(s) => s,
        TargetErrorView::Persist(s) => "persist targets: "@ + s,
    }
}

/// Config and dynamic targets.
#[derive(Debug)]
pub struct TargetRegistry {
    max_dynamic: usize,
    targets: Vec<Target>,
    issued: u64,
}

/// What a [`TargetRegistry`] holds; `issued` is the number that the next
/// generated id takes.
#[verifier::ext_equal]
pub struct RegistryView {
    pub max_dynamic: usize,
    pub targets: Seq<TargetView>,
    pub issued: u64,
}

impl View for TargetRegistry {
    type V = RegistryView;

    closed spec fn view(&self) -> RegistryView {
        RegistryView {
            max_dynamic: self.max_dynamic,
            targets: self.targets.deep_view(),
            issued: self.issued,
        }
    }
}

/// How many of `targets` are dynamic.
pub open spec fn dynamic_count(targets: Seq<TargetView>) -> nat
    decreases targets.len(),
{
    if targets.len() == 0 {
        0
    } else {
        dynamic_count(targets.drop_last()) + if targets.last().origin == Origin::Dynamic {
            1nat
        } else {
            0
        }
    }
}

/// The dynamic ones of `targets`, in order.
pub open spec fn dynamic_of(targets: Seq<TargetView>) -> Seq<TargetView>
    decreases targets.len(),
{
    if targets.len() == 0 {
        Seq::empty()
    } else if targets.last().origin == Origin::Dynamic {
        dynamic_of(targets.drop_last()).push(targets.last())
    } else {
        dynamic_of(targets.drop_last())
    }
}

/// The targets that the periodic sweep covers, in order.
pub open spec fn swept(targets: Seq<TargetView>) -> Seq<TargetView>
    decreases targets.len(),
{
    if targets.len() == 0 {
        Seq::empty()
    } else if targets.last().enabled && targets.last().mode == Mode::Recurring {
        swept(targets.drop_last()).push(targets.last())
    } else {
        swept(targets.drop_last())
    }
}

/// Some target has that name.
pub open spec fn name_used(targets: Seq<TargetView>, name: Seq<char>) -> bool {
    exists|i: int| 0 <= i < targets.len() && (#[trigger] targets[i]).name == name
}

/// Some target has that URL.
pub open spec fn url_used(targets: Seq<TargetView>, url: Seq<char>) -> bool {
    exists|i: int| 0 <= i < targets.len() && (#[trigger] targets[i]).url == url
}

/// Config targets come first, and no dynamic target shares its name or URL with
/// another target.
pub open spec fn arranged(targets: Seq<TargetView>) -> bool {
    &&& forall|i: int, j: int|
        0 <= i < j < targets.len() && (#[trigger] targets[i]).origin == Origin::Dynamic ==> (
        #[trigger] targets[j]).origin == Origin::Dynamic
    &&& forall|i: int, j: int|
        0 <= i < j < targets.len() && (#[trigger] targets[j]).origin == Origin::Dynamic ==> (
        #[trigger] targets[i]).name != targets[j].name && targets[i].url != targets[j].url
}

/// The registry keeps its promises: its targets are arranged, and there are no
/// more dynamic ones than allowed.
pub open spec fn sound(r: RegistryView) -> bool {
    arranged(r.targets) && dynamic_count(r.targets) <= r.max_dynamic
}

/// A config target as it stands in the registry.
pub open spec fn config_target(t: TargetConfigView) -> TargetView {
    TargetView {
        id: "cfg:"@ + t.name,
        name: t.name,
        url: t.url,
        allow: t.allow,
        enabled: true,
        origin: Origin::Config,
        mode: Mode::Recurring,
        created_at: 0,
    }
}

/// The config targets as they stand in the registry.
pub open spec fn config_targets(config: Seq<TargetConfigView>) -> Seq<TargetView> {
    config.map_values(|t: TargetConfigView| config_target(t))
}

/// A stored target as it stands in the registry: dynamic, whatever it says.
pub open spec fn stored_target(t: TargetView) -> TargetView {
    TargetView { origin: Origin::Dynamic, ..t }
}

/// The config targets and behind them the stored ones, or the message why a
/// stored one cannot stand there: its name or URL is taken.
pub open spec fn merged(config: Seq<TargetConfigView>, stored: Seq<TargetView>) -> Result<
    Seq<TargetView>,
    Seq<char>,
>
    decreases stored.len(),
{
    if stored.len() == 0 {
        Ok(config_targets(config))
    } else {
        match merged(config, stored.drop_last()) {
            Err(e) => Err(e),
            Ok(all) => if url_used(all, stored.last().url) || name_used(all, stored.last().name) {
                Err(
                    "dynamic target "@ + stored.last().name + " conflicts with a config target"@,
                )
            } else {
                Ok(all.push(stored_target(stored.last())))
            },
        }
    }
}

/// The targets of a fresh registry, or the message why there is none.
pub open spec fn loaded(
    config: Seq<TargetConfigView>,
    stored: Option<Seq<TargetView>>,
    max_dynamic: usize,
) -> Result<Seq<TargetView>, Seq<char>> {
    match merged(
        config,
        match stored {
            Some(s) => s,
            None => Seq::empty(),
        },
    ) {
        Err(e) => Err(e),
        Ok(all) => if dynamic_count(all) > max_dynamic {
            Err(
                text::decimal(dynamic_count(all))
                    + " dynamic targets exceed max_dynamic_targets "@ + text::decimal(
                    max_dynamic as nat,
                ),
            )
        } else {
            Ok(all)
        },
    }
}

/// Whether one of `targets` has that name.
fn uses_name(targets: &Vec<Target>, name: &str) -> (r: bool)
    ensures
        r == name_used(targets.deep_view(), name@),
{
    let mut i: usize = 0;
    while i < targets.len()
        invariant
            i <= targets.len(),
            forall|k: int| 0 <= k < i ==> (#[trigger] targets.deep_view()[k]).name != name@,
        decreases targets.len() - i,
    {
        assert(targets.deep_view()[i as int].name == targets@[i as int].name@);
        if text::same(targets[i].name.as_str(), name) {
            return true;
        }
        i = i + 1;
    }
    false
}

/// Whether one of `targets` has that URL.
fn uses_url(targets: &Vec<Target>, url: &str) -> (r: bool)
    ensures
        r == url_used(targets.deep_view(), url@),
{
    let mut i: usize = 0;
    while i < targets.len()
        invariant
            i <= targets.len(),
            forall|k: int| 0 <= k < i ==> (#[trigger] targets.deep_view()[k]).url != url@,
        decreases targets.len() - i,
    {
        assert(targets.deep_view()[i as int].url == targets@[i as int].url@);
        if text::same(targets[i].url.as_str(), url) {
            return true;
        }
        i = i + 1;
    }
    false
}

/// How many of `targets` are dynamic.
fn count_dynamic(targets: &Vec<Target>) -> (r: usize)
    ensures
        r == dynamic_count(targets.deep_view()),
{
    let mut n: usize = 0;
    let mut i: usize = 0;
    let ghost all = targets.deep_view();
    while i < targets.len()
        invariant
            n <= i <= targets.len(),
            all == targets.deep_view(),
            n == dynamic_count(all.subrange(0, i as int)),
        decreases targets.len() - i,
    {
        assert(all.subrange(0, i + 1).drop_last() =~= all.subrange(0, i as int));
        assert(all.subrange(0, i + 1).last() == targets@[i as int].deep_view());
        if targets[i].origin == Origin::Dynamic {
            n = n + 1;
        }
        i = i + 1;
    }
    assert(all.subrange(0, i as int) =~= all);
    n
}

/// The config targets as they stand in the registry.
fn from_config(config: &Vec<TargetConfig>) -> (r: Vec<Target>)
    ensures
        r.deep_view() == config_targets(config.deep_view()),
{
    let mut r: Vec<Target> = Vec::new();
    let mut i: usize = 0;
    while i < config.len()
        invariant
            i <= config.len(),
            r.len() == i,
            forall|k: int|
                0 <= k < i ==> (#[trigger] r@[k]).deep_view() == config_target(
                    config@[k].deep_view(),
                ),
        decreases config.len() - i,
    {
        r.push(
            Target {
                id: text::cat("cfg:", config[i].name.as_str()),
                name: config[i].name.clone(),
                url: config[i].url.clone(),
                allow: labels::clone_texts(&config[i].allow),
                enabled: true,
                origin: Origin::Config,
                mode: Mode::Recurring,
                created_at: 0,
            },
        );
        i = i + 1;
    }
    assert(r.deep_view() =~= config_targets(config.deep_view()));
    r
}

/// The `n`th name to try for a slug: the slug itself, then `-2`, `-3` and so on
/// behind it.
pub open spec fn numbered(slug: Seq<char>, n: nat) -> Seq<char> {
    if n <= 1 {
        slug
    } else {
        slug + "-"@ + text::decimal(n)
    }
}

/// `name` is the first name for the slug that no target has.
pub open spec fn first_free(targets: Seq<TargetView>, slug: Seq<char>, name: Seq<char>) -> bool {
    exists|n: nat|
        {
            &&& n >= 1
            &&& name == #[trigger] numbered(slug, n)
            &&& !name_used(targets, name)
            &&& forall|m: nat| 1 <= m < n ==> name_used(targets, #[trigger] numbered(slug, m))
        }
}

proof fn lemma_numbered_injective(slug: Seq<char>, m: nat, n: nat)
    requires
        1 <= m < n,
    ensures
        numbered(slug, m) != numbered(slug, n),
{
    reveal_strlit("-");
    let x = numbered(slug, m);
    let y = numbered(slug, n);
    if x == y {
        let k = slug.len() as int + 1;
        assert(y.subrange(k, y.len() as int) =~= text::decimal(n));
        if m > 1 {
            assert(x.subrange(k, x.len() as int) =~= text::decimal(m));
            text::lemma_decimal_injective(m, n);
        }
    }
}

/// Which target has the `n`th name for the slug.
spec fn holder(targets: Seq<TargetView>, slug: Seq<char>, n: nat) -> int {
    choose|i: int| 0 <= i < targets.len() && (#[trigger] targets[i]).name == numbered(slug, n)
}

proof fn lemma_names_run_out(targets: Seq<TargetView>, slug: Seq<char>, n: nat)
    requires
        forall|m: nat| 1 <= m <= n ==> name_used(targets, #[trigger] numbered(slug, m)),
    ensures
        n <= targets.len(),
{
    let numbers = Set::<int>::new(|m: int| 1 <= m <= n);
    let places = Set::<int>::new(|i: int| 0 <= i < targets.len());
    vstd::set_lib::lemma_int_range(1, n as int + 1);
    vstd::set_lib::lemma_int_range(0, targets.len() as int);
    assert(numbers =~= vstd::set_lib::set_int_range(1, n as int + 1));
    assert(places =~= vstd::set_lib::set_int_range(0, targets.len() as int));
    let f = |m: int| holder(targets, slug, m as nat);
    assert forall|m: int| #[trigger] numbers.contains(m) implies places.contains(f(m))
        && targets[f(m)].name == numbered(slug, m as nat) by {
        assert(name_used(targets, numbered(slug, m as nat)));
    }
    assert(vstd::relations::injective_on(f, numbers)) by {
        assert forall|a: int, b: int|
            numbers.contains(a) && numbers.contains(b) && #[trigger] f(a) == #[trigger] f(
                b,
            ) implies a == b by {
            if a < b {
                lemma_numbered_injective(slug, a as nat, b as nat);
            } else if b < a {
                lemma_numbered_injective(slug, b as nat, a as nat);
            }
        }
    }
    vstd::set_lib::lemma_map_size(numbers, numbers.map(f), f);
    assert(numbers.map(f).subset_of(places));
    vstd::set_lib::lemma_len_subset(numbers.map(f), places);
}

/// Ensure a slug is unique among `targets`, suffixing `-2`, `-3`, and so on.
fn unique_slug(targets: &Vec<Target>, slug: &str) -> (r: String)
    ensures
        first_free(targets.deep_view(), slug@, r@),
{
    let ghost all = targets.deep_view();
    let mut candidate: String = slug.to_string();
    let mut n: u128 = 1;
    while uses_name(targets, candidate.as_str())
        invariant
            all == targets.deep_view(),
            1 <= n <= targets.len() + 1,
            candidate@ == numbered(slug@, n as nat),
            forall|m: nat| 1 <= m < n ==> name_used(all, #[trigger] numbered(slug@, m)),
        decreases targets.len() + 1 - n,
    {
        proof {
            assert forall|m: nat| 1 <= m <= n implies name_used(
                all,
                #[trigger] numbered(slug@, m),
            ) by {}
            lemma_names_run_out(all, slug@, n as nat);
        }
        n = n + 1;
        candidate = text::cat3(slug, "-", text::number(n).as_str());
    }
    assert(1 <= n && candidate@ == numbered(slug@, n as nat));
    candidate
}

/// The id generated at the time `now` with number `n`.
pub open spec fn target_id(now: u64, n: u64) -> Seq<char> {
    "t"@ + text::decimal(now as nat) + (":"@ + text::decimal(n as nat))
}

/// The name asked for: trimmed, and none where it is blank.
pub open spec fn wanted_name(name: Option<Seq<char>>) -> Option<Seq<char>> {
    match name {
        Some(n) => if text::trimmed(n).len() > 0 {
            Some(text::trimmed(n))
        } else {
            None
        },
        None => None,
    }
}

/// Why a dynamic target cannot be added.
pub open spec fn add_fault(r: RegistryView, name: Option<Seq<char>>, url: Seq<char>) -> Option<
    TargetErrorView,
> {
    let u = text::trimmed(url);
    match urls::url_fault(url) {
        Some(why) => Some(TargetErrorView::Invalid(why)),
        None => if url_used(r.targets, u) {
            Some(TargetErrorView::Invalid("url already configured: "@ + u))
        } else if dynamic_count(r.targets) >= r.max_dynamic {
            Some(
                TargetErrorView::Limit(
                    "dynamic target limit reached ("@ + text::decimal(r.max_dynamic as nat) + ")"@,
                ),
            )
        } else {
            match wanted_name(name) {
                Some(n) => if name_used(r.targets, n) {
                    Some(TargetErrorView::Invalid("name already used: "@ + n))
                } else {
                    None
                },
                None => None,
            }
        },
    }
}

/// `given` is the name of a target that is added: the one asked for, or else
/// the first free one for the URL's slug.
pub open spec fn names(
    r: RegistryView,
    name: Option<Seq<char>>,
    url: Seq<char>,
    given: Seq<char>,
) -> bool {
    match wanted_name(name) {
        Some(n) => given == n,
        None => first_free(r.targets, urls::slug(text::trimmed(url)), given),
    }
}

/// The prefixes asked for, and the default ones where none are.
pub open spec fn allow_or_default(allow: Option<Seq<Seq<char>>>) -> Seq<Seq<char>> {
    match allow {
        Some(a) => if a.len() > 0 {
            a
        } else {
            config::allow_prefixes()
        },
        None => config::allow_prefixes(),
    }
}

/// `t` is the target that a request to add one makes.
pub open spec fn is_new_target(
    r: RegistryView,
    name: Option<Seq<char>>,
    url: Seq<char>,
    allow: Option<Seq<Seq<char>>>,
    mode: Mode,
    now: u64,
    t: TargetView,
) -> bool {
    &&& names(r, name, url, t.name)
    &&& t == TargetView {
        id: target_id(now, r.issued),
        name: t.name,
        url: text::trimmed(url),
        allow: allow_or_default(allow),
        enabled: mode == Mode::Recurring,
        origin: Origin::Dynamic,
        mode,
        created_at: now,
    }
}

/// What a request to add a dynamic target does: it is refused and nothing
/// changes, or the new target stands behind the others.
pub open spec fn adds(
    before: RegistryView,
    after: RegistryView,
    r: Result<TargetView, TargetErrorView>,
    name: Option<Seq<char>>,
    url: Seq<char>,
    allow: Option<Seq<Seq<char>>>,
    mode: Mode,
    now: u64,
) -> bool {
    match r {
        Ok(t) => {
            &&& add_fault(before, name, url) is None
            &&& is_new_target(before, name, url, allow, mode, now, t)
            &&& after == RegistryView {
                targets: before.targets.push(t),
                issued: numbers::next_number(before.issued),
                ..before
            }
        },
        Err(e) => add_fault(before, name, url) == Some(e) && after == before,
    }
}

/// The targets and errors of a result.
pub open spec fn target_result(r: Result<Target, TargetError>) -> Result<
    TargetView,
    TargetErrorView,
> {
    match r {
        Ok(t) => Ok(t.deep_view()),
        Err(e) => Err(e.deep_view()),
    }
}

/// Where the first target with that id stands, or the number of targets.
pub open spec fn find_target(targets: Seq<TargetView>, id: Seq<char>) -> nat
    decreases targets.len(),
{
    if targets.len() == 0 || targets[0].id == id {
        0
    } else {
        1 + find_target(targets.subrange(1, targets.len() as int), id)
    }
}

/// Why the target with that id cannot be changed; `refusal` is what is said of a
/// config target.
pub open spec fn change_fault(targets: Seq<TargetView>, id: Seq<char>, refusal: Seq<char>) -> Option<
    TargetErrorView,
> {
    let i = find_target(targets, id) as int;
    if i == targets.len() {
        Some(TargetErrorView::NotFound(id))
    } else if targets[i].origin == Origin::Config {
        Some(TargetErrorView::Invalid(refusal))
    } else {
        None
    }
}

/// What a request to enable or disable a target does.
pub open spec fn switches(
    before: RegistryView,
    after: RegistryView,
    r: Result<TargetView, TargetErrorView>,
    id: Seq<char>,
    enabled: bool,
) -> bool {
    let i = find_target(before.targets, id) as int;
    let fault = change_fault(before.targets, id, "config targets cannot be changed"@);
    match r {
        Ok(t) => {
            &&& fault is None
            &&& t == TargetView { enabled, ..before.targets[i] }
            &&& after == RegistryView { targets: before.targets.update(i, t), ..before }
        },
        Err(e) => fault == Some(e) && after == before,
    }
}

/// What a request to remove a target does.
pub open spec fn removes(
    before: RegistryView,
    after: RegistryView,
    r: Result<TargetView, TargetErrorView>,
    id: Seq<char>,
) -> bool {
    let i = find_target(before.targets, id) as int;
    let fault = change_fault(before.targets, id, "config targets cannot be removed"@);
    match r {
        Ok(t) => {
            &&& fault is None
            &&& t == before.targets[i]
            &&& after == RegistryView { targets: before.targets.remove(i), ..before }
        },
        Err(e) => fault == Some(e) && after == before,
    }
}

/// The first target with that URL.
pub open spec fn with_url(targets: Seq<TargetView>, url: Seq<char>) -> Option<TargetView>
    decreases targets.len(),
{
    if targets.len() == 0 {
        None
    } else if targets[0].url == url {
        Some(targets[0])
    } else {
        with_url(targets.subrange(1, targets.len() as int), url)
    }
}

proof fn lemma_find_target_at(targets: Seq<TargetView>, id: Seq<char>, i: int)
    requires
        0 <= i <= targets.len(),
        forall|k: int| 0 <= k < i ==> (#[trigger] targets[k]).id != id,
        i < targets.len() ==> targets[i].id == id,
    ensures
        find_target(targets, id) == i,
    decreases targets.len(),
{
    if i > 0 {
        let rest = targets.subrange(1, targets.len() as int);
        assert forall|k: int| 0 <= k < i - 1 implies (#[trigger] rest[k]).id != id by {
            assert(rest[k] == targets[k + 1]);
        }
        assert(targets[0].id != id);
        lemma_find_target_at(rest, id, i - 1);
    }
}

/// Where the first target with that id stands, or the number of targets.
fn position(targets: &Vec<Target>, id: &str) -> (r: usize)
    ensures
        r == find_target(targets.deep_view(), id@),
        r <= targets.len(),
{
    let mut i: usize = 0;
    while i < targets.len() && !text::same(targets[i].id.as_str(), id)
        invariant
            i <= targets.len(),
            forall|k: int| 0 <= k < i ==> (#[trigger] targets.deep_view()[k]).id != id@,
        decreases targets.len() - i,
    {
        assert(targets.deep_view()[i as int].id == targets@[i as int].id@);
        i = i + 1;
    }
    proof {
        if i < targets.len() {
            assert(targets.deep_view()[i as int].id == targets@[i as int].id@);
        }
        lemma_find_target_at(targets.deep_view(), id@, i as int);
    }
    i
}

proof fn lemma_merge_stops(config: Seq<TargetConfigView>, stored: Seq<TargetView>, i: int)
    requires
        0 <= i < stored.len(),
        merged(config, stored.subrange(0, i + 1)) is Err,
    ensures
        merged(config, stored) == merged(config, stored.subrange(0, i + 1)),
    decreases stored.len() - i,
{
    if i == stored.len() - 1 {
        assert(stored.subrange(0, i + 1) =~= stored);
    } else {
        assert(stored.subrange(0, i + 2).drop_last() =~= stored.subrange(0, i + 1));
        lemma_merge_stops(config, stored, i + 1);
    }
}

pub(crate) proof fn lemma_arranged_push(targets: Seq<TargetView>, t: TargetView)
    requires
        arranged(targets),
        t.origin == Origin::Dynamic,
        !name_used(targets, t.name),
        !url_used(targets, t.url),
    ensures
        arranged(targets.push(t)),
        dynamic_count(targets.push(t)) == dynamic_count(targets) + 1,
{
    let all = targets.push(t);
    assert(all.drop_last() =~= targets);
    assert forall|i: int, j: int|
        0 <= i < j < all.len() && (#[trigger] all[j]).origin == Origin::Dynamic implies (
    #[trigger] all[i]).name != all[j].name && all[i].url != all[j].url by {
        assert(all[i] == targets[i]);
        if j < targets.len() {
            assert(all[j] == targets[j]);
        }
    }
}

pub(crate) proof fn lemma_arranged_remove(targets: Seq<TargetView>, i: int)
    requires
        arranged(targets),
        0 <= i < targets.len(),
    ensures
        arranged(targets.remove(i)),
        dynamic_count(targets.remove(i)) <= dynamic_count(targets),
{
    let all = targets.remove(i);
    assert forall|a: int, b: int| 0 <= a < b < all.len() implies ((#[trigger] all[a]).origin
        == Origin::Dynamic ==> (#[trigger] all[b]).origin == Origin::Dynamic) && (all[b].origin
        == Origin::Dynamic ==> all[a].name != all[b].name && all[a].url != all[b].url) by {
        let x = if a < i {
            a
        } else {
            a + 1
        };
        let y = if b < i {
            b
        } else {
            b + 1
        };
        assert(all[a] == targets[x] && all[b] == targets[y]);
    }
    lemma_count_remove(targets, i);
}

proof fn lemma_count_remove(targets: Seq<TargetView>, i: int)
    requires
        0 <= i < targets.len(),
    ensures
        dynamic_count(targets.remove(i)) + (if targets[i].origin == Origin::Dynamic {
            1nat
        } else {
            0
        }) == dynamic_count(targets),
    decreases targets.len(),
{
    let all = targets.remove(i);
    if i == targets.len() - 1 {
        assert(all =~= targets.drop_last());
    } else {
        lemma_count_remove(targets.drop_last(), i);
        assert(all.drop_last() =~= targets.drop_last().remove(i));
        assert(all.last() == targets.last());
    }
}

pub(crate) proof fn lemma_count_update(targets: Seq<TargetView>, i: int, t: TargetView)
    requires
        0 <= i < targets.len(),
        t.origin == targets[i].origin,
    ensures
        dynamic_count(targets.update(i, t)) == dynamic_count(targets),
    decreases targets.len(),
{
    let all = targets.update(i, t);
    if i == targets.len() - 1 {
        assert(all.drop_last() =~= targets.drop_last());
    } else {
        lemma_count_update(targets.drop_last(), i, t);
        assert(all.drop_last() =~= targets.drop_last().update(i, t));
    }
}

pub(crate) proof fn lemma_config_arranged(config: Seq<TargetConfigView>)
    ensures
        arranged(config_targets(config)),
        dynamic_count(config_targets(config)) == 0,
    decreases config.len(),
{
    if config.len() > 0 {
        lemma_config_arranged(config.drop_last());
        assert(config_targets(config).drop_last() =~= config_targets(config.drop_last()));
    }
}

impl TargetRegistry {
    /// Build from config targets and the stored dynamic ones, where there is a
    /// state file. Stored targets are dynamic whatever they say, so that an
    /// edited file cannot masquerade as config. Generated ids are numbered from
    /// `first_number` on: one that no other registry of the process has given
    /// out keeps them apart.
    pub fn load(
        config_targets: &Vec<TargetConfig>,
        stored: Option<Vec<Target>>,
        max_dynamic: usize,
        first_number: u64,
    ) -> (r: Result<Self, String>)
        ensures
            match r {
                Ok(registry) => {
                    &&& sound(registry@)
                    &&& loaded(config_targets.deep_view(), stored.deep_view(), max_dynamic)
                        == Ok::<_, Seq<char>>(registry@.targets)
                    &&& registry@.max_dynamic == max_dynamic
                    &&& registry@.issued == first_number
                },
                Err(e) => loaded(config_targets.deep_view(), stored.deep_view(), max_dynamic)
                    == Err::<Seq<TargetView>, _>(e@),
            },
    {
        let ghost cv = config_targets.deep_view();
        let mut all = from_config(config_targets);
        proof {
            lemma_config_arranged(cv);
        }
        match &stored {
            None => {},
            Some(list) => {
                let mut i: usize = 0;
                let ghost sv = list.deep_view();
                assert(sv.subrange(0, 0) =~= Seq::empty());
                while i < list.len()
                    invariant
                        i <= list.len(),
                        cv == config_targets.deep_view(),
                        sv == list.deep_view(),
                        stored.deep_view() == Some(sv),
                        arranged(all.deep_view()),
                        merged(cv, sv.subrange(0, i as int)) == Ok::<_, Seq<char>>(all.deep_view()),
                    decreases list.len() - i,
                {
                    let ghost next = sv.subrange(0, i + 1);
                    let ghost before = all.deep_view();
                    assert(next.drop_last() =~= sv.subrange(0, i as int));
                    assert(next.last() == list@[i as int].deep_view());
                    let mut t = list[i].copy();
                    t.origin = Origin::Dynamic;
                    assert(t.deep_view() =~= stored_target(next.last()));
                    if uses_url(&all, t.url.as_str()) || uses_name(&all, t.name.as_str()) {
                        proof {
                            lemma_merge_stops(cv, sv, i as int);
                        }
                        return Err(
                            text::cat3(
                                "dynamic target ",
                                t.name.as_str(),
                                " conflicts with a config target",
                            ),
                        );
                    }
                    proof {
                        lemma_arranged_push(before, t.deep_view());
                    }
                    let ghost tv = t.deep_view();
                    all.push(t);
                    assert(all.deep_view() =~= before.push(tv));
                    i = i + 1;
                }
                assert(sv.subrange(0, i as int) =~= sv);
            },
        }
        let count: usize = count_dynamic(&all);
        if count > max_dynamic {
            return Err(
                text::cat3(
                    text::number(count as u128).as_str(),
                    " dynamic targets exceed max_dynamic_targets ",
                    text::number(max_dynamic as u128).as_str(),
                ),
            );
        }
        Ok(TargetRegistry { max_dynamic, targets: all, issued: first_number })
    }

    /// The number that the next generated id takes.
    #[must_use]
    pub fn next_number(&self) -> (r: u64)
        ensures
            r == self@.issued,
    {
        self.issued
    }

    /// All targets (config first, then dynamic), in insertion order.
    #[must_use]
    pub fn list(&self) -> (r: Vec<Target>)
        ensures
            r.deep_view() == self@.targets,
    {
        copy_targets(&self.targets)
    }

    /// Recurring and enabled targets, for the periodic sweep.
    #[must_use]
    pub fn enabled_recurring(&self) -> (r: Vec<Target>)
        ensures
            r.deep_view() == swept(self@.targets),
    {
        let mut r: Vec<Target> = Vec::new();
        let mut i: usize = 0;
        let ghost all = self@.targets;
        assert(r.deep_view() =~= Seq::empty());
        while i < self.targets.len()
            invariant
                i <= self.targets.len(),
                all == self.targets.deep_view(),
                r.deep_view() == swept(all.subrange(0, i as int)),
            decreases self.targets.len() - i,
        {
            let ghost before = r.deep_view();
            assert(all.subrange(0, i + 1).drop_last() =~= all.subrange(0, i as int));
            assert(all.subrange(0, i + 1).last() == self.targets@[i as int].deep_view());
            if self.targets[i].enabled && self.targets[i].mode == Mode::Recurring {
                r.push(self.targets[i].copy());
                assert(r.deep_view() =~= before.push(all[i as int]));
            }
            i = i + 1;
        }
        assert(all.subrange(0, i as int) =~= all);
        r
    }

    /// The dynamic targets: what is persisted.
    #[must_use]
    pub fn dynamic_targets(&self) -> (r: Vec<Target>)
        ensures
            r.deep_view() == dynamic_of(self@.targets),
    {
        let mut r: Vec<Target> = Vec::new();
        let mut i: usize = 0;
        let ghost all = self@.targets;
        assert(r.deep_view() =~= Seq::empty());
        while i < self.targets.len()
            invariant
                i <= self.targets.len(),
                all == self.targets.deep_view(),
                r.deep_view() == dynamic_of(all.subrange(0, i as int)),
            decreases self.targets.len() - i,
        {
            let ghost before = r.deep_view();
            assert(all.subrange(0, i + 1).drop_last() =~= all.subrange(0, i as int));
            assert(all.subrange(0, i + 1).last() == self.targets@[i as int].deep_view());
            if self.targets[i].origin == Origin::Dynamic {
                r.push(self.targets[i].copy());
                assert(r.deep_view() =~= before.push(all[i as int]));
            }
            i = i + 1;
        }
        assert(all.subrange(0, i as int) =~= all);
        r
    }

    /// Add one dynamic target at the time `now`.
    pub fn add_dynamic_at(
        &mut self,
        name: Option<&str>,
        url: &str,
        allow: Option<&Vec<String>>,
        mode: Mode,
        now: u64,
    ) -> (r: Result<Target, TargetError>)
        requires
            sound(old(self)@),
        ensures
            sound(final(self)@),
            adds(
                old(self)@,
                final(self)@,
                target_result(r),
                text_option(name),
                url@,
                texts_option(allow),
                mode,
                now,
            ),
    {
        let ghost before = self@;
        let url = match validate_url(url) {
            Ok(u) => u,
            Err(e) => {
                return Err(e);
            },
        };
        if uses_url(&self.targets, url.as_str()) {
            return Err(TargetError::Invalid(text::cat("url already configured: ", url.as_str())));
        }
        if count_dynamic(&self.targets) >= self.max_dynamic {
            return Err(
                TargetError::Limit(
                    text::cat3(
                        "dynamic target limit reached (",
                        text::number(self.max_dynamic as u128).as_str(),
                        ")",
                    ),
                ),
            );
        }
        let wanted: Option<String> = match name {
            Some(n) => {
                let n = text::trim(n);
                if n.unicode_len() > 0 {
                    Some(n.to_string())
                } else {
                    None
                }
            },
            None => None,
        };
        let name: String = match wanted {
            Some(n) => {
                if uses_name(&self.targets, n.as_str()) {
                    return Err(TargetError::Invalid(text::cat("name already used: ", n.as_str())));
                }
                n
            },
            None => unique_slug(&self.targets, urls::slug_from_url(url.as_str()).as_str()),
        };
        let allow: Vec<String> = match allow {
            Some(a) => {
                if a.len() > 0 {
                    labels::clone_texts(a)
                } else {
                    config::default_allow()
                }
            },
            None => config::default_allow(),
        };
        let tail = text::cat(":", text::number(self.issued as u128).as_str());
        let target = Target {
            id: text::cat3("t", text::number(now as u128).as_str(), tail.as_str()),
            name,
            url,
            allow,
            enabled: mode == Mode::Recurring,
            origin: Origin::Dynamic,
            mode,
            created_at: now,
        };
        let ghost tv = target.deep_view();
        self.issued = self.issued.wrapping_add(1);
        self.targets.push(target.copy());
        proof {
            assert(self@.targets =~= before.targets.push(tv));
            lemma_arranged_push(before.targets, tv);
        }
        Ok(target)
    }

    /// Add one dynamic target. `name` defaults to a slug of the URL host;
    /// `allow` empty falls back to the default prefixes.
    pub fn add_dynamic(
        &mut self,
        name: Option<&str>,
        url: &str,
        allow: Option<&Vec<String>>,
        mode: Mode,
    ) -> (r: Result<Target, TargetError>)
        requires
            sound(old(self)@),
        ensures
            sound(final(self)@),
            exists|now: u64| #[trigger]
                adds(
                    old(self)@,
                    final(self)@,
                    target_result(r),
                    text_option(name),
                    url@,
                    texts_option(allow),
                    mode,
                    now,
                ),
    {
        self.add_dynamic_at(name, url, allow, mode, clock::now_unix())
    }

    /// Enable or disable a target (config targets are immutable).
    pub fn set_enabled(&mut self, id: &str, enabled: bool) -> (r: Result<Target, TargetError>)
        requires
            sound(old(self)@),
        ensures
            sound(final(self)@),
            switches(old(self)@, final(self)@, target_result(r), id@, enabled),
    {
        let ghost before = self@;
        let idx: usize = position(&self.targets, id);
        if idx == self.targets.len() {
            return Err(TargetError::NotFound(id.to_string()));
        }
        assert(before.targets[idx as int] == self.targets@[idx as int].deep_view());
        if self.targets[idx].origin == Origin::Config {
            return Err(TargetError::Invalid("config targets cannot be changed".to_string()));
        }
        let mut updated = self.targets[idx].copy();
        updated.enabled = enabled;
        let ghost tv = updated.deep_view();
        assert(tv =~= TargetView { enabled, ..before.targets[idx as int] });
        self.targets.set(idx, updated.copy());
        proof {
            assert(self@.targets =~= before.targets.update(idx as int, tv));
            lemma_count_update(before.targets, idx as int, tv);
            let all = self@.targets;
            assert forall|a: int, b: int| 0 <= a < b < all.len() implies ((
            #[trigger] all[a]).origin == Origin::Dynamic ==> (#[trigger] all[b]).origin
                == Origin::Dynamic) && (all[b].origin == Origin::Dynamic ==> all[a].name
                != all[b].name && all[a].url != all[b].url) by {
                assert(all[a].origin == before.targets[a].origin && all[a].name
                    == before.targets[a].name && all[a].url == before.targets[a].url);
                assert(all[b].origin == before.targets[b].origin && all[b].name
                    == before.targets[b].name && all[b].url == before.targets[b].url);
            }
        }
        Ok(updated)
    }

    /// Remove a dynamic target.
    pub fn remove(&mut self, id: &str) -> (r: Result<Target, TargetError>)
        requires
            sound(old(self)@),
        ensures
            sound(final(self)@),
            removes(old(self)@, final(self)@, target_result(r), id@),
    {
        let ghost before = self@;
        let idx: usize = position(&self.targets, id);
        if idx == self.targets.len() {
            return Err(TargetError::NotFound(id.to_string()));
        }
        assert(before.targets[idx as int] == self.targets@[idx as int].deep_view());
        if self.targets[idx].origin == Origin::Config {
            return Err(TargetError::Invalid("config targets cannot be removed".to_string()));
        }
        let removed = self.targets.remove(idx);
        proof {
            assert(self@.targets =~= before.targets.remove(idx as int));
            lemma_arranged_remove(before.targets, idx as int);
        }
        Ok(removed)
    }

    /// Find a target by exact (trimmed) URL.
    #[must_use]
    pub fn find_by_url(&self, url: &str) -> (r: Option<Target>)
        ensures
            r.deep_view() == with_url(self@.targets, text::trimmed(url@)),
    {
        let wanted = text::trim(url);
        let mut i: usize = 0;
        let ghost all = self@.targets;
        assert(all.subrange(0, all.len() as int) =~= all);
        while i < self.targets.len()
            invariant
                i <= self.targets.len(),
                all == self@.targets,
                all == self.targets.deep_view(),
                wanted@ == text::trimmed(url@),
                with_url(all, wanted@) == with_url(
                    all.subrange(i as int, all.len() as int),
                    wanted@,
                ),
            decreases self.targets.len() - i,
        {
            let ghost rest = all.subrange(i as int, all.len() as int);
            assert(rest[0] == self.targets@[i as int].deep_view());
            if text::same(self.targets[i].url.as_str(), wanted) {
                return Some(self.targets[i].copy());
            }
            assert(rest.subrange(1, rest.len() as int) =~= all.subrange(i + 1, all.len() as int));
            i = i + 1;
        }
        None
    }
}

/// The text of an optional one.
pub open spec fn text_option(s: Option<&str>) -> Option<Seq<char>> {
    match s {
        Some(t) => Some(t@),
        None => None,
    }
}

/// The texts of an optional list.
pub open spec fn texts_option(s: Option<&Vec<String>>) -> Option<Seq<Seq<char>>> {
    match s {
        Some(t) => Some(t.deep_view()),
        None => None,
    }
}

/// A copy of `targets`.
fn copy_targets(targets: &Vec<Target>) -> (r: Vec<Target>)
    ensures
        r.deep_view() == targets.deep_view(),
{
    let mut r: Vec<Target> = Vec::new();
    let mut i: usize = 0;
    while i < targets.len()
        invariant
            i <= targets.len(),
            r.len() == i,
            forall|k: int| 0 <= k < i ==> (#[trigger] r@[k]).deep_view() == targets@[k].deep_view(),
        decreases targets.len() - i,
    {
        r.push(targets[i].copy());
        i = i + 1;
    }
    assert(r.deep_view() =~= targets.deep_view());
    r
}

}
