//! The control API: targets, job queue and worker-wide freeze behind an
//! optional shared token.
//!
//! A request that adds targets comes in steps, because the state file is
//! written between changing the registry and what follows: begin the request,
//! then for each URL change the registry, write the file, and go on with what
//! came of writing it.
use vstd::prelude::*;
use vstd::string::*;
use crate::config::{TargetConfig, TargetConfigView};
use crate::cycle;
use crate::cycle::{ScrapeOutcome, Scraped};
use crate::exposition;
use crate::labels;
use crate::query::RecentBuffer;
use crate::queue;
use crate::queue::{Job, JobKind, JobQueue, JobView, QueueError, QueueView};
use crate::scrape;
use crate::scrape::{FetchError, Sample, ScrapeStatus};
use crate::status;
use crate::status::{StatusTracker, TrackerView};
use crate::targets;
use crate::targets::{Mode, RegistryView, Target, TargetError, TargetErrorView, TargetRegistry, TargetView};
use crate::text;

verus! {

/// Control-API failures.
#[derive(Debug)]
pub enum ApiError {
    /// 422: malformed or duplicate input.
    Invalid(String),
    /// 404: unknown target or job.
    NotFound(String),
    /// 429: a bounded resource is full.
    Full(String),
    /// 401: control token missing or wrong.
    Unauthorized,
    /// 500: persistence or other internal failure.
    Internal(String),
}

/// What an [`ApiError`] says.
pub enum ApiErrorView {
    Invalid(Seq<char>),
    NotFound(Seq<char>),
    Full(Seq<char>),
    Unauthorized,
    Internal(Seq<char>),
}

impl DeepView for ApiError {
    type V = ApiErrorView;

    open spec fn deep_view(&self) -> ApiErrorView {
        match self {
            ApiError::Invalid(m) => ApiErrorView::Invalid(m@),
            ApiError::NotFound(m) => ApiErrorView::NotFound(m@),
            ApiError::Full(m) => ApiErrorView::Full(m@),
            ApiError::Unauthorized => ApiErrorView::Unauthorized,
            ApiError::Internal(m) => ApiErrorView::Internal(m@),
        }
    }
}

impl ApiError {
    /// HTTP status and detail of the answer.
    pub fn answer(&self) -> (r: (u16, String))
        ensures
            (r.0, r.1@) == match self.deep_view() {
                ApiErrorView::Invalid(m) => (422u16, m),
                ApiErrorView::NotFound(m) => (404u16, m),
                ApiErrorView::Full(m) => (429u16, m),
                ApiErrorView::Unauthorized => (401u16, "missing or invalid x-control-token"@),
                ApiErrorView::Internal(m) => (500u16, m),
            },
    {
        match self {
            ApiError::Invalid(m) => (422, m.clone()),
            ApiError::NotFound(m) => (404, m.clone()),
            ApiError::Full(m) => (429, m.clone()),
            ApiError::Unauthorized => (401, "missing or invalid x-control-token".to_string()),
            ApiError::Internal(m) => (500, m.clone()),
        }
    }
}

/// A registry failure as the API reports it.
pub open spec fn of_target_error(e: TargetErrorView) -> ApiErrorView {
    match e {
        TargetErrorView::Invalid(m) => ApiErrorView::Invalid(m),
        TargetErrorView::NotFound(m) => ApiErrorView::NotFound(m),
        TargetErrorView::Limit(m) => ApiErrorView::Full(m),
        TargetErrorView::Persist(m) => ApiErrorView::Internal(m),
    }
}

/// A registry failure as the API reports it.
pub fn from_target_error(e: TargetError) -> (r: ApiError)
    ensures
        r.deep_view() == of_target_error(e.deep_view()),
{
    match e {
        TargetError::Invalid(m) => ApiError::Invalid(m),
        TargetError::NotFound(m) => ApiError::NotFound(m),
        TargetError::Limit(m) => ApiError::Full(m),
        TargetError::Persist(m) => ApiError::Internal(m),
    }
}

/// A queue failure as the API reports it.
pub open spec fn of_queue_error(e: QueueError) -> ApiErrorView {
    match e {
        QueueError::Full(cap) => ApiErrorView::Full(
            "queue full ("@ + text::decimal(cap as nat) + ")"@,
        ),
        QueueError::NotFound(id) => ApiErrorView::NotFound(id@),
    }
}

/// A queue failure as the API reports it.
pub fn from_queue_error(e: QueueError) -> (r: ApiError)
    ensures
        r.deep_view() == of_queue_error(e),
{
    match e {
        QueueError::Full(cap) => ApiError::Full(QueueError::Full(cap).message()),
        QueueError::NotFound(id) => ApiError::NotFound(id),
    }
}

/// The request may change things: no token is set, or it brought the one that
/// is.
pub open spec fn authorized(token: Option<Seq<char>>, got: Option<Seq<char>>) -> bool {
    token is None || got == token
}

/// Enforce the optional control token on mutating endpoints.
pub fn authorize(token: &Option<String>, got: Option<&str>) -> (r: Result<(), ApiError>)
    ensures
        match r {
            Ok(()) => authorized(token.deep_view(), targets::text_option(got)),
            Err(e) => !authorized(token.deep_view(), targets::text_option(got)) && e
                is Unauthorized,
        },
{
    match token {
        None => Ok(()),
        Some(expected) => match got {
            Some(g) => {
                if text::same(g, expected.as_str()) {
                    Ok(())
                } else {
                    Err(ApiError::Unauthorized)
                }
            },
            None => Err(ApiError::Unauthorized),
        },
    }
}

/// The texts that are not blank, in order.
pub open spec fn not_blank(urls: Seq<Seq<char>>) -> Seq<Seq<char>>
    decreases urls.len(),
{
    if urls.len() == 0 {
        Seq::empty()
    } else if text::trimmed(urls.last()).len() > 0 {
        not_blank(urls.drop_last()).push(urls.last())
    } else {
        not_blank(urls.drop_last())
    }
}

/// The texts that are not blank, in order.
fn keep_not_blank(urls: &Vec<String>) -> (r: Vec<String>)
    ensures
        r.deep_view() == not_blank(urls.deep_view()),
{
    let mut r: Vec<String> = Vec::new();
    let mut i: usize = 0;
    let ghost all = urls.deep_view();
    assert(r.deep_view() =~= Seq::empty());
    while i < urls.len()
        invariant
            i <= urls.len(),
            all == urls.deep_view(),
            r.deep_view() == not_blank(all.subrange(0, i as int)),
        decreases urls.len() - i,
    {
        let ghost before = r.deep_view();
        assert(all.subrange(0, i + 1).drop_last() =~= all.subrange(0, i as int));
        assert(all.subrange(0, i + 1).last() == urls@[i as int]@);
        if text::trim(urls[i].as_str()).unicode_len() > 0 {
            r.push(urls[i].clone());
            assert(r.deep_view() =~= before.push(all[i as int]));
        }
        i = i + 1;
    }
    assert(all.subrange(0, i as int) =~= all);
    r
}

/// A request to add targets.
#[derive(Debug)]
pub struct AddTargetsRequest {
    /// One or more `/metrics` URLs.
    pub urls: Vec<String>,
    /// A single URL, behind the others.
    pub url: Option<String>,
    /// Explicit name (only valid for a single URL).
    pub name: Option<String>,
    /// Accepted prefixes (the default ones where empty or absent).
    pub allow: Option<Vec<String>>,
    /// Swept, or queued at once.
    pub mode: Mode,
}

/// All URLs of the request that are not blank.
pub open spec fn wanted_urls(urls: Seq<Seq<char>>, url: Option<Seq<char>>) -> Seq<Seq<char>> {
    not_blank(
        match url {
            Some(u) => urls.push(u),
            None => urls,
        },
    )
}

/// Why a request to add targets is refused as a whole.
pub open spec fn request_fault(req: AddTargetsRequest) -> Option<ApiErrorView> {
    let urls = wanted_urls(req.urls.deep_view(), req.url.deep_view());
    if urls.len() == 0 {
        Some(ApiErrorView::Invalid("urls must not be empty"@))
    } else if urls.len() > 1 && req.name is Some {
        Some(ApiErrorView::Invalid("name is only valid with a single url"@))
    } else {
        None
    }
}

/// A request to add targets, under way.
#[derive(Debug)]
pub struct Adding {
    urls: Vec<String>,
    name: Option<String>,
    allow: Option<Vec<String>>,
    mode: Mode,
    added: Option<Target>,
    created: Vec<Target>,
    jobs: Vec<Job>,
}

/// What an [`Adding`] holds: what is asked for, the target that waits for the
/// state file, and what was made so far.
#[verifier::ext_equal]
pub struct AddingView {
    pub urls: Seq<Seq<char>>,
    pub name: Option<Seq<char>>,
    pub allow: Option<Seq<Seq<char>>>,
    pub mode: Mode,
    pub added: Option<TargetView>,
    pub created: Seq<TargetView>,
    pub jobs: Seq<JobView>,
}

impl View for Adding {
    type V = AddingView;

    closed spec fn view(&self) -> AddingView {
        AddingView {
            urls: self.urls.deep_view(),
            name: self.name.deep_view(),
            allow: self.allow.deep_view(),
            mode: self.mode,
            added: self.added.deep_view(),
            created: self.created.deep_view(),
            jobs: self.jobs.deep_view(),
        }
    }
}

/// A request to add targets, as it begins.
pub open spec fn begun(req: AddTargetsRequest) -> AddingView {
    AddingView {
        urls: wanted_urls(req.urls.deep_view(), req.url.deep_view()),
        name: req.name.deep_view(),
        allow: req.allow.deep_view(),
        mode: req.mode,
        added: None,
        created: Seq::empty(),
        jobs: Seq::empty(),
    }
}

/// `t` answers the request for the URL.
pub open spec fn made_for(t: TargetView, url: Seq<char>, mode: Mode) -> bool {
    t.url == text::trimmed(url) && t.mode == mode
}

/// What was made so far answers the first URLs of the request, one target each,
/// and in `once` mode one job for each target.
pub open spec fn in_order(a: AddingView) -> bool {
    &&& a.created.len() + (if a.added is Some {
        1nat
    } else {
        0
    }) <= a.urls.len()
    &&& forall|i: int|
        0 <= i < a.created.len() ==> made_for(#[trigger] a.created[i], a.urls[i], a.mode)
    &&& a.added is Some ==> made_for(a.added->0, a.urls[a.created.len() as int], a.mode)
    &&& a.jobs.len() == if a.mode == Mode::Once {
        a.created.len()
    } else {
        0
    }
    &&& forall|i: int|
        0 <= i < a.jobs.len() ==> (#[trigger] a.jobs[i]).url == a.created[i].url && a.jobs[i].target
            == a.created[i].name
}

impl Adding {
    /// The targets added and the jobs queued.
    pub fn finish(self) -> (r: (Vec<Target>, Vec<Job>))
        ensures
            r.0.deep_view() == self@.created,
            r.1.deep_view() == self@.jobs,
    {
        (self.created, self.jobs)
    }
}

/// A request to queue jobs, under way.
#[derive(Debug)]
pub struct Enqueuing {
    urls: Vec<String>,
    found: Option<(Target, bool)>,
    jobs: Vec<Job>,
}

/// What an [`Enqueuing`] holds: what is asked for, the target at hand and
/// whether it is new, and the jobs queued so far.
#[verifier::ext_equal]
pub struct EnqueuingView {
    pub urls: Seq<Seq<char>>,
    pub found: Option<(TargetView, bool)>,
    pub jobs: Seq<JobView>,
}

impl View for Enqueuing {
    type V = EnqueuingView;

    closed spec fn view(&self) -> EnqueuingView {
        EnqueuingView {
            urls: self.urls.deep_view(),
            found: self.found.deep_view(),
            jobs: self.jobs.deep_view(),
        }
    }
}

/// The jobs queued so far are for the first URLs of the request, one each.
pub open spec fn queued_in_order(a: EnqueuingView) -> bool {
    &&& a.jobs.len() + (if a.found is Some {
        1nat
    } else {
        0
    }) <= a.urls.len()
    &&& forall|i: int|
        0 <= i < a.jobs.len() ==> (#[trigger] a.jobs[i]).url == text::trimmed(a.urls[i])
    &&& a.found is Some ==> (a.found->0).0.url == text::trimmed(a.urls[a.jobs.len() as int])
}

impl Enqueuing {
    /// The jobs queued.
    pub fn finish(self) -> (r: Vec<Job>)
        ensures
            r.deep_view() == self@.jobs,
    {
        self.jobs
    }
}

/// What follows in a request to queue jobs.
#[derive(Debug, Clone, Copy, PartialEq, Eq, Structural)]
pub enum Next {
    /// Write the state file, then queue the job.
    Save,
    /// Queue the job.
    Queue,
    /// Nothing: all jobs are queued.
    Finished,
}

proof fn lemma_with_url(all: Seq<TargetView>, url: Seq<char>)
    ensures
        targets::with_url(all, url) is Some ==> targets::with_url(all, url)->0.url == url,
    decreases all.len(),
{
    if all.len() > 0 && all[0].url != url {
        lemma_with_url(all.subrange(1, all.len() as int), url);
    }
}

/// Registry, queue and tracker behind the control API.
#[derive(Debug)]
pub struct Control {
    registry: TargetRegistry,
    queue: JobQueue,
    tracker: StatusTracker,
    token: Option<String>,
}

/// What a [`Control`] holds.
#[verifier::ext_equal]
pub struct ControlView {
    pub registry: RegistryView,
    pub queue: QueueView,
    pub tracker: TrackerView,
    pub token: Option<Seq<char>>,
}

impl View for Control {
    type V = ControlView;

    closed spec fn view(&self) -> ControlView {
        ControlView {
            registry: self.registry@,
            queue: self.queue@,
            tracker: self.tracker@,
            token: self.token.deep_view(),
        }
    }
}

/// Registry and queue keep their promises.
pub open spec fn sound(c: ControlView) -> bool {
    targets::sound(c.registry) && queue::sound(c.queue)
}

/// A result with the error it shows.
pub open spec fn refused<T>(r: Result<T, ApiError>, e: ApiErrorView) -> bool {
    r is Err && r->Err_0.deep_view() == e
}

/// What adding one target does to the registry, told as the API tells it.
pub open spec fn adds_target(
    before: RegistryView,
    after: RegistryView,
    r: Result<TargetView, ApiErrorView>,
    name: Option<Seq<char>>,
    url: Seq<char>,
    allow: Option<Seq<Seq<char>>>,
    mode: Mode,
    now: u64,
) -> bool {
    match r {
        Ok(t) => targets::adds(before, after, Ok(t), name, url, allow, mode, now),
        Err(e) => exists|why: TargetErrorView|
            e == #[trigger] of_target_error(why) && targets::adds(
                before,
                after,
                Err(why),
                name,
                url,
                allow,
                mode,
                now,
            ),
    }
}

/// The tracker with one more target.
pub open spec fn with_target(s: TrackerView, t: TargetView) -> TrackerView {
    TrackerView { targets: s.targets.push(status::unscraped(t.name, t.url)), ..s }
}

/// The job that a target is queued as.
pub open spec fn job_for(q: QueueView, t: TargetView, now: u64) -> JobView {
    queue::new_job(q, t.name, t.url, t.allow, JobKind::Manual, now)
}

impl Control {
    /// Put registry, queue and tracker behind the API.
    pub fn new(
        registry: TargetRegistry,
        queue: JobQueue,
        tracker: StatusTracker,
        token: Option<String>,
    ) -> (r: Self)
        ensures
            r@ == (ControlView {
                registry: registry@,
                queue: queue@,
                tracker: tracker@,
                token: token.deep_view(),
            }),
    {
        Control { registry, queue, tracker, token }
    }

    /// The registry.
    pub fn registry(&self) -> (r: &TargetRegistry)
        ensures
            r@ == self@.registry,
    {
        &self.registry
    }

    /// The queue.
    pub fn queue(&self) -> (r: &JobQueue)
        ensures
            r@ == self@.queue,
    {
        &self.queue
    }

    /// The tracker.
    pub fn tracker(&self) -> (r: &StatusTracker)
        ensures
            r@ == self@.tracker,
    {
        &self.tracker
    }

    /// Begin a request to add targets: the token, and the URLs to add.
    pub fn begin_add(&self, got: Option<&str>, req: AddTargetsRequest) -> (r: Result<
        Adding,
        ApiError,
    >)
        ensures
            if !authorized(self@.token, targets::text_option(got)) {
                refused(r, ApiErrorView::Unauthorized)
            } else if request_fault(req) is Some {
                refused(r, request_fault(req)->0)
            } else {
                r is Ok && r->Ok_0@ == begun(req)
            },
    {
        match authorize(&self.token, got) {
            Ok(()) => {},
            Err(e) => {
                return Err(e);
            },
        }
        let mut urls = labels::clone_texts(&req.urls);
        let ghost listed = urls.deep_view();
        match &req.url {
            Some(u) => {
                urls.push(u.clone());
                assert(urls.deep_view() =~= listed.push(u@));
            },
            None => {},
        }
        let urls = keep_not_blank(&urls);
        assert(urls.deep_view().len() == urls.len());
        if urls.len() == 0 {
            return Err(ApiError::Invalid("urls must not be empty".to_string()));
        }
        if urls.len() > 1 && req.name.is_some() {
            return Err(ApiError::Invalid("name is only valid with a single url".to_string()));
        }
        let r = Adding {
            urls,
            name: req.name,
            allow: req.allow,
            mode: req.mode,
            added: None,
            created: Vec::new(),
            jobs: Vec::new(),
        };
        assert(r@.created =~= Seq::empty());
        assert(r@.jobs =~= Seq::empty());
        Ok(r)
    }

    /// Add the next target of the request to the registry. Says whether there
    /// was one: then the state file is to be written.
    pub fn add_next_at(&mut self, adding: &mut Adding, now: u64) -> (r: Result<bool, ApiError>)
        requires
            sound(old(self)@),
            in_order(old(adding)@),
            old(adding)@.added is None,
        ensures
            sound(final(self)@),
            in_order(final(adding)@),
            final(self)@ == (ControlView { registry: final(self)@.registry, ..old(self)@ }),
            ({
                let a = old(adding)@;
                let n = a.created.len() as int;
                if n == a.urls.len() {
                    r == Ok::<bool, ApiError>(false) && final(self)@ == old(self)@
                        && final(adding)@ == a
                } else {
                    &&& r is Ok ==> r->Ok_0 && final(adding)@.added is Some && final(adding)@ == (
                    AddingView { added: final(adding)@.added, ..a })
                    &&& r is Err ==> final(adding)@ == a
                    &&& adds_target(
                        old(self)@.registry,
                        final(self)@.registry,
                        match r {
                            Ok(_) => Ok(final(adding)@.added->0),
                            Err(e) => Err(e.deep_view()),
                        },
                        a.name,
                        a.urls[n],
                        a.allow,
                        a.mode,
                        now,
                    )
                }
            }),
    {
        let ghost a = adding@;
        let n: usize = adding.created.len();
        assert(a.created.len() == n);
        assert(a.urls.len() == adding.urls.len());
        if n == adding.urls.len() {
            return Ok(false);
        }
        assert(a.urls[n as int] == adding.urls@[n as int]@);
        let name: Option<&str> = match &adding.name {
            Some(n) => Some(n.as_str()),
            None => None,
        };
        let allow: Option<&Vec<String>> = match &adding.allow {
            Some(a) => Some(a),
            None => None,
        };
        match self.registry.add_dynamic_at(name, adding.urls[n].as_str(), allow, adding.mode, now) {
            Ok(t) => {
                adding.added = Some(t);
                Ok(true)
            },
            Err(e) => Err(from_target_error(e)),
        }
    }

    /// Go on after the state file was written, or could not be: the new target
    /// is tracked, and a `once` target is queued as a manual job.
    pub fn admit_at(
        &mut self,
        adding: &mut Adding,
        saved: Result<(), TargetError>,
        now: u64,
    ) -> (r: Result<(), ApiError>)
        requires
            sound(old(self)@),
            in_order(old(adding)@),
            old(adding)@.added is Some,
        ensures
            sound(final(self)@),
            in_order(final(adding)@),
            ({
                let a = old(adding)@;
                let t = a.added->0;
                let c = old(self)@;
                let job = job_for(c.queue, t, now);
                let then = ControlView { tracker: with_target(c.tracker, t), ..c };
                match saved {
                    Err(e) => refused(r, of_target_error(e.deep_view())) && final(self)@ == c
                        && final(adding)@ == a,
                    Ok(()) => if a.mode != Mode::Once {
                        r is Ok && final(self)@ == then && final(adding)@ == (AddingView {
                            added: None,
                            created: a.created.push(t),
                            ..a
                        })
                    } else if c.queue.pending.len() >= c.queue.cap {
                        refused(r, of_queue_error(QueueError::Full(c.queue.cap))) && final(self)@
                            == then && final(adding)@ == a
                    } else {
                        r is Ok && final(self)@ == (ControlView {
                            queue: queue::enqueued(c.queue, job),
                            ..then
                        }) && final(adding)@ == (AddingView {
                            added: None,
                            created: a.created.push(t),
                            jobs: a.jobs.push(job),
                            ..a
                        })
                    },
                }
            }),
    {
        let ghost a = adding@;
        match saved {
            Ok(()) => {},
            Err(e) => {
                return Err(from_target_error(e));
            },
        }
        let target = match &adding.added {
            Some(t) => t.copy(),
            None => {
                return Ok(());
            },
        };
        let ghost t = target.deep_view();
        assert(t == a.added->0);
        self.tracker.add_target(target.name.as_str(), target.url.as_str());
        if adding.mode == Mode::Once {
            match self.queue.enqueue_manual_at(
                target.name.as_str(),
                target.url.as_str(),
                labels::clone_texts(&target.allow),
                now,
            ) {
                Ok(job) => {
                    let ghost jv = job.deep_view();
                    adding.jobs.push(job);
                    assert(adding@.jobs =~= a.jobs.push(jv));
                },
                Err(e) => {
                    return Err(from_queue_error(e));
                },
            }
        }
        adding.added = None;
        adding.created.push(target);
        assert(adding@.created =~= a.created.push(t));
        Ok(())
    }

    /// Begin a request to queue one-shot jobs: the token, and the URLs to queue.
    pub fn begin_enqueue(&self, got: Option<&str>, urls: &Vec<String>) -> (r: Result<
        Enqueuing,
        ApiError,
    >)
        ensures
            if !authorized(self@.token, targets::text_option(got)) {
                refused(r, ApiErrorView::Unauthorized)
            } else if not_blank(urls.deep_view()).len() == 0 {
                refused(r, ApiErrorView::Invalid("urls must not be empty"@))
            } else {
                r is Ok && r->Ok_0@ == (EnqueuingView {
                    urls: not_blank(urls.deep_view()),
                    found: None,
                    jobs: Seq::empty(),
                })
            },
    {
        match authorize(&self.token, got) {
            Ok(()) => {},
            Err(e) => {
                return Err(e);
            },
        }
        let urls = keep_not_blank(urls);
        assert(urls.deep_view().len() == urls.len());
        if urls.len() == 0 {
            return Err(ApiError::Invalid("urls must not be empty".to_string()));
        }
        let r = Enqueuing { urls, found: None, jobs: Vec::new() };
        assert(r@.jobs =~= Seq::empty());
        Ok(r)
    }

    /// Find the target of the next URL, or add it as a `once` target. Says what
    /// is to be done next.
    pub fn find_next_at(&mut self, enqueuing: &mut Enqueuing, now: u64) -> (r: Result<
        Next,
        ApiError,
    >)
        requires
            sound(old(self)@),
            queued_in_order(old(enqueuing)@),
            old(enqueuing)@.found is None,
        ensures
            sound(final(self)@),
            queued_in_order(final(enqueuing)@),
            final(self)@ == (ControlView { registry: final(self)@.registry, ..old(self)@ }),
            ({
                let a = old(enqueuing)@;
                let n = a.jobs.len() as int;
                if n == a.urls.len() {
                    r == Ok::<Next, ApiError>(Next::Finished) && final(self)@ == old(self)@
                        && final(enqueuing)@ == a
                } else {
                    match targets::with_url(
                        old(self)@.registry.targets,
                        text::trimmed(a.urls[n]),
                    ) {
                        Some(t) => r == Ok::<Next, ApiError>(Next::Queue) && final(self)@
                            == old(self)@ && final(enqueuing)@ == (EnqueuingView {
                            found: Some((t, false)),
                            ..a
                        }),
                        None => {
                            &&& r is Ok ==> r->Ok_0 == Next::Save && final(enqueuing)@.found is Some
                                && final(enqueuing)@ == (EnqueuingView {
                                found: Some(((final(enqueuing)@.found->0).0, true)),
                                ..a
                            })
                            &&& r is Err ==> final(enqueuing)@ == a
                            &&& adds_target(
                                old(self)@.registry,
                                final(self)@.registry,
                                match r {
                                    Ok(_) => Ok((final(enqueuing)@.found->0).0),
                                    Err(e) => Err(e.deep_view()),
                                },
                                None,
                                a.urls[n],
                                None,
                                Mode::Once,
                                now,
                            )
                        },
                    }
                }
            }),
    {
        let ghost a = enqueuing@;
        let n: usize = enqueuing.jobs.len();
        assert(a.jobs.len() == n);
        assert(a.urls.len() == enqueuing.urls.len());
        if n == enqueuing.urls.len() {
            return Ok(Next::Finished);
        }
        assert(a.urls[n as int] == enqueuing.urls@[n as int]@);
        match self.registry.find_by_url(enqueuing.urls[n].as_str()) {
            Some(t) => {
                proof {
                    lemma_with_url(self@.registry.targets, text::trimmed(a.urls[n as int]));
                }
                enqueuing.found = Some((t, false));
                Ok(Next::Queue)
            },
            None => match self.registry.add_dynamic_at(
                None,
                enqueuing.urls[n].as_str(),
                None,
                Mode::Once,
                now,
            ) {
                Ok(t) => {
                    enqueuing.found = Some((t, true));
                    Ok(Next::Save)
                },
                Err(e) => Err(from_target_error(e)),
            },
        }
    }

    /// Go on with the target that was found: after the state file was written,
    /// or could not be, where the target is new. A new target is tracked, and
    /// the job stands in the queue.
    pub fn queue_found_at(
        &mut self,
        enqueuing: &mut Enqueuing,
        saved: Result<(), TargetError>,
        now: u64,
    ) -> (r: Result<(), ApiError>)
        requires
            sound(old(self)@),
            queued_in_order(old(enqueuing)@),
            old(enqueuing)@.found is Some,
        ensures
            sound(final(self)@),
            queued_in_order(final(enqueuing)@),
            ({
                let a = old(enqueuing)@;
                let (t, is_new) = a.found->0;
                let c = old(self)@;
                let job = job_for(c.queue, t, now);
                let then = if is_new {
                    ControlView { tracker: with_target(c.tracker, t), ..c }
                } else {
                    c
                };
                match saved {
                    Err(e) => refused(r, of_target_error(e.deep_view())) && final(self)@ == c
                        && final(enqueuing)@ == a,
                    Ok(()) => if c.queue.pending.len() >= c.queue.cap {
                        refused(r, of_queue_error(QueueError::Full(c.queue.cap))) && final(self)@
                            == then && final(enqueuing)@ == a
                    } else {
                        r is Ok && final(self)@ == (ControlView {
                            queue: queue::enqueued(c.queue, job),
                            ..then
                        }) && final(enqueuing)@ == (EnqueuingView {
                            found: None,
                            jobs: a.jobs.push(job),
                            ..a
                        })
                    },
                }
            }),
    {
        let ghost a = enqueuing@;
        match saved {
            Ok(()) => {},
            Err(e) => {
                return Err(from_target_error(e));
            },
        }
        let (target, is_new) = match &enqueuing.found {
            Some(p) => (p.0.copy(), p.1),
            None => {
                return Ok(());
            },
        };
        assert((target.deep_view(), is_new) == a.found->0);
        if is_new {
            self.tracker.add_target(target.name.as_str(), target.url.as_str());
        }
        match self.queue.enqueue_manual_at(
            target.name.as_str(),
            target.url.as_str(),
            labels::clone_texts(&target.allow),
            now,
        ) {
            Ok(job) => {
                let ghost jv = job.deep_view();
                enqueuing.jobs.push(job);
                enqueuing.found = None;
                assert(enqueuing@.jobs =~= a.jobs.push(jv));
                Ok(())
            },
            Err(e) => Err(from_queue_error(e)),
        }
    }

    /// Enable or disable a target.
    pub fn set_enabled(&mut self, got: Option<&str>, id: &str, enabled: bool) -> (r: Result<
        Target,
        ApiError,
    >)
        requires
            sound(old(self)@),
        ensures
            sound(final(self)@),
            final(self)@ == (ControlView { registry: final(self)@.registry, ..old(self)@ }),
            if !authorized(old(self)@.token, targets::text_option(got)) {
                refused(r, ApiErrorView::Unauthorized) && final(self)@ == old(self)@
            } else {
                match r {
                    Ok(t) => targets::switches(
                        old(self)@.registry,
                        final(self)@.registry,
                        Ok(t.deep_view()),
                        id@,
                        enabled,
                    ),
                    Err(e) => exists|why: TargetErrorView|
                        e.deep_view() == #[trigger] of_target_error(why) && targets::switches(
                            old(self)@.registry,
                            final(self)@.registry,
                            Err(why),
                            id@,
                            enabled,
                        ),
                }
            },
    {
        match authorize(&self.token, got) {
            Ok(()) => {},
            Err(e) => {
                return Err(e);
            },
        }
        match self.registry.set_enabled(id, enabled) {
            Ok(t) => Ok(t),
            Err(e) => Err(from_target_error(e)),
        }
    }

    /// First step of removing a target: out of the registry.
    pub fn remove_target(&mut self, got: Option<&str>, id: &str) -> (r: Result<Target, ApiError>)
        requires
            sound(old(self)@),
        ensures
            sound(final(self)@),
            final(self)@ == (ControlView { registry: final(self)@.registry, ..old(self)@ }),
            if !authorized(old(self)@.token, targets::text_option(got)) {
                refused(r, ApiErrorView::Unauthorized) && final(self)@ == old(self)@
            } else {
                match r {
                    Ok(t) => targets::removes(
                        old(self)@.registry,
                        final(self)@.registry,
                        Ok(t.deep_view()),
                        id@,
                    ),
                    Err(e) => exists|why: TargetErrorView|
                        e.deep_view() == #[trigger] of_target_error(why) && targets::removes(
                            old(self)@.registry,
                            final(self)@.registry,
                            Err(why),
                            id@,
                        ),
                }
            },
    {
        match authorize(&self.token, got) {
            Ok(()) => {},
            Err(e) => {
                return Err(e);
            },
        }
        match self.registry.remove(id) {
            Ok(t) => Ok(t),
            Err(e) => Err(from_target_error(e)),
        }
    }

    /// Last step of removing a target: it is no longer tracked.
    pub fn forget_target(&mut self, name: &str)
        requires
            sound(old(self)@),
        ensures
            sound(final(self)@),
            final(self)@ == (ControlView { tracker: final(self)@.tracker, ..old(self)@ }),
            ({
                let s = old(self)@.tracker;
                let i = status::find_name(s.targets, name@) as int;
                final(self)@.tracker == if i < s.targets.len() {
                    TrackerView { targets: s.targets.remove(i), ..s }
                } else {
                    s
                }
            }),
    {
        self.tracker.remove_target(name)
    }

    /// Hold manual jobs (scheduled ones keep running).
    pub fn pause_queue(&mut self, got: Option<&str>) -> (r: Result<(), ApiError>)
        requires
            sound(old(self)@),
        ensures
            sound(final(self)@),
            if !authorized(old(self)@.token, targets::text_option(got)) {
                refused(r, ApiErrorView::Unauthorized) && final(self)@ == old(self)@
            } else {
                r is Ok && final(self)@ == (ControlView {
                    queue: QueueView { paused: true, ..old(self)@.queue },
                    ..old(self)@
                })
            },
    {
        match authorize(&self.token, got) {
            Ok(()) => {},
            Err(e) => {
                return Err(e);
            },
        }
        self.queue.pause();
        Ok(())
    }

    /// Release manual jobs.
    pub fn resume_queue(&mut self, got: Option<&str>) -> (r: Result<(), ApiError>)
        requires
            sound(old(self)@),
        ensures
            sound(final(self)@),
            if !authorized(old(self)@.token, targets::text_option(got)) {
                refused(r, ApiErrorView::Unauthorized) && final(self)@ == old(self)@
            } else {
                r is Ok && final(self)@ == (ControlView {
                    queue: QueueView { paused: false, ..old(self)@.queue },
                    ..old(self)@
                })
            },
    {
        match authorize(&self.token, got) {
            Ok(()) => {},
            Err(e) => {
                return Err(e);
            },
        }
        self.queue.resume();
        Ok(())
    }

    /// Halt the executor (scheduled and manual jobs).
    pub fn freeze_worker(&mut self, got: Option<&str>) -> (r: Result<(), ApiError>)
        requires
            sound(old(self)@),
        ensures
            sound(final(self)@),
            if !authorized(old(self)@.token, targets::text_option(got)) {
                refused(r, ApiErrorView::Unauthorized) && final(self)@ == old(self)@
            } else {
                r is Ok && final(self)@ == (ControlView {
                    queue: QueueView { frozen: true, ..old(self)@.queue },
                    ..old(self)@
                })
            },
    {
        match authorize(&self.token, got) {
            Ok(()) => {},
            Err(e) => {
                return Err(e);
            },
        }
        self.queue.freeze();
        Ok(())
    }

    /// Lift the freeze.
    pub fn resume_worker(&mut self, got: Option<&str>) -> (r: Result<(), ApiError>)
        requires
            sound(old(self)@),
        ensures
            sound(final(self)@),
            if !authorized(old(self)@.token, targets::text_option(got)) {
                refused(r, ApiErrorView::Unauthorized) && final(self)@ == old(self)@
            } else {
                r is Ok && final(self)@ == (ControlView {
                    queue: QueueView { frozen: false, ..old(self)@.queue },
                    ..old(self)@
                })
            },
    {
        match authorize(&self.token, got) {
            Ok(()) => {},
            Err(e) => {
                return Err(e);
            },
        }
        self.queue.unfreeze();
        Ok(())
    }

    /// Cancel one pending job.
    pub fn cancel_job_at(&mut self, got: Option<&str>, id: &str, now: u64) -> (r: Result<
        Job,
        ApiError,
    >)
        requires
            sound(old(self)@),
        ensures
            sound(final(self)@),
            final(self)@ == (ControlView { queue: final(self)@.queue, ..old(self)@ }),
            if !authorized(old(self)@.token, targets::text_option(got)) {
                refused(r, ApiErrorView::Unauthorized) && final(self)@ == old(self)@
            } else {
                let q = old(self)@.queue;
                let i = queue::first_with_id(q.pending, id@) as int;
                if i < q.pending.len() {
                    r is Ok && r->Ok_0.deep_view() == queue::cancelled_job(q.pending[i], now)
                        && final(self)@.queue == queue::cancelled(q, i, now)
                } else {
                    refused(r, ApiErrorView::NotFound(id@)) && final(self)@.queue == q
                }
            },
    {
        match authorize(&self.token, got) {
            Ok(()) => {},
            Err(e) => {
                return Err(e);
            },
        }
        match self.queue.cancel_at(id, now) {
            Ok(job) => Ok(job),
            Err(e) => Err(from_queue_error(e)),
        }
    }

    /// Drop every pending job; says how many there were.
    pub fn clear_queue_at(&mut self, got: Option<&str>, now: u64) -> (r: Result<usize, ApiError>)
        requires
            sound(old(self)@),
        ensures
            sound(final(self)@),
            if !authorized(old(self)@.token, targets::text_option(got)) {
                refused(r, ApiErrorView::Unauthorized) && final(self)@ == old(self)@
            } else {
                r is Ok && r->Ok_0 == old(self)@.queue.pending.len() && final(self)@ == (
                ControlView { queue: queue::cleared(old(self)@.queue, now), ..old(self)@ })
            },
    {
        match authorize(&self.token, got) {
            Ok(()) => {},
            Err(e) => {
                return Err(e);
            },
        }
        Ok(self.queue.clear_pending_at(now))
    }

    /// One tick of the periodic sweep: a scheduled job for every enabled
    /// recurring target that has none yet, as far as the queue has room; none
    /// at all while the executor is frozen.
    pub fn sweep_at(&mut self, now: u64)
        requires
            sound(old(self)@),
        ensures
            sound(final(self)@),
            final(self)@ == (ControlView {
                queue: if old(self)@.queue.frozen {
                    old(self)@.queue
                } else {
                    swept_queue(
                        old(self)@.queue,
                        targets::swept(old(self)@.registry.targets),
                        now,
                    )
                },
                ..old(self)@
            }),
    {
        if self.queue.is_frozen() {
            return;
        }
        let list = self.registry.enabled_recurring();
        let ghost before = self@;
        let ghost all = list.deep_view();
        let mut i: usize = 0;
        assert(all.subrange(0, 0) =~= Seq::empty());
        while i < list.len()
            invariant
                i <= list.len(),
                all == list.deep_view(),
                sound(self@),
                self@ == (ControlView {
                    queue: swept_queue(before.queue, all.subrange(0, i as int), now),
                    ..before
                }),
            decreases list.len() - i,
        {
            let ghost next = all.subrange(0, i + 1);
            assert(next.drop_last() =~= all.subrange(0, i as int));
            assert(next.last() == list@[i as int].deep_view());
            let t = &list[i];
            let _ = self.queue.enqueue_scheduled_at(
                t.name.as_str(),
                t.url.as_str(),
                labels::clone_texts(&t.allow),
                now,
            );
            i = i + 1;
        }
        assert(all.subrange(0, i as int) =~= all);
    }

    /// The next job to run.
    pub fn pop_next_at(&mut self, now: u64) -> (r: Option<Job>)
        requires
            sound(old(self)@),
        ensures
            sound(final(self)@),
            final(self)@ == (ControlView { queue: final(self)@.queue, ..old(self)@ }),
            queue::hands_out(old(self)@.queue, final(self)@.queue, r.deep_view(), now),
    {
        self.queue.pop_next_at(now)
    }

    /// Scrape for a job that is running, from what was fetched: the outcome is
    /// planned, mirrored into the buffer and counted, and the attempt is recorded
    /// on the job's target.
    pub fn scrape_job_at(
        &mut self,
        job: &Job,
        fetched: Result<String, FetchError>,
        max_samples: usize,
        now_micros: u64,
        buffer: &mut RecentBuffer,
        duration_ms: u64,
        now: u64,
    ) -> (r: ScrapeOutcome)
        requires
            sound(old(self)@),
            old(buffer).wf(),
        ensures
            sound(final(self)@),
            final(buffer).wf(),
            match fetched {
                Err(e) => cycle::is_outcome(
                    r,
                    job_target(job.deep_view()),
                    Scraped::Unfetched(e),
                    max_samples,
                    now_micros,
                    *old(buffer),
                    *final(buffer),
                ),
                Ok(body) => exists|samples: Vec<Sample>|
                    exposition::reads(
                        #[trigger] samples.deep_view(),
                        exposition::exposition(body@),
                    ) && cycle::is_outcome(
                        r,
                        job_target(job.deep_view()),
                        Scraped::Parsed(samples),
                        max_samples,
                        now_micros,
                        *old(buffer),
                        *final(buffer),
                    ),
            },
            final(self)@ == (ControlView {
                tracker: status::recorded(
                    old(self)@.tracker,
                    job.target@,
                    r.status,
                    r.planned@.len() as usize,
                    duration_ms,
                    now,
                ),
                ..old(self)@
            }),
    {
        let target = TargetConfig {
            name: job.target.clone(),
            url: job.url.clone(),
            allow: labels::clone_texts(&job.allow),
        };
        assert(target.deep_view() =~= job_target(job.deep_view()));
        cycle::scrape_once(
            &target,
            fetched,
            max_samples,
            now_micros,
            buffer,
            &mut self.tracker,
            duration_ms,
            now,
        )
    }

    /// A job has run with that outcome: it goes into the history.
    pub fn finish_job_at(&mut self, job: Job, outcome: &ScrapeOutcome, now: u64)
        requires
            sound(old(self)@),
        ensures
            sound(final(self)@),
            final(self)@ == (ControlView {
                queue: ran(old(self)@.queue, job.deep_view(), *outcome, now),
                ..old(self)@
            }),
    {
        self.queue.complete_at(
            job,
            outcome.status,
            outcome.planned.len(),
            outcome.dropped,
            job_error(outcome.status),
            now,
        );
    }
}

/// The queue after a job has run with that outcome.
pub open spec fn ran(q: QueueView, job: JobView, outcome: ScrapeOutcome, now: u64) -> QueueView {
    queue::completed(
        q,
        job,
        outcome.status,
        outcome.planned@.len() as usize,
        outcome.dropped,
        error_of(outcome.status),
        now,
    )
}

/// What a job scrapes.
pub open spec fn job_target(job: JobView) -> TargetConfigView {
    TargetConfigView { name: job.target, url: job.url, allow: job.allow }
}

/// A request to add targets that has come to its end made a target for every
/// URL, in order, and in `once` mode a job for each of them.
pub proof fn law_finished_add(a: AddingView, i: int)
    requires
        in_order(a),
        a.added is None,
        a.created.len() == a.urls.len(),
        0 <= i < a.urls.len(),
    ensures
        a.created[i].url == text::trimmed(a.urls[i]),
        a.mode == Mode::Once ==> a.jobs.len() == a.urls.len() && a.jobs[i].target
            == a.created[i].name,
{
    assert(made_for(a.created[i], a.urls[i], a.mode));
}

/// The queue after a sweep over `list`.
pub open spec fn swept_queue(q: QueueView, list: Seq<TargetView>, now: u64) -> QueueView
    decreases list.len(),
{
    if list.len() == 0 {
        q
    } else {
        let before = swept_queue(q, list.drop_last(), now);
        let t = list.last();
        if queue::already_scheduled(before, t.name) || before.pending.len() >= before.cap {
            before
        } else {
            queue::enqueued(
                before,
                queue::new_job(before, t.name, t.url, t.allow, JobKind::Scheduled, now),
            )
        }
    }
}

/// The error text of a finished job: none after a success, else the outcome.
pub open spec fn error_of(status: ScrapeStatus) -> Option<Seq<char>> {
    if status == ScrapeStatus::Success {
        None
    } else {
        Some(scrape::status_text(status))
    }
}

/// The error text of a finished job: none after a success, else the outcome.
fn job_error(status: ScrapeStatus) -> (r: Option<String>)
    ensures
        r.deep_view() == error_of(status),
{
    if status == ScrapeStatus::Success {
        None
    } else {
        Some(status.as_str().to_string())
    }
}

/// A sweep never piles up: where it left room in the queue, sweeping again at
/// once changes nothing.
pub proof fn law_sweep_is_idempotent(q: QueueView, list: Seq<TargetView>, now: u64, later: u64)
    requires
        swept_queue(q, list, now).pending.len() < q.cap,
    ensures
        swept_queue(swept_queue(q, list, now), list, later) == swept_queue(q, list, now),
{
    let after = swept_queue(q, list, now);
    lemma_sweep_grows(q, list, now, list.len() as int);
    assert(list.subrange(0, list.len() as int) =~= list);
    assert forall|i: int| 0 <= i < list.len() implies queue::already_scheduled(
        after,
        (#[trigger] list[i]).name,
    ) by {
        lemma_sweep_schedules(q, list, now, i);
    }
    lemma_sweep_idle(after, list, later);
}

proof fn lemma_sweep_idle(q: QueueView, list: Seq<TargetView>, now: u64)
    requires
        forall|i: int| 0 <= i < list.len() ==> queue::already_scheduled(q, (#[trigger] list[i]).name),
    ensures
        swept_queue(q, list, now) == q,
    decreases list.len(),
{
    if list.len() > 0 {
        let init = list.drop_last();
        assert forall|i: int| 0 <= i < init.len() implies queue::already_scheduled(
            q,
            (#[trigger] init[i]).name,
        ) by {
            assert(init[i] == list[i]);
        }
        lemma_sweep_idle(q, init, now);
        assert(queue::already_scheduled(q, list[list.len() - 1].name));
    }
}

proof fn lemma_sweep_grows(q: QueueView, list: Seq<TargetView>, now: u64, n: int)
    requires
        0 <= n <= list.len(),
    ensures
        ({
            let a = swept_queue(q, list.subrange(0, n), now);
            let b = swept_queue(q, list, now);
            &&& a.pending.is_prefix_of(b.pending)
            &&& a.running == b.running
            &&& a.cap == b.cap && b.cap == q.cap
        }),
    decreases list.len(),
{
    if n == list.len() {
        assert(list.subrange(0, n) =~= list);
        let b = swept_queue(q, list, now).pending;
        assert(b.subrange(0, b.len() as int) =~= b);
        lemma_sweep_cap(q, list, now);
    } else {
        let init = list.drop_last();
        lemma_sweep_grows(q, init, now, n);
        assert(init.subrange(0, n) =~= list.subrange(0, n));
        let a = swept_queue(q, list.subrange(0, n), now).pending;
        let m = swept_queue(q, init, now).pending;
        let b = swept_queue(q, list, now).pending;
        assert(a =~= m.subrange(0, a.len() as int));
        assert(b.subrange(0, a.len() as int) =~= a);
    }
}

proof fn lemma_sweep_cap(q: QueueView, list: Seq<TargetView>, now: u64)
    ensures
        swept_queue(q, list, now).cap == q.cap,
    decreases list.len(),
{
    if list.len() > 0 {
        lemma_sweep_cap(q, list.drop_last(), now);
    }
}

proof fn lemma_sweep_schedules(q: QueueView, list: Seq<TargetView>, now: u64, i: int)
    requires
        0 <= i < list.len(),
        swept_queue(q, list, now).pending.len() < q.cap,
    ensures
        queue::already_scheduled(swept_queue(q, list, now), list[i].name),
{
    let upto = list.subrange(0, i + 1);
    let a = swept_queue(q, upto, now);
    let b = swept_queue(q, list, now);
    let name = list[i].name;
    lemma_sweep_grows(q, list, now, i + 1);
    assert(a.pending.len() <= b.pending.len());
    assert(upto.last() == list[i]);
    let before = swept_queue(q, upto.drop_last(), now);
    assert(upto.drop_last() =~= list.subrange(0, i));
    lemma_sweep_cap(q, upto.drop_last(), now);
    if !queue::already_scheduled(before, name) {
        let job = queue::new_job(before, name, list[i].url, list[i].allow, JobKind::Scheduled, now);
        if before.pending.len() >= before.cap {
            assert(a == before);
        } else {
            assert(a.pending[before.pending.len() as int] == job);
            assert(queue::sweeps(a.pending[before.pending.len() as int], name));
        }
    }
    assert(queue::already_scheduled(a, name));
    if exists|k: int| 0 <= k < a.pending.len() && queue::sweeps(#[trigger] a.pending[k], name) {
        let k = choose|k: int| 0 <= k < a.pending.len() && queue::sweeps(#[trigger] a.pending[k], name);
        assert(b.pending.subrange(0, a.pending.len() as int)[k] == b.pending[k]);
        assert(queue::sweeps(b.pending[k], name));
    }
}

/// A request may change things exactly where no token is set, or it brought the
/// very token that is.
pub proof fn law_authorized(token: Seq<char>, got: Seq<char>)
    ensures
        authorized(None, None),
        authorized(None, Some(got)),
        !authorized(Some(token), None),
        authorized(Some(token), Some(got)) <==> got == token,
{
}

/// What goes wrong in registry and queue is reported as what it is: bad input,
/// an unknown id, a full registry or queue, or a failure of the worker itself.
pub proof fn law_errors(m: Seq<char>, cap: usize, id: String)
    ensures
        of_target_error(TargetErrorView::Invalid(m)) == ApiErrorView::Invalid(m),
        of_target_error(TargetErrorView::NotFound(m)) == ApiErrorView::NotFound(m),
        of_target_error(TargetErrorView::Limit(m)) == ApiErrorView::Full(m),
        of_target_error(TargetErrorView::Persist(m)) == ApiErrorView::Internal(m),
        of_queue_error(QueueError::Full(cap)) == ApiErrorView::Full(
            "queue full ("@ + text::decimal(cap as nat) + ")"@,
        ),
        of_queue_error(QueueError::NotFound(id)) == ApiErrorView::NotFound(id@),
{
}

/// Blank URLs are passed over, and the others stay as they are, in order.
pub proof fn law_one_more_url(urls: Seq<Seq<char>>, u: Seq<char>)
    ensures
        not_blank(Seq::<Seq<char>>::empty()).len() == 0,
        text::trimmed(u).len() > 0 ==> not_blank(urls.push(u)) == not_blank(urls).push(u),
        text::trimmed(u).len() == 0 ==> not_blank(urls.push(u)) == not_blank(urls),
        wanted_urls(urls, Some(u)) == not_blank(urls.push(u)),
        wanted_urls(urls, None) == not_blank(urls),
{
    assert(urls.push(u).drop_last() =~= urls);
}

/// A request to add targets is refused as a whole where it has no URL that is not
/// blank, and where it has a name for more than one.
pub proof fn law_request_fault(req: AddTargetsRequest)
    ensures
        ({
            let n = wanted_urls(req.urls.deep_view(), req.url.deep_view()).len();
            &&& n == 0 ==> request_fault(req) == Some(
                ApiErrorView::Invalid("urls must not be empty"@),
            )
            &&& n > 1 && req.name is Some ==> request_fault(req) == Some(
                ApiErrorView::Invalid("name is only valid with a single url"@),
            )
            &&& n == 1 || (n > 1 && req.name is None) ==> request_fault(req) is None
        }),
{
}

/// The job for a target bears its name, URL and prefixes, and is a manual one;
/// the new target stands behind the others in the tracker, as never scraped.
pub proof fn law_target_admitted(q: QueueView, s: TrackerView, t: TargetView, now: u64)
    ensures
        job_for(q, t, now).target == t.name,
        job_for(q, t, now).url == t.url,
        job_for(q, t, now).allow == t.allow,
        job_for(q, t, now).kind == JobKind::Manual,
        job_for(q, t, now).state == queue::JobState::Pending,
        job_for(q, t, now).enqueued_at == now,
        with_target(s, t).targets.len() == s.targets.len() + 1,
        with_target(s, t).targets.last().name == t.name,
        with_target(s, t).targets.last().url == t.url,
        with_target(s, t).targets.last().last_scrape_ts is None,
        with_target(s, t).targets.last().consecutive_failures == 0,
        forall|i: int|
            0 <= i < s.targets.len() ==> #[trigger] with_target(s, t).targets[i] == s.targets[i],
{
}

/// A job scrapes the target that it was queued for, from its URL, with its
/// prefixes.
pub proof fn law_job_target(job: JobView)
    ensures
        job_target(job).name == job.target,
        job_target(job).url == job.url,
        job_target(job).allow == job.allow,
{
}

/// A target more in the sweep is a job more: a scheduled one behind the others,
/// with the target's name, URL and prefixes, where none is pending or running for
/// it and the queue has room; else nothing.
pub proof fn law_one_more_swept(q: QueueView, list: Seq<TargetView>, t: TargetView, now: u64)
    ensures
        swept_queue(q, Seq::<TargetView>::empty(), now) == q,
        ({
            let a = swept_queue(q, list, now);
            let b = swept_queue(q, list.push(t), now);
            let busy = (exists|i: int|
                0 <= i < a.pending.len() && (#[trigger] a.pending[i]).kind == JobKind::Scheduled
                    && a.pending[i].target == t.name) || (a.running is Some && a.running->0.kind
                == JobKind::Scheduled && a.running->0.target == t.name);
            &&& busy || a.pending.len() >= a.cap ==> b == a
            &&& !busy && a.pending.len() < a.cap ==> b.pending.len() == a.pending.len() + 1
                && b.pending.drop_last() == a.pending && b.pending.last().target == t.name
                && b.pending.last().url == t.url && b.pending.last().allow == t.allow
                && b.pending.last().kind == JobKind::Scheduled && b.pending.last().enqueued_at
                == now && b.running == a.running && b.recent == a.recent && b.paused == a.paused
                && b.frozen == a.frozen && b.done == a.done && b.failed == a.failed && b.cap == a.cap
        }),
{
    assert(list.push(t).drop_last() =~= list);
    let a = swept_queue(q, list, now);
    let b = swept_queue(q, list.push(t), now);
    if exists|i: int|
        0 <= i < a.pending.len() && (#[trigger] a.pending[i]).kind == JobKind::Scheduled
            && a.pending[i].target == t.name {
        let i = choose|i: int|
            0 <= i < a.pending.len() && (#[trigger] a.pending[i]).kind == JobKind::Scheduled
                && a.pending[i].target == t.name;
        assert(queue::sweeps(a.pending[i], t.name));
    }
    if exists|i: int| 0 <= i < a.pending.len() && queue::sweeps(#[trigger] a.pending[i], t.name) {
        let i = choose|i: int|
            0 <= i < a.pending.len() && queue::sweeps(#[trigger] a.pending[i], t.name);
        assert(a.pending[i].kind == JobKind::Scheduled && a.pending[i].target == t.name);
    }
    if !queue::already_scheduled(a, t.name) && a.pending.len() < a.cap {
        assert(b.pending.drop_last() =~= a.pending);
    }
}

/// A job's error is none after a success, and else the outcome.
pub proof fn law_job_error()
    ensures
        error_of(ScrapeStatus::Success) is None,
        error_of(ScrapeStatus::FetchError) == Some("fetch_error"@),
        error_of(ScrapeStatus::ParseError) == Some("parse_error"@),
{
}

/// A request to add targets begins with what it asks for, and with nothing made.
pub proof fn law_begun(req: AddTargetsRequest)
    ensures
        req.name is Some ==> begun(req).name == Some(req.name->0@),
        req.name is None ==> begun(req).name is None,
        req.allow is Some ==> begun(req).allow == Some(req.allow->0.deep_view()),
        req.allow is None ==> begun(req).allow is None,
        begun(req).mode == req.mode,
        begun(req).added is None,
        begun(req).created.len() == 0,
        begun(req).jobs.len() == 0,
        req.url is None ==> begun(req).urls == not_blank(req.urls.deep_view()),
        req.url is Some ==> begun(req).urls == not_blank(req.urls.deep_view().push(req.url->0@)),
{
}

/// A target that the API adds is the one asked for: its prefixes, URL, mode and
/// name are those of the request, as in the registry itself; and what the
/// registry refuses is refused, with nothing changed.
pub proof fn law_api_added(
    before: RegistryView,
    after: RegistryView,
    r: Result<TargetView, ApiErrorView>,
    name: Option<Seq<char>>,
    url: Seq<char>,
    allow: Option<Seq<Seq<char>>>,
    mode: Mode,
    now: u64,
)
    requires
        adds_target(before, after, r, name, url, allow, mode, now),
    ensures
        r is Err ==> after == before,
        r is Ok ==> after.targets == before.targets.push(r->Ok_0),
        r is Ok && allow is Some && allow->0.len() > 0 ==> r->Ok_0.allow == allow->0,
        r is Ok ==> r->Ok_0.url == text::trimmed(url) && r->Ok_0.mode == mode && (
        r->Ok_0.enabled <==> mode == Mode::Recurring) && r->Ok_0.created_at == now,
        r is Ok && name is Some && text::trimmed(name->0).len() > 0 ==> r->Ok_0.name
            == text::trimmed(name->0),
        r is Ok <==> targets::add_fault(before, name, url) is None,
{
}

/// A job that has run goes in front of the history with the figures of its
/// outcome: as many samples as were planned, as many dropped as were over the
/// cap, done after a success, and else failed with the outcome as its error.
pub proof fn law_ran(q: QueueView, job: JobView, outcome: ScrapeOutcome, now: u64)
    requires
        outcome.planned@.len() <= usize::MAX,
    ensures
        ({
            let a = ran(q, job, outcome, now);
            let j = a.recent[0];
            &&& a.recent.len() > 0
            &&& j.id == job.id && j.target == job.target && j.url == job.url
            &&& j.samples == outcome.planned@.len() && j.dropped == outcome.dropped
            &&& j.finished_at == Some(now)
            &&& outcome.status == ScrapeStatus::Success ==> j.state == queue::JobState::Done
                && j.error is None
            &&& outcome.status == ScrapeStatus::FetchError ==> j.state == queue::JobState::Failed
                && j.error == Some("fetch_error"@)
            &&& outcome.status == ScrapeStatus::ParseError ==> j.state == queue::JobState::Failed
                && j.error == Some("parse_error"@)
            &&& a.running is None && a.pending == q.pending
        }),
{
}

}
