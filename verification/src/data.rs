//! The preview cache: a store mapping URLs to fetched link-preview
//! metadata, with in-flight-request deduplication (singleflight), a dirty
//! flag gating persistence, and the Markdown configuration shared by one
//! render pass.
//!
//! The cache is modelled by [`CacheModel`]: the ordered preview records,
//! the in-flight task cells (a one-shot notification cell per URL,
//! holding the resolved outcome once published), and the dirty flag.
//! Every mutating operation is specified as a transition function on the
//! model, and the singleflight, no-refetch and retry laws are proved of
//! those transitions.

use vstd::prelude::*;

use crate::entity::MarkdownConfig;
use crate::text::{chars_lex_lt, lemma_lex_trichotomy, lex_lt, string_to_chars, trunc,
    truncate_chars};

verus! {

/// Link-preview metadata for one URL, produced once by a successful
/// fetch and immutable after insertion.
#[derive(Clone, Debug)]
pub struct UrlPreviewInfo {
    pub title: String,
    pub description: String,
    pub image: Option<String>,
}

/// The mathematical value of a preview record.
pub struct PreviewV {
    pub title: Seq<char>,
    pub description: Seq<char>,
    pub image: Option<Seq<char>>,
}

impl View for UrlPreviewInfo {
    type V = PreviewV;

    open spec fn view(&self) -> PreviewV {
        PreviewV {
            title: self.title@,
            description: self.description@,
            image: match self.image {
                Some(i) => Some(i@),
                None => None,
            },
        }
    }
}

impl UrlPreviewInfo {
    /// An explicit copy whose value is known to equal the original.
    pub fn duplicate(&self) -> (r: Self)
        ensures
            r == *self,
    {
        UrlPreviewInfo {
            title: self.title.clone(),
            description: self.description.clone(),
            image: match &self.image {
                Some(i) => Some(i.clone()),
                None => None,
            },
        }
    }
}

/// The outcome of a fetch, delivered to every waiter subscribed to an
/// in-flight task.
#[derive(Clone, Debug)]
pub enum PreviewEvent {
    Finished(UrlPreviewInfo),
    Failed(String),
}

/// The mathematical value of a fetch outcome.
pub enum PreviewEventV {
    Finished(PreviewV),
    Failed(Seq<char>),
}

impl View for PreviewEvent {
    type V = PreviewEventV;

    open spec fn view(&self) -> PreviewEventV {
        match self {
            PreviewEvent::Finished(info) => PreviewEventV::Finished(info@),
            PreviewEvent::Failed(msg) => PreviewEventV::Failed(msg@),
        }
    }
}

impl PreviewEvent {
    /// An explicit copy whose value is known to equal the original.
    pub fn duplicate(&self) -> (r: Self)
        ensures
            r == *self,
    {
        match self {
            PreviewEvent::Finished(info) => PreviewEvent::Finished(info.duplicate()),
            PreviewEvent::Failed(msg) => PreviewEvent::Failed(msg.clone()),
        }
    }
}

/// The abstract state of the cache.
pub struct CacheModel {
    /// Preview records, strictly sorted by URL.
    pub previews: Seq<(Seq<char>, PreviewV)>,
    /// In-flight task cells: `None` while the fetch is unresolved, the
    /// published outcome once it resolved and until it is drained.
    pub tasks: Seq<(Seq<char>, Option<PreviewEventV>)>,
    /// Whether the in-memory previews have diverged from the persisted
    /// file.
    pub dirty: bool,
}

/// First match of `key` in an association sequence.
pub open spec fn assoc_find<X>(s: Seq<(Seq<char>, X)>, key: Seq<char>) -> Option<X>
    decreases s.len(),
{
    if s.len() == 0 {
        None
    } else if s[0].0 == key {
        Some(s[0].1)
    } else {
        assoc_find(s.skip(1), key)
    }
}

/// Replace the value of the first match of `key`.
pub open spec fn assoc_update<X>(s: Seq<(Seq<char>, X)>, key: Seq<char>, val: X) -> Seq<
    (Seq<char>, X),
>
    decreases s.len(),
{
    if s.len() == 0 {
        s
    } else if s[0].0 == key {
        seq![(key, val)] + s.skip(1)
    } else {
        seq![s[0]] + assoc_update(s.skip(1), key, val)
    }
}

/// Remove the first match of `key`.
pub open spec fn assoc_remove<X>(s: Seq<(Seq<char>, X)>, key: Seq<char>) -> Seq<
    (Seq<char>, X),
>
    decreases s.len(),
{
    if s.len() == 0 {
        s
    } else if s[0].0 == key {
        s.skip(1)
    } else {
        seq![s[0]] + assoc_remove(s.skip(1), key)
    }
}

/// Insert into a sequence sorted by key, before the first larger key.
pub open spec fn sorted_insert(
    s: Seq<(Seq<char>, PreviewV)>,
    key: Seq<char>,
    val: PreviewV,
) -> Seq<(Seq<char>, PreviewV)>
    decreases s.len(),
{
    if s.len() == 0 {
        seq![(key, val)]
    } else if lex_lt(key, s[0].0) {
        seq![(key, val)] + s
    } else {
        seq![s[0]] + sorted_insert(s.skip(1), key, val)
    }
}

/// The keys of an association sequence are pairwise distinct.
pub open spec fn unique_keys<X>(s: Seq<(Seq<char>, X)>) -> bool {
    forall|i: int, j: int| 0 <= i < j < s.len() ==> s[i].0 != s[j].0
}

/// Strictly sorted by key in lexicographic order.
pub open spec fn strict_sorted(s: Seq<(Seq<char>, PreviewV)>) -> bool {
    forall|i: int, j: int| 0 <= i < j < s.len() ==> lex_lt(s[i].0, s[j].0)
}

impl CacheModel {
    /// The empty cache.
    pub open spec fn empty() -> CacheModel {
        CacheModel { previews: Seq::empty(), tasks: Seq::empty(), dirty: false }
    }

    /// A well-formed cache: previews strictly sorted (hence unique), task
    /// keys unique, and no unresolved task for an already-recorded URL.
    pub open spec fn wf(self) -> bool {
        &&& strict_sorted(self.previews)
        &&& unique_keys(self.tasks)
        &&& forall|i: int|
            0 <= i < self.tasks.len() && self.tasks[i].1 is None ==> assoc_find(
                self.previews,
                self.tasks[i].0,
            ) is None
    }

    /// The recorded preview for `url`, if any.
    pub open spec fn preview_of(self, url: Seq<char>) -> Option<PreviewV> {
        assoc_find(self.previews, url)
    }

    /// The task cell for `url`, if any.
    pub open spec fn task_of(self, url: Seq<char>) -> Option<Option<PreviewEventV>> {
        assoc_find(self.tasks, url)
    }
}

/// A request for `url` starts a new fetch exactly when no record and no
/// in-flight task exists for it.
pub open spec fn request_is_new(m: CacheModel, url: Seq<char>) -> bool {
    m.preview_of(url) is None && m.task_of(url) is None
}

/// The cache state after a request for `url`: unchanged unless the
/// request is new, in which case an unresolved task cell is registered.
pub open spec fn request_post(m: CacheModel, url: Seq<char>) -> CacheModel {
    if request_is_new(m, url) {
        CacheModel { tasks: m.tasks.push((url, None)), ..m }
    } else {
        m
    }
}

/// What a request for `url` observes at once: the recorded preview as an
/// already-finished outcome, else the current value of the task cell.
pub open spec fn request_result(m: CacheModel, url: Seq<char>) -> Option<PreviewEventV> {
    match m.preview_of(url) {
        Some(p) => Some(PreviewEventV::Finished(p)),
        None => match m.task_of(url) {
            Some(cell) => cell,
            None => None,
        },
    }
}

/// A preview record truncated to the persisted limits: title and
/// description to at most 200 characters.
pub open spec fn trunc_preview(p: PreviewV) -> PreviewV {
    PreviewV { title: trunc(p.title, 200), description: trunc(p.description, 200), image: p.image }
}

/// The truncated event that resolution publishes.
pub open spec fn trunc_event(ev: PreviewEventV) -> PreviewEventV {
    match ev {
        PreviewEventV::Finished(p) => PreviewEventV::Finished(trunc_preview(p)),
        PreviewEventV::Failed(msg) => PreviewEventV::Failed(msg),
    }
}

/// The cache state after the fetch for `url` resolves with `ev`: the
/// task cell holds the published outcome; a successful outcome is
/// recorded in the previews and marks the cache dirty; a failure is
/// never recorded.
pub open spec fn resolve_post(m: CacheModel, url: Seq<char>, ev: PreviewEventV) -> CacheModel {
    let published = trunc_event(ev);
    let tasks = assoc_update(m.tasks, url, Some(published));
    match published {
        PreviewEventV::Finished(p) => CacheModel {
            previews: sorted_insert(m.previews, url, p),
            tasks: tasks,
            dirty: true,
        },
        PreviewEventV::Failed(_) => CacheModel { tasks: tasks, ..m },
    }
}

/// The cache state after a waiter drains the resolved task for `url`:
/// the task cell is removed, so a drained failure is forgotten and a
/// later request fetches again.
pub open spec fn drain_post(m: CacheModel, url: Seq<char>) -> CacheModel {
    match m.task_of(url) {
        Some(Some(_)) => CacheModel { tasks: assoc_remove(m.tasks, url), ..m },
        _ => m,
    }
}

/// Export is due exactly when the cache is dirty and non-empty; an empty
/// cache never materializes a file.
pub open spec fn export_due(m: CacheModel) -> bool {
    m.dirty && m.previews.len() > 0
}

/// The cache state after an export attempt: the dirty flag is cleared,
/// nothing else changes.
pub open spec fn export_post(m: CacheModel) -> CacheModel {
    CacheModel { dirty: false, ..m }
}

// ---------------------------------------------------------------------
// Laws of the model.
// ---------------------------------------------------------------------
/// Singleflight: once a request for a URL has registered a fetch, every
/// further request for that URL before resolution is not a new request
/// and leaves the cache unchanged — so of any number of concurrent
/// requests for one URL, exactly the first starts a fetch.
pub proof fn lemma_singleflight(m: CacheModel, url: Seq<char>)
    requires
        request_is_new(m, url),
    ensures
        !request_is_new(request_post(m, url), url),
        request_post(request_post(m, url), url) == request_post(m, url),
{
    lemma_assoc_find_push(m.tasks, (url, None), url);
}

/// The cache after `k` successive requests for `url`, with no
/// resolution between them.
pub open spec fn requests_post(m: CacheModel, url: Seq<char>, k: nat) -> CacheModel
    decreases k,
{
    if k == 0 {
        m
    } else {
        request_post(requests_post(m, url, (k - 1) as nat), url)
    }
}

/// Singleflight for any number of requests: of `k >= 1` requests for
/// one URL before its fetch resolves, only the first can start a fetch
/// — the cache after all of them is the cache after the first, every
/// later request is not new, and every later request observes the same
/// value.
pub proof fn lemma_singleflight_many(m: CacheModel, url: Seq<char>, k: nat)
    requires
        k >= 1,
    ensures
        requests_post(m, url, k) == request_post(m, url),
        k >= 2 ==> !request_is_new(request_post(m, url), url),
        request_result(requests_post(m, url, k), url) == request_result(
            request_post(m, url),
            url,
        ),
    decreases k,
{
    if k == 1 {
        assert(requests_post(m, url, 0) == m);
        assert(requests_post(m, url, 1) == request_post(requests_post(m, url, 0), url));
    } else {
        lemma_singleflight_many(m, url, (k - 1) as nat);
        assert(requests_post(m, url, k) == request_post(
            requests_post(m, url, (k - 1) as nat),
            url,
        ));
        if request_is_new(m, url) {
            lemma_singleflight(m, url);
            assert(request_post(request_post(m, url), url) == request_post(m, url));
        } else {
            assert(request_post(m, url) == m);
        }
    }
}

/// No refetch on success: once a URL has a recorded preview, a request
/// for it is never new, observes that record as an already-finished
/// outcome, and leaves the cache unchanged.
pub proof fn lemma_no_refetch_on_success(m: CacheModel, url: Seq<char>, p: PreviewV)
    requires
        m.preview_of(url) == Some(p),
    ensures
        !request_is_new(m, url),
        request_post(m, url) == m,
        request_result(m, url) == Some(PreviewEventV::Finished(p)),
{
}

/// Retry on failure: a failed outcome is never recorded, and once the
/// failure has been drained, the next request for that URL starts a new
/// fetch.
pub proof fn lemma_retry_on_failure(m: CacheModel, url: Seq<char>, msg: Seq<char>)
    requires
        m.wf(),
        m.task_of(url) == Some(Option::<PreviewEventV>::None),
    ensures
        resolve_post(m, url, PreviewEventV::Failed(msg)).previews == m.previews,
        request_is_new(drain_post(resolve_post(m, url, PreviewEventV::Failed(msg)), url), url),
{
    let m1 = resolve_post(m, url, PreviewEventV::Failed(msg));
    lemma_assoc_update_find(m.tasks, url, Some(PreviewEventV::Failed(msg)));
    lemma_assoc_update_keys(m.tasks, url, Some(PreviewEventV::Failed(msg)));
    assert(m1.task_of(url) == Some(Some(PreviewEventV::Failed(msg))));
    let m2 = drain_post(m1, url);
    lemma_assoc_remove_find(m1.tasks, url);
    assert(m2.task_of(url) is None);
    lemma_task_none_not_recorded(m, url);
    assert(m.preview_of(url) is None);
}

/// Dirty-gated persistence: after a confirmed export, a repeated
/// export with no intervening mutation is never due (the file is
/// written at most once), and an export of an empty cache is never
/// due (an empty cache never materializes a file).
pub proof fn lemma_export_at_most_once(m: CacheModel)
    ensures
        !export_due(export_post(m)),
        m.previews.len() == 0 ==> !export_due(m),
{
}

// ---------------------------------------------------------------------
// Lemmas about association sequences.
// ---------------------------------------------------------------------
/// Finding in a sequence extended at the end.
pub proof fn lemma_assoc_find_push<X>(s: Seq<(Seq<char>, X)>, e: (Seq<char>, X), key: Seq<char>)
    ensures
        assoc_find(s, key) is Some ==> assoc_find(s.push(e), key) == assoc_find(s, key),
        assoc_find(s, key) is None && e.0 == key ==> assoc_find(s.push(e), key) == Some(e.1),
        assoc_find(s, key) is None && e.0 != key ==> assoc_find(s.push(e), key) is None,
    decreases s.len(),
{
    if s.len() == 0 {
        assert(s.push(e)[0] == e);
        assert(s.push(e).skip(1) =~= Seq::<(Seq<char>, X)>::empty());
        if e.0 != key {
            assert(assoc_find(s.push(e), key) == assoc_find(s.push(e).skip(1), key));
        }
    } else {
        assert(s.push(e)[0] == s[0]);
        assert(s.push(e).skip(1) =~= s.skip(1).push(e));
        lemma_assoc_find_push(s.skip(1), e, key);
        if s[0].0 == key {
            assert(assoc_find(s.push(e), key) == Some(s[0].1));
            assert(assoc_find(s, key) == Some(s[0].1));
        } else {
            assert(assoc_find(s.push(e), key) == assoc_find(s.skip(1).push(e), key));
            assert(assoc_find(s, key) == assoc_find(s.skip(1), key));
        }
    }
}

/// An unresolved task's URL is not yet recorded, in a well-formed cache.
pub proof fn lemma_task_none_not_recorded(m: CacheModel, url: Seq<char>)
    requires
        m.wf(),
        m.task_of(url) == Some(Option::<PreviewEventV>::None),
    ensures
        m.preview_of(url) is None,
{
    lemma_assoc_find_index(m.tasks, url);
}

/// A found key corresponds to some index holding it.
pub proof fn lemma_assoc_find_index<X>(s: Seq<(Seq<char>, X)>, key: Seq<char>)
    requires
        assoc_find(s, key) is Some,
    ensures
        exists|i: int|
            0 <= i < s.len() && s[i].0 == key && s[i].1 == assoc_find(s, key)->Some_0,
    decreases s.len(),
{
    if s.len() == 0 {
    } else if s[0].0 == key {
        assert(s[0].0 == key && s[0].1 == assoc_find(s, key)->Some_0);
    } else {
        lemma_assoc_find_index(s.skip(1), key);
        let i = choose|i: int|
            0 <= i < s.skip(1).len() && s.skip(1)[i].0 == key && s.skip(1)[i].1 == assoc_find(
                s.skip(1),
                key,
            )->Some_0;
        assert(s[i + 1].0 == key && s[i + 1].1 == assoc_find(s, key)->Some_0);
    }
}

/// Finding after an update by key.
pub proof fn lemma_assoc_update_find<X>(s: Seq<(Seq<char>, X)>, key: Seq<char>, val: X)
    ensures
        assoc_find(s, key) is Some ==> assoc_find(assoc_update(s, key, val), key) == Some(val),
        forall|k: Seq<char>|
            k != key ==> assoc_find(assoc_update(s, key, val), k) == assoc_find(s, k),
        assoc_find(s, key) is None ==> assoc_update(s, key, val) == s,
    decreases s.len(),
{
    if s.len() == 0 {
    } else if s[0].0 == key {
        let s2 = assoc_update(s, key, val);
        assert(s2[0] == (key, val));
        assert(s2.skip(1) =~= s.skip(1));
        assert forall|k: Seq<char>| k != key implies assoc_find(s2, k) == assoc_find(s, k) by {
            assert(assoc_find(s2, k) == assoc_find(s2.skip(1), k));
            assert(assoc_find(s, k) == assoc_find(s.skip(1), k));
        }
    } else {
        lemma_assoc_update_find(s.skip(1), key, val);
        let s2 = assoc_update(s, key, val);
        assert(s2[0] == s[0]);
        assert(s2.skip(1) =~= assoc_update(s.skip(1), key, val));
        if assoc_find(s, key) is Some {
            assert(assoc_find(s.skip(1), key) is Some);
            assert(assoc_find(s2, key) == assoc_find(s2.skip(1), key));
        }
        assert forall|k: Seq<char>| k != key implies assoc_find(s2, k) == assoc_find(s, k) by {
            if s[0].0 == k {
                assert(assoc_find(s2, k) == Some(s2[0].1));
            } else {
                assert(assoc_find(s2, k) == assoc_find(s2.skip(1), k));
                assert(assoc_find(s, k) == assoc_find(s.skip(1), k));
                assert(assoc_find(assoc_update(s.skip(1), key, val), k) == assoc_find(
                    s.skip(1),
                    k,
                ));
            }
        }
        if assoc_find(s.skip(1), key) is None {
            assert(s2 =~= s);
        }
    }
}

/// Finding after a removal by key.
pub proof fn lemma_assoc_remove_find<X>(s: Seq<(Seq<char>, X)>, key: Seq<char>)
    requires
        unique_keys(s),
    ensures
        assoc_find(assoc_remove(s, key), key) is None,
        forall|k: Seq<char>|
            k != key ==> assoc_find(assoc_remove(s, key), k) == assoc_find(s, k),
        unique_keys(assoc_remove(s, key)),
    decreases s.len(),
{
    if s.len() == 0 {
    } else if s[0].0 == key {
        assert(assoc_remove(s, key) =~= s.skip(1));
        assert forall|j: int| 0 <= j < s.skip(1).len() implies s.skip(1)[j].0 != key by {
            assert(s.skip(1)[j] == s[j + 1]);
        }
        lemma_assoc_find_none(s.skip(1), key);
        assert(unique_keys(s.skip(1))) by {
            assert(forall|i: int, j: int|
                0 <= i < j < s.skip(1).len() ==> s.skip(1)[i] == s[i + 1] && s.skip(1)[j] == s[j
                    + 1]);
        }
        assert forall|k: Seq<char>|
            k != key implies assoc_find(assoc_remove(s, key), k) == assoc_find(s, k) by {
            assert(assoc_find(s, k) == assoc_find(s.skip(1), k));
        }
    } else {
        assert(unique_keys(s.skip(1))) by {
            assert(forall|i: int, j: int|
                0 <= i < j < s.skip(1).len() ==> s.skip(1)[i] == s[i + 1] && s.skip(1)[j] == s[j
                    + 1]);
        }
        lemma_assoc_remove_find(s.skip(1), key);
        let s2 = assoc_remove(s, key);
        assert(s2[0] == s[0]);
        assert(s2.skip(1) =~= assoc_remove(s.skip(1), key));
        let r = assoc_remove(s.skip(1), key);
        assert forall|i: int, j: int| 0 <= i < j < s2.len() implies s2[i].0 != s2[j].0 by {
            if i == 0 {
                lemma_assoc_remove_membership(s.skip(1), key, j - 1);
            } else {
                assert(s2[i] == r[i - 1] && s2[j] == r[j - 1]);
            }
        }
        assert(assoc_find(s2, key) == assoc_find(s2.skip(1), key));
        assert forall|k: Seq<char>| k != key implies assoc_find(s2, k) == assoc_find(s, k) by {
            if s[0].0 == k {
                assert(assoc_find(s2, k) == Some(s2[0].1));
            } else {
                assert(assoc_find(s2, k) == assoc_find(s2.skip(1), k));
                assert(assoc_find(s, k) == assoc_find(s.skip(1), k));
                assert(assoc_find(assoc_remove(s.skip(1), key), k) == assoc_find(s.skip(1), k));
            }
        }
    }
}

/// If no element holds `key`, none is found.
pub proof fn lemma_assoc_find_none<X>(s: Seq<(Seq<char>, X)>, key: Seq<char>)
    requires
        forall|i: int| 0 <= i < s.len() ==> s[i].0 != key,
    ensures
        assoc_find(s, key) is None,
    decreases s.len(),
{
    if s.len() > 0 {
        assert(forall|i: int| 0 <= i < s.skip(1).len() ==> s.skip(1)[i] == s[i + 1]);
        lemma_assoc_find_none(s.skip(1), key);
    }
}

/// Every element surviving a removal was already present.
pub proof fn lemma_assoc_remove_membership<X>(s: Seq<(Seq<char>, X)>, key: Seq<char>, i: int)
    requires
        0 <= i < assoc_remove(s, key).len(),
    ensures
        exists|j: int| 0 <= j < s.len() && s[j] == assoc_remove(s, key)[i],
    decreases s.len(),
{
    if s.len() == 0 {
    } else if s[0].0 == key {
        assert(assoc_remove(s, key)[i] == s[i + 1]);
    } else {
        let s2 = assoc_remove(s, key);
        assert(s2[0] == s[0]);
        if i == 0 {
        } else {
            assert(s2.skip(1) =~= assoc_remove(s.skip(1), key));
            lemma_assoc_remove_membership(s.skip(1), key, i - 1);
            let j = choose|j: int|
                0 <= j < s.skip(1).len() && s.skip(1)[j] == assoc_remove(s.skip(1), key)[i - 1];
            assert(s[j + 1] == s2[i]);
        }
    }
}

// ---------------------------------------------------------------------
// The executable cache.
// ---------------------------------------------------------------------
/// The process-wide content cache. Constructed explicitly (from the
/// persisted file or empty) and handed to every component that needs it.
pub struct GenkitData {
    markdown_config: MarkdownConfig,
    preview_tasks: Vec<(String, Option<PreviewEvent>)>,
    url_previews: Vec<(String, UrlPreviewInfo)>,
    dirty: bool,
}

impl GenkitData {
    /// The abstract state of this cache.
    pub closed spec fn model(self) -> CacheModel {
        CacheModel {
            previews: self.url_previews@.map_values(
                |e: (String, UrlPreviewInfo)| (e.0@, e.1@),
            ),
            tasks: self.preview_tasks@.map_values(
                |e: (String, Option<PreviewEvent>)|
                    (
                        e.0@,
                        match e.1 {
                            Some(ev) => Some(ev@),
                            None => None,
                        },
                    ),
            ),
            dirty: self.dirty,
        }
    }

    /// The current Markdown configuration.
    pub closed spec fn spec_config(self) -> MarkdownConfig {
        self.markdown_config
    }

    pub open spec fn wf(self) -> bool {
        self.model().wf()
    }

    /// An empty cache with the default Markdown configuration.
    pub fn new() -> (d: GenkitData)
        ensures
            d.wf(),
            d.model() == CacheModel::empty(),
            d.spec_config().highlight_code == true,
            d.spec_config().highlight_theme@ == "monokai"@,
    {
        let d = GenkitData {
            markdown_config: MarkdownConfig::default(),
            preview_tasks: Vec::new(),
            url_previews: Vec::new(),
            dirty: false,
        };
        proof {
            assert(d.model().previews =~= CacheModel::empty().previews);
            assert(d.model().tasks =~= CacheModel::empty().tasks);
        }
        d
    }

    /// Replace the Markdown configuration.
    pub fn set_markdown_config(&mut self, config: MarkdownConfig)
        ensures
            final(self).model() == old(self).model(),
            final(self).spec_config() == config,
    {
        self.markdown_config = config;
    }

    /// Read the Markdown configuration.
    pub fn get_markdown_config(&self) -> (r: &MarkdownConfig)
        ensures
            r == self.spec_config(),
    {
        &self.markdown_config
    }

    /// A point lookup of the recorded preview for `url`. Never blocks and
    /// never triggers a fetch. The store is held by one caller at a time,
    /// so a point read always succeeds: there is no contended-read
    /// failure path, by design.
    pub fn get_preview(&self, url: &str) -> (r: Option<UrlPreviewInfo>)
        ensures
            match r {
                Some(p) => self.model().preview_of(url@) == Some(p@),
                None => self.model().preview_of(url@) is None,
            },
    {
        let n = self.url_previews.len();
        let mut i: usize = 0;
        proof {
            assert(self.model().previews.skip(0) =~= self.model().previews);
        }
        loop
            invariant
                i <= n,
                n == self.url_previews.len(),
                self.model().previews.len() == n,
                assoc_find(self.model().previews, url@) == assoc_find(
                    self.model().previews.skip(i as int),
                    url@,
                ),
            decreases n - i,
        {
            if i == n {
                return None;
            }
            let e = &self.url_previews[i];
            proof {
                assert(self.model().previews.skip(i as int)[0] == self.model().previews[i as int]);
                assert(self.model().previews[i as int].0 == e.0@);
                assert(self.model().previews.skip(i as int).skip(1) =~= self.model().previews.skip(
                    i + 1,
                ));
            }
            if crate::text::str_eq(e.0.as_str(), url) {
                return Some(e.1.duplicate());
            }
            i = i + 1;
        }
    }

    /// Find the index of the task cell for `url`.
    fn find_task(&self, url: &str) -> (r: Option<usize>)
        ensures
            match r {
                Some(i) => i < self.model().tasks.len() && self.model().tasks[i as int].0 == url@
                    && self.model().task_of(url@) == Some(self.model().tasks[i as int].1),
                None => self.model().task_of(url@) is None,
            },
    {
        let n = self.preview_tasks.len();
        let mut i: usize = 0;
        proof {
            assert(self.model().tasks.skip(0) =~= self.model().tasks);
        }
        loop
            invariant
                i <= n,
                n == self.preview_tasks.len(),
                self.model().tasks.len() == n,
                assoc_find(self.model().tasks, url@) == assoc_find(
                    self.model().tasks.skip(i as int),
                    url@,
                ),
            decreases n - i,
        {
            if i == n {
                return None;
            }
            let e = &self.preview_tasks[i];
            proof {
                assert(self.model().tasks.skip(i as int)[0] == self.model().tasks[i as int]);
                assert(self.model().tasks[i as int].0 == e.0@);
                assert(self.model().tasks.skip(i as int).skip(1) =~= self.model().tasks.skip(
                    i + 1,
                ));
            }
            if crate::text::str_eq(e.0.as_str(), url) {
                proof {
                    lemma_assoc_skip_found(self.model().tasks, url@, i as int);
                }
                return Some(i);
            }
            i = i + 1;
        }
    }

    /// Request a preview for `url`. Returns whether this request starts a
    /// new fetch (the caller must then run the fetch and resolve it), and
    /// what the request observes at once: the recorded preview as an
    /// already-finished outcome, the outcome already published to the
    /// in-flight cell, or nothing while the fetch is pending.
    pub fn preview_url(&mut self, url: &str) -> (r: (bool, Option<PreviewEvent>))
        requires
            old(self).wf(),
        ensures
            final(self).wf(),
            r.0 == request_is_new(old(self).model(), url@),
            final(self).model() == request_post(old(self).model(), url@),
            final(self).spec_config() == old(self).spec_config(),
            match r.1 {
                Some(ev) => request_result(old(self).model(), url@) == Some(ev@),
                None => request_result(old(self).model(), url@) is None,
            },
    {
        if let Some(p) = self.get_preview(url) {
            return (false, Some(PreviewEvent::Finished(p)));
        }
        if let Some(i) = self.find_task(url) {
            let cell = &self.preview_tasks[i].1;
            let observed = match cell {
                Some(ev) => Some(ev.duplicate()),
                None => None,
            };
            return (false, observed);
        }
        let ghost old_model = self.model();
        let key = url.to_owned();
        self.preview_tasks.push((key, None));
        proof {
            assert(self.model().tasks =~= old_model.tasks.push((url@, None)));
            assert(self.model().previews =~= old_model.previews);
            lemma_assoc_find_push(old_model.tasks, (url@, Option::<PreviewEventV>::None), url@);
            assert forall|i: int, j: int|
                0 <= i < j < self.model().tasks.len() implies self.model().tasks[i].0
                != self.model().tasks[j].0 by {
                if j < old_model.tasks.len() {
                } else {
                    assert(self.model().tasks[j].0 == url@);
                    if old_model.tasks[i].0 == url@ {
                        lemma_assoc_find_some(old_model.tasks, i);
                    }
                }
            }
            assert forall|i: int|
                0 <= i < self.model().tasks.len() && self.model().tasks[i].1
                    is None implies assoc_find(self.model().previews, self.model().tasks[i].0)
                is None by {
                if i < old_model.tasks.len() {
                    assert(self.model().tasks[i] == old_model.tasks[i]);
                }
            }
        }
        (true, None)
    }

    /// Publish the outcome of the fetch for `url`: the task cell holds
    /// the (truncated) outcome; a success is recorded and marks the cache
    /// dirty; a failure is never recorded.
    pub fn resolve_preview(&mut self, url: &str, event: PreviewEvent)
        requires
            old(self).wf(),
            old(self).model().task_of(url@) == Some(Option::<PreviewEventV>::None),
        ensures
            final(self).wf(),
            final(self).model() == resolve_post(old(self).model(), url@, event@),
            final(self).spec_config() == old(self).spec_config(),
    {
        let ghost old_model = self.model();
        let ghost published_v = trunc_event(event@);
        let published = match event {
            PreviewEvent::Finished(info) => {
                let truncated = UrlPreviewInfo {
                    title: truncate_chars(info.title.as_str(), 200),
                    description: truncate_chars(info.description.as_str(), 200),
                    image: info.image,
                };
                PreviewEvent::Finished(truncated)
            },
            PreviewEvent::Failed(msg) => PreviewEvent::Failed(msg),
        };
        proof {
            assert(published@ == published_v);
        }
        let found = self.find_task(url);
        let i = match found {
            Some(i) => i,
            None => {
                proof {
                    assert(false);
                }
                0
            },
        };
        let dup = published.duplicate();
        self.set_task_cell(i, Some(dup));
        proof {
            lemma_assoc_update_at_index(old_model.tasks, i as int, url@, Some(published_v));
            assert(self.model().tasks == assoc_update(old_model.tasks, url@, Some(published_v)));
            lemma_assoc_update_keys(old_model.tasks, url@, Some(published_v));
        }
        match published {
            PreviewEvent::Finished(info) => {
                proof {
                    lemma_task_none_not_recorded(old_model, url@);
                }
                let ghost mid_tasks = self.model().tasks;
                self.insert_preview_sorted(url, info);
                self.dirty = true;
                proof {
                    assert(self.model().tasks == mid_tasks);
                    assert(self.model() == resolve_post(old_model, url@, event@));
                    assert forall|j: int|
                        0 <= j < self.model().tasks.len() && self.model().tasks[j].1
                            is None implies assoc_find(
                        self.model().previews,
                        self.model().tasks[j].0,
                    ) is None by {
                        assert(self.model().tasks[j] == old_model.tasks.update(
                            i as int,
                            (url@, Some(published_v)),
                        )[j]);
                        assert(j != i as int);
                        assert(self.model().tasks[j] == old_model.tasks[j]);
                        assert(old_model.tasks[j].0 != url@) by {
                            assert(old_model.tasks[i as int].0 == url@);
                        }
                        lemma_sorted_insert_find(
                            old_model.previews,
                            url@,
                            trunc_preview(event@->Finished_0),
                            old_model.tasks[j].0,
                        );
                    }
                }
            },
            PreviewEvent::Failed(_) => {
                proof {
                    assert(self.model() == resolve_post(old_model, url@, event@));
                    assert forall|j: int|
                        0 <= j < self.model().tasks.len() && self.model().tasks[j].1
                            is None implies assoc_find(
                        self.model().previews,
                        self.model().tasks[j].0,
                    ) is None by {
                        assert(self.model().tasks[j] == old_model.tasks.update(
                            i as int,
                            (url@, Some(published_v)),
                        )[j]);
                        assert(j != i as int);
                        assert(self.model().tasks[j] == old_model.tasks[j]);
                    }
                }
            },
        }
    }

    /// Write task cell `i`, keeping its key.
    fn set_task_cell(&mut self, i: usize, cell: Option<PreviewEvent>)
        requires
            i < old(self).model().tasks.len(),
        ensures
            final(self).model().tasks == old(self).model().tasks.update(
                i as int,
                (old(self).model().tasks[i as int].0, match cell {
                    Some(ev) => Some(ev@),
                    None => None,
                }),
            ),
            final(self).model().previews == old(self).model().previews,
            final(self).model().dirty == old(self).model().dirty,
            final(self).spec_config() == old(self).spec_config(),
    {
        let ghost old_tasks_vec = self.preview_tasks@;
        let ghost old_model = self.model();
        let pair = self.preview_tasks.remove(i);
        self.preview_tasks.insert(i, (pair.0, cell));
        proof {
            assert(self.preview_tasks@ =~= old_tasks_vec.update(
                i as int,
                (old_tasks_vec[i as int].0, cell),
            ));
            assert(self.model().tasks =~= old_model.tasks.update(
                i as int,
                (old_model.tasks[i as int].0, match cell {
                    Some(ev) => Some(ev@),
                    None => None,
                }),
            ));
            assert(self.model().previews =~= old_model.previews);
        }
    }

    /// The position of the first recorded key larger than `key`.
    fn preview_insert_pos(&self, key: &Vec<char>) -> (i: usize)
        ensures
            i <= self.model().previews.len(),
            forall|j: int| 0 <= j < i ==> !lex_lt(key@, self.model().previews[j].0),
            (i as int) < self.model().previews.len() ==> lex_lt(
                key@,
                self.model().previews[i as int].0,
            ),
    {
        let n = self.url_previews.len();
        let mut i: usize = 0;
        loop
            invariant
                i <= n,
                n == self.url_previews.len(),
                self.model().previews.len() == n,
                forall|j: int| 0 <= j < i ==> !lex_lt(key@, self.model().previews[j].0),
            decreases n - i,
        {
            if i == n {
                return i;
            }
            let e_chars = string_to_chars(self.url_previews[i].0.as_str());
            proof {
                assert(self.model().previews[i as int].0 == self.url_previews@[i as int].0@);
            }
            if chars_lex_lt(key, &e_chars) {
                return i;
            }
            i = i + 1;
        }
    }

    /// Insert a record for a URL that has none, keeping the previews
    /// sorted.
    fn insert_preview_sorted(&mut self, url: &str, info: UrlPreviewInfo)
        requires
            strict_sorted(old(self).model().previews),
            assoc_find(old(self).model().previews, url@) is None,
        ensures
            final(self).model().previews == sorted_insert(
                old(self).model().previews,
                url@,
                info@,
            ),
            strict_sorted(final(self).model().previews),
            final(self).model().tasks == old(self).model().tasks,
            final(self).model().dirty == old(self).model().dirty,
            final(self).spec_config() == old(self).spec_config(),
    {
        let ghost s = self.model().previews;
        let ghost old_tasks = self.model().tasks;
        let ghost inserted_view = info@;
        let key_chars = string_to_chars(url);
        let i = self.preview_insert_pos(&key_chars);
        proof {
            lemma_sorted_insert_at(s, url@, inserted_view, i as int);
        }
        self.url_previews.insert(i, (url.to_owned(), info));
        proof {
            assert(self.model().previews =~= s.take(i as int) + seq![(url@, inserted_view)]
                + s.skip(i as int));
            assert(self.model().tasks =~= old_tasks);
            lemma_sorted_insert_sorted(s, url@, inserted_view, i as int);
        }
    }

    /// Find the index of the record for `url`.
    fn find_preview_idx(&self, url: &str) -> (r: Option<usize>)
        ensures
            match r {
                Some(i) => i < self.model().previews.len() && self.model().previews[i as int].0
                    == url@ && self.model().preview_of(url@) == Some(
                    self.model().previews[i as int].1,
                ),
                None => self.model().preview_of(url@) is None,
            },
    {
        let n = self.url_previews.len();
        let mut i: usize = 0;
        proof {
            assert(self.model().previews.skip(0) =~= self.model().previews);
        }
        loop
            invariant
                i <= n,
                n == self.url_previews.len(),
                self.model().previews.len() == n,
                assoc_find(self.model().previews, url@) == assoc_find(
                    self.model().previews.skip(i as int),
                    url@,
                ),
            decreases n - i,
        {
            if i == n {
                return None;
            }
            let e = &self.url_previews[i];
            proof {
                assert(self.model().previews.skip(i as int)[0] == self.model().previews[i as int]);
                assert(self.model().previews[i as int].0 == e.0@);
                assert(self.model().previews.skip(i as int).skip(1) =~= self.model().previews.skip(
                    i + 1,
                ));
            }
            if crate::text::str_eq(e.0.as_str(), url) {
                return Some(i);
            }
            i = i + 1;
        }
    }

    /// Record a preview for `url`: replace the existing record, or
    /// insert a new one keeping the previews sorted.
    pub(crate) fn put_preview(&mut self, url: &str, info: UrlPreviewInfo)
        requires
            strict_sorted(old(self).model().previews),
        ensures
            final(self).model().previews == (if assoc_find(old(self).model().previews, url@)
                is Some {
                assoc_update(old(self).model().previews, url@, info@)
            } else {
                sorted_insert(old(self).model().previews, url@, info@)
            }),
            strict_sorted(final(self).model().previews),
            final(self).model().tasks == old(self).model().tasks,
            final(self).model().dirty == old(self).model().dirty,
            final(self).spec_config() == old(self).spec_config(),
    {
        let ghost s = self.model().previews;
        let ghost old_tasks = self.model().tasks;
        let ghost old_vec = self.url_previews@;
        let ghost info_view = info@;
        match self.find_preview_idx(url) {
            Some(i) => {
                proof {
                    lemma_sorted_unique(s);
                    lemma_assoc_update_at_index(s, i as int, url@, info_view);
                }
                let pair = self.url_previews.remove(i);
                self.url_previews.insert(i, (pair.0, info));
                proof {
                    assert(self.url_previews@ =~= old_vec.update(
                        i as int,
                        (old_vec[i as int].0, self.url_previews@[i as int].1),
                    ));
                    assert(self.model().previews =~= s.update(i as int, (url@, info_view)));
                    assert(self.model().tasks =~= old_tasks);
                    assert forall|a: int, b: int|
                        0 <= a < b < self.model().previews.len() implies lex_lt(
                        self.model().previews[a].0,
                        self.model().previews[b].0,
                    ) by {
                        assert(self.model().previews[a].0 == s[a].0);
                        assert(self.model().previews[b].0 == s[b].0);
                    }
                }
            },
            None => {
                self.insert_preview_sorted(url, info);
            },
        }
    }

    /// The persisted form of the cache, if a write is due: `Some` exactly
    /// when the cache is dirty and non-empty (an empty cache never yields
    /// a file). The cache itself is untouched: the caller writes the
    /// payload and confirms with [`Self::mark_exported`] only once the
    /// write succeeded, so a failed write leaves the cache dirty and a
    /// later export attempts the write again.
    pub fn export(&self) -> (r: Option<String>)
        ensures
            match r {
                Some(s) => export_due(self.model()) && s@ == crate::json::export_json_spec(
                    self.model().previews,
                ),
                None => !export_due(self.model()),
            },
    {
        if !self.dirty {
            return None;
        }
        if self.url_previews.len() == 0 {
            return None;
        }
        let json = crate::json::previews_to_json(&self.url_previews);
        Some(json)
    }

    /// Confirm a completed export attempt: the in-memory state now
    /// matches (or never diverged from) the persisted state, so the
    /// dirty flag is cleared and a repeated export is a no-op until the
    /// next mutation.
    pub fn mark_exported(&mut self)
        requires
            old(self).wf(),
        ensures
            final(self).wf(),
            final(self).spec_config() == old(self).spec_config(),
            final(self).model() == export_post(old(self).model()),
    {
        self.dirty = false;
    }

    /// Load a cache from the persisted file's text. `None` means the
    /// text is not a well-formed cache file.
    pub fn from_json(s: &str) -> (r: Option<GenkitData>)
        ensures
            match r {
                Some(d) => {
                    &&& crate::json::sp_file(s@) is Some
                    &&& d.wf()
                    &&& d.model().previews == crate::json::fold_entries(
                        crate::json::sp_file(s@)->Some_0,
                    )
                    &&& d.model().tasks == Seq::<(Seq<char>, Option<PreviewEventV>)>::empty()
                    &&& d.model().dirty == false
                    &&& d.spec_config().highlight_code == true
                    &&& d.spec_config().highlight_theme@ == "monokai"@
                },
                None => crate::json::sp_file(s@) is None,
            },
    {
        let v = string_to_chars(s);
        let entries = match crate::json::p_file(&v) {
            Some(e) => e,
            None => {
                return None;
            },
        };
        let ghost eview = entries@.map_values(|e: (String, UrlPreviewInfo)| (e.0@, e.1@));
        let mut d = GenkitData::new();
        let n = entries.len();
        let mut i: usize = 0;
        proof {
            assert(eview.take(0) =~= Seq::<(Seq<char>, PreviewV)>::empty());
            assert(d.model().previews =~= crate::json::fold_entries(eview.take(0)));
        }
        while i < n
            invariant
                i <= n,
                n == entries.len(),
                eview == entries@.map_values(|e: (String, UrlPreviewInfo)| (e.0@, e.1@)),
                eview.len() == n,
                d.model().previews == crate::json::fold_entries(eview.take(i as int)),
                strict_sorted(d.model().previews),
                d.model().tasks == Seq::<(Seq<char>, Option<PreviewEventV>)>::empty(),
                d.model().dirty == false,
                d.spec_config().highlight_code == true,
                d.spec_config().highlight_theme@ == "monokai"@,
            decreases n - i,
        {
            let e = &entries[i];
            d.put_preview(e.0.as_str(), e.1.duplicate());
            proof {
                assert(eview.take(i + 1).drop_last() =~= eview.take(i as int));
                assert(eview.take(i + 1).last() == eview[i as int]);
                assert(eview[i as int] == (e.0@, e.1@));
            }
            i = i + 1;
        }
        proof {
            assert(eview.take(n as int) =~= eview);
            assert(d.wf());
        }
        Some(d)
    }

    /// Drain the resolved outcome for `url`: remove the task cell and
    /// hand the outcome to the caller. A pending or absent task is left
    /// alone.
    pub fn drain_preview(&mut self, url: &str) -> (r: Option<PreviewEvent>)
        requires
            old(self).wf(),
        ensures
            final(self).wf(),
            final(self).model() == drain_post(old(self).model(), url@),
            final(self).spec_config() == old(self).spec_config(),
            match r {
                Some(ev) => old(self).model().task_of(url@) == Some(Some(ev@)),
                None => !(old(self).model().task_of(url@) matches Some(Some(_))),
            },
    {
        let ghost old_model = self.model();
        let i = match self.find_task(url) {
            Some(i) => i,
            None => {
                return None;
            },
        };
        let resolved = self.preview_tasks[i].1.is_some();
        if !resolved {
            return None;
        }
        let removed = self.preview_tasks.remove(i);
        proof {
            lemma_assoc_remove_at_index(old_model.tasks, i as int, url@);
            assert(self.model().tasks =~= old_model.tasks.remove(i as int));
            assert(self.model().previews =~= old_model.previews);
            let t = self.model().tasks;
            assert(forall|a: int|
                0 <= a < t.len() ==> t[a] == (if a < i as int {
                    old_model.tasks[a]
                } else {
                    old_model.tasks[a + 1]
                }));
            assert forall|a: int, b: int| 0 <= a < b < t.len() implies t[a].0 != t[b].0 by {}
        }
        match removed.1 {
            Some(ev) => Some(ev),
            None => None,
        }
    }

    /// The URLs whose fetches are registered but not yet resolved, in
    /// registration order.
    pub fn pending_fetches(&self) -> (r: Vec<String>)
        ensures
            r@.map_values(|u: String| u@) == pending_spec(self.model().tasks),
    {
        let mut out: Vec<String> = Vec::new();
        let n = self.preview_tasks.len();
        let mut i: usize = 0;
        proof {
            assert(self.model().tasks.take(0) =~= Seq::<
                (Seq<char>, Option<PreviewEventV>),
            >::empty());
            assert(out@.map_values(|u: String| u@) =~= pending_spec(self.model().tasks.take(0)));
        }
        while i < n
            invariant
                i <= n,
                n == self.preview_tasks.len(),
                self.model().tasks.len() == n,
                out@.map_values(|u: String| u@) == pending_spec(self.model().tasks.take(i as int)),
            decreases n - i,
        {
            let ghost prefix = self.model().tasks.take(i as int);
            let e = &self.preview_tasks[i];
            if e.1.is_none() {
                out.push(e.0.clone());
            }
            proof {
                assert(self.model().tasks.take(i + 1) =~= prefix.push(
                    self.model().tasks[i as int],
                ));
                lemma_pending_push(prefix, self.model().tasks[i as int]);
                assert(self.model().tasks[i as int].0 == e.0@);
                if e.1.is_none() {
                    assert(out@.map_values(|u: String| u@) =~= pending_spec(prefix).push(e.0@));
                } else {
                    assert(out@.map_values(|u: String| u@) =~= pending_spec(prefix));
                }
            }
            i = i + 1;
        }
        proof {
            assert(self.model().tasks.take(n as int) =~= self.model().tasks);
        }
        out
    }

    /// A snapshot of all recorded previews, sorted by URL.
    pub fn get_all_previews(&self) -> (r: Vec<(String, UrlPreviewInfo)>)
        ensures
            r@.map_values(|e: (String, UrlPreviewInfo)| (e.0@, e.1@)) == self.model().previews,
    {
        let mut out: Vec<(String, UrlPreviewInfo)> = Vec::new();
        let n = self.url_previews.len();
        let mut i: usize = 0;
        proof {
            assert(out@.map_values(|e: (String, UrlPreviewInfo)| (e.0@, e.1@))
                =~= self.model().previews.take(0));
        }
        while i < n
            invariant
                i <= n,
                n == self.url_previews.len(),
                self.model().previews.len() == n,
                out@.map_values(|e: (String, UrlPreviewInfo)| (e.0@, e.1@))
                    == self.model().previews.take(i as int),
            decreases n - i,
        {
            let e = &self.url_previews[i];
            out.push((e.0.clone(), e.1.duplicate()));
            proof {
                assert(self.model().previews.take(i + 1) =~= self.model().previews.take(
                    i as int,
                ).push(self.model().previews[i as int]));
                assert(out@.map_values(|e: (String, UrlPreviewInfo)| (e.0@, e.1@))
                    =~= self.model().previews.take(i as int).push(
                    self.model().previews[i as int],
                ));
            }
            i = i + 1;
        }
        proof {
            assert(self.model().previews.take(n as int) =~= self.model().previews);
        }
        out
    }
}

/// The unresolved task keys, in order.
pub open spec fn pending_spec(tasks: Seq<(Seq<char>, Option<PreviewEventV>)>) -> Seq<Seq<char>> {
    tasks.filter(|e: (Seq<char>, Option<PreviewEventV>)| e.1 is None).map_values(
        |e: (Seq<char>, Option<PreviewEventV>)| e.0,
    )
}

proof fn lemma_pending_push(s: Seq<(Seq<char>, Option<PreviewEventV>)>, e: (Seq<char>, Option<
    PreviewEventV,
>))
    ensures
        pending_spec(s.push(e)) == if e.1 is None {
            pending_spec(s).push(e.0)
        } else {
            pending_spec(s)
        },
{
    reveal(Seq::filter);
    assert(s.push(e).drop_last() =~= s);
    if e.1 is None {
        assert(pending_spec(s.push(e)) =~= pending_spec(s).push(e.0));
    } else {
        assert(pending_spec(s.push(e)) =~= pending_spec(s));
    }
}

/// If some index is found before the scan reached it, the key occurs at
/// an earlier index too; used to justify first-match searches.
proof fn lemma_assoc_skip_found<X>(s: Seq<(Seq<char>, X)>, key: Seq<char>, i: int)
    requires
        0 <= i < s.len(),
        assoc_find(s, key) == assoc_find(s.skip(i), key),
        s[i].0 == key,
    ensures
        assoc_find(s, key) == Some(s[i].1),
{
    assert(s.skip(i)[0] == s[i]);
}

/// The key at any index is found.
proof fn lemma_assoc_find_some<X>(s: Seq<(Seq<char>, X)>, i: int)
    requires
        0 <= i < s.len(),
    ensures
        assoc_find(s, s[i].0) is Some,
    decreases s.len(),
{
    if s.len() > 0 {
        if i == 0 {
        } else {
            assert(s.skip(1)[i - 1] == s[i]);
            if s[0].0 != s[i].0 {
                lemma_assoc_find_some(s.skip(1), i - 1);
            }
        }
    }
}

/// Updating the first-match slot positionally equals the by-key update,
/// when the keys before `i` differ from the key at `i`.
proof fn lemma_assoc_update_at_index<X>(s: Seq<(Seq<char>, X)>, i: int, key: Seq<char>, val: X)
    requires
        0 <= i < s.len(),
        s[i].0 == key,
        assoc_find(s, key) == Some(s[i].1),
        unique_keys(s),
    ensures
        s.update(i, (key, val)) == assoc_update(s, key, val),
    decreases i,
{
    if s[0].0 == key {
        assert(i == 0) by {
            if i > 0 {
                assert(s[0].0 == s[i].0);
            }
        }
        assert(s.update(0, (key, val)) =~= seq![(key, val)] + s.skip(1));
    } else {
        assert(i > 0);
        assert(unique_keys(s.skip(1))) by {
            assert(forall|a: int, b: int|
                0 <= a < b < s.skip(1).len() ==> s.skip(1)[a] == s[a + 1] && s.skip(1)[b] == s[b
                    + 1]);
        }
        assert(s.skip(1)[i - 1] == s[i]);
        lemma_assoc_update_at_index(s.skip(1), i - 1, key, val);
        assert(s.update(i, (key, val)) =~= seq![s[0]] + s.skip(1).update(i - 1, (key, val)));
    }
}

/// Removing the first-match slot positionally equals the by-key removal.
proof fn lemma_assoc_remove_at_index<X>(s: Seq<(Seq<char>, X)>, i: int, key: Seq<char>)
    requires
        0 <= i < s.len(),
        s[i].0 == key,
        unique_keys(s),
    ensures
        s.remove(i) == assoc_remove(s, key),
    decreases i,
{
    if s[0].0 == key {
        assert(i == 0) by {
            if i > 0 {
                assert(s[0].0 == s[i].0);
            }
        }
        assert(s.remove(0) =~= s.skip(1));
    } else {
        assert(i > 0);
        assert(unique_keys(s.skip(1))) by {
            assert(forall|a: int, b: int|
                0 <= a < b < s.skip(1).len() ==> s.skip(1)[a] == s[a + 1] && s.skip(1)[b] == s[b
                    + 1]);
        }
        assert(s.skip(1)[i - 1] == s[i]);
        lemma_assoc_remove_at_index(s.skip(1), i - 1, key);
        assert(s.remove(i) =~= seq![s[0]] + s.skip(1).remove(i - 1));
    }
}

/// Keys after an update: unchanged.
proof fn lemma_assoc_update_keys<X>(s: Seq<(Seq<char>, X)>, key: Seq<char>, val: X)
    requires
        unique_keys(s),
    ensures
        assoc_update(s, key, val).len() == s.len(),
        forall|i: int| 0 <= i < s.len() ==> assoc_update(s, key, val)[i].0 == s[i].0,
        unique_keys(assoc_update(s, key, val)),
    decreases s.len(),
{
    if s.len() == 0 {
    } else if s[0].0 == key {
        let s2 = assoc_update(s, key, val);
        assert(forall|i: int| 1 <= i < s.len() ==> s2[i] == s.skip(1)[i - 1] && s.skip(1)[i - 1]
            == s[i]);
        assert(s2[0].0 == s[0].0);
    } else {
        assert(unique_keys(s.skip(1))) by {
            assert(forall|a: int, b: int|
                0 <= a < b < s.skip(1).len() ==> s.skip(1)[a] == s[a + 1] && s.skip(1)[b] == s[b
                    + 1]);
        }
        lemma_assoc_update_keys(s.skip(1), key, val);
        let s2 = assoc_update(s, key, val);
        assert(s2[0] == s[0]);
        assert(forall|i: int| 1 <= i < s.len() ==> s2[i] == assoc_update(s.skip(1), key, val)[i
            - 1] && s.skip(1)[i - 1] == s[i]);
    }
}

/// Inserting at the first position whose key is larger equals the
/// recursive sorted insertion.
proof fn lemma_sorted_insert_at(
    s: Seq<(Seq<char>, PreviewV)>,
    key: Seq<char>,
    val: PreviewV,
    i: int,
)
    requires
        0 <= i <= s.len(),
        forall|j: int| 0 <= j < i ==> !lex_lt(key, s[j].0),
        i < s.len() ==> lex_lt(key, s[i].0),
    ensures
        sorted_insert(s, key, val) == s.take(i) + seq![(key, val)] + s.skip(i),
    decreases i,
{
    if i == 0 {
        if s.len() == 0 {
            assert(sorted_insert(s, key, val) =~= s.take(0) + seq![(key, val)] + s.skip(0));
        } else {
            assert(lex_lt(key, s[0].0));
            assert(sorted_insert(s, key, val) =~= s.take(0) + seq![(key, val)] + s.skip(0));
        }
    } else {
        assert(!lex_lt(key, s[0].0));
        assert(forall|j: int| 0 <= j < i - 1 ==> s.skip(1)[j] == s[j + 1]);
        assert(i - 1 < s.skip(1).len() ==> s.skip(1)[i - 1] == s[i]);
        lemma_sorted_insert_at(s.skip(1), key, val, i - 1);
        assert(sorted_insert(s, key, val) =~= seq![s[0]] + (s.skip(1).take(i - 1) + seq![
            (key, val),
        ] + s.skip(1).skip(i - 1)));
        assert(seq![s[0]] + (s.skip(1).take(i - 1) + seq![(key, val)] + s.skip(1).skip(i - 1))
            =~= s.take(i) + seq![(key, val)] + s.skip(i));
    }
}

/// Sorted insertion of a fresh key keeps the sequence strictly sorted.
proof fn lemma_sorted_insert_sorted(
    s: Seq<(Seq<char>, PreviewV)>,
    key: Seq<char>,
    val: PreviewV,
    i: int,
)
    requires
        strict_sorted(s),
        assoc_find(s, key) is None,
        0 <= i <= s.len(),
        forall|j: int| 0 <= j < i ==> !lex_lt(key, s[j].0),
        i < s.len() ==> lex_lt(key, s[i].0),
    ensures
        strict_sorted(s.take(i) + seq![(key, val)] + s.skip(i)),
{
    let r = s.take(i) + seq![(key, val)] + s.skip(i);
    assert forall|a: int, b: int| 0 <= a < b < r.len() implies lex_lt(r[a].0, r[b].0) by {
        let ra = if a < i {
            s[a]
        } else if a == i {
            (key, val)
        } else {
            s[a - 1]
        };
        let rb = if b < i {
            s[b]
        } else if b == i {
            (key, val)
        } else {
            s[b - 1]
        };
        assert(r[a] == ra);
        assert(r[b] == rb);
        if a < i && b == i {
            assert(!lex_lt(key, s[a].0));
            if s[a].0 != key {
                if !lex_lt(s[a].0, key) {
                    lemma_lex_trichotomy(s[a].0, key);
                }
            } else {
                lemma_assoc_find_some(s, a);
            }
        } else if a == i && b > i {
            assert(lex_lt(key, s[i].0));
            if b - 1 > i {
                crate::text::lemma_lex_trans(key, s[i].0, s[b - 1].0);
            }
        } else {
        }
    }
}

/// Strictly sorted keys are pairwise distinct.
proof fn lemma_sorted_unique(s: Seq<(Seq<char>, PreviewV)>)
    requires
        strict_sorted(s),
    ensures
        unique_keys(s),
{
    assert forall|i: int, j: int| 0 <= i < j < s.len() implies s[i].0 != s[j].0 by {
        assert(lex_lt(s[i].0, s[j].0));
        if s[i].0 == s[j].0 {
            crate::text::lemma_lex_irrefl(s[i].0);
        }
    }
}

/// Finding in a sorted insertion of a fresh key: the inserted value for
/// the new key, the old result for every other key.
proof fn lemma_sorted_insert_find(
    s: Seq<(Seq<char>, PreviewV)>,
    key: Seq<char>,
    val: PreviewV,
    k: Seq<char>,
)
    requires
        assoc_find(s, key) is None,
    ensures
        k == key ==> assoc_find(sorted_insert(s, key, val), k) == Some(val),
        k != key ==> assoc_find(sorted_insert(s, key, val), k) == assoc_find(s, k),
    decreases s.len(),
{
    if s.len() == 0 {
        let r = sorted_insert(s, key, val);
        assert(r[0] == (key, val));
        assert(r.skip(1) =~= Seq::<(Seq<char>, PreviewV)>::empty());
        if k != key {
            assert(assoc_find(r, k) == assoc_find(r.skip(1), k));
        }
    } else if lex_lt(key, s[0].0) {
        let r = sorted_insert(s, key, val);
        assert(r[0] == (key, val));
        assert(r.skip(1) =~= s);
        if k != key {
            assert(assoc_find(r, k) == assoc_find(r.skip(1), k));
        }
    } else {
        assert(assoc_find(s, key) == assoc_find(s.skip(1), key));
        lemma_sorted_insert_find(s.skip(1), key, val, k);
        let r = sorted_insert(s, key, val);
        assert(r[0] == s[0]);
        assert(r.skip(1) =~= sorted_insert(s.skip(1), key, val));
        if s[0].0 == k {
            assert(assoc_find(r, k) == Some(s[0].1));
            assert(assoc_find(s, k) == Some(s[0].1));
        } else {
            assert(assoc_find(r, k) == assoc_find(r.skip(1), k));
            assert(assoc_find(s, k) == assoc_find(s.skip(1), k));
        }
    }
}

} // verus!
