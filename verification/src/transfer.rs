//! The transfer engine: which objects are copied, where to and how, and what each
//! object that was copied or not means for the transfer.
use vstd::prelude::*;
use crate::config::{Copying, TransferConfig};
use crate::progress::{reported_throughput, seconds, seconds_of, throughput, ProgressEvent};
use crate::store_url::{
    below, cloud_scheme, is_plain_path, is_plain_url, key_in, lemma_empty_path, object_path,
    object_path_text, resolve, resolves_plainly, resolves_to, scheme_of, slash_goes_below, tidied,
    tidying_once_is_enough, trailing_slash_changes_nothing, ResolvedStore, StoreUrlError,
};
use crate::text::{strip_prefix, trim_leading_slashes, without_leading, without_prefix};

verus! {

/// How one object is copied.
#[derive(Clone, Copy, PartialEq, Eq, Structural, Debug)]
pub enum CopyMethod {
    /// Streamed into a multipart upload.
    StreamMultipart,
    /// Fetched whole and put at once, for a local destination.
    StreamLocal,
    /// Fetched in ranges that are uploaded as parts, in order.
    ChunkedMultipart,
    /// Fetched in ranges that are put together and put at once.
    ChunkedBuffered,
    /// Small enough for one request: fetched whole and put at once.
    Whole,
}

/// An object that the source lists.
#[derive(Debug)]
pub struct ListedObject {
    pub location: String,
    pub size: u64,
}

/// What is to be done with one object.
#[derive(Debug)]
pub struct ObjectPlan {
    pub src_path: String,
    pub dst_path: String,
    pub size: u64,
    pub method: CopyMethod,
}

/// Whether a URL names a store in a cloud.
pub fn is_cloud_url(url: &str) -> (yes: bool)
    ensures
        yes == ("s3://"@.is_prefix_of(url@) || "gs://"@.is_prefix_of(url@) || "az://"@.is_prefix_of(
            url@,
        )),
        yes == (cloud_scheme(url@) is Some),
{
    scheme_of(url).is_some()
}

/// How an object of the given size is copied. Only a cloud takes multipart uploads.
pub open spec fn copy_method_for(config: TransferConfig, to_cloud: bool, size: u64) -> CopyMethod {
    match config.copying {
        Copying::Stream => if to_cloud {
            CopyMethod::StreamMultipart
        } else {
            CopyMethod::StreamLocal
        },
        Copying::Chunked { chunk_size, .. } => if size > chunk_size->0 {
            if to_cloud {
                CopyMethod::ChunkedMultipart
            } else {
                CopyMethod::ChunkedBuffered
            }
        } else {
            CopyMethod::Whole
        },
    }
}

/// How an object of the given size is copied.
pub fn copy_method(config: &TransferConfig, to_cloud: bool, size: u64) -> (method: CopyMethod)
    requires
        config.can_copy(),
    ensures
        method == copy_method_for(*config, to_cloud, size),
{
    match config.copying {
        Copying::Stream => if to_cloud {
            CopyMethod::StreamMultipart
        } else {
            CopyMethod::StreamLocal
        },
        Copying::Chunked { chunk_size, .. } => {
            let chunk: usize = chunk_size.unwrap();
            if size > chunk as u64 {
                if to_cloud {
                    CopyMethod::ChunkedMultipart
                } else {
                    CopyMethod::ChunkedBuffered
                }
            } else {
                CopyMethod::Whole
            }
        },
    }
}

/// Where an object lies below the source prefix.
pub open spec fn relative(location: Seq<char>, src_prefix: Seq<char>) -> Seq<char> {
    without_leading(without_prefix(location, src_prefix), '/')
}

/// The text of the path that an object is copied to, before the store's own encoding.
pub open spec fn target(
    location: Seq<char>,
    src_prefix: Seq<char>,
    dst_prefix: Seq<char>,
) -> Seq<char> {
    if dst_prefix.len() == 0 {
        relative(location, src_prefix)
    } else {
        dst_prefix + "/"@ + relative(location, src_prefix)
    }
}

/// The path that an object is copied to.
pub fn destination_path(location: &str, src_prefix: &str, dst_prefix: &str) -> (path: String)
    ensures
        path@ == object_path(target(location@, src_prefix@, dst_prefix@)),
        is_plain_path(target(location@, src_prefix@, dst_prefix@)) ==> path@ == tidied(
            target(location@, src_prefix@, dst_prefix@),
        ),
{
    let rel = trim_leading_slashes(strip_prefix(location, src_prefix));
    if dst_prefix.unicode_len() == 0 {
        object_path_text(rel)
    } else {
        let mut text = dst_prefix.to_owned();
        text.append("/");
        text.append(rel);
        object_path_text(text.as_str())
    }
}

/// The plan tells where an object is read from, where it is copied to, and how.
pub open spec fn plan_tells(
    plan: ObjectPlan,
    object: ListedObject,
    src_prefix: Seq<char>,
    dst_prefix: Seq<char>,
    config: TransferConfig,
    to_cloud: bool,
) -> bool {
    let to = target(object.location@, src_prefix, dst_prefix);
    &&& plan.src_path@ == object.location@
    &&& plan.dst_path@ == object_path(to)
    &&& is_plain_path(to) ==> plan.dst_path@ == tidied(to)
    &&& plan.size == object.size
    &&& plan.method == copy_method_for(config, to_cloud, object.size)
}

/// An object below the source prefix is copied to the same place below the destination
/// prefix, and plain paths stay plain.
pub proof fn copies_keep_their_place(
    src_prefix: Seq<char>,
    rel: Seq<char>,
    dst_prefix: Seq<char>,
)
    requires
        rel.len() > 0,
        rel[0] != '/',
        is_plain_path(rel),
        is_plain_path(dst_prefix),
    ensures
        ({
            let text = target(below(src_prefix, rel), src_prefix, dst_prefix);
            &&& is_plain_path(text)
            &&& tidied(text) == below(tidied(dst_prefix), tidied(rel))
        }),
{
    reveal_strlit("/");
    assert("/"@ =~= seq!['/']);
    let location = below(src_prefix, rel);
    assert(location.subrange(0, src_prefix.len() as int) =~= src_prefix);
    let rest = without_prefix(location, src_prefix);
    if src_prefix.len() == 0 {
        assert(rest =~= rel);
    } else {
        assert(rest =~= seq!['/'] + rel);
        assert(rest.skip(1) =~= rel);
    }
    assert(without_leading(rel, '/') == rel);
    assert(without_leading(rest, '/') == rel);
    slash_goes_below(dst_prefix, rel);
    if dst_prefix.len() == 0 {
        lemma_empty_path(dst_prefix);
    }
}

/// An object below the path of the source URL is copied to the same place below the path
/// that the destination URL spells out, with or without a slash at its end.
pub proof fn copies_follow_their_url(src_prefix: Seq<char>, rel: Seq<char>, dst_url: Seq<char>)
    requires
        rel.len() > 0,
        rel[0] != '/',
        is_plain_path(rel),
        is_plain_url(dst_url),
    ensures
        ({
            let key = key_in(dst_url);
            let text = target(below(src_prefix, rel), src_prefix, tidied(key));
            &&& is_plain_path(text)
            &&& tidied(text) == below(tidied(key), tidied(rel))
            &&& tidied(key.push('/')) == tidied(key)
        }),
{
    tidying_once_is_enough(key_in(dst_url));
    trailing_slash_changes_nothing(key_in(dst_url));
    copies_keep_their_place(src_prefix, rel, tidied(key_in(dst_url)));
}

/// What has become of an object.
#[derive(Clone, Copy, PartialEq, Eq, Structural, Debug)]
pub enum CopyState {
    Pending,
    Copied,
    Failed,
}

/// The bytes of all objects.
pub open spec fn total_of(sizes: Seq<u64>) -> nat
    decreases sizes.len(),
{
    if sizes.len() == 0 {
        0
    } else {
        total_of(sizes.drop_last()) + sizes.last() as nat
    }
}

/// The bytes of the objects that have been copied.
pub open spec fn copied_of(sizes: Seq<u64>, states: Seq<CopyState>) -> nat
    decreases sizes.len(),
{
    if sizes.len() == 0 {
        0
    } else {
        copied_of(sizes.drop_last(), states.drop_last()) + (if states.last() == CopyState::Copied {
            sizes.last() as nat
        } else {
            0
        })
    }
}

proof fn lemma_copied_at_most_total(sizes: Seq<u64>, states: Seq<CopyState>)
    requires
        sizes.len() == states.len(),
    ensures
        copied_of(sizes, states) <= total_of(sizes),
    decreases sizes.len(),
{
    if sizes.len() > 0 {
        lemma_copied_at_most_total(sizes.drop_last(), states.drop_last());
    }
}

proof fn lemma_state_change(sizes: Seq<u64>, states: Seq<CopyState>, i: int, to: CopyState)
    requires
        sizes.len() == states.len(),
        0 <= i < sizes.len(),
        states[i] == CopyState::Pending,
    ensures
        copied_of(sizes, states.update(i, to)) == copied_of(sizes, states) + (if to
            == CopyState::Copied {
            sizes[i] as nat
        } else {
            0
        }),
    decreases sizes.len(),
{
    let after = states.update(i, to);
    if i == sizes.len() - 1 {
        assert(after.drop_last() =~= states.drop_last());
    } else {
        assert(after.drop_last() =~= states.drop_last().update(i, to));
        lemma_state_change(sizes.drop_last(), states.drop_last(), i, to);
    }
}

proof fn lemma_all_copied(sizes: Seq<u64>, states: Seq<CopyState>)
    requires
        sizes.len() == states.len(),
        forall|i: int| 0 <= i < states.len() ==> #[trigger] states[i] == CopyState::Copied,
    ensures
        copied_of(sizes, states) == total_of(sizes),
    decreases sizes.len(),
{
    if sizes.len() > 0 {
        lemma_all_copied(sizes.drop_last(), states.drop_last());
    }
}

proof fn lemma_total_grows(sizes: Seq<u64>, n: int)
    requires
        0 <= n <= sizes.len(),
    ensures
        total_of(sizes.take(n)) <= total_of(sizes),
    decreases sizes.len(),
{
    if n == sizes.len() {
        assert(sizes.take(n) =~= sizes);
    } else {
        lemma_total_grows(sizes.drop_last(), n);
        assert(sizes.drop_last().take(n) =~= sizes.take(n));
    }
}

/// What happened to an object.
#[derive(Debug)]
pub enum TransferEvent {
    /// The object was copied, at the given time since the transfer started.
    Copied { object: usize, elapsed_secs: u64, elapsed_nanos: u32 },
    /// The object could not be copied.
    Failed { object: usize, error: String },
}

/// What follows from an event.
#[derive(Debug)]
pub struct TransferAction {
    /// A report to send.
    pub report: Option<ProgressEvent>,
    /// How the transfer has ended, once every object has been tried.
    pub outcome: Option<Result<u64, String>>,
}

/// What a running transfer is.
#[verifier::ext_equal]
pub struct TransferView {
    pub job_id: u128,
    pub sizes: Seq<u64>,
    pub states: Seq<CopyState>,
    /// The first failure.
    pub failure: Option<Seq<char>>,
}

impl TransferView {
    /// Every object has a state, the sizes can be counted, and there is a first failure
    /// if and only if an object failed.
    pub open spec fn wf(self) -> bool {
        &&& self.sizes.len() == self.states.len()
        &&& total_of(self.sizes) <= u64::MAX
        &&& self.failure is Some <==> exists|i: int|
            0 <= i < self.states.len() && #[trigger] self.states[i] == CopyState::Failed
    }

    pub open spec fn copied(self) -> nat {
        copied_of(self.sizes, self.states)
    }

    /// The object has not been tried yet.
    pub open spec fn pending(self, object: usize) -> bool {
        object < self.states.len() && self.states[object as int] == CopyState::Pending
    }

    /// Every object has been tried.
    pub open spec fn finished(self) -> bool {
        forall|i: int|
            0 <= i < self.states.len() ==> #[trigger] self.states[i] != CopyState::Pending
    }

    /// The transfer once an object has been copied.
    pub open spec fn after_copy(self, object: usize) -> TransferView {
        TransferView { states: self.states.update(object as int, CopyState::Copied), ..self }
    }

    /// The transfer once an object has failed; the first failure stays the first.
    pub open spec fn after_failure(self, object: usize, error: Seq<char>) -> TransferView {
        TransferView {
            states: self.states.update(object as int, CopyState::Failed),
            failure: if self.failure is Some {
                self.failure
            } else {
                Some(error)
            },
            ..self
        }
    }

    /// The transfer once an event has been taken in. What is said of an object that is
    /// not pending changes nothing.
    pub open spec fn after(self, event: TransferEvent) -> TransferView {
        match event {
            TransferEvent::Copied { object, .. } => if self.pending(object) {
                self.after_copy(object)
            } else {
                self
            },
            TransferEvent::Failed { object, error } => if self.pending(object) {
                self.after_failure(object, error@)
            } else {
                self
            },
        }
    }

    /// The report that an event calls for.
    pub open spec fn report(self, event: TransferEvent) -> Option<ProgressEvent> {
        match event {
            TransferEvent::Copied { object, elapsed_secs, elapsed_nanos } => if self.pending(
                object,
            ) {
                let done = self.after_copy(object).copied() as u64;
                Some(
                    ProgressEvent {
                        job_id: self.job_id,
                        bytes_transferred: done,
                        bytes_total: Some(total_of(self.sizes) as u64),
                        throughput_mbps: reported_throughput(
                            done,
                            seconds_of(elapsed_secs, elapsed_nanos),
                        ),
                    },
                )
            } else {
                None
            },
            TransferEvent::Failed { .. } => None,
        }
    }

    /// How the transfer has ended: with the bytes copied, or with the first failure.
    pub open spec fn outcome(self) -> Option<Result<u64, Seq<char>>> {
        if self.finished() {
            match self.failure {
                Some(error) => Some(Err(error)),
                None => Some(Ok(self.copied() as u64)),
            }
        } else {
            None
        }
    }
}

/// An outcome, with its error as a character sequence.
pub open spec fn outcome_view(outcome: Option<Result<u64, String>>) -> Option<
    Result<u64, Seq<char>>,
> {
    match outcome {
        Some(Ok(n)) => Some(Ok(n)),
        Some(Err(e)) => Some(Err(e@)),
        None => None,
    }
}

/// A transfer between two stores.
#[derive(Debug)]
pub struct TransferEngine {
    job_id: u128,
    src: ResolvedStore,
    dst: ResolvedStore,
    to_cloud: bool,
    sizes: Vec<u64>,
    states: Vec<CopyState>,
    left: usize,
    total: u64,
    done: u64,
    failure: Option<String>,
}

impl View for TransferEngine {
    type V = TransferView;

    closed spec fn view(&self) -> TransferView {
        TransferView {
            job_id: self.job_id,
            sizes: self.sizes@,
            states: self.states@,
            failure: match self.failure {
                Some(e) => Some(e@),
                None => None,
            },
        }
    }
}

/// How many objects have not been tried yet.
spec fn pending_count(states: Seq<CopyState>) -> nat
    decreases states.len(),
{
    if states.len() == 0 {
        0
    } else {
        pending_count(states.drop_last()) + (if states.last() == CopyState::Pending {
            1nat
        } else {
            0
        })
    }
}

proof fn lemma_one_less_pending(states: Seq<CopyState>, i: int, to: CopyState)
    requires
        0 <= i < states.len(),
        states[i] == CopyState::Pending,
        to != CopyState::Pending,
    ensures
        pending_count(states.update(i, to)) == pending_count(states) - 1,
    decreases states.len(),
{
    let after = states.update(i, to);
    if i == states.len() - 1 {
        assert(after.drop_last() =~= states.drop_last());
    } else {
        assert(after.drop_last() =~= states.drop_last().update(i, to));
        lemma_one_less_pending(states.drop_last(), i, to);
    }
}

proof fn lemma_none_pending(states: Seq<CopyState>)
    ensures
        pending_count(states) == 0 <==> (forall|i: int|
            0 <= i < states.len() ==> #[trigger] states[i] != CopyState::Pending),
    decreases states.len(),
{
    if states.len() > 0 {
        let rest = states.drop_last();
        lemma_none_pending(rest);
        assert(states[states.len() - 1] == states.last());
        if pending_count(rest) == 0 && states.last() != CopyState::Pending {
            assert forall|i: int| 0 <= i < states.len() implies #[trigger] states[i]
                != CopyState::Pending by {
                if i < rest.len() {
                    assert(rest[i] == states[i]);
                }
            }
        } else if pending_count(rest) > 0 {
            let i = choose|i: int| 0 <= i < rest.len() && rest[i] == CopyState::Pending;
            assert(states[i] == CopyState::Pending);
        }
    }
}

/// The sizes of listed objects.
pub open spec fn sizes_of(objects: Seq<ListedObject>) -> Seq<u64> {
    objects.map_values(|object: ListedObject| object.size)
}

/// The entries of a listing that name an object.
pub open spec fn named(entries: Seq<Option<ListedObject>>) -> Seq<ListedObject>
    decreases entries.len(),
{
    if entries.len() == 0 {
        Seq::empty()
    } else {
        match entries.last() {
            Some(object) => named(entries.drop_last()).push(object),
            None => named(entries.drop_last()),
        }
    }
}

/// The objects of a listing; an entry that could not be read is left out.
pub fn listed_objects(entries: Vec<Option<ListedObject>>) -> (objects: Vec<ListedObject>)
    ensures
        objects@ == named(entries@),
{
    let ghost all = entries@;
    let mut left = entries;
    let mut reversed: Vec<ListedObject> = Vec::new();
    assert(all.take(all.len() as int) =~= all);
    assert(reversed@.reverse() =~= Seq::<ListedObject>::empty());
    assert(named(all) =~= named(left@) + reversed@.reverse());
    while left.len() > 0
        invariant
            named(all) == named(left@) + reversed@.reverse(),
        decreases left.len(),
    {
        let ghost before = left@;
        let ghost tail = reversed@.reverse();
        let entry = left.pop();
        if let Some(Some(object)) = entry {
            reversed.push(object);
            proof {
                assert(reversed@.reverse() =~= seq![object] + tail);
                assert(named(before) + tail =~= named(left@) + reversed@.reverse());
            }
        }
    }
    let mut objects: Vec<ListedObject> = Vec::new();
    let ghost wanted = reversed@.reverse();
    assert(objects@ + reversed@.reverse() =~= wanted);
    while reversed.len() > 0
        invariant
            objects@ + reversed@.reverse() == wanted,
        decreases reversed.len(),
    {
        let ghost rest = reversed@;
        let ghost so_far = objects@;
        if let Some(object) = reversed.pop() {
            objects.push(object);
            proof {
                assert(rest.reverse() =~= seq![object] + reversed@.reverse());
                assert(objects@ + reversed@.reverse() =~= so_far + rest.reverse());
            }
        }
    }
    assert(objects@ =~= wanted);
    assert(named(all) =~= wanted);
    objects
}

/// Whether the bytes of all objects together can be counted.
pub fn total_fits(objects: &Vec<ListedObject>) -> (fits: bool)
    ensures
        fits == (total_of(sizes_of(objects@)) <= u64::MAX),
{
    let ghost sizes = sizes_of(objects@);
    let mut total: u64 = 0;
    let mut i: usize = 0;
    assert(sizes.take(0) =~= Seq::<u64>::empty());
    while i < objects.len()
        invariant
            i <= objects.len(),
            sizes == sizes_of(objects@),
            total == total_of(sizes.take(i as int)),
        decreases objects.len() - i,
    {
        proof {
            assert(sizes.take(i + 1).drop_last() =~= sizes.take(i as int));
            assert(sizes.take(i + 1).last() == objects@[i as int].size);
            lemma_total_grows(sizes, i + 1);
        }
        match total.checked_add(objects[i].size) {
            Some(sum) => {
                total = sum;
            },
            None => {
                return false;
            },
        }
        i += 1;
    }
    assert(sizes.take(i as int) =~= sizes);
    true
}

/// A transfer whose source has been found. The source is opened before anybody asks where
/// the transfer goes.
#[derive(Debug)]
pub struct TransferSource {
    job_id: u128,
    src: ResolvedStore,
}

impl TransferSource {
    pub closed spec fn id(&self) -> u128 {
        self.job_id
    }

    pub closed spec fn src_store(&self) -> ResolvedStore {
        self.src
    }

    /// Starts a transfer: finds its source.
    pub fn find(job_id: u128, src_url: &str) -> (r: Result<TransferSource, StoreUrlError>)
        ensures
            match r {
                Ok(source) => {
                    &&& source.id() == job_id
                    &&& resolves_to(src_url@, Ok(source.src_store()))
                    &&& is_plain_url(src_url@) ==> resolves_plainly(
                        src_url@,
                        Ok(source.src_store()),
                    )
                },
                Err(e) => resolves_to(src_url@, Err(e)) && !is_plain_url(src_url@),
            },
    {
        match resolve(src_url) {
            Ok(src) => Ok(TransferSource { job_id, src }),
            Err(e) => Err(e),
        }
    }

    /// The store to open.
    pub fn source(&self) -> (store: &ResolvedStore)
        ensures
            *store == self.src_store(),
    {
        &self.src
    }

    /// Goes on once the source is open: finds the destination.
    pub fn towards(self, dst_url: &str) -> (r: Result<TransferEngine, StoreUrlError>)
        ensures
            match r {
                Ok(engine) => {
                    &&& engine.src_store() == self.src_store()
                    &&& resolves_to(dst_url@, Ok(engine.dst_store()))
                    &&& is_plain_url(dst_url@) ==> resolves_plainly(
                        dst_url@,
                        Ok(engine.dst_store()),
                    )
                    &&& engine.is_to_cloud() == (cloud_scheme(dst_url@) is Some)
                    &&& engine.wf() && engine@.wf()
                    &&& engine@ == (TransferView {
                        job_id: self.id(),
                        sizes: Seq::empty(),
                        states: Seq::empty(),
                        failure: None,
                    })
                },
                Err(e) => resolves_to(dst_url@, Err(e)) && !is_plain_url(dst_url@),
            },
    {
        match resolve(dst_url) {
            Ok(dst) => Ok(
                TransferEngine::between(self.job_id, self.src, dst, is_cloud_url(dst_url)),
            ),
            Err(e) => Err(e),
        }
    }
}

impl TransferEngine {
    /// The counters agree with the objects.
    pub closed spec fn wf(&self) -> bool {
        &&& self@.wf()
        &&& self.total == total_of(self.sizes@)
        &&& self.done == copied_of(self.sizes@, self.states@)
        &&& self.left == pending_count(self.states@)
    }

    pub closed spec fn src_store(&self) -> ResolvedStore {
        self.src
    }

    pub closed spec fn dst_store(&self) -> ResolvedStore {
        self.dst
    }

    pub closed spec fn is_to_cloud(&self) -> bool {
        self.to_cloud
    }

    /// The stores and the job are the same.
    pub open spec fn same_route(&self, other: &TransferEngine) -> bool {
        &&& self.src_store() == other.src_store()
        &&& self.dst_store() == other.dst_store()
        &&& self.is_to_cloud() == other.is_to_cloud()
        &&& self@.job_id == other@.job_id
    }

    /// The counters of a well-formed engine agree with its view.
    pub proof fn view_is_wf(&self)
        requires
            self.wf(),
        ensures
            self@.wf(),
    {
    }

    /// The store that objects are read from.
    pub fn source(&self) -> (store: &ResolvedStore)
        ensures
            *store == self.src_store(),
    {
        &self.src
    }

    /// The store that objects are written to.
    pub fn destination(&self) -> (store: &ResolvedStore)
        ensures
            *store == self.dst_store(),
    {
        &self.dst
    }

    /// The engine for a transfer between two stores that are open.
    fn between(job_id: u128, src: ResolvedStore, dst: ResolvedStore, to_cloud: bool) -> (engine:
        TransferEngine)
        ensures
            engine.src_store() == src,
            engine.dst_store() == dst,
            engine.is_to_cloud() == to_cloud,
            engine.wf(),
            engine@.wf(),
            engine@ == (TransferView {
                job_id,
                sizes: Seq::empty(),
                states: Seq::empty(),
                failure: None,
            }),
    {
        let engine = TransferEngine {
            job_id,
            src,
            dst,
            to_cloud,
            sizes: Vec::new(),
            states: Vec::new(),
            left: 0,
            total: 0,
            done: 0,
            failure: None,
        };
        assert(engine@.sizes =~= Seq::empty() && engine@.states =~= Seq::empty());
        engine
    }

    /// The prefix to list: none where the source is a whole store.
    pub fn list_prefix(&self) -> (prefix: Option<&str>)
        ensures
            match prefix {
                Some(p) => p@ == self.src_store().prefix@ && p@.len() > 0,
                None => self.src_store().prefix@.len() == 0,
            },
    {
        if self.src.prefix.as_str().unicode_len() == 0 {
            None
        } else {
            Some(self.src.prefix.as_str())
        }
    }

    /// Plans the copy of every listed object.
    pub fn plan(&mut self, objects: &Vec<ListedObject>, config: &TransferConfig) -> (plans: Vec<
        ObjectPlan,
    >)
        requires
            old(self).wf(),
            objects@.len() > 0 ==> config.can_copy(),
            total_of(sizes_of(objects@)) <= u64::MAX,
        ensures
            final(self).wf(),
            final(self)@.wf(),
            final(self).same_route(old(self)),
            final(self)@ == (TransferView {
                job_id: old(self)@.job_id,
                sizes: sizes_of(objects@),
                states: Seq::new(objects@.len(), |i: int| CopyState::Pending),
                failure: None,
            }),
            plans@.len() == objects@.len(),
            forall|i: int|
                0 <= i < plans@.len() ==> plan_tells(
                    #[trigger] plans@[i],
                    objects@[i],
                    old(self).src_store().prefix@,
                    old(self).dst_store().prefix@,
                    *config,
                    old(self).is_to_cloud(),
                ),
    {
        let ghost all = sizes_of(objects@);
        let mut plans: Vec<ObjectPlan> = Vec::new();
        let mut sizes: Vec<u64> = Vec::new();
        let mut states: Vec<CopyState> = Vec::new();
        let mut total: u64 = 0;
        let mut i: usize = 0;
        assert(all.take(0) =~= Seq::<u64>::empty());
        while i < objects.len()
            invariant
                i <= objects.len(),
                objects@.len() > 0 ==> config.can_copy(),
                *self == *old(self),
                all == sizes_of(objects@),
                total_of(all) <= u64::MAX,
                total == total_of(all.take(i as int)),
                sizes@ == all.take(i as int),
                states@.len() == i,
                forall|j: int| 0 <= j < i ==> #[trigger] states@[j] == CopyState::Pending,
                pending_count(states@) == i,
                copied_of(sizes@, states@) == 0,
                plans@.len() == i,
                forall|j: int|
                    0 <= j < i ==> plan_tells(
                        #[trigger] plans@[j],
                        objects@[j],
                        old(self).src.prefix@,
                        old(self).dst.prefix@,
                        *config,
                        old(self).to_cloud,
                    ),
            decreases objects.len() - i,
        {
            let object = &objects[i];
            let size: u64 = object.size;
            proof {
                assert(all.take(i + 1).drop_last() =~= all.take(i as int));
                assert(all.take(i + 1).last() == size);
                lemma_total_grows(all, i + 1);
                assert(states@.push(CopyState::Pending).drop_last() =~= states@);
                assert(sizes@.push(size).drop_last() =~= sizes@);
                assert(sizes@.push(size) =~= all.take(i + 1));
            }
            plans.push(
                ObjectPlan {
                    src_path: object.location.clone(),
                    dst_path: destination_path(
                        object.location.as_str(),
                        self.src.prefix.as_str(),
                        self.dst.prefix.as_str(),
                    ),
                    size,
                    method: copy_method(config, self.to_cloud, size),
                },
            );
            sizes.push(size);
            states.push(CopyState::Pending);
            total += size;
            i += 1;
        }
        assert(all.take(i as int) =~= all);
        self.left = objects.len();
        self.sizes = sizes;
        self.states = states;
        self.total = total;
        self.done = 0;
        self.failure = None;
        assert(self@.states =~= Seq::new(objects@.len(), |i: int| CopyState::Pending));
        plans
    }

    /// The bytes that are to be copied.
    pub fn bytes_total(&self) -> (n: u64)
        requires
            self.wf(),
        ensures
            n == total_of(self@.sizes),
    {
        self.total
    }

    /// How the transfer has ended, once every object has been tried.
    pub fn outcome(&self) -> (outcome: Option<Result<u64, String>>)
        requires
            self.wf(),
        ensures
            outcome_view(outcome) == self@.outcome(),
    {
        proof {
            lemma_none_pending(self.states@);
        }
        if self.left > 0 {
            return None;
        }
        match &self.failure {
            Some(e) => Some(Err(e.clone())),
            None => Some(Ok(self.done)),
        }
    }

    /// Takes in what happened to an object: counts its bytes and reports the progress,
    /// or keeps the first failure. Every object is tried before the transfer ends.
    pub fn run(&mut self, event: TransferEvent) -> (action: TransferAction)
        requires
            old(self).wf(),
        ensures
            final(self).wf(),
            final(self)@.wf(),
            final(self).same_route(old(self)),
            final(self)@ == old(self)@.after(event),
            action.report == old(self)@.report(event),
            outcome_view(action.outcome) == final(self)@.outcome(),
    {
        let mut report: Option<ProgressEvent> = None;
        match event {
            TransferEvent::Copied { object, elapsed_secs, elapsed_nanos } => {
                if object < self.states.len() && self.states[object] == CopyState::Pending {
                    let ghost before = self@;
                    proof {
                        let at = object as int;
                        let after = before.after_copy(object);
                        lemma_state_change(self.sizes@, self.states@, at, CopyState::Copied);
                        lemma_one_less_pending(self.states@, at, CopyState::Copied);
                        lemma_copied_at_most_total(self.sizes@, after.states);
                        lemma_failures_stay(before, at, CopyState::Copied);
                    }
                    self.states.set(object, CopyState::Copied);
                    self.left -= 1;
                    self.done += self.sizes[object];
                    report = Some(
                        ProgressEvent {
                            job_id: self.job_id,
                            bytes_transferred: self.done,
                            bytes_total: Some(self.total),
                            throughput_mbps: throughput(
                                self.done,
                                seconds(elapsed_secs, elapsed_nanos),
                            ),
                        },
                    );
                }
            },
            TransferEvent::Failed { object, error } => {
                if object < self.states.len() && self.states[object] == CopyState::Pending {
                    let ghost before = self@;
                    proof {
                        let at = object as int;
                        lemma_state_change(self.sizes@, self.states@, at, CopyState::Failed);
                        lemma_one_less_pending(self.states@, at, CopyState::Failed);
                        lemma_failures_stay(before, at, CopyState::Failed);
                    }
                    self.states.set(object, CopyState::Failed);
                    self.left -= 1;
                    if self.failure.is_none() {
                        self.failure = Some(error);
                    }
                }
            },
        }
        TransferAction { report, outcome: self.outcome() }
    }
}

/// Trying a pending object leaves the failures of the others as they were.
proof fn lemma_failures_stay(before: TransferView, at: int, to: CopyState)
    requires
        before.wf(),
        0 <= at < before.states.len(),
        before.states[at] == CopyState::Pending,
    ensures
        ({
            let after = before.states.update(at, to);
            (exists|i: int| 0 <= i < after.len() && #[trigger] after[i] == CopyState::Failed) <==> (
            before.failure is Some || to == CopyState::Failed)
        }),
{
    let after = before.states.update(at, to);
    if before.failure is Some {
        let i = choose|i: int|
            0 <= i < before.states.len() && #[trigger] before.states[i] == CopyState::Failed;
        assert(after[i] == CopyState::Failed);
    }
    if to == CopyState::Failed {
        assert(after[at] == CopyState::Failed);
    }
    if exists|i: int| 0 <= i < after.len() && #[trigger] after[i] == CopyState::Failed {
        let i = choose|i: int| 0 <= i < after.len() && #[trigger] after[i] == CopyState::Failed;
        if i != at {
            assert(before.states[i] == CopyState::Failed);
        }
    }
}

/// A transfer that ends well has copied every object, and all of its bytes.
pub proof fn success_means_everything(t: TransferView, n: u64)
    requires
        t.wf(),
        t.outcome() == Some(Ok::<u64, Seq<char>>(n)),
    ensures
        n == total_of(t.sizes),
        forall|i: int| 0 <= i < t.states.len() ==> #[trigger] t.states[i] == CopyState::Copied,
{
    assert forall|i: int| 0 <= i < t.states.len() implies #[trigger] t.states[i]
        == CopyState::Copied by {
        assert(t.states[i] != CopyState::Failed);
    }
    lemma_all_copied(t.sizes, t.states);
}

/// A transfer in which an object has failed does not end well, whatever else happens.
pub proof fn failure_is_kept(t: TransferView, event: TransferEvent, error: Seq<char>)
    requires
        t.wf(),
        t.failure == Some(error),
    ensures
        t.after(event).failure == Some(error),
        t.after(event).outcome() matches Some(r) ==> r == Err::<u64, Seq<char>>(error),
{
}

/// The bytes reported never shrink, and never exceed the total.
pub proof fn progress_only_grows(t: TransferView, event: TransferEvent)
    requires
        t.wf(),
    ensures
        t.copied() <= t.after(event).copied() <= total_of(t.sizes),
        t.report(event) matches Some(report) ==> report.bytes_transferred == t.after(
            event,
        ).copied() && report.bytes_total == Some(total_of(t.sizes) as u64),
{
    lemma_copied_at_most_total(t.sizes, t.after(event).states);
    match event {
        TransferEvent::Copied { object, .. } => {
            if t.pending(object) {
                lemma_state_change(t.sizes, t.states, object as int, CopyState::Copied);
            }
        },
        TransferEvent::Failed { object, .. } => {
            if t.pending(object) {
                lemma_state_change(t.sizes, t.states, object as int, CopyState::Failed);
            }
        },
    }
}

} // verus!
