//! What holds of every synchronization run.
//!
//! The remote is taken to be a function from the strategy that queries it to
//! its answer: a remote that does not change between queries. A run is then
//! followed from any point to its end, and the statements below are proved
//! of what it comes to.

use crate::descriptor::{alias_parses_as_canonical, parsed_argument, split_descriptor};
use crate::error::SyncError;
use crate::github::{
    descriptor_strategy, is_success, resolution, ReplyView, ResponseView, StrategyView,
    VersionView,
};
use crate::sync::{
    advance, after_install, after_resolution, begin_spec, stored, InstallView, ProgressView,
    ResolutionView, RunView,
};
use vstd::prelude::*;

verus! {

/// What a run comes to when it does not fail: the store to save, and the
/// installations made on the way, each with the key of its source.
pub struct Outcome {
    pub store: Map<Seq<char>, Seq<char>>,
    pub installed: Seq<(Seq<char>, VersionView)>,
}

/// The outcome of a run that made one more installation at its start.
pub open spec fn preceded(first: (Seq<char>, VersionView), rest: Result<Outcome, SyncError>)
    -> Result<Outcome, SyncError> {
    match rest {
        Ok(o) => Ok(Outcome { store: o.store, installed: seq![first] + o.installed }),
        Err(e) => Err(e),
    }
}

/// What the run comes to from `p` on, when every query is answered as
/// `remote` says and every installation succeeds.
pub open spec fn outcome(p: ProgressView, remote: spec_fn(StrategyView) -> ResponseView) -> Result<
    Outcome,
    SyncError,
>
    decreases p.distance(),
    when p.well_formed()
{
    match p {
        ProgressView::Save(store) => Ok(Outcome { store, installed: Seq::empty() }),
        ProgressView::Failed(e) => Err(e),
        ProgressView::Resolve(w) => outcome(after_resolution(w, remote(w.strategy)), remote),
        ProgressView::Install(w) => preceded(
            (w.descriptor.canonical(), w.version),
            outcome(after_install(w), remote),
        ),
    }
}

/// The error on which a source fails, whatever the store holds: it cannot be
/// parsed, calls for no known strategy, or the remote's answer is an error.
pub open spec fn source_failure(
    source: Seq<u8>,
    remote: spec_fn(StrategyView) -> ResponseView,
) -> Option<SyncError> {
    match parsed_argument(source) {
        Err(e) => Some(e),
        Ok(d) => match descriptor_strategy(d) {
            Err(e) => Some(e),
            Ok(s) => match resolution(s, remote(s)) {
                Err(e) => Some(e),
                Ok(_) => None,
            },
        },
    }
}

/// The version that the remote publishes for the source with canonical form
/// `key`, if it publishes one.
pub open spec fn published(key: Seq<char>, remote: spec_fn(StrategyView) -> ResponseView) -> Option<
    VersionView,
> {
    match split_descriptor(key) {
        Some(d) => match descriptor_strategy(d) {
            Ok(s) => match resolution(s, remote(s)) {
                Ok(found) => found,
                Err(_) => None,
            },
            Err(_) => None,
        },
        None => None,
    }
}

/// The watermark of the version that the remote publishes under `key`.
pub open spec fn published_watermark(
    key: Seq<char>,
    remote: spec_fn(StrategyView) -> ResponseView,
) -> Option<Seq<char>> {
    match published(key, remote) {
        Some(v) => Some(v.watermark),
        None => None,
    }
}

/// The store key of a source: the canonical form of what it parses to.
pub open spec fn source_key(source: Seq<u8>) -> Option<Seq<char>> {
    match parsed_argument(source) {
        Ok(d) => Some(d.canonical()),
        Err(_) => None,
    }
}

/// Every state that a run turns to belongs to its run.
pub proof fn lemma_advance_well_formed(run: RunView)
    ensures
        advance(run).well_formed(),
        !(advance(run) is Install),
{
}

/// A descriptor is what its canonical form splits into.
pub proof fn lemma_key_determines_descriptor(source: Seq<u8>)
    ensures
        parsed_argument(source) matches Ok(d) ==> split_descriptor(d.canonical()) == Some(d),
{
    alias_parses_as_canonical(vstd::utf8::decode_utf8(source));
}

/// One source further: a run that turns to a source which does not fail
/// comes to what the run from the next source on comes to, after the
/// installation of what the remote publishes, if that is news to the store.
pub proof fn lemma_outcome_step(run: RunView, remote: spec_fn(StrategyView) -> ResponseView)
    requires
        run.cursor < run.sources.len(),
        source_failure(run.sources[run.cursor as int], remote) is None,
    ensures
        source_key(run.sources[run.cursor as int]) matches Some(key) && outcome(
            advance(run),
            remote,
        ) == match published(key, remote) {
            Some(v) => if stored(run.store, key) == Some(v.watermark) {
                outcome(advance(run.passed()), remote)
            } else {
                preceded((key, v), outcome(advance(run.recorded(key, v.watermark)), remote))
            },
            None => outcome(advance(run.passed()), remote),
        },
{
    let source = run.sources[run.cursor as int];
    lemma_key_determines_descriptor(source);
    let d = parsed_argument(source).unwrap();
    let s = descriptor_strategy(d).unwrap();
    let w = ResolutionView { run, descriptor: d, strategy: s };
    assert(advance(run) == ProgressView::Resolve(w));
    assert(w.well_formed());
    let next = after_resolution(w, remote(s));
    assert(outcome(advance(run), remote) == outcome(next, remote));
    match resolution(s, remote(s)) {
        Ok(Some(v)) => {
            if stored(run.store, d.canonical()) != Some(v.watermark) {
                let i = InstallView { run, descriptor: d, version: v };
                assert(next == ProgressView::Install(i));
                assert(i.well_formed());
                assert(outcome(next, remote) == preceded(
                    (d.canonical(), v),
                    outcome(after_install(i), remote),
                ));
            }
        },
        _ => {},
    }
}

/// Fail-fast: a run ends in the error of its first failing source, whatever
/// was resolved, installed or recorded for the sources before it. A run that
/// fails therefore never comes to a store to save.
pub proof fn first_failure_ends_run(
    run: RunView,
    remote: spec_fn(StrategyView) -> ResponseView,
    i: int,
)
    requires
        run.cursor <= i < run.sources.len(),
        source_failure(run.sources[i], remote) is Some,
        forall|j: int| run.cursor <= j < i ==> source_failure(run.sources[j], remote) is None,
    ensures
        outcome(advance(run), remote) == Err::<Outcome, SyncError>(
            source_failure(run.sources[i], remote).unwrap(),
        ),
    decreases i - run.cursor,
{
    let source = run.sources[run.cursor as int];
    if run.cursor == i {
        lemma_advance_well_formed(run);
        match parsed_argument(source) {
            Err(e) => {},
            Ok(d) => match descriptor_strategy(d) {
                Err(e) => {},
                Ok(s) => {
                    let w = ResolutionView { run, descriptor: d, strategy: s };
                    assert(advance(run) == ProgressView::Resolve(w));
                    assert(outcome(advance(run), remote) == outcome(
                        after_resolution(w, remote(s)),
                        remote,
                    ));
                },
            },
        }
    } else {
        lemma_outcome_step(run, remote);
        let key = source_key(source).unwrap();
        first_failure_ends_run(run.passed(), remote, i);
        match published(key, remote) {
            Some(v) => {
                first_failure_ends_run(run.recorded(key, v.watermark), remote, i);
            },
            None => {},
        }
    }
}

/// Watermark gating: where the resolved watermark is the stored one, the run
/// asks for no installation. It turns to the next source with the store as
/// it was.
pub proof fn current_watermark_is_not_installed(w: ResolutionView, response: ResponseView)
    requires
        resolution(w.strategy, response) matches Ok(Some(v)) && stored(
            w.run.store,
            w.descriptor.canonical(),
        ) == Some(v.watermark),
    ensures
        !(after_resolution(w, response) is Install),
        after_resolution(w, response) == advance(w.run.passed()),
        w.run.passed().store == w.run.store,
{
    lemma_advance_well_formed(w.run.passed());
}

/// A changed or unknown watermark is installed: where the store holds no
/// watermark for the source, or another than the resolved one, the run asks
/// for the installation of the resolved version.
pub proof fn changed_watermark_is_installed(w: ResolutionView, response: ResponseView)
    requires
        resolution(w.strategy, response) matches Ok(Some(v)) && stored(
            w.run.store,
            w.descriptor.canonical(),
        ) != Some(v.watermark),
    ensures
        resolution(w.strategy, response) matches Ok(Some(v)) && after_resolution(w, response)
            == ProgressView::Install(
            InstallView { run: w.run, descriptor: w.descriptor, version: v },
        ),
{
}

/// Clear forces reinstall: a run that starts with `clear` set starts from the
/// empty store, whatever the state document holds, and a store without a
/// watermark for a source has every resolved version of it installed.
pub proof fn clear_forces_install(
    document: Option<Seq<char>>,
    sources: Seq<Seq<u8>>,
    w: ResolutionView,
    response: ResponseView,
)
    requires
        resolution(w.strategy, response) matches Ok(Some(v)),
        !w.run.store.contains_key(w.descriptor.canonical()),
    ensures
        begin_spec(document, true, sources) == advance(
            RunView { store: Map::empty(), sources, cursor: 0 },
        ),
        forall|key: Seq<char>| stored(Map::<Seq<char>, Seq<char>>::empty(), key) is None,
        after_resolution(w, response) is Install,
{
}

/// An empty release listing is no error: the run turns to the next source
/// and the store stays as it was, with no watermark recorded for the source.
pub proof fn empty_listing_leaves_store(w: ResolutionView, response: ResponseView)
    requires
        w.strategy is Release,
        is_success(response.status),
        response.body == Some(ReplyView::Releases(Seq::empty())),
    ensures
        resolution(w.strategy, response) == Ok::<Option<VersionView>, SyncError>(None),
        after_resolution(w, response) == advance(w.run.passed()),
        w.run.passed().store == w.run.store,
{
}

/// The store holds, for each source from the cursor on for which the remote
/// publishes a version, that version's watermark.
pub open spec fn settled(run: RunView, remote: spec_fn(StrategyView) -> ResponseView) -> bool {
    forall|i: int|
        run.cursor <= i < run.sources.len() ==> match source_key(#[trigger] run.sources[i]) {
            Some(key) => match published_watermark(key, remote) {
                Some(mark) => stored(run.store, key) == Some(mark),
                None => true,
            },
            None => true,
        }
}

/// No source from the cursor on fails.
pub open spec fn unfailing(run: RunView, remote: spec_fn(StrategyView) -> ResponseView) -> bool {
    forall|i: int|
        run.cursor <= i < run.sources.len() ==> source_failure(#[trigger] run.sources[i], remote)
            is None
}

/// The key is the store key of one of the run's sources from the cursor on.
pub open spec fn names_source(run: RunView, key: Seq<char>) -> bool {
    exists|i: int|
        run.cursor <= i < run.sources.len() && source_key(#[trigger] run.sources[i]) == Some(key)
}

/// Each key of `after` holds what it holds in the run's store, unless it is
/// the store key of one of the run's sources: such a key may instead hold
/// the watermark that the remote publishes under it. No other key is moved,
/// added or removed.
pub open spec fn moved_towards(
    run: RunView,
    after: Map<Seq<char>, Seq<char>>,
    remote: spec_fn(StrategyView) -> ResponseView,
) -> bool {
    forall|key: Seq<char>|
        #![trigger stored(after, key)]
        stored(after, key) == stored(run.store, key) || (names_source(run, key) && stored(
            after,
            key,
        ) is Some && stored(after, key) == published_watermark(key, remote))
}

/// A run over sources that do not fail, from a store that is settled, makes
/// no installation and comes to the store it started from.
pub proof fn lemma_settled_run_is_idle(run: RunView, remote: spec_fn(StrategyView) -> ResponseView)
    requires
        run.cursor <= run.sources.len(),
        unfailing(run, remote),
        settled(run, remote),
    ensures
        outcome(advance(run), remote) == Ok::<Outcome, SyncError>(
            Outcome { store: run.store, installed: Seq::empty() },
        ),
    decreases run.sources.len() - run.cursor,
{
    lemma_advance_well_formed(run);
    if run.cursor < run.sources.len() {
        let source = run.sources[run.cursor as int];
        assert(source_failure(source, remote) is None);
        lemma_outcome_step(run, remote);
        let next = run.passed();
        assert(unfailing(next, remote)) by {
            assert forall|i: int| next.cursor <= i < next.sources.len() implies source_failure(
                #[trigger] next.sources[i],
                remote,
            ) is None by {
                assert(source_failure(run.sources[i], remote) is None);
            }
        }
        assert(settled(next, remote)) by {
            assert forall|i: int|
                next.cursor <= i < next.sources.len() implies match source_key(
                #[trigger] next.sources[i],
            ) {
                Some(key) => match published_watermark(key, remote) {
                    Some(mark) => stored(next.store, key) == Some(mark),
                    None => true,
                },
                None => true,
            } by {
                let _ = run.sources[i];
            }
        }
        lemma_settled_run_is_idle(next, remote);
    }
}

/// A run that does not fail met no failing source, leaves for each of its
/// sources the watermark that the remote publishes for it, if it publishes
/// one, and moved no key but those of its sources.
pub proof fn lemma_run_settles(run: RunView, remote: spec_fn(StrategyView) -> ResponseView)
    requires
        run.cursor <= run.sources.len(),
        outcome(advance(run), remote) is Ok,
    ensures
        unfailing(run, remote),
        settled(
            RunView { store: outcome(advance(run), remote).unwrap().store, ..run },
            remote,
        ),
        moved_towards(run, outcome(advance(run), remote).unwrap().store, remote),
    decreases run.sources.len() - run.cursor,
{
    lemma_advance_well_formed(run);
    let end = outcome(advance(run), remote).unwrap().store;
    if run.cursor < run.sources.len() {
        let source = run.sources[run.cursor as int];
        if source_failure(source, remote) is Some {
            first_failure_ends_run(run, remote, run.cursor as int);
        }
        lemma_outcome_step(run, remote);
        let key = source_key(source).unwrap();
        let next = match published(key, remote) {
            Some(v) => if stored(run.store, key) == Some(v.watermark) {
                run.passed()
            } else {
                run.recorded(key, v.watermark)
            },
            None => run.passed(),
        };
        assert(outcome(advance(next), remote) is Ok);
        assert(outcome(advance(next), remote).unwrap().store == end);
        lemma_run_settles(next, remote);
        assert(names_source(run, key)) by {
            assert(source_key(run.sources[run.cursor as int]) == Some(key));
        }
        assert(moved_towards(run, end, remote)) by {
            assert forall|k: Seq<char>|
                #![trigger stored(end, k)]
                stored(end, k) == stored(run.store, k) || (names_source(run, k) && stored(
                    end,
                    k,
                ) is Some && stored(end, k) == published_watermark(k, remote)) by {
                let _ = stored(end, k);
                if names_source(next, k) {
                    let i = choose|i: int|
                        next.cursor <= i < next.sources.len() && source_key(
                            #[trigger] next.sources[i],
                        ) == Some(k);
                    assert(source_key(run.sources[i]) == Some(k));
                }
                if k != key {
                    assert(stored(next.store, k) == stored(run.store, k));
                }
            }
        }
        assert(unfailing(run, remote)) by {
            assert forall|i: int| run.cursor <= i < run.sources.len() implies source_failure(
                #[trigger] run.sources[i],
                remote,
            ) is None by {
                if i > run.cursor {
                    assert(source_failure(next.sources[i], remote) is None);
                }
            }
        }
        let last = RunView { store: end, ..run };
        let last_next = RunView { store: end, ..next };
        assert(settled(last, remote)) by {
            assert forall|i: int|
                last.cursor <= i < last.sources.len() implies match source_key(
                #[trigger] last.sources[i],
            ) {
                Some(key) => match published_watermark(key, remote) {
                    Some(mark) => stored(last.store, key) == Some(mark),
                    None => true,
                },
                None => true,
            } by {
                if i > run.cursor {
                    let _ = last_next.sources[i];
                } else {
                    let _ = stored(end, key);
                }
            }
        }
    } else {
        assert(moved_towards(run, end, remote));
    }
}

/// A run moves no key but those of its own sources: a key that is the store
/// key of none of them holds at the end of the run what it held at its
/// start, or is absent as it was.
pub proof fn other_keys_are_kept(
    store: Map<Seq<char>, Seq<char>>,
    sources: Seq<Seq<u8>>,
    remote: spec_fn(StrategyView) -> ResponseView,
    key: Seq<char>,
)
    requires
        outcome(advance(RunView { store, sources, cursor: 0 }), remote) is Ok,
        forall|i: int| 0 <= i < sources.len() ==> source_key(#[trigger] sources[i]) != Some(key),
    ensures
        stored(outcome(advance(RunView { store, sources, cursor: 0 }), remote).unwrap().store, key)
            == stored(store, key),
{
    let run = RunView { store, sources, cursor: 0 };
    lemma_run_settles(run, remote);
    let end = outcome(advance(run), remote).unwrap().store;
    let _ = stored(end, key);
    if names_source(run, key) {
        let i = choose|i: int|
            run.cursor <= i < run.sources.len() && source_key(#[trigger] run.sources[i]) == Some(
                key,
            );
        assert(source_key(sources[i]) != Some(key));
    }
}

/// Idempotence: when a run has come to its end without failure and the
/// remote has not changed, a second run over the same sources, started from
/// the store that the first one left, installs nothing and leaves that store
/// as it is.
pub proof fn second_run_is_idle(
    store: Map<Seq<char>, Seq<char>>,
    sources: Seq<Seq<u8>>,
    remote: spec_fn(StrategyView) -> ResponseView,
)
    requires
        outcome(advance(RunView { store, sources, cursor: 0 }), remote) is Ok,
    ensures
        ({
            let first = outcome(advance(RunView { store, sources, cursor: 0 }), remote).unwrap();
            outcome(advance(RunView { store: first.store, sources, cursor: 0 }), remote) == Ok::<
                Outcome,
                SyncError,
            >(Outcome { store: first.store, installed: Seq::empty() })
        }),
{
    let run = RunView { store, sources, cursor: 0 };
    lemma_run_settles(run, remote);
    let first = outcome(advance(run), remote).unwrap();
    let again = RunView { store: first.store, sources, cursor: 0 };
    assert(unfailing(again, remote)) by {
        assert forall|i: int| again.cursor <= i < again.sources.len() implies source_failure(
            #[trigger] again.sources[i],
            remote,
        ) is None by {
            assert(source_failure(run.sources[i], remote) is None);
        }
    }
    lemma_settled_run_is_idle(again, remote);
}

} // verus!
