//! The cache-vs-fetch policy: which source the entity collection comes
//! from, decided from the mode flags and from how a cache load ended,
//! and the per-record collection step that skips failed records.
//!
//! The decisions are pure; the surrounding program performs the chosen
//! action (read the cache file, run the backend, write the cache file)
//! and feeds the outcome back in.
use vstd::prelude::*;

use crate::item::{transform, Item, ItemModel, ItemRaw, ItemRawModel};
use crate::Config;

verus! {

/// The action the resolver picks first.  `FetchOnly` involves no cache
/// read and no cache write; `FetchThenCache` overwrites the cache file
/// with the fetched collection; `LoadCache` reads the cache file.
#[derive(Debug)]
pub enum ResolveAction {
    FetchOnly,
    FetchThenCache,
    LoadCache,
}

/// How a cache load ended: the collection was read, the file does not
/// exist, or it exists but could not be read or decoded.
#[derive(Debug)]
pub enum CacheLoadEvent {
    Loaded(Vec<Item>),
    NotFound,
    Failed,
}

/// What follows a cache load: use the loaded collection, fall back to a
/// live fetch that is then persisted, or fail without fetching.
#[derive(Debug)]
pub enum AfterLoad {
    Use(Vec<Item>),
    FetchThenCache,
    Fail(ResolverError),
}

/// A resolver failure of its own: the cache file exists but cannot be
/// used, and a corrupt cache is never repaired by a fetch.
#[derive(Debug)]
pub enum ResolverError {
    CacheUnreadable,
}

/// The first decision: bypass beats refresh beats the cache-first
/// default.
pub open spec fn spec_initial_action(c: Config) -> ResolveAction {
    if c.no_cache {
        ResolveAction::FetchOnly
    } else if c.refresh_cache {
        ResolveAction::FetchThenCache
    } else {
        ResolveAction::LoadCache
    }
}

/// Picks the initial action for a configuration: with "no cache" set the
/// collection is fetched live and the cache file is neither read nor
/// written; else with "refresh" set it is fetched live and the cache is
/// overwritten; else the cache is tried first.
pub fn initial_action(config: &Config) -> (r: ResolveAction)
    ensures
        r == spec_initial_action(*config),
{
    if config.no_cache {
        ResolveAction::FetchOnly
    } else if config.refresh_cache {
        ResolveAction::FetchThenCache
    } else {
        ResolveAction::LoadCache
    }
}

/// The decision after a cache load.
pub open spec fn spec_after_load(ev: CacheLoadEvent) -> AfterLoad {
    match ev {
        CacheLoadEvent::Loaded(items) => AfterLoad::Use(items),
        CacheLoadEvent::NotFound => AfterLoad::FetchThenCache,
        CacheLoadEvent::Failed => AfterLoad::Fail(ResolverError::CacheUnreadable),
    }
}

/// The decision after a cache load: a loaded collection is used as-is,
/// a missing file falls back to a persisted live fetch, and any other
/// failure is fatal.
pub fn after_cache_load(ev: CacheLoadEvent) -> (r: AfterLoad)
    ensures
        r == spec_after_load(ev),
{
    match ev {
        CacheLoadEvent::Loaded(items) => AfterLoad::Use(items),
        CacheLoadEvent::NotFound => AfterLoad::FetchThenCache,
        CacheLoadEvent::Failed => AfterLoad::Fail(ResolverError::CacheUnreadable),
    }
}

/// Resolver precedence.  With "no cache" set the decision is the fetch
/// that never touches the cache file, whatever the file holds; with
/// "refresh" set (and not "no cache") it is the fetch whose result
/// overwrites, never merges with, the cache; with neither set the cache
/// is read first, only a missing file leads to the (persisted) live
/// fetch, and any other load failure fetches nothing.
pub proof fn lemma_resolver_precedence(c: Config, ev: CacheLoadEvent)
    ensures
        c.no_cache ==> spec_initial_action(c) is FetchOnly,
        !c.no_cache && c.refresh_cache ==> spec_initial_action(c) is FetchThenCache,
        !c.no_cache && !c.refresh_cache ==> spec_initial_action(c) is LoadCache,
        ev is NotFound ==> spec_after_load(ev) is FetchThenCache,
        ev is Failed ==> spec_after_load(ev) == AfterLoad::Fail(ResolverError::CacheUnreadable),
        ev matches CacheLoadEvent::Loaded(items) ==> spec_after_load(ev) == AfterLoad::Use(items),
{
}

/// Whether a per-record outcome carries a record.
pub open spec fn fetched_pred() -> spec_fn(Option<ItemRawModel>) -> bool {
    |o: Option<ItemRawModel>| o is Some
}

/// The transformation of one successful outcome.
pub open spec fn fetched_transform() -> spec_fn(Option<ItemRawModel>) -> ItemModel {
    |o: Option<ItemRawModel>| transform(o->0)
}

/// What the per-record loop produces: the transforms of the successful
/// outcomes, in order; failed records are skipped.
pub open spec fn collect_spec(outcomes: Seq<Option<ItemRawModel>>) -> Seq<ItemModel> {
    outcomes.filter(fetched_pred()).map_values(fetched_transform())
}

/// The models of a sequence of per-record outcomes, elementwise.
pub open spec fn outcomes_model(s: Seq<Option<ItemRaw>>) -> Seq<Option<ItemRawModel>> {
    Seq::new(
        s.len(),
        |i: int|
            match s[i] {
                Some(raw) => Some(raw@),
                None => None,
            },
    )
}

proof fn lemma_collect_step(outcomes: Seq<Option<ItemRawModel>>, i: int)
    requires
        0 <= i < outcomes.len(),
    ensures
        outcomes[i] is Some ==> collect_spec(outcomes.take(i + 1)) =~= collect_spec(
            outcomes.take(i),
        ).push(transform(outcomes[i]->0)),
        outcomes[i] is None ==> collect_spec(outcomes.take(i + 1)) =~= collect_spec(
            outcomes.take(i),
        ),
{
    let pred = fetched_pred();
    assert(outcomes.take(i + 1) =~= outcomes.take(i) + seq![outcomes[i]]);
    Seq::filter_distributes_over_add(outcomes.take(i), seq![outcomes[i]], pred);
    reveal_with_fuel(Seq::filter, 2);
    let single = seq![outcomes[i]];
    assert(single.drop_last() =~= Seq::<Option<ItemRawModel>>::empty());
    if pred(outcomes[i]) {
        assert(single.filter(pred) =~= seq![outcomes[i]]);
    } else {
        assert(single.filter(pred) =~= Seq::<Option<ItemRawModel>>::empty());
    }
}

/// The per-record collection step of a live fetch: each fetched record
/// is transformed, each failed record is skipped, and order is kept.
pub fn collect_fetch_results(outcomes: Vec<Option<ItemRaw>>) -> (r: Vec<Item>)
    ensures
        crate::item::items_model(r@) == collect_spec(outcomes_model(outcomes@)),
{
    let ghost orig = outcomes_model(outcomes@);
    let mut items: Vec<Item> = Vec::new();
    let mut rest = outcomes;
    let ghost mut i: int = 0;
    proof {
        reveal_with_fuel(Seq::filter, 2);
        assert(orig.take(0) =~= Seq::<Option<ItemRawModel>>::empty());
        assert(crate::item::items_model(items@) =~= collect_spec(orig.take(0)));
    }
    while rest.len() > 0
        invariant
            0 <= i <= orig.len(),
            outcomes_model(rest@) =~= orig.skip(i),
            crate::item::items_model(items@) =~= collect_spec(orig.take(i)),
        decreases rest@.len(),
    {
        let ghost prev_rest = rest@;
        let o = rest.remove(0);
        proof {
            assert(orig.skip(i).len() > 0);
            assert(outcomes_model(prev_rest)[0] == orig.skip(i)[0]);
            assert(orig[i] == orig.skip(i)[0]);
            match &o {
                Some(raw) => {
                    assert(orig[i] == Some(raw@));
                },
                None => {
                    assert(orig[i] is None);
                },
            }
            assert(rest@ =~= prev_rest.skip(1));
            assert forall|k: int| 0 <= k < rest@.len() implies outcomes_model(rest@)[k]
                == orig.skip(i + 1)[k] by {
                assert(rest@[k] == prev_rest[k + 1]);
                assert(outcomes_model(prev_rest)[k + 1] == orig.skip(i)[k + 1]);
                assert(orig.skip(i)[k + 1] == orig[i + 1 + k]);
                assert(orig.skip(i + 1)[k] == orig[i + 1 + k]);
            }
            assert(outcomes_model(rest@) =~= orig.skip(i + 1));
            lemma_collect_step(orig, i);
        }
        match o {
            Some(raw) => {
                let it = Item::from_raw(raw);
                items.push(it);
                proof {
                    assert(crate::item::items_model(items@) =~= collect_spec(orig.take(i + 1)));
                }
            },
            None => {
                proof {
                    assert(crate::item::items_model(items@) =~= collect_spec(orig.take(i + 1)));
                }
            },
        }
        proof {
            i = i + 1;
        }
    }
    proof {
        assert(orig.skip(i).len() == 0);
        assert(i == orig.len());
        assert(orig.take(i) =~= orig);
    }
    items
}

/// How many outcomes failed.
pub open spec fn failed_count(outcomes: Seq<Option<ItemRawModel>>) -> nat {
    outcomes.filter(|o: Option<ItemRawModel>| o is None).len()
}

proof fn lemma_filter_partition(outcomes: Seq<Option<ItemRawModel>>)
    ensures
        outcomes.filter(fetched_pred()).len() + outcomes.filter(
            |o: Option<ItemRawModel>| o is None,
        ).len() == outcomes.len(),
    decreases outcomes.len(),
{
    reveal(Seq::filter);
    if outcomes.len() == 0 {
    } else {
        lemma_filter_partition(outcomes.drop_last());
    }
}

/// Per-record fetch resilience: the collection holds exactly one entity
/// for every successful outcome, so when some records fail the rest
/// still come through — the count is the total minus the failures, and
/// no record aborts the whole listing.
pub proof fn lemma_fetch_resilience(outcomes: Seq<Option<ItemRawModel>>)
    ensures
        collect_spec(outcomes).len() + failed_count(outcomes) == outcomes.len(),
{
    lemma_filter_partition(outcomes);
}

} // verus!
