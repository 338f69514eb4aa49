//! Resolution of a request path to a target canister identity. The locator
//! is first tried as a literal identity text, then against the rule table;
//! a miss falls through a layered chain of outside sources — the cache
//! store, then the registry canister — driven as a state machine: each step
//! consumes the previous source's answer and names the next action, and the
//! caller performs the actions against the real sources. A registry hit
//! carries a cache-refill request, which the caller posts best-effort; the
//! resolver never waits for it.

use vstd::prelude::*;

use crate::bytes_util::lower;
use crate::identity::{identity_of_text, text_of_identity, Identity};
use crate::path::{
    lemma_parse_target_round, opt_view, parse_target_path, parsed_target, query_suffix, DASH_BYTE,
    SLASH_BYTE,
};
use crate::rules::{lemma_alias_rule_resolves, sorted_desc, table_lookup, RuleTable, RuleV};

verus! {

/// Where the fallback chain stands.
#[derive(Clone, Copy, Debug, PartialEq, Eq, Structural)]
pub enum LookupStage {
    AtCache,
    AtRegistry,
    Finished,
}

/// The final outcome of a name lookup: the identity found, if any, and a
/// `(name, identity text)` pair to post to the cache-refill channel.
pub struct Resolution {
    pub identity: Option<Identity>,
    pub refill: Option<(Vec<u8>, Vec<u8>)>,
}

/// What the caller must do next to advance a lookup.
pub enum LookupAction {
    /// Read the name from the cache store.
    QueryCache(Vec<u8>),
    /// Look the name up through the registry canister.
    QueryRegistry(Vec<u8>),
    /// The lookup is over.
    Done(Resolution),
}

/// A name lookup in flight against the real access path: the cache store
/// and the registry canister, in that order, each skipped when disabled.
pub struct RealAccess {
    pub name: Vec<u8>,
    pub stage: LookupStage,
    pub cache_enabled: bool,
    pub registry_enabled: bool,
}

impl RealAccess {
    /// Open a lookup for a name: it starts at the cache when one is
    /// configured, else at the registry, else it is already over with no
    /// identity found.
    pub fn begin(name: Vec<u8>, cache_enabled: bool, registry_enabled: bool) -> (r: (
        RealAccess,
        LookupAction,
    ))
        ensures
            r.0.name@ == name@,
            r.0.cache_enabled == cache_enabled,
            r.0.registry_enabled == registry_enabled,
            cache_enabled ==> r.0.stage == LookupStage::AtCache && (r.1 matches
                LookupAction::QueryCache(n) && n@ == name@),
            !cache_enabled && registry_enabled ==> r.0.stage == LookupStage::AtRegistry && (
            r.1 matches LookupAction::QueryRegistry(n) && n@ == name@),
            !cache_enabled && !registry_enabled ==> r.0.stage == LookupStage::Finished && (
            r.1 matches LookupAction::Done(res) && res.identity is None && res.refill is None),
    {
        if cache_enabled {
            let action = LookupAction::QueryCache(crate::bytes_util::clone_bytes(&name));
            (
                RealAccess { name, stage: LookupStage::AtCache, cache_enabled, registry_enabled },
                action,
            )
        } else if registry_enabled {
            let action = LookupAction::QueryRegistry(crate::bytes_util::clone_bytes(&name));
            (
                RealAccess {
                    name,
                    stage: LookupStage::AtRegistry,
                    cache_enabled,
                    registry_enabled,
                },
                action,
            )
        } else {
            (
                RealAccess { name, stage: LookupStage::Finished, cache_enabled, registry_enabled },
                LookupAction::Done(Resolution { identity: None, refill: None }),
            )
        }
    }

    /// Consume the cache's answer: a stored text that decodes as an
    /// identity ends the lookup with it; a miss, an unreachable cache and
    /// an undecodable entry all fall through to the registry, or end the
    /// lookup empty when no registry is configured. Cache trouble never
    /// fails the request.
    pub fn on_cache_result(&mut self, cached: Option<Vec<u8>>) -> (r: LookupAction)
        requires
            old(self).stage == LookupStage::AtCache,
        ensures
            final(self).name@ == old(self).name@,
            final(self).cache_enabled == old(self).cache_enabled,
            final(self).registry_enabled == old(self).registry_enabled,
            match cached {
                Some(text) => match identity_of_text(text@) {
                    Some(b) => final(self).stage == LookupStage::Finished && (r matches
                        LookupAction::Done(res) && res.identity matches Some(id) && id@ == b
                        && res.refill is None),
                    None => cache_miss_step(*old(self), *final(self), r),
                },
                None => cache_miss_step(*old(self), *final(self), r),
            },
    {
        match cached {
            Some(text) => match Identity::from_text(text.as_slice()) {
                Some(id) => {
                    self.stage = LookupStage::Finished;
                    LookupAction::Done(Resolution { identity: Some(id), refill: None })
                },
                None => self.cache_missed(),
            },
            None => self.cache_missed(),
        }
    }

    /// Fall through past the cache.
    fn cache_missed(&mut self) -> (r: LookupAction)
        ensures
            final(self).name@ == old(self).name@,
            final(self).cache_enabled == old(self).cache_enabled,
            final(self).registry_enabled == old(self).registry_enabled,
            cache_miss_step(*old(self), *final(self), r),
    {
        if self.registry_enabled {
            self.stage = LookupStage::AtRegistry;
            LookupAction::QueryRegistry(crate::bytes_util::clone_bytes(&self.name))
        } else {
            self.stage = LookupStage::Finished;
            LookupAction::Done(Resolution { identity: None, refill: None })
        }
    }

    /// Consume the registry's answer. A non-empty identity list ends the
    /// lookup with its first entry, carrying a refill request when a cache
    /// is configured; an empty list, a failed call and an undecodable reply
    /// all end the lookup empty.
    pub fn on_registry_result(&mut self, reply: Option<Vec<Identity>>) -> (r: LookupAction)
        requires
            old(self).stage == LookupStage::AtRegistry,
            match reply {
                Some(list) => forall|i: int|
                    0 <= i < list@.len() ==> (#[trigger] list@[i]).wf(),
                None => true,
            },
        ensures
            final(self).stage == LookupStage::Finished,
            final(self).name@ == old(self).name@,
            match reply {
                Some(list) => if list@.len() > 0 {
                    r matches LookupAction::Done(res) && (res.identity matches Some(id) && id@
                        == list@[0]@) && (if old(self).cache_enabled {
                        res.refill matches Some(p) && p.0@ == old(self).name@ && p.1@
                            == text_of_identity(list@[0]@)
                    } else {
                        res.refill is None
                    })
                } else {
                    r matches LookupAction::Done(res) && res.identity is None
                        && res.refill is None
                },
                None => r matches LookupAction::Done(res) && res.identity is None
                    && res.refill is None,
            },
    {
        self.stage = LookupStage::Finished;
        match reply {
            Some(list) => {
                if list.len() > 0 {
                    let first = list[0].clone();
                    let refill = if self.cache_enabled {
                        let text = first.to_text();
                        Some((crate::bytes_util::clone_bytes(&self.name), text))
                    } else {
                        None
                    };
                    LookupAction::Done(Resolution { identity: Some(first), refill })
                } else {
                    LookupAction::Done(Resolution { identity: None, refill: None })
                }
            },
            None => LookupAction::Done(Resolution { identity: None, refill: None }),
        }
    }
}

/// One fall-through step past the cache: on to the registry when one is
/// configured, else finished empty.
pub open spec fn cache_miss_step(pre: RealAccess, post: RealAccess, r: LookupAction) -> bool {
    if pre.registry_enabled {
        post.stage == LookupStage::AtRegistry && (r matches LookupAction::QueryRegistry(n) && n@
            == pre.name@)
    } else {
        post.stage == LookupStage::Finished && (r matches LookupAction::Done(res)
            && res.identity is None && res.refill is None)
    }
}

/// The resolver's sole output and, besides the original request, the
/// forwarder's sole input: the target identity and the rewritten upstream
/// path. Immutable once produced; a redirect hop produces a fresh value.
pub struct TargetCanisterParams {
    pub canister_id: Identity,
    pub found_uri: Vec<u8>,
}

/// How far a request path got through resolution without touching an
/// outside source.
pub enum ResolveStart {
    /// The path does not fit the grammar: no resolution.
    Unresolved,
    /// The locator decoded as an identity text or matched the rule table.
    Resolved(TargetCanisterParams),
    /// The locator must go to the outside sources: the lookup machine, its
    /// first action, and the rewritten upstream path.
    Pending(RealAccess, LookupAction, Vec<u8>),
}

/// Resolve a request path as far as the local sources reach: parse the
/// grammar, try the locator as a literal identity text, then as a name in
/// the rule table — in that order, without consulting cache or registry —
/// and hand the rest to the lookup machine.
pub fn start_resolution(
    table: &RuleTable,
    req_path: &[u8],
    query: Option<&[u8]>,
    cache_enabled: bool,
    registry_enabled: bool,
) -> (r: ResolveStart)
    requires
        table.wf(),
    ensures
        match r {
            ResolveStart::Unresolved => parsed_target(req_path@, opt_view(query)) is None,
            ResolveStart::Resolved(target) => {
                &&& parsed_target(req_path@, opt_view(query)) matches Some(p) && p.1
                    == target.found_uri@ && (identity_of_text(p.0) == Some(target.canister_id@)
                    || (identity_of_text(p.0) is None && table_lookup(table@, lower(p.0)) == Some(
                    target.canister_id@,
                )))
                &&& target.canister_id.wf()
            },
            ResolveStart::Pending(machine, action, rewritten) => {
                &&& parsed_target(req_path@, opt_view(query)) matches Some(p) && p.1
                    == rewritten@ && identity_of_text(p.0) is None && table_lookup(
                    table@,
                    lower(p.0),
                ) is None && machine.name@ == p.0
                &&& machine.cache_enabled == cache_enabled
                &&& machine.registry_enabled == registry_enabled
                &&& (cache_enabled ==> machine.stage == LookupStage::AtCache && (action matches
                    LookupAction::QueryCache(n) && n@ == machine.name@))
                &&& (!cache_enabled && registry_enabled ==> machine.stage
                    == LookupStage::AtRegistry && (action matches LookupAction::QueryRegistry(n)
                    && n@ == machine.name@))
                &&& (!cache_enabled && !registry_enabled ==> machine.stage
                    == LookupStage::Finished && (action matches LookupAction::Done(res)
                    && res.identity is None && res.refill is None))
            },
        },
{
    match parse_target_path(req_path, query) {
        Some((locator, rewritten)) => {
            match Identity::from_text(locator.as_slice()) {
                Some(id) => ResolveStart::Resolved(
                    TargetCanisterParams { canister_id: id, found_uri: rewritten },
                ),
                None => match table.lookup_name(locator.as_slice()) {
                    Some(id) => ResolveStart::Resolved(
                        TargetCanisterParams { canister_id: id, found_uri: rewritten },
                    ),
                    None => {
                        let (machine, action) = RealAccess::begin(
                            locator,
                            cache_enabled,
                            registry_enabled,
                        );
                        ResolveStart::Pending(machine, action, rewritten)
                    },
                },
            }
        },
        None => ResolveStart::Unresolved,
    }
}

/// Law: a path `/-/<alias>/-<rest>` and the same path with the alias's own
/// identity text in locator position resolve to the same identity, and both
/// rewrite to the same upstream path `/-<rest>` with the query preserved
/// verbatim. The alias resolves through the rule table alone; the literal
/// text resolves by decoding alone.
pub proof fn lemma_alias_and_text_resolve_alike(
    rules: Seq<RuleV>,
    alias_name: Seq<u8>,
    id: Seq<u8>,
    id_text: Seq<u8>,
    rest: Seq<u8>,
    query: Option<Seq<u8>>,
    i: int,
)
    requires
        forall|j: int| 0 <= j < alias_name.len() ==> alias_name[j] != SLASH_BYTE,
        forall|j: int| 0 <= j < id_text.len() ==> id_text[j] != SLASH_BYTE,
        rest.len() > 0,
        rest[0] == SLASH_BYTE,
        sorted_desc(rules),
        0 <= i < rules.len(),
        rules[i].alias_id == Some(id),
        rules[i].domain == lower(alias_name),
        forall|j: int|
            0 <= j < rules.len() && (#[trigger] rules[j]).alias_id is Some && rules[j].domain
                == lower(alias_name) ==> rules[j].alias_id == Some(id),
        identity_of_text(id_text) == Some(id),
    ensures
        ({
            let alias_path = seq![SLASH_BYTE, DASH_BYTE, SLASH_BYTE] + alias_name + seq![
                SLASH_BYTE,
                DASH_BYTE,
            ] + rest;
            let text_path = seq![SLASH_BYTE, DASH_BYTE, SLASH_BYTE] + id_text + seq![
                SLASH_BYTE,
                DASH_BYTE,
            ] + rest;
            let rewritten = seq![SLASH_BYTE, DASH_BYTE] + rest + query_suffix(query);
            &&& parsed_target(alias_path, query) == Some((alias_name, rewritten))
            &&& parsed_target(text_path, query) == Some((id_text, rewritten))
            &&& table_lookup(rules, lower(alias_name)) == Some(id)
            &&& identity_of_text(id_text) == Some(id)
        }),
{
    lemma_parse_target_round(alias_name, rest, query);
    lemma_parse_target_round(id_text, rest, query);
    lemma_alias_rule_resolves(rules, lower(alias_name), i);
}

} // verus!
