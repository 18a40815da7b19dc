//! Lifecycle hooks: their results, the scoped context stores they share, and
//! the rules by which a chain of hooks is dispatched.

use vstd::prelude::*;
use crate::json::{JsonValue, JsonView};
use crate::types::UserQuestionsResponse;
use crate::keyed::KeyedMap;

verus! {

// =============================================================================
// Hook Result
// =============================================================================

#[derive(Debug, Clone)]
pub struct HookResult {
    pub allow: bool,
    pub message: String,
}

impl HookResult {
    pub fn new(allow: bool, message: &str) -> (r: Self)
        ensures
            r.allow == allow,
            r.message@ == message@,
    {
        HookResult { allow, message: message.to_owned() }
    }

    pub fn allow() -> (r: Self)
        ensures
            r.allow,
            r.message@ == Seq::<char>::empty(),
    {
        HookResult { allow: true, message: String::new() }
    }

    pub fn deny(message: &str) -> (r: Self)
        ensures
            !r.allow,
            r.message@ == message@,
    {
        HookResult { allow: false, message: message.to_owned() }
    }
}

impl Default for HookResult {
    fn default() -> (r: Self)
        ensures
            r.allow,
            r.message@ == Seq::<char>::empty(),
    {
        Self::allow()
    }
}

// =============================================================================
// Context stores
// =============================================================================

/// One scope of hook context: a map from keys to JSON values.
pub struct ContextLayer {
    entries: KeyedMap<String, JsonValue>,
}

impl ContextLayer {
    /// The values held, by key.
    pub closed spec fn view_map(&self) -> Map<Seq<char>, JsonView> {
        self.entries.map().map_values(|v: JsonValue| v@)
    }

    /// The scope's keys are distinct.
    pub closed spec fn wf(&self) -> bool {
        self.entries.wf()
    }

    /// An empty scope.
    pub fn new() -> (c: Self)
        ensures
            c.wf(),
            c.view_map() == Map::<Seq<char>, JsonView>::empty(),
    {
        let c = ContextLayer { entries: KeyedMap::new() };
        assert(c.view_map() =~= Map::<Seq<char>, JsonView>::empty());
        c
    }

    /// The value stored under `key` in this scope.
    pub fn get(&self, key: &str) -> (r: Option<&JsonValue>)
        requires
            self.wf(),
        ensures
            match r {
                Some(v) => self.view_map().contains_key(key@) && v@ == self.view_map()[key@],
                None => !self.view_map().contains_key(key@),
            },
    {
        self.entries.get(&key.to_owned())
    }

    /// Stores `value` under `key` in this scope, replacing what was there.
    pub fn set(&mut self, key: &str, value: JsonValue)
        requires
            old(self).wf(),
        ensures
            final(self).wf(),
            final(self).view_map() == old(self).view_map().insert(key@, value@),
    {
        let ghost before = self.entries.map();
        self.entries.insert(key.to_owned(), value);
        assert(self.view_map() =~= before.map_values(|v: JsonValue| v@).insert(key@, value@));
    }
}

/// What a chain of scopes gives for `key`: the innermost scope (first in
/// the chain) that holds the key.
pub open spec fn chain_get(maps: Seq<Map<Seq<char>, JsonView>>, key: Seq<char>) -> Option<JsonView>
    decreases maps.len(),
{
    if maps.len() == 0 {
        None
    } else if maps[0].contains_key(key) {
        Some(maps[0][key])
    } else {
        chain_get(maps.skip(1), key)
    }
}

/// The maps of a chain of scopes.
pub open spec fn chain_maps(layers: Seq<&ContextLayer>) -> Seq<Map<Seq<char>, JsonView>> {
    Seq::new(layers.len(), |i: int| layers[i].view_map())
}

/// Looks `key` up in a chain of scopes, innermost first: an operation's
/// scope, then its turn's, then the session's.
pub fn lookup(layers: &Vec<&ContextLayer>, key: &str) -> (r: Option<JsonValue>)
    requires
        forall|i: int| 0 <= i < layers@.len() ==> (#[trigger] layers@[i]).wf(),
    ensures
        match chain_get(chain_maps(layers@), key@) {
            Some(v) => r matches Some(x) && x@ == v,
            None => r is None,
        },
{
    let mut i: usize = 0;
    assert(chain_maps(layers@).skip(0) =~= chain_maps(layers@));
    while i < layers.len()
        invariant
            i <= layers@.len(),
            forall|k: int| 0 <= k < layers@.len() ==> (#[trigger] layers@[k]).wf(),
            chain_get(chain_maps(layers@), key@) == chain_get(chain_maps(layers@).skip(i as int), key@),
        decreases layers@.len() - i,
    {
        let ghost rest = chain_maps(layers@).skip(i as int);
        assert(rest[0] == layers@[i as int].view_map());
        match layers[i].get(key) {
            Some(v) => { return Some(v.deep_clone()); },
            None => {},
        }
        assert(rest.skip(1) =~= chain_maps(layers@).skip(i + 1));
        i = i + 1;
    }
    None
}

/// Law: a value set in a scope is what the chain gives for the key when
/// that scope is the innermost, whatever the outer scopes hold; and
/// setting a key in an inner scope leaves every outer scope unchanged.
pub proof fn lemma_inner_scope_shadows(maps: Seq<Map<Seq<char>, JsonView>>, key: Seq<char>, value: JsonView)
    requires
        maps.len() > 0,
    ensures
        chain_get(maps.update(0, maps[0].insert(key, value)), key) == Some(value),
        maps.update(0, maps[0].insert(key, value)).skip(1) == maps.skip(1),
{
    let m2 = maps.update(0, maps[0].insert(key, value));
    assert(m2[0].contains_key(key));
    assert(m2.skip(1) =~= maps.skip(1));
}

/// Law: a key missing from the inner scope is looked up in the outer ones.
pub proof fn lemma_outer_scope_visible(maps: Seq<Map<Seq<char>, JsonView>>, key: Seq<char>)
    requires
        maps.len() > 0,
        !maps[0].contains_key(key),
    ensures
        chain_get(maps, key) == chain_get(maps.skip(1), key),
{
}

// =============================================================================
// Dispatch rules
// =============================================================================

/// What the dispatcher does after one hook has run.
pub enum DispatchStep<T> {
    /// Run the next hook.
    Continue,
    /// Stop with this outcome.
    Stop(Result<T, String>),
}

/// A gate (pre-turn, pre-tool-call): an error or a denial stops the chain.
pub fn gate_step(hook_result: Result<HookResult, String>) -> (s: DispatchStep<HookResult>)
    ensures
        match hook_result {
            Err(e) => s == DispatchStep::<HookResult>::Stop(Err(e)),
            Ok(r) => if r.allow {
                s is Continue
            } else {
                s == DispatchStep::<HookResult>::Stop(Ok(r))
            },
        },
{
    match hook_result {
        Err(e) => DispatchStep::Stop(Err(e)),
        Ok(r) => if r.allow { DispatchStep::Continue } else { DispatchStep::Stop(Ok(r)) },
    }
}

/// The outcome of a gate whose hooks all allowed.
pub fn gate_done() -> (r: Result<HookResult, String>)
    ensures
        r matches Ok(h) && h.allow && h.message@ == Seq::<char>::empty(),
{
    Ok(HookResult::allow())
}

/// A notification (session start and end, post-turn, post-tool-call,
/// compaction): an error stops the chain.
pub fn notify_step(hook_result: Result<(), String>) -> (s: DispatchStep<()>)
    ensures
        match hook_result {
            Err(e) => s == DispatchStep::<()>::Stop(Err(e)),
            Ok(_) => s is Continue,
        },
{
    match hook_result {
        Err(e) => DispatchStep::Stop(Err(e)),
        Ok(_) => DispatchStep::Continue,
    }
}

pub open spec fn recovery_failed_message(e: Seq<char>) -> Seq<char> {
    "Error recovery failed: "@ + e
}

/// A tool-error hook: the first hook that offers a value recovers the
/// call; a hook that fails ends the chain with a denial; no error is
/// passed on.
pub fn recover_step(hook_result: Result<Option<JsonValue>, String>)
    -> (s: DispatchStep<(HookResult, Option<JsonValue>)>)
    ensures
        match hook_result {
            Ok(Some(v)) => s matches DispatchStep::Stop(Ok((h, Some(x))))
                && h.allow && h.message@ == Seq::<char>::empty() && x == v,
            Ok(None) => s is Continue,
            Err(e) => s matches DispatchStep::Stop(Ok((h, None)))
                && !h.allow && h.message@ == recovery_failed_message(e@),
        },
{
    match hook_result {
        Ok(Some(v)) => DispatchStep::Stop(Ok((HookResult::allow(), Some(v)))),
        Ok(None) => DispatchStep::Continue,
        Err(e) => {
            let mut m = "Error recovery failed: ".to_owned();
            m.append(e.as_str());
            let h = HookResult::deny(m.as_str());
            DispatchStep::Stop(Ok((h, None)))
        },
    }
}

/// The outcome of the tool-error hooks when none recovered.
pub fn recover_done() -> (r: Result<(HookResult, Option<JsonValue>), String>)
    ensures
        r matches Ok((h, None)) && !h.allow && h.message@ == Seq::<char>::empty(),
{
    Ok((HookResult { allow: false, message: String::new() }, None))
}

/// An interaction hook: the first that answers handles the request; an
/// error stops the chain.
pub fn interaction_step(hook_result: Result<Option<UserQuestionsResponse>, String>)
    -> (s: DispatchStep<(HookResult, Option<UserQuestionsResponse>)>)
    ensures
        match hook_result {
            Ok(Some(v)) => s matches DispatchStep::Stop(Ok((h, Some(x))))
                && h.allow && h.message@ == Seq::<char>::empty() && x == v,
            Ok(None) => s is Continue,
            Err(e) => s == DispatchStep::<(HookResult, Option<UserQuestionsResponse>)>::Stop(Err(e)),
        },
{
    match hook_result {
        Ok(Some(v)) => DispatchStep::Stop(Ok((HookResult::allow(), Some(v)))),
        Ok(None) => DispatchStep::Continue,
        Err(e) => DispatchStep::Stop(Err(e)),
    }
}

/// The outcome of the interaction hooks when none answered.
pub fn interaction_done() -> (r: Result<(HookResult, Option<UserQuestionsResponse>), String>)
    ensures
        r matches Ok((h, None)) && !h.allow && h.message@ == "No interaction hook handled the request"@,
{
    Ok((HookResult::deny("No interaction hook handled the request"), None))
}

} // verus!
