//! The kernel: the configuration, runtime, session memory and tool registry of
//! a node, and the count of inference turns.
use vstd::prelude::*;

use crate::config::{config_dir, config_dir_for, AppConfig, ConfigError};
use crate::memory::{default_memory_dir, MemoryStore};
use crate::runtime::{planned_completion, Completion, Runtime};
use crate::text::{joined_path, text_bytes, text_lt};
use crate::tool::{default_tools_dir, HttpCall, ToolError, ToolManifest, ToolRegistry};

verus! {

/// What the kernel counts.
#[derive(Debug, Clone, Copy, PartialEq, Eq, Structural)]
pub struct KernelStats {
    pub boot_unix_ms: u128,
    pub turns: u64,
}

/// The counts of a kernel just booted at `boot_unix_ms`: no turns yet.
pub open spec fn fresh_stats(boot_unix_ms: u128) -> KernelStats {
    KernelStats { boot_unix_ms, turns: 0 }
}

/// The counts after one more inference turn: the boot time kept, one turn more.
pub open spec fn after_turn(s: KernelStats) -> KernelStats {
    KernelStats { boot_unix_ms: s.boot_unix_ms, turns: (s.turns + 1) as u64 }
}

/// The counts after `n` more inference turns.
pub open spec fn after_turns(s: KernelStats, n: nat) -> KernelStats
    decreases n,
{
    if n == 0 {
        s
    } else {
        after_turn(after_turns(s, (n - 1) as nat))
    }
}

/// A kernel booted at `boot_unix_ms` that has begun exactly `n` turns (and was
/// otherwise only read or had its tools changed, which keep the counts) counts
/// `n` turns and still reports its boot time.
pub proof fn lemma_turns_counted(boot_unix_ms: u128, n: nat)
    requires
        n <= u64::MAX,
    ensures
        after_turns(fresh_stats(boot_unix_ms), n) == (KernelStats { boot_unix_ms, turns: n as u64 }),
    decreases n,
{
    if n > 0 {
        lemma_turns_counted(boot_unix_ms, (n - 1) as nat);
    }
}

/// The state of a node.
#[derive(Debug)]
pub struct Kernel {
    config: AppConfig,
    runtime: Runtime,
    stats: KernelStats,
    memory_store: Option<MemoryStore>,
    tool_registry: ToolRegistry,
}

impl Kernel {
    /// Session memory is kept exactly when the configuration enables it, and the
    /// runtime completes prompts with the configured provider.
    #[verifier::type_invariant]
    spec fn memory_follows_config(self) -> bool {
        &&& self.memory_store is Some <==> self.config.memory.enabled
        &&& self.runtime.provider() == self.config.provider
    }

    /// The configuration of the node.
    pub closed spec fn config_of(&self) -> AppConfig {
        self.config
    }

    /// The configuration of the node.
    pub fn config(&self) -> (r: &AppConfig)
        ensures
            *r == self.config_of(),
            r.provider == self.provider(),
            r.memory.enabled <==> self.memory_root() is Some,
    {
        proof {
            use_type_invariant(self);
        }
        &self.config
    }

    /// What the kernel has counted.
    pub closed spec fn stats_of(&self) -> KernelStats {
        self.stats
    }

    /// The directory of the session store, when session memory is on.
    pub closed spec fn memory_root(&self) -> Option<Seq<u8>> {
        match self.memory_store {
            Some(s) => Some(s.root()),
            None => None,
        }
    }

    /// The registered tools.
    pub closed spec fn tools(&self) -> Map<Seq<char>, ToolManifest> {
        self.tool_registry@
    }

    /// The directory of the tool manifests.
    pub closed spec fn tools_dir_of(&self) -> Seq<u8> {
        self.tool_registry.dir()
    }

    /// The provider the runtime completes prompts with.
    pub closed spec fn provider(&self) -> crate::config::ProviderConfig {
        self.runtime.provider()
    }

    /// A freshly booted kernel whose configuration directory is `config_dir`:
    /// no turns yet, session memory under `sessions` when it is enabled, and no
    /// tools registered yet, their manifests under `tools`.
    pub fn with_config_dir(config: AppConfig, config_dir: &[u8], boot_unix_ms: u128) -> (r: Kernel)
        ensures
            r.config_of() == config,
            r.provider() == config.provider,
            r.stats_of() == fresh_stats(boot_unix_ms),
            config.memory.enabled ==> r.memory_root() == Some(joined_path(config_dir@, text_bytes("sessions"@))),
            !config.memory.enabled ==> r.memory_root() is None,
            r.tools() == Map::<Seq<char>, ToolManifest>::empty(),
            r.tools_dir_of() == joined_path(config_dir@, text_bytes("tools"@)),
    {
        let memory_store = if config.memory.enabled {
            Some(MemoryStore::new(default_memory_dir(config_dir)))
        } else {
            None
        };
        let tool_registry = ToolRegistry::new(default_tools_dir(config_dir));
        Kernel {
            runtime: Runtime::new(config.provider.duplicate()),
            config,
            stats: KernelStats { boot_unix_ms, turns: 0 },
            memory_store,
            tool_registry,
        }
    }

    /// A freshly booted kernel for the user's configuration directory; refused
    /// when no home directory can be found.
    pub fn new(config: AppConfig, boot_unix_ms: u128) -> (r: Result<Kernel, ConfigError>)
        ensures
            r matches Ok(k) ==> {
                &&& k.config_of() == config
                &&& k.provider() == config.provider
                &&& k.stats_of() == fresh_stats(boot_unix_ms)
                &&& k.tools() == Map::<Seq<char>, ToolManifest>::empty()
                &&& config.memory.enabled <==> k.memory_root() is Some
                &&& exists|home: Seq<u8>|
                    #![trigger config_dir_for(home)]
                    {
                        &&& home.len() > 0
                        &&& k.tools_dir_of() == joined_path(config_dir_for(home), text_bytes("tools"@))
                        &&& config.memory.enabled ==> k.memory_root() == Some(
                            joined_path(config_dir_for(home), text_bytes("sessions"@)),
                        )
                    }
            },
            r matches Err(e) ==> e == ConfigError::HomeNotFound,
    {
        let dir = config_dir()?;
        let k = Kernel::with_config_dir(config, dir.as_slice(), boot_unix_ms);
        proof {
            let home = choose|h: Seq<u8>| h.len() > 0 && dir@ == #[trigger] config_dir_for(h);
            assert(k.tools_dir_of() == joined_path(config_dir_for(home), text_bytes("tools"@)));
        }
        Ok(k)
    }

    /// What the kernel has counted.
    pub fn stats(&self) -> (r: KernelStats)
        ensures
            r == self.stats_of(),
    {
        self.stats
    }

    /// Starts an inference turn for `prompt`: counts it, and hands back how the
    /// runtime completes the prompt. The turn is counted whatever the completion
    /// then yields.
    pub fn begin_turn(&mut self, prompt: &str) -> (r: Completion)
        requires
            old(self).stats_of().turns < u64::MAX,
        ensures
            final(self).stats_of() == after_turn(old(self).stats_of()),
            final(self).config_of() == old(self).config_of(),
            final(self).provider() == old(self).provider(),
            final(self).memory_root() == old(self).memory_root(),
            final(self).tools() == old(self).tools(),
            final(self).tools_dir_of() == old(self).tools_dir_of(),
            planned_completion(old(self).provider(), prompt@, r),
    {
        proof {
            use_type_invariant(&*self);
        }
        self.stats.turns = self.stats.turns + 1;
        self.runtime.plan_completion(prompt)
    }

    /// Where a finished turn is remembered: the session store and the history
    /// limit, when session memory is on and the turn names a session.
    pub fn turn_memory(&self, session_id: Option<&str>) -> (r: Option<(&MemoryStore, usize)>)
        ensures
            r is Some <==> (self.memory_root() is Some && session_id is Some),
            r is Some <==> (self.config_of().memory.enabled && session_id is Some),
            r matches Some(p) ==> Some(p.0.root()) == self.memory_root() && p.1
                == self.config_of().memory.max_messages_per_session,
    {
        proof {
            use_type_invariant(self);
        }
        match (&self.memory_store, session_id) {
            (Some(store), Some(_)) => Some((store, self.config.memory.max_messages_per_session)),
            _ => None,
        }
    }

    /// The session store, when session memory is on.
    pub fn memory_store(&self) -> (r: Option<&MemoryStore>)
        ensures
            match r {
                Some(s) => self.memory_root() == Some(s.root()),
                None => self.memory_root() is None,
            },
            r is Some <==> self.config_of().memory.enabled,
    {
        proof {
            use_type_invariant(self);
        }
        match &self.memory_store {
            Some(s) => Some(s),
            None => None,
        }
    }

    /// Replaces the registered tools by `manifests`, loaded in order.
    pub fn load_tools(&mut self, manifests: Vec<ToolManifest>)
        ensures
            final(self).tools() == crate::tool::registry_of(manifests@),
            final(self).tools_dir_of() == old(self).tools_dir_of(),
            final(self).config_of() == old(self).config_of(),
            final(self).provider() == old(self).provider(),
            final(self).stats_of() == old(self).stats_of(),
            final(self).memory_root() == old(self).memory_root(),
    {
        proof {
            use_type_invariant(&*self);
        }
        let mut registry = ToolRegistry::new(Vec::new());
        std::mem::swap(&mut registry, &mut self.tool_registry);
        registry.load_all(manifests);
        self.tool_registry = registry;
    }

    /// Copies of all registered manifests, in increasing order of their names.
    pub fn tool_list(&self) -> (r: Vec<ToolManifest>)
        ensures
            forall|i: int, j: int|
                0 <= i < j < r@.len() ==> text_lt(#[trigger] r@[i].name@, #[trigger] r@[j].name@),
            forall|i: int|
                0 <= i < r@.len() ==> self.tools().contains_key(#[trigger] r@[i].name@)
                    && self.tools()[r@[i].name@] == r@[i],
            forall|k: Seq<char>|
                #[trigger] self.tools().contains_key(k) ==> exists|i: int|
                    0 <= i < r@.len() && r@[i].name@ == k,
    {
        let refs = self.tool_registry.list();
        let n = refs.len();
        let mut r: Vec<ToolManifest> = Vec::new();
        let mut i: usize = 0;
        while i < n
            invariant
                n == refs@.len(),
                i <= n,
                r@.len() == i,
                forall|j: int| 0 <= j < i ==> r@[j] == *refs@[j],
            decreases n - i,
        {
            r.push(refs[i].duplicate());
            i = i + 1;
        }
        proof {
            assert forall|k: Seq<char>| #[trigger] self.tools().contains_key(k) implies exists|i: int|
                0 <= i < r@.len() && r@[i].name@ == k by {
                let i = choose|i: int| 0 <= i < refs@.len() && refs@[i].name@ == k;
                assert(r@[i].name@ == k);
            }
        }
        r
    }

    /// Registers `manifest`, replacing any tool of the same name, and hands back
    /// a copy of it.
    pub fn tool_add(&mut self, manifest: ToolManifest) -> (r: ToolManifest)
        ensures
            final(self).tools() == crate::tool::registry_add(old(self).tools(), manifest),
            final(self).provider() == old(self).provider(),
            final(self).tools_dir_of() == old(self).tools_dir_of(),
            final(self).config_of() == old(self).config_of(),
            final(self).stats_of() == old(self).stats_of(),
            final(self).memory_root() == old(self).memory_root(),
            r == manifest,
    {
        proof {
            use_type_invariant(&*self);
        }
        let mut registry = ToolRegistry::new(Vec::new());
        std::mem::swap(&mut registry, &mut self.tool_registry);
        let r = registry.add(manifest);
        self.tool_registry = registry;
        r
    }

    /// Unregisters the tool `name`; refused when no such tool is registered.
    pub fn tool_remove(&mut self, name: &str) -> (r: Result<(), ToolError>)
        ensures
            old(self).tools().contains_key(name@) ==> r is Ok && final(self).tools()
                == crate::tool::registry_remove(old(self).tools(), name@),
            final(self).provider() == old(self).provider(),
            !old(self).tools().contains_key(name@) ==> (r matches Err(ToolError::NotFound(n))
                && n@ == name@) && final(self).tools() == old(self).tools(),
            final(self).tools_dir_of() == old(self).tools_dir_of(),
            final(self).config_of() == old(self).config_of(),
            final(self).stats_of() == old(self).stats_of(),
            final(self).memory_root() == old(self).memory_root(),
    {
        proof {
            use_type_invariant(&*self);
        }
        let mut registry = ToolRegistry::new(Vec::new());
        std::mem::swap(&mut registry, &mut self.tool_registry);
        let r = registry.remove(name);
        self.tool_registry = registry;
        r
    }

    /// The registry of tools.
    pub fn tool_registry(&self) -> (r: &ToolRegistry)
        ensures
            r@ == self.tools(),
            r.dir() == self.tools_dir_of(),
    {
        &self.tool_registry
    }
}

} // verus!
