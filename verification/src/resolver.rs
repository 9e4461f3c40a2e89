//! Symbol resolution: map a raw program-counter value to a symbol name by
//! selecting the owning image, translating the address into the image's
//! debug-object coordinates, and querying the loaded object's symbol
//! table.
//!
//! Loading a debug object reads the file system and is the caller's part:
//! the caller finds the file named by [`LoadInfo::filename`] among its
//! search paths, loads it, and hands it to [`SymbolResolver::insert_loader`]
//! — at most once per image, which [`SymbolResolver::has_loader`] lets it
//! check first.  Resolution itself is a pure query of the loaded objects.

use crate::region::{spec_find_by_addr, spec_load_addr, spec_reladdr, LoadInfo};
use crate::symbol_info::{InfoModel, SymbolInfo};
use crate::tree::{
    lemma_child_height, lemma_forest_height_pointwise, model_height, node_model, FtraceNode,
    FtraceTree, NodeModel,
};
use vstd::prelude::*;

verus! {

#[verifier::external_type_specification]
#[verifier::external_body]
pub struct ExLoader(addr2line::Loader);

#[verifier::external_type_specification]
#[verifier::external_body]
#[verifier::reject_recursive_types(K)]
#[verifier::reject_recursive_types(V)]
#[verifier::reject_recursive_types(S)]
pub struct ExCache<K, V, S>(moka::sync::Cache<K, V, S>);

/// The symbol table of a loaded debug object, as addr2line answers probes:
/// the name covering each address that has one.
pub uninterp spec fn loader_symbols(l: addr2line::Loader) -> Map<u64, Seq<char>>;

/// Where the loaded object's executable section begins, when it has one.
pub uninterp spec fn loader_text_base(l: addr2line::Loader) -> Option<u64>;

/// Relies on addr2line::Loader::find_symbol: the symbol-table name covering
/// the probe address, a deterministic query of the loaded object alone.
#[verifier::external_body]
fn loader_find_symbol(l: &addr2line::Loader, probe: u64) -> (r: Option<String>)
    ensures
        match r {
            Some(s) => loader_symbols(*l).contains_key(probe) && s@ == loader_symbols(*l)[probe],
            None => !loader_symbols(*l).contains_key(probe),
        },
{
    match l.find_symbol(probe) {
        Some(s) => Some(s.to_owned()),
        None => None,
    }
}

/// Relies on addr2line::Loader::get_section_range: the start of the named
/// section, a deterministic query of the loaded object alone.
#[verifier::external_body]
fn loader_text_start(l: &addr2line::Loader) -> (r: Option<u64>)
    ensures
        r == loader_text_base(*l),
{
    match l.get_section_range(".text".as_bytes()) {
        Some(range) => Some(range.begin),
        None => None,
    }
}

/// The debug objects loaded so far: one for the runtime image and one per
/// module identity, each loaded at most once and kept for the rest of the
/// run.
pub struct SymbolResolver {
    pub tee_elf: Option<addr2line::Loader>,
    pub ta_elfs: Vec<(u128, addr2line::Loader)>,
}

/// The first loaded object recorded for a module identity.
pub open spec fn find_ta(s: Seq<(u128, addr2line::Loader)>, uuid: u128) -> Option<
    addr2line::Loader,
>
    decreases s.len(),
{
    if s.len() == 0 {
        None
    } else if s[0].0 == uuid {
        Some(s[0].1)
    } else {
        find_ta(s.drop_first(), uuid)
    }
}

/// The loaded object that owns addresses attributed to `li`, if any.
pub open spec fn spec_loader_for(resolver: SymbolResolver, li: LoadInfo) -> Option<
    addr2line::Loader,
> {
    match li {
        LoadInfo::Tee(_) => resolver.tee_elf,
        LoadInfo::TrustedApp(info) => find_ta(resolver.ta_elfs@, info.uuid),
    }
}

/// The address actually probed: module addresses are already object
/// coordinates, runtime addresses are shifted by the executable section's
/// base because runtime symbol tables are indexed relative to it.  A shift
/// that leaves 64 bits yields no probe.
pub open spec fn spec_lookup_addr(li: LoadInfo, l: addr2line::Loader, addr: u64) -> Option<u64> {
    if li is Tee {
        match loader_text_base(l) {
            Some(b) => if addr + b <= u64::MAX {
                Some((addr + b) as u64)
            } else {
                None
            },
            None => Some(addr),
        }
    } else {
        Some(addr)
    }
}

/// What resolving an image-relative address yields: the covering symbol of
/// the probed address in the image's loaded object, or nothing when the
/// object is not loaded, the probe overflows, or no symbol covers it.
pub open spec fn spec_resolve(resolver: SymbolResolver, li: LoadInfo, addr: u64) -> Option<
    Seq<char>,
> {
    match spec_loader_for(resolver, li) {
        None => None,
        Some(l) => match spec_lookup_addr(li, l, addr) {
            None => None,
            Some(la) => if loader_symbols(l).contains_key(la) {
                Some(loader_symbols(l)[la])
            } else {
                None
            },
        },
    }
}

impl SymbolResolver {
    /// A resolver with nothing loaded yet.
    pub fn new() -> (r: SymbolResolver)
        ensures
            r.tee_elf is None,
            r.ta_elfs@.len() == 0,
    {
        SymbolResolver { tee_elf: None, ta_elfs: Vec::new() }
    }

    /// Whether the image `li` belongs to already has its debug object.
    pub fn has_loader(&self, load_info: &LoadInfo) -> (r: bool)
        ensures
            r == (spec_loader_for(*self, *load_info) is Some),
    {
        match load_info {
            LoadInfo::Tee(_) => self.tee_elf.is_some(),
            LoadInfo::TrustedApp(info) => {
                let n = self.ta_elfs.len();
                let mut i: usize = 0;
                proof {
                    assert(self.ta_elfs@.skip(0) =~= self.ta_elfs@);
                }
                while i < n
                    invariant
                        n == self.ta_elfs@.len(),
                        i <= n,
                        *load_info == LoadInfo::TrustedApp(*info),
                        find_ta(self.ta_elfs@, info.uuid) == find_ta(
                            self.ta_elfs@.skip(i as int),
                            info.uuid,
                        ),
                    decreases n - i,
                {
                    proof {
                        assert(self.ta_elfs@.skip(i as int)[0] == self.ta_elfs@[i as int]);
                        assert(self.ta_elfs@.skip(i as int).drop_first() =~= self.ta_elfs@.skip(
                            i + 1,
                        ));
                    }
                    if self.ta_elfs[i].0 == info.uuid {
                        proof {
                            assert(find_ta(self.ta_elfs@.skip(i as int), info.uuid) == Some(
                                self.ta_elfs@[i as int].1,
                            ));
                            assert(*load_info == LoadInfo::TrustedApp(*info));
                            assert(spec_loader_for(*self, *load_info) == find_ta(
                                self.ta_elfs@,
                                info.uuid,
                            ));
                        }
                        return true;
                    }
                    i = i + 1;
                }
                proof {
                    assert(self.ta_elfs@.skip(n as int).len() == 0);
                }
                false
            },
        }
    }

    /// Record the debug object for the image `li` belongs to.  An image
    /// that already has one keeps it: each object is loaded at most once.
    pub fn insert_loader(&mut self, load_info: &LoadInfo, loader: addr2line::Loader)
        ensures
            spec_loader_for(*final(self), *load_info) is Some,
            spec_loader_for(*old(self), *load_info) is Some ==> *final(self) == *old(self),
            match load_info {
                LoadInfo::Tee(_) => final(self).ta_elfs == old(self).ta_elfs && (old(
                    self,
                ).tee_elf is None ==> final(self).tee_elf == Some(loader)),
                LoadInfo::TrustedApp(info) => final(self).tee_elf == old(self).tee_elf && (
                spec_loader_for(*old(self), *load_info) is None ==> final(self).ta_elfs@ == old(
                    self,
                ).ta_elfs@.push((info.uuid, loader))),
            },
    {
        if self.has_loader(load_info) {
            return ;
        }
        match load_info {
            LoadInfo::Tee(_) => {
                self.tee_elf = Some(loader);
            },
            LoadInfo::TrustedApp(info) => {
                let ghost prev = self.ta_elfs@;
                self.ta_elfs.push((info.uuid, loader));
                proof {
                    lemma_find_ta_push(prev, info.uuid, loader);
                }
            },
        }
    }

    /// Borrow the loaded object for the image `li` belongs to.
    fn loader_for(&self, load_info: &LoadInfo) -> (r: Option<&addr2line::Loader>)
        ensures
            match r {
                Some(l) => spec_loader_for(*self, *load_info) == Some(*l),
                None => spec_loader_for(*self, *load_info) is None,
            },
    {
        match load_info {
            LoadInfo::Tee(_) => {
                match &self.tee_elf {
                    Some(l) => Some(l),
                    None => None,
                }
            },
            LoadInfo::TrustedApp(info) => {
                let n = self.ta_elfs.len();
                let mut i: usize = 0;
                proof {
                    assert(self.ta_elfs@.skip(0) =~= self.ta_elfs@);
                }
                while i < n
                    invariant
                        n == self.ta_elfs@.len(),
                        i <= n,
                        *load_info == LoadInfo::TrustedApp(*info),
                        find_ta(self.ta_elfs@, info.uuid) == find_ta(
                            self.ta_elfs@.skip(i as int),
                            info.uuid,
                        ),
                    decreases n - i,
                {
                    proof {
                        assert(self.ta_elfs@.skip(i as int)[0] == self.ta_elfs@[i as int]);
                        assert(self.ta_elfs@.skip(i as int).drop_first() =~= self.ta_elfs@.skip(
                            i + 1,
                        ));
                    }
                    let pair = &self.ta_elfs[i];
                    if pair.0 == info.uuid {
                        proof {
                            assert(find_ta(self.ta_elfs@.skip(i as int), info.uuid) == Some(
                                self.ta_elfs@[i as int].1,
                            ));
                            assert(*load_info == LoadInfo::TrustedApp(*info));
                            assert(spec_loader_for(*self, *load_info) == find_ta(
                                self.ta_elfs@,
                                info.uuid,
                            ));
                        }
                        return Some(&pair.1);
                    }
                    i = i + 1;
                }
                proof {
                    assert(self.ta_elfs@.skip(n as int).len() == 0);
                }
                None
            },
        }
    }

    /// Resolve an image-relative address to a symbol name.  Returns
    /// nothing when the image's debug object has not been loaded, when the
    /// runtime section shift overflows, or when no symbol covers the
    /// probed address — none of these aborts anything.
    pub fn resolve_symbol(&self, load_info: &LoadInfo, addr: u64) -> (r: Option<String>)
        ensures
            match r {
                Some(s) => spec_resolve(*self, *load_info, addr) == Some(s@),
                None => spec_resolve(*self, *load_info, addr) is None,
            },
    {
        let l = match self.loader_for(load_info) {
            Some(l) => l,
            None => {
                return None;
            },
        };
        let probe: u64 = if load_info.is_tee() {
            match loader_text_start(l) {
                Some(b) => {
                    match addr.checked_add(b) {
                        Some(p) => p,
                        None => {
                            return None;
                        },
                    }
                },
                None => addr,
            }
        } else {
            addr
        };
        loader_find_symbol(l, probe)
    }
}

/// Recording a new identity keeps every earlier lookup and serves the new
/// one.
proof fn lemma_find_ta_push(s: Seq<(u128, addr2line::Loader)>, uuid: u128, loader: addr2line::Loader)
    requires
        find_ta(s, uuid) is None,
    ensures
        find_ta(s.push((uuid, loader)), uuid) == Some(loader),
        forall|u: u128|
            u != uuid ==> #[trigger] find_ta(s.push((uuid, loader)), u) == find_ta(s, u),
    decreases s.len(),
{
    let t = s.push((uuid, loader));
    if s.len() == 0 {
        assert(t[0] == (uuid, loader));
        assert(find_ta(t, uuid) == Some(loader));
        assert forall|u: u128| u != uuid implies #[trigger] find_ta(t, u) == find_ta(s, u) by {
            assert(t.drop_first() =~= Seq::<(u128, addr2line::Loader)>::empty());
            assert(find_ta(t.drop_first(), u) is None);
            assert(find_ta(t, u) == find_ta(t.drop_first(), u));
            assert(find_ta(s, u) is None);
        }
    } else {
        assert(s[0].0 != uuid);
        assert(t.drop_first() =~= s.drop_first().push((uuid, loader)));
        lemma_find_ta_push(s.drop_first(), uuid, loader);
        assert(find_ta(t, uuid) == find_ta(s.drop_first().push((uuid, loader)), uuid));
        assert forall|u: u128| u != uuid implies #[trigger] find_ta(t, u) == find_ta(s, u) by {
            if s[0].0 == u {
                assert(find_ta(t, u) == Some(t[0].1));
                assert(find_ta(s, u) == Some(s[0].1));
            } else {
                assert(find_ta(t, u) == find_ta(t.drop_first(), u));
                assert(find_ta(s, u) == find_ta(s.drop_first(), u));
            }
        }
    }
}

} // verus!

verus! {

/// What resolving an absolute address against the trace metadata yields:
/// the owning image is selected, the image-relative offset computed — an
/// address below the image's base resolves to nothing — and the image's
/// loaded debug object queried.
pub open spec fn spec_resolve_addr(
    resolver: SymbolResolver,
    info: InfoModel,
    addr: u64,
) -> Option<Seq<char>> {
    let li = spec_find_by_addr(info.regions, info.elf_list, info.ta_uuid, info.tee_load_addr, addr);
    match spec_reladdr(li, addr) {
        None => None,
        Some(rel) => spec_resolve(resolver, li, rel),
    }
}

/// Resolve one absolute address: owning image, relative offset, symbol
/// lookup.
pub fn resolve_symbol(
    resolver: &SymbolResolver,
    symbol_info: &SymbolInfo,
    addr: u64,
) -> (r: Option<String>)
    ensures
        match r {
            Some(s) => spec_resolve_addr(*resolver, symbol_info@, addr) == Some(s@),
            None => spec_resolve_addr(*resolver, symbol_info@, addr) is None,
        },
{
    let load_info = symbol_info.find_by_addr(addr);
    let reladdr = match load_info.calculate_reladdr(addr) {
        Some(rel) => rel,
        None => {
            return None;
        },
    };
    resolver.resolve_symbol(&load_info, reladdr)
}

/// A node annotated with whatever its address resolves to; a node whose
/// address resolves to nothing keeps the symbol it had.
pub open spec fn spec_resolved_node(
    resolver: SymbolResolver,
    info: InfoModel,
    n: NodeModel,
) -> NodeModel
    decreases n,
{
    NodeModel {
        depth: n.depth,
        func: n.func,
        symbol: match spec_resolve_addr(resolver, info, n.func) {
            Some(s) => Some(s),
            None => n.symbol,
        },
        time: n.time,
        children: Seq::new(
            n.children.len(),
            |i: int|
                if 0 <= i < n.children.len() {
                    spec_resolved_node(resolver, info, n.children[i])
                } else {
                    n
                },
        ),
    }
}

/// Annotating a node does not change the shape of its subtree.
pub proof fn lemma_resolved_height(resolver: SymbolResolver, info: InfoModel, m: NodeModel)
    ensures
        model_height(spec_resolved_node(resolver, info, m)) == model_height(m),
    decreases m,
{
    let rm = spec_resolved_node(resolver, info, m);
    assert forall|i: int| 0 <= i < m.children.len() implies model_height(
        #[trigger] rm.children[i],
    ) == model_height(m.children[i]) by {
        lemma_resolved_height(resolver, info, m.children[i]);
    }
    lemma_forest_height_pointwise(m.children, rm.children);
}

/// Annotate a node and, recursively, all of its descendants.
pub fn recursive_resolve_symbol(
    resolver: &SymbolResolver,
    symbol_info: &SymbolInfo,
    node: &mut FtraceNode,
)
    ensures
        node_model(*final(node)) == spec_resolved_node(
            *resolver,
            symbol_info@,
            node_model(*old(node)),
        ),
    decreases model_height(node_model(*old(node))),
{
    let ghost original = *node;
    match resolve_symbol(resolver, symbol_info, node.func) {
        Some(symbol) => node.set_symbol(symbol),
        None => {},
    }
    let n = node.children.len();
    let mut i: usize = 0;
    while i < n
        invariant
            original == *old(node),
            n == node.children@.len(),
            i <= n,
            node.depth == original.depth,
            node.func == original.func,
            node.time == original.time,
            node.children@.len() == original.children@.len(),
            node_model(*node).symbol == spec_resolved_node(
                *resolver,
                symbol_info@,
                node_model(original),
            ).symbol,
            forall|j: int|
                0 <= j < i ==> node_model(#[trigger] node.children@[j]) == spec_resolved_node(
                    *resolver,
                    symbol_info@,
                    node_model(original.children@[j]),
                ),
            forall|j: int| i <= j < n ==> #[trigger] node.children@[j] == original.children@[j],
        decreases n - i,
    {
        proof {
            assert(node.children@[i as int] == original.children@[i as int]);
            assert(node_model(node.children@[i as int]) == node_model(original).children[
                i as int
            ]);
            lemma_child_height(node_model(original).children, i as int);
            let cur = node_model(*node);
            let orig = node_model(original);
            assert forall|k: int| 0 <= k < orig.children.len() implies model_height(
                #[trigger] cur.children[k],
            ) == model_height(orig.children[k]) by {
                assert(cur.children[k] == node_model(node.children@[k]));
                assert(orig.children[k] == node_model(original.children@[k]));
                if k < i {
                    lemma_resolved_height(
                        *resolver,
                        symbol_info@,
                        node_model(original.children@[k]),
                    );
                } else {
                    assert(node.children@[k] == original.children@[k]);
                }
            }
            lemma_forest_height_pointwise(orig.children, cur.children);
            assert(model_height(node_model(*node)) == model_height(node_model(original)));
        }
        recursive_resolve_symbol(resolver, symbol_info, &mut node.children[i]);
        i = i + 1;
    }
    proof {
        assert(node_model(*node).children =~= spec_resolved_node(
            *resolver,
            symbol_info@,
            node_model(original),
        ).children);
        assert(node_model(*node) =~= spec_resolved_node(
            *resolver,
            symbol_info@,
            node_model(original),
        ));
    }
}

/// Annotate every top-level call of a tree, and so the whole tree.
pub fn resolve_tree(resolver: &SymbolResolver, symbol_info: &SymbolInfo, tree: &mut FtraceTree)
    ensures
        final(tree).trace_info == old(tree).trace_info,
        final(tree).children@.len() == old(tree).children@.len(),
        forall|j: int|
            0 <= j < old(tree).children@.len() ==> node_model(
                #[trigger] final(tree).children@[j],
            ) == spec_resolved_node(
                *resolver,
                symbol_info@,
                node_model(old(tree).children@[j]),
            ),
{
    let ghost original = *tree;
    let n = tree.children.len();
    let mut i: usize = 0;
    while i < n
        invariant
            n == tree.children@.len(),
            i <= n,
            tree.trace_info == original.trace_info,
            tree.children@.len() == original.children@.len(),
            forall|j: int|
                0 <= j < i ==> node_model(#[trigger] tree.children@[j]) == spec_resolved_node(
                    *resolver,
                    symbol_info@,
                    node_model(original.children@[j]),
                ),
            forall|j: int| i <= j < n ==> #[trigger] tree.children@[j] == original.children@[j],
        decreases n - i,
    {
        proof {
            assert(tree.children@[i as int] == original.children@[i as int]);
        }
        recursive_resolve_symbol(resolver, symbol_info, &mut tree.children[i]);
        i = i + 1;
    }
}

} // verus!

verus! {

use vstd::map_lib::*;

/// The entries a resolution cache currently holds: resolved names by
/// absolute address.
pub uninterp spec fn cache_entries(c: moka::sync::Cache<u64, String>) -> Map<u64, Seq<char>>;

/// A cache with nothing in it yet.
pub open spec fn no_entries() -> Map<u64, Seq<char>> {
    Map::empty()
}

/// Relies on moka::sync::Cache::entry / and_compute_with: computes for one
/// key are serialized on a key-level lock, so concurrent lookups of the
/// same uncached key collapse into one computation; the closure sees the
/// current entry, `Put` inserts the computed value and `Nop` changes no
/// entry; the returned entry is the present one, else the one just put,
/// else nothing.  The cache may evict entries at any time, so the final
/// contents are only bounded by the old contents plus the one insertion.
#[verifier::external_body]
fn cache_resolve(
    cache: &mut moka::sync::Cache<u64, String>,
    resolver: &SymbolResolver,
    load_info: &LoadInfo,
    rel: Option<u64>,
    key: u64,
) -> (r: Option<String>)
    ensures
        match r {
            Some(s) => ((cache_entries(*old(cache)).contains_key(key) && s@ == cache_entries(
                *old(cache),
            )[key]) || (rel matches Some(a) && spec_resolve(*resolver, *load_info, a) == Some(s@)))
                && cache_entries(*final(cache)).submap_of(
                cache_entries(*old(cache)).insert(key, s@),
            ),
            None => (match rel {
                Some(a) => spec_resolve(*resolver, *load_info, a) is None,
                None => true,
            }) && cache_entries(*final(cache)).submap_of(cache_entries(*old(cache))),
        },
{
    let result = cache.entry(key).and_compute_with(
        |entry| match (entry, rel) {
            (Some(_), _) => moka::ops::compute::Op::Nop,
            (None, None) => moka::ops::compute::Op::Nop,
            (None, Some(a)) => match resolver.resolve_symbol(load_info, a) {
                Some(s) => moka::ops::compute::Op::Put(s),
                None => moka::ops::compute::Op::Nop,
            },
        },
    );
    match result.into_entry() {
        Some(e) => Some(e.into_value()),
        None => None,
    }
}

/// The resolver wrapped in a bounded, address-keyed cache.  A cached
/// address is answered from the cache without re-invoking the resolver;
/// only successful resolutions are cached, so a miss can be retried once
/// more debug objects are loaded; and the underlying compute-if-absent
/// primitive serializes concurrent computations per key.
pub struct CachedSymbolResolver {
    pub resolver: SymbolResolver,
    pub cache: moka::sync::Cache<u64, String>,
}

impl CachedSymbolResolver {
    /// Wrap a resolver with the default cache bound.
    pub fn new(resolver: SymbolResolver) -> (r: CachedSymbolResolver)
        ensures
            r.resolver == resolver,
            cache_entries(r.cache) == Map::<u64, Seq<char>>::empty(),
    {
        Self::with_capacity(resolver, 8192)
    }

    /// Wrap a resolver with a cache bounded to `capacity` entries.  The
    /// bound caps memory for unboundedly many distinct addresses; it is
    /// not a correctness mechanism.  Relies on
    /// moka::sync::Cache::builder/max_capacity/build: a fresh, empty cache
    /// holding at most `capacity` entries, evicting on overflow.
    #[verifier::external_body]
    pub fn with_capacity(resolver: SymbolResolver, capacity: u64) -> (r: CachedSymbolResolver)
        ensures
            r.resolver == resolver,
            cache_entries(r.cache) == no_entries(),
    {
        CachedSymbolResolver {
            resolver,
            cache: moka::sync::Cache::builder().max_capacity(capacity).build(),
        }
    }

    /// Resolve one absolute address through the cache: an address already
    /// cached is answered with the cached name and the resolver is not
    /// consulted; an uncached address is resolved exactly as
    /// [`resolve_symbol`] would, and the name is cached only on success.
    pub fn resolve_symbol(&mut self, symbol_info: &SymbolInfo, addr: u64) -> (r: Option<String>)
        ensures
            final(self).resolver == old(self).resolver,
            match r {
                Some(s) => ((cache_entries(old(self).cache).contains_key(addr) && s@
                    == cache_entries(old(self).cache)[addr]) || spec_resolve_addr(
                    old(self).resolver,
                    symbol_info@,
                    addr,
                ) == Some(s@)) && cache_entries(final(self).cache).submap_of(
                    cache_entries(old(self).cache).insert(addr, s@),
                ),
                None => spec_resolve_addr(old(self).resolver, symbol_info@, addr) is None
                    && cache_entries(final(self).cache).submap_of(cache_entries(old(self).cache)),
            },
    {
        let load_info = symbol_info.find_by_addr(addr);
        let rel = load_info.calculate_reladdr(addr);
        cache_resolve(&mut self.cache, &self.resolver, &load_info, rel, addr)
    }
}

} // verus!

verus! {

/// Offset computation never wraps: an address below its image's load
/// address resolves to no symbol, whatever is loaded.
pub proof fn lemma_below_base_unresolved(resolver: SymbolResolver, info: InfoModel, addr: u64)
    requires
        ({
            let li = spec_find_by_addr(
                info.regions,
                info.elf_list,
                info.ta_uuid,
                info.tee_load_addr,
                addr,
            );
            addr < spec_load_addr(li)
        }),
    ensures
        spec_resolve_addr(resolver, info, addr) is None,
{
}

} // verus!
