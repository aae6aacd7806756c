//! A capability registry for optional graphics-context features.
//!
//! Features are registered once, at context construction, each under a unique
//! name, with the minimum context version it requires and an optional
//! dependency on another, already registered feature. A feature is supported
//! iff its version gate passes and its dependency (if any) is supported in
//! turn; support is recomputed from the current context version on every
//! query, never cached. Enabling a supported feature runs its activation at
//! most once: a second enable of the same feature is a successful no-op.
//! Requiring the dependency to be registered first keeps the dependency graph
//! acyclic by construction, so support queries always terminate.

use vstd::prelude::*;

verus! {

/// Why a registry operation was refused.
#[derive(Clone, Copy, PartialEq, Eq, Structural, Debug)]
pub enum RegistryError {
    /// The named feature is not registered.
    NotFound,
    /// Enabling was attempted on a feature whose support check fails.
    Unsupported,
    /// Registration was refused: duplicate name, or a dependency on a feature
    /// that is not registered yet (which would open a cycle).
    Configuration,
}

/// Static metadata for one optional capability: its unique name, the minimum
/// context version it requires, and an optional dependency on another
/// feature's support check. Immutable after registration.
pub struct FeatureDescriptor {
    pub name: String,
    pub min_version: u64,
    pub dependency: Option<String>,
}

/// The index of the first descriptor named `name`, or `fs.len()` when none is.
pub open spec fn find_spec(fs: Seq<FeatureDescriptor>, name: Seq<char>) -> int
    decreases fs.len(),
{
    if fs.len() == 0 {
        0
    } else if fs[0].name@ == name {
        0
    } else {
        1 + find_spec(fs.drop_first(), name)
    }
}

/// Some descriptor is registered under `name`.
pub open spec fn registered(fs: Seq<FeatureDescriptor>, name: Seq<char>) -> bool {
    exists|i: int| 0 <= i < fs.len() && fs[i].name@ == name
}

/// No two descriptors share a name.
pub open spec fn names_unique(fs: Seq<FeatureDescriptor>) -> bool {
    forall|i: int, j: int| 0 <= i < j < fs.len() ==> #[trigger] fs[i].name@ != #[trigger] fs[j].name@
}

/// Every dependency names a feature registered strictly earlier: the
/// dependency graph is acyclic by construction.
pub open spec fn deps_registered_before(fs: Seq<FeatureDescriptor>) -> bool {
    forall|i: int| 0 <= i < fs.len() ==> match #[trigger] fs[i].dependency {
        Option::Some(d) => exists|j: int| 0 <= j < i && fs[j].name@ == d@,
        Option::None => true,
    }
}

/// The feature at index `i` is supported under `version`: its version gate
/// passes, and its dependency (if any) is supported in turn. The recursion
/// descends to strictly smaller indices, so it terminates.
pub open spec fn supported_at(fs: Seq<FeatureDescriptor>, version: u64, i: int) -> bool
    decreases i,
{
    if 0 <= i < fs.len() {
        fs[i].min_version <= version && match fs[i].dependency {
            Option::None => true,
            Option::Some(d) => {
                let j = find_spec(fs, d@);
                if 0 <= j < i {
                    supported_at(fs, version, j)
                } else {
                    false
                }
            },
        }
    } else {
        false
    }
}

/// The feature registered under `name` is supported under `version`.
pub open spec fn spec_supported(fs: Seq<FeatureDescriptor>, version: u64, name: Seq<char>) -> bool {
    let i = find_spec(fs, name);
    i < fs.len() && supported_at(fs, version, i)
}

/// `find_spec` returns the first index holding `name`, or the length when the
/// name is absent.
pub proof fn lemma_find_spec(fs: Seq<FeatureDescriptor>, name: Seq<char>)
    ensures
        0 <= find_spec(fs, name) <= fs.len(),
        find_spec(fs, name) < fs.len() ==> fs[find_spec(fs, name)].name@ == name,
        forall|j: int| 0 <= j < find_spec(fs, name) ==> fs[j].name@ != name,
        find_spec(fs, name) < fs.len() <==> registered(fs, name),
    decreases fs.len(),
{
    if fs.len() == 0 {
        assert(!registered(fs, name));
    } else if fs[0].name@ == name {
        assert(registered(fs, name));
    } else {
        let rest = fs.drop_first();
        lemma_find_spec(rest, name);
        assert forall|j: int| 0 <= j < find_spec(fs, name) implies fs[j].name@ != name by {
            if j > 0 {
                assert(fs[j] == rest[j - 1]);
            }
        }
        if find_spec(rest, name) < rest.len() {
            assert(fs[find_spec(fs, name)] == rest[find_spec(rest, name)]);
            assert(registered(fs, name));
        } else {
            assert forall|j: int| 0 <= j < fs.len() implies fs[j].name@ != name by {
                if j > 0 {
                    assert(fs[j] == rest[j - 1]);
                }
            }
            assert(!registered(fs, name));
        }
    }
}

/// `find_spec` is pinned down by its characteristic properties: any index
/// bounded by the length, preceded only by other names, and holding `name`
/// unless it is the length, is the one `find_spec` returns.
pub proof fn lemma_find_spec_unique(fs: Seq<FeatureDescriptor>, name: Seq<char>, r: int)
    requires
        0 <= r <= fs.len(),
        forall|j: int| 0 <= j < r ==> fs[j].name@ != name,
        r < fs.len() ==> fs[r].name@ == name,
    ensures
        find_spec(fs, name) == r,
    decreases fs.len(),
{
    if fs.len() == 0 {
    } else if fs[0].name@ == name {
        assert(r == 0);
    } else {
        let rest = fs.drop_first();
        assert(forall|j: int| 0 <= j < rest.len() ==> rest[j] == fs[j + 1]);
        assert(r >= 1);
        lemma_find_spec_unique(rest, name, r - 1);
    }
}

/// The names enabled so far, as character sequences, contain `name`.
pub open spec fn contains_name(en: Seq<Seq<char>>, name: Seq<char>) -> bool {
    exists|i: int| 0 <= i < en.len() && en[i] == name
}

/// How the enabled set changes when `name` is enabled: unchanged when the
/// name is already there, extended by the name otherwise. The set only grows.
pub open spec fn spec_enable_set(en: Seq<Seq<char>>, name: Seq<char>) -> Seq<Seq<char>> {
    if contains_name(en, name) {
        en
    } else {
        en.push(name)
    }
}

/// How many entries of the enabled list equal `name`; each entry stands for
/// one run of the feature's activation side effect.
pub open spec fn count_matches(en: Seq<Seq<char>>, name: Seq<char>) -> nat
    decreases en.len(),
{
    if en.len() == 0 {
        0
    } else {
        (if en[0] == name {
            1nat
        } else {
            0nat
        }) + count_matches(en.drop_first(), name)
    }
}

/// A name absent from the list has count zero.
pub proof fn lemma_count_absent(en: Seq<Seq<char>>, name: Seq<char>)
    requires
        !contains_name(en, name),
    ensures
        count_matches(en, name) == 0,
    decreases en.len(),
{
    if en.len() > 0 {
        let rest = en.drop_first();
        assert(forall|j: int| 0 <= j < rest.len() ==> rest[j] == en[j + 1]);
        assert(!contains_name(rest, name));
        lemma_count_absent(rest, name);
    }
}

/// Appending an entry adds one to its own count and nothing to any other.
pub proof fn lemma_count_push(en: Seq<Seq<char>>, x: Seq<char>, name: Seq<char>)
    ensures
        count_matches(en.push(x), name) == count_matches(en, name) + (if x == name {
            1nat
        } else {
            0nat
        }),
    decreases en.len(),
{
    if en.len() == 0 {
        assert(en.push(x)[0] == x);
        assert(en.push(x).drop_first() =~= Seq::<Seq<char>>::empty());
        assert(count_matches(Seq::<Seq<char>>::empty(), name) == 0);
    } else {
        assert(en.push(x)[0] == en[0]);
        assert(en.push(x).drop_first() =~= en.drop_first().push(x));
        lemma_count_push(en.drop_first(), x, name);
    }
}

/// The capability registry for one context instance: the registered feature
/// descriptors, the current context version, and the names enabled so far,
/// in order of activation.
pub struct WebGLExtensions {
    pub features: Vec<FeatureDescriptor>,
    pub version: u64,
    pub enabled: Vec<String>,
}

/// Registration is accepted exactly when the name is new and the dependency,
/// if any, is already registered.
pub open spec fn register_ok(fs: Seq<FeatureDescriptor>, d: FeatureDescriptor) -> bool {
    !registered(fs, d.name@) && match d.dependency {
        Option::Some(dep) => registered(fs, dep@),
        Option::None => true,
    }
}

impl WebGLExtensions {
    /// Names are unique, every dependency is registered earlier, and no
    /// feature was activated twice.
    pub open spec fn wf(self) -> bool {
        &&& names_unique(self.features@)
        &&& deps_registered_before(self.features@)
        &&& forall|i: int, j: int| 0 <= i < j < self.enabled.deep_view().len()
            ==> #[trigger] self.enabled.deep_view()[i] != #[trigger] self.enabled.deep_view()[j]
    }

    /// The feature registered under `name` has been enabled.
    pub open spec fn spec_enabled(self, name: Seq<char>) -> bool {
        contains_name(self.enabled.deep_view(), name)
    }

    /// An empty registry for a context of the given version.
    pub fn new(version: u64) -> (r: WebGLExtensions)
        ensures
            r.wf(),
            r.features@.len() == 0,
            r.version == version,
            r.enabled.deep_view() == Seq::<Seq<char>>::empty(),
    {
        let r = WebGLExtensions { features: Vec::new(), version, enabled: Vec::new() };
        proof {
            assert(r.enabled.deep_view() =~= Seq::<Seq<char>>::empty());
        }
        r
    }

    /// Changes the context version. Support is recomputed from the current
    /// version on every query, so this re-evaluates every feature's gate
    /// without any explicit reset.
    pub fn set_version(&mut self, version: u64)
        requires
            old(self).wf(),
        ensures
            final(self).wf(),
            final(self).features == old(self).features,
            final(self).enabled == old(self).enabled,
            final(self).version == version,
    {
        self.version = version;
    }

    /// Adds a feature descriptor under its name. Refused when the name is
    /// already taken, or when the dependency is not registered yet — the
    /// latter keeps the dependency graph acyclic.
    pub fn register(&mut self, d: FeatureDescriptor) -> (r: Result<(), RegistryError>)
        requires
            old(self).wf(),
        ensures
            final(self).wf(),
            final(self).version == old(self).version,
            final(self).enabled == old(self).enabled,
            register_ok(old(self).features@, d) ==> r == Ok::<(), RegistryError>(())
                && final(self).features@ == old(self).features@.push(d),
            !register_ok(old(self).features@, d) ==> r == Err::<(), RegistryError>(
                RegistryError::Configuration,
            ) && final(self).features == old(self).features,
    {
        proof {
            lemma_find_spec(self.features@, d.name@);
        }
        let i = find_index(&self.features, &d.name);
        if i < self.features.len() {
            return Err(RegistryError::Configuration);
        }
        match &d.dependency {
            Option::Some(dep) => {
                proof {
                    lemma_find_spec(self.features@, dep@);
                }
                let j = find_index(&self.features, dep);
                if j == self.features.len() {
                    return Err(RegistryError::Configuration);
                }
            },
            Option::None => {},
        }
        let ghost oldfs = self.features@;
        self.features.push(d);
        proof {
            let newfs = self.features@;
            assert(newfs == oldfs.push(d));
            assert forall|a: int, b: int| 0 <= a < b < newfs.len() implies #[trigger] newfs[a].name@
                != #[trigger] newfs[b].name@ by {
                if b < oldfs.len() {
                    assert(newfs[a] == oldfs[a]);
                    assert(newfs[b] == oldfs[b]);
                } else {
                    assert(newfs[b] == d);
                    assert(newfs[a] == oldfs[a]);
                }
            }
            assert forall|a: int| 0 <= a < newfs.len() implies match #[trigger] newfs[a].dependency {
                Option::Some(dd) => exists|j: int| 0 <= j < a && newfs[j].name@ == dd@,
                Option::None => true,
            } by {
                if a < oldfs.len() {
                    assert(newfs[a] == oldfs[a]);
                    match oldfs[a].dependency {
                        Option::Some(dd) => {
                            let j = choose|j: int| 0 <= j < a && oldfs[j].name@ == dd@;
                            assert(newfs[j] == oldfs[j]);
                            assert(newfs[j].name@ == dd@);
                        },
                        Option::None => {},
                    }
                } else {
                    assert(newfs[a] == d);
                    match d.dependency {
                        Option::Some(dep) => {
                            let j = find_spec(oldfs, dep@);
                            assert(newfs[j] == oldfs[j]);
                            assert(newfs[j].name@ == dep@);
                        },
                        Option::None => {},
                    }
                }
            }
        }
        Ok(())
    }

    /// Whether the feature registered under `name` is supported: its version
    /// gate passes and its dependency, if any, is supported in turn. Fails
    /// with `NotFound` exactly when `name` is unregistered.
    pub fn is_supported(&self, name: &str) -> (r: Result<bool, RegistryError>)
        requires
            self.wf(),
        ensures
            match r {
                Result::Ok(b) => registered(self.features@, name@) && b == spec_supported(
                    self.features@,
                    self.version,
                    name@,
                ),
                Result::Err(e) => e == RegistryError::NotFound && !registered(
                    self.features@,
                    name@,
                ),
            },
    {
        let key: String = name.to_owned();
        proof {
            lemma_find_spec(self.features@, name@);
        }
        let i = find_index(&self.features, &key);
        if i == self.features.len() {
            Err(RegistryError::NotFound)
        } else {
            Ok(supported_index(&self.features, self.version, i))
        }
    }

    /// Whether the feature has been enabled: a pure membership check against
    /// the enabled set; never fails.
    pub fn is_enabled(&self, name: &str) -> (r: bool)
        ensures
            r == contains_name(self.enabled.deep_view(), name@),
    {
        let key: String = name.to_owned();
        let n = self.enabled.len();
        let mut k: usize = 0;
        while k < n
            invariant
                n == self.enabled@.len(),
                k <= n,
                key@ == name@,
                forall|j: int| 0 <= j < k ==> self.enabled.deep_view()[j] != name@,
            decreases n - k,
        {
            let hit = self.enabled[k] == key;
            if hit {
                proof {
                    assert(self.enabled.deep_view()[k as int] == name@);
                }
                return true;
            }
            k = k + 1;
        }
        proof {
            assert(self.enabled.deep_view().len() == n);
        }
        false
    }

    /// Enables the feature registered under `name`. Fails with `NotFound`
    /// when `name` is unregistered and with `Unsupported` when its support
    /// check fails. Otherwise the name joins the enabled set if it is not
    /// there yet — the one moment the feature's activation side effect runs —
    /// and an enable of an already enabled feature is a successful no-op.
    /// The enabled set only grows.
    pub fn enable(&mut self, name: &str) -> (r: Result<(), RegistryError>)
        requires
            old(self).wf(),
        ensures
            final(self).wf(),
            final(self).features == old(self).features,
            final(self).version == old(self).version,
            match r {
                Result::Ok(_) => registered(old(self).features@, name@) && spec_supported(
                    old(self).features@,
                    old(self).version,
                    name@,
                ) && final(self).enabled.deep_view() == spec_enable_set(
                    old(self).enabled.deep_view(),
                    name@,
                ) && final(self).spec_enabled(name@),
                Result::Err(e) => final(self).enabled == old(self).enabled && ((e
                    == RegistryError::NotFound && !registered(old(self).features@, name@)) || (e
                    == RegistryError::Unsupported && registered(old(self).features@, name@)
                    && !spec_supported(old(self).features@, old(self).version, name@))),
            },
    {
        let key: String = name.to_owned();
        proof {
            lemma_find_spec(self.features@, name@);
        }
        let i = find_index(&self.features, &key);
        if i == self.features.len() {
            return Err(RegistryError::NotFound);
        }
        let sup = supported_index(&self.features, self.version, i);
        if !sup {
            return Err(RegistryError::Unsupported);
        }
        let already = self.is_enabled(name);
        if !already {
            let ghost olden = self.enabled.deep_view();
            self.enabled.push(key);
            proof {
                assert(self.enabled.deep_view() =~= olden.push(name@));
                assert(self.enabled.deep_view()[olden.len() as int] == name@);
                assert forall|a: int, b: int|
                    0 <= a < b < self.enabled.deep_view().len()
                    implies #[trigger] self.enabled.deep_view()[a]
                        != #[trigger] self.enabled.deep_view()[b] by {
                    if b == olden.len() {
                        assert(self.enabled.deep_view()[a] == olden[a]);
                        assert(!contains_name(olden, name@));
                    }
                }
            }
        }
        Ok(())
    }
}

/// The index of the first descriptor named `name`, or the number of
/// descriptors when none carries it.
fn find_index(fs: &Vec<FeatureDescriptor>, name: &String) -> (r: usize)
    ensures
        r == find_spec(fs@, name@),
        r <= fs@.len(),
{
    let n = fs.len();
    let mut k: usize = 0;
    while k < n
        invariant
            n == fs@.len(),
            k <= n,
            forall|j: int| 0 <= j < k ==> fs@[j].name@ != name@,
        decreases n - k,
    {
        let hit = fs[k].name == *name;
        if hit {
            proof {
                lemma_find_spec_unique(fs@, name@, k as int);
            }
            return k;
        }
        k = k + 1;
    }
    proof {
        lemma_find_spec_unique(fs@, name@, n as int);
    }
    n
}

/// Whether the feature at index `i` is supported, by the recursive descent
/// the specification describes: the version gate, then the dependency.
fn supported_index(fs: &Vec<FeatureDescriptor>, version: u64, i: usize) -> (r: bool)
    requires
        names_unique(fs@),
        deps_registered_before(fs@),
        i < fs@.len(),
    ensures
        r == supported_at(fs@, version, i as int),
    decreases i,
{
    let f = &fs[i];
    if f.min_version > version {
        return false;
    }
    match &f.dependency {
        Option::None => true,
        Option::Some(d) => {
            proof {
                lemma_find_spec(fs@, d@);
                assert(exists|k: int| 0 <= k < i && fs@[k].name@ == d@);
                let k = choose|k: int| 0 <= k < i && fs@[k].name@ == d@;
                assert(find_spec(fs@, d@) <= k) by {
                    if find_spec(fs@, d@) > k {
                        assert(fs@[k].name@ != d@);
                    }
                }
            }
            let j = find_index(fs, d);
            supported_index(fs, version, j)
        },
    }
}

/// Enabling a feature twice in a row runs its activation side effect exactly
/// once, and the feature reports enabled after either call: the first enable
/// of a name not yet enabled appends exactly one activation record, and the
/// second enable changes nothing. The enabled set only grows: what was
/// enabled before stays enabled, in order.
pub proof fn lemma_enable_once(en: Seq<Seq<char>>, name: Seq<char>)
    ensures
        spec_enable_set(spec_enable_set(en, name), name) == spec_enable_set(en, name),
        contains_name(spec_enable_set(en, name), name),
        contains_name(en, name) ==> spec_enable_set(en, name) == en,
        !contains_name(en, name) ==> count_matches(spec_enable_set(en, name), name)
            == count_matches(en, name) + 1,
        !contains_name(en, name) ==> count_matches(spec_enable_set(en, name), name) == 1,
        en.is_prefix_of(spec_enable_set(en, name)),
{
    if contains_name(en, name) {
    } else {
        let en2 = en.push(name);
        assert(en2[en.len() as int] == name);
        assert(contains_name(en2, name));
        lemma_count_push(en, name, name);
        lemma_count_absent(en, name);
    }
}

/// A feature with a dependency is supported iff its own version gate passes
/// and the dependency is supported: the support query under one version is
/// exactly this conjunction, so flipping the context version re-evaluates it
/// with no explicit reset.
pub proof fn lemma_supported_with_dependency(
    fs: Seq<FeatureDescriptor>,
    version: u64,
    name: Seq<char>,
    dep: Seq<char>,
)
    requires
        names_unique(fs),
        deps_registered_before(fs),
        registered(fs, name),
        match fs[find_spec(fs, name)].dependency {
            Option::Some(d) => d@ == dep,
            Option::None => false,
        },
    ensures
        spec_supported(fs, version, name) == (fs[find_spec(fs, name)].min_version <= version
            && spec_supported(fs, version, dep)),
{
    let i = find_spec(fs, name);
    lemma_find_spec(fs, name);
    assert(0 <= i < fs.len());
    let j0 = choose|j: int| 0 <= j < i && fs[j].name@ == dep;
    lemma_find_spec(fs, dep);
    let j = find_spec(fs, dep);
    assert(j <= j0) by {
        if j > j0 {
            assert(fs[j0].name@ != dep);
        }
    }
    assert(0 <= j < i);
    assert(spec_supported(fs, version, dep) == supported_at(fs, version, j));
}

/// A feature whose version gate fails is not supported, whatever its
/// dependency: lowering the context version below a feature's minimum flips
/// its support to false.
pub proof fn lemma_version_gate(fs: Seq<FeatureDescriptor>, version: u64, name: Seq<char>)
    requires
        registered(fs, name),
        version < fs[find_spec(fs, name)].min_version,
    ensures
        !spec_supported(fs, version, name),
{
    lemma_find_spec(fs, name);
}

} // verus!
