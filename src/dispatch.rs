//! Resolution of a module's imports to host function indices, and the
//! dispatch of an index back to its host function.
use vstd::prelude::*;
use crate::error::InstantiationError;

verus! {

/// Index of the built-in `abort`.
pub const ABORT_FUNC_INDEX: usize = 0;

/// Index of the built-in `gas`.
pub const GAS_FUNC_INDEX: usize = 1;

/// A host module as the resolver sees it: its name and the full names of its
/// functions (`"store.set"`), in declaration order.
#[derive(Clone, Debug)]
pub struct HostModuleDecl {
    pub name: String,
    pub functions: Vec<String>,
}

/// Whether a host module is one of the engine's own or one given by the
/// embedder.
#[derive(Clone, Copy, Debug, PartialEq, Eq, Structural)]
pub enum ModuleGroup {
    Builtin,
    Custom,
}

/// A host function: its module's group, the module's position in that group,
/// and the function's position in the module.
#[derive(Clone, Copy, Debug, PartialEq, Eq, Structural)]
pub struct HostFunctionRef {
    pub group: ModuleGroup,
    pub module: usize,
    pub function: usize,
}

/// What a function index stands for.
#[derive(Clone, Copy, Debug, PartialEq, Eq, Structural)]
pub enum DispatchTarget {
    Abort,
    Gas,
    Host(HostFunctionRef),
}

/// The function names of each module.
pub open spec fn module_views(mods: Seq<HostModuleDecl>) -> Seq<Seq<Seq<char>>> {
    mods.map_values(|m: HostModuleDecl| m.functions@.map_values(|f: String| f@))
}

/// The functions of the module at position `m` of group `g`, as entries of
/// the dispatch space.
pub open spec fn module_entries(names: Seq<Seq<char>>, g: ModuleGroup, m: int) -> Seq<(HostFunctionRef, Seq<char>)> {
    Seq::new(names.len(), |j: int| (HostFunctionRef { group: g, module: m as usize, function: j as usize }, names[j]))
}

/// The functions of a group of modules, module after module, each in
/// declaration order.
pub open spec fn group_entries(mods: Seq<Seq<Seq<char>>>, g: ModuleGroup) -> Seq<(HostFunctionRef, Seq<char>)>
    decreases mods.len(),
{
    if mods.len() == 0 {
        Seq::empty()
    } else {
        group_entries(mods.drop_last(), g) + module_entries(mods.last(), g, mods.len() - 1)
    }
}

/// All host functions in index order: the built-in modules, then the custom
/// ones. The entry at `k` has the function index `k + 2`.
pub open spec fn dispatch_space(builtin: Seq<HostModuleDecl>, custom: Seq<HostModuleDecl>) -> Seq<(HostFunctionRef, Seq<char>)> {
    group_entries(module_views(builtin), ModuleGroup::Builtin) + group_entries(module_views(custom), ModuleGroup::Custom)
}

/// The position of the first entry at or after `k` that has the name.
pub open spec fn first_named(space: Seq<(HostFunctionRef, Seq<char>)>, name: Seq<char>, k: nat) -> Option<nat>
    decreases space.len() - k,
{
    if k >= space.len() {
        None
    } else if space[k as int].1 == name {
        Some(k)
    } else {
        first_named(space, name, k + 1)
    }
}

/// The function index of an import name: `abort` and `gas` first, then the
/// first host function with that name.
pub open spec fn resolve_index(space: Seq<(HostFunctionRef, Seq<char>)>, name: Seq<char>) -> Option<nat> {
    if name == "abort"@ {
        Some(0)
    } else if name == "gas"@ {
        Some(1)
    } else {
        match first_named(space, name, 0) {
            Some(k) => Some(k + 2),
            None => None,
        }
    }
}

/// What a function index stands for in a dispatch space.
pub open spec fn target_of(space: Seq<(HostFunctionRef, Seq<char>)>, index: nat) -> Option<DispatchTarget> {
    if index == 0 {
        Some(DispatchTarget::Abort)
    } else if index == 1 {
        Some(DispatchTarget::Gas)
    } else if index - 2 < space.len() {
        Some(DispatchTarget::Host(space[index - 2].0))
    } else {
        None
    }
}

/// Resolves import names against an ordered set of host modules.
pub struct HostModulesImportResolver {
    builtin_host_modules: Vec<HostModuleDecl>,
    custom_host_modules: Vec<HostModuleDecl>,
    targets: Vec<HostFunctionRef>,
    names: Vec<String>,
}

impl HostModulesImportResolver {
    /// The dispatch space of this resolver's modules.
    pub closed spec fn space(&self) -> Seq<(HostFunctionRef, Seq<char>)> {
        dispatch_space(self.builtin_host_modules@, self.custom_host_modules@)
    }

    /// The built-in and custom modules that the resolver was made with.
    pub closed spec fn modules(&self) -> (Seq<HostModuleDecl>, Seq<HostModuleDecl>) {
        (self.builtin_host_modules@, self.custom_host_modules@)
    }

    /// The flat table holds the dispatch space.
    #[verifier::type_invariant]
    spec fn wf(self) -> bool {
        &&& self.targets@.len() == self.space().len()
        &&& self.names@.len() == self.space().len()
        &&& self.space().len() + 2 <= usize::MAX
        &&& forall|k: int| 0 <= k < self.space().len() ==> (#[trigger] self.space()[k]) == (self.targets@[k], self.names@[k]@)
    }

    pub fn new(builtin_host_modules: Vec<HostModuleDecl>, custom_host_modules: Vec<HostModuleDecl>) -> (r: Self)
        requires
            dispatch_space(builtin_host_modules@, custom_host_modules@).len() + 2 <= usize::MAX,
        ensures
            r.modules() == (builtin_host_modules@, custom_host_modules@),
            r.space() == dispatch_space(builtin_host_modules@, custom_host_modules@),
    {
        let mut targets: Vec<HostFunctionRef> = Vec::new();
        let mut names: Vec<String> = Vec::new();
        append_group(&mut targets, &mut names, &builtin_host_modules, ModuleGroup::Builtin);
        append_group(&mut targets, &mut names, &custom_host_modules, ModuleGroup::Custom);
        let r = HostModulesImportResolver { builtin_host_modules, custom_host_modules, targets, names };
        proof {
            assert forall|k: int| 0 <= k < r.space().len() implies (#[trigger] r.space()[k]) == (r.targets@[k], r.names@[k]@) by {
                let b = group_entries(module_views(r.builtin_host_modules@), ModuleGroup::Builtin);
                if k >= b.len() {
                    assert(r.space()[k] == group_entries(module_views(r.custom_host_modules@), ModuleGroup::Custom)[k - b.len()]);
                }
            }
        }
        r
    }
}

impl HostModulesImportResolver {
    /// The function index of an import: `abort` is 0, `gas` is 1, any other
    /// name the index of the first host function with that full name.
    pub fn resolve_func(&self, full_name: &str) -> (r: Result<usize, InstantiationError>)
        ensures
            match resolve_index(self.space(), full_name@) {
                Some(i) => r == Ok::<usize, InstantiationError>(i as usize),
                None => r matches Err(InstantiationError::UnresolvedImport(n)) && n@ == full_name@,
            },
    {
        proof {
            use_type_invariant(self);
        }
        let name = full_name.to_owned();
        if name == "abort".to_owned() {
            return Ok(ABORT_FUNC_INDEX);
        }
        if name == "gas".to_owned() {
            return Ok(GAS_FUNC_INDEX);
        }
        let mut k: usize = 0;
        while k < self.names.len()
            invariant
                k <= self.names@.len(),
                self.targets@.len() == self.space().len(),
                self.names@.len() == self.space().len(),
                self.space().len() + 2 <= usize::MAX,
                forall|j: int| 0 <= j < self.space().len() ==> (#[trigger] self.space()[j]) == (self.targets@[j], self.names@[j]@),
                name@ == full_name@,
                name@ != "abort"@,
                name@ != "gas"@,
                first_named(self.space(), name@, 0) == first_named(self.space(), name@, k as nat),
            decreases self.names@.len() - k,
        {
            assert(self.space()[k as int] == (self.targets@[k as int], self.names@[k as int]@));
            if self.names[k] == name {
                assert(first_named(self.space(), name@, k as nat) == Some(k as nat));
                return Ok(k + 2);
            }
            k = k + 1;
        }
        Err(InstantiationError::UnresolvedImport(name))
    }

    /// What a function index stands for; `None` where no function has it.
    pub fn lookup(&self, index: usize) -> (r: Option<DispatchTarget>)
        ensures
            r == target_of(self.space(), index as nat),
    {
        proof {
            use_type_invariant(self);
        }
        if index == ABORT_FUNC_INDEX {
            Some(DispatchTarget::Abort)
        } else if index == GAS_FUNC_INDEX {
            Some(DispatchTarget::Gas)
        } else if index - 2 < self.targets.len() {
            Some(DispatchTarget::Host(self.targets[index - 2]))
        } else {
            None
        }
    }

    /// The full name of the function at an index of the dispatch space.
    pub fn function_name(&self, index: usize) -> (r: Option<&String>)
        ensures
            match r {
                Some(n) => 2 <= index < self.space().len() + 2 && n@ == self.space()[index - 2].1,
                None => index < 2 || index >= self.space().len() + 2,
            },
    {
        proof {
            use_type_invariant(self);
        }
        if index >= 2 && index - 2 < self.names.len() {
            Some(&self.names[index - 2])
        } else {
            None
        }
    }

    /// The function indices of a module's imports, in order; fails on the
    /// first import that no function has.
    pub fn resolve_imports(&self, imports: &Vec<String>) -> (r: Result<Vec<usize>, InstantiationError>)
        ensures
            match r {
                Ok(indices) => indices@.len() == imports@.len() && forall|i: int|
                    0 <= i < imports@.len() ==> resolve_index(self.space(), imports@[i]@) == Some(
                        #[trigger] indices@[i] as nat,
                    ),
                Err(e) => exists|i: int|
                    0 <= i < imports@.len() && resolve_index(self.space(), #[trigger] imports@[i]@) is None
                        && e == InstantiationError::UnresolvedImport(imports@[i])
                        && forall|j: int| 0 <= j < i ==> resolve_index(self.space(), #[trigger] imports@[j]@) is Some,
            },
    {
        proof {
            use_type_invariant(self);
        }
        let mut indices: Vec<usize> = Vec::new();
        let mut i: usize = 0;
        while i < imports.len()
            invariant
                self.space().len() + 2 <= usize::MAX,
                i <= imports@.len(),
                indices@.len() == i,
                forall|j: int| 0 <= j < i ==> resolve_index(self.space(), imports@[j]@) == Some(#[trigger] indices@[j] as nat),
            decreases imports@.len() - i,
        {
            let import = imports[i].as_str();
            assert(import@ == imports@[i as int]@);
            proof {
                lemma_first_named(self.space(), import@, 0);
            }
            match self.resolve_func(import) {
                Ok(index) => {
                    indices.push(index);
                    assert(resolve_index(self.space(), imports@[i as int]@) == Some(indices@[i as int] as nat));
                },
                Err(_) => {
                    proof {
                        assert forall|j: int| 0 <= j < i implies resolve_index(self.space(), #[trigger] imports@[j]@) is Some by {
                            assert(resolve_index(self.space(), imports@[j]@) == Some(indices@[j] as nat));
                        }
                    }
                    return Err(InstantiationError::UnresolvedImport(imports[i].clone()));
                },
            }
            i = i + 1;
        }
        Ok(indices)
    }
}

proof fn lemma_first_named(space: Seq<(HostFunctionRef, Seq<char>)>, name: Seq<char>, k: nat)
    ensures
        first_named(space, name, k) matches Some(p) ==> k <= p < space.len() && space[p as int].1 == name,
    decreases space.len() - k,
{
    if k < space.len() && space[k as int].1 != name {
        lemma_first_named(space, name, k + 1);
    }
}

/// The dispatch table of a module's imports has one index for each import,
/// `abort` and `gas` stand at 0 and 1, every index leads back to a function
/// of the imported name, and imports of different names never share an
/// index.
pub proof fn lemma_dispatch_table(space: Seq<(HostFunctionRef, Seq<char>)>, imports: Seq<Seq<char>>, indices: Seq<usize>)
    requires
        indices.len() == imports.len(),
        forall|i: int| 0 <= i < imports.len() ==> resolve_index(space, imports[i]) == Some(#[trigger] indices[i] as nat),
    ensures
        target_of(space, ABORT_FUNC_INDEX as nat) == Some(DispatchTarget::Abort),
        target_of(space, GAS_FUNC_INDEX as nat) == Some(DispatchTarget::Gas),
        forall|i: int| 0 <= i < imports.len() ==> match #[trigger] target_of(space, indices[i] as nat) {
            Some(DispatchTarget::Abort) => imports[i] == "abort"@,
            Some(DispatchTarget::Gas) => imports[i] == "gas"@,
            Some(DispatchTarget::Host(f)) => space[indices[i] - 2] == (f, imports[i]),
            None => false,
        },
        forall|i: int, j: int| 0 <= i < imports.len() && 0 <= j < imports.len() && imports[i] != imports[j]
            ==> #[trigger] indices[i] != #[trigger] indices[j],
{
    assert forall|i: int| 0 <= i < imports.len() implies match #[trigger] target_of(space, indices[i] as nat) {
        Some(DispatchTarget::Abort) => imports[i] == "abort"@,
        Some(DispatchTarget::Gas) => imports[i] == "gas"@,
        Some(DispatchTarget::Host(f)) => space[indices[i] - 2] == (f, imports[i]),
        None => false,
    } by {
        lemma_first_named(space, imports[i], 0);
        assert(resolve_index(space, imports[i]) == Some(indices[i] as nat));
    }
    assert forall|i: int, j: int| 0 <= i < imports.len() && 0 <= j < imports.len() && imports[i] != imports[j]
        implies #[trigger] indices[i] != #[trigger] indices[j] by {
        lemma_first_named(space, imports[i], 0);
        lemma_first_named(space, imports[j], 0);
        assert(resolve_index(space, imports[i]) == Some(indices[i] as nat));
        assert(resolve_index(space, imports[j]) == Some(indices[j] as nat));
    }
}

proof fn lemma_group_entries_step(mods: Seq<Seq<Seq<char>>>, g: ModuleGroup, i: int)
    requires
        0 <= i < mods.len(),
    ensures
        group_entries(mods.take(i + 1), g) == group_entries(mods.take(i), g) + module_entries(mods[i], g, i),
{
    assert(mods.take(i + 1).drop_last() =~= mods.take(i));
}

/// Appends the functions of a group of modules to the flat table.
fn append_group(targets: &mut Vec<HostFunctionRef>, names: &mut Vec<String>, mods: &Vec<HostModuleDecl>, g: ModuleGroup)
    requires
        old(targets)@.len() == old(names)@.len(),
    ensures
        final(targets)@.len() == final(names)@.len(),
        final(targets)@.len() == old(targets)@.len() + group_entries(module_views(mods@), g).len(),
        forall|k: int| 0 <= k < old(targets)@.len() ==> final(targets)@[k] == old(targets)@[k] && final(names)@[k] == old(names)@[k],
        forall|k: int| 0 <= k < group_entries(module_views(mods@), g).len() ==>
            (#[trigger] group_entries(module_views(mods@), g)[k]) == (final(targets)@[old(targets)@.len() + k], final(names)@[old(targets)@.len() + k]@),
{
    let ghost base = targets@.len();
    let ghost t0 = targets@;
    let ghost n0 = names@;
    let ghost views = module_views(mods@);
    let mut i: usize = 0;
    proof {
        assert(views.take(0) =~= Seq::<Seq<Seq<char>>>::empty());
    }
    while i < mods.len()
        invariant
            i <= mods@.len(),
            views == module_views(mods@),
            views.len() == mods@.len(),
            t0.len() == base,
            n0.len() == base,
            targets@.len() == names@.len(),
            targets@.len() == base + group_entries(views.take(i as int), g).len(),
            forall|k: int| 0 <= k < base ==> targets@[k] == t0[k] && names@[k] == n0[k],
            forall|k: int| 0 <= k < group_entries(views.take(i as int), g).len() ==>
                (#[trigger] group_entries(views.take(i as int), g)[k]) == (targets@[base + k], names@[base + k]@),
        decreases mods@.len() - i,
    {
        let functions = &mods[i].functions;
        let ghost before = group_entries(views.take(i as int), g);
        let ghost here = module_entries(views[i as int], g, i as int);
        proof {
            lemma_group_entries_step(views, g, i as int);
        }
        let mut j: usize = 0;
        while j < functions.len()
            invariant
                i < mods@.len(),
                t0.len() == base,
                n0.len() == base,
                views.len() == mods@.len(),
                functions@ == mods@[i as int].functions@,
                here == module_entries(views[i as int], g, i as int),
                views[i as int] == mods@[i as int].functions@.map_values(|f: String| f@),
                targets@.len() == names@.len(),
                j <= functions@.len(),
                targets@.len() == base + before.len() + j,
                forall|k: int| 0 <= k < base ==> targets@[k] == t0[k] && names@[k] == n0[k],
                forall|k: int| 0 <= k < before.len() ==> (#[trigger] before[k]) == (targets@[base + k], names@[base + k]@),
                forall|k: int| 0 <= k < j ==> (#[trigger] here[k]) == (targets@[base + before.len() + k], names@[base + before.len() + k]@),
            decreases functions@.len() - j,
        {
            targets.push(HostFunctionRef { group: g, module: i, function: j });
            names.push(functions[j].clone());
            j = j + 1;
        }
        proof {
            let after = group_entries(views.take(i + 1), g);
            assert(here.len() == functions@.len());
            assert(after == before + here);
            assert(targets@.len() == base + after.len());
            assert forall|k: int| 0 <= k < after.len() implies (#[trigger] after[k]) == (targets@[base + k], names@[base + k]@) by {
                if k >= before.len() {
                    assert(after[k] == here[k - before.len()]);
                }
            }
        }
        i = i + 1;
    }
    proof {
        assert(views.take(mods@.len() as int) =~= views);
    }
}

} // verus!
