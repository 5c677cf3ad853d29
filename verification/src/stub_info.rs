//! The builder that turns a registry snapshot into a module tree, and
//! the finished tree itself.
//!
//! Build proceeds in two passes: a shape pass inserts every class, enum,
//! function, variable and module-doc descriptor into its target module;
//! a behavior pass joins every methods-block descriptor to the already
//! inserted type with the same identity key. A methods block whose key
//! matches nothing is a fatal internal-consistency failure. After both
//! passes, submodule membership is derived from the dotted module names.

use vstd::prelude::*;
use vstd::string::{StringExecFns, StrSliceExecFns};
use crate::idmap::IdMap;
use crate::ir::{union_params, ClassDef, EnumDef, Module};
use crate::ordmap::{clone_string, OrderedMap};
use crate::registry::{get_variant_methods, Registry, is_variant_getitem_method, is_variant_len_method, is_variant_new_method, method_from_info, self_import_name, PyComplexEnumInfo, VariantInfo, MemberInfo, MethodInfo, PyClassInfo, PyEnumInfo, PyFunctionInfo, PyMethodsInfo, PyVariableInfo};
use crate::type_info::ImportSet;
use crate::version::SelfImportStrategy;

verus! {

/// Why a build cannot be completed: a methods-block descriptor whose
/// identity key matches no registered class or enum. This signals a
/// producer-side invariant violation, not a user-correctable input.
#[derive(Clone, Copy, Debug, PartialEq, Eq, Structural)]
pub enum BuildError {
    MissingTypeShape(u64),
}

impl BuildError {
    /// A plain description of the failure.
    pub fn message(&self) -> (r: String)
        ensures
            r@.len() > 0,
    {
        proof {
            reveal_strlit("methods block registered for a type whose shape was never registered");
        }
        String::from_str("methods block registered for a type whose shape was never registered")
    }
}

/// The finished module tree, ready to render.
pub struct StubInfo {
    pub modules: OrderedMap<Module>,
    pub python_root: String,
}

/// Accumulates the module tree while descriptors are consumed.
pub struct StubInfoBuilder {
    pub modules: OrderedMap<Module>,
    pub default_module_name: String,
    pub python_root: String,
    pub strategy: SelfImportStrategy,
}

/// The module a descriptor targets: the one it names, or the default.
pub open spec fn target_name(name: Option<Seq<char>>, default: Seq<char>) -> Seq<char> {
    match name {
        Some(n) => n,
        None => default,
    }
}

/// A module entry as `get_module` creates it: correctly named and
/// otherwise empty.
pub open spec fn module_fresh(v: Module) -> bool {
    &&& v.doc@.len() == 0
    &&& v.imports.spec_len() == 0
    &&& v.class.spec_len() == 0
    &&& v.enum_.spec_len() == 0
    &&& v.function.spec_len() == 0
    &&& v.variables.spec_len() == 0
    &&& v.submodules.spec_len() == 0
    &&& v.wf()
}

impl StubInfoBuilder {
    /// Every module is well-formed, named after its key, and carries the
    /// builder's default module name.
    pub open spec fn wf(self) -> bool {
        &&& self.modules.wf()
        &&& forall|i: int|
            0 <= i < self.modules.spec_len() ==> (#[trigger] self.modules.spec_val(i)).wf()
                && self.modules.spec_val(i).name@ == self.modules.spec_key(i)
                && self.modules.spec_val(i).default_module_name@ == self.default_module_name@
    }

    /// The builder's configuration, unchanged by an operation.
    pub open spec fn same_config(self, other: StubInfoBuilder) -> bool {
        &&& other.default_module_name == self.default_module_name
        &&& other.python_root == self.python_root
        &&& other.strategy == self.strategy
    }

    /// Finds the module a descriptor targets, creating it empty when it
    /// is seen for the first time.
    pub fn get_module(&mut self, name: Option<&String>) -> (r: usize)
        requires
            old(self).wf(),
        ensures
            final(self).wf(),
            old(self).same_config(*final(self)),
            r < final(self).modules.spec_len(),
            final(self).modules.spec_key(r as int) == target_name(
                match name {
                    Some(n) => Some(n@),
                    None => None,
                },
                old(self).default_module_name@,
            ),
            final(self).modules.as_map() == old(self).modules.as_map().insert(
                final(self).modules.spec_key(r as int),
                final(self).modules.spec_val(r as int),
            ),
            old(self).modules.contains_spec(final(self).modules.spec_key(r as int))
                ==> final(self).modules == old(self).modules,
            !old(self).modules.contains_spec(final(self).modules.spec_key(r as int))
                ==> module_fresh(final(self).modules.spec_val(r as int)),
    {
        let key: String = match name {
            Some(n) => clone_string(n),
            None => clone_string(&self.default_module_name),
        };
        let ghost tm = key@;
        match self.modules.find(&key) {
            Some(i) => {
                proof {
                    self.modules.lemma_view(i as int);
                    assert(self.modules.as_map() =~= self.modules.as_map().insert(
                        self.modules.spec_key(i as int),
                        self.modules.spec_val(i as int),
                    ));
                }
                i
            },
            None => {
                let blank = Module {
                    name: clone_string(&key),
                    default_module_name: clone_string(&self.default_module_name),
                    doc: String::new(),
                    imports: OrderedMap::new(),
                    class: IdMap::new(),
                    enum_: IdMap::new(),
                    function: OrderedMap::new(),
                    variables: OrderedMap::new(),
                    submodules: OrderedMap::new(),
                };
                let ghost gblank = blank;
                let ghost before = self.modules;
                self.modules.insert(key, blank);
                proof {
                    self.modules.lemma_contains_iff_key();
                }
                let key2: String = match name {
                    Some(n) => clone_string(n),
                    None => clone_string(&self.default_module_name),
                };
                match self.modules.find(&key2) {
                    Some(i) => {
                        proof {
                            assert(self.modules.as_map().contains_key(tm));
                            assert(self.modules.as_map()[tm] == gblank);
                            self.modules.lemma_view(i as int);
                            assert(self.modules.spec_val(i as int) == gblank);
                            assert forall|j: int|
                                0 <= j < self.modules.spec_len() implies (
                            #[trigger] self.modules.spec_val(j)).wf() && self.modules.spec_val(
                                j,
                            ).name@ == self.modules.spec_key(j) && self.modules.spec_val(
                                j,
                            ).default_module_name@ == self.default_module_name@ by {
                                self.modules.lemma_view(j);
                                if self.modules.spec_key(j) == tm {
                                    self.modules.lemma_key_unique(j, i as int);
                                } else {
                                    assert(before.as_map().contains_key(self.modules.spec_key(j)));
                                    assert(before.contains_spec(self.modules.spec_key(j)));
                                    let w = choose|w: int|
                                        0 <= w < before.spec_len() && before.spec_key(w)
                                            == self.modules.spec_key(j);
                                    before.lemma_view(w);
                                    assert(self.modules.spec_val(j) == before.spec_val(w));
                                }
                            }
                        }
                        i
                    },
                    None => {
                        proof {
                            assert(self.modules.as_map().contains_key(tm));
                            assert(false);
                        }
                        0
                    },
                }
            },
        }
    }
}

/// The class record a shape descriptor creates: named and documented as
/// declared, with no behavior yet.
pub open spec fn class_from_info(cd: ClassDef, info: PyClassInfo) -> bool {
    &&& cd.name == info.pyclass_name
    &&& cd.doc == info.doc
    &&& cd.bases == info.bases
    &&& cd.attrs@.len() == 0
    &&& cd.getter_setters.spec_len() == 0
    &&& cd.getter_setters.wf()
    &&& cd.methods.spec_len() == 0
    &&& cd.methods.wf()
    &&& cd.variants@.len() == 0
    &&& !cd.is_abstract
}

/// The option's view, for naming a descriptor's target module.
pub open spec fn opt_view(o: Option<String>) -> Option<Seq<char>> {
    match o {
        Some(n) => Some(n@),
        None => None,
    }
}

impl StubInfoBuilder {
    /// Inserts a class-shape descriptor into its target module, keyed by
    /// its identity.
    pub fn add_class(&mut self, info: PyClassInfo)
        requires
            old(self).wf(),
        ensures
            final(self).wf(),
            old(self).same_config(*final(self)),
            ({
                let tm = target_name(opt_view(info.module), old(self).default_module_name@);
                let fmap = final(self).modules.as_map();
                &&& fmap.contains_key(tm)
                &&& fmap == old(self).modules.as_map().insert(tm, fmap[tm])
                &&& fmap[tm].class.as_map() == (if old(self).modules.contains_spec(tm) {
                    old(self).modules.as_map()[tm].class.as_map()
                } else {
                    Map::<u64, ClassDef>::empty()
                }).insert(info.struct_id, fmap[tm].class.as_map()[info.struct_id])
                &&& class_from_info(fmap[tm].class.as_map()[info.struct_id], info)
                &&& (old(self).modules.contains_spec(tm) ==> {
                    let ov = old(self).modules.as_map()[tm];
                    fmap[tm].doc == ov.doc && fmap[tm].imports == ov.imports && fmap[tm].enum_
                        == ov.enum_ && fmap[tm].function == ov.function && fmap[tm].variables
                        == ov.variables && fmap[tm].submodules == ov.submodules
                })
                &&& (!old(self).modules.contains_spec(tm) ==> fmap[tm].doc@.len() == 0
                    && fmap[tm].imports.spec_len() == 0 && fmap[tm].enum_.spec_len() == 0
                    && fmap[tm].function.spec_len() == 0 && fmap[tm].variables.spec_len() == 0
                    && fmap[tm].submodules.spec_len() == 0)
            }),
    {
        let PyClassInfo { struct_id, pyclass_name, module, bases, doc } = info;
        let mi = self.get_module(module.as_ref());
        let ghost mid = *self;
        let ghost tm = mid.modules.spec_key(mi as int);
        let ghost mval = mid.modules.spec_val(mi as int);
        let cd = ClassDef {
            name: pyclass_name,
            doc,
            bases,
            attrs: Vec::new(),
            getter_setters: OrderedMap::new(),
            methods: OrderedMap::new(),
            variants: Vec::new(),
            is_abstract: false,
        };
        let ghost gcd = cd;
        let m = self.modules.value_at_mut(mi);
        proof {
            assert(mid.modules.spec_val(mi as int).wf());
        }
        m.class.insert(struct_id, cd);
        proof {
            let fm = self.modules.spec_val(mi as int);
            assert(fm.class.as_map() == mval.class.as_map().insert(struct_id, gcd));
            fm.class.lemma_contains_iff_key();
            mval.class.lemma_contains_iff_key();
            assert(fm.class.as_map()[struct_id] == gcd);
            assert forall|ci: int|
                0 <= ci < fm.class.spec_len() implies (#[trigger] fm.class.spec_val(ci)).wf() by {
                fm.class.lemma_view(ci);
                let ck = fm.class.spec_key(ci);
                if ck == struct_id {
                } else {
                    assert(mval.class.as_map().contains_key(ck));
                    assert(mval.class.contains_spec(ck));
                    let w = choose|w: int|
                        0 <= w < mval.class.spec_len() && mval.class.spec_key(w) == ck;
                    mval.class.lemma_view(w);
                    assert(fm.class.spec_val(ci) == mval.class.spec_val(w));
                    assert(mval.class.spec_val(w).wf());
                }
            }
            OrderedMap::lemma_value_update(mid.modules, self.modules, mi as int);
            assert(self.modules.as_map() =~= mid.modules.as_map().insert(tm, fm));
            mid.modules.lemma_contains_iff_key();
            if mid.modules.contains_spec(tm) {
            }
            assert(self.modules.as_map() =~= old(self).modules.as_map().insert(tm, fm));
            assert forall|j: int|
                0 <= j < self.modules.spec_len() implies (#[trigger] self.modules.spec_val(
                j,
            )).wf() && self.modules.spec_val(j).name@ == self.modules.spec_key(j)
                && self.modules.spec_val(j).default_module_name@
                == self.default_module_name@ by {
                assert(mid.modules.spec_val(j).wf());
                if j == mi {
                    assert(self.modules.spec_val(j) == fm);
                } else {
                    assert(self.modules.spec_val(j) == mid.modules.spec_val(j));
                }
            }
            self.modules.lemma_contains_iff_key();
            let w = choose|w: int|
                0 <= w < self.modules.spec_len() && self.modules.spec_key(w) == tm;
            self.modules.lemma_key_unique(w, mi as int);
            self.modules.lemma_view(mi as int);
            if old(self).modules.contains_spec(tm) {
                assert(old(self).modules == mid.modules);
                assert(old(self).modules.as_map()[tm] == mval);
            } else {
                assert(module_fresh(mval));
                assert(mval.class.as_map() =~= Map::<u64, ClassDef>::empty()) by {
                    mval.class.lemma_contains_iff_key();
                    assert forall|k: u64| !mval.class.as_map().contains_key(k) by {
                        if mval.class.contains_spec(k) {
                            let v = choose|v: int|
                                0 <= v < mval.class.spec_len() && mval.class.spec_key(v) == k;
                        }
                    }
                }
            }
        }
    }

    /// Inserts a plain-enum shape descriptor into its target module.
    pub fn add_enum(&mut self, info: PyEnumInfo)
        requires
            old(self).wf(),
        ensures
            final(self).wf(),
            old(self).same_config(*final(self)),
            ({
                let tm = target_name(opt_view(info.module), old(self).default_module_name@);
                let fmap = final(self).modules.as_map();
                &&& fmap.contains_key(tm)
                &&& fmap == old(self).modules.as_map().insert(tm, fmap[tm])
                &&& fmap[tm].enum_.as_map() == (if old(self).modules.contains_spec(tm) {
                    old(self).modules.as_map()[tm].enum_.as_map()
                } else {
                    Map::<u64, EnumDef>::empty()
                }).insert(info.enum_id, fmap[tm].enum_.as_map()[info.enum_id])
                &&& ({
                    let ed = fmap[tm].enum_.as_map()[info.enum_id];
                    ed.name == info.pyclass_name && ed.doc == info.doc && ed.variants
                        == info.variants && ed.attrs@.len() == 0 && ed.getters@.len() == 0
                        && ed.setters@.len() == 0 && ed.methods@.len() == 0 && !ed.is_abstract
                })
                &&& (old(self).modules.contains_spec(tm) ==> {
                    let ov = old(self).modules.as_map()[tm];
                    fmap[tm].doc == ov.doc && fmap[tm].imports == ov.imports && fmap[tm].class
                        == ov.class && fmap[tm].function == ov.function && fmap[tm].variables
                        == ov.variables && fmap[tm].submodules == ov.submodules
                })
                &&& (!old(self).modules.contains_spec(tm) ==> fmap[tm].doc@.len() == 0
                    && fmap[tm].imports.spec_len() == 0 && fmap[tm].class.spec_len() == 0
                    && fmap[tm].function.spec_len() == 0 && fmap[tm].variables.spec_len() == 0
                    && fmap[tm].submodules.spec_len() == 0)
            }),
    {
        let PyEnumInfo { enum_id, pyclass_name, module, variants, doc } = info;
        let mi = self.get_module(module.as_ref());
        let ghost mid = *self;
        let ghost tm = mid.modules.spec_key(mi as int);
        let ghost mval = mid.modules.spec_val(mi as int);
        let ed = EnumDef {
            name: pyclass_name,
            doc,
            variants,
            attrs: Vec::new(),
            getters: Vec::new(),
            setters: Vec::new(),
            methods: Vec::new(),
            is_abstract: false,
        };
        let ghost ged = ed;
        let m = self.modules.value_at_mut(mi);
        proof {
            assert(mid.modules.spec_val(mi as int).wf());
        }
        m.enum_.insert(enum_id, ed);
        proof {
            let fm = self.modules.spec_val(mi as int);
            assert(fm.enum_.as_map() == mval.enum_.as_map().insert(enum_id, ged));
            fm.enum_.lemma_contains_iff_key();
            assert(fm.enum_.as_map()[enum_id] == ged);
            OrderedMap::lemma_value_update(mid.modules, self.modules, mi as int);
            assert(self.modules.as_map() =~= mid.modules.as_map().insert(tm, fm));
            mid.modules.lemma_contains_iff_key();
            assert(self.modules.as_map() =~= old(self).modules.as_map().insert(tm, fm));
            assert forall|j: int|
                0 <= j < self.modules.spec_len() implies (#[trigger] self.modules.spec_val(
                j,
            )).wf() && self.modules.spec_val(j).name@ == self.modules.spec_key(j)
                && self.modules.spec_val(j).default_module_name@
                == self.default_module_name@ by {
                assert(mid.modules.spec_val(j).wf());
                if j == mi {
                    assert(self.modules.spec_val(j) == fm);
                } else {
                    assert(self.modules.spec_val(j) == mid.modules.spec_val(j));
                }
            }
            self.modules.lemma_contains_iff_key();
            let w = choose|w: int|
                0 <= w < self.modules.spec_len() && self.modules.spec_key(w) == tm;
            self.modules.lemma_key_unique(w, mi as int);
            self.modules.lemma_view(mi as int);
            if old(self).modules.contains_spec(tm) {
                assert(old(self).modules == mid.modules);
                assert(old(self).modules.as_map()[tm] == mval);
            } else {
                assert(module_fresh(mval));
                assert(mval.enum_.as_map() =~= Map::<u64, EnumDef>::empty()) by {
                    mval.enum_.lemma_contains_iff_key();
                }
            }
        }
    }

    /// Records a module's documentation text; the last registration
    /// wins, as the registry holds at most one per module.
    pub fn add_module_doc(&mut self, info: crate::registry::ModuleDocInfo)
        requires
            old(self).wf(),
        ensures
            final(self).wf(),
            old(self).same_config(*final(self)),
            ({
                let tm = info.module@;
                let fmap = final(self).modules.as_map();
                &&& fmap.contains_key(tm)
                &&& fmap == old(self).modules.as_map().insert(tm, fmap[tm])
                &&& fmap[tm].doc == info.doc
                &&& (old(self).modules.contains_spec(tm) ==> {
                    let ov = old(self).modules.as_map()[tm];
                    fmap[tm].imports == ov.imports && fmap[tm].class == ov.class && fmap[tm].enum_
                        == ov.enum_ && fmap[tm].function == ov.function && fmap[tm].variables
                        == ov.variables && fmap[tm].submodules == ov.submodules
                })
                &&& (!old(self).modules.contains_spec(tm) ==> fmap[tm].imports.spec_len() == 0
                    && fmap[tm].class.spec_len() == 0 && fmap[tm].enum_.spec_len() == 0
                    && fmap[tm].function.spec_len() == 0 && fmap[tm].variables.spec_len() == 0
                    && fmap[tm].submodules.spec_len() == 0)
            }),
    {
        let crate::registry::ModuleDocInfo { module, doc } = info;
        let mi = self.get_module(Some(&module));
        let ghost mid = *self;
        let ghost tm = mid.modules.spec_key(mi as int);
        let ghost mval = mid.modules.spec_val(mi as int);
        let m = self.modules.value_at_mut(mi);
        m.doc = doc;
        proof {
            let fm = self.modules.spec_val(mi as int);
            OrderedMap::lemma_value_update(mid.modules, self.modules, mi as int);
            assert(self.modules.as_map() =~= mid.modules.as_map().insert(tm, fm));
            mid.modules.lemma_contains_iff_key();
            assert(self.modules.as_map() =~= old(self).modules.as_map().insert(tm, fm));
            assert forall|j: int|
                0 <= j < self.modules.spec_len() implies (#[trigger] self.modules.spec_val(
                j,
            )).wf() && self.modules.spec_val(j).name@ == self.modules.spec_key(j)
                && self.modules.spec_val(j).default_module_name@
                == self.default_module_name@ by {
                assert(mid.modules.spec_val(j).wf());
                if j == mi {
                    assert(self.modules.spec_val(j) == fm);
                } else {
                    assert(self.modules.spec_val(j) == mid.modules.spec_val(j));
                }
            }
            self.modules.lemma_contains_iff_key();
            let w = choose|w: int|
                0 <= w < self.modules.spec_len() && self.modules.spec_key(w) == tm;
            self.modules.lemma_key_unique(w, mi as int);
            self.modules.lemma_view(mi as int);
            if old(self).modules.contains_spec(tm) {
                assert(old(self).modules == mid.modules);
                assert(old(self).modules.as_map()[tm] == mval);
            }
        }
    }
}

/// Whether any accessor's type, deprecation marker or abstract marker
/// needs the import `k`.
pub open spec fn seq_members_contain(s: Seq<MemberInfo>, k: Seq<char>) -> bool {
    exists|i: int|
        0 <= i < s.len() && ((#[trigger] s[i]).type_info.import.contains_spec(k) || (s[i].deprecated
            is Some && k == "typing_extensions"@) || (s[i].is_abstract && k == "abc"@))
}

/// Adds the imports of every accessor's type, of the deprecation
/// decorator when one is deprecated, and of the abstract-method marker
/// when one is abstract, to `out`.
pub fn union_members(out: &mut ImportSet, ms: &Vec<MemberInfo>)
    requires
        old(out).wf(),
    ensures
        final(out).wf(),
        forall|k: Seq<char>|
            #[trigger] final(out).contains_spec(k) <==> old(out).contains_spec(k)
                || seq_members_contain(ms@, k),
{
    let ghost base = *out;
    let n = ms.len();
    let mut i: usize = 0;
    while i < n
        invariant
            0 <= i <= n,
            n == ms@.len(),
            out.wf(),
            forall|j: int, k: Seq<char>|
                0 <= j < i && #[trigger] ms@[j].type_info.import.contains_spec(k)
                    ==> out.contains_spec(k),
            forall|j: int|
                0 <= j < i && (#[trigger] ms@[j].deprecated) is Some ==> out.contains_spec(
                    "typing_extensions"@,
                ),
            forall|j: int|
                0 <= j < i && (#[trigger] ms@[j]).is_abstract ==> out.contains_spec("abc"@),
            forall|k: Seq<char>|
                #[trigger] out.contains_spec(k) ==> base.contains_spec(k) || seq_members_contain(
                    ms@,
                    k,
                ),
            forall|k: Seq<char>| #[trigger] base.contains_spec(k) ==> out.contains_spec(k),
        decreases n - i,
    {
        let ghost before = *out;
        out.union_into(&ms[i].type_info.import);
        let ghost after_union = *out;
        if ms[i].deprecated.is_some() {
            let ghost pre_dep = *out;
            out.insert(String::from_str("typing_extensions"), ());
            proof {
                out.lemma_contains_iff_key();
                pre_dep.lemma_contains_iff_key();
                assert forall|k: Seq<char>| #[trigger] out.contains_spec(k) <==> (
                pre_dep.contains_spec(k) || k == "typing_extensions"@) by {
                    assert(out.as_map() == pre_dep.as_map().insert("typing_extensions"@, ()));
                }
            }
        }
        let ghost after_dep = *out;
        if ms[i].is_abstract {
            let ghost pre_abc = *out;
            out.insert(String::from_str("abc"), ());
            proof {
                out.lemma_contains_iff_key();
                pre_abc.lemma_contains_iff_key();
                assert forall|k: Seq<char>| #[trigger] out.contains_spec(k) <==> (
                pre_abc.contains_spec(k) || k == "abc"@) by {
                    assert(out.as_map() == pre_abc.as_map().insert("abc"@, ()));
                }
            }
        }
        proof {
            assert forall|j: int, k: Seq<char>|
                0 <= j < i + 1 && #[trigger] ms@[j].type_info.import.contains_spec(k)
                    implies out.contains_spec(k) by {
                if j < i {
                    assert(before.contains_spec(k));
                    assert(after_union.contains_spec(k));
                } else {
                    assert(after_union.contains_spec(k));
                }
            }
            assert forall|j: int|
                0 <= j < i + 1 && (#[trigger] ms@[j].deprecated) is Some
                    implies out.contains_spec("typing_extensions"@) by {
                if j < i {
                    assert(before.contains_spec("typing_extensions"@));
                    assert(after_union.contains_spec("typing_extensions"@));
                    assert(after_dep.contains_spec("typing_extensions"@));
                } else {
                    assert(after_dep.contains_spec("typing_extensions"@));
                }
            }
            assert forall|j: int|
                0 <= j < i + 1 && (#[trigger] ms@[j]).is_abstract implies out.contains_spec(
                "abc"@,
            ) by {
                if j < i {
                    assert(before.contains_spec("abc"@));
                    assert(after_union.contains_spec("abc"@));
                    assert(after_dep.contains_spec("abc"@));
                }
            }
            assert forall|k: Seq<char>| #[trigger] out.contains_spec(k) implies (
            base.contains_spec(k) || seq_members_contain(ms@, k)) by {
                if !base.contains_spec(k) {
                    if after_union.contains_spec(k) {
                        if !before.contains_spec(k) {
                            assert(ms@[i as int].type_info.import.contains_spec(k));
                            assert(seq_members_contain(ms@, k));
                        }
                    } else if after_dep.contains_spec(k) {
                        assert(ms@[i as int].deprecated is Some && k == "typing_extensions"@);
                        assert(seq_members_contain(ms@, k));
                    } else {
                        assert(ms@[i as int].is_abstract && k == "abc"@);
                        assert(seq_members_contain(ms@, k));
                    }
                }
            }
        }
        i = i + 1;
    }
    proof {
        assert forall|k: Seq<char>|
            out.contains_spec(k) <==> (base.contains_spec(k) || seq_members_contain(ms@, k)) by {
            if seq_members_contain(ms@, k) {
                let j = choose|j: int|
                    0 <= j < ms@.len() && ((#[trigger] ms@[j]).type_info.import.contains_spec(k)
                        || (ms@[j].deprecated is Some && k == "typing_extensions"@) || (
                    ms@[j].is_abstract && k == "abc"@));
                if ms@[j].type_info.import.contains_spec(k) {
                    assert(out.contains_spec(k));
                } else if ms@[j].deprecated is Some && k == "typing_extensions"@ {
                    assert(out.contains_spec(k));
                } else {
                    assert(ms@[j].is_abstract && k == "abc"@);
                    assert(out.contains_spec(k));
                }
            }
        }
    }
}

/// Whether any attribute's type (or its deprecation marker) needs the
/// import `k`. An attribute is merged with abstractness forced off and
/// renders no abstract marker, so unlike an accessor it never calls for
/// the abstract-method support import.
pub open spec fn seq_attrs_contain(s: Seq<MemberInfo>, k: Seq<char>) -> bool {
    exists|i: int|
        0 <= i < s.len() && ((#[trigger] s[i]).type_info.import.contains_spec(k) || (s[i].deprecated
            is Some && k == "typing_extensions"@))
}

/// Adds the imports of every attribute's type, and the deprecation
/// decorator's when one is deprecated, to `out`.
pub fn union_attrs(out: &mut ImportSet, ms: &Vec<MemberInfo>)
    requires
        old(out).wf(),
    ensures
        final(out).wf(),
        forall|k: Seq<char>|
            #[trigger] final(out).contains_spec(k) <==> old(out).contains_spec(k)
                || seq_attrs_contain(ms@, k),
{
    let ghost base = *out;
    let n = ms.len();
    let mut i: usize = 0;
    while i < n
        invariant
            0 <= i <= n,
            n == ms@.len(),
            out.wf(),
            forall|j: int, k: Seq<char>|
                0 <= j < i && #[trigger] ms@[j].type_info.import.contains_spec(k)
                    ==> out.contains_spec(k),
            forall|j: int|
                0 <= j < i && (#[trigger] ms@[j].deprecated) is Some ==> out.contains_spec(
                    "typing_extensions"@,
                ),
            forall|k: Seq<char>|
                #[trigger] out.contains_spec(k) ==> base.contains_spec(k) || seq_attrs_contain(
                    ms@,
                    k,
                ),
            forall|k: Seq<char>| #[trigger] base.contains_spec(k) ==> out.contains_spec(k),
        decreases n - i,
    {
        let ghost before = *out;
        out.union_into(&ms[i].type_info.import);
        let ghost after_union = *out;
        if ms[i].deprecated.is_some() {
            let ghost pre_dep = *out;
            out.insert(String::from_str("typing_extensions"), ());
            proof {
                out.lemma_contains_iff_key();
                pre_dep.lemma_contains_iff_key();
                assert forall|k: Seq<char>| #[trigger] out.contains_spec(k) <==> (
                pre_dep.contains_spec(k) || k == "typing_extensions"@) by {
                    assert(out.as_map() == pre_dep.as_map().insert("typing_extensions"@, ()));
                }
            }
        }
        proof {
            assert forall|j: int, k: Seq<char>|
                0 <= j < i + 1 && #[trigger] ms@[j].type_info.import.contains_spec(k)
                    implies out.contains_spec(k) by {
                if j < i {
                    assert(before.contains_spec(k));
                    assert(after_union.contains_spec(k));
                } else {
                    assert(after_union.contains_spec(k));
                }
            }
            assert forall|j: int|
                0 <= j < i + 1 && (#[trigger] ms@[j].deprecated) is Some
                    implies out.contains_spec("typing_extensions"@) by {
                if j < i {
                    assert(before.contains_spec("typing_extensions"@));
                    assert(after_union.contains_spec("typing_extensions"@));
                }
            }
            assert forall|k: Seq<char>| #[trigger] out.contains_spec(k) implies (
            base.contains_spec(k) || seq_attrs_contain(ms@, k)) by {
                if !base.contains_spec(k) {
                    if after_union.contains_spec(k) {
                        if !before.contains_spec(k) {
                            assert(ms@[i as int].type_info.import.contains_spec(k));
                            assert(seq_attrs_contain(ms@, k));
                        }
                    } else {
                        assert(ms@[i as int].deprecated is Some && k == "typing_extensions"@);
                        assert(seq_attrs_contain(ms@, k));
                    }
                }
            }
        }
        i = i + 1;
    }
    proof {
        assert forall|k: Seq<char>|
            out.contains_spec(k) <==> (base.contains_spec(k) || seq_attrs_contain(ms@, k)) by {
            if seq_attrs_contain(ms@, k) {
                let j = choose|j: int|
                    0 <= j < ms@.len() && ((#[trigger] ms@[j]).type_info.import.contains_spec(k)
                        || (ms@[j].deprecated is Some && k == "typing_extensions"@));
                if ms@[j].type_info.import.contains_spec(k) {
                    assert(out.contains_spec(k));
                } else {
                    assert(ms@[j].deprecated is Some && k == "typing_extensions"@);
                    assert(out.contains_spec(k));
                }
            }
        }
    }
}

/// Whether a function descriptor's rendering needs the import `k`.
pub open spec fn function_imports_contain(info: PyFunctionInfo, k: Seq<char>) -> bool {
    ||| info.ret.import.contains_spec(k)
    ||| crate::ir::seq_params_contain(info.parameters@, k)
    ||| (info.deprecated is Some && k == "typing_extensions"@)
}

/// The function record a descriptor creates.
pub open spec fn function_from_info(fd: crate::ir::FunctionDef, info: PyFunctionInfo) -> bool {
    &&& fd.name == info.name
    &&& fd.parameters.positional_only@ == crate::ir::params_of_kind(
        info.parameters@,
        crate::ir::ParameterKind::PositionalOnly,
    )
    &&& fd.parameters.positional_or_keyword@ == crate::ir::params_of_kind(
        info.parameters@,
        crate::ir::ParameterKind::PositionalOrKeyword,
    )
    &&& fd.parameters.keyword_only@ == crate::ir::params_of_kind(
        info.parameters@,
        crate::ir::ParameterKind::KeywordOnly,
    )
    &&& fd.parameters.var_positional == (if crate::ir::params_of_kind(
        info.parameters@,
        crate::ir::ParameterKind::VarPositional,
    ).len() == 0 {
        Option::<crate::ir::Parameter>::None
    } else {
        Some(
            crate::ir::params_of_kind(
                info.parameters@,
                crate::ir::ParameterKind::VarPositional,
            ).last(),
        )
    })
    &&& fd.parameters.var_keyword == (if crate::ir::params_of_kind(
        info.parameters@,
        crate::ir::ParameterKind::VarKeyword,
    ).len() == 0 {
        Option::<crate::ir::Parameter>::None
    } else {
        Some(
            crate::ir::params_of_kind(
                info.parameters@,
                crate::ir::ParameterKind::VarKeyword,
            ).last(),
        )
    })
    &&& fd.ret == info.ret
    &&& fd.doc == info.doc
    &&& fd.is_async == info.is_async
    &&& fd.deprecated == info.deprecated
    &&& fd.type_ignored == info.type_ignored
}

impl StubInfoBuilder {
    /// Appends a function descriptor to its name's overload group in its
    /// target module; overload alternatives keep registration order and
    /// are never merged.
    #[verifier::rlimit(100)]
    pub fn add_function(&mut self, info: PyFunctionInfo)
        requires
            old(self).wf(),
        ensures
            final(self).wf(),
            old(self).same_config(*final(self)),
            ({
                let tm = target_name(opt_view(info.module), old(self).default_module_name@);
                let nm = info.name@;
                let fmap = final(self).modules.as_map();
                let old_list: Seq<crate::ir::FunctionDef> = if old(self).modules.contains_spec(tm)
                    && old(self).modules.as_map()[tm].function.contains_spec(nm) {
                    old(self).modules.as_map()[tm].function.as_map()[nm]@
                } else {
                    Seq::empty()
                };
                &&& fmap.contains_key(tm)
                &&& fmap == old(self).modules.as_map().insert(tm, fmap[tm])
                &&& fmap[tm].function.as_map().contains_key(nm)
                &&& fmap[tm].function.as_map() == (if old(self).modules.contains_spec(tm) {
                    old(self).modules.as_map()[tm].function.as_map()
                } else {
                    Map::<Seq<char>, Vec<crate::ir::FunctionDef>>::empty()
                }).insert(nm, fmap[tm].function.as_map()[nm])
                &&& fmap[tm].function.as_map()[nm]@.len() == old_list.len() + 1
                &&& fmap[tm].function.as_map()[nm]@.take(old_list.len() as int) == old_list
                &&& function_from_info(fmap[tm].function.as_map()[nm]@.last(), info)
                &&& (forall|k: Seq<char>|
                    #[trigger] fmap[tm].imports.contains_spec(k) <==> (old(
                        self,
                    ).modules.contains_spec(tm) && old(self).modules.as_map()[tm].imports.contains_spec(
                        k,
                    )) || function_imports_contain(info, k))
                &&& (old(self).modules.contains_spec(tm) ==> {
                    let ov = old(self).modules.as_map()[tm];
                    fmap[tm].doc == ov.doc && fmap[tm].class == ov.class && fmap[tm].enum_
                        == ov.enum_ && fmap[tm].variables == ov.variables && fmap[tm].submodules
                        == ov.submodules
                })
                &&& (!old(self).modules.contains_spec(tm) ==> fmap[tm].doc@.len() == 0
                    && fmap[tm].class.spec_len() == 0 && fmap[tm].enum_.spec_len() == 0
                    && fmap[tm].variables.spec_len() == 0 && fmap[tm].submodules.spec_len() == 0)
            }),
    {
        let PyFunctionInfo { name, module, parameters, ret, doc, is_async, deprecated, type_ignored }
            = info;
        let mi = self.get_module(module.as_ref());
        let ghost mid = *self;
        let ghost tm = mid.modules.spec_key(mi as int);
        let ghost mval = mid.modules.spec_val(mi as int);
        let m = self.modules.value_at_mut(mi);
        proof {
            assert(mid.modules.spec_val(mi as int).wf());
        }
        union_params(&mut m.imports, &parameters);
        let ghost imp1 = m.imports;
        m.imports.union_into(&ret.import);
        let ghost imp2 = m.imports;
        if deprecated.is_some() {
            let ghost mid0 = m.imports;
            m.imports.insert(String::from_str("typing_extensions"), ());
            proof {
                m.imports.lemma_contains_iff_key();
                mid0.lemma_contains_iff_key();
                assert forall|k: Seq<char>| #[trigger] m.imports.contains_spec(k) <==> (
                mid0.contains_spec(k) || k == "typing_extensions"@) by {
                    assert(m.imports.as_map() == mid0.as_map().insert("typing_extensions"@, ()));
                }
            }
        }
        let fd = crate::ir::FunctionDef {
            name: clone_string(&name),
            parameters: crate::ir::Parameters::from_infos(parameters),
            ret,
            doc,
            is_async,
            deprecated,
            type_ignored,
        };
        let ghost gfd = fd;
        let ghost fbefore = m.function;
        match m.function.find(&name) {
            Some(fi) => {
                proof {
                    m.function.lemma_view(fi as int);
                }
                let ghost oldlist = m.function.spec_val(fi as int);
                let lst = m.function.value_at_mut(fi);
                lst.push(fd);
                proof {
                    OrderedMap::lemma_value_update(fbefore, m.function, fi as int);
                    m.function.lemma_contains_iff_key();
                    assert(m.function.spec_val(fi as int)@ =~= oldlist@.push(gfd));
                    assert(m.function.spec_val(fi as int)@.take(oldlist@.len() as int)
                        =~= oldlist@);
                }
            },
            None => {
                let mut v: Vec<crate::ir::FunctionDef> = Vec::new();
                v.push(fd);
                let ghost gv = v;
                m.function.insert(name, v);
                proof {
                    m.function.lemma_contains_iff_key();
                    assert(gv@ =~= Seq::<crate::ir::FunctionDef>::empty().push(gfd));
                    assert(gv@.take(0) =~= Seq::<crate::ir::FunctionDef>::empty());
                }
            },
        }
        proof {
            let fm = self.modules.spec_val(mi as int);
            OrderedMap::lemma_value_update(mid.modules, self.modules, mi as int);
            assert(self.modules.as_map() =~= mid.modules.as_map().insert(tm, fm));
            mid.modules.lemma_contains_iff_key();
            assert(self.modules.as_map() =~= old(self).modules.as_map().insert(tm, fm));
            assert forall|j: int|
                0 <= j < self.modules.spec_len() implies (#[trigger] self.modules.spec_val(
                j,
            )).wf() && self.modules.spec_val(j).name@ == self.modules.spec_key(j)
                && self.modules.spec_val(j).default_module_name@
                == self.default_module_name@ by {
                assert(mid.modules.spec_val(j).wf());
                if j == mi {
                    assert(self.modules.spec_val(j) == fm);
                } else {
                    assert(self.modules.spec_val(j) == mid.modules.spec_val(j));
                }
            }
            self.modules.lemma_contains_iff_key();
            let w = choose|w: int|
                0 <= w < self.modules.spec_len() && self.modules.spec_key(w) == tm;
            self.modules.lemma_key_unique(w, mi as int);
            self.modules.lemma_view(mi as int);
            if old(self).modules.contains_spec(tm) {
                assert(old(self).modules == mid.modules);
                assert(old(self).modules.as_map()[tm] == mval);
            } else {
                assert(module_fresh(mval));
                mval.function.lemma_contains_iff_key();
                assert(mval.function.as_map() =~= Map::<Seq<char>, Vec<crate::ir::FunctionDef>>::empty());
            }
            fm.function.lemma_contains_iff_key();
        }
    }

    /// Inserts a variable descriptor into its target module.
    pub fn add_variable(&mut self, info: PyVariableInfo)
        requires
            old(self).wf(),
        ensures
            final(self).wf(),
            old(self).same_config(*final(self)),
            ({
                let tm = info.module@;
                let nm = info.name@;
                let fmap = final(self).modules.as_map();
                &&& fmap.contains_key(tm)
                &&& fmap == old(self).modules.as_map().insert(tm, fmap[tm])
                &&& fmap[tm].variables.as_map().contains_key(nm)
                &&& fmap[tm].variables.as_map() == (if old(self).modules.contains_spec(tm) {
                    old(self).modules.as_map()[tm].variables.as_map()
                } else {
                    Map::<Seq<char>, crate::ir::VariableDef>::empty()
                }).insert(nm, fmap[tm].variables.as_map()[nm])
                &&& fmap[tm].variables.as_map()[nm].name == info.name
                &&& fmap[tm].variables.as_map()[nm].type_info == info.type_info
                &&& (forall|k: Seq<char>|
                    #[trigger] fmap[tm].imports.contains_spec(k) <==> (old(
                        self,
                    ).modules.contains_spec(tm) && old(self).modules.as_map()[tm].imports.contains_spec(
                        k,
                    )) || info.type_info.import.contains_spec(k))
                &&& (old(self).modules.contains_spec(tm) ==> {
                    let ov = old(self).modules.as_map()[tm];
                    fmap[tm].doc == ov.doc && fmap[tm].class == ov.class && fmap[tm].enum_
                        == ov.enum_ && fmap[tm].function == ov.function && fmap[tm].submodules
                        == ov.submodules
                })
                &&& (!old(self).modules.contains_spec(tm) ==> fmap[tm].doc@.len() == 0
                    && fmap[tm].class.spec_len() == 0 && fmap[tm].enum_.spec_len() == 0
                    && fmap[tm].function.spec_len() == 0 && fmap[tm].submodules.spec_len() == 0)
            }),
    {
        let PyVariableInfo { name, module, type_info } = info;
        let mi = self.get_module(Some(&module));
        let ghost mid = *self;
        let ghost tm = mid.modules.spec_key(mi as int);
        let ghost mval = mid.modules.spec_val(mi as int);
        let m = self.modules.value_at_mut(mi);
        proof {
            assert(mid.modules.spec_val(mi as int).wf());
        }
        m.imports.union_into(&type_info.import);
        let vd = crate::ir::VariableDef { name: clone_string(&name), type_info };
        let ghost gvd = vd;
        m.variables.insert(name, vd);
        proof {
            let fm = self.modules.spec_val(mi as int);
            fm.variables.lemma_contains_iff_key();
            OrderedMap::lemma_value_update(mid.modules, self.modules, mi as int);
            assert(self.modules.as_map() =~= mid.modules.as_map().insert(tm, fm));
            mid.modules.lemma_contains_iff_key();
            assert(self.modules.as_map() =~= old(self).modules.as_map().insert(tm, fm));
            assert forall|j: int|
                0 <= j < self.modules.spec_len() implies (#[trigger] self.modules.spec_val(
                j,
            )).wf() && self.modules.spec_val(j).name@ == self.modules.spec_key(j)
                && self.modules.spec_val(j).default_module_name@
                == self.default_module_name@ by {
                assert(mid.modules.spec_val(j).wf());
                if j == mi {
                    assert(self.modules.spec_val(j) == fm);
                } else {
                    assert(self.modules.spec_val(j) == mid.modules.spec_val(j));
                }
            }
            self.modules.lemma_contains_iff_key();
            let w = choose|w: int|
                0 <= w < self.modules.spec_len() && self.modules.spec_key(w) == tm;
            self.modules.lemma_key_unique(w, mi as int);
            self.modules.lemma_view(mi as int);
            if old(self).modules.contains_spec(tm) {
                assert(old(self).modules == mid.modules);
                assert(old(self).modules.as_map()[tm] == mval);
            } else {
                assert(module_fresh(mval));
                mval.variables.lemma_contains_iff_key();
                assert(mval.variables.as_map() =~= Map::<Seq<char>, crate::ir::VariableDef>::empty());
            }
        }
    }
}

/// The attribute record a methods block contributes: never abstract on
/// its own.
pub open spec fn attr_member(a: MemberInfo) -> crate::ir::MemberDef {
    crate::ir::MemberDef {
        name: a.name,
        type_info: a.type_info,
        doc: a.doc,
        default: a.default,
        deprecated: a.deprecated,
        is_abstract: false,
    }
}

/// The accessor record a methods block contributes, abstractness kept.
pub open spec fn accessor_member(a: MemberInfo) -> crate::ir::MemberDef {
    crate::ir::MemberDef {
        name: a.name,
        type_info: a.type_info,
        doc: a.doc,
        default: a.default,
        deprecated: a.deprecated,
        is_abstract: a.is_abstract,
    }
}

/// Folds observed getters into the pairing map: each getter fills its
/// attribute name's read side, keeping whatever write side was there;
/// of several getters under one name the last observed wins.
pub open spec fn apply_getters(
    gs: Map<Seq<char>, crate::ir::GetterSetter>,
    s: Seq<MemberInfo>,
) -> Map<Seq<char>, crate::ir::GetterSetter>
    decreases s.len(),
{
    if s.len() == 0 {
        gs
    } else {
        let m = apply_getters(gs, s.drop_last());
        let g = s.last();
        let prev_setter = if m.contains_key(g.name@) {
            m[g.name@].setter
        } else {
            Option::<crate::ir::MemberDef>::None
        };
        m.insert(
            g.name@,
            crate::ir::GetterSetter { getter: Some(accessor_member(g)), setter: prev_setter },
        )
    }
}

/// Folds observed setters into the pairing map, symmetrically.
pub open spec fn apply_setters(
    gs: Map<Seq<char>, crate::ir::GetterSetter>,
    s: Seq<MemberInfo>,
) -> Map<Seq<char>, crate::ir::GetterSetter>
    decreases s.len(),
{
    if s.len() == 0 {
        gs
    } else {
        let m = apply_setters(gs, s.drop_last());
        let g = s.last();
        let prev_getter = if m.contains_key(g.name@) {
            m[g.name@].getter
        } else {
            Option::<crate::ir::MemberDef>::None
        };
        m.insert(
            g.name@,
            crate::ir::GetterSetter { getter: prev_getter, setter: Some(accessor_member(g)) },
        )
    }
}

/// The methods of `s` that bear the name `nm`, in registration order.
pub open spec fn methods_named(s: Seq<MethodInfo>, nm: Seq<char>) -> Seq<MethodInfo>
    decreases s.len(),
{
    if s.len() == 0 {
        Seq::empty()
    } else if s.last().name@ == nm {
        methods_named(s.drop_last(), nm).push(s.last())
    } else {
        methods_named(s.drop_last(), nm)
    }
}

/// Whether any member of `s` is abstract.
pub open spec fn any_abstract_member(s: Seq<MemberInfo>) -> bool
    decreases s.len(),
{
    if s.len() == 0 {
        false
    } else {
        any_abstract_member(s.drop_last()) || s.last().is_abstract
    }
}

/// Whether any method of `s` is abstract.
pub open spec fn any_abstract_method(s: Seq<MethodInfo>) -> bool
    decreases s.len(),
{
    if s.len() == 0 {
        false
    } else {
        any_abstract_method(s.drop_last()) || s.last().is_abstract
    }
}

/// Whether a grouped parameter list needs the import `k`; of a variadic
/// kind only the surviving last declaration counts.
pub open spec fn grouped_params_contain(s: Seq<crate::ir::Parameter>, k: Seq<char>) -> bool {
    ||| crate::ir::seq_params_contain(
        crate::ir::params_of_kind(s, crate::ir::ParameterKind::PositionalOnly),
        k,
    )
    ||| crate::ir::seq_params_contain(
        crate::ir::params_of_kind(s, crate::ir::ParameterKind::PositionalOrKeyword),
        k,
    )
    ||| ({
        let vp = crate::ir::params_of_kind(s, crate::ir::ParameterKind::VarPositional);
        vp.len() > 0 && vp.last().type_info.import.contains_spec(k)
    })
    ||| crate::ir::seq_params_contain(
        crate::ir::params_of_kind(s, crate::ir::ParameterKind::KeywordOnly),
        k,
    )
    ||| ({
        let vk = crate::ir::params_of_kind(s, crate::ir::ParameterKind::VarKeyword);
        vk.len() > 0 && vk.last().type_info.import.contains_spec(k)
    })
}

/// Whether one method descriptor's rendering needs the import `k`.
pub open spec fn method_imports_contain(
    mi: MethodInfo,
    strategy: SelfImportStrategy,
    k: Seq<char>,
) -> bool {
    ||| (if mi.kind == crate::ir::MethodType::New {
        k == self_import_name(strategy)
    } else {
        mi.ret.import.contains_spec(k)
    })
    ||| grouped_params_contain(mi.parameters@, k)
    ||| (mi.deprecated is Some && k == "typing_extensions"@)
    ||| (mi.is_abstract && k == "abc"@)
}

/// Whether a whole methods block needs the import `k`.
pub open spec fn block_imports_contain(
    info: PyMethodsInfo,
    strategy: SelfImportStrategy,
    k: Seq<char>,
) -> bool {
    ||| seq_attrs_contain(info.attrs@, k)
    ||| seq_members_contain(info.getters@, k)
    ||| seq_members_contain(info.setters@, k)
    ||| (exists|j: int|
        0 <= j < info.methods@.len() && method_imports_contain(
            #[trigger] info.methods@[j],
            strategy,
            k,
        ))
}

/// Whether a built method record's rendering needs the import `k`.
pub open spec fn def_imports(md: crate::ir::MethodDef, k: Seq<char>) -> bool {
    ||| md.ret.import.contains_spec(k)
    ||| md.parameters.spec_imports_contain(k)
    ||| (md.deprecated is Some && k == "typing_extensions"@)
    ||| (md.is_abstract && k == "abc"@)
}

/// A built record needs exactly the imports its descriptor implies.
proof fn lemma_def_imports_iff(
    md: crate::ir::MethodDef,
    mi: MethodInfo,
    strategy: SelfImportStrategy,
)
    requires
        method_from_info(md, mi, strategy),
    ensures
        forall|k: Seq<char>| #[trigger] def_imports(md, k) <==> method_imports_contain(
            mi,
            strategy,
            k,
        ),
{
    assert forall|k: Seq<char>|
        def_imports(md, k) <==> method_imports_contain(mi, strategy, k) by {
        assert(md.parameters.spec_imports_contain(k) == grouped_params_contain(mi.parameters@, k));
        if mi.kind == crate::ir::MethodType::New {
            assert(md.ret.import.contains_spec(k) <==> k == self_import_name(strategy));
        } else {
            assert(md.ret == mi.ret);
        }
    }
}

/// Builds the method records a methods block declares, in order, and
/// reports whether any is abstract.
fn build_method_defs(methods: Vec<MethodInfo>, strategy: SelfImportStrategy) -> (r: (
    Vec<crate::ir::MethodDef>,
    bool,
))
    ensures
        r.0@.len() == methods@.len(),
        forall|j: int|
            0 <= j < methods@.len() ==> method_from_info(#[trigger] r.0@[j], methods@[j], strategy),
        r.1 == any_abstract_method(methods@),
{
    let ghost orig = methods@;
    let mut methods = methods;
    let mut r: Vec<crate::ir::MethodDef> = Vec::new();
    let mut flag = false;
    let ghost mut gi: int = 0;
    proof {
        assert(orig.take(0) =~= Seq::<MethodInfo>::empty());
    }
    while methods.len() > 0
        invariant
            0 <= gi <= orig.len(),
            methods@ =~= orig.skip(gi),
            r@.len() == gi,
            forall|j: int| 0 <= j < gi ==> method_from_info(#[trigger] r@[j], orig[j], strategy),
            flag == any_abstract_method(orig.take(gi)),
        decreases methods@.len(),
    {
        let m = methods.remove(0);
        proof {
            assert(m == orig[gi]);
            assert(methods@ =~= orig.skip(gi + 1));
            assert(orig.take(gi + 1).drop_last() =~= orig.take(gi));
            assert(orig.take(gi + 1).last() == orig[gi]);
        }
        if m.is_abstract {
            flag = true;
        }
        let d = crate::ir::MethodDef::from(m, strategy);
        r.push(d);
        proof {
            gi = gi + 1;
        }
    }
    proof {
        assert(orig.take(orig.len() as int) =~= orig);
    }
    (r, flag)
}

/// Adds the imports every built method record needs to `out`.
fn union_defs_imports(out: &mut ImportSet, defs: &Vec<crate::ir::MethodDef>)
    requires
        old(out).wf(),
    ensures
        final(out).wf(),
        forall|k: Seq<char>|
            #[trigger] final(out).contains_spec(k) <==> old(out).contains_spec(k) || (exists|j: int|
                0 <= j < defs@.len() && def_imports(#[trigger] defs@[j], k)),
{
    let ghost base = *out;
    let n = defs.len();
    let mut i: usize = 0;
    while i < n
        invariant
            0 <= i <= n,
            n == defs@.len(),
            out.wf(),
            forall|j: int, k: Seq<char>|
                0 <= j < i && #[trigger] def_imports(defs@[j], k) ==> out.contains_spec(k),
            forall|k: Seq<char>|
                #[trigger] out.contains_spec(k) ==> base.contains_spec(k) || (exists|j: int|
                    0 <= j < defs@.len() && def_imports(#[trigger] defs@[j], k)),
            forall|k: Seq<char>| #[trigger] base.contains_spec(k) ==> out.contains_spec(k),
        decreases n - i,
    {
        let ghost before = *out;
        let imp = defs[i].import();
        out.union_into(&imp);
        proof {
            assert forall|j: int, k: Seq<char>|
                0 <= j < i + 1 && #[trigger] def_imports(defs@[j], k) implies out.contains_spec(
                k,
            ) by {
                if j < i {
                    assert(before.contains_spec(k));
                } else {
                    assert(imp.contains_spec(k));
                }
            }
            assert forall|k: Seq<char>| #[trigger] out.contains_spec(k) implies
                base.contains_spec(k) || (exists|j: int|
                0 <= j < defs@.len() && def_imports(#[trigger] defs@[j], k)) by {
                if !before.contains_spec(k) {
                    assert(imp.contains_spec(k));
                    assert(def_imports(defs@[i as int], k));
                }
            }
        }
        i = i + 1;
    }
}

/// Whether any member of the list is abstract.
fn any_abstract_members_in(ms: &Vec<MemberInfo>) -> (flag: bool)
    ensures
        flag == any_abstract_member(ms@),
{
    let n = ms.len();
    let mut flag = false;
    let mut i: usize = 0;
    proof {
        assert(ms@.take(0) =~= Seq::<MemberInfo>::empty());
    }
    while i < n
        invariant
            0 <= i <= n,
            n == ms@.len(),
            flag == any_abstract_member(ms@.take(i as int)),
        decreases n - i,
    {
        proof {
            assert(ms@.take(i + 1).drop_last() =~= ms@.take(i as int));
            assert(ms@.take(i + 1).last() == ms@[i as int]);
        }
        if ms[i].is_abstract {
            flag = true;
        }
        i = i + 1;
    }
    proof {
        assert(ms@.take(n as int) =~= ms@);
    }
    flag
}

/// An empty class record, used to take a stored one out for mutation.
fn blank_class() -> (r: ClassDef)
    ensures
        r.attrs@.len() == 0,
{
    ClassDef {
        name: String::new(),
        doc: String::new(),
        bases: Vec::new(),
        attrs: Vec::new(),
        getter_setters: OrderedMap::new(),
        methods: OrderedMap::new(),
        variants: Vec::new(),
        is_abstract: false,
    }
}

/// An empty enum record, used to take a stored one out for mutation.
fn blank_enum() -> (r: EnumDef)
    ensures
        r.attrs@.len() == 0,
{
    EnumDef {
        name: String::new(),
        doc: String::new(),
        variants: Vec::new(),
        attrs: Vec::new(),
        getters: Vec::new(),
        setters: Vec::new(),
        methods: Vec::new(),
        is_abstract: false,
    }
}

/// The overload list a name had before the merge: the matched type's
/// list, or nothing.
pub open spec fn olds_of(
    m0: OrderedMap<Vec<crate::ir::MethodDef>>,
    nm: Seq<char>,
) -> Seq<crate::ir::MethodDef> {
    if m0.contains_spec(nm) {
        m0.as_map()[nm]@
    } else {
        Seq::empty()
    }
}

/// The per-name overload lists after a methods block is appended: each
/// name's list is the old list followed by the block's methods of that
/// name, in registration order, never merged.
pub open spec fn methods_map_merged(
    m0: OrderedMap<Vec<crate::ir::MethodDef>>,
    m1: OrderedMap<Vec<crate::ir::MethodDef>>,
    minfos: Seq<MethodInfo>,
    strategy: SelfImportStrategy,
) -> bool {
    &&& m1.wf()
    &&& (forall|nm: Seq<char>|
        #[trigger] m1.contains_spec(nm) <==> m0.contains_spec(nm) || methods_named(
            minfos,
            nm,
        ).len() > 0)
    &&& (forall|nm: Seq<char>|
        #[trigger] m1.contains_spec(nm) ==> m1.as_map()[nm]@.len() == olds_of(m0, nm).len()
            + methods_named(minfos, nm).len())
    &&& (forall|nm: Seq<char>|
        #[trigger] m1.contains_spec(nm) ==> m1.as_map()[nm]@.take(olds_of(m0, nm).len() as int)
            == olds_of(m0, nm))
    &&& (forall|nm: Seq<char>, j: int|
        m1.contains_spec(nm) && 0 <= j < methods_named(minfos, nm).len() ==> method_from_info(
            m1.as_map()[nm]@[olds_of(m0, nm).len() + j],
            #[trigger] methods_named(minfos, nm)[j],
            strategy,
        ))
}

/// Appends built method records into the per-name overload map.
#[verifier::rlimit(100)]
fn push_defs_into_map(
    mm: &mut OrderedMap<Vec<crate::ir::MethodDef>>,
    defs: Vec<crate::ir::MethodDef>,
    Ghost(minfos): Ghost<Seq<MethodInfo>>,
    Ghost(strategy): Ghost<SelfImportStrategy>,
)
    requires
        old(mm).wf(),
        defs@.len() == minfos.len(),
        forall|j: int|
            0 <= j < minfos.len() ==> method_from_info(#[trigger] defs@[j], minfos[j], strategy),
    ensures
        methods_map_merged(*old(mm), *final(mm), minfos, strategy),
{
    let ghost m0 = *mm;
    let mut defs = defs;
    let ghost mut t: int = 0;
    proof {
        assert(minfos.take(0) =~= Seq::<MethodInfo>::empty());
        assert forall|nm: Seq<char>| methods_named(minfos.take(0), nm).len() == 0 by {
            assert(methods_named(Seq::<MethodInfo>::empty(), nm) =~= Seq::<MethodInfo>::empty());
        }
        assert forall|nm: Seq<char>| #[trigger] m0.contains_spec(nm) implies m0.as_map()[nm]@.take(
            olds_of(m0, nm).len() as int,
        ) == olds_of(m0, nm) by {
            assert(m0.as_map()[nm]@.take(m0.as_map()[nm]@.len() as int) =~= m0.as_map()[nm]@);
        }
        assert(methods_map_merged(m0, *mm, minfos.take(0), strategy));
    }
    while defs.len() > 0
        invariant
            0 <= t <= minfos.len(),
            defs@.len() == minfos.len() - t,
            forall|j: int|
                0 <= j < defs@.len() ==> method_from_info(
                    #[trigger] defs@[j],
                    minfos[t + j],
                    strategy,
                ),
            methods_map_merged(m0, *mm, minfos.take(t), strategy),
        decreases defs@.len(),
    {
        let ghost old_defs = defs@;
        let d = defs.remove(0);
        let ghost gd = d;
        proof {
            assert(gd == old_defs[0]);
            assert(method_from_info(gd, minfos[t], strategy));
            assert(defs@ =~= old_defs.remove(0));
        }
        let nm_key = clone_string(&d.name);
        let ghost nm0 = nm_key@;
        proof {
            assert(nm0 == minfos[t].name@);
            assert(minfos.take(t + 1).drop_last() =~= minfos.take(t));
            assert(minfos.take(t + 1).last() == minfos[t]);
        }
        let ghost before = *mm;
        match mm.find(&nm_key) {
            Some(fi) => {
                proof {
                    before.lemma_view(fi as int);
                }
                let ghost oldlist = before.spec_val(fi as int);
                let lst = mm.value_at_mut(fi);
                lst.push(d);
                proof {
                    OrderedMap::lemma_value_update(before, *mm, fi as int);
                    assert(mm.as_map() == before.as_map().insert(nm0, mm.spec_val(fi as int)));
                    assert(mm.spec_val(fi as int)@ =~= oldlist@.push(gd));
                    lemma_methods_map_step(
                        m0,
                        before,
                        *mm,
                        mm.spec_val(fi as int)@,
                        minfos,
                        t,
                        strategy,
                        gd,
                        nm0,
                    );
                }
            },
            None => {
                let mut v: Vec<crate::ir::MethodDef> = Vec::new();
                v.push(d);
                let ghost gv = v;
                mm.insert(nm_key, v);
                proof {
                    assert(gv@ =~= Seq::<crate::ir::MethodDef>::empty().push(gd));
                    assert(mm.as_map() == before.as_map().insert(nm0, gv));
                    lemma_methods_map_step(m0, before, *mm, gv@, minfos, t, strategy, gd, nm0);
                }
            },
        }
        proof {
            t = t + 1;
        }
    }
    proof {
        assert(minfos.take(minfos.len() as int) =~= minfos);
    }
}

/// One step of the per-name merge: appending one built record under its
/// name keeps every other name's list and extends its own.
#[verifier::rlimit(100)]
proof fn lemma_methods_map_step(
    m0: OrderedMap<Vec<crate::ir::MethodDef>>,
    before: OrderedMap<Vec<crate::ir::MethodDef>>,
    after: OrderedMap<Vec<crate::ir::MethodDef>>,
    nv: Seq<crate::ir::MethodDef>,
    minfos: Seq<MethodInfo>,
    t: int,
    strategy: SelfImportStrategy,
    gd: crate::ir::MethodDef,
    nm0: Seq<char>,
)
    requires
        0 <= t < minfos.len(),
        nm0 == minfos[t].name@,
        method_from_info(gd, minfos[t], strategy),
        before.wf(),
        after.wf(),
        after.as_map().contains_key(nm0),
        after.as_map()[nm0]@ == nv,
        forall|x: Seq<char>|
            #[trigger] after.as_map().contains_key(x) <==> before.as_map().contains_key(x) || x
                == nm0,
        forall|x: Seq<char>|
            after.as_map().contains_key(x) && x != nm0 ==> #[trigger] after.as_map()[x]
                == before.as_map()[x],
        nv == (if before.contains_spec(nm0) {
            before.as_map()[nm0]@
        } else {
            Seq::<crate::ir::MethodDef>::empty()
        }).push(gd),
        methods_map_merged(m0, before, minfos.take(t), strategy),
    ensures
        methods_map_merged(m0, after, minfos.take(t + 1), strategy),
{
    before.lemma_contains_iff_key();
    after.lemma_contains_iff_key();
    assert(minfos.take(t + 1).drop_last() =~= minfos.take(t));
    assert(minfos.take(t + 1).last() == minfos[t]);
    let p0 = minfos.take(t);
    let p1 = minfos.take(t + 1);
    assert forall|nm: Seq<char>| #[trigger] methods_named(p1, nm) == (if nm == nm0 {
        methods_named(p0, nm).push(minfos[t])
    } else {
        methods_named(p0, nm)
    }) by {}
    let prev = if before.contains_spec(nm0) {
        before.as_map()[nm0]@
    } else {
        Seq::<crate::ir::MethodDef>::empty()
    };
    let olds0 = olds_of(m0, nm0);
    assert(prev.len() == olds0.len() + methods_named(p0, nm0).len()) by {
        if before.contains_spec(nm0) {
        } else {
            assert(!m0.contains_spec(nm0));
            assert(methods_named(p0, nm0).len() == 0);
        }
    }
    assert(prev.take(olds0.len() as int) == olds0) by {
        if before.contains_spec(nm0) {
        } else {
            assert(prev.take(0) =~= Seq::<crate::ir::MethodDef>::empty());
        }
    }
    assert forall|nm: Seq<char>|
        #[trigger] after.contains_spec(nm) <==> (m0.contains_spec(nm) || methods_named(
            p1,
            nm,
        ).len() > 0) by {
        if nm != nm0 {
            assert(after.contains_spec(nm) <==> before.contains_spec(nm));
        }
    }
    assert forall|nm: Seq<char>| #[trigger] after.contains_spec(nm) implies after.as_map()[nm]@.len()
        == olds_of(m0, nm).len() + methods_named(p1, nm).len() by {
        if nm == nm0 {
            assert(after.as_map()[nm]@ == prev.push(gd));
        } else {
            assert(before.contains_spec(nm));
            assert(after.as_map()[nm] == before.as_map()[nm]);
        }
    }
    assert forall|nm: Seq<char>| #[trigger] after.contains_spec(nm) implies after.as_map()[nm]@.take(
        olds_of(m0, nm).len() as int,
    ) == olds_of(m0, nm) by {
        if nm == nm0 {
            assert(after.as_map()[nm]@ == prev.push(gd));
            assert(prev.push(gd).take(olds0.len() as int) =~= prev.take(olds0.len() as int));
        } else {
            assert(before.contains_spec(nm));
            assert(after.as_map()[nm] == before.as_map()[nm]);
        }
    }
    assert forall|nm: Seq<char>, j: int|
        after.contains_spec(nm) && 0 <= j < methods_named(p1, nm).len() implies method_from_info(
        after.as_map()[nm]@[olds_of(m0, nm).len() + j],
        #[trigger] methods_named(p1, nm)[j],
        strategy,
    ) by {
        if nm == nm0 {
            assert(after.as_map()[nm]@ == prev.push(gd));
            if j < methods_named(p0, nm).len() {
                assert(before.contains_spec(nm)) by {
                    if !before.contains_spec(nm) {
                        assert(methods_named(p0, nm).len() == 0);
                    }
                }
                assert(methods_named(p1, nm)[j] == methods_named(p0, nm)[j]);
                assert(olds_of(m0, nm).len() + j < prev.len());
                assert(prev.push(gd)[olds_of(m0, nm).len() + j] == prev[olds_of(m0, nm).len() + j]);
                assert(method_from_info(
                    before.as_map()[nm]@[olds_of(m0, nm).len() + j],
                    methods_named(p0, nm)[j],
                    strategy,
                ));
            } else {
                assert(j == methods_named(p0, nm).len());
                assert(methods_named(p1, nm)[j] == minfos[t]);
                assert(olds_of(m0, nm).len() + j == prev.len());
                assert(prev.push(gd)[olds_of(m0, nm).len() + j] == gd);
            }
        } else {
            assert(before.contains_spec(nm));
            assert(after.as_map()[nm] == before.as_map()[nm]);
            assert(methods_named(p1, nm)[j] == methods_named(p0, nm)[j]);
            assert(method_from_info(
                before.as_map()[nm]@[olds_of(m0, nm).len() + j],
                methods_named(p0, nm)[j],
                strategy,
            ));
        }
    }
}

/// Appends a methods block's attributes onto a record's attribute list.
fn append_attrs(dst: &mut Vec<crate::ir::MemberDef>, attrs: Vec<MemberInfo>)
    ensures
        final(dst)@ == old(dst)@ + attrs@.map_values(|a: MemberInfo| attr_member(a)),
{
    let ghost orig = attrs@;
    let ghost base = dst@;
    let mut attrs = attrs;
    let ghost mut gi: int = 0;
    proof {
        assert(dst@ =~= base + orig.take(0).map_values(|a: MemberInfo| attr_member(a)));
    }
    while attrs.len() > 0
        invariant
            0 <= gi <= orig.len(),
            attrs@ =~= orig.skip(gi),
            dst@ == base + orig.take(gi).map_values(|a: MemberInfo| attr_member(a)),
        decreases attrs@.len(),
    {
        let a = attrs.remove(0);
        proof {
            assert(a == orig[gi]);
            assert(attrs@ =~= orig.skip(gi + 1));
        }
        let MemberInfo { name, type_info, doc, default, deprecated, is_abstract: _ } = a;
        dst.push(crate::ir::MemberDef {
            name,
            type_info,
            doc,
            default,
            deprecated,
            is_abstract: false,
        });
        proof {
            let f = |x: MemberInfo| attr_member(x);
            assert(orig.take(gi + 1).map_values(f) =~= orig.take(gi).map_values(f).push(
                attr_member(orig[gi]),
            ));
            assert(dst@ =~= base + orig.take(gi + 1).map_values(f));
            gi = gi + 1;
        }
    }
    proof {
        assert(orig.take(orig.len() as int) =~= orig);
    }
}

/// Appends a methods block's accessors onto a plain list, abstractness
/// kept as declared.
fn append_accessors(dst: &mut Vec<crate::ir::MemberDef>, ms: Vec<MemberInfo>)
    ensures
        final(dst)@ == old(dst)@ + ms@.map_values(|a: MemberInfo| accessor_member(a)),
{
    let ghost orig = ms@;
    let ghost base = dst@;
    let mut ms = ms;
    let ghost mut gi: int = 0;
    proof {
        assert(dst@ =~= base + orig.take(0).map_values(|a: MemberInfo| accessor_member(a)));
    }
    while ms.len() > 0
        invariant
            0 <= gi <= orig.len(),
            ms@ =~= orig.skip(gi),
            dst@ == base + orig.take(gi).map_values(|a: MemberInfo| accessor_member(a)),
        decreases ms@.len(),
    {
        let a = ms.remove(0);
        proof {
            assert(a == orig[gi]);
            assert(ms@ =~= orig.skip(gi + 1));
        }
        let MemberInfo { name, type_info, doc, default, deprecated, is_abstract } = a;
        dst.push(crate::ir::MemberDef { name, type_info, doc, default, deprecated, is_abstract });
        proof {
            let f = |x: MemberInfo| accessor_member(x);
            assert(orig.take(gi + 1).map_values(f) =~= orig.take(gi).map_values(f).push(
                accessor_member(orig[gi]),
            ));
            assert(dst@ =~= base + orig.take(gi + 1).map_values(f));
            gi = gi + 1;
        }
    }
    proof {
        assert(orig.take(orig.len() as int) =~= orig);
    }
}

/// Appends already built method records onto a plain list.
fn append_defs(dst: &mut Vec<crate::ir::MethodDef>, defs: Vec<crate::ir::MethodDef>)
    ensures
        final(dst)@ == old(dst)@ + defs@,
{
    let ghost orig = defs@;
    let ghost base = dst@;
    let mut defs = defs;
    let ghost mut gi: int = 0;
    proof {
        assert(dst@ =~= base + orig.take(0));
    }
    while defs.len() > 0
        invariant
            0 <= gi <= orig.len(),
            defs@ =~= orig.skip(gi),
            dst@ == base + orig.take(gi),
        decreases defs@.len(),
    {
        let d = defs.remove(0);
        proof {
            assert(d == orig[gi]);
            assert(defs@ =~= orig.skip(gi + 1));
        }
        dst.push(d);
        proof {
            assert(orig.take(gi + 1) =~= orig.take(gi).push(orig[gi]));
            assert(dst@ =~= base + orig.take(gi + 1));
            gi = gi + 1;
        }
    }
    proof {
        assert(orig.take(orig.len() as int) =~= orig);
    }
}

/// Fills the read side of each observed getter's attribute pair; the
/// last observation of a name wins and the write side is kept.
#[verifier::rlimit(100)]
fn apply_getters_exec(
    gs: &mut OrderedMap<crate::ir::GetterSetter>,
    getters: Vec<MemberInfo>,
) -> (flag: bool)
    requires
        old(gs).wf(),
    ensures
        final(gs).wf(),
        final(gs).as_map() == apply_getters(old(gs).as_map(), getters@),
        flag == any_abstract_member(getters@),
{
    let ghost g0 = gs.as_map();
    let ghost orig = getters@;
    let mut getters = getters;
    let mut flag = false;
    let ghost mut gi: int = 0;
    proof {
        assert(orig.take(0) =~= Seq::<MemberInfo>::empty());
    }
    while getters.len() > 0
        invariant
            0 <= gi <= orig.len(),
            getters@ =~= orig.skip(gi),
            gs.wf(),
            gs.as_map() == apply_getters(g0, orig.take(gi)),
            flag == any_abstract_member(orig.take(gi)),
        decreases getters@.len(),
    {
        let g = getters.remove(0);
        proof {
            assert(g == orig[gi]);
            assert(getters@ =~= orig.skip(gi + 1));
            assert(orig.take(gi + 1).drop_last() =~= orig.take(gi));
            assert(orig.take(gi + 1).last() == orig[gi]);
        }
        if g.is_abstract {
            flag = true;
        }
        let nm = clone_string(&g.name);
        let ghost nmv = nm@;
        let MemberInfo { name, type_info, doc, default, deprecated, is_abstract } = g;
        let member = crate::ir::MemberDef { name, type_info, doc, default, deprecated, is_abstract };
        let ghost gmember = member;
        let ghost before = *gs;
        match gs.find(&nm) {
            Some(fi) => {
                proof {
                    before.lemma_view(fi as int);
                    before.lemma_contains_iff_key();
                }
                let e = gs.value_at_mut(fi);
                let ghost olde = *e;
                e.getter = Some(member);
                proof {
                    OrderedMap::lemma_value_update(before, *gs, fi as int);
                    assert(gs.spec_val(fi as int) == (crate::ir::GetterSetter {
                        getter: Some(gmember),
                        setter: olde.setter,
                    }));
                    assert(gs.as_map() == before.as_map().insert(
                        nmv,
                        crate::ir::GetterSetter { getter: Some(gmember), setter: olde.setter },
                    ));
                    assert(gmember == accessor_member(orig[gi]));
                    assert(before.as_map().contains_key(nmv));
                    assert(before.as_map()[nmv].setter == olde.setter);
                    assert(gs.as_map() =~= apply_getters(g0, orig.take(gi + 1)));
                }
            },
            None => {
                proof {
                    before.lemma_contains_iff_key();
                }
                gs.insert(nm, crate::ir::GetterSetter { getter: Some(member), setter: None });
                proof {
                    assert(!before.as_map().contains_key(nmv));
                    assert(gmember == accessor_member(orig[gi]));
                    assert(gs.as_map() =~= apply_getters(g0, orig.take(gi + 1)));
                }
            },
        }
        proof {
            gi = gi + 1;
        }
    }
    proof {
        assert(orig.take(orig.len() as int) =~= orig);
    }
    flag
}

/// Fills the write side of each observed setter's attribute pair,
/// symmetrically.
#[verifier::rlimit(100)]
fn apply_setters_exec(
    gs: &mut OrderedMap<crate::ir::GetterSetter>,
    setters: Vec<MemberInfo>,
) -> (flag: bool)
    requires
        old(gs).wf(),
    ensures
        final(gs).wf(),
        final(gs).as_map() == apply_setters(old(gs).as_map(), setters@),
        flag == any_abstract_member(setters@),
{
    let ghost g0 = gs.as_map();
    let ghost orig = setters@;
    let mut setters = setters;
    let mut flag = false;
    let ghost mut gi: int = 0;
    proof {
        assert(orig.take(0) =~= Seq::<MemberInfo>::empty());
    }
    while setters.len() > 0
        invariant
            0 <= gi <= orig.len(),
            setters@ =~= orig.skip(gi),
            gs.wf(),
            gs.as_map() == apply_setters(g0, orig.take(gi)),
            flag == any_abstract_member(orig.take(gi)),
        decreases setters@.len(),
    {
        let g = setters.remove(0);
        proof {
            assert(g == orig[gi]);
            assert(setters@ =~= orig.skip(gi + 1));
            assert(orig.take(gi + 1).drop_last() =~= orig.take(gi));
            assert(orig.take(gi + 1).last() == orig[gi]);
        }
        if g.is_abstract {
            flag = true;
        }
        let nm = clone_string(&g.name);
        let ghost nmv = nm@;
        let MemberInfo { name, type_info, doc, default, deprecated, is_abstract } = g;
        let member = crate::ir::MemberDef { name, type_info, doc, default, deprecated, is_abstract };
        let ghost gmember = member;
        let ghost before = *gs;
        match gs.find(&nm) {
            Some(fi) => {
                proof {
                    before.lemma_view(fi as int);
                    before.lemma_contains_iff_key();
                }
                let e = gs.value_at_mut(fi);
                let ghost olde = *e;
                e.setter = Some(member);
                proof {
                    OrderedMap::lemma_value_update(before, *gs, fi as int);
                    assert(gs.spec_val(fi as int) == (crate::ir::GetterSetter {
                        getter: olde.getter,
                        setter: Some(gmember),
                    }));
                    assert(gs.as_map() == before.as_map().insert(
                        nmv,
                        crate::ir::GetterSetter { getter: olde.getter, setter: Some(gmember) },
                    ));
                    assert(gmember == accessor_member(orig[gi]));
                    assert(before.as_map().contains_key(nmv));
                    assert(before.as_map()[nmv].getter == olde.getter);
                    assert(gs.as_map() =~= apply_setters(g0, orig.take(gi + 1)));
                }
            },
            None => {
                proof {
                    before.lemma_contains_iff_key();
                }
                gs.insert(nm, crate::ir::GetterSetter { getter: None, setter: Some(member) });
                proof {
                    assert(!before.as_map().contains_key(nmv));
                    assert(gmember == accessor_member(orig[gi]));
                    assert(gs.as_map() =~= apply_setters(g0, orig.take(gi + 1)));
                }
            },
        }
        proof {
            gi = gi + 1;
        }
    }
    proof {
        assert(orig.take(orig.len() as int) =~= orig);
    }
    flag
}

/// The class record after a methods block is merged into it: collections
/// are unions of both sources, and any abstract accessor or method marks
/// the whole class abstract.
pub open spec fn class_merged(
    ocd: ClassDef,
    ncd: ClassDef,
    info: PyMethodsInfo,
    strategy: SelfImportStrategy,
) -> bool {
    &&& ncd.name == ocd.name
    &&& ncd.doc == ocd.doc
    &&& ncd.bases == ocd.bases
    &&& ncd.variants == ocd.variants
    &&& ncd.attrs@ == ocd.attrs@ + info.attrs@.map_values(|a: MemberInfo| attr_member(a))
    &&& ncd.getter_setters.wf()
    &&& ncd.getter_setters.as_map() == apply_setters(
        apply_getters(ocd.getter_setters.as_map(), info.getters@),
        info.setters@,
    )
    &&& methods_map_merged(ocd.methods, ncd.methods, info.methods@, strategy)
    &&& ncd.is_abstract == (ocd.is_abstract || any_abstract_member(info.getters@)
        || any_abstract_member(info.setters@) || any_abstract_method(info.methods@))
}

/// The enum record after a methods block is merged into it: attributes,
/// accessors and methods appended in registration order.
pub open spec fn enum_merged(
    oed: EnumDef,
    ned: EnumDef,
    info: PyMethodsInfo,
    strategy: SelfImportStrategy,
) -> bool {
    &&& ned.name == oed.name
    &&& ned.doc == oed.doc
    &&& ned.variants == oed.variants
    &&& ned.attrs@ == oed.attrs@ + info.attrs@.map_values(|a: MemberInfo| attr_member(a))
    &&& ned.getters@ == oed.getters@ + info.getters@.map_values(|a: MemberInfo| accessor_member(a))
    &&& ned.setters@ == oed.setters@ + info.setters@.map_values(|a: MemberInfo| accessor_member(a))
    &&& ned.methods@.len() == oed.methods@.len() + info.methods@.len()
    &&& ned.methods@.take(oed.methods@.len() as int) == oed.methods@
    &&& (forall|j: int|
        0 <= j < info.methods@.len() ==> method_from_info(
            #[trigger] ned.methods@[oed.methods@.len() + j],
            info.methods@[j],
            strategy,
        ))
    &&& ned.is_abstract == (oed.is_abstract || any_abstract_member(info.getters@)
        || any_abstract_member(info.setters@) || any_abstract_method(info.methods@))
}

impl StubInfoBuilder {
    /// Finds the module holding the type a methods block targets: the
    /// first module whose class map, or failing that whose enum map,
    /// holds the identity key.
    fn find_owner(&self, sid: u64) -> (r: Option<(usize, bool, usize)>)
        requires
            self.wf(),
        ensures
            match r {
                None => forall|j: int|
                    0 <= j < self.modules.spec_len() ==> !(
                    #[trigger] self.modules.spec_val(j)).class.contains_spec(sid)
                        && !self.modules.spec_val(j).enum_.contains_spec(sid),
                Some((mi, is_class, idx)) => mi < self.modules.spec_len() && (is_class ==> idx
                    < self.modules.spec_val(mi as int).class.spec_len()
                    && self.modules.spec_val(mi as int).class.spec_key(idx as int) == sid) && (
                !is_class ==> !self.modules.spec_val(mi as int).class.contains_spec(sid) && idx
                    < self.modules.spec_val(mi as int).enum_.spec_len()
                    && self.modules.spec_val(mi as int).enum_.spec_key(idx as int) == sid),
            },
    {
        let n = self.modules.len();
        let mut mi: usize = 0;
        while mi < n
            invariant
                0 <= mi <= n,
                n == self.modules.spec_len(),
                self.wf(),
                forall|j: int|
                    0 <= j < mi ==> !(#[trigger] self.modules.spec_val(j)).class.contains_spec(sid)
                        && !self.modules.spec_val(j).enum_.contains_spec(sid),
            decreases n - mi,
        {
            proof {
                assert(self.modules.spec_val(mi as int).wf());
            }
            let m_ref = self.modules.value_at(mi);
            match m_ref.class.find(sid) {
                Some(ci) => {
                    return Some((mi, true, ci));
                },
                None => {},
            }
            match m_ref.enum_.find(sid) {
                Some(ei) => {
                    return Some((mi, false, ei));
                },
                None => {},
            }
            mi = mi + 1;
        }
        None
    }

    /// Joins a methods-block descriptor to the class or enum whose shape
    /// carries the same identity key. The matched record gains the
    /// block's attributes, accessor pairs and methods — overload
    /// alternatives keep registration order under their name and are
    /// never merged — and an abstract accessor or method marks the whole
    /// class abstract. A key matching no registered shape aborts the
    /// build and leaves the tree untouched.
    #[verifier::rlimit(100)]
    pub fn add_methods(&mut self, info: PyMethodsInfo) -> (r: Result<(), BuildError>)
        requires
            old(self).wf(),
        ensures
            final(self).wf(),
            old(self).same_config(*final(self)),
            match r {
                Err(e) => *final(self) == *old(self) && e == BuildError::MissingTypeShape(
                    info.struct_id,
                ) && (forall|j: int|
                    0 <= j < old(self).modules.spec_len() ==> !(#[trigger] old(
                        self,
                    ).modules.spec_val(j)).class.contains_spec(info.struct_id) && !old(
                        self,
                    ).modules.spec_val(j).enum_.contains_spec(info.struct_id)),
                Ok(()) => exists|tm: Seq<char>|
                    #![auto]
                    {
                        &&& old(self).modules.as_map().contains_key(tm)
                        &&& final(self).modules.as_map() == old(self).modules.as_map().insert(
                            tm,
                            final(self).modules.as_map()[tm],
                        )
                        &&& ({
                            let ov = old(self).modules.as_map()[tm];
                            let fm = final(self).modules.as_map()[tm];
                            &&& fm.name == ov.name
                            &&& fm.default_module_name == ov.default_module_name
                            &&& fm.doc == ov.doc
                            &&& fm.function == ov.function
                            &&& fm.variables == ov.variables
                            &&& fm.submodules == ov.submodules
                            &&& (forall|k: Seq<char>|
                                #[trigger] fm.imports.contains_spec(k)
                                    <==> ov.imports.contains_spec(k) || block_imports_contain(
                                    info,
                                    old(self).strategy,
                                    k,
                                ))
                            &&& ((ov.class.contains_spec(info.struct_id) && fm.enum_ == ov.enum_
                                && fm.class.as_map() == ov.class.as_map().insert(
                                info.struct_id,
                                fm.class.as_map()[info.struct_id],
                            ) && class_merged(
                                ov.class.as_map()[info.struct_id],
                                fm.class.as_map()[info.struct_id],
                                info,
                                old(self).strategy,
                            )) || (!ov.class.contains_spec(info.struct_id)
                                && ov.enum_.contains_spec(info.struct_id) && fm.class == ov.class
                                && fm.enum_.as_map() == ov.enum_.as_map().insert(
                                info.struct_id,
                                fm.enum_.as_map()[info.struct_id],
                            ) && enum_merged(
                                ov.enum_.as_map()[info.struct_id],
                                fm.enum_.as_map()[info.struct_id],
                                info,
                                old(self).strategy,
                            )))
                        })
                    },
            },
    {
        let ghost ginfo = info;
        let PyMethodsInfo { struct_id, attrs, getters, setters, methods } = info;
        let owner = self.find_owner(struct_id);
        match owner {
            None => Err(BuildError::MissingTypeShape(struct_id)),
            Some((mi, is_class, idx)) => {
                let strat = self.strategy;
                let ghost pre = *self;
                let ghost tm = pre.modules.spec_key(mi as int);
                let ghost mval = pre.modules.spec_val(mi as int);
                let (defs, mflag) = build_method_defs(methods, strat);
                let m = self.modules.value_at_mut(mi);
                proof {
                    assert(pre.modules.spec_val(mi as int).wf());
                }
                union_attrs(&mut m.imports, &attrs);
                union_members(&mut m.imports, &getters);
                union_members(&mut m.imports, &setters);
                union_defs_imports(&mut m.imports, &defs);
                proof {
                    assert forall|k: Seq<char>|
                        #[trigger] m.imports.contains_spec(k) <==> mval.imports.contains_spec(k)
                            || block_imports_contain(ginfo, strat, k) by {
                        if exists|j: int|
                            0 <= j < defs@.len() && def_imports(#[trigger] defs@[j], k) {
                            let j = choose|j: int|
                                0 <= j < defs@.len() && def_imports(#[trigger] defs@[j], k);
                            lemma_def_imports_iff(defs@[j], ginfo.methods@[j], strat);
                            assert(method_imports_contain(ginfo.methods@[j], strat, k));
                        }
                        if exists|j: int|
                            0 <= j < ginfo.methods@.len() && method_imports_contain(
                                #[trigger] ginfo.methods@[j],
                                strat,
                                k,
                            ) {
                            let j = choose|j: int|
                                0 <= j < ginfo.methods@.len() && method_imports_contain(
                                    #[trigger] ginfo.methods@[j],
                                    strat,
                                    k,
                                );
                            lemma_def_imports_iff(defs@[j], ginfo.methods@[j], strat);
                            assert(def_imports(defs@[j], k));
                        }
                    }
                }
                if is_class {
                    let ghost class0 = m.class;
                    let cr = m.class.value_at_mut(idx);
                    let ghost ocd = *cr;
                    let mut cd = blank_class();
                    core::mem::swap(&mut cd, cr);
                    proof {
                        assert(cd == ocd);
                    }
                    let ghost class1 = m.class;
                    append_attrs(&mut cd.attrs, attrs);
                    let gflag = apply_getters_exec(&mut cd.getter_setters, getters);
                    let sflag = apply_setters_exec(&mut cd.getter_setters, setters);
                    push_defs_into_map(
                        &mut cd.methods,
                        defs,
                        Ghost(ginfo.methods@),
                        Ghost(strat),
                    );
                    if gflag || sflag || mflag {
                        cd.is_abstract = true;
                    }
                    let ghost gcd = cd;
                    let cr2 = m.class.value_at_mut(idx);
                    core::mem::swap(&mut cd, cr2);
                    proof {
                        assert(class_merged(ocd, gcd, ginfo, strat));
                        IdMap::lemma_value_update(class0, class1, idx as int);
                        IdMap::lemma_value_update(class1, m.class, idx as int);
                        assert(m.class.as_map() =~= class0.as_map().insert(struct_id, gcd));
                        class0.lemma_view(idx as int);
                        class0.lemma_contains_iff_key();
                        assert(class0.as_map()[struct_id] == ocd);
                        m.class.lemma_contains_iff_key();
                        assert(m.class.as_map()[struct_id] == gcd);
                        assert(gcd.wf());
                        assert forall|ci: int|
                            0 <= ci < m.class.spec_len() implies (#[trigger] m.class.spec_val(
                            ci,
                        )).wf() by {
                            if ci != idx {
                                assert(m.class.spec_val(ci) == class0.spec_val(ci));
                                assert(class0.spec_val(ci).wf());
                            } else {
                                assert(m.class.spec_val(ci) == gcd);
                            }
                        }
                    }
                } else {
                    let ghost enum0 = m.enum_;
                    let er = m.enum_.value_at_mut(idx);
                    let ghost oed = *er;
                    let mut ed = blank_enum();
                    core::mem::swap(&mut ed, er);
                    proof {
                        assert(ed == oed);
                    }
                    let ghost enum1 = m.enum_;
                    let gflag = any_abstract_members_in(&getters);
                    let sflag = any_abstract_members_in(&setters);
                    append_attrs(&mut ed.attrs, attrs);
                    append_accessors(&mut ed.getters, getters);
                    append_accessors(&mut ed.setters, setters);
                    let ghost gdefs = defs@;
                    append_defs(&mut ed.methods, defs);
                    if gflag || sflag || mflag {
                        ed.is_abstract = true;
                    }
                    let ghost ged = ed;
                    let er2 = m.enum_.value_at_mut(idx);
                    core::mem::swap(&mut ed, er2);
                    proof {
                        assert(ged.methods@ == oed.methods@ + gdefs);
                        assert(ged.methods@.take(oed.methods@.len() as int) =~= oed.methods@);
                        assert forall|j: int|
                            0 <= j < ginfo.methods@.len() implies method_from_info(
                            #[trigger] ged.methods@[oed.methods@.len() + j],
                            ginfo.methods@[j],
                            strat,
                        ) by {
                            assert(ged.methods@[oed.methods@.len() + j] == gdefs[j]);
                            assert(method_from_info(gdefs[j], ginfo.methods@[j], strat));
                        }
                        assert(enum_merged(oed, ged, ginfo, strat));
                        IdMap::lemma_value_update(enum0, enum1, idx as int);
                        IdMap::lemma_value_update(enum1, m.enum_, idx as int);
                        assert(m.enum_.as_map() =~= enum0.as_map().insert(struct_id, ged));
                        enum0.lemma_view(idx as int);
                        enum0.lemma_contains_iff_key();
                        assert(enum0.as_map()[struct_id] == oed);
                        m.enum_.lemma_contains_iff_key();
                        assert(m.enum_.as_map()[struct_id] == ged);
                    }
                }
                proof {
                    let fm = self.modules.spec_val(mi as int);
                    OrderedMap::lemma_value_update(pre.modules, self.modules, mi as int);
                    assert(self.modules.as_map() =~= pre.modules.as_map().insert(tm, fm));
                    pre.modules.lemma_view(mi as int);
                    pre.modules.lemma_contains_iff_key();
                    assert(pre.modules.as_map()[tm] == mval);
                    assert forall|j: int|
                        0 <= j < self.modules.spec_len() implies (
                    #[trigger] self.modules.spec_val(j)).wf() && self.modules.spec_val(j).name@
                        == self.modules.spec_key(j) && self.modules.spec_val(
                        j,
                    ).default_module_name@ == self.default_module_name@ by {
                        assert(pre.modules.spec_val(j).wf());
                        if j != mi {
                            assert(self.modules.spec_val(j) == pre.modules.spec_val(j));
                        }
                    }
                    self.modules.lemma_contains_iff_key();
                    let w = choose|w: int|
                        0 <= w < self.modules.spec_len() && self.modules.spec_key(w) == tm;
                    self.modules.lemma_key_unique(w, mi as int);
                    self.modules.lemma_view(mi as int);
                    assert(self.modules.as_map()[tm] == fm);
                }
                Ok(())
            },
        }
    }
}

/// Index of the last dot in a name, or a negative value when none.
pub open spec fn last_dot(s: Seq<char>) -> int
    decreases s.len(),
{
    if s.len() == 0 {
        -1
    } else if s.last() == '.' {
        s.len() - 1
    } else {
        last_dot(s.drop_last())
    }
}

/// The parent prefix of a dotted name.
pub open spec fn parent_of(s: Seq<char>) -> Seq<char> {
    s.take(last_dot(s))
}

/// The last segment of a dotted name.
pub open spec fn child_of(s: Seq<char>) -> Seq<char> {
    s.skip(last_dot(s) + 1)
}

/// Finds the last dot of a string, if any.
fn find_last_dot(s: &String) -> (r: Option<usize>)
    ensures
        match r {
            Some(i) => i < s@.len() && last_dot(s@) == i,
            None => last_dot(s@) < 0,
        },
{
    let n = s.as_str().unicode_len();
    let mut i: usize = n;
    proof {
        assert(s@.take(n as int) =~= s@);
    }
    while i > 0
        invariant
            0 <= i <= n,
            n == s@.len(),
            last_dot(s@) == last_dot(s@.take(i as int)),
        decreases i,
    {
        let c = s.as_str().get_char(i - 1);
        proof {
            let part = s@.take(i as int);
            assert(part.last() == s@[i - 1]);
            assert(part.drop_last() =~= s@.take(i - 1));
        }
        if c == '.' {
            return Some(i - 1);
        }
        i = i - 1;
    }
    proof {
        assert(s@.take(0) =~= Seq::<char>::empty());
    }
    None
}

impl StubInfoBuilder {
    /// Derives submodule membership once from the dotted names of every
    /// registered module: each name with a parent prefix that is itself
    /// registered contributes its last segment to that parent's
    /// submodule set. The result depends only on which names are
    /// registered, never on their registration order.
    #[verifier::rlimit(100)]
    pub fn register_submodules(&mut self)
        requires
            old(self).wf(),
        ensures
            final(self).wf(),
            old(self).same_config(*final(self)),
            final(self).modules.spec_len() == old(self).modules.spec_len(),
            forall|j: int|
                0 <= j < old(self).modules.spec_len() ==> final(self).modules.spec_key(j) == old(
                    self,
                ).modules.spec_key(j),
            forall|j: int| 0 <= j < old(self).modules.spec_len()
                ==> (#[trigger] final(self).modules.spec_val(j)).name == old(self).modules.spec_val(j).name
                && final(self).modules.spec_val(j).default_module_name == old(self).modules.spec_val(j).default_module_name
                && final(self).modules.spec_val(j).doc == old(self).modules.spec_val(j).doc
                && final(self).modules.spec_val(j).imports == old(self).modules.spec_val(j).imports
                && final(self).modules.spec_val(j).class == old(self).modules.spec_val(j).class
                && final(self).modules.spec_val(j).enum_ == old(self).modules.spec_val(j).enum_
                && final(self).modules.spec_val(j).function == old(self).modules.spec_val(j).function
                && final(self).modules.spec_val(j).variables == old(self).modules.spec_val(j).variables,
            forall|j: int, k: Seq<char>| 0 <= j < old(self).modules.spec_len()
                ==> ((#[trigger] final(self).modules.spec_val(j).submodules.contains_spec(k))
                    <==> old(self).modules.spec_val(j).submodules.contains_spec(k) || (exists|c: int|
                        0 <= c < old(self).modules.spec_len()
                        && last_dot(#[trigger] old(self).modules.spec_key(c)) >= 0
                        && parent_of(old(self).modules.spec_key(c)) == old(self).modules.spec_key(j)
                        && child_of(old(self).modules.spec_key(c)) == k)),
    {
        let ghost pre = *self;
        let n = self.modules.len();
        let mut c: usize = 0;
        while c < n
            invariant
                0 <= c <= n,
                n == pre.modules.spec_len(),
                self.wf(),
                pre.same_config(*self),
                pre.wf(),
                self.modules.spec_len() == pre.modules.spec_len(),
                forall|j: int|
                    0 <= j < n ==> self.modules.spec_key(j) == pre.modules.spec_key(j),
                forall|j: int|
                    0 <= j < n ==> (#[trigger] self.modules.spec_val(j)).name
                        == pre.modules.spec_val(j).name && self.modules.spec_val(
                        j,
                    ).default_module_name == pre.modules.spec_val(j).default_module_name
                        && self.modules.spec_val(j).doc == pre.modules.spec_val(j).doc
                        && self.modules.spec_val(j).imports == pre.modules.spec_val(j).imports
                        && self.modules.spec_val(j).class == pre.modules.spec_val(j).class
                        && self.modules.spec_val(j).enum_ == pre.modules.spec_val(j).enum_
                        && self.modules.spec_val(j).function == pre.modules.spec_val(j).function
                        && self.modules.spec_val(j).variables == pre.modules.spec_val(
                        j,
                    ).variables,
                forall|cc: int, j: int|
                    0 <= cc < c && 0 <= j < n && last_dot(#[trigger] pre.modules.spec_key(cc)) >= 0
                        && parent_of(pre.modules.spec_key(cc)) == pre.modules.spec_key(j) ==> (
                    #[trigger] self.modules.spec_val(j)).submodules.contains_spec(
                        child_of(pre.modules.spec_key(cc)),
                    ),
                forall|j: int, k: Seq<char>|
                    0 <= j < n && (#[trigger] self.modules.spec_val(j).submodules.contains_spec(
                        k,
                    )) ==> pre.modules.spec_val(j).submodules.contains_spec(k) || (exists|cc: int|
                        0 <= cc < n && last_dot(#[trigger] pre.modules.spec_key(cc)) >= 0
                            && parent_of(pre.modules.spec_key(cc)) == pre.modules.spec_key(j)
                            && child_of(pre.modules.spec_key(cc)) == k),
                forall|j: int, k: Seq<char>|
                    0 <= j < n && (#[trigger] pre.modules.spec_val(j).submodules.contains_spec(k))
                        ==> self.modules.spec_val(j).submodules.contains_spec(k),
            decreases n - c,
        {
            let name = clone_string(self.modules.key_at(c));
            let ghost cname = pre.modules.spec_key(c as int);
            proof {
                assert(name@ == cname);
            }
            match find_last_dot(&name) {
                Some(ld) => {
                    let parent = name.as_str().substring_char(0, ld);
                    let nlen = name.as_str().unicode_len();
                    let child = name.as_str().substring_char(ld + 1, nlen);
                    proof {
                        assert(parent@ =~= parent_of(cname));
                        assert(child@ =~= child_of(cname));
                    }
                    let parent_string = String::from_str(parent);
                    let child_string = String::from_str(child);
                    let ghost at_loop = *self;
                    match self.modules.find(&parent_string) {
                        Some(pi) => {
                            let ghost mid = *self;
                            let ghost pkey = mid.modules.spec_key(pi as int);
                            let m = self.modules.value_at_mut(pi);
                            let ghost subs_before = m.submodules;
                            proof {
                                assert(mid.modules.spec_val(pi as int).wf());
                            }
                            m.submodules.insert(child_string, ());
                            proof {
                                m.submodules.lemma_contains_iff_key();
                                subs_before.lemma_contains_iff_key();
                                assert forall|k: Seq<char>|
                                    #[trigger] m.submodules.contains_spec(k) <==> (
                                subs_before.contains_spec(k) || k == child_of(cname)) by {
                                    assert(m.submodules.as_map() == subs_before.as_map().insert(
                                        child_of(cname),
                                        (),
                                    ));
                                }
                                assert forall|j: int|
                                    0 <= j < n implies (#[trigger] self.modules.spec_val(
                                    j,
                                )).wf() && self.modules.spec_val(j).name@
                                    == self.modules.spec_key(j) && self.modules.spec_val(
                                    j,
                                ).default_module_name@ == self.default_module_name@ by {
                                    assert(mid.modules.spec_val(j).wf());
                                    if j != pi {
                                        assert(self.modules.spec_val(j) == mid.modules.spec_val(
                                            j,
                                        ));
                                    }
                                }
                                assert forall|cc: int, j: int|
                                    0 <= cc < c + 1 && 0 <= j < n && last_dot(
                                        #[trigger] pre.modules.spec_key(cc),
                                    ) >= 0 && parent_of(pre.modules.spec_key(cc))
                                        == pre.modules.spec_key(j) implies (
                                #[trigger] self.modules.spec_val(j)).submodules.contains_spec(
                                    child_of(pre.modules.spec_key(cc)),
                                ) by {
                                    if cc == c {
                                        assert(pre.modules.spec_key(pi as int) == parent_of(
                                            cname,
                                        ));
                                        self.modules.lemma_key_unique(j, pi as int);
                                        assert(j == pi);
                                        assert(self.modules.spec_val(pi as int).submodules
                                            == m.submodules);
                                    } else {
                                        assert(mid.modules.spec_val(j).submodules.contains_spec(
                                            child_of(pre.modules.spec_key(cc)),
                                        ));
                                        if j == pi {
                                            assert(subs_before.contains_spec(
                                                child_of(pre.modules.spec_key(cc)),
                                            ));
                                        }
                                    }
                                }
                            }
                        },
                        None => {
                            proof {
                                assert forall|cc: int, j: int|
                                    0 <= cc < c + 1 && 0 <= j < n && last_dot(
                                        #[trigger] pre.modules.spec_key(cc),
                                    ) >= 0 && parent_of(pre.modules.spec_key(cc))
                                        == pre.modules.spec_key(j) implies (
                                #[trigger] self.modules.spec_val(j)).submodules.contains_spec(
                                    child_of(pre.modules.spec_key(cc)),
                                ) by {
                                    if cc == c {
                                        assert(self.modules.contains_spec(parent_of(cname)));
                                        assert(false);
                                    }
                                }
                            }
                        },
                    }
                },
                None => {
                    proof {
                        assert forall|cc: int, j: int|
                            0 <= cc < c + 1 && 0 <= j < n && last_dot(
                                #[trigger] pre.modules.spec_key(cc),
                            ) >= 0 && parent_of(pre.modules.spec_key(cc)) == pre.modules.spec_key(
                            j,
                        ) implies (#[trigger] self.modules.spec_val(j)).submodules.contains_spec(
                            child_of(pre.modules.spec_key(cc)),
                        ) by {
                            if cc == c {
                                assert(last_dot(cname) < 0);
                                assert(false);
                            }
                        }
                    }
                },
            }
            c = c + 1;
        }
        proof {
            assert forall|j: int, k: Seq<char>|
                0 <= j < n implies ((#[trigger] self.modules.spec_val(j).submodules.contains_spec(
                k,
            )) <==> pre.modules.spec_val(j).submodules.contains_spec(k) || (exists|cc: int|
                0 <= cc < n && last_dot(#[trigger] pre.modules.spec_key(cc)) >= 0 && parent_of(
                    pre.modules.spec_key(cc),
                ) == pre.modules.spec_key(j) && child_of(pre.modules.spec_key(cc)) == k)) by {
                if exists|cc: int|
                    0 <= cc < n && last_dot(#[trigger] pre.modules.spec_key(cc)) >= 0 && parent_of(
                        pre.modules.spec_key(cc),
                    ) == pre.modules.spec_key(j) && child_of(pre.modules.spec_key(cc)) == k {
                    let cc = choose|cc: int|
                        0 <= cc < n && last_dot(#[trigger] pre.modules.spec_key(cc)) >= 0
                            && parent_of(pre.modules.spec_key(cc)) == pre.modules.spec_key(j)
                            && child_of(pre.modules.spec_key(cc)) == k;
                    assert(self.modules.spec_val(j).submodules.contains_spec(
                        child_of(pre.modules.spec_key(cc)),
                    ));
                }
            }
        }
    }
}

/// Whether one variant's rendering needs the import `k`: its fields'
/// types, its constructor parameters' types, and — unless the variant is
/// mapping-flagged — the self-referential return type of its synthesized
/// constructor and, for the tuple form, the unconstrained type of its
/// synthesized item access.
pub open spec fn variant_imports_contain(
    vi: VariantInfo,
    strategy: SelfImportStrategy,
    k: Seq<char>,
) -> bool {
    ||| seq_attrs_contain(vi.fields@, k)
    ||| crate::ir::seq_params_contain(vi.constr_args@, k)
    ||| (!vi.is_mapping && k == self_import_name(strategy))
    ||| (!vi.is_mapping && vi.form == crate::ir::VariantForm::Tuple && k == "typing"@)
}

/// Whether a tagged enum's rendering needs the import `k`.
pub open spec fn complex_enum_imports_contain(
    info: PyComplexEnumInfo,
    strategy: SelfImportStrategy,
    k: Seq<char>,
) -> bool {
    exists|v: int|
        0 <= v < info.variants@.len() && #[trigger] variant_imports_contain(
            info.variants@[v],
            strategy,
            k,
        )
}

/// The synthesized pseudo-class methods a variant carries.
pub open spec fn variant_methods_ok(
    mm: OrderedMap<Vec<crate::ir::MethodDef>>,
    vi: VariantInfo,
    strategy: SelfImportStrategy,
) -> bool {
    &&& mm.wf()
    &&& (vi.is_mapping ==> mm.spec_len() == 0)
    &&& (!vi.is_mapping ==> {
        &&& mm.contains_spec("__new__"@)
        &&& mm.as_map()["__new__"@]@.len() == 1
        &&& is_variant_new_method(mm.as_map()["__new__"@]@[0], vi.constr_args@, strategy)
        &&& (vi.form == crate::ir::VariantForm::Tuple ==> mm.contains_spec("__len__"@)
            && mm.as_map()["__len__"@]@.len() == 1 && is_variant_len_method(
            mm.as_map()["__len__"@]@[0],
        ) && mm.contains_spec("__getitem__"@) && mm.as_map()["__getitem__"@]@.len() == 1
            && is_variant_getitem_method(mm.as_map()["__getitem__"@]@[0]) && (forall|k: Seq<char>|
            mm.contains_spec(k) <==> (k == "__new__"@ || k == "__len__"@ || k == "__getitem__"@)))
        &&& (vi.form != crate::ir::VariantForm::Tuple ==> (forall|k: Seq<char>|
            mm.contains_spec(k) <==> k == "__new__"@))
    })
}

/// The record a variant descriptor builds.
pub open spec fn variant_built(
    vd: crate::ir::VariantDef,
    vi: VariantInfo,
    strategy: SelfImportStrategy,
) -> bool {
    &&& vd.name == vi.pyclass_name
    &&& vd.form == vi.form
    &&& vd.doc == vi.doc
    &&& vd.is_mapping == vi.is_mapping
    &&& vd.fields@ == vi.fields@.map_values(|a: MemberInfo| accessor_member(a))
    &&& variant_methods_ok(vd.methods, vi, strategy)
}

impl StubInfoBuilder {
    /// Inserts a tagged-enum shape descriptor into its target module's
    /// class map: one class whose variants become constructor-only
    /// pseudo-classes, tuple-shaped ones with the sequence protocol and
    /// mapping-flagged ones with nothing synthesized.
    #[verifier::rlimit(100)]
    pub fn add_complex_enum(&mut self, info: PyComplexEnumInfo)
        requires
            old(self).wf(),
        ensures
            final(self).wf(),
            old(self).same_config(*final(self)),
            ({
                let tm = target_name(opt_view(info.module), old(self).default_module_name@);
                let fmap = final(self).modules.as_map();
                &&& fmap.contains_key(tm)
                &&& fmap == old(self).modules.as_map().insert(tm, fmap[tm])
                &&& fmap[tm].class.as_map() == (if old(self).modules.contains_spec(tm) {
                    old(self).modules.as_map()[tm].class.as_map()
                } else {
                    Map::<u64, ClassDef>::empty()
                }).insert(info.enum_id, fmap[tm].class.as_map()[info.enum_id])
                &&& ({
                    let cd = fmap[tm].class.as_map()[info.enum_id];
                    &&& cd.name == info.pyclass_name
                    &&& cd.doc == info.doc
                    &&& cd.bases@.len() == 0
                    &&& cd.attrs@.len() == 0
                    &&& cd.getter_setters.spec_len() == 0
                    &&& cd.methods.spec_len() == 0
                    &&& !cd.is_abstract
                    &&& cd.variants@.len() == info.variants@.len()
                    &&& (forall|v: int|
                        0 <= v < info.variants@.len() ==> variant_built(
                            #[trigger] cd.variants@[v],
                            info.variants@[v],
                            old(self).strategy,
                        ))
                })
                &&& (forall|k: Seq<char>|
                    #[trigger] fmap[tm].imports.contains_spec(k) <==> (old(
                        self,
                    ).modules.contains_spec(tm) && old(self).modules.as_map()[tm].imports.contains_spec(
                        k,
                    )) || complex_enum_imports_contain(info, old(self).strategy, k))
                &&& (old(self).modules.contains_spec(tm) ==> {
                    let ov = old(self).modules.as_map()[tm];
                    fmap[tm].doc == ov.doc && fmap[tm].enum_ == ov.enum_ && fmap[tm].function
                        == ov.function && fmap[tm].variables == ov.variables && fmap[tm].submodules
                        == ov.submodules
                })
                &&& (!old(self).modules.contains_spec(tm) ==> fmap[tm].doc@.len() == 0
                    && fmap[tm].enum_.spec_len() == 0 && fmap[tm].function.spec_len() == 0
                    && fmap[tm].variables.spec_len() == 0 && fmap[tm].submodules.spec_len() == 0)
            }),
    {
        let ghost ginfo = info;
        let PyComplexEnumInfo { enum_id, pyclass_name, module, variants, doc } = info;
        let strat = self.strategy;
        let mi = self.get_module(module.as_ref());
        let ghost mid = *self;
        let ghost tm = mid.modules.spec_key(mi as int);
        let ghost mval = mid.modules.spec_val(mi as int);
        let m = self.modules.value_at_mut(mi);
        proof {
            assert(mid.modules.spec_val(mi as int).wf());
        }
        let ghost orig_vars = variants@;
        let mut variants = variants;
        let mut built: Vec<crate::ir::VariantDef> = Vec::new();
        let ghost mut gv: int = 0;
        while variants.len() > 0
            invariant
                0 <= gv <= orig_vars.len(),
                variants@ =~= orig_vars.skip(gv),
                built@.len() == gv,
                forall|v: int|
                    0 <= v < gv ==> variant_built(#[trigger] built@[v], orig_vars[v], strat),
                m.imports.wf(),
                forall|v: int, k: Seq<char>|
                    0 <= v < gv && #[trigger] variant_imports_contain(orig_vars[v], strat, k)
                        ==> m.imports.contains_spec(k),
                forall|k: Seq<char>|
                    #[trigger] m.imports.contains_spec(k) ==> mval.imports.contains_spec(k) || (
                    exists|v: int|
                        0 <= v < orig_vars.len() && #[trigger] variant_imports_contain(
                            orig_vars[v],
                            strat,
                            k,
                        )),
                forall|k: Seq<char>|
                    #[trigger] mval.imports.contains_spec(k) ==> m.imports.contains_spec(k),
                m.name == mval.name,
                m.default_module_name == mval.default_module_name,
                m.doc == mval.doc,
                m.class == mval.class,
                m.enum_ == mval.enum_,
                m.function == mval.function,
                m.variables == mval.variables,
                m.submodules == mval.submodules,
            decreases variants@.len(),
        {
            let vi = variants.remove(0);
            let ghost gvi = vi;
            proof {
                assert(gvi == orig_vars[gv]);
                assert(variants@ =~= orig_vars.skip(gv + 1));
            }
            let VariantInfo { pyclass_name: vname, form, fields, constr_args, doc: vdoc, is_mapping }
                = vi;
            let ghost imp0 = m.imports;
            union_attrs(&mut m.imports, &fields);
            let ghost imp1 = m.imports;
            union_params(&mut m.imports, &constr_args);
            let ghost imp2 = m.imports;
            if !is_mapping {
                match strat {
                    SelfImportStrategy::Typing => {
                        m.imports.insert(String::from_str("typing"), ());
                    },
                    SelfImportStrategy::TypingExtensions => {
                        m.imports.insert(String::from_str("typing_extensions"), ());
                    },
                }
                proof {
                    assert(m.imports.as_map() == imp2.as_map().insert(
                        self_import_name(strat),
                        (),
                    ));
                }
            }
            let ghost imp3 = m.imports;
            if !is_mapping && matches!(form, crate::ir::VariantForm::Tuple) {
                m.imports.insert(String::from_str("typing"), ());
                proof {
                    assert(m.imports.as_map() == imp3.as_map().insert("typing"@, ()));
                }
            }
            proof {
                m.imports.lemma_contains_iff_key();
                imp2.lemma_contains_iff_key();
                imp3.lemma_contains_iff_key();
                assert forall|k: Seq<char>|
                    #[trigger] m.imports.contains_spec(k) <==> (imp0.contains_spec(k)
                        || variant_imports_contain(gvi, strat, k)) by {
                    assert(imp3.contains_spec(k) <==> (imp2.contains_spec(k) || (!gvi.is_mapping
                        && k == self_import_name(strat))));
                    assert(m.imports.contains_spec(k) <==> (imp3.contains_spec(k) || (
                    !gvi.is_mapping && gvi.form == crate::ir::VariantForm::Tuple && k
                        == "typing"@)));
                }
                assert forall|v: int, k: Seq<char>|
                    0 <= v < gv + 1 && #[trigger] variant_imports_contain(orig_vars[v], strat, k)
                        implies m.imports.contains_spec(k) by {
                    if v < gv {
                        assert(imp0.contains_spec(k));
                    }
                }
                assert forall|k: Seq<char>|
                    #[trigger] m.imports.contains_spec(k) implies mval.imports.contains_spec(k)
                        || (exists|v: int|
                        0 <= v < orig_vars.len() && #[trigger] variant_imports_contain(
                            orig_vars[v],
                            strat,
                            k,
                        )) by {
                    if !imp0.contains_spec(k) {
                        assert(variant_imports_contain(orig_vars[gv], strat, k));
                    }
                }
            }
            let methods = get_variant_methods(constr_args, form, is_mapping, strat);
            let mut fds: Vec<crate::ir::MemberDef> = Vec::new();
            append_accessors(&mut fds, fields);
            let vd = crate::ir::VariantDef {
                name: vname,
                form,
                fields: fds,
                methods,
                doc: vdoc,
                is_mapping,
            };
            let ghost gvd = vd;
            built.push(vd);
            proof {
                assert(gvd.fields@ =~= Seq::<crate::ir::MemberDef>::empty() + gvi.fields@.map_values(
                    |a: MemberInfo| accessor_member(a),
                ));
                assert(gvd.fields@ =~= gvi.fields@.map_values(|a: MemberInfo| accessor_member(a)));
                assert(variant_built(gvd, gvi, strat));
                gv = gv + 1;
            }
        }
        proof {
            assert(orig_vars.skip(orig_vars.len() as int).len() == 0);
        }
        let cd = ClassDef {
            name: pyclass_name,
            doc,
            bases: Vec::new(),
            attrs: Vec::new(),
            getter_setters: OrderedMap::new(),
            methods: OrderedMap::new(),
            variants: built,
            is_abstract: false,
        };
        let ghost gcd = cd;
        m.class.insert(enum_id, cd);
        proof {
            let fm = self.modules.spec_val(mi as int);
            assert(fm.class.as_map() == mval.class.as_map().insert(enum_id, gcd));
            fm.class.lemma_contains_iff_key();
            mval.class.lemma_contains_iff_key();
            assert(fm.class.as_map()[enum_id] == gcd);
            assert forall|ci: int|
                0 <= ci < fm.class.spec_len() implies (#[trigger] fm.class.spec_val(ci)).wf() by {
                fm.class.lemma_view(ci);
                let ck = fm.class.spec_key(ci);
                if ck == enum_id {
                } else {
                    assert(mval.class.as_map().contains_key(ck));
                    assert(mval.class.contains_spec(ck));
                    let w = choose|w: int|
                        0 <= w < mval.class.spec_len() && mval.class.spec_key(w) == ck;
                    mval.class.lemma_view(w);
                    assert(fm.class.spec_val(ci) == mval.class.spec_val(w));
                    assert(mval.class.spec_val(w).wf());
                }
            }
            OrderedMap::lemma_value_update(mid.modules, self.modules, mi as int);
            assert(self.modules.as_map() =~= mid.modules.as_map().insert(tm, fm));
            mid.modules.lemma_contains_iff_key();
            assert(self.modules.as_map() =~= old(self).modules.as_map().insert(tm, fm));
            assert forall|j: int|
                0 <= j < self.modules.spec_len() implies (#[trigger] self.modules.spec_val(
                j,
            )).wf() && self.modules.spec_val(j).name@ == self.modules.spec_key(j)
                && self.modules.spec_val(j).default_module_name@
                == self.default_module_name@ by {
                assert(mid.modules.spec_val(j).wf());
                if j == mi {
                    assert(self.modules.spec_val(j) == fm);
                } else {
                    assert(self.modules.spec_val(j) == mid.modules.spec_val(j));
                }
            }
            self.modules.lemma_contains_iff_key();
            let w = choose|w: int|
                0 <= w < self.modules.spec_len() && self.modules.spec_key(w) == tm;
            self.modules.lemma_key_unique(w, mi as int);
            self.modules.lemma_view(mi as int);
            if old(self).modules.contains_spec(tm) {
                assert(old(self).modules == mid.modules);
                assert(old(self).modules.as_map()[tm] == mval);
            } else {
                assert(module_fresh(mval));
                assert(mval.class.as_map() =~= Map::<u64, ClassDef>::empty()) by {
                    mval.class.lemma_contains_iff_key();
                }
            }
        }
    }
}

/// One class-shape descriptor has been inserted: exactly what
/// `add_class` ensures of its module tree.
pub open spec fn class_added(pre: OrderedMap<Module>, post: OrderedMap<Module>, info: PyClassInfo, default: Seq<char>) -> bool {

                let tm = target_name(opt_view(info.module), default);
                let fmap = post.as_map();
                &&& fmap.contains_key(tm)
                &&& fmap == pre.as_map().insert(tm, fmap[tm])
                &&& fmap[tm].class.as_map() == (if pre.contains_spec(tm) {
                    pre.as_map()[tm].class.as_map()
                } else {
                    Map::<u64, ClassDef>::empty()
                }).insert(info.struct_id, fmap[tm].class.as_map()[info.struct_id])
                &&& class_from_info(fmap[tm].class.as_map()[info.struct_id], info)
                &&& (pre.contains_spec(tm) ==> {
                    let ov = pre.as_map()[tm];
                    fmap[tm].doc == ov.doc && fmap[tm].imports == ov.imports && fmap[tm].enum_
                        == ov.enum_ && fmap[tm].function == ov.function && fmap[tm].variables
                        == ov.variables && fmap[tm].submodules == ov.submodules
                })
                &&& (!pre.contains_spec(tm) ==> fmap[tm].doc@.len() == 0
                    && fmap[tm].imports.spec_len() == 0 && fmap[tm].enum_.spec_len() == 0
                    && fmap[tm].function.spec_len() == 0 && fmap[tm].variables.spec_len() == 0
                    && fmap[tm].submodules.spec_len() == 0)
}

/// One tagged-enum shape descriptor has been inserted: exactly what
/// `add_complex_enum` ensures of its module tree.
pub open spec fn complex_enum_added(pre: OrderedMap<Module>, post: OrderedMap<Module>, info: PyComplexEnumInfo, default: Seq<char>, strategy: SelfImportStrategy) -> bool {

                let tm = target_name(opt_view(info.module), default);
                let fmap = post.as_map();
                &&& fmap.contains_key(tm)
                &&& fmap == pre.as_map().insert(tm, fmap[tm])
                &&& fmap[tm].class.as_map() == (if pre.contains_spec(tm) {
                    pre.as_map()[tm].class.as_map()
                } else {
                    Map::<u64, ClassDef>::empty()
                }).insert(info.enum_id, fmap[tm].class.as_map()[info.enum_id])
                &&& ({
                    let cd = fmap[tm].class.as_map()[info.enum_id];
                    &&& cd.name == info.pyclass_name
                    &&& cd.doc == info.doc
                    &&& cd.bases@.len() == 0
                    &&& cd.attrs@.len() == 0
                    &&& cd.getter_setters.spec_len() == 0
                    &&& cd.methods.spec_len() == 0
                    &&& !cd.is_abstract
                    &&& cd.variants@.len() == info.variants@.len()
                    &&& (forall|v: int|
                        0 <= v < info.variants@.len() ==> variant_built(
                            #[trigger] cd.variants@[v],
                            info.variants@[v],
                            strategy,
                        ))
                })
                &&& (forall|k: Seq<char>|
                    #[trigger] fmap[tm].imports.contains_spec(k) <==> (pre.contains_spec(tm) && pre.as_map()[tm].imports.contains_spec(
                        k,
                    )) || complex_enum_imports_contain(info, strategy, k))
                &&& (pre.contains_spec(tm) ==> {
                    let ov = pre.as_map()[tm];
                    fmap[tm].doc == ov.doc && fmap[tm].enum_ == ov.enum_ && fmap[tm].function
                        == ov.function && fmap[tm].variables == ov.variables && fmap[tm].submodules
                        == ov.submodules
                })
                &&& (!pre.contains_spec(tm) ==> fmap[tm].doc@.len() == 0
                    && fmap[tm].enum_.spec_len() == 0 && fmap[tm].function.spec_len() == 0
                    && fmap[tm].variables.spec_len() == 0 && fmap[tm].submodules.spec_len() == 0)
}

/// One plain-enum shape descriptor has been inserted: exactly what
/// `add_enum` ensures of its module tree.
pub open spec fn enum_added(pre: OrderedMap<Module>, post: OrderedMap<Module>, info: PyEnumInfo, default: Seq<char>) -> bool {

                let tm = target_name(opt_view(info.module), default);
                let fmap = post.as_map();
                &&& fmap.contains_key(tm)
                &&& fmap == pre.as_map().insert(tm, fmap[tm])
                &&& fmap[tm].enum_.as_map() == (if pre.contains_spec(tm) {
                    pre.as_map()[tm].enum_.as_map()
                } else {
                    Map::<u64, EnumDef>::empty()
                }).insert(info.enum_id, fmap[tm].enum_.as_map()[info.enum_id])
                &&& ({
                    let ed = fmap[tm].enum_.as_map()[info.enum_id];
                    ed.name == info.pyclass_name && ed.doc == info.doc && ed.variants
                        == info.variants && ed.attrs@.len() == 0 && ed.getters@.len() == 0
                        && ed.setters@.len() == 0 && ed.methods@.len() == 0 && !ed.is_abstract
                })
                &&& (pre.contains_spec(tm) ==> {
                    let ov = pre.as_map()[tm];
                    fmap[tm].doc == ov.doc && fmap[tm].imports == ov.imports && fmap[tm].class
                        == ov.class && fmap[tm].function == ov.function && fmap[tm].variables
                        == ov.variables && fmap[tm].submodules == ov.submodules
                })
                &&& (!pre.contains_spec(tm) ==> fmap[tm].doc@.len() == 0
                    && fmap[tm].imports.spec_len() == 0 && fmap[tm].class.spec_len() == 0
                    && fmap[tm].function.spec_len() == 0 && fmap[tm].variables.spec_len() == 0
                    && fmap[tm].submodules.spec_len() == 0)
}

/// One function descriptor has been appended: exactly what
/// `add_function` ensures of its module tree.
pub open spec fn function_added(pre: OrderedMap<Module>, post: OrderedMap<Module>, info: PyFunctionInfo, default: Seq<char>) -> bool {

                let tm = target_name(opt_view(info.module), default);
                let nm = info.name@;
                let fmap = post.as_map();
                let old_list: Seq<crate::ir::FunctionDef> = if pre.contains_spec(tm)
                    && pre.as_map()[tm].function.contains_spec(nm) {
                    pre.as_map()[tm].function.as_map()[nm]@
                } else {
                    Seq::empty()
                };
                &&& fmap.contains_key(tm)
                &&& fmap == pre.as_map().insert(tm, fmap[tm])
                &&& fmap[tm].function.as_map().contains_key(nm)
                &&& fmap[tm].function.as_map() == (if pre.contains_spec(tm) {
                    pre.as_map()[tm].function.as_map()
                } else {
                    Map::<Seq<char>, Vec<crate::ir::FunctionDef>>::empty()
                }).insert(nm, fmap[tm].function.as_map()[nm])
                &&& fmap[tm].function.as_map()[nm]@.len() == old_list.len() + 1
                &&& fmap[tm].function.as_map()[nm]@.take(old_list.len() as int) == old_list
                &&& function_from_info(fmap[tm].function.as_map()[nm]@.last(), info)
                &&& (forall|k: Seq<char>|
                    #[trigger] fmap[tm].imports.contains_spec(k) <==> (pre.contains_spec(tm) && pre.as_map()[tm].imports.contains_spec(
                        k,
                    )) || function_imports_contain(info, k))
                &&& (pre.contains_spec(tm) ==> {
                    let ov = pre.as_map()[tm];
                    fmap[tm].doc == ov.doc && fmap[tm].class == ov.class && fmap[tm].enum_
                        == ov.enum_ && fmap[tm].variables == ov.variables && fmap[tm].submodules
                        == ov.submodules
                })
                &&& (!pre.contains_spec(tm) ==> fmap[tm].doc@.len() == 0
                    && fmap[tm].class.spec_len() == 0 && fmap[tm].enum_.spec_len() == 0
                    && fmap[tm].variables.spec_len() == 0 && fmap[tm].submodules.spec_len() == 0)
}

/// One variable descriptor has been inserted: exactly what
/// `add_variable` ensures of its module tree.
pub open spec fn variable_added(pre: OrderedMap<Module>, post: OrderedMap<Module>, info: PyVariableInfo) -> bool {

                let tm = info.module@;
                let nm = info.name@;
                let fmap = post.as_map();
                &&& fmap.contains_key(tm)
                &&& fmap == pre.as_map().insert(tm, fmap[tm])
                &&& fmap[tm].variables.as_map().contains_key(nm)
                &&& fmap[tm].variables.as_map() == (if pre.contains_spec(tm) {
                    pre.as_map()[tm].variables.as_map()
                } else {
                    Map::<Seq<char>, crate::ir::VariableDef>::empty()
                }).insert(nm, fmap[tm].variables.as_map()[nm])
                &&& fmap[tm].variables.as_map()[nm].name == info.name
                &&& fmap[tm].variables.as_map()[nm].type_info == info.type_info
                &&& (forall|k: Seq<char>|
                    #[trigger] fmap[tm].imports.contains_spec(k) <==> (pre.contains_spec(tm) && pre.as_map()[tm].imports.contains_spec(
                        k,
                    )) || info.type_info.import.contains_spec(k))
                &&& (pre.contains_spec(tm) ==> {
                    let ov = pre.as_map()[tm];
                    fmap[tm].doc == ov.doc && fmap[tm].class == ov.class && fmap[tm].enum_
                        == ov.enum_ && fmap[tm].function == ov.function && fmap[tm].submodules
                        == ov.submodules
                })
                &&& (!pre.contains_spec(tm) ==> fmap[tm].doc@.len() == 0
                    && fmap[tm].class.spec_len() == 0 && fmap[tm].enum_.spec_len() == 0
                    && fmap[tm].function.spec_len() == 0 && fmap[tm].submodules.spec_len() == 0)
}

/// One module-doc descriptor has been recorded: exactly what
/// `add_module_doc` ensures of its module tree.
pub open spec fn module_doc_added(pre: OrderedMap<Module>, post: OrderedMap<Module>, info: crate::registry::ModuleDocInfo) -> bool {

                let tm = info.module@;
                let fmap = post.as_map();
                &&& fmap.contains_key(tm)
                &&& fmap == pre.as_map().insert(tm, fmap[tm])
                &&& fmap[tm].doc == info.doc
                &&& (pre.contains_spec(tm) ==> {
                    let ov = pre.as_map()[tm];
                    fmap[tm].imports == ov.imports && fmap[tm].class == ov.class && fmap[tm].enum_
                        == ov.enum_ && fmap[tm].function == ov.function && fmap[tm].variables
                        == ov.variables && fmap[tm].submodules == ov.submodules
                })
                &&& (!pre.contains_spec(tm) ==> fmap[tm].imports.spec_len() == 0
                    && fmap[tm].class.spec_len() == 0 && fmap[tm].enum_.spec_len() == 0
                    && fmap[tm].function.spec_len() == 0 && fmap[tm].variables.spec_len() == 0
                    && fmap[tm].submodules.spec_len() == 0)
}

/// One methods-block descriptor has been joined to its type: exactly
/// what `add_methods` ensures of its module tree on success.
pub open spec fn methods_joined(
    pre: OrderedMap<Module>,
    post: OrderedMap<Module>,
    info: PyMethodsInfo,
    strategy: SelfImportStrategy,
) -> bool {
    exists|tm: Seq<char>|
            #![auto]
            {
                        &&& pre.as_map().contains_key(tm)
                        &&& post.as_map() == pre.as_map().insert(
                            tm,
                            post.as_map()[tm],
                        )
                        &&& ({
                            let ov = pre.as_map()[tm];
                            let fm = post.as_map()[tm];
                            &&& fm.name == ov.name
                            &&& fm.default_module_name == ov.default_module_name
                            &&& fm.doc == ov.doc
                            &&& fm.function == ov.function
                            &&& fm.variables == ov.variables
                            &&& fm.submodules == ov.submodules
                            &&& (forall|k: Seq<char>|
                                #[trigger] fm.imports.contains_spec(k)
                                    <==> ov.imports.contains_spec(k) || block_imports_contain(
                                    info,
                                    strategy,
                                    k,
                                ))
                            &&& ((ov.class.contains_spec(info.struct_id) && fm.enum_ == ov.enum_
                                && fm.class.as_map() == ov.class.as_map().insert(
                                info.struct_id,
                                fm.class.as_map()[info.struct_id],
                            ) && class_merged(
                                ov.class.as_map()[info.struct_id],
                                fm.class.as_map()[info.struct_id],
                                info,
                                strategy,
                            )) || (!ov.class.contains_spec(info.struct_id)
                                && ov.enum_.contains_spec(info.struct_id) && fm.class == ov.class
                                && fm.enum_.as_map() == ov.enum_.as_map().insert(
                                info.struct_id,
                                fm.enum_.as_map()[info.struct_id],
                            ) && enum_merged(
                                ov.enum_.as_map()[info.struct_id],
                                fm.enum_.as_map()[info.struct_id],
                                info,
                                strategy,
                            )))
                        })
                    }
}

/// Submodule membership has been derived: exactly what
/// `register_submodules` ensures of its module tree.
pub open spec fn submodules_derived(pre: OrderedMap<Module>, post: OrderedMap<Module>) -> bool {
    &&& post.spec_len() == pre.spec_len()
    &&& forall|j: int|
                0 <= j < pre.spec_len() ==> post.spec_key(j) == pre.spec_key(j)
    &&& forall|j: int| 0 <= j < pre.spec_len()
                ==> (#[trigger] post.spec_val(j)).name == pre.spec_val(j).name
                && post.spec_val(j).default_module_name == pre.spec_val(j).default_module_name
                && post.spec_val(j).doc == pre.spec_val(j).doc
                && post.spec_val(j).imports == pre.spec_val(j).imports
                && post.spec_val(j).class == pre.spec_val(j).class
                && post.spec_val(j).enum_ == pre.spec_val(j).enum_
                && post.spec_val(j).function == pre.spec_val(j).function
                && post.spec_val(j).variables == pre.spec_val(j).variables
    &&& forall|j: int, k: Seq<char>| 0 <= j < pre.spec_len()
                ==> ((#[trigger] post.spec_val(j).submodules.contains_spec(k))
                    <==> pre.spec_val(j).submodules.contains_spec(k) || (exists|c: int|
                        0 <= c < pre.spec_len()
                        && last_dot(#[trigger] pre.spec_key(c)) >= 0
                        && parent_of(pre.spec_key(c)) == pre.spec_key(j)
                        && child_of(pre.spec_key(c)) == k))
}

/// Whether a methods-block's identity key matches no registered class
/// or enum shape anywhere in the tree.
pub open spec fn no_shape_for(m: OrderedMap<Module>, sid: u64) -> bool {
    forall|j: int|
        0 <= j < m.spec_len() ==> !(#[trigger] m.spec_val(j)).class.contains_spec(sid)
            && !m.spec_val(j).enum_.contains_spec(sid)
}

/// The module tree after every class-shape descriptor of `infos` has
/// been inserted, in order.
pub open spec fn classes_folded(
    m0: OrderedMap<Module>,
    m1: OrderedMap<Module>,
    infos: Seq<PyClassInfo>,
    default: Seq<char>,
) -> bool
    decreases infos.len(),
{
    if infos.len() == 0 {
        m1 == m0
    } else {
        exists|mid: OrderedMap<Module>|
            #![auto]
            classes_folded(m0, mid, infos.drop_last(), default) && class_added(
                mid,
                m1,
                infos.last(),
                default,
            )
    }
}

/// The module tree after every tagged-enum shape descriptor of `infos`
/// has been inserted, in order.
pub open spec fn complex_enums_folded(
    m0: OrderedMap<Module>,
    m1: OrderedMap<Module>,
    infos: Seq<PyComplexEnumInfo>,
    default: Seq<char>,
    strategy: SelfImportStrategy,
) -> bool
    decreases infos.len(),
{
    if infos.len() == 0 {
        m1 == m0
    } else {
        exists|mid: OrderedMap<Module>|
            #![auto]
            complex_enums_folded(m0, mid, infos.drop_last(), default, strategy)
                && complex_enum_added(mid, m1, infos.last(), default, strategy)
    }
}

/// The module tree after every plain-enum shape descriptor of `infos`
/// has been inserted, in order.
pub open spec fn enums_folded(
    m0: OrderedMap<Module>,
    m1: OrderedMap<Module>,
    infos: Seq<PyEnumInfo>,
    default: Seq<char>,
) -> bool
    decreases infos.len(),
{
    if infos.len() == 0 {
        m1 == m0
    } else {
        exists|mid: OrderedMap<Module>|
            #![auto]
            enums_folded(m0, mid, infos.drop_last(), default) && enum_added(
                mid,
                m1,
                infos.last(),
                default,
            )
    }
}

/// The module tree after every function descriptor of `infos` has been
/// appended, in order.
pub open spec fn functions_folded(
    m0: OrderedMap<Module>,
    m1: OrderedMap<Module>,
    infos: Seq<PyFunctionInfo>,
    default: Seq<char>,
) -> bool
    decreases infos.len(),
{
    if infos.len() == 0 {
        m1 == m0
    } else {
        exists|mid: OrderedMap<Module>|
            #![auto]
            functions_folded(m0, mid, infos.drop_last(), default) && function_added(
                mid,
                m1,
                infos.last(),
                default,
            )
    }
}

/// The module tree after every variable descriptor of `infos` has been
/// inserted, in order.
pub open spec fn variables_folded(
    m0: OrderedMap<Module>,
    m1: OrderedMap<Module>,
    infos: Seq<PyVariableInfo>,
) -> bool
    decreases infos.len(),
{
    if infos.len() == 0 {
        m1 == m0
    } else {
        exists|mid: OrderedMap<Module>|
            #![auto]
            variables_folded(m0, mid, infos.drop_last()) && variable_added(mid, m1, infos.last())
    }
}

/// The module tree after every module-doc descriptor of `infos` has
/// been recorded, in order.
pub open spec fn module_docs_folded(
    m0: OrderedMap<Module>,
    m1: OrderedMap<Module>,
    infos: Seq<crate::registry::ModuleDocInfo>,
) -> bool
    decreases infos.len(),
{
    if infos.len() == 0 {
        m1 == m0
    } else {
        exists|mid: OrderedMap<Module>|
            #![auto]
            module_docs_folded(m0, mid, infos.drop_last()) && module_doc_added(
                mid,
                m1,
                infos.last(),
            )
    }
}

/// The module tree after every methods-block descriptor of `infos` has
/// been joined, in order.
pub open spec fn methods_folded(
    m0: OrderedMap<Module>,
    m1: OrderedMap<Module>,
    infos: Seq<PyMethodsInfo>,
    strategy: SelfImportStrategy,
) -> bool
    decreases infos.len(),
{
    if infos.len() == 0 {
        m1 == m0
    } else {
        exists|mid: OrderedMap<Module>|
            #![auto]
            methods_folded(m0, mid, infos.drop_last(), strategy) && methods_joined(
                mid,
                m1,
                infos.last(),
                strategy,
            )
    }
}

/// The whole shape pass: every class, tagged enum, plain enum, function,
/// variable and module-doc descriptor of the registry inserted into the
/// tree, pass after pass.
pub open spec fn shape_passes_folded(
    m0: OrderedMap<Module>,
    m_out: OrderedMap<Module>,
    reg: Registry,
    default: Seq<char>,
    strategy: SelfImportStrategy,
) -> bool {
    exists|
        m1: OrderedMap<Module>,
        m2: OrderedMap<Module>,
        m3: OrderedMap<Module>,
        m4: OrderedMap<Module>,
        m5: OrderedMap<Module>,
    |
        #![auto]
        {
            &&& classes_folded(m0, m1, reg.classes@, default)
            &&& complex_enums_folded(m1, m2, reg.complex_enums@, default, strategy)
            &&& enums_folded(m2, m3, reg.enums@, default)
            &&& functions_folded(m3, m4, reg.functions@, default)
            &&& variables_folded(m4, m5, reg.variables@)
            &&& module_docs_folded(m5, m_out, reg.module_docs@)
        }
}

/// Everything `build` promises: on success the result is the registry
/// consumed in full — the shape passes, then every methods block joined,
/// then submodules derived once; on failure, the shape passes completed,
/// the methods blocks up to some position were joined, and that
/// position's block names an identity key with no registered shape,
/// which the error carries.
pub open spec fn build_post(
    b: StubInfoBuilder,
    registry: Registry,
    r: Result<StubInfo, BuildError>,
) -> bool {
    match r {
        Ok(s) => {
            &&& s.python_root == b.python_root
            &&& s.modules.wf()
            &&& (forall|i: int|
                0 <= i < s.modules.spec_len() ==> (#[trigger] s.modules.spec_val(i)).wf()
                    && s.modules.spec_val(i).name@ == s.modules.spec_key(i))
            &&& exists|m_shape: OrderedMap<Module>, m_joined: OrderedMap<Module>|
                #![auto]
                {
                    &&& shape_passes_folded(
                        b.modules,
                        m_shape,
                        registry,
                        b.default_module_name@,
                        b.strategy,
                    )
                    &&& methods_folded(m_shape, m_joined, registry.methods@, b.strategy)
                    &&& submodules_derived(m_joined, s.modules)
                }
        },
        Err(e) => exists|m_shape: OrderedMap<Module>, t: int, mid: OrderedMap<Module>|
            #![auto]
            {
                &&& shape_passes_folded(
                    b.modules,
                    m_shape,
                    registry,
                    b.default_module_name@,
                    b.strategy,
                )
                &&& 0 <= t < registry.methods@.len()
                &&& methods_folded(m_shape, mid, registry.methods@.take(t), b.strategy)
                &&& no_shape_for(mid, registry.methods@[t].struct_id)
                &&& e == BuildError::MissingTypeShape(registry.methods@[t].struct_id)
            },
    }
}

/// The hosting project's metadata, as far as a generation run reads it:
/// the default module name, where stub files go, and the minimum
/// supported runtime version constraint.
pub struct PyProject {
    pub module_name: String,
    pub python_source: Option<String>,
    pub requires_python: Option<String>,
}

/// One stub unit, ready to be written: its destination path below the
/// output root, and its text.
pub struct StubFile {
    pub path: String,
    pub content: String,
}

impl StubInfoBuilder {
    /// A builder rooted at an explicit module name and output root; the
    /// self-import strategy stays at its default, the newer spelling.
    pub fn from_project_root(default_module_name: String, project_root: String) -> (r: Self)
        ensures
            r.wf(),
            r.modules.spec_len() == 0,
            r.default_module_name == default_module_name,
            r.python_root == project_root,
            r.strategy == SelfImportStrategy::Typing,
    {
        StubInfoBuilder {
            modules: OrderedMap::new(),
            default_module_name,
            python_root: project_root,
            strategy: SelfImportStrategy::Typing,
        }
    }

    /// A builder configured from project metadata: the self-import
    /// strategy follows the minimum-supported-runtime-version
    /// constraint, and the output root is the declared source directory,
    /// or the place the caller resolved when none is declared.
    pub fn from_pyproject_toml(pyproject: PyProject) -> (r: Self)
        ensures
            r.wf(),
            r.modules.spec_len() == 0,
            r.default_module_name == pyproject.module_name,
            r.strategy == crate::version::spec_strategy_for(
                match pyproject.requires_python {
                    Some(s) => Some(s@),
                    None => None,
                },
            ),
            r.python_root@ == (match pyproject.python_source {
                Some(p) => p@,
                None => Seq::<char>::empty(),
            }),
    {
        let PyProject { module_name, python_source, requires_python } = pyproject;
        let strategy = crate::version::configure_self_import_strategy_from_requires_python(
            match &requires_python {
                Some(s) => Some(s.as_str()),
                None => None,
            },
        );
        let root = match python_source {
            Some(p) => p,
            None => String::new(),
        };
        StubInfoBuilder {
            modules: OrderedMap::new(),
            default_module_name: module_name,
            python_root: root,
            strategy,
        }
    }

    /// Consumes a registry snapshot: the shape pass inserts every class,
    /// tagged enum, plain enum, function, variable and module doc, the
    /// behavior pass joins every methods block, and submodule membership
    /// is derived last. A methods block without a matching shape aborts
    /// the whole build; the error carries its identity key, and failure
    /// happens in no other case. `build_post` states the whole of it.
    pub fn build(self, registry: Registry) -> (r: Result<StubInfo, BuildError>)
        requires
            self.wf(),
        ensures
            match r {
                Ok(s) => s.modules.wf() && s.python_root == self.python_root && (forall|i: int|
                    0 <= i < s.modules.spec_len() ==> (#[trigger] s.modules.spec_val(i)).wf()
                        && s.modules.spec_val(i).name@ == s.modules.spec_key(i)) && (forall|ci: int|
                    0 <= ci < registry.classes@.len() ==> tree_has_class(
                        s.modules,
                        (#[trigger] registry.classes@[ci]).struct_id,
                    )),
                Err(e) => e is MissingTypeShape,
            },
            build_post(self, registry, r),
    {
        let ghost orig = self;
        let ghost greg = registry;
        let mut b = self;
        let Registry { classes, complex_enums, enums, functions, variables, module_docs, methods } =
            registry;
        let mut classes = classes;
        let ghost mut gi: int = 0;
        proof {
            assert(greg.classes@.take(0) =~= Seq::<PyClassInfo>::empty());
            assert(classes_folded(
                orig.modules,
                b.modules,
                greg.classes@.take(0),
                orig.default_module_name@,
            ));
        }
        while classes.len() > 0
            invariant
                0 <= gi <= greg.classes@.len(),
                classes@ =~= greg.classes@.skip(gi),
                b.wf(),
                orig.same_config(b),
                forall|ci: int|
                    0 <= ci < gi ==> tree_has_class(
                        b.modules,
                        (#[trigger] greg.classes@[ci]).struct_id,
                    ),
                classes_folded(
                    orig.modules,
                    b.modules,
                    greg.classes@.take(gi),
                    orig.default_module_name@,
                ),
            decreases classes@.len(),
        {
            let info = classes.remove(0);
            let ghost ginfo = info;
            let ghost pre = b;
            proof {
                assert(ginfo == greg.classes@[gi]);
                assert(classes@ =~= greg.classes@.skip(gi + 1));
            }
            b.add_class(info);
            proof {
                let tm = target_name(opt_view(ginfo.module), pre.default_module_name@);
                let fmap = b.modules.as_map();
                lemma_builder_module_wf(b, tm);
                b.modules.lemma_contains_iff_key();
                pre.modules.lemma_contains_iff_key();
                fmap[tm].class.lemma_contains_iff_key();
                lemma_class_insert_gives_tree(b.modules, tm, ginfo.struct_id);
                assert forall|ci: int|
                    0 <= ci < gi + 1 implies tree_has_class(
                    b.modules,
                    (#[trigger] greg.classes@[ci]).struct_id,
                ) by {
                    if ci < gi {
                        let id = greg.classes@[ci].struct_id;
                        if pre.modules.as_map().contains_key(tm)
                            && pre.modules.as_map()[tm].class.contains_spec(id) {
                            lemma_builder_module_wf(pre, tm);
                            lemma_idmap_insert_keeps(
                                pre.modules.as_map()[tm].class,
                                fmap[tm].class,
                                ginfo.struct_id,
                                id,
                            );
                        }
                        lemma_tree_has_class_preserved(pre.modules, b.modules, tm, id);
                    }
                }
                assert(class_added(pre.modules, b.modules, ginfo, orig.default_module_name@));
                assert(greg.classes@.take(gi + 1).drop_last() =~= greg.classes@.take(gi));
                assert(greg.classes@.take(gi + 1).last() == greg.classes@[gi]);
                assert(classes_folded(
                    orig.modules,
                    b.modules,
                    greg.classes@.take(gi + 1),
                    orig.default_module_name@,
                ));
                gi = gi + 1;
            }
        }
        let ghost m_c1 = b.modules;
        proof {
            assert(greg.classes@.take(greg.classes@.len() as int) =~= greg.classes@);
            assert(classes_folded(orig.modules, m_c1, greg.classes@, orig.default_module_name@));
        }
        let mut complex_enums = complex_enums;
        let ghost mut g2: int = 0;
        proof {
            assert(greg.complex_enums@.take(0) =~= Seq::<PyComplexEnumInfo>::empty());
            assert(complex_enums_folded(m_c1, b.modules, greg.complex_enums@.take(0), orig.default_module_name@, orig.strategy));
        }
        while complex_enums.len() > 0
            invariant
                0 <= g2 <= greg.complex_enums@.len(),
                complex_enums@ =~= greg.complex_enums@.skip(g2),
                b.wf(),
                orig.same_config(b),
                forall|ci: int|
                    0 <= ci < greg.classes@.len() ==> tree_has_class(
                        b.modules,
                        (#[trigger] greg.classes@[ci]).struct_id,
                    ),
                complex_enums_folded(m_c1, b.modules, greg.complex_enums@.take(g2), orig.default_module_name@, orig.strategy),
            decreases complex_enums@.len(),
        {
            let info = complex_enums.remove(0);
            let ghost ginfo = info;
            let ghost pre = b;
            proof {
                assert(ginfo == greg.complex_enums@[g2]);
                assert(complex_enums@ =~= greg.complex_enums@.skip(g2 + 1));
            }
            b.add_complex_enum(info);
            proof {
                let tm = target_name(opt_view(ginfo.module), pre.default_module_name@);
                let fmap = b.modules.as_map();
                b.modules.lemma_contains_iff_key();
                pre.modules.lemma_contains_iff_key();
                assert forall|ci: int|
                    0 <= ci < greg.classes@.len() implies tree_has_class(
                    b.modules,
                    (#[trigger] greg.classes@[ci]).struct_id,
                ) by {
                    let id = greg.classes@[ci].struct_id;
                    if pre.modules.as_map().contains_key(tm)
                        && pre.modules.as_map()[tm].class.contains_spec(id) {
                        lemma_builder_module_wf(pre, tm);
                        lemma_builder_module_wf(b, tm);
                        fmap[tm].class.lemma_contains_iff_key();
                        lemma_idmap_insert_keeps(
                            pre.modules.as_map()[tm].class,
                            fmap[tm].class,
                            ginfo.enum_id,
                            id,
                        );
                    }
                    lemma_tree_has_class_preserved(pre.modules, b.modules, tm, id);
                }
                assert(complex_enum_added(pre.modules, b.modules, ginfo, orig.default_module_name@, orig.strategy));
                assert(greg.complex_enums@.take(g2 + 1).drop_last() =~= greg.complex_enums@.take(g2));
                assert(greg.complex_enums@.take(g2 + 1).last() == greg.complex_enums@[g2]);
                assert(complex_enums_folded(m_c1, b.modules, greg.complex_enums@.take(g2 + 1), orig.default_module_name@, orig.strategy));
                g2 = g2 + 1;
            }
        }
        let ghost m_c2 = b.modules;
        proof {
            assert(greg.complex_enums@.take(greg.complex_enums@.len() as int) =~= greg.complex_enums@);
            assert(complex_enums_folded(m_c1, m_c2, greg.complex_enums@, orig.default_module_name@, orig.strategy));
        }
        let mut enums = enums;
        let ghost mut g3: int = 0;
        proof {
            assert(greg.enums@.take(0) =~= Seq::<PyEnumInfo>::empty());
            assert(enums_folded(m_c2, b.modules, greg.enums@.take(0), orig.default_module_name@));
        }
        while enums.len() > 0
            invariant
                0 <= g3 <= greg.enums@.len(),
                enums@ =~= greg.enums@.skip(g3),
                b.wf(),
                orig.same_config(b),
                forall|ci: int|
                    0 <= ci < greg.classes@.len() ==> tree_has_class(
                        b.modules,
                        (#[trigger] greg.classes@[ci]).struct_id,
                    ),
                enums_folded(m_c2, b.modules, greg.enums@.take(g3), orig.default_module_name@),
            decreases enums@.len(),
        {
            let info = enums.remove(0);
            let ghost ginfo = info;
            let ghost pre = b;
            proof {
                assert(ginfo == greg.enums@[g3]);
                assert(enums@ =~= greg.enums@.skip(g3 + 1));
            }
            b.add_enum(info);
            proof {
                let tm = target_name(opt_view(ginfo.module), pre.default_module_name@);
                let fmap = b.modules.as_map();
                b.modules.lemma_contains_iff_key();
                pre.modules.lemma_contains_iff_key();
                assert forall|ci: int|
                    0 <= ci < greg.classes@.len() implies tree_has_class(
                    b.modules,
                    (#[trigger] greg.classes@[ci]).struct_id,
                ) by {
                    let id = greg.classes@[ci].struct_id;
                    if pre.modules.as_map().contains_key(tm)
                        && pre.modules.as_map()[tm].class.contains_spec(id) {
                        lemma_builder_module_wf(pre, tm);
                        lemma_builder_module_wf(b, tm);
                        assert(fmap[tm].class == pre.modules.as_map()[tm].class);
                    }
                    lemma_tree_has_class_preserved(pre.modules, b.modules, tm, id);
                }
                assert(enum_added(pre.modules, b.modules, ginfo, orig.default_module_name@));
                assert(greg.enums@.take(g3 + 1).drop_last() =~= greg.enums@.take(g3));
                assert(greg.enums@.take(g3 + 1).last() == greg.enums@[g3]);
                assert(enums_folded(m_c2, b.modules, greg.enums@.take(g3 + 1), orig.default_module_name@));
                g3 = g3 + 1;
            }
        }
        let ghost m_c3 = b.modules;
        proof {
            assert(greg.enums@.take(greg.enums@.len() as int) =~= greg.enums@);
            assert(enums_folded(m_c2, m_c3, greg.enums@, orig.default_module_name@));
        }
        let mut functions = functions;
        let ghost mut g4: int = 0;
        proof {
            assert(greg.functions@.take(0) =~= Seq::<PyFunctionInfo>::empty());
            assert(functions_folded(m_c3, b.modules, greg.functions@.take(0), orig.default_module_name@));
        }
        while functions.len() > 0
            invariant
                0 <= g4 <= greg.functions@.len(),
                functions@ =~= greg.functions@.skip(g4),
                b.wf(),
                orig.same_config(b),
                forall|ci: int|
                    0 <= ci < greg.classes@.len() ==> tree_has_class(
                        b.modules,
                        (#[trigger] greg.classes@[ci]).struct_id,
                    ),
                functions_folded(m_c3, b.modules, greg.functions@.take(g4), orig.default_module_name@),
            decreases functions@.len(),
        {
            let info = functions.remove(0);
            let ghost ginfo = info;
            let ghost pre = b;
            proof {
                assert(ginfo == greg.functions@[g4]);
                assert(functions@ =~= greg.functions@.skip(g4 + 1));
            }
            b.add_function(info);
            proof {
                let tm = target_name(opt_view(ginfo.module), pre.default_module_name@);
                let fmap = b.modules.as_map();
                b.modules.lemma_contains_iff_key();
                pre.modules.lemma_contains_iff_key();
                assert forall|ci: int|
                    0 <= ci < greg.classes@.len() implies tree_has_class(
                    b.modules,
                    (#[trigger] greg.classes@[ci]).struct_id,
                ) by {
                    let id = greg.classes@[ci].struct_id;
                    if pre.modules.as_map().contains_key(tm)
                        && pre.modules.as_map()[tm].class.contains_spec(id) {
                        lemma_builder_module_wf(pre, tm);
                        lemma_builder_module_wf(b, tm);
                        assert(fmap[tm].class == pre.modules.as_map()[tm].class);
                    }
                    lemma_tree_has_class_preserved(pre.modules, b.modules, tm, id);
                }
                assert(function_added(pre.modules, b.modules, ginfo, orig.default_module_name@));
                assert(greg.functions@.take(g4 + 1).drop_last() =~= greg.functions@.take(g4));
                assert(greg.functions@.take(g4 + 1).last() == greg.functions@[g4]);
                assert(functions_folded(m_c3, b.modules, greg.functions@.take(g4 + 1), orig.default_module_name@));
                g4 = g4 + 1;
            }
        }
        let ghost m_c4 = b.modules;
        proof {
            assert(greg.functions@.take(greg.functions@.len() as int) =~= greg.functions@);
            assert(functions_folded(m_c3, m_c4, greg.functions@, orig.default_module_name@));
        }
        let mut variables = variables;
        let ghost mut g5: int = 0;
        proof {
            assert(greg.variables@.take(0) =~= Seq::<PyVariableInfo>::empty());
            assert(variables_folded(m_c4, b.modules, greg.variables@.take(0)));
        }
        while variables.len() > 0
            invariant
                0 <= g5 <= greg.variables@.len(),
                variables@ =~= greg.variables@.skip(g5),
                b.wf(),
                orig.same_config(b),
                forall|ci: int|
                    0 <= ci < greg.classes@.len() ==> tree_has_class(
                        b.modules,
                        (#[trigger] greg.classes@[ci]).struct_id,
                    ),
                variables_folded(m_c4, b.modules, greg.variables@.take(g5)),
            decreases variables@.len(),
        {
            let info = variables.remove(0);
            let ghost ginfo = info;
            let ghost pre = b;
            proof {
                assert(ginfo == greg.variables@[g5]);
                assert(variables@ =~= greg.variables@.skip(g5 + 1));
            }
            b.add_variable(info);
            proof {
                let tm = ginfo.module@;
                let fmap = b.modules.as_map();
                b.modules.lemma_contains_iff_key();
                pre.modules.lemma_contains_iff_key();
                assert forall|ci: int|
                    0 <= ci < greg.classes@.len() implies tree_has_class(
                    b.modules,
                    (#[trigger] greg.classes@[ci]).struct_id,
                ) by {
                    let id = greg.classes@[ci].struct_id;
                    if pre.modules.as_map().contains_key(tm)
                        && pre.modules.as_map()[tm].class.contains_spec(id) {
                        lemma_builder_module_wf(pre, tm);
                        lemma_builder_module_wf(b, tm);
                        assert(fmap[tm].class == pre.modules.as_map()[tm].class);
                    }
                    lemma_tree_has_class_preserved(pre.modules, b.modules, tm, id);
                }
                assert(variable_added(pre.modules, b.modules, ginfo));
                assert(greg.variables@.take(g5 + 1).drop_last() =~= greg.variables@.take(g5));
                assert(greg.variables@.take(g5 + 1).last() == greg.variables@[g5]);
                assert(variables_folded(m_c4, b.modules, greg.variables@.take(g5 + 1)));
                g5 = g5 + 1;
            }
        }
        let ghost m_c5 = b.modules;
        proof {
            assert(greg.variables@.take(greg.variables@.len() as int) =~= greg.variables@);
            assert(variables_folded(m_c4, m_c5, greg.variables@));
        }
        let mut module_docs = module_docs;
        let ghost mut g6: int = 0;
        proof {
            assert(greg.module_docs@.take(0) =~= Seq::<crate::registry::ModuleDocInfo>::empty());
            assert(module_docs_folded(m_c5, b.modules, greg.module_docs@.take(0)));
        }
        while module_docs.len() > 0
            invariant
                0 <= g6 <= greg.module_docs@.len(),
                module_docs@ =~= greg.module_docs@.skip(g6),
                b.wf(),
                orig.same_config(b),
                forall|ci: int|
                    0 <= ci < greg.classes@.len() ==> tree_has_class(
                        b.modules,
                        (#[trigger] greg.classes@[ci]).struct_id,
                    ),
                module_docs_folded(m_c5, b.modules, greg.module_docs@.take(g6)),
            decreases module_docs@.len(),
        {
            let info = module_docs.remove(0);
            let ghost ginfo = info;
            let ghost pre = b;
            proof {
                assert(ginfo == greg.module_docs@[g6]);
                assert(module_docs@ =~= greg.module_docs@.skip(g6 + 1));
            }
            b.add_module_doc(info);
            proof {
                let tm = ginfo.module@;
                let fmap = b.modules.as_map();
                b.modules.lemma_contains_iff_key();
                pre.modules.lemma_contains_iff_key();
                assert forall|ci: int|
                    0 <= ci < greg.classes@.len() implies tree_has_class(
                    b.modules,
                    (#[trigger] greg.classes@[ci]).struct_id,
                ) by {
                    let id = greg.classes@[ci].struct_id;
                    if pre.modules.as_map().contains_key(tm)
                        && pre.modules.as_map()[tm].class.contains_spec(id) {
                        lemma_builder_module_wf(pre, tm);
                        lemma_builder_module_wf(b, tm);
                        assert(fmap[tm].class == pre.modules.as_map()[tm].class);
                    }
                    lemma_tree_has_class_preserved(pre.modules, b.modules, tm, id);
                }
                assert(module_doc_added(pre.modules, b.modules, ginfo));
                assert(greg.module_docs@.take(g6 + 1).drop_last() =~= greg.module_docs@.take(g6));
                assert(greg.module_docs@.take(g6 + 1).last() == greg.module_docs@[g6]);
                assert(module_docs_folded(m_c5, b.modules, greg.module_docs@.take(g6 + 1)));
                g6 = g6 + 1;
            }
        }
        let ghost m_shape = b.modules;
        proof {
            assert(greg.module_docs@.take(greg.module_docs@.len() as int) =~= greg.module_docs@);
            assert(module_docs_folded(m_c5, m_shape, greg.module_docs@));
        }
        let mut methods = methods;
        let ghost mut g7: int = 0;
        proof {
            assert(greg.methods@.take(0) =~= Seq::<PyMethodsInfo>::empty());
            assert(methods_folded(m_shape, b.modules, greg.methods@.take(0), orig.strategy));
        }
        while methods.len() > 0
            invariant
                orig == self,
                greg == registry,
                0 <= g7 <= greg.methods@.len(),
                methods@ =~= greg.methods@.skip(g7),
                b.wf(),
                orig.same_config(b),
                forall|ci: int|
                    0 <= ci < greg.classes@.len() ==> tree_has_class(
                        b.modules,
                        (#[trigger] greg.classes@[ci]).struct_id,
                    ),
                methods_folded(m_shape, b.modules, greg.methods@.take(g7), orig.strategy),
                classes_folded(orig.modules, m_c1, greg.classes@, orig.default_module_name@),
                complex_enums_folded(
                    m_c1,
                    m_c2,
                    greg.complex_enums@,
                    orig.default_module_name@,
                    orig.strategy,
                ),
                enums_folded(m_c2, m_c3, greg.enums@, orig.default_module_name@),
                functions_folded(m_c3, m_c4, greg.functions@, orig.default_module_name@),
                variables_folded(m_c4, m_c5, greg.variables@),
                module_docs_folded(m_c5, m_shape, greg.module_docs@),
            decreases methods@.len(),
        {
            let info = methods.remove(0);
            let ghost ginfo = info;
            let ghost pre = b;
            proof {
                assert(ginfo == greg.methods@[g7]);
                assert(methods@ =~= greg.methods@.skip(g7 + 1));
            }
            match b.add_methods(info) {
                Ok(()) => {
                    proof {
                        lemma_methods_step_keeps_classes(pre, b);
                        assert forall|ci: int|
                            0 <= ci < greg.classes@.len() implies tree_has_class(
                            b.modules,
                            (#[trigger] greg.classes@[ci]).struct_id,
                        ) by {
                            assert(tree_has_class(pre.modules, greg.classes@[ci].struct_id));
                        }
                        assert(methods_joined(pre.modules, b.modules, ginfo, orig.strategy));
                        assert(greg.methods@.take(g7 + 1).drop_last() =~= greg.methods@.take(g7));
                        assert(greg.methods@.take(g7 + 1).last() == greg.methods@[g7]);
                        assert(methods_folded(
                            m_shape,
                            b.modules,
                            greg.methods@.take(g7 + 1),
                            orig.strategy,
                        ));
                        g7 = g7 + 1;
                    }
                },
                Err(e) => {
                    proof {
                        assert(b == pre);
                        assert(no_shape_for(pre.modules, ginfo.struct_id));
                        lemma_shape_passes_intro(
                            orig.modules,
                            m_c1,
                            m_c2,
                            m_c3,
                            m_c4,
                            m_c5,
                            m_shape,
                            greg,
                            orig.default_module_name@,
                            orig.strategy,
                        );
                        lemma_build_post_err_intro(orig, greg, e, m_shape, g7, pre.modules);
                    }
                    return Err(e);
                },
            }
        }
        let ghost before_subs = b;
        b.register_submodules();
        proof {
            assert forall|ci: int|
                0 <= ci < greg.classes@.len() implies tree_has_class(
                b.modules,
                (#[trigger] greg.classes@[ci]).struct_id,
            ) by {
                let id = greg.classes@[ci].struct_id;
                let j = choose|j: int|
                    0 <= j < before_subs.modules.spec_len() && (
                    #[trigger] before_subs.modules.spec_val(j)).class.contains_spec(id);
                assert(b.modules.spec_val(j).class == before_subs.modules.spec_val(j).class);
                assert(b.modules.spec_val(j).class.contains_spec(id));
            }
            assert(submodules_derived(before_subs.modules, b.modules));
            assert(greg.methods@.take(greg.methods@.len() as int) =~= greg.methods@);
            assert(methods_folded(m_shape, before_subs.modules, greg.methods@, orig.strategy));
            lemma_shape_passes_intro(
                orig.modules,
                m_c1,
                m_c2,
                m_c3,
                m_c4,
                m_c5,
                m_shape,
                greg,
                orig.default_module_name@,
                orig.strategy,
            );
        }
        let result = StubInfo { modules: b.modules, python_root: b.python_root };
        proof {
            lemma_build_post_ok_intro(orig, greg, result, m_shape, before_subs.modules);
        }
        Ok(result)
    }
}

impl StubInfo {
    /// Builds the module tree from project metadata and a registry
    /// snapshot: the result is a build from an empty tree under the
    /// project's module name, source root and version-gated self-import
    /// strategy, with `build`'s full postcondition.
    pub fn from_pyproject_toml(pyproject: PyProject, registry: Registry) -> (r: Result<
        StubInfo,
        BuildError,
    >)
        ensures
            r is Ok ==> r.unwrap().modules.wf(),
            exists|b: StubInfoBuilder|
                #![auto]
                {
                    &&& b.wf()
                    &&& b.modules.spec_len() == 0
                    &&& b.default_module_name == pyproject.module_name
                    &&& b.python_root@ == (match pyproject.python_source {
                        Some(p) => p@,
                        None => Seq::<char>::empty(),
                    })
                    &&& b.strategy == crate::version::spec_strategy_for(
                        match pyproject.requires_python {
                            Some(s) => Some(s@),
                            None => None,
                        },
                    )
                    &&& build_post(b, registry, r)
                },
    {
        let bd = StubInfoBuilder::from_pyproject_toml(pyproject);
        let ghost gb = bd;
        let r = bd.build(registry);
        proof {
            assert(build_post(gb, registry, r));
        }
        r
    }

    /// Builds the module tree from an explicit module name and output
    /// root and a registry snapshot: the result is a build from an empty
    /// tree under that name and root with the default self-import
    /// strategy, with `build`'s full postcondition.
    pub fn from_project_root(
        default_module_name: String,
        project_root: String,
        registry: Registry,
    ) -> (r: Result<StubInfo, BuildError>)
        ensures
            r is Ok ==> r.unwrap().modules.wf(),
            exists|b: StubInfoBuilder|
                #![auto]
                {
                    &&& b.wf()
                    &&& b.modules.spec_len() == 0
                    &&& b.default_module_name == default_module_name
                    &&& b.python_root == project_root
                    &&& b.strategy == SelfImportStrategy::Typing
                    &&& build_post(b, registry, r)
                },
    {
        let bd = StubInfoBuilder::from_project_root(default_module_name, project_root);
        let ghost gb = bd;
        let r = bd.build(registry);
        proof {
            assert(build_post(gb, registry, r));
        }
        r
    }

    /// Renders every module into its stub unit: the destination path
    /// derived from the dotted name, and the module's full text.
    pub fn stub_files(&self) -> (r: Vec<StubFile>)
        ensures
            r@.len() == self.modules.spec_len(),
            forall|i: int|
                0 <= i < r@.len() ==> (#[trigger] r@[i]).path@ == crate::render::spec_dest_of(
                    self.python_root@,
                    self.modules.spec_val(i),
                ) && r@[i].content@ == crate::render::spec_module_text(self.modules.spec_val(i)),
    {
        let mut r: Vec<StubFile> = Vec::new();
        let n = self.modules.len();
        let mut i: usize = 0;
        while i < n
            invariant
                0 <= i <= n,
                n == self.modules.spec_len(),
                r@.len() == i,
                forall|j: int|
                    0 <= j < i ==> (#[trigger] r@[j]).path@ == crate::render::spec_dest_of(
                        self.python_root@,
                        self.modules.spec_val(j),
                    ) && r@[j].content@ == crate::render::spec_module_text(
                        self.modules.spec_val(j),
                    ),
            decreases n - i,
        {
            let m = self.modules.value_at(i);
            let path = crate::render::dest_of(&self.python_root, m);
            let content = crate::render::render_module(m);
            r.push(StubFile { path, content });
            i = i + 1;
        }
        r
    }
}

/// Whether some module of the tree holds a class under this identity
/// key.
pub open spec fn tree_has_class(mm: OrderedMap<Module>, id: u64) -> bool {
    exists|j: int| 0 <= j < mm.spec_len() && (#[trigger] mm.spec_val(j)).class.contains_spec(id)
}

/// A class survives any operation that only remaps one module, as long
/// as that module's own class entry for the key survives.
proof fn lemma_tree_has_class_preserved(
    m0: OrderedMap<Module>,
    m1: OrderedMap<Module>,
    tm: Seq<char>,
    id: u64,
)
    requires
        m0.wf(),
        m1.wf(),
        m1.as_map().contains_key(tm),
        m1.as_map() == m0.as_map().insert(tm, m1.as_map()[tm]),
        tree_has_class(m0, id),
        (m0.as_map().contains_key(tm) && m0.as_map()[tm].class.contains_spec(id))
            ==> m1.as_map()[tm].class.contains_spec(id),
    ensures
        tree_has_class(m1, id),
{
    m0.lemma_contains_iff_key();
    m1.lemma_contains_iff_key();
    let j = choose|j: int|
        0 <= j < m0.spec_len() && (#[trigger] m0.spec_val(j)).class.contains_spec(id);
    let kj = m0.spec_key(j);
    m0.lemma_view(j);
    if kj == tm {
        assert(m1.as_map()[tm].class.contains_spec(id));
        assert(m1.contains_spec(tm));
        let w = choose|w: int| 0 <= w < m1.spec_len() && m1.spec_key(w) == tm;
        m1.lemma_view(w);
        assert(m1.spec_val(w).class.contains_spec(id));
    } else {
        assert(m1.as_map()[kj] == m0.as_map()[kj]);
        assert(m1.as_map().contains_key(kj));
        assert(m1.contains_spec(kj));
        let w = choose|w: int| 0 <= w < m1.spec_len() && m1.spec_key(w) == kj;
        m1.lemma_view(w);
        assert(m1.spec_val(w).class.contains_spec(id));
    }
}

/// Inserting into one identity-keyed map keeps every key it held.
proof fn lemma_idmap_insert_keeps(m0: IdMap<ClassDef>, m1: IdMap<ClassDef>, nk: u64, id: u64)
    requires
        m0.wf(),
        m1.wf(),
        m1.as_map().contains_key(nk),
        m1.as_map() == m0.as_map().insert(nk, m1.as_map()[nk]),
        m0.contains_spec(id),
    ensures
        m1.contains_spec(id),
{
    m0.lemma_contains_iff_key();
    m1.lemma_contains_iff_key();
    assert(m0.as_map().contains_key(id));
    assert(m1.as_map().contains_key(id));
}

/// Chains the six shape passes into one statement.
proof fn lemma_shape_passes_intro(
    m0: OrderedMap<Module>,
    m1: OrderedMap<Module>,
    m2: OrderedMap<Module>,
    m3: OrderedMap<Module>,
    m4: OrderedMap<Module>,
    m5: OrderedMap<Module>,
    m6: OrderedMap<Module>,
    reg: Registry,
    default: Seq<char>,
    strategy: SelfImportStrategy,
)
    requires
        classes_folded(m0, m1, reg.classes@, default),
        complex_enums_folded(m1, m2, reg.complex_enums@, default, strategy),
        enums_folded(m2, m3, reg.enums@, default),
        functions_folded(m3, m4, reg.functions@, default),
        variables_folded(m4, m5, reg.variables@),
        module_docs_folded(m5, m6, reg.module_docs@),
    ensures
        shape_passes_folded(m0, m6, reg, default, strategy),
{
}

/// Packages a successful build's pieces into its postcondition.
proof fn lemma_build_post_ok_intro(
    b: StubInfoBuilder,
    reg: Registry,
    s: StubInfo,
    m_shape: OrderedMap<Module>,
    m_joined: OrderedMap<Module>,
)
    requires
        s.python_root == b.python_root,
        s.modules.wf(),
        forall|i: int|
            0 <= i < s.modules.spec_len() ==> (#[trigger] s.modules.spec_val(i)).wf()
                && s.modules.spec_val(i).name@ == s.modules.spec_key(i),
        shape_passes_folded(b.modules, m_shape, reg, b.default_module_name@, b.strategy),
        methods_folded(m_shape, m_joined, reg.methods@, b.strategy),
        submodules_derived(m_joined, s.modules),
    ensures
        build_post(b, reg, Result::<StubInfo, BuildError>::Ok(s)),
{
}

/// Packages a failed build's pieces into its postcondition.
proof fn lemma_build_post_err_intro(
    b: StubInfoBuilder,
    reg: Registry,
    e: BuildError,
    m_shape: OrderedMap<Module>,
    t: int,
    mid: OrderedMap<Module>,
)
    requires
        shape_passes_folded(b.modules, m_shape, reg, b.default_module_name@, b.strategy),
        0 <= t < reg.methods@.len(),
        methods_folded(m_shape, mid, reg.methods@.take(t), b.strategy),
        no_shape_for(mid, reg.methods@[t].struct_id),
        e == BuildError::MissingTypeShape(reg.methods@[t].struct_id),
    ensures
        build_post(b, reg, Result::<StubInfo, BuildError>::Err(e)),
{
}

/// The module stored under a key is well-formed.
proof fn lemma_builder_module_wf(bd: StubInfoBuilder, tm: Seq<char>)
    requires
        bd.wf(),
        bd.modules.as_map().contains_key(tm),
    ensures
        bd.modules.as_map()[tm].wf(),
{
    bd.modules.lemma_contains_iff_key();
    let w = choose|w: int| 0 <= w < bd.modules.spec_len() && bd.modules.spec_key(w) == tm;
    bd.modules.lemma_view(w);
    assert(bd.modules.spec_val(w).wf());
}

/// A class just inserted under some module is in the tree.
proof fn lemma_class_insert_gives_tree(
    post: OrderedMap<Module>,
    tm: Seq<char>,
    nid: u64,
)
    requires
        post.wf(),
        post.as_map().contains_key(tm),
        post.as_map()[tm].class.wf(),
        post.as_map()[tm].class.as_map().contains_key(nid),
    ensures
        tree_has_class(post, nid),
{
    post.lemma_contains_iff_key();
    let w = choose|w: int| 0 <= w < post.spec_len() && post.spec_key(w) == tm;
    post.lemma_view(w);
    post.spec_val(w).class.lemma_contains_iff_key();
    assert(post.spec_val(w).class.contains_spec(nid));
}

/// Joining one methods block never removes a class from the tree: the
/// matched module keeps every class entry, and every other module is
/// untouched.
proof fn lemma_methods_step_keeps_classes(pre: StubInfoBuilder, post: StubInfoBuilder)
    requires
        pre.wf(),
        post.wf(),
        exists|tm: Seq<char>|
            #![auto]
            {
                &&& pre.modules.as_map().contains_key(tm)
                &&& post.modules.as_map() == pre.modules.as_map().insert(
                    tm,
                    post.modules.as_map()[tm],
                )
                &&& (post.modules.as_map()[tm].class == pre.modules.as_map()[tm].class || (exists|
                    sid: u64,
                |
                    #![auto]
                    pre.modules.as_map()[tm].class.contains_spec(sid)
                        && post.modules.as_map()[tm].class.as_map() == pre.modules.as_map()[tm].class.as_map().insert(
                        sid,
                        post.modules.as_map()[tm].class.as_map()[sid],
                    )))
            },
    ensures
        forall|id: u64|
            #[trigger] tree_has_class(pre.modules, id) ==> tree_has_class(post.modules, id),
{
    let tm = choose|tm: Seq<char>|
        #![auto]
        {
            &&& pre.modules.as_map().contains_key(tm)
            &&& post.modules.as_map() == pre.modules.as_map().insert(
                tm,
                post.modules.as_map()[tm],
            )
            &&& (post.modules.as_map()[tm].class == pre.modules.as_map()[tm].class || (exists|
                sid: u64,
            |
                #![auto]
                pre.modules.as_map()[tm].class.contains_spec(sid)
                    && post.modules.as_map()[tm].class.as_map() == pre.modules.as_map()[tm].class.as_map().insert(
                    sid,
                    post.modules.as_map()[tm].class.as_map()[sid],
                )))
        };
    assert forall|id: u64|
        #[trigger] tree_has_class(pre.modules, id) implies tree_has_class(post.modules, id) by {
        if pre.modules.as_map().contains_key(tm) && pre.modules.as_map()[tm].class.contains_spec(
            id,
        ) {
            lemma_builder_module_wf(pre, tm);
            lemma_builder_module_wf(post, tm);
            if post.modules.as_map()[tm].class == pre.modules.as_map()[tm].class {
            } else {
                let sid = choose|sid: u64|
                    #![auto]
                    pre.modules.as_map()[tm].class.contains_spec(sid)
                        && post.modules.as_map()[tm].class.as_map() == pre.modules.as_map()[tm].class.as_map().insert(
                        sid,
                        post.modules.as_map()[tm].class.as_map()[sid],
                    );
                pre.modules.as_map()[tm].class.lemma_contains_iff_key();
                post.modules.as_map()[tm].class.lemma_contains_iff_key();
                assert(post.modules.as_map()[tm].class.as_map().contains_key(sid));
                lemma_idmap_insert_keeps(
                    pre.modules.as_map()[tm].class,
                    post.modules.as_map()[tm].class,
                    sid,
                    id,
                );
            }
        }
        lemma_tree_has_class_preserved(pre.modules, post.modules, tm, id);
    }
}

/// Merge correctness: when a methods block's identity key names a
/// registered class, and — identity keys being process-unique — no enum
/// anywhere shares that key, a successful join lands on exactly that
/// class: it gains the block's attributes, accessor pairs and per-name
/// overload lists in registration order, never merged, and any abstract
/// accessor or method marks it abstract, while every other module is
/// untouched.
pub proof fn lemma_merge_hits_the_class(
    pre: OrderedMap<Module>,
    post: OrderedMap<Module>,
    info: PyMethodsInfo,
    strategy: SelfImportStrategy,
)
    requires
        pre.wf(),
        methods_joined(pre, post, info, strategy),
        forall|j: int|
            0 <= j < pre.spec_len() ==> !(#[trigger] pre.spec_val(j)).enum_.contains_spec(
                info.struct_id,
            ),
    ensures
        exists|tm: Seq<char>|
            #![auto]
            {
                &&& pre.as_map().contains_key(tm)
                &&& pre.as_map()[tm].class.contains_spec(info.struct_id)
                &&& post.as_map() == pre.as_map().insert(tm, post.as_map()[tm])
                &&& post.as_map()[tm].class.as_map() == pre.as_map()[tm].class.as_map().insert(
                    info.struct_id,
                    post.as_map()[tm].class.as_map()[info.struct_id],
                )
                &&& class_merged(
                    pre.as_map()[tm].class.as_map()[info.struct_id],
                    post.as_map()[tm].class.as_map()[info.struct_id],
                    info,
                    strategy,
                )
            },
{
    let tm = choose|tm: Seq<char>|
        #![auto]
        {
            &&& pre.as_map().contains_key(tm)
            &&& post.as_map() == pre.as_map().insert(tm, post.as_map()[tm])
            &&& ({
                let ov = pre.as_map()[tm];
                let fm = post.as_map()[tm];
                &&& fm.name == ov.name
                &&& fm.default_module_name == ov.default_module_name
                &&& fm.doc == ov.doc
                &&& fm.function == ov.function
                &&& fm.variables == ov.variables
                &&& fm.submodules == ov.submodules
                &&& (forall|k: Seq<char>|
                    #[trigger] fm.imports.contains_spec(k) <==> ov.imports.contains_spec(k)
                        || block_imports_contain(info, strategy, k))
                &&& ((ov.class.contains_spec(info.struct_id) && fm.enum_ == ov.enum_
                    && fm.class.as_map() == ov.class.as_map().insert(
                    info.struct_id,
                    fm.class.as_map()[info.struct_id],
                ) && class_merged(
                    ov.class.as_map()[info.struct_id],
                    fm.class.as_map()[info.struct_id],
                    info,
                    strategy,
                )) || (!ov.class.contains_spec(info.struct_id) && ov.enum_.contains_spec(
                    info.struct_id,
                ) && fm.class == ov.class && fm.enum_.as_map() == ov.enum_.as_map().insert(
                    info.struct_id,
                    fm.enum_.as_map()[info.struct_id],
                ) && enum_merged(
                    ov.enum_.as_map()[info.struct_id],
                    fm.enum_.as_map()[info.struct_id],
                    info,
                    strategy,
                )))
            })
        };
    pre.lemma_contains_iff_key();
    let w = choose|w: int| 0 <= w < pre.spec_len() && pre.spec_key(w) == tm;
    pre.lemma_view(w);
    assert(pre.as_map()[tm] == pre.spec_val(w));
    assert(!pre.as_map()[tm].enum_.contains_spec(info.struct_id));
    assert(pre.as_map()[tm].class.contains_spec(info.struct_id));
}

/// Submodule derivation is idempotent: deriving a second time, with no
/// module added in between, changes no module's submodule membership —
/// the derived children depend only on the registered names, which the
/// first derivation did not change.
pub proof fn lemma_submodule_derivation_idempotent(
    m0: OrderedMap<Module>,
    m1: OrderedMap<Module>,
    m2: OrderedMap<Module>,
)
    requires
        submodules_derived(m0, m1),
        submodules_derived(m1, m2),
    ensures
        m2.spec_len() == m1.spec_len(),
        forall|j: int| 0 <= j < m1.spec_len() ==> m2.spec_key(j) == m1.spec_key(j),
        forall|j: int, k: Seq<char>|
            0 <= j < m1.spec_len() ==> ((#[trigger] m2.spec_val(j).submodules.contains_spec(k))
                <==> m1.spec_val(j).submodules.contains_spec(k)),
{
    assert forall|j: int, k: Seq<char>|
        0 <= j < m1.spec_len() implies ((#[trigger] m2.spec_val(j).submodules.contains_spec(k))
        <==> m1.spec_val(j).submodules.contains_spec(k)) by {
        if m2.spec_val(j).submodules.contains_spec(k) {
            if !m1.spec_val(j).submodules.contains_spec(k) {
                let c = choose|c: int|
                    0 <= c < m1.spec_len() && last_dot(#[trigger] m1.spec_key(c)) >= 0
                        && parent_of(m1.spec_key(c)) == m1.spec_key(j) && child_of(
                        m1.spec_key(c),
                    ) == k;
                assert(m1.spec_key(c) == m0.spec_key(c));
                assert(m1.spec_key(j) == m0.spec_key(j));
                assert(m1.spec_val(j).submodules.contains_spec(k));
            }
        }
    }
}

/// Determinism of generation: two finished module trees that hold the
/// same modules under the same names — however, and in whatever order,
/// their descriptors were registered — render byte-identical stub units
/// at identical destinations. Every keyed collection is held in
/// canonical key order, so equal contents mean equal representations,
/// and every renderer's output is an exact function of the rendered
/// value.
pub proof fn lemma_generation_deterministic(a: StubInfo, b: StubInfo)
    requires
        a.modules.wf(),
        b.modules.wf(),
        a.modules.as_map() == b.modules.as_map(),
        a.python_root@ == b.python_root@,
    ensures
        a.modules.spec_len() == b.modules.spec_len(),
        forall|i: int|
            0 <= i < a.modules.spec_len() ==> crate::render::spec_dest_of(
                a.python_root@,
                #[trigger] a.modules.spec_val(i),
            ) == crate::render::spec_dest_of(b.python_root@, b.modules.spec_val(i))
                && crate::render::spec_module_text(a.modules.spec_val(i))
                == crate::render::spec_module_text(b.modules.spec_val(i)),
{
    crate::ordmap::lemma_canonical(a.modules, b.modules);
}

} // verus!
