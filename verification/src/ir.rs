//! The intermediate representation of declarations: members, methods,
//! parameters, functions, variables, classes, enums and modules, as they
//! stand after the merge pass and before rendering.

use vstd::prelude::*;
use vstd::string::StringExecFns;
use crate::ordmap::OrderedMap;
use crate::type_info::{ImportSet, TypeInfo};

verus! {

/// How a callable is bound.
#[derive(Clone, Copy, Debug, PartialEq, Eq, Structural)]
pub enum MethodType {
    Static,
    Class,
    New,
    Instance,
}

/// How a parameter is passed.
#[derive(Clone, Copy, Debug, PartialEq, Eq, Structural)]
pub enum ParameterKind {
    PositionalOnly,
    PositionalOrKeyword,
    KeywordOnly,
    VarPositional,
    VarKeyword,
}

/// The shape of a tagged-enum variant.
#[derive(Clone, Copy, Debug, PartialEq, Eq, Structural)]
pub enum VariantForm {
    Unit,
    Tuple,
    Struct,
}

/// A native default value, converted to target literal syntax only when
/// rendering asks for it.
pub enum DefaultValue {
    Int(i64),
    Bool(bool),
    Str(String),
    NoneValue,
    /// Pre-formatted literal text, trusted as supplied.
    Raw(String),
}

/// A deprecation notice; rendered as a decorator line above the callable.
pub struct DeprecatedInfo {
    pub message: String,
}

/// Which diagnostics a trailing suppression comment silences.
pub enum IgnoreTarget {
    All,
    Specified(Vec<String>),
}

/// One callable parameter.
pub struct Parameter {
    pub name: String,
    pub kind: ParameterKind,
    pub type_info: TypeInfo,
    pub default: Option<DefaultValue>,
}

/// The parameters of one callable, grouped by passing kind.
pub struct Parameters {
    pub positional_only: Vec<Parameter>,
    pub positional_or_keyword: Vec<Parameter>,
    pub var_positional: Option<Parameter>,
    pub keyword_only: Vec<Parameter>,
    pub var_keyword: Option<Parameter>,
}

/// The parameters of `s` that are passed with kind `k`, in declaration
/// order.
pub open spec fn params_of_kind(s: Seq<Parameter>, k: ParameterKind) -> Seq<Parameter>
    decreases s.len(),
{
    if s.len() == 0 {
        Seq::empty()
    } else if s.last().kind == k {
        params_of_kind(s.drop_last(), k).push(s.last())
    } else {
        params_of_kind(s.drop_last(), k)
    }
}

/// Whether any parameter of `s` needs the import `k`.
pub open spec fn seq_params_contain(s: Seq<Parameter>, k: Seq<char>) -> bool {
    exists|i: int| 0 <= i < s.len() && #[trigger] s[i].type_info.import.contains_spec(k)
}

impl Parameters {
    pub fn new() -> (r: Parameters)
        ensures
            r.positional_only@ =~= Seq::<Parameter>::empty(),
            r.positional_or_keyword@ =~= Seq::<Parameter>::empty(),
            r.var_positional is None,
            r.keyword_only@ =~= Seq::<Parameter>::empty(),
            r.var_keyword is None,
    {
        Parameters {
            positional_only: Vec::new(),
            positional_or_keyword: Vec::new(),
            var_positional: None,
            keyword_only: Vec::new(),
            var_keyword: None,
        }
    }

    /// Groups a declaration-ordered parameter list by passing kind; the
    /// order inside each group is the declaration order, and of a
    /// variadic kind the last declaration wins.
    pub fn from_infos(infos: Vec<Parameter>) -> (r: Parameters)
        ensures
            r.positional_only@ == params_of_kind(infos@, ParameterKind::PositionalOnly),
            r.positional_or_keyword@ == params_of_kind(infos@, ParameterKind::PositionalOrKeyword),
            r.keyword_only@ == params_of_kind(infos@, ParameterKind::KeywordOnly),
            r.var_positional == (if params_of_kind(infos@, ParameterKind::VarPositional).len()
                == 0 {
                Option::<Parameter>::None
            } else {
                Some(params_of_kind(infos@, ParameterKind::VarPositional).last())
            }),
            r.var_keyword == (if params_of_kind(infos@, ParameterKind::VarKeyword).len() == 0 {
                Option::<Parameter>::None
            } else {
                Some(params_of_kind(infos@, ParameterKind::VarKeyword).last())
            }),
    {
        let ghost orig = infos@;
        let mut infos = infos;
        let mut r = Parameters::new();
        let ghost mut gi: int = 0;
        while infos.len() > 0
            invariant
                0 <= gi <= orig.len(),
                infos@ =~= orig.skip(gi),
                r.positional_only@ == params_of_kind(orig.take(gi), ParameterKind::PositionalOnly),
                r.positional_or_keyword@ == params_of_kind(
                    orig.take(gi),
                    ParameterKind::PositionalOrKeyword,
                ),
                r.keyword_only@ == params_of_kind(orig.take(gi), ParameterKind::KeywordOnly),
                r.var_positional == (if params_of_kind(
                    orig.take(gi),
                    ParameterKind::VarPositional,
                ).len() == 0 {
                    Option::<Parameter>::None
                } else {
                    Some(params_of_kind(orig.take(gi), ParameterKind::VarPositional).last())
                }),
                r.var_keyword == (if params_of_kind(orig.take(gi), ParameterKind::VarKeyword).len()
                    == 0 {
                    Option::<Parameter>::None
                } else {
                    Some(params_of_kind(orig.take(gi), ParameterKind::VarKeyword).last())
                }),
            decreases infos@.len(),
        {
            let p = infos.remove(0);
            proof {
                assert(p == orig[gi]);
                assert(orig.take(gi + 1).drop_last() =~= orig.take(gi));
                assert(orig.take(gi + 1).last() == orig[gi]);
                assert(infos@ =~= orig.skip(gi + 1));
            }
            match p.kind {
                ParameterKind::PositionalOnly => r.positional_only.push(p),
                ParameterKind::PositionalOrKeyword => r.positional_or_keyword.push(p),
                ParameterKind::KeywordOnly => r.keyword_only.push(p),
                ParameterKind::VarPositional => r.var_positional = Some(p),
                ParameterKind::VarKeyword => r.var_keyword = Some(p),
            }
            proof {
                gi = gi + 1;
            }
        }
        proof {
            assert(orig.take(orig.len() as int) =~= orig);
        }
        r
    }

    /// Whether no parameter at all was declared.
    pub fn is_empty(&self) -> (r: bool)
        ensures
            r == (self.positional_only@.len() == 0 && self.positional_or_keyword@.len() == 0
                && self.var_positional is None && self.keyword_only@.len() == 0
                && self.var_keyword is None),
    {
        self.positional_only.len() == 0 && self.positional_or_keyword.len() == 0
            && self.var_positional.is_none() && self.keyword_only.len() == 0
            && self.var_keyword.is_none()
    }

    /// Whether any parameter needs the import `k`.
    pub open spec fn spec_imports_contain(self, k: Seq<char>) -> bool {
        ||| seq_params_contain(self.positional_only@, k)
        ||| seq_params_contain(self.positional_or_keyword@, k)
        ||| (match self.var_positional {
            Some(p) => p.type_info.import.contains_spec(k),
            None => false,
        })
        ||| seq_params_contain(self.keyword_only@, k)
        ||| (match self.var_keyword {
            Some(p) => p.type_info.import.contains_spec(k),
            None => false,
        })
    }

    /// The imports of every parameter type, collected.
    pub fn import(&self) -> (r: ImportSet)
        ensures
            r.wf(),
            forall|k: Seq<char>| #[trigger] r.contains_spec(k) <==> self.spec_imports_contain(k),
    {
        let mut out = ImportSet::new();
        union_params(&mut out, &self.positional_only);
        union_params(&mut out, &self.positional_or_keyword);
        if let Some(p) = &self.var_positional {
            out.union_into(&p.type_info.import);
        }
        union_params(&mut out, &self.keyword_only);
        if let Some(p) = &self.var_keyword {
            out.union_into(&p.type_info.import);
        }
        out
    }
}

/// Adds the imports of every parameter's type to `out`.
pub fn union_params(out: &mut ImportSet, ps: &Vec<Parameter>)
    requires
        old(out).wf(),
    ensures
        final(out).wf(),
        forall|k: Seq<char>|
            #[trigger] final(out).contains_spec(k) <==> old(out).contains_spec(k)
                || seq_params_contain(ps@, k),
{
    let ghost base = *out;
    let n = ps.len();
    let mut i: usize = 0;
    while i < n
        invariant
            0 <= i <= n,
            n == ps@.len(),
            out.wf(),
            forall|j: int, k: Seq<char>|
                0 <= j < i && #[trigger] ps@[j].type_info.import.contains_spec(k)
                    ==> out.contains_spec(k),
            forall|k: Seq<char>|
                #[trigger] out.contains_spec(k) ==> base.contains_spec(k) || seq_params_contain(
                    ps@,
                    k,
                ),
            forall|k: Seq<char>|
                #[trigger] base.contains_spec(k) ==> out.contains_spec(k),
        decreases n - i,
    {
        let ghost before = *out;
        out.union_into(&ps[i].type_info.import);
        proof {
            assert forall|j: int, k: Seq<char>|
                0 <= j < i + 1 && #[trigger] ps@[j].type_info.import.contains_spec(k)
                    implies out.contains_spec(k) by {
                if j < i {
                    assert(before.contains_spec(k));
                }
            }
            assert forall|k: Seq<char>| #[trigger] out.contains_spec(k) implies
                base.contains_spec(k) || seq_params_contain(ps@, k) by {
                if !before.contains_spec(k) {
                    assert(ps@[i as int].type_info.import.contains_spec(k));
                }
            }
        }
        i = i + 1;
    }
    proof {
        assert forall|k: Seq<char>|
            out.contains_spec(k) <==> (base.contains_spec(k) || seq_params_contain(ps@, k)) by {
            if seq_params_contain(ps@, k) {
                let j = choose|j: int|
                    0 <= j < ps@.len() && #[trigger] ps@[j].type_info.import.contains_spec(k);
                assert(out.contains_spec(k));
            }
        }
    }
}

/// An attribute, getter or setter of a class or enum.
pub struct MemberDef {
    pub name: String,
    pub type_info: TypeInfo,
    pub doc: String,
    pub default: Option<String>,
    pub deprecated: Option<DeprecatedInfo>,
    pub is_abstract: bool,
}

/// Definition of a class method.
pub struct MethodDef {
    pub name: String,
    pub parameters: Parameters,
    pub ret: TypeInfo,
    pub doc: String,
    pub kind: MethodType,
    pub is_async: bool,
    pub deprecated: Option<DeprecatedInfo>,
    pub type_ignored: Option<IgnoreTarget>,
    pub is_abstract: bool,
}

impl MethodDef {
    /// The imports this method's rendering needs: its return type's, its
    /// parameters', the deprecation decorator's and the abstract-method
    /// decorator's.
    pub fn import(&self) -> (r: ImportSet)
        ensures
            r.wf(),
            forall|k: Seq<char>|
                #[trigger] r.contains_spec(k) <==> self.ret.import.contains_spec(k)
                    || self.parameters.spec_imports_contain(k) || (self.deprecated is Some && k
                    == "typing_extensions"@) || (self.is_abstract && k == "abc"@),
    {
        let mut out = self.parameters.import();
        out.union_into(&self.ret.import);
        if self.deprecated.is_some() {
            out.insert(String::from_str("typing_extensions"), ());
            proof {
                lemma_insert_contains(out, "typing_extensions"@);
            }
        }
        if self.is_abstract {
            out.insert(String::from_str("abc"), ());
            proof {
                lemma_insert_contains(out, "abc"@);
            }
        }
        out
    }
}

/// After `m.as_map() == prev.insert(k, ())`, membership in `m` is
/// membership in `prev` or the key `k`.
pub proof fn lemma_insert_contains(m: ImportSet, k: Seq<char>)
    requires
        m.wf(),
    ensures
        forall|x: Seq<char>|
            #[trigger] m.contains_spec(x) <==> m.as_map().contains_key(x),
{
    assert forall|x: Seq<char>|
        m.contains_spec(x) <==> m.as_map().contains_key(x) by {
        if m.contains_spec(x) {
            let w = choose|w: int| 0 <= w < m.spec_len() && m.spec_key(w) == x;
            m.lemma_view(w);
        }
    }
}

/// A free function of a module.
pub struct FunctionDef {
    pub name: String,
    pub parameters: Parameters,
    pub ret: TypeInfo,
    pub doc: String,
    pub is_async: bool,
    pub deprecated: Option<DeprecatedInfo>,
    pub type_ignored: Option<IgnoreTarget>,
}

/// A module-level variable.
pub struct VariableDef {
    pub name: String,
    pub type_info: TypeInfo,
}

/// One variant of a tagged enum, rendered as a constructor-only
/// pseudo-class; `methods` holds its synthesized behavior, empty for a
/// mapping-flagged variant.
pub struct VariantDef {
    pub name: String,
    pub form: VariantForm,
    pub fields: Vec<MemberDef>,
    pub methods: OrderedMap<Vec<MethodDef>>,
    pub doc: String,
    pub is_mapping: bool,
}

/// A getter/setter pair observed under one attribute name; either side
/// may be absent.
pub struct GetterSetter {
    pub getter: Option<MemberDef>,
    pub setter: Option<MemberDef>,
}

/// A class: a plain native type, or a tagged enum rendered as a class
/// with one nested pseudo-class per variant.
pub struct ClassDef {
    pub name: String,
    pub doc: String,
    pub bases: Vec<String>,
    pub attrs: Vec<MemberDef>,
    pub getter_setters: OrderedMap<GetterSetter>,
    pub methods: OrderedMap<Vec<MethodDef>>,
    pub variants: Vec<VariantDef>,
    pub is_abstract: bool,
}

impl ClassDef {
    /// The keyed collections inside the class are well-formed.
    pub open spec fn wf(self) -> bool {
        self.getter_setters.wf() && self.methods.wf()
    }

    /// Marks the whole class abstract; rendering then emits the
    /// abstract-class decorator.
    pub fn mark_abstract(&mut self)
        ensures
            *final(self) == (ClassDef { is_abstract: true, ..*old(self) }),
    {
        self.is_abstract = true;
    }
}

/// A plain enum: named variants without payloads. Like a class, any
/// abstract accessor or method merged into it marks the whole enum
/// abstract.
pub struct EnumDef {
    pub name: String,
    pub doc: String,
    pub variants: Vec<String>,
    pub attrs: Vec<MemberDef>,
    pub getters: Vec<MemberDef>,
    pub setters: Vec<MemberDef>,
    pub methods: Vec<MethodDef>,
    pub is_abstract: bool,
}

/// One target module of the stub output. The import set accumulates as
/// declarations are added, and becomes the module's header.
pub struct Module {
    pub name: String,
    pub default_module_name: String,
    pub doc: String,
    pub imports: ImportSet,
    pub class: crate::idmap::IdMap<ClassDef>,
    pub enum_: crate::idmap::IdMap<EnumDef>,
    pub function: OrderedMap<Vec<FunctionDef>>,
    pub variables: OrderedMap<VariableDef>,
    pub submodules: OrderedMap<()>,
}

impl Module {
    /// All keyed collections are well-formed, down to each class's own
    /// maps.
    pub open spec fn wf(self) -> bool {
        &&& self.imports.wf()
        &&& self.class.wf()
        &&& forall|i: int|
            0 <= i < self.class.spec_len() ==> (#[trigger] self.class.spec_val(i)).wf()
        &&& self.enum_.wf()
        &&& self.function.wf()
        &&& self.variables.wf()
        &&& self.submodules.wf()
    }
}

} // verus!
