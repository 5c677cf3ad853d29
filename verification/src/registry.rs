//! The descriptors that registration sites produce, the collector that
//! gathers them, and the synthesis rules that turn a tagged enum's
//! variants into a union type and into pseudo-class methods.

use vstd::prelude::*;
use vstd::string::StringExecFns;
use crate::ir::{
    DeprecatedInfo, IgnoreTarget, MethodDef, MethodType, Parameter, Parameters, VariantForm,
};
use crate::ordmap::OrderedMap;
use crate::type_info::TypeInfo;
use crate::version::SelfImportStrategy;

verus! {

/// Describes one attribute, getter or setter.
pub struct MemberInfo {
    pub name: String,
    pub type_info: TypeInfo,
    pub doc: String,
    pub default: Option<String>,
    pub deprecated: Option<DeprecatedInfo>,
    pub is_abstract: bool,
}

/// Describes one method of a methods block.
pub struct MethodInfo {
    pub name: String,
    pub parameters: Vec<Parameter>,
    pub ret: TypeInfo,
    pub doc: String,
    pub kind: MethodType,
    pub is_async: bool,
    pub deprecated: Option<DeprecatedInfo>,
    pub type_ignored: Option<IgnoreTarget>,
    pub is_abstract: bool,
}

/// Describes one variant of a tagged enum.
pub struct VariantInfo {
    pub pyclass_name: String,
    pub form: VariantForm,
    pub fields: Vec<MemberInfo>,
    pub constr_args: Vec<Parameter>,
    pub doc: String,
    pub is_mapping: bool,
}

/// Describes a class's shape.
pub struct PyClassInfo {
    pub struct_id: u64,
    pub pyclass_name: String,
    pub module: Option<String>,
    pub bases: Vec<String>,
    pub doc: String,
}

/// Describes a tagged enum's shape.
pub struct PyComplexEnumInfo {
    pub enum_id: u64,
    pub pyclass_name: String,
    pub module: Option<String>,
    pub variants: Vec<VariantInfo>,
    pub doc: String,
}

/// Describes a plain enum's shape.
pub struct PyEnumInfo {
    pub enum_id: u64,
    pub pyclass_name: String,
    pub module: Option<String>,
    pub variants: Vec<String>,
    pub doc: String,
}

/// Describes one free function.
pub struct PyFunctionInfo {
    pub name: String,
    pub module: Option<String>,
    pub parameters: Vec<Parameter>,
    pub ret: TypeInfo,
    pub doc: String,
    pub is_async: bool,
    pub deprecated: Option<DeprecatedInfo>,
    pub type_ignored: Option<IgnoreTarget>,
}

/// Describes one module-level variable.
pub struct PyVariableInfo {
    pub name: String,
    pub module: String,
    pub type_info: TypeInfo,
}

/// Carries a module's documentation text.
pub struct ModuleDocInfo {
    pub module: String,
    pub doc: String,
}

/// Describes a type's behavior, registered separately from its shape and
/// joined to it by the identity key.
pub struct PyMethodsInfo {
    pub struct_id: u64,
    pub attrs: Vec<MemberInfo>,
    pub getters: Vec<MemberInfo>,
    pub setters: Vec<MemberInfo>,
    pub methods: Vec<MethodInfo>,
}

/// The collector of every descriptor a generation run consumes: written
/// once at start-up, read once at build time.
pub struct Registry {
    pub classes: Vec<PyClassInfo>,
    pub complex_enums: Vec<PyComplexEnumInfo>,
    pub enums: Vec<PyEnumInfo>,
    pub functions: Vec<PyFunctionInfo>,
    pub variables: Vec<PyVariableInfo>,
    pub module_docs: Vec<ModuleDocInfo>,
    pub methods: Vec<PyMethodsInfo>,
}

impl Registry {
    pub fn new() -> (r: Registry)
        ensures
            r.classes@.len() == 0,
            r.complex_enums@.len() == 0,
            r.enums@.len() == 0,
            r.functions@.len() == 0,
            r.variables@.len() == 0,
            r.module_docs@.len() == 0,
            r.methods@.len() == 0,
    {
        Registry {
            classes: Vec::new(),
            complex_enums: Vec::new(),
            enums: Vec::new(),
            functions: Vec::new(),
            variables: Vec::new(),
            module_docs: Vec::new(),
            methods: Vec::new(),
        }
    }
}

/// The text a variant contributes to its parent enum's union: a
/// tuple-shaped variant with exactly one constructor argument contributes
/// that argument's own type verbatim; every other shape contributes the
/// qualified reference `EnumName.VariantName`.
pub open spec fn spec_union_term_text(enum_name: Seq<char>, v: VariantInfo) -> Seq<char> {
    if v.form == VariantForm::Tuple && v.constr_args@.len() == 1 {
        v.constr_args@[0].type_info.spec_text()
    } else {
        enum_name + "."@ + v.pyclass_name@
    }
}

/// Whether a variant's union term carries the import `k`: only the
/// single-field tuple form contributes its field type's imports.
pub open spec fn spec_union_term_imports(v: VariantInfo, k: Seq<char>) -> bool {
    if v.form == VariantForm::Tuple && v.constr_args@.len() == 1 {
        v.constr_args@[0].type_info.import.contains_spec(k)
    } else {
        false
    }
}

/// The texts of the first `i` union terms.
pub open spec fn spec_union_terms_upto(enum_name: Seq<char>, vs: Seq<VariantInfo>, i: int) -> Seq<
    Seq<char>,
>
    decreases i,
{
    if i <= 0 {
        Seq::empty()
    } else {
        spec_union_terms_upto(enum_name, vs, i - 1).push(spec_union_term_text(enum_name, vs[i - 1]))
    }
}

/// Whether any of the first `i` union terms carries the import `k`.
pub open spec fn spec_union_imports_upto(vs: Seq<VariantInfo>, i: int, k: Seq<char>) -> bool
    decreases i,
{
    if i <= 0 {
        false
    } else {
        spec_union_imports_upto(vs, i - 1, k) || spec_union_term_imports(vs[i - 1], k)
    }
}

/// Builds one variant's union term.
fn union_term(enum_name: &String, v: &VariantInfo) -> (r: TypeInfo)
    ensures
        r.wf(),
        r.spec_text() == spec_union_term_text(enum_name@, *v),
        forall|k: Seq<char>| r.import.contains_spec(k) <==> spec_union_term_imports(*v, k),
{
    if matches!(v.form, VariantForm::Tuple) && v.constr_args.len() == 1 {
        let t = v.constr_args[0].type_info.duplicate();
        TypeInfo { name: t.name, import: rebuild_sorted(t.import) }
    } else {
        let mut name = crate::ordmap::clone_string(enum_name);
        name.append(".");
        name.append(v.pyclass_name.as_str());
        TypeInfo { name, import: OrderedMap::new() }
    }
}

/// Rebuilds an import set through a fresh well-formed map.
fn rebuild_sorted(s: crate::type_info::ImportSet) -> (r: crate::type_info::ImportSet)
    ensures
        r.wf(),
        forall|k: Seq<char>| r.contains_spec(k) <==> s.contains_spec(k),
{
    let mut out: crate::type_info::ImportSet = OrderedMap::new();
    out.union_into(&s);
    out
}

/// Synthesizes the union type a tagged enum presents when used as a type
/// itself: the left-fold of all variants' terms under the "or" operator,
/// or nothing for an enum with no variants, which then falls back to its
/// own declared name.
pub fn complex_enum_union(info: &PyComplexEnumInfo) -> (r: Option<TypeInfo>)
    ensures
        match r {
            None => info.variants@.len() == 0,
            Some(t) => info.variants@.len() > 0 && t.wf() && t.spec_text()
                == crate::render::spec_join(
                spec_union_terms_upto(
                    info.pyclass_name@,
                    info.variants@,
                    info.variants@.len() as int,
                ),
                " | "@,
            ) && (forall|k: Seq<char>|
                t.import.contains_spec(k) <==> spec_union_imports_upto(
                    info.variants@,
                    info.variants@.len() as int,
                    k,
                )),
        },
{
    let n = info.variants.len();
    if n == 0 {
        return None;
    }
    let mut acc = union_term(&info.pyclass_name, &info.variants[0]);
    proof {
        assert(spec_union_terms_upto(info.pyclass_name@, info.variants@, 0)
            =~= Seq::<Seq<char>>::empty());
        let terms1 = spec_union_terms_upto(info.pyclass_name@, info.variants@, 1);
        assert(terms1 =~= Seq::<Seq<char>>::empty().push(
            spec_union_term_text(info.pyclass_name@, info.variants@[0]),
        ));
        assert(terms1.len() == 1);
        assert(crate::render::spec_join(terms1, " | "@) == terms1[0]);
        assert(acc.spec_text() == terms1[0]);
        assert forall|k: Seq<char>|
            acc.import.contains_spec(k) <==> spec_union_imports_upto(info.variants@, 1, k) by {
            assert(!spec_union_imports_upto(info.variants@, 0, k));
            assert(spec_union_imports_upto(info.variants@, 1, k) == (spec_union_imports_upto(
                info.variants@,
                0,
                k,
            ) || spec_union_term_imports(info.variants@[0], k)));
        }
    }
    let mut i: usize = 1;
    while i < n
        invariant
            1 <= i <= n,
            n == info.variants@.len(),
            acc.wf(),
            acc.spec_text() == crate::render::spec_join(
                spec_union_terms_upto(info.pyclass_name@, info.variants@, i as int),
                " | "@,
            ),
            forall|k: Seq<char>|
                acc.import.contains_spec(k) <==> spec_union_imports_upto(info.variants@, i as int, k),
        decreases n - i,
    {
        let t = union_term(&info.pyclass_name, &info.variants[i]);
        let ghost old_acc = acc;
        acc = acc.union_with(&t);
        proof {
            let terms = spec_union_terms_upto(info.pyclass_name@, info.variants@, i + 1);
            assert(terms.drop_last() =~= spec_union_terms_upto(
                info.pyclass_name@,
                info.variants@,
                i as int,
            ));
            assert(terms.len() > 1);
            assert(acc.spec_text() == crate::render::spec_join(terms, " | "@));
        }
        i = i + 1;
    }
    Some(acc)
}

/// Whether a method record is the synthesized constructor of a variant:
/// `__new__`, constructor-form, returning the enclosing type, with the
/// variant's constructor parameters and nothing else.
pub open spec fn is_variant_new_method(
    m: MethodDef,
    args: Seq<Parameter>,
    strategy: SelfImportStrategy,
) -> bool {
    &&& m.name@ == "__new__"@
    &&& m.parameters.positional_only@ == crate::ir::params_of_kind(
        args,
        crate::ir::ParameterKind::PositionalOnly,
    )
    &&& m.parameters.positional_or_keyword@ == crate::ir::params_of_kind(
        args,
        crate::ir::ParameterKind::PositionalOrKeyword,
    )
    &&& m.parameters.keyword_only@ == crate::ir::params_of_kind(
        args,
        crate::ir::ParameterKind::KeywordOnly,
    )
    &&& m.ret.spec_text() == (match strategy {
        SelfImportStrategy::Typing => "typing.Self"@,
        SelfImportStrategy::TypingExtensions => "typing_extensions.Self"@,
    })
    &&& m.doc@.len() == 0
    &&& m.kind == MethodType::New
    &&& !m.is_async
    &&& m.deprecated is None
    &&& m.type_ignored is None
    &&& !m.is_abstract
}

/// Whether a method record is the synthesized length method of a
/// tuple-shaped variant.
pub open spec fn is_variant_len_method(m: MethodDef) -> bool {
    &&& m.name@ == "__len__"@
    &&& crate::render::spec_params_is_empty(m.parameters)
    &&& m.ret.spec_text() == "int"@
    &&& m.doc@.len() == 0
    &&& m.kind == MethodType::Instance
    &&& !m.is_async
    &&& m.deprecated is None
    &&& m.type_ignored is None
    &&& !m.is_abstract
}

/// Whether a method record is the synthesized item-access method of a
/// tuple-shaped variant: one positional-or-keyword `key: int`, returning
/// the unconstrained type.
pub open spec fn is_variant_getitem_method(m: MethodDef) -> bool {
    &&& m.name@ == "__getitem__"@
    &&& m.parameters.positional_only@.len() == 0
    &&& m.parameters.positional_or_keyword@.len() == 1
    &&& m.parameters.positional_or_keyword@[0].name@ == "key"@
    &&& m.parameters.positional_or_keyword@[0].type_info.spec_text() == "int"@
    &&& m.parameters.positional_or_keyword@[0].default is None
    &&& m.parameters.var_positional is None
    &&& m.parameters.keyword_only@.len() == 0
    &&& m.parameters.var_keyword is None
    &&& m.ret.spec_text() == "typing.Any"@
    &&& m.doc@.len() == 0
    &&& m.kind == MethodType::Instance
    &&& !m.is_async
    &&& m.deprecated is None
    &&& m.type_ignored is None
    &&& !m.is_abstract
}

/// Synthesizes a variant's pseudo-class methods: its constructor, and
/// for tuple-shaped variants the sequence protocol (a length and item
/// access by integer index); a mapping-flagged variant suppresses all of
/// this.
#[verifier::rlimit(100)]
pub fn get_variant_methods(
    constr_args: Vec<Parameter>,
    form: VariantForm,
    is_mapping: bool,
    strategy: SelfImportStrategy,
) -> (r: OrderedMap<Vec<MethodDef>>)
    ensures
        r.wf(),
        is_mapping ==> r.spec_len() == 0,
        !is_mapping ==> {
            &&& r.contains_spec("__new__"@)
            &&& r.as_map()["__new__"@]@.len() == 1
            &&& is_variant_new_method(r.as_map()["__new__"@]@[0], constr_args@, strategy)
            &&& (form == VariantForm::Tuple ==> r.contains_spec("__len__"@)
                && r.as_map()["__len__"@]@.len() == 1 && is_variant_len_method(
                r.as_map()["__len__"@]@[0],
            ) && r.contains_spec("__getitem__"@) && r.as_map()["__getitem__"@]@.len() == 1
                && is_variant_getitem_method(r.as_map()["__getitem__"@]@[0]) && (forall|k: Seq<char>|
                r.contains_spec(k) <==> (k == "__new__"@ || k == "__len__"@ || k
                    == "__getitem__"@)))
            &&& (form != VariantForm::Tuple ==> (forall|k: Seq<char>|
                r.contains_spec(k) <==> k == "__new__"@))
        },
{
    let mut methods: OrderedMap<Vec<MethodDef>> = OrderedMap::new();
    if is_mapping {
        return methods;
    }
    let new_method = MethodDef {
        name: String::from_str("__new__"),
        parameters: Parameters::from_infos(constr_args),
        ret: TypeInfo::self_type(strategy),
        doc: String::new(),
        kind: MethodType::New,
        is_async: false,
        deprecated: None,
        type_ignored: None,
        is_abstract: false,
    };
    let ghost gnew = new_method;
    let mut new_list: Vec<MethodDef> = Vec::new();
    new_list.push(new_method);
    proof {
        reveal_strlit("__new__");
        reveal_strlit("__len__");
        reveal_strlit("__getitem__");
        assert(!methods.contains_spec("__new__"@));
    }
    let ghost gnew_list = new_list;
    let new_key = String::from_str("__new__");
    let ghost before_new = methods;
    proof {
        assert(new_key@ == "__new__"@);
    }
    methods.insert(new_key, new_list);
    proof {
        methods.lemma_contains_iff_key();
        assert(methods.as_map() == before_new.as_map().insert("__new__"@, gnew_list));
        assert(methods.as_map().contains_key("__new__"@));
        assert(methods.as_map()["__new__"@] == gnew_list);
        assert(gnew_list@ =~= Seq::<MethodDef>::empty().push(gnew));
        assert(is_variant_new_method(gnew, constr_args@, strategy));
        assert forall|k: Seq<char>| methods.contains_spec(k) <==> k == "__new__"@ by {
            assert(methods.contains_spec(k) <==> methods.as_map().contains_key(k));
            assert(!before_new.contains_spec(k));
        }
    }
    if matches!(form, VariantForm::Tuple) {
        let len_method = MethodDef {
            name: String::from_str("__len__"),
            parameters: Parameters::new(),
            ret: TypeInfo::builtin("int"),
            doc: String::new(),
            kind: MethodType::Instance,
            is_async: false,
            deprecated: None,
            type_ignored: None,
            is_abstract: false,
        };
        let ghost glen = len_method;
        let ghost before_len = methods;
        let mut len_list: Vec<MethodDef> = Vec::new();
        len_list.push(len_method);
        proof {
            reveal_strlit("__new__");
            reveal_strlit("__len__");
            methods.lemma_contains_iff_key();
            assert("__len__"@[2] == 'l' && "__new__"@[2] == 'n');
            assert("__len__"@ != "__new__"@);
            assert(!methods.contains_spec("__len__"@));
        }
        let ghost glen_list = len_list;
        let len_key = String::from_str("__len__");
        proof {
            assert(len_key@ == "__len__"@);
        }
        methods.insert(len_key, len_list);
        proof {
            methods.lemma_contains_iff_key();
            assert(methods.as_map() == before_len.as_map().insert("__len__"@, glen_list));
            assert(methods.as_map()["__new__"@] == gnew_list);
            assert(methods.as_map()["__len__"@] == glen_list);
            assert(glen_list@ =~= Seq::<MethodDef>::empty().push(glen));
            assert(methods.spec_len() == 2);
            assert(is_variant_len_method(glen));
        }
        let key_param = Parameter {
            name: String::from_str("key"),
            kind: crate::ir::ParameterKind::PositionalOrKeyword,
            type_info: TypeInfo::builtin("int"),
            default: None,
        };
        let ghost gkey_param = key_param;
        let mut getitem_params: Vec<Parameter> = Vec::new();
        getitem_params.push(key_param);
        proof {
            let e = Seq::<Parameter>::empty();
            let gp = getitem_params@;
            assert(gp =~= e.push(gkey_param));
            assert(gp.drop_last() =~= e);
            assert(gp.last() == gkey_param);
            assert(crate::ir::params_of_kind(e, crate::ir::ParameterKind::PositionalOnly) =~= e);
            assert(crate::ir::params_of_kind(e, crate::ir::ParameterKind::PositionalOrKeyword)
                =~= e);
            assert(crate::ir::params_of_kind(e, crate::ir::ParameterKind::KeywordOnly) =~= e);
            assert(crate::ir::params_of_kind(e, crate::ir::ParameterKind::VarPositional) =~= e);
            assert(crate::ir::params_of_kind(e, crate::ir::ParameterKind::VarKeyword) =~= e);
            assert(crate::ir::params_of_kind(gp, crate::ir::ParameterKind::PositionalOrKeyword)
                =~= e.push(gkey_param));
            assert(crate::ir::params_of_kind(gp, crate::ir::ParameterKind::PositionalOnly) =~= e);
            assert(crate::ir::params_of_kind(gp, crate::ir::ParameterKind::KeywordOnly) =~= e);
            assert(crate::ir::params_of_kind(gp, crate::ir::ParameterKind::VarPositional) =~= e);
            assert(crate::ir::params_of_kind(gp, crate::ir::ParameterKind::VarKeyword) =~= e);
        }
        let getitem_method = MethodDef {
            name: String::from_str("__getitem__"),
            parameters: Parameters::from_infos(getitem_params),
            ret: TypeInfo::any(),
            doc: String::new(),
            kind: MethodType::Instance,
            is_async: false,
            deprecated: None,
            type_ignored: None,
            is_abstract: false,
        };
        let ghost gget = getitem_method;
        let ghost before_get = methods;
        let mut getitem_list: Vec<MethodDef> = Vec::new();
        getitem_list.push(getitem_method);
        proof {
            reveal_strlit("__new__");
            reveal_strlit("__len__");
            reveal_strlit("__getitem__");
            methods.lemma_contains_iff_key();
            assert("__getitem__"@.len() == 11 && "__new__"@.len() == 7 && "__len__"@.len() == 7);
            assert("__getitem__"@ != "__new__"@);
            assert("__getitem__"@ != "__len__"@);
            assert(!methods.contains_spec("__getitem__"@));
        }
        let ghost gget_list = getitem_list;
        let get_key = String::from_str("__getitem__");
        let ghost gkv = get_key@;
        proof {
            assert(gkv == "__getitem__"@);
        }
        methods.insert(get_key, getitem_list);
        proof {
            methods.lemma_contains_iff_key();
            assert(methods.as_map() == before_get.as_map().insert("__getitem__"@, gget_list));
            assert(methods.as_map()["__new__"@] == gnew_list);
            assert(methods.as_map()["__len__"@] == glen_list);
            assert(methods.as_map()["__getitem__"@] == gget_list);
            assert(gget_list@ =~= Seq::<MethodDef>::empty().push(gget));
            assert(is_variant_getitem_method(gget));
            assert forall|k: Seq<char>|
                methods.contains_spec(k) <==> (k == "__new__"@ || k == "__len__"@ || k
                    == "__getitem__"@) by {
                assert(methods.contains_spec(k) <==> methods.as_map().contains_key(k));
            }
        }
    }
    methods
}

/// The import entry the self-referential return type needs.
pub open spec fn self_import_name(strategy: SelfImportStrategy) -> Seq<char> {
    match strategy {
        SelfImportStrategy::Typing => "typing"@,
        SelfImportStrategy::TypingExtensions => "typing_extensions"@,
    }
}

/// The text the self-referential return type prints as.
pub open spec fn self_type_text(strategy: SelfImportStrategy) -> Seq<char> {
    match strategy {
        SelfImportStrategy::Typing => "typing.Self"@,
        SelfImportStrategy::TypingExtensions => "typing_extensions.Self"@,
    }
}

/// The method record a descriptor creates: the declared pieces carried
/// over, the parameters grouped by kind, and the constructor form's
/// return type replaced by the enclosing type itself.
pub open spec fn method_from_info(
    md: MethodDef,
    info: MethodInfo,
    strategy: SelfImportStrategy,
) -> bool {
    &&& md.name == info.name
    &&& md.parameters.positional_only@ == crate::ir::params_of_kind(
        info.parameters@,
        crate::ir::ParameterKind::PositionalOnly,
    )
    &&& md.parameters.positional_or_keyword@ == crate::ir::params_of_kind(
        info.parameters@,
        crate::ir::ParameterKind::PositionalOrKeyword,
    )
    &&& md.parameters.keyword_only@ == crate::ir::params_of_kind(
        info.parameters@,
        crate::ir::ParameterKind::KeywordOnly,
    )
    &&& md.parameters.var_positional == (if crate::ir::params_of_kind(
        info.parameters@,
        crate::ir::ParameterKind::VarPositional,
    ).len() == 0 {
        Option::<Parameter>::None
    } else {
        Some(
            crate::ir::params_of_kind(
                info.parameters@,
                crate::ir::ParameterKind::VarPositional,
            ).last(),
        )
    })
    &&& md.parameters.var_keyword == (if crate::ir::params_of_kind(
        info.parameters@,
        crate::ir::ParameterKind::VarKeyword,
    ).len() == 0 {
        Option::<Parameter>::None
    } else {
        Some(
            crate::ir::params_of_kind(info.parameters@, crate::ir::ParameterKind::VarKeyword).last(),
        )
    })
    &&& (info.kind == MethodType::New ==> md.ret.wf() && md.ret.spec_text() == self_type_text(
        strategy,
    ) && (forall|k: Seq<char>|
        md.ret.import.contains_spec(k) <==> k == self_import_name(strategy)))
    &&& (info.kind != MethodType::New ==> md.ret == info.ret)
    &&& md.doc == info.doc
    &&& md.kind == info.kind
    &&& md.is_async == info.is_async
    &&& md.deprecated == info.deprecated
    &&& md.type_ignored == info.type_ignored
    &&& md.is_abstract == info.is_abstract
}

impl MethodDef {
    /// Builds the method record a descriptor declares; a constructor
    /// form returns the enclosing type itself, spelled per the chosen
    /// strategy.
    pub fn from(info: MethodInfo, strategy: SelfImportStrategy) -> (md: MethodDef)
        ensures
            method_from_info(md, info, strategy),
    {
        let MethodInfo { name, parameters, ret, doc, kind, is_async, deprecated, type_ignored, is_abstract }
            = info;
        let new_kind = matches!(kind, MethodType::New);
        let ret2 = if new_kind {
            TypeInfo::self_type(strategy)
        } else {
            ret
        };
        proof {
            if new_kind {
                assert forall|k: Seq<char>|
                    ret2.import.contains_spec(k) <==> k == self_import_name(strategy) by {
                    ret2.import.lemma_contains_iff_key();
                    assert(ret2.spec_imports() == ret2.import.key_set());
                    assert(ret2.spec_imports().contains(k) == ret2.import.contains_spec(k));
                    assert(ret2.spec_imports() =~= Set::<Seq<char>>::empty().insert(
                        self_import_name(strategy),
                    ));
                }
            }
        }
        MethodDef {
            name,
            parameters: Parameters::from_infos(parameters),
            ret: ret2,
            doc,
            kind,
            is_async,
            deprecated,
            type_ignored,
            is_abstract,
        }
    }
}

} // verus!
