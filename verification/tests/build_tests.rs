use pyo3_stub_gen::ir::{MethodType, Module, Parameter, ParameterKind, VariantForm};
use pyo3_stub_gen::registry::{
    complex_enum_union, MemberInfo, MethodInfo, ModuleDocInfo, PyClassInfo, PyComplexEnumInfo,
    PyEnumInfo, PyFunctionInfo, PyMethodsInfo, PyVariableInfo, Registry, VariantInfo,
};
use pyo3_stub_gen::stub_info::{BuildError, PyProject, StubInfo};
use pyo3_stub_gen::type_info::TypeInfo;

fn class(id: u64, name: &str, module: Option<&str>) -> PyClassInfo {
    PyClassInfo {
        struct_id: id,
        pyclass_name: name.to_string(),
        module: module.map(|m| m.to_string()),
        bases: Vec::new(),
        doc: String::new(),
    }
}

fn member(name: &str, ty: &str, is_abstract: bool) -> MemberInfo {
    MemberInfo {
        name: name.to_string(),
        type_info: TypeInfo::builtin(ty),
        doc: String::new(),
        default: None,
        deprecated: None,
        is_abstract,
    }
}

fn method(name: &str, ret: &str) -> MethodInfo {
    MethodInfo {
        name: name.to_string(),
        parameters: Vec::new(),
        ret: TypeInfo::builtin(ret),
        doc: String::new(),
        kind: MethodType::Instance,
        is_async: false,
        deprecated: None,
        type_ignored: None,
        is_abstract: false,
    }
}

fn build(registry: Registry) -> StubInfo {
    StubInfo::from_project_root("root_mod".to_string(), "out".to_string(), registry)
        .expect("build should succeed")
}

fn module_named<'a>(info: &'a StubInfo, name: &str) -> &'a Module {
    for (k, m) in info.modules.entries.iter() {
        if k == name {
            return m;
        }
    }
    panic!("module not found");
}

#[test]
fn merge_joins_shape_and_behavior_by_identity_key() {
    let mut r = Registry::new();
    r.classes.push(class(7, "Widget", None));
    r.methods.push(PyMethodsInfo {
        struct_id: 7,
        attrs: vec![member("size", "int", false)],
        getters: vec![member("label", "str", false)],
        setters: vec![member("label", "str", false)],
        methods: vec![method("refresh", "None"), method("refresh", "int")],
    });
    let info = build(r);
    let m = module_named(&info, "root_mod");
    assert_eq!(m.class.entries.len(), 1);
    let cd = &m.class.entries[0].1;
    assert_eq!(cd.name, "Widget");
    assert_eq!(cd.attrs.len(), 1);
    assert_eq!(cd.attrs[0].name, "size");
    let gs = &cd.getter_setters.entries;
    assert_eq!(gs.len(), 1);
    assert!(gs[0].1.getter.is_some());
    assert!(gs[0].1.setter.is_some());
    let methods = &cd.methods.entries;
    assert_eq!(methods.len(), 1);
    assert_eq!(methods[0].0, "refresh");
    assert_eq!(methods[0].1.len(), 2);
    assert_eq!(methods[0].1[0].ret.name, "None");
    assert_eq!(methods[0].1[1].ret.name, "int");
}

#[test]
fn methods_block_without_shape_fails_the_build() {
    let mut r = Registry::new();
    r.classes.push(class(7, "Widget", None));
    r.methods.push(PyMethodsInfo {
        struct_id: 8,
        attrs: Vec::new(),
        getters: Vec::new(),
        setters: Vec::new(),
        methods: vec![method("orphan", "None")],
    });
    let result =
        StubInfo::from_project_root("root_mod".to_string(), "out".to_string(), r);
    assert!(result.is_err());
    assert_eq!(result.err().unwrap(), BuildError::MissingTypeShape(8));
}

#[test]
fn abstract_getter_marks_class_abstract() {
    let mut r = Registry::new();
    r.classes.push(class(1, "Shape", None));
    r.methods.push(PyMethodsInfo {
        struct_id: 1,
        attrs: Vec::new(),
        getters: vec![member("area", "float", true)],
        setters: Vec::new(),
        methods: Vec::new(),
    });
    let info = build(r);
    let m = module_named(&info, "root_mod");
    let cd = &m.class.entries[0].1;
    assert!(cd.is_abstract);
    let files = info.stub_files();
    assert!(files[0].content.contains("class Shape(metaclass=abc.ABCMeta):"));
    assert!(files[0].content.contains("import abc\n"));
}

#[test]
fn generation_is_identical_for_any_registration_order() {
    let make = |flip: bool| {
        let mut r = Registry::new();
        let mut items = vec![
            class(2, "Beta", Some("pkg")),
            class(1, "Alpha", Some("pkg")),
        ];
        if flip {
            items.reverse();
        }
        for c in items {
            r.classes.push(c);
        }
        r.variables.push(PyVariableInfo {
            name: "Z".to_string(),
            module: "pkg".to_string(),
            type_info: TypeInfo::builtin("int"),
        });
        r.variables.push(PyVariableInfo {
            name: "A".to_string(),
            module: "pkg".to_string(),
            type_info: TypeInfo::builtin("int"),
        });
        build(r)
    };
    let a = make(false).stub_files();
    let b = make(true).stub_files();
    assert_eq!(a.len(), b.len());
    for (x, y) in a.iter().zip(b.iter()) {
        assert_eq!(x.path, y.path);
        assert_eq!(x.content, y.content);
    }
}

#[test]
fn single_field_tuple_variant_collapses_into_union() {
    let circle = VariantInfo {
        pyclass_name: "circle".to_string(),
        form: VariantForm::Tuple,
        fields: vec![member("_0", "float", false)],
        constr_args: vec![Parameter {
            name: "_0".to_string(),
            kind: ParameterKind::PositionalOrKeyword,
            type_info: TypeInfo::builtin("float"),
            default: None,
        }],
        doc: String::new(),
        is_mapping: false,
    };
    let center = VariantInfo {
        pyclass_name: "center".to_string(),
        form: VariantForm::Unit,
        fields: Vec::new(),
        constr_args: Vec::new(),
        doc: String::new(),
        is_mapping: false,
    };
    let info = PyComplexEnumInfo {
        enum_id: 9,
        pyclass_name: "Shape".to_string(),
        module: None,
        variants: vec![circle, center],
        doc: String::new(),
    };
    let union = complex_enum_union(&info).expect("variants exist");
    assert_eq!(union.name, "float | Shape.center");

    let empty = PyComplexEnumInfo {
        enum_id: 10,
        pyclass_name: "Nothing".to_string(),
        module: None,
        variants: Vec::new(),
        doc: String::new(),
    };
    assert!(complex_enum_union(&empty).is_none());
}

#[test]
fn tuple_variant_pseudo_class_gets_sequence_protocol() {
    let mut r = Registry::new();
    r.complex_enums.push(PyComplexEnumInfo {
        enum_id: 9,
        pyclass_name: "Shape".to_string(),
        module: None,
        variants: vec![
            VariantInfo {
                pyclass_name: "circle".to_string(),
                form: VariantForm::Tuple,
                fields: vec![member("_0", "float", false)],
                constr_args: vec![Parameter {
                    name: "_0".to_string(),
                    kind: ParameterKind::PositionalOrKeyword,
                    type_info: TypeInfo::builtin("float"),
                    default: None,
                }],
                doc: String::new(),
                is_mapping: false,
            },
            VariantInfo {
                pyclass_name: "table".to_string(),
                form: VariantForm::Struct,
                fields: vec![member("rows", "int", false)],
                constr_args: Vec::new(),
                doc: String::new(),
                is_mapping: true,
            },
        ],
        doc: String::new(),
    });
    let info = build(r);
    let text = &info.stub_files()[0].content;
    assert!(text.contains("class Shape:"));
    assert!(text.contains("    class circle:"));
    assert!(text.contains("def __new__(cls, _0: float) -> typing.Self: ..."));
    assert!(text.contains("def __len__(self) -> int: ..."));
    assert!(text.contains("def __getitem__(self, key: int) -> typing.Any: ..."));
    assert!(text.contains("    class table:"));
    // The mapping-flagged variant suppresses all synthesized behavior;
    // its body holds only its field.
    let table_at = text.find("class table:").unwrap();
    assert!(!text[table_at..].contains("__new__"));
}

#[test]
fn submodules_derive_from_dotted_names_in_any_order() {
    for order in 0..3 {
        let mut names = vec!["pkg", "pkg.sub", "pkg.sub.leaf"];
        names.rotate_left(order);
        let mut r = Registry::new();
        for n in names {
            r.module_docs.push(ModuleDocInfo {
                module: n.to_string(),
                doc: String::new(),
            });
        }
        let info = build(r);
        let pkg = module_named(&info, "pkg");
        assert_eq!(pkg.submodules.entries.len(), 1);
        assert_eq!(pkg.submodules.entries[0].0, "sub");
        let sub = module_named(&info, "pkg.sub");
        assert_eq!(sub.submodules.entries.len(), 1);
        assert_eq!(sub.submodules.entries[0].0, "leaf");
        let leaf = module_named(&info, "pkg.sub.leaf");
        assert_eq!(leaf.submodules.entries.len(), 0);
    }
}

#[test]
fn destination_paths_follow_dotted_names_and_submodules() {
    let mut r = Registry::new();
    for n in ["pkg", "pkg.sub", "my-lib"] {
        r.module_docs.push(ModuleDocInfo {
            module: n.to_string(),
            doc: String::new(),
        });
    }
    let info = build(r);
    let files = info.stub_files();
    let paths: Vec<&str> = files.iter().map(|f| f.path.as_str()).collect();
    assert!(paths.contains(&"out/my_lib.pyi"));
    assert!(paths.contains(&"out/pkg/__init__.pyi"));
    assert!(paths.contains(&"out/pkg/sub.pyi"));
}

#[test]
fn module_header_imports_are_deduplicated_and_skip_self() {
    let mut r = Registry::new();
    r.functions.push(PyFunctionInfo {
        name: "go".to_string(),
        module: Some("app_mod".to_string()),
        parameters: vec![Parameter {
            name: "x".to_string(),
            kind: ParameterKind::PositionalOrKeyword,
            type_info: TypeInfo::locally_defined("Thing", Some("other_mod")),
            default: None,
        }],
        ret: TypeInfo::locally_defined("Thing", Some("other_mod")),
        doc: String::new(),
        is_async: false,
        deprecated: None,
        type_ignored: None,
    });
    r.functions.push(PyFunctionInfo {
        name: "stay".to_string(),
        module: Some("app_mod".to_string()),
        parameters: Vec::new(),
        ret: TypeInfo::locally_defined("Here", Some("app_mod")),
        doc: String::new(),
        is_async: false,
        deprecated: None,
        type_ignored: None,
    });
    let info = build(r);
    let text = &info.stub_files()[0].content;
    assert_eq!(text.matches("import other_mod\n").count(), 1);
    assert!(!text.contains("import app_mod"));
}

#[test]
fn plain_enum_variants_render_in_declared_order() {
    let mut r = Registry::new();
    r.enums.push(PyEnumInfo {
        enum_id: 4,
        pyclass_name: "Color".to_string(),
        module: None,
        variants: vec!["RED".to_string(), "GREEN".to_string()],
        doc: "Colors.".to_string(),
    });
    let info = build(r);
    let text = &info.stub_files()[0].content;
    assert!(text.contains("class Color:"));
    let red = text.find("RED = ...").unwrap();
    let green = text.find("GREEN = ...").unwrap();
    assert!(red < green);
}

#[test]
fn pyproject_metadata_configures_the_builder() {
    let r = Registry::new();
    let info = StubInfo::from_pyproject_toml(
        PyProject {
            module_name: "mylib".to_string(),
            python_source: Some("python".to_string()),
            requires_python: Some(">=3.8".to_string()),
        },
        r,
    )
    .expect("empty build succeeds");
    assert_eq!(info.python_root, "python");

    let mut r2 = Registry::new();
    r2.classes.push(class(3, "Late", None));
    r2.methods.push(PyMethodsInfo {
        struct_id: 3,
        attrs: Vec::new(),
        getters: Vec::new(),
        setters: Vec::new(),
        methods: vec![MethodInfo {
            name: "__new__".to_string(),
            parameters: Vec::new(),
            ret: TypeInfo::builtin("object"),
            doc: String::new(),
            kind: MethodType::New,
            is_async: false,
            deprecated: None,
            type_ignored: None,
            is_abstract: false,
        }],
    });
    let info2 = StubInfo::from_pyproject_toml(
        PyProject {
            module_name: "mylib".to_string(),
            python_source: Some("python".to_string()),
            requires_python: Some(">=3.8".to_string()),
        },
        r2,
    )
    .expect("build succeeds");
    let text = &info2.stub_files()[0].content;
    // Below (3, 11) the older self-import spelling is used for the
    // constructor's return type.
    assert!(text.contains("def __new__(cls) -> typing_extensions.Self:"));
    assert!(text.contains("import typing_extensions\n"));
}

#[test]
fn build_error_carries_a_readable_message() {
    let e = BuildError::MissingTypeShape(5);
    assert!(e.message().len() > 0);
}

#[test]
fn union_terms_carry_their_field_type_imports() {
    let info = PyComplexEnumInfo {
        enum_id: 11,
        pyclass_name: "Wrapper".to_string(),
        module: None,
        variants: vec![VariantInfo {
            pyclass_name: "inner".to_string(),
            form: VariantForm::Tuple,
            fields: vec![member("_0", "Other", false)],
            constr_args: vec![Parameter {
                name: "_0".to_string(),
                kind: ParameterKind::PositionalOrKeyword,
                type_info: TypeInfo::locally_defined("Other", Some("other_mod")),
                default: None,
            }],
            doc: String::new(),
            is_mapping: false,
        }],
        doc: String::new(),
    };
    let union = complex_enum_union(&info).expect("one variant");
    assert_eq!(union.name, "Other");
    let keys: Vec<&str> = union.import.entries.iter().map(|e| e.0.as_str()).collect();
    assert_eq!(keys, vec!["other_mod"]);
}

#[test]
fn abstract_method_marks_enum_abstract() {
    let mut r = Registry::new();
    r.enums.push(PyEnumInfo {
        enum_id: 6,
        pyclass_name: "Mode".to_string(),
        module: None,
        variants: vec!["ON".to_string()],
        doc: String::new(),
    });
    let mut m = method("switch", "None");
    m.is_abstract = true;
    r.methods.push(PyMethodsInfo {
        struct_id: 6,
        attrs: Vec::new(),
        getters: Vec::new(),
        setters: Vec::new(),
        methods: vec![m],
    });
    let info = build(r);
    let module = module_named(&info, "root_mod");
    assert!(module.enum_.entries[0].1.is_abstract);
    let text = &info.stub_files()[0].content;
    assert!(text.contains("class Mode(metaclass=abc.ABCMeta):"));
    assert!(text.contains("import abc
"));
}

#[test]
fn variant_methods_bring_their_imports_into_the_header() {
    let make_enum = || PyComplexEnumInfo {
        enum_id: 12,
        pyclass_name: "Shape".to_string(),
        module: None,
        variants: vec![VariantInfo {
            pyclass_name: "circle".to_string(),
            form: VariantForm::Tuple,
            fields: vec![member("_0", "float", false)],
            constr_args: vec![Parameter {
                name: "_0".to_string(),
                kind: ParameterKind::PositionalOrKeyword,
                type_info: TypeInfo::builtin("float"),
                default: None,
            }],
            doc: String::new(),
            is_mapping: false,
        }],
        doc: String::new(),
    };

    // Under the newer strategy the synthesized constructor returns
    // typing.Self and item access returns typing.Any: typing must be
    // imported.
    let mut r = Registry::new();
    r.complex_enums.push(make_enum());
    let text = &build(r).stub_files()[0].content;
    assert!(text.contains("-> typing.Self:"));
    assert!(text.contains("import typing\n"));

    // Under the older strategy the constructor needs typing_extensions,
    // and the tuple variant's item access still needs typing.
    let mut r2 = Registry::new();
    r2.complex_enums.push(make_enum());
    let info2 = StubInfo::from_pyproject_toml(
        PyProject {
            module_name: "root_mod".to_string(),
            python_source: Some("out".to_string()),
            requires_python: Some(">=3.8".to_string()),
        },
        r2,
    )
    .expect("build succeeds");
    let text2 = &info2.stub_files()[0].content;
    assert!(text2.contains("-> typing_extensions.Self:"));
    assert!(text2.contains("import typing_extensions\n"));
    assert!(text2.contains("import typing\n"));
}

#[test]
fn plain_attributes_never_pull_in_the_abstract_support_import() {
    let mut r = Registry::new();
    r.classes.push(class(13, "Plain", None));
    r.methods.push(PyMethodsInfo {
        struct_id: 13,
        // The abstract flag on an attribute descriptor is meaningless:
        // attributes are merged with abstractness forced off and render
        // no marker, so no support import may appear.
        attrs: vec![member("value", "int", true)],
        getters: Vec::new(),
        setters: Vec::new(),
        methods: Vec::new(),
    });
    let info = build(r);
    let m = module_named(&info, "root_mod");
    assert!(!m.class.entries[0].1.is_abstract);
    let text = &info.stub_files()[0].content;
    assert!(!text.contains("import abc"));
    assert!(!text.contains("abc.ABCMeta"));
}
