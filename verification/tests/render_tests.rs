use pyo3_stub_gen::ir::{
    DefaultValue, DeprecatedInfo, FunctionDef, IgnoreTarget, MemberDef, MethodDef, MethodType,
    Parameter, ParameterKind, Parameters, VariableDef,
};
use pyo3_stub_gen::render::{
    render_function, render_member, render_method, render_param, render_variable,
};
use pyo3_stub_gen::type_info::TypeInfo;

fn simple_method(name: &str, kind: MethodType, is_abstract: bool) -> MethodDef {
    MethodDef {
        name: name.to_string(),
        parameters: Parameters::new(),
        ret: TypeInfo::builtin("int"),
        doc: String::new(),
        kind,
        is_async: false,
        deprecated: None,
        type_ignored: None,
        is_abstract,
    }
}

#[test]
fn abstract_instance_method_renders_decorator() {
    let method = simple_method("do_work", MethodType::Instance, true);
    let rendered = render_method(&method);
    assert!(rendered.contains("@abc.abstractmethod"));
    assert!(rendered.contains("def do_work(self"));
}

#[test]
fn static_method_renders_static_marker() {
    let method = simple_method("area", MethodType::Static, false);
    let rendered = render_method(&method);
    assert_eq!(rendered, "    @staticmethod\n    def area() -> int: ...\n");
}

#[test]
fn classmethod_marker_is_skipped_for_constructor() {
    let class_m = render_method(&simple_method("create", MethodType::Class, false));
    assert!(class_m.contains("@classmethod"));
    assert!(class_m.contains("def create(cls) -> int: ...\n"));
    let new_m = render_method(&simple_method("__new__", MethodType::New, false));
    assert!(!new_m.contains("@classmethod"));
    assert!(new_m.contains("def __new__(cls) -> int: ...\n"));
}

#[test]
fn suppression_comment_placement_depends_on_docstring() {
    let mut with_doc = simple_method("f", MethodType::Instance, false);
    with_doc.doc = "Explains f.".to_string();
    with_doc.type_ignored = Some(IgnoreTarget::All);
    let rendered = render_method(&with_doc);
    assert_eq!(
        rendered,
        "    def f(self) -> int:  # type: ignore\n        \"\"\"Explains f.\"\"\"\n"
    );

    let mut without_doc = simple_method("f", MethodType::Instance, false);
    without_doc.type_ignored = Some(IgnoreTarget::All);
    let rendered2 = render_method(&without_doc);
    assert_eq!(rendered2, "    def f(self) -> int: ...  # type: ignore\n");
}

#[test]
fn named_suppression_rules_render_as_given() {
    let mut m = simple_method("f", MethodType::Instance, false);
    m.type_ignored = Some(IgnoreTarget::Specified(vec![
        "misc".to_string(),
        "no-any-return".to_string(),
    ]));
    let rendered = render_method(&m);
    assert!(rendered.contains("  # type: ignore[misc,no-any-return]"));
}

#[test]
fn deprecated_method_gets_marker_line() {
    let mut m = simple_method("old_way", MethodType::Instance, false);
    m.deprecated = Some(DeprecatedInfo {
        message: "use new_way".to_string(),
    });
    let rendered = render_method(&m);
    assert!(rendered.starts_with("    @typing_extensions.deprecated(\"use new_way\")\n"));
}

#[test]
fn parameter_defaults_render_in_target_syntax() {
    let p = Parameter {
        name: "count".to_string(),
        kind: ParameterKind::PositionalOrKeyword,
        type_info: TypeInfo::builtin("int"),
        default: Some(DefaultValue::Int(-5)),
    };
    assert_eq!(render_param(&p), "count: int = -5");
    let q = Parameter {
        name: "label".to_string(),
        kind: ParameterKind::PositionalOrKeyword,
        type_info: TypeInfo::builtin("str"),
        default: Some(DefaultValue::Str("hi".to_string())),
    };
    assert_eq!(render_param(&q), "label: str = \"hi\"");
    let b = Parameter {
        name: "flag".to_string(),
        kind: ParameterKind::PositionalOrKeyword,
        type_info: TypeInfo::builtin("bool"),
        default: Some(DefaultValue::Bool(true)),
    };
    assert_eq!(render_param(&b), "flag: bool = True");
    let n = Parameter {
        name: "opt".to_string(),
        kind: ParameterKind::PositionalOrKeyword,
        type_info: TypeInfo::builtin("object"),
        default: Some(DefaultValue::NoneValue),
    };
    assert_eq!(render_param(&n), "opt: object = None");
}

#[test]
fn parameter_groups_render_in_grammar_order() {
    let mk = |name: &str, kind: ParameterKind| Parameter {
        name: name.to_string(),
        kind,
        type_info: TypeInfo::builtin("int"),
        default: None,
    };
    let params = Parameters::from_infos(vec![
        mk("a", ParameterKind::PositionalOnly),
        mk("b", ParameterKind::PositionalOrKeyword),
        mk("args", ParameterKind::VarPositional),
        mk("c", ParameterKind::KeywordOnly),
        mk("kwargs", ParameterKind::VarKeyword),
    ]);
    let mut f = simple_method("f", MethodType::Static, false);
    f.parameters = params;
    let rendered = render_method(&f);
    assert!(rendered.contains(
        "def f(a: int, /, b: int, *args: int, c: int, **kwargs: int) -> int: ...\n"
    ));
}

#[test]
fn keyword_only_without_variadic_gets_bare_star() {
    let mk = |name: &str, kind: ParameterKind| Parameter {
        name: name.to_string(),
        kind,
        type_info: TypeInfo::builtin("int"),
        default: None,
    };
    let params = Parameters::from_infos(vec![mk("c", ParameterKind::KeywordOnly)]);
    let mut f = simple_method("f", MethodType::Static, false);
    f.parameters = params;
    let rendered = render_method(&f);
    assert!(rendered.contains("def f(*, c: int) -> int: ...\n"));
}

#[test]
fn function_and_variable_render_at_top_level() {
    let f = FunctionDef {
        name: "flatten".to_string(),
        parameters: Parameters::new(),
        ret: TypeInfo::builtin("list"),
        doc: String::new(),
        is_async: true,
        deprecated: None,
        type_ignored: None,
    };
    assert_eq!(render_function(&f), "async def flatten() -> list: ...\n");
    let v = VariableDef {
        name: "VERSION".to_string(),
        type_info: TypeInfo::builtin("str"),
    };
    assert_eq!(render_variable(&v), "VERSION: str\n");
}

#[test]
fn member_renders_with_default_and_doc() {
    let m = MemberDef {
        name: "size".to_string(),
        type_info: TypeInfo::builtin("int"),
        doc: "How big.".to_string(),
        default: Some("0".to_string()),
        deprecated: None,
        is_abstract: false,
    };
    assert_eq!(
        render_member(&m),
        "    size: int = 0\n    \"\"\"How big.\"\"\"\n"
    );
}

#[test]
fn extreme_integer_default_renders_exactly() {
    let p = Parameter {
        name: "n".to_string(),
        kind: ParameterKind::PositionalOrKeyword,
        type_info: TypeInfo::builtin("int"),
        default: Some(DefaultValue::Int(i64::MIN)),
    };
    assert_eq!(render_param(&p), "n: int = -9223372036854775808");
}
