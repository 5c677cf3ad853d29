//! Rendering of the entity IR into stub text.
//!
//! Every renderer's contract gives the produced text exactly, as a
//! function of the rendered value; the format itself is therefore part of
//! the library's specification.

use vstd::prelude::*;
use vstd::string::{StringExecFns, StrSliceExecFns};
use crate::ir::{
    ClassDef, DefaultValue, DeprecatedInfo, EnumDef, FunctionDef, GetterSetter, IgnoreTarget,
    MemberDef, MethodDef, MethodType, Module, Parameter, Parameters, VariableDef, VariantDef,
};
use crate::ordmap::OrderedMap;
use crate::text::{push_idec, spec_idec};
use crate::ordmap::clone_string;

verus! {

/// One level of indentation.
pub open spec fn spec_indent() -> Seq<char> {
    "    "@
}

/// `items` joined by `sep`.
pub open spec fn spec_join(items: Seq<Seq<char>>, sep: Seq<char>) -> Seq<char>
    decreases items.len(),
{
    if items.len() == 0 {
        Seq::empty()
    } else if items.len() == 1 {
        items[0]
    } else {
        spec_join(items.drop_last(), sep) + sep + items.last()
    }
}

/// The views of a vector of strings.
pub open spec fn views_of(items: Seq<String>) -> Seq<Seq<char>> {
    items.map_values(|s: String| s@)
}

/// Joins rendered pieces with a separator.
pub fn join_strings(items: &Vec<String>, sep: &str) -> (r: String)
    ensures
        r@ == spec_join(views_of(items@), sep@),
{
    let mut out = String::new();
    let n = items.len();
    let mut i: usize = 0;
    proof {
        assert(views_of(items@).take(0) =~= Seq::<Seq<char>>::empty());
    }
    while i < n
        invariant
            0 <= i <= n,
            n == items@.len(),
            out@ == spec_join(views_of(items@).take(i as int), sep@),
        decreases n - i,
    {
        if i > 0 {
            out.append(sep);
        }
        out.append(items[i].as_str());
        proof {
            let vs = views_of(items@);
            assert(vs.take(i + 1).drop_last() =~= vs.take(i as int));
            assert(vs.take(i + 1).last() == vs[i as int]);
            assert(vs[i as int] == items@[i as int]@);
            if i == 0 {
                assert(vs.take(1).len() == 1);
                assert(out@ == vs.take(1)[0]);
            }
        }
        i = i + 1;
    }
    proof {
        assert(views_of(items@).take(n as int) =~= views_of(items@));
    }
    out
}

/// A native default value, spelled in target literal syntax.
pub open spec fn spec_default_text(d: DefaultValue) -> Seq<char> {
    match d {
        DefaultValue::Int(v) => spec_idec(v as int),
        DefaultValue::Bool(b) => if b {
            "True"@
        } else {
            "False"@
        },
        DefaultValue::Str(s) => "\""@ + s@ + "\""@,
        DefaultValue::NoneValue => "None"@,
        DefaultValue::Raw(s) => s@,
    }
}

/// Writes a default value in target literal syntax. A string value is
/// wrapped in quotes as supplied, with no further escaping: the shape of
/// default-value text is trusted as the front end produced it.
pub fn push_default(out: &mut String, d: &DefaultValue)
    ensures
        final(out)@ == old(out)@ + spec_default_text(*d),
{
    match d {
        DefaultValue::Int(v) => push_idec(out, *v),
        DefaultValue::Bool(b) => {
            if *b {
                out.append("True");
            } else {
                out.append("False");
            }
        },
        DefaultValue::Str(s) => {
            out.append("\"");
            out.append(s.as_str());
            out.append("\"");
        },
        DefaultValue::NoneValue => out.append("None"),
        DefaultValue::Raw(s) => out.append(s.as_str()),
    }
}

/// One parameter: its name, type, and default if any.
pub open spec fn spec_param_text(p: Parameter) -> Seq<char> {
    let base = p.name@ + ": "@ + p.type_info.spec_text();
    match p.default {
        Some(d) => base + " = "@ + spec_default_text(d),
        None => base,
    }
}

/// Renders one parameter.
pub fn render_param(p: &Parameter) -> (r: String)
    ensures
        r@ == spec_param_text(*p),
{
    let mut out = clone_string(&p.name);
    out.append(": ");
    out.append(p.type_info.name.as_str());
    if let Some(d) = &p.default {
        out.append(" = ");
        push_default(&mut out, d);
    }
    out
}

/// The comma-separated pieces of a parameter list, in the target
/// grammar's required order: positional-only (closed by `/`),
/// positional-or-keyword, the variadic positional, keyword-only (opened
/// by a bare `*` when no variadic positional stands before them), and
/// the variadic keyword.
pub open spec fn spec_param_items(ps: Parameters) -> Seq<Seq<char>> {
    ps.positional_only@.map_values(|p: Parameter| spec_param_text(p)) + (if ps.positional_only@.len()
        > 0 {
        seq!["/"@]
    } else {
        Seq::<Seq<char>>::empty()
    }) + ps.positional_or_keyword@.map_values(|p: Parameter| spec_param_text(p)) + (
    match ps.var_positional {
        Some(p) => seq!["*"@ + spec_param_text(p)],
        None => Seq::<Seq<char>>::empty(),
    }) + (if ps.keyword_only@.len() > 0 && ps.var_positional is None {
        seq!["*"@]
    } else {
        Seq::<Seq<char>>::empty()
    }) + ps.keyword_only@.map_values(|p: Parameter| spec_param_text(p)) + (match ps.var_keyword {
        Some(p) => seq!["**"@ + spec_param_text(p)],
        None => Seq::<Seq<char>>::empty(),
    })
}

/// The full parameter list text.
pub open spec fn spec_params_text(ps: Parameters) -> Seq<char> {
    spec_join(spec_param_items(ps), ", "@)
}

/// Appends one rendered piece to `items`.
fn push_one(items: &mut Vec<String>, s: String)
    ensures
        views_of(final(items)@) == views_of(old(items)@) + seq![s@],
{
    let ghost sv = s@;
    items.push(s);
    proof {
        assert(views_of(items@) =~= views_of(old(items)@) + seq![sv]);
    }
}

/// Appends the rendered views of `group` to `items`.
fn push_group(items: &mut Vec<String>, group: &Vec<Parameter>)
    ensures
        views_of(final(items)@) == views_of(old(items)@) + group@.map_values(
            |p: Parameter| spec_param_text(p),
        ),
{
    let n = group.len();
    let mut i: usize = 0;
    proof {
        assert(views_of(items@) =~= views_of(items@) + group@.map_values(
            |p: Parameter| spec_param_text(p),
        ).take(0));
    }
    while i < n
        invariant
            0 <= i <= n,
            n == group@.len(),
            views_of(items@) == views_of(old(items)@) + group@.map_values(
                |p: Parameter| spec_param_text(p),
            ).take(i as int),
        decreases n - i,
    {
        let s = render_param(&group[i]);
        let ghost sv = s@;
        items.push(s);
        proof {
            let g = group@.map_values(|p: Parameter| spec_param_text(p));
            assert(g.take(i + 1) =~= g.take(i as int).push(g[i as int]));
            assert(g[i as int] == spec_param_text(group@[i as int]));
            assert(views_of(items@) =~= (views_of(old(items)@) + g.take(i as int)).push(sv));
            assert(views_of(items@) =~= views_of(old(items)@) + g.take(i + 1));
        }
        i = i + 1;
    }
    proof {
        let g = group@.map_values(|p: Parameter| spec_param_text(p));
        assert(g.take(n as int) =~= g);
    }
}

/// Renders a parameter list.
pub fn render_params(ps: &Parameters) -> (r: String)
    ensures
        r@ == spec_params_text(*ps),
{
    let mut items: Vec<String> = Vec::new();
    proof {
        assert(views_of(items@) =~= Seq::<Seq<char>>::empty());
    }
    push_group(&mut items, &ps.positional_only);
    if ps.positional_only.len() > 0 {
        push_one(&mut items, String::from_str("/"));
        proof {
            reveal_strlit("/");
        }
    }
    push_group(&mut items, &ps.positional_or_keyword);
    if let Some(p) = &ps.var_positional {
        let mut s = String::from_str("*");
        let t = render_param(p);
        s.append(t.as_str());
        push_one(&mut items, s);
    }
    if ps.keyword_only.len() > 0 && ps.var_positional.is_none() {
        push_one(&mut items, String::from_str("*"));
    }
    push_group(&mut items, &ps.keyword_only);
    if let Some(p) = &ps.var_keyword {
        let mut s = String::from_str("**");
        let t = render_param(p);
        s.append(t.as_str());
        push_one(&mut items, s);
    }
    proof {
        assert(views_of(items@) =~= spec_param_items(*ps));
    }
    join_strings(&items, ", ")
}

/// The deprecation decorator line above a callable.
pub open spec fn spec_deprecated_line(d: DeprecatedInfo, ind: Seq<char>) -> Seq<char> {
    ind + "@typing_extensions.deprecated(\""@ + d.message@ + "\")"@ + "\n"@
}

fn push_deprecated_line(out: &mut String, d: &DeprecatedInfo, ind: &str)
    ensures
        final(out)@ == old(out)@ + spec_deprecated_line(*d, ind@),
{
    out.append(ind);
    out.append("@typing_extensions.deprecated(\"");
    out.append(d.message.as_str());
    out.append("\")");
    out.append("\n");
}

/// The trailing diagnostic-suppression comment, if one is attached: all
/// diagnostics, or the named rules as supplied.
pub open spec fn spec_ignore_comment(t: Option<IgnoreTarget>) -> Seq<char> {
    match t {
        None => Seq::empty(),
        Some(IgnoreTarget::All) => "  # type: ignore"@,
        Some(IgnoreTarget::Specified(rules)) => "  # type: ignore["@ + spec_join(
            views_of(rules@),
            ","@,
        ) + "]"@,
    }
}

fn push_ignore_comment(out: &mut String, t: &Option<IgnoreTarget>)
    ensures
        final(out)@ == old(out)@ + spec_ignore_comment(*t),
{
    match t {
        None => {},
        Some(IgnoreTarget::All) => out.append("  # type: ignore"),
        Some(IgnoreTarget::Specified(rules)) => {
            out.append("  # type: ignore[");
            let joined = join_strings(rules, ",");
            out.append(joined.as_str());
            out.append("]");
        },
    }
}

/// An indented documentation block.
pub open spec fn spec_docstring(doc: Seq<char>, ind: Seq<char>) -> Seq<char> {
    ind + "\"\"\""@ + doc + "\"\"\""@ + "\n"@
}

fn push_docstring(out: &mut String, doc: &String, ind: &str)
    ensures
        final(out)@ == old(out)@ + spec_docstring(doc@, ind@),
{
    out.append(ind);
    out.append("\"\"\"");
    out.append(doc.as_str());
    out.append("\"\"\"");
    out.append("\n");
}

/// Whether a parameter list has no declared parameter.
pub open spec fn spec_params_is_empty(ps: Parameters) -> bool {
    ps.positional_only@.len() == 0 && ps.positional_or_keyword@.len() == 0 && ps.var_positional
        is None && ps.keyword_only@.len() == 0 && ps.var_keyword is None
}

/// The deprecation line of a callable, or nothing.
pub open spec fn spec_method_dep(m: MethodDef, ind: Seq<char>) -> Seq<char> {
    match m.deprecated {
        Some(d) => spec_deprecated_line(d, ind),
        None => Seq::<char>::empty(),
    }
}

/// A method's decorators and signature line, up to the closing
/// parenthesis: the kind's decorator (`@staticmethod`, `@classmethod`
/// except for the constructor, which is a classmethod in effect but never
/// marked), `@abc.abstractmethod` after the kind marker when abstract,
/// the asynchronous marker, the name, and the parameter list with its
/// implicit receiver.
pub open spec fn spec_method_sig(m: MethodDef, ind: Seq<char>) -> Seq<char> {
    let async_ = if m.is_async {
        "async "@
    } else {
        Seq::<char>::empty()
    };
    let abs = if m.is_abstract {
        ind + "@abc.abstractmethod"@ + "\n"@
    } else {
        Seq::<char>::empty()
    };
    let params = spec_params_text(m.parameters);
    let params_str = if spec_params_is_empty(m.parameters) {
        Seq::<char>::empty()
    } else {
        ", "@ + params
    };
    match m.kind {
        MethodType::Static => ind + "@staticmethod"@ + "\n"@ + abs + ind + async_ + "def "@
            + m.name@ + "("@ + params + ")"@,
        MethodType::Class => ind + "@classmethod"@ + "\n"@ + abs + ind + async_ + "def "@ + m.name@
            + "(cls"@ + params_str + ")"@,
        MethodType::New => abs + ind + async_ + "def "@ + m.name@ + "(cls"@ + params_str + ")"@,
        MethodType::Instance => abs + ind + async_ + "def "@ + m.name@ + "(self"@ + params_str
            + ")"@,
    }
}

/// A method's full rendering: the deprecation line, the decorators and
/// signature, the return type, then either the empty-body marker with the
/// suppression comment after it, or the suppression comment directly
/// after the signature followed by the documentation block — the two
/// placements differ on purpose.
pub open spec fn spec_method_text_at(m: MethodDef, ind: Seq<char>) -> Seq<char> {
    let head = spec_method_dep(m, ind) + spec_method_sig(m, ind) + " -> "@ + m.ret.spec_text()
        + ":"@;
    let ign = spec_ignore_comment(m.type_ignored);
    if m.doc@.len() > 0 {
        head + ign + "\n"@ + spec_docstring(m.doc@, ind + spec_indent())
    } else {
        head + " ..."@ + ign + "\n"@
    }
}

/// A method at the usual class-body indentation.
pub open spec fn spec_method_text(m: MethodDef) -> Seq<char> {
    spec_method_text_at(m, spec_indent())
}

/// Renders a method's decorators and signature line.
#[verifier::rlimit(100)]
fn render_method_sig(m: &MethodDef, ind: &str) -> (r: String)
    ensures
        r@ == spec_method_sig(*m, ind@),
{
    let ghost gind = ind@;
    let mut out = String::new();
    let params = render_params(&m.parameters);
    let empty = m.parameters.is_empty();
    let ghost abs: Seq<char> = if m.is_abstract {
        gind + "@abc.abstractmethod"@ + "\n"@
    } else {
        Seq::<char>::empty()
    };
    let ghost async_: Seq<char> = if m.is_async {
        "async "@
    } else {
        Seq::<char>::empty()
    };
    let ghost params_str: Seq<char> = if spec_params_is_empty(m.parameters) {
        Seq::<char>::empty()
    } else {
        ", "@ + spec_params_text(m.parameters)
    };
    match m.kind {
        MethodType::Static => {
            out.append(ind);
            out.append("@staticmethod");
            out.append("\n");
            if m.is_abstract {
                out.append(ind);
                out.append("@abc.abstractmethod");
                out.append("\n");
            }
            out.append(ind);
            if m.is_async {
                out.append("async ");
            }
            out.append("def ");
            out.append(m.name.as_str());
            out.append("(");
            out.append(params.as_str());
            out.append(")");
            proof {
                assert(out@ =~= gind + "@staticmethod"@ + "\n"@ + abs + gind + async_ + "def "@
                    + m.name@ + "("@ + spec_params_text(m.parameters) + ")"@);
            }
        },
        MethodType::Class | MethodType::New => {
            if matches!(m.kind, MethodType::Class) {
                out.append(ind);
                out.append("@classmethod");
                out.append("\n");
            }
            if m.is_abstract {
                out.append(ind);
                out.append("@abc.abstractmethod");
                out.append("\n");
            }
            out.append(ind);
            if m.is_async {
                out.append("async ");
            }
            out.append("def ");
            out.append(m.name.as_str());
            out.append("(cls");
            if !empty {
                out.append(", ");
                out.append(params.as_str());
            }
            out.append(")");
            proof {
                if m.kind is Class {
                    assert(out@ =~= gind + "@classmethod"@ + "\n"@ + abs + gind + async_
                        + "def "@ + m.name@ + "(cls"@ + params_str + ")"@);
                } else {
                    assert(out@ =~= abs + gind + async_ + "def "@ + m.name@ + "(cls"@ + params_str
                        + ")"@);
                }
            }
        },
        MethodType::Instance => {
            if m.is_abstract {
                out.append(ind);
                out.append("@abc.abstractmethod");
                out.append("\n");
            }
            out.append(ind);
            if m.is_async {
                out.append("async ");
            }
            out.append("def ");
            out.append(m.name.as_str());
            out.append("(self");
            if !empty {
                out.append(", ");
                out.append(params.as_str());
            }
            out.append(")");
            proof {
                assert(out@ =~= abs + gind + async_ + "def "@ + m.name@ + "(self"@ + params_str
                    + ")"@);
            }
        },
    }
    out
}

/// Renders one method.
#[verifier::rlimit(100)]
pub fn render_method_at(m: &MethodDef, ind: &str) -> (r: String)
    ensures
        r@ == spec_method_text_at(*m, ind@),
{
    let ghost gind = ind@;
    let mut out = String::new();
    if let Some(d) = &m.deprecated {
        push_deprecated_line(&mut out, d, ind);
    }
    proof {
        assert(out@ =~= spec_method_dep(*m, gind));
    }
    let sig = render_method_sig(m, ind);
    out.append(sig.as_str());
    out.append(" -> ");
    out.append(m.ret.name.as_str());
    out.append(":");
    let ghost head: Seq<char> = spec_method_dep(*m, gind) + spec_method_sig(*m, gind) + " -> "@
        + m.ret.spec_text() + ":"@;
    proof {
        assert(out@ =~= head);
    }
    if m.doc.as_str().unicode_len() > 0 {
        push_ignore_comment(&mut out, &m.type_ignored);
        out.append("\n");
        let mut dind = String::from_str(ind);
        dind.append("    ");
        push_docstring(&mut out, &m.doc, dind.as_str());
        proof {
            assert(out@ =~= head + spec_ignore_comment(m.type_ignored) + "\n"@ + spec_docstring(
                m.doc@,
                gind + spec_indent(),
            ));
            assert(out@ =~= spec_method_text_at(*m, gind));
        }
    } else {
        out.append(" ...");
        push_ignore_comment(&mut out, &m.type_ignored);
        out.append("\n");
        proof {
            assert(out@ =~= head + " ..."@ + spec_ignore_comment(m.type_ignored) + "\n"@);
            assert(out@ =~= spec_method_text_at(*m, gind));
        }
    }
    out
}

/// Renders one method at the usual class-body indentation.
pub fn render_method(m: &MethodDef) -> (r: String)
    ensures
        r@ == spec_method_text(*m),
{
    render_method_at(m, "    ")
}

/// A free function's full rendering, parallel to a method's but at top
/// level and without a receiver.
pub open spec fn spec_function_text(f: FunctionDef) -> Seq<char> {
    let ind = spec_indent();
    let dep = match f.deprecated {
        Some(d) => spec_deprecated_line(d, Seq::<char>::empty()),
        None => Seq::<char>::empty(),
    };
    let async_ = if f.is_async {
        "async "@
    } else {
        Seq::<char>::empty()
    };
    let head = dep + async_ + "def "@ + f.name@ + "("@ + spec_params_text(f.parameters) + ")"@
        + " -> "@ + f.ret.spec_text() + ":"@;
    let ign = spec_ignore_comment(f.type_ignored);
    if f.doc@.len() > 0 {
        head + ign + "\n"@ + spec_docstring(f.doc@, ind)
    } else {
        head + " ..."@ + ign + "\n"@
    }
}

/// Renders one free function.
#[verifier::rlimit(100)]
pub fn render_function(f: &FunctionDef) -> (r: String)
    ensures
        r@ == spec_function_text(*f),
{
    let mut out = String::new();
    if let Some(d) = &f.deprecated {
        push_deprecated_line(&mut out, d, "");
        proof {
            reveal_strlit("");
        }
    }
    if f.is_async {
        out.append("async ");
    }
    out.append("def ");
    out.append(f.name.as_str());
    out.append("(");
    let params = render_params(&f.parameters);
    out.append(params.as_str());
    out.append(")");
    out.append(" -> ");
    out.append(f.ret.name.as_str());
    out.append(":");
    let ghost dep: Seq<char> = if f.deprecated is Some {
        spec_deprecated_line(f.deprecated.unwrap(), Seq::<char>::empty())
    } else {
        Seq::<char>::empty()
    };
    let ghost async_: Seq<char> = if f.is_async {
        "async "@
    } else {
        Seq::<char>::empty()
    };
    let ghost head: Seq<char> = dep + async_ + "def "@ + f.name@ + "("@ + spec_params_text(
        f.parameters,
    ) + ")"@ + " -> "@ + f.ret.spec_text() + ":"@;
    proof {
        assert(out@ =~= head);
    }
    if f.doc.as_str().unicode_len() > 0 {
        push_ignore_comment(&mut out, &f.type_ignored);
        out.append("\n");
        push_docstring(&mut out, &f.doc, "    ");
        proof {
            assert(out@ =~= spec_function_text(*f));
        }
    } else {
        out.append(" ...");
        push_ignore_comment(&mut out, &f.type_ignored);
        out.append("\n");
        proof {
            assert(out@ =~= spec_function_text(*f));
        }
    }
    out
}

/// A module-level variable's rendering.
pub open spec fn spec_variable_text(v: crate::ir::VariableDef) -> Seq<char> {
    v.name@ + ": "@ + v.type_info.spec_text() + "\n"@
}

/// Renders one module-level variable.
pub fn render_variable(v: &crate::ir::VariableDef) -> (r: String)
    ensures
        r@ == spec_variable_text(*v),
{
    let mut out = clone_string(&v.name);
    out.append(": ");
    out.append(v.type_info.name.as_str());
    out.append("\n");
    out
}

/// An attribute line inside a class body: a deprecation line when
/// deprecated, the name and type, the pre-rendered default if any, and a
/// documentation block when documented.
pub open spec fn spec_member_text_at(a: MemberDef, ind: Seq<char>) -> Seq<char> {
    let dep = match a.deprecated {
        Some(d) => spec_deprecated_line(d, ind),
        None => Seq::<char>::empty(),
    };
    let dfl = match a.default {
        Some(t) => " = "@ + t@,
        None => Seq::<char>::empty(),
    };
    let head = dep + ind + a.name@ + ": "@ + a.type_info.spec_text() + dfl + "\n"@;
    if a.doc@.len() > 0 {
        head + spec_docstring(a.doc@, ind)
    } else {
        head
    }
}

/// An attribute at the usual class-body indentation.
pub open spec fn spec_member_text(a: MemberDef) -> Seq<char> {
    spec_member_text_at(a, spec_indent())
}

/// Renders one attribute of a class or enum body.
pub fn render_member_at(a: &MemberDef, ind: &str) -> (r: String)
    ensures
        r@ == spec_member_text_at(*a, ind@),
{
    let mut out = String::new();
    if let Some(d) = &a.deprecated {
        push_deprecated_line(&mut out, d, ind);
    }
    out.append(ind);
    out.append(a.name.as_str());
    out.append(": ");
    out.append(a.type_info.name.as_str());
    if let Some(t) = &a.default {
        out.append(" = ");
        out.append(t.as_str());
    }
    out.append("\n");
    if a.doc.as_str().unicode_len() > 0 {
        push_docstring(&mut out, &a.doc, ind);
    }
    proof {
        assert(out@ =~= spec_member_text_at(*a, ind@));
    }
    out
}

/// Renders one attribute at the usual class-body indentation.
pub fn render_member(a: &MemberDef) -> (r: String)
    ensures
        r@ == spec_member_text(*a),
{
    render_member_at(a, "    ")
}

/// A getter rendered as a property: the `@property` decorator, the
/// abstract marker when abstract, and a read signature.
pub open spec fn spec_getter_text_at(g: MemberDef, ind: Seq<char>) -> Seq<char> {
    let abs = if g.is_abstract {
        ind + "@abc.abstractmethod"@ + "\n"@
    } else {
        Seq::<char>::empty()
    };
    let head = ind + "@property"@ + "\n"@ + abs + ind + "def "@ + g.name@ + "(self) -> "@
        + g.type_info.spec_text() + ":"@;
    if g.doc@.len() > 0 {
        head + "\n"@ + spec_docstring(g.doc@, ind + spec_indent())
    } else {
        head + " ..."@ + "\n"@
    }
}

/// A getter at the usual class-body indentation.
pub open spec fn spec_getter_text(g: MemberDef) -> Seq<char> {
    spec_getter_text_at(g, spec_indent())
}

/// Renders one getter.
pub fn render_getter_at(g: &MemberDef, ind: &str) -> (r: String)
    ensures
        r@ == spec_getter_text_at(*g, ind@),
{
    let mut out = String::new();
    out.append(ind);
    out.append("@property");
    out.append("\n");
    if g.is_abstract {
        out.append(ind);
        out.append("@abc.abstractmethod");
        out.append("\n");
    }
    out.append(ind);
    out.append("def ");
    out.append(g.name.as_str());
    out.append("(self) -> ");
    out.append(g.type_info.name.as_str());
    out.append(":");
    if g.doc.as_str().unicode_len() > 0 {
        out.append("\n");
        let mut dind = String::from_str(ind);
        dind.append("    ");
        push_docstring(&mut out, &g.doc, dind.as_str());
    } else {
        out.append(" ...");
        out.append("\n");
    }
    proof {
        assert(out@ =~= spec_getter_text_at(*g, ind@));
    }
    out
}

/// Renders one getter at the usual class-body indentation.
pub fn render_getter(g: &MemberDef) -> (r: String)
    ensures
        r@ == spec_getter_text(*g),
{
    render_getter_at(g, "    ")
}

/// A setter rendered as the property's write accessor.
pub open spec fn spec_setter_text_at(s: MemberDef, ind: Seq<char>) -> Seq<char> {
    let abs = if s.is_abstract {
        ind + "@abc.abstractmethod"@ + "\n"@
    } else {
        Seq::<char>::empty()
    };
    let head = ind + "@"@ + s.name@ + ".setter"@ + "\n"@ + abs + ind + "def "@ + s.name@
        + "(self, value: "@ + s.type_info.spec_text() + ") -> None:"@;
    if s.doc@.len() > 0 {
        head + "\n"@ + spec_docstring(s.doc@, ind + spec_indent())
    } else {
        head + " ..."@ + "\n"@
    }
}

/// A setter at the usual class-body indentation.
pub open spec fn spec_setter_text(s: MemberDef) -> Seq<char> {
    spec_setter_text_at(s, spec_indent())
}

/// Renders one setter.
pub fn render_setter_at(s: &MemberDef, ind: &str) -> (r: String)
    ensures
        r@ == spec_setter_text_at(*s, ind@),
{
    let mut out = String::new();
    out.append(ind);
    out.append("@");
    out.append(s.name.as_str());
    out.append(".setter");
    out.append("\n");
    if s.is_abstract {
        out.append(ind);
        out.append("@abc.abstractmethod");
        out.append("\n");
    }
    out.append(ind);
    out.append("def ");
    out.append(s.name.as_str());
    out.append("(self, value: ");
    out.append(s.type_info.name.as_str());
    out.append(") -> None:");
    if s.doc.as_str().unicode_len() > 0 {
        out.append("\n");
        let mut dind = String::from_str(ind);
        dind.append("    ");
        push_docstring(&mut out, &s.doc, dind.as_str());
    } else {
        out.append(" ...");
        out.append("\n");
    }
    proof {
        assert(out@ =~= spec_setter_text_at(*s, ind@));
    }
    out
}

/// Renders one setter at the usual class-body indentation.
pub fn render_setter(s: &MemberDef) -> (r: String)
    ensures
        r@ == spec_setter_text(*s),
{
    render_setter_at(s, "    ")
}

/// The attribute lines for the first `i` members of `s`.
pub open spec fn spec_members_upto(s: Seq<MemberDef>, i: int, ind: Seq<char>) -> Seq<char>
    decreases i,
{
    if i <= 0 {
        Seq::empty()
    } else {
        spec_members_upto(s, i - 1, ind) + spec_member_text_at(s[i - 1], ind)
    }
}

/// Writes every member of `s` as an attribute line.
fn push_members(out: &mut String, s: &Vec<MemberDef>, ind: &str)
    ensures
        final(out)@ == old(out)@ + spec_members_upto(s@, s@.len() as int, ind@),
{
    let n = s.len();
    let mut i: usize = 0;
    while i < n
        invariant
            0 <= i <= n,
            n == s@.len(),
            out@ == old(out)@ + spec_members_upto(s@, i as int, ind@),
        decreases n - i,
    {
        let t = render_member_at(&s[i], ind);
        out.append(t.as_str());
        i = i + 1;
    }
}

/// The property blocks for the first `i` getters of `s`.
pub open spec fn spec_getters_upto(s: Seq<MemberDef>, i: int, ind: Seq<char>) -> Seq<char>
    decreases i,
{
    if i <= 0 {
        Seq::empty()
    } else {
        spec_getters_upto(s, i - 1, ind) + spec_getter_text_at(s[i - 1], ind)
    }
}

fn push_getters(out: &mut String, s: &Vec<MemberDef>, ind: &str)
    ensures
        final(out)@ == old(out)@ + spec_getters_upto(s@, s@.len() as int, ind@),
{
    let n = s.len();
    let mut i: usize = 0;
    while i < n
        invariant
            0 <= i <= n,
            n == s@.len(),
            out@ == old(out)@ + spec_getters_upto(s@, i as int, ind@),
        decreases n - i,
    {
        let t = render_getter_at(&s[i], ind);
        out.append(t.as_str());
        i = i + 1;
    }
}

/// The property blocks for the first `i` setters of `s`.
pub open spec fn spec_setters_upto(s: Seq<MemberDef>, i: int, ind: Seq<char>) -> Seq<char>
    decreases i,
{
    if i <= 0 {
        Seq::empty()
    } else {
        spec_setters_upto(s, i - 1, ind) + spec_setter_text_at(s[i - 1], ind)
    }
}

fn push_setters(out: &mut String, s: &Vec<MemberDef>, ind: &str)
    ensures
        final(out)@ == old(out)@ + spec_setters_upto(s@, s@.len() as int, ind@),
{
    let n = s.len();
    let mut i: usize = 0;
    while i < n
        invariant
            0 <= i <= n,
            n == s@.len(),
            out@ == old(out)@ + spec_setters_upto(s@, i as int, ind@),
        decreases n - i,
    {
        let t = render_setter_at(&s[i], ind);
        out.append(t.as_str());
        i = i + 1;
    }
}

/// The renderings of the first `i` methods of `s`, one after the other
/// (an overload group keeps its registration order).
pub open spec fn spec_method_list_upto(s: Seq<MethodDef>, i: int, ind: Seq<char>) -> Seq<char>
    decreases i,
{
    if i <= 0 {
        Seq::empty()
    } else {
        spec_method_list_upto(s, i - 1, ind) + spec_method_text_at(s[i - 1], ind)
    }
}

fn push_method_list(out: &mut String, s: &Vec<MethodDef>, ind: &str)
    ensures
        final(out)@ == old(out)@ + spec_method_list_upto(s@, s@.len() as int, ind@),
{
    let n = s.len();
    let mut i: usize = 0;
    while i < n
        invariant
            0 <= i <= n,
            n == s@.len(),
            out@ == old(out)@ + spec_method_list_upto(s@, i as int, ind@),
        decreases n - i,
    {
        let t = render_method_at(&s[i], ind);
        out.append(t.as_str());
        i = i + 1;
    }
}

/// The renderings of the first `i` name-keyed overload groups of `mm`,
/// in key order.
pub open spec fn spec_methods_map_upto(
    mm: OrderedMap<Vec<MethodDef>>,
    i: int,
    ind: Seq<char>,
) -> Seq<char>
    decreases i,
{
    if i <= 0 {
        Seq::empty()
    } else {
        spec_methods_map_upto(mm, i - 1, ind) + spec_method_list_upto(
            mm.spec_val(i - 1)@,
            mm.spec_val(i - 1)@.len() as int,
            ind,
        )
    }
}

fn push_methods_map(out: &mut String, mm: &OrderedMap<Vec<MethodDef>>, ind: &str)
    ensures
        final(out)@ == old(out)@ + spec_methods_map_upto(*mm, mm.spec_len() as int, ind@),
{
    let n = mm.len();
    let mut i: usize = 0;
    while i < n
        invariant
            0 <= i <= n,
            n == mm.spec_len(),
            out@ == old(out)@ + spec_methods_map_upto(*mm, i as int, ind@),
        decreases n - i,
    {
        push_method_list(out, mm.value_at(i), ind);
        i = i + 1;
    }
}

/// One getter/setter pair: whichever sides were observed.
pub open spec fn spec_getter_setter_text(gs: GetterSetter, ind: Seq<char>) -> Seq<char> {
    (match gs.getter {
        Some(g) => spec_getter_text_at(g, ind),
        None => Seq::<char>::empty(),
    }) + (match gs.setter {
        Some(s) => spec_setter_text_at(s, ind),
        None => Seq::<char>::empty(),
    })
}

/// The property blocks of the first `i` getter/setter pairs, in
/// attribute-name order.
pub open spec fn spec_gs_map_upto(mm: OrderedMap<GetterSetter>, i: int, ind: Seq<char>) -> Seq<
    char,
>
    decreases i,
{
    if i <= 0 {
        Seq::empty()
    } else {
        spec_gs_map_upto(mm, i - 1, ind) + spec_getter_setter_text(mm.spec_val(i - 1), ind)
    }
}

fn push_gs_map(out: &mut String, mm: &OrderedMap<GetterSetter>, ind: &str)
    ensures
        final(out)@ == old(out)@ + spec_gs_map_upto(*mm, mm.spec_len() as int, ind@),
{
    let n = mm.len();
    let mut i: usize = 0;
    while i < n
        invariant
            0 <= i <= n,
            n == mm.spec_len(),
            out@ == old(out)@ + spec_gs_map_upto(*mm, i as int, ind@),
        decreases n - i,
    {
        let gs = mm.value_at(i);
        if let Some(g) = &gs.getter {
            let t = render_getter_at(g, ind);
            out.append(t.as_str());
        }
        if let Some(s) = &gs.setter {
            let t = render_setter_at(s, ind);
            out.append(t.as_str());
        }
        i = i + 1;
    }
}

/// A variant's pseudo-class: a nested class holding the variant's fields
/// and its synthesized constructor and sequence-protocol methods.
pub open spec fn spec_variant_text(v: VariantDef) -> Seq<char> {
    let ind = spec_indent();
    let dind = ind + ind;
    let header = ind + "class "@ + v.name@ + ":"@ + "\n"@;
    let body = (if v.doc@.len() > 0 {
        spec_docstring(v.doc@, dind)
    } else {
        Seq::<char>::empty()
    }) + spec_members_upto(v.fields@, v.fields@.len() as int, dind) + spec_methods_map_upto(
        v.methods,
        v.methods.spec_len() as int,
        dind,
    );
    if body.len() == 0 {
        header + dind + "..."@ + "\n"@
    } else {
        header + body
    }
}

/// Renders one variant pseudo-class.
fn render_variant(v: &VariantDef) -> (r: String)
    ensures
        r@ == spec_variant_text(*v),
{
    let ind = "    ";
    let mut out = String::new();
    out.append(ind);
    out.append("class ");
    out.append(v.name.as_str());
    out.append(":");
    out.append("\n");
    let mut dind = String::from_str(ind);
    dind.append(ind);
    let mut body = String::new();
    if v.doc.as_str().unicode_len() > 0 {
        push_docstring(&mut body, &v.doc, dind.as_str());
    }
    push_members(&mut body, &v.fields, dind.as_str());
    push_methods_map(&mut body, &v.methods, dind.as_str());
    if body.as_str().unicode_len() == 0 {
        out.append(dind.as_str());
        out.append("...");
        out.append("\n");
    } else {
        out.append(body.as_str());
    }
    proof {
        assert(out@ =~= spec_variant_text(*v));
    }
    out
}

/// The pseudo-classes of the first `i` variants of `s`.
pub open spec fn spec_variants_upto(s: Seq<VariantDef>, i: int) -> Seq<char>
    decreases i,
{
    if i <= 0 {
        Seq::empty()
    } else {
        spec_variants_upto(s, i - 1) + spec_variant_text(s[i - 1])
    }
}

fn push_variants(out: &mut String, s: &Vec<VariantDef>)
    ensures
        final(out)@ == old(out)@ + spec_variants_upto(s@, s@.len() as int),
{
    let n = s.len();
    let mut i: usize = 0;
    while i < n
        invariant
            0 <= i <= n,
            n == s@.len(),
            out@ == old(out)@ + spec_variants_upto(s@, i as int),
        decreases n - i,
    {
        let t = render_variant(&s[i]);
        out.append(t.as_str());
        i = i + 1;
    }
}

/// A class header's base list: the declared bases, with the abstract
/// marker appended when the class is abstract.
pub open spec fn spec_class_bases(c: ClassDef) -> Seq<char> {
    let items = views_of(c.bases@) + (if c.is_abstract {
        seq!["metaclass=abc.ABCMeta"@]
    } else {
        Seq::<Seq<char>>::empty()
    });
    if items.len() == 0 {
        Seq::<char>::empty()
    } else {
        "("@ + spec_join(items, ", "@) + ")"@
    }
}

/// A class: its header (bases and, when any member was marked abstract,
/// the abstract marker), its documentation, attributes, properties,
/// methods in name order, and variant pseudo-classes; an empty body is
/// closed by the empty-body marker.
pub open spec fn spec_class_text(c: ClassDef) -> Seq<char> {
    let ind = spec_indent();
    let header = "class "@ + c.name@ + spec_class_bases(c) + ":"@ + "\n"@;
    let body = (if c.doc@.len() > 0 {
        spec_docstring(c.doc@, ind)
    } else {
        Seq::<char>::empty()
    }) + spec_members_upto(c.attrs@, c.attrs@.len() as int, ind) + spec_gs_map_upto(
        c.getter_setters,
        c.getter_setters.spec_len() as int,
        ind,
    ) + spec_methods_map_upto(c.methods, c.methods.spec_len() as int, ind) + spec_variants_upto(
        c.variants@,
        c.variants@.len() as int,
    );
    if body.len() == 0 {
        header + ind + "..."@ + "\n"@
    } else {
        header + body
    }
}

/// Renders one class.
pub fn render_class(c: &ClassDef) -> (r: String)
    ensures
        r@ == spec_class_text(*c),
{
    let ind = "    ";
    let mut out = String::new();
    out.append("class ");
    out.append(c.name.as_str());
    let mut items: Vec<String> = Vec::new();
    proof {
        assert(views_of(items@) =~= Seq::<Seq<char>>::empty());
    }
    let bn = c.bases.len();
    let mut bi: usize = 0;
    while bi < bn
        invariant
            0 <= bi <= bn,
            bn == c.bases@.len(),
            views_of(items@) == views_of(c.bases@).take(bi as int),
        decreases bn - bi,
    {
        let ghost before = items@;
        push_one(&mut items, clone_string(&c.bases[bi]));
        proof {
            assert(views_of(c.bases@).take(bi + 1) =~= views_of(c.bases@).take(bi as int).push(
                c.bases@[bi as int]@,
            ));
            assert(views_of(items@) =~= views_of(before) + seq![c.bases@[bi as int]@]);
            assert(views_of(items@) =~= views_of(c.bases@).take(bi + 1));
        }
        bi = bi + 1;
    }
    proof {
        assert(views_of(c.bases@).take(bn as int) =~= views_of(c.bases@));
    }
    if c.is_abstract {
        push_one(&mut items, String::from_str("metaclass=abc.ABCMeta"));
    }
    proof {
        assert(views_of(items@) =~= views_of(c.bases@) + (if c.is_abstract {
            seq!["metaclass=abc.ABCMeta"@]
        } else {
            Seq::<Seq<char>>::empty()
        }));
    }
    if items.len() > 0 {
        out.append("(");
        let joined = join_strings(&items, ", ");
        out.append(joined.as_str());
        out.append(")");
    }
    out.append(":");
    out.append("\n");
    proof {
        assert(out@ =~= "class "@ + c.name@ + spec_class_bases(*c) + ":"@ + "\n"@);
    }
    let mut body = String::new();
    if c.doc.as_str().unicode_len() > 0 {
        push_docstring(&mut body, &c.doc, ind);
    }
    push_members(&mut body, &c.attrs, ind);
    push_gs_map(&mut body, &c.getter_setters, ind);
    push_methods_map(&mut body, &c.methods, ind);
    push_variants(&mut body, &c.variants);
    if body.as_str().unicode_len() == 0 {
        out.append(ind);
        out.append("...");
        out.append("\n");
    } else {
        out.append(body.as_str());
    }
    proof {
        assert(out@ =~= spec_class_text(*c));
    }
    out
}

/// One plain-enum variant line.
pub open spec fn spec_enum_variant_line(name: Seq<char>, ind: Seq<char>) -> Seq<char> {
    ind + name + " = ..."@ + "\n"@
}

/// The lines of the first `i` plain-enum variants.
pub open spec fn spec_enum_variants_upto(s: Seq<String>, i: int, ind: Seq<char>) -> Seq<char>
    decreases i,
{
    if i <= 0 {
        Seq::empty()
    } else {
        spec_enum_variants_upto(s, i - 1, ind) + spec_enum_variant_line(s[i - 1]@, ind)
    }
}

fn push_enum_variants(out: &mut String, s: &Vec<String>, ind: &str)
    ensures
        final(out)@ == old(out)@ + spec_enum_variants_upto(s@, s@.len() as int, ind@),
{
    let n = s.len();
    let mut i: usize = 0;
    while i < n
        invariant
            0 <= i <= n,
            n == s@.len(),
            out@ == old(out)@ + spec_enum_variants_upto(s@, i as int, ind@),
        decreases n - i,
    {
        out.append(ind);
        out.append(s[i].as_str());
        out.append(" = ...");
        out.append("\n");
        i = i + 1;
    }
}

/// A plain enum: a class holding its variant names, then whatever
/// attributes, properties and methods were merged into it; when any
/// merged accessor or method was abstract, the header carries the
/// abstract marker.
pub open spec fn spec_enum_text(e: EnumDef) -> Seq<char> {
    let ind = spec_indent();
    let header = "class "@ + e.name@ + (if e.is_abstract {
        "(metaclass=abc.ABCMeta)"@
    } else {
        Seq::<char>::empty()
    }) + ":"@ + "\n"@;
    let body = (if e.doc@.len() > 0 {
        spec_docstring(e.doc@, ind)
    } else {
        Seq::<char>::empty()
    }) + spec_enum_variants_upto(e.variants@, e.variants@.len() as int, ind) + spec_members_upto(
        e.attrs@,
        e.attrs@.len() as int,
        ind,
    ) + spec_getters_upto(e.getters@, e.getters@.len() as int, ind) + spec_setters_upto(
        e.setters@,
        e.setters@.len() as int,
        ind,
    ) + spec_method_list_upto(e.methods@, e.methods@.len() as int, ind);
    if body.len() == 0 {
        header + ind + "..."@ + "\n"@
    } else {
        header + body
    }
}

/// Renders one plain enum.
pub fn render_enum(e: &EnumDef) -> (r: String)
    ensures
        r@ == spec_enum_text(*e),
{
    let ind = "    ";
    let mut out = String::new();
    out.append("class ");
    out.append(e.name.as_str());
    if e.is_abstract {
        out.append("(metaclass=abc.ABCMeta)");
    }
    out.append(":");
    out.append("\n");
    let mut body = String::new();
    if e.doc.as_str().unicode_len() > 0 {
        push_docstring(&mut body, &e.doc, ind);
    }
    push_enum_variants(&mut body, &e.variants, ind);
    push_members(&mut body, &e.attrs, ind);
    push_getters(&mut body, &e.getters, ind);
    push_setters(&mut body, &e.setters, ind);
    push_method_list(&mut body, &e.methods, ind);
    if body.as_str().unicode_len() == 0 {
        out.append(ind);
        out.append("...");
        out.append("\n");
    } else {
        out.append(body.as_str());
    }
    proof {
        assert(out@ =~= spec_enum_text(*e));
    }
    out
}

/// The variable lines of the first `i` entries, in name order.
pub open spec fn spec_variables_upto(mm: OrderedMap<VariableDef>, i: int) -> Seq<char>
    decreases i,
{
    if i <= 0 {
        Seq::empty()
    } else {
        spec_variables_upto(mm, i - 1) + spec_variable_text(mm.spec_val(i - 1))
    }
}

fn push_variables(out: &mut String, mm: &OrderedMap<VariableDef>)
    ensures
        final(out)@ == old(out)@ + spec_variables_upto(*mm, mm.spec_len() as int),
{
    let n = mm.len();
    let mut i: usize = 0;
    while i < n
        invariant
            0 <= i <= n,
            n == mm.spec_len(),
            out@ == old(out)@ + spec_variables_upto(*mm, i as int),
        decreases n - i,
    {
        let t = render_variable(mm.value_at(i));
        out.append(t.as_str());
        i = i + 1;
    }
}

/// The renderings of the first `i` functions of an overload group.
pub open spec fn spec_function_list_upto(s: Seq<FunctionDef>, i: int) -> Seq<char>
    decreases i,
{
    if i <= 0 {
        Seq::empty()
    } else {
        spec_function_list_upto(s, i - 1) + spec_function_text(s[i - 1])
    }
}

fn push_function_list(out: &mut String, s: &Vec<FunctionDef>)
    ensures
        final(out)@ == old(out)@ + spec_function_list_upto(s@, s@.len() as int),
{
    let n = s.len();
    let mut i: usize = 0;
    while i < n
        invariant
            0 <= i <= n,
            n == s@.len(),
            out@ == old(out)@ + spec_function_list_upto(s@, i as int),
        decreases n - i,
    {
        let t = render_function(&s[i]);
        out.append(t.as_str());
        i = i + 1;
    }
}

/// The renderings of the first `i` name-keyed function overload groups.
pub open spec fn spec_functions_upto(mm: OrderedMap<Vec<FunctionDef>>, i: int) -> Seq<char>
    decreases i,
{
    if i <= 0 {
        Seq::empty()
    } else {
        spec_functions_upto(mm, i - 1) + spec_function_list_upto(
            mm.spec_val(i - 1)@,
            mm.spec_val(i - 1)@.len() as int,
        )
    }
}

fn push_functions(out: &mut String, mm: &OrderedMap<Vec<FunctionDef>>)
    ensures
        final(out)@ == old(out)@ + spec_functions_upto(*mm, mm.spec_len() as int),
{
    let n = mm.len();
    let mut i: usize = 0;
    while i < n
        invariant
            0 <= i <= n,
            n == mm.spec_len(),
            out@ == old(out)@ + spec_functions_upto(*mm, i as int),
        decreases n - i,
    {
        push_function_list(out, mm.value_at(i));
        i = i + 1;
    }
}

/// The class blocks of the first `i` classes, in identity-key order.
pub open spec fn spec_classes_upto(mm: crate::idmap::IdMap<ClassDef>, i: int) -> Seq<char>
    decreases i,
{
    if i <= 0 {
        Seq::empty()
    } else {
        spec_classes_upto(mm, i - 1) + spec_class_text(mm.spec_val(i - 1))
    }
}

#[verifier::rlimit(100)]
fn push_classes(out: &mut String, mm: &crate::idmap::IdMap<ClassDef>)
    ensures
        final(out)@ == old(out)@ + spec_classes_upto(*mm, mm.spec_len() as int),
{
    let n = mm.len();
    let mut i: usize = 0;
    while i < n
        invariant
            0 <= i <= n,
            n == mm.spec_len(),
            out@ == old(out)@ + spec_classes_upto(*mm, i as int),
        decreases n - i,
    {
        let t = render_class(mm.value_at(i));
        out.append(t.as_str());
        i = i + 1;
    }
}

/// The enum blocks of the first `i` enums, in identity-key order.
pub open spec fn spec_enums_upto(mm: crate::idmap::IdMap<EnumDef>, i: int) -> Seq<char>
    decreases i,
{
    if i <= 0 {
        Seq::empty()
    } else {
        spec_enums_upto(mm, i - 1) + spec_enum_text(mm.spec_val(i - 1))
    }
}

#[verifier::rlimit(100)]
fn push_enums(out: &mut String, mm: &crate::idmap::IdMap<EnumDef>)
    ensures
        final(out)@ == old(out)@ + spec_enums_upto(*mm, mm.spec_len() as int),
{
    let n = mm.len();
    let mut i: usize = 0;
    while i < n
        invariant
            0 <= i <= n,
            n == mm.spec_len(),
            out@ == old(out)@ + spec_enums_upto(*mm, i as int),
        decreases n - i,
    {
        let t = render_enum(mm.value_at(i));
        out.append(t.as_str());
        i = i + 1;
    }
}

/// One import line: the entry resolved (the empty entry stands for the
/// default module), skipped when it names the module itself.
pub open spec fn spec_import_line(
    key: Seq<char>,
    own: Seq<char>,
    default_name: Seq<char>,
) -> Seq<char> {
    let resolved = if key.len() == 0 {
        default_name
    } else {
        key
    };
    if resolved == own {
        Seq::<char>::empty()
    } else {
        "import "@ + resolved + "\n"@
    }
}

/// The import lines of the first `i` entries of the module's import set.
pub open spec fn spec_imports_upto(m: Module, i: int) -> Seq<char>
    decreases i,
{
    if i <= 0 {
        Seq::empty()
    } else {
        spec_imports_upto(m, i - 1) + spec_import_line(
            m.imports.spec_key(i - 1),
            m.name@,
            m.default_module_name@,
        )
    }
}

/// The whole text of one module: its documentation, the deduplicated
/// header imports in name order, then variables, functions, classes and
/// enums, each group in its map's key order.
pub open spec fn spec_module_text(m: Module) -> Seq<char> {
    (if m.doc@.len() > 0 {
        "\"\"\""@ + m.doc@ + "\"\"\""@ + "\n"@
    } else {
        Seq::<char>::empty()
    }) + spec_imports_upto(m, m.imports.spec_len() as int) + spec_variables_upto(
        m.variables,
        m.variables.spec_len() as int,
    ) + spec_functions_upto(m.function, m.function.spec_len() as int) + spec_classes_upto(
        m.class,
        m.class.spec_len() as int,
    ) + spec_enums_upto(m.enum_, m.enum_.spec_len() as int)
}

/// Renders one module's stub text.
pub fn render_module(m: &Module) -> (r: String)
    ensures
        r@ == spec_module_text(*m),
{
    let mut out = String::new();
    if m.doc.as_str().unicode_len() > 0 {
        out.append("\"\"\"");
        out.append(m.doc.as_str());
        out.append("\"\"\"");
        out.append("\n");
    }
    let n = m.imports.len();
    let mut i: usize = 0;
    let ghost head: Seq<char> = out@;
    while i < n
        invariant
            0 <= i <= n,
            n == m.imports.spec_len(),
            out@ == head + spec_imports_upto(*m, i as int),
        decreases n - i,
    {
        let key = m.imports.key_at(i);
        let resolved: &String = if key.as_str().unicode_len() == 0 {
            &m.default_module_name
        } else {
            key
        };
        if !crate::text::string_eq(resolved, &m.name) {
            out.append("import ");
            out.append(resolved.as_str());
            out.append("\n");
        }
        i = i + 1;
    }
    push_variables(&mut out, &m.variables);
    push_functions(&mut out, &m.function);
    push_classes(&mut out, &m.class);
    push_enums(&mut out, &m.enum_);
    proof {
        assert(out@ =~= spec_module_text(*m));
    }
    out
}

/// The file path for a module: dashes become underscores for target
/// compatibility, dots separate path segments.
pub open spec fn spec_path_of(name: Seq<char>) -> Seq<char>
    decreases name.len(),
{
    if name.len() == 0 {
        Seq::empty()
    } else {
        spec_path_of(name.drop_last()) + (if name.last() == '-' {
            seq!['_']
        } else if name.last() == '.' {
            seq!['/']
        } else {
            seq![name.last()]
        })
    }
}

/// The destination of one module below the output root: a plain module
/// becomes a stub file, one with submodules a package-init file in its
/// own directory.
pub open spec fn spec_dest_of(root: Seq<char>, m: Module) -> Seq<char> {
    root + "/"@ + spec_path_of(m.name@) + (if m.submodules.spec_len() == 0 {
        ".pyi"@
    } else {
        "/__init__.pyi"@
    })
}

/// Computes a module's destination path.
pub fn dest_of(root: &String, m: &Module) -> (r: String)
    ensures
        r@ == spec_dest_of(root@, *m),
{
    let mut out = clone_string(root);
    out.append("/");
    let name = m.name.as_str();
    let n = name.unicode_len();
    let mut i: usize = 0;
    let ghost head: Seq<char> = out@;
    proof {
        assert(name@.take(0) =~= Seq::<char>::empty());
    }
    while i < n
        invariant
            0 <= i <= n,
            n == name@.len(),
            out@ == head + spec_path_of(name@.take(i as int)),
        decreases n - i,
    {
        let c = name.get_char(i);
        proof {
            assert(name@.take(i + 1).drop_last() =~= name@.take(i as int));
            assert(name@.take(i + 1).last() == name@[i as int]);
        }
        if c == '-' {
            out.append("_");
            proof {
                reveal_strlit("_");
            }
        } else if c == '.' {
            out.append("/");
            proof {
                reveal_strlit("/");
            }
        } else {
            let piece = name.substring_char(i, i + 1);
            out.append(piece);
            proof {
                assert(piece@ =~= seq![name@[i as int]]);
            }
        }
        i = i + 1;
    }
    proof {
        assert(name@.take(n as int) =~= name@);
    }
    if m.submodules.len() == 0 {
        out.append(".pyi");
    } else {
        out.append("/__init__.pyi");
    }
    out
}

} // verus!
