//! How a type is printed, together with the imports that printing needs.
//!
//! An import entry names the target module that must be imported; the
//! empty string stands for the hosting project's default module, whose
//! name is only known when a whole generation run is configured.

use vstd::prelude::*;
use vstd::string::StringExecFns;
use crate::ordmap::OrderedMap;
use crate::version::SelfImportStrategy;

verus! {

/// The set of module names a piece of rendered type text requires.
pub type ImportSet = OrderedMap<()>;

/// Textual representation of one type reference plus its imports.
pub struct TypeInfo {
    pub name: String,
    pub import: ImportSet,
}

impl TypeInfo {
    pub open spec fn spec_text(self) -> Seq<char> {
        self.name@
    }

    /// The imports, as a set of module names.
    pub open spec fn spec_imports(self) -> Set<Seq<char>> {
        self.import.key_set()
    }

    pub open spec fn wf(self) -> bool {
        self.import.wf()
    }

    /// A type of the target language's builtins: printed as given, no
    /// import required.
    pub fn builtin(name: &str) -> (r: TypeInfo)
        ensures
            r.wf(),
            r.spec_text() == name@,
            r.spec_imports() =~= Set::<Seq<char>>::empty(),
    {
        TypeInfo { name: String::from_str(name), import: OrderedMap::new() }
    }

    /// Caller-supplied literal text with no import.
    pub fn unqualified(name: &str) -> (r: TypeInfo)
        ensures
            r.wf(),
            r.spec_text() == name@,
            r.spec_imports() =~= Set::<Seq<char>>::empty(),
    {
        TypeInfo { name: String::from_str(name), import: OrderedMap::new() }
    }

    /// The unconstrained type.
    pub fn any() -> (r: TypeInfo)
        ensures
            r.wf(),
            r.spec_text() == "typing.Any"@,
            r.spec_imports() =~= Set::<Seq<char>>::empty().insert("typing"@),
    {
        let mut import = OrderedMap::new();
        import.insert(String::from_str("typing"), ());
        proof {
            lemma_singleton_key_set(import, "typing"@);
        }
        TypeInfo { name: String::from_str("typing.Any"), import }
    }

    /// A type declared in a target module of this project: printed under
    /// its own name, imported from `module` (or from the default module
    /// when `module` is `None`, recorded as the empty string).
    pub fn locally_defined(name: &str, module: Option<&str>) -> (r: TypeInfo)
        ensures
            r.wf(),
            r.spec_text() == name@,
            r.spec_imports() =~= Set::<Seq<char>>::empty().insert(
                match module {
                    Some(m) => m@,
                    None => Seq::<char>::empty(),
                },
            ),
    {
        let mut import = OrderedMap::new();
        let key = match module {
            Some(m) => String::from_str(m),
            None => String::new(),
        };
        let ghost kview = key@;
        import.insert(key, ());
        proof {
            lemma_singleton_key_set(import, kview);
        }
        TypeInfo { name: String::from_str(name), import }
    }

    /// The spelling of "the enclosing type itself" in a return position,
    /// as the chosen strategy dictates.
    pub fn self_type(strategy: SelfImportStrategy) -> (r: TypeInfo)
        ensures
            r.wf(),
            r.spec_text() == (match strategy {
                SelfImportStrategy::Typing => "typing.Self"@,
                SelfImportStrategy::TypingExtensions => "typing_extensions.Self"@,
            }),
            r.spec_imports() =~= Set::<Seq<char>>::empty().insert(
                match strategy {
                    SelfImportStrategy::Typing => "typing"@,
                    SelfImportStrategy::TypingExtensions => "typing_extensions"@,
                },
            ),
    {
        let mut import = OrderedMap::new();
        match strategy {
            SelfImportStrategy::Typing => {
                import.insert(String::from_str("typing"), ());
                proof {
                    lemma_singleton_key_set(import, "typing"@);
                }
                TypeInfo { name: String::from_str("typing.Self"), import }
            },
            SelfImportStrategy::TypingExtensions => {
                import.insert(String::from_str("typing_extensions"), ());
                proof {
                    lemma_singleton_key_set(import, "typing_extensions"@);
                }
                TypeInfo { name: String::from_str("typing_extensions.Self"), import }
            },
        }
    }

    /// Copies this value; the copy prints the same text and carries the
    /// same imports, entry for entry.
    pub fn duplicate(&self) -> (r: TypeInfo)
        ensures
            r.spec_text() == self.spec_text(),
            r.import.spec_len() == self.import.spec_len(),
            forall|j: int|
                0 <= j < self.import.spec_len() ==> r.import.spec_key(j) == self.import.spec_key(
                    j,
                ),
            forall|k: Seq<char>| r.import.contains_spec(k) <==> self.import.contains_spec(k),
            self.wf() ==> r.wf(),
    {
        let mut import: ImportSet = OrderedMap { entries: Vec::new() };
        let n = self.import.len();
        let mut i: usize = 0;
        while i < n
            invariant
                0 <= i <= n,
                n == self.import.spec_len(),
                import.spec_len() == i,
                forall|j: int| 0 <= j < i ==> import.spec_key(j) == self.import.spec_key(j),
            decreases n - i,
        {
            let name = crate::ordmap::clone_string(&self.import.entries[i].0);
            let ghost before = import;
            let ghost nm = name;
            import.entries.push((name, ()));
            proof {
                assert(import.entries@ == before.entries@.push((nm, ())));
                assert forall|j: int| 0 <= j < i + 1 implies import.spec_key(j)
                    == self.import.spec_key(j) by {
                    if j < i {
                        assert(import.entries@[j] == before.entries@[j]);
                        assert(import.spec_key(j) == before.spec_key(j));
                        assert(before.spec_key(j) == self.import.spec_key(j));
                    } else {
                        assert(j == i);
                        assert(import.entries@[j] == (nm, ()));
                        assert(import.entries@[j].0 == nm);
                        assert(import.spec_key(j) == nm@);
                        assert(nm == self.import.entries@[i as int].0);
                        assert(self.import.spec_key(j) == nm@);
                    }
                }
            }
            i = i + 1;
        }
        proof {
            if self.wf() {
                ImportSet::lemma_wf_from_same_keys(self.import, import);
            }
            assert forall|k: Seq<char>|
                import.contains_spec(k) <==> self.import.contains_spec(k) by {
                if import.contains_spec(k) {
                    let w = choose|w: int|
                        0 <= w < import.spec_len() && import.spec_key(w) == k;
                    assert(self.import.spec_key(w) == k);
                }
                if self.import.contains_spec(k) {
                    let w = choose|w: int|
                        0 <= w < self.import.spec_len() && self.import.spec_key(w) == k;
                    assert(import.spec_key(w) == k);
                }
            }
        }
        TypeInfo { name: crate::ordmap::clone_string(&self.name), import }
    }

    /// The "or" combination of two type texts, used when a union across
    /// enum variants is synthesized: the texts joined by `" | "`, the
    /// imports united.
    pub fn union_with(self, other: &TypeInfo) -> (r: TypeInfo)
        requires
            self.wf(),
        ensures
            r.wf(),
            r.spec_text() == self.spec_text() + " | "@ + other.spec_text(),
            forall|k: Seq<char>|
                r.import.contains_spec(k) <==> self.import.contains_spec(k)
                    || other.import.contains_spec(k),
    {
        let TypeInfo { name: mut text, import: mut imports } = self;
        text.append(" | ");
        text.append(other.name.as_str());
        imports.union_into(&other.import);
        proof {
            assert(forall|k: Seq<char>|
                imports.contains_spec(k) <==> self.import.contains_spec(k)
                    || other.import.contains_spec(k));
        }
        TypeInfo { name: text, import: imports }
    }
}

/// A fresh map holding exactly one key reads back that key alone.
proof fn lemma_singleton_key_set(m: ImportSet, k: Seq<char>)
    requires
        m.wf(),
        m.as_map() == Map::<Seq<char>, ()>::empty().insert(k, ()),
    ensures
        m.key_set() =~= Set::<Seq<char>>::empty().insert(k),
{
    assert forall|x: Seq<char>| m.key_set().contains(x) implies Set::<Seq<char>>::empty().insert(
        k,
    ).contains(x) by {
        assert(m.contains_spec(x));
        let w = choose|w: int| 0 <= w < m.spec_len() && m.spec_key(w) == x;
        m.lemma_view(w);
        assert(m.as_map().contains_key(x));
    }
    assert forall|x: Seq<char>| Set::<Seq<char>>::empty().insert(k).contains(x)
        implies m.key_set().contains(x) by {
        assert(x == k);
        assert(m.as_map().contains_key(x));
        assert(m.contains_spec(x)) by {
            if !m.contains_spec(x) {
                assert(!m.as_map().contains_key(x));
            }
        }
    }
}

} // verus!
