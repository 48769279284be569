//! Modules of the expression language: the bindings, the prelude and the
//! documentation that a library brings into an environment.
use crate::lvalue::{string_views, LValue, Sexp};
use crate::strmap::StrMap;
use vstd::prelude::*;

verus! {

/// Expressions that are evaluated when a module is loaded, in order.
#[derive(Debug)]
pub struct InitScheme(pub Vec<String>);

impl View for InitScheme {
    type V = Seq<Seq<char>>;

    open spec fn view(&self) -> Seq<Seq<char>> {
        string_views(self.0@)
    }
}

impl Default for InitScheme {
    fn default() -> (r: Self)
        ensures
            r@ == Seq::<Seq<char>>::empty(),
    {
        let r = InitScheme(Vec::new());
        assert(r@ =~= Seq::<Seq<char>>::empty());
        r
    }
}

impl InitScheme {
    /// Moves the expressions of `other` behind those that are there; `other`
    /// is left empty.
    pub fn append(&mut self, other: &mut Self)
        ensures
            final(self)@ == old(self)@ + old(other)@,
            final(other)@ == Seq::<Seq<char>>::empty(),
    {
        self.0.append(&mut other.0);
        assert(self@ =~= old(self)@ + old(other)@);
        assert(other@ =~= Seq::<Seq<char>>::empty());
    }

    /// Adds an expression behind those that are there.
    pub fn add(&mut self, expression: String)
        ensures
            final(self)@ == old(self)@.push(expression@),
    {
        self.0.push(expression);
        assert(self@ =~= old(self)@.push(expression@));
    }

    /// The expressions, in order.
    pub fn inner(&self) -> (v: Vec<&str>)
        ensures
            v@.len() == self@.len(),
            forall|i: int| 0 <= i < v@.len() ==> v@[i]@ == self@[i],
    {
        let mut v: Vec<&str> = Vec::new();
        let mut i: usize = 0;
        while i < self.0.len()
            invariant
                i <= self.0.len(),
                v@.len() == i,
                forall|j: int| 0 <= j < i ==> v@[j]@ == self.0@[j]@,
            decreases self.0.len() - i,
        {
            v.push(self.0[i].as_str());
            i += 1;
        }
        v
    }
}

/// The documentation of one element: a short line and, if any, a longer
/// text.
#[derive(Debug)]
pub struct Doc {
    pub short: String,
    pub verbose: Option<String>,
}

/// A documentation entry, as contracts see it.
pub struct DocModel {
    pub short: Seq<char>,
    pub verbose: Option<Seq<char>>,
}

impl View for Doc {
    type V = DocModel;

    open spec fn view(&self) -> DocModel {
        DocModel {
            short: self.short@,
            verbose: match self.verbose {
                Some(v) => Some(v@),
                None => None,
            },
        }
    }
}

impl Doc {
    /// A documentation entry with a short line only.
    pub fn new(short: &str) -> (d: Self)
        ensures
            d@ == (DocModel { short: short@, verbose: None }),
    {
        Doc { short: String::from_str(short), verbose: None }
    }

    /// A documentation entry with a short line and a longer text.
    pub fn new_verbose(short: &str, verbose: &str) -> (d: Self)
        ensures
            d@ == (DocModel { short: short@, verbose: Some(verbose@) }),
    {
        Doc { short: String::from_str(short), verbose: Some(String::from_str(verbose)) }
    }
}

/// The longer text of the entry of a module: the text that was given,
/// followed by the heading of the list of its elements.
pub open spec fn module_verbose(given: Option<Seq<char>>) -> Seq<char> {
    match given {
        Some(v) => v + "\nElement(s) of the module:\n"@,
        None => "Element(s) of the module\n"@,
    }
}

/// The line that lists one element of a module.
pub open spec fn element_line(label: Seq<char>) -> Seq<char> {
    "- "@ + label + "\n"@
}

/// The expression that defines `label` as `expression`.
pub open spec fn define_text(label: Seq<char>, expression: Seq<char>) -> Seq<char> {
    "(define "@ + label + " "@ + expression + ")"@
}

/// The expression that defines the macro `label` as `expression`.
pub open spec fn defmacro_text(label: Seq<char>, expression: Seq<char>) -> Seq<char> {
    "(defmacro "@ + label + " "@ + expression + ")"@
}

/// A library that is loaded into an environment: what it binds, what it
/// evaluates at loading, and what it documents.
pub struct LModule {
    bindings: Vec<(String, LValue)>,
    prelude: InitScheme,
    label: String,
    documentation: StrMap<Doc>,
    pure_fonctions: Vec<String>,
    submodules: Vec<LModule>,
}

/// The bindings of a module, as contracts see them.
pub open spec fn binding_models(s: Seq<(String, LValue)>) -> Seq<(Seq<char>, Sexp)> {
    Seq::new(s.len(), |i: int| (s[i].0@, s[i].1@))
}

/// The entries of the documentation, as contracts see them.
pub open spec fn doc_models(s: Seq<Doc>) -> Seq<DocModel> {
    Seq::new(s.len(), |i: int| s[i]@)
}

impl LModule {
    /// The label of the module.
    pub closed spec fn label(self) -> Seq<char> {
        self.label@
    }

    /// The names that the module binds and the values that it binds them to,
    /// in the order in which they were added.
    pub closed spec fn bindings(self) -> Seq<(Seq<char>, Sexp)> {
        binding_models(self.bindings@)
    }

    /// The expressions that are evaluated when the module is loaded.
    pub closed spec fn prelude(self) -> Seq<Seq<char>> {
        self.prelude@
    }

    /// The labels that are documented, in the order in which they first came.
    pub closed spec fn documented(self) -> Seq<Seq<char>> {
        self.documentation.keys()
    }

    /// The entries of the documentation, in the order of their labels.
    pub closed spec fn docs(self) -> Seq<DocModel> {
        doc_models(self.documentation.values())
    }

    /// The labels of the functions that are pure.
    pub closed spec fn pure_functions(self) -> Seq<Seq<char>> {
        string_views(self.pure_fonctions@)
    }

    /// The modules that this one holds.
    pub closed spec fn submodules(self) -> Seq<LModule> {
        self.submodules@
    }

    /// The entry of the module itself is the first of its documentation.
    pub open spec fn wf(self) -> bool {
        &&& self.documented().len() >= 1
        &&& self.documented().len() == self.docs().len()
        &&& self.documented()[0] == self.label()
        &&& self.documented().no_duplicates()
    }

    /// The documentation once `label` is documented by `doc`, before the
    /// element is listed in the entry of the module.
    pub open spec fn docs_with(self, label: Seq<char>, doc: DocModel) -> (Seq<Seq<char>>, Seq<
        DocModel,
    >) {
        if self.documented().contains(label) {
            (self.documented(), self.docs().update(self.documented().index_of(label), doc))
        } else {
            (self.documented().push(label), self.docs().push(doc))
        }
    }

    /// The entry `d` of a module once the element `label` is listed in it.
    pub open spec fn listed(d: DocModel, label: Seq<char>) -> DocModel {
        DocModel {
            verbose: Some(
                match d.verbose {
                    Some(v) => v + element_line(label),
                    None => element_line(label),
                },
            ),
            ..d
        }
    }

    /// The documentation once `label` is documented by `doc` and listed in
    /// the entry of the module.
    pub open spec fn documented_with(self, label: Seq<char>, doc: DocModel) -> (Seq<Seq<char>>, Seq<
        DocModel,
    >) {
        let (keys, docs) = self.docs_with(label, doc);
        (keys, docs.update(0, Self::listed(docs[0], label)))
    }

    /// A module that binds nothing yet. Its documentation holds its own
    /// entry: the longer text of `doc` is followed by the heading of the list
    /// of its elements.
    pub fn new(label: &str, doc: Doc) -> (m: Self)
        ensures
            m.wf(),
            m.label() == label@,
            m.bindings() == Seq::<(Seq<char>, Sexp)>::empty(),
            m.prelude() == Seq::<Seq<char>>::empty(),
            m.pure_functions() == Seq::<Seq<char>>::empty(),
            m.submodules() == Seq::<LModule>::empty(),
            m.documented() == seq![label@],
            m.docs() == seq![
                DocModel { short: doc@.short, verbose: Some(module_verbose(doc@.verbose)) },
            ],
    {
        let verbose = match doc.verbose {
            Some(v) => {
                let mut v = v;
                v.append("\nElement(s) of the module:\n");
                v
            },
            None => String::from_str("Element(s) of the module\n"),
        };
        let entry = Doc { short: doc.short, verbose: Some(verbose) };
        let mut documentation: StrMap<Doc> = StrMap::new();
        documentation.insert(String::from_str(label), entry);
        documentation.keys_are_distinct();
        let m = LModule {
            bindings: Vec::new(),
            prelude: InitScheme::default(),
            label: String::from_str(label),
            documentation,
            pure_fonctions: Vec::new(),
            submodules: Vec::new(),
        };
        proof {
            assert(!Seq::<Seq<char>>::empty().contains(label@));
            assert(m.documented() =~= seq![label@]);
            assert(m.docs() =~= seq![
                DocModel { short: doc@.short, verbose: Some(module_verbose(doc@.verbose)) },
            ]);
            assert(m.bindings() =~= Seq::<(Seq<char>, Sexp)>::empty());
            assert(m.pure_functions() =~= Seq::<Seq<char>>::empty());
        }
        m
    }

    /// The label of the module.
    pub fn get_label(&self) -> (l: &String)
        ensures
            l@ == self.label(),
    {
        &self.label
    }

    /// Lists the element `label` in the entry of the module.
    fn list_element(&mut self, label: &str)
        requires
            old(self).documented().len() >= 1,
            old(self).documented().len() == old(self).docs().len(),
        ensures
            final(self).label() == old(self).label(),
            final(self).bindings() == old(self).bindings(),
            final(self).prelude() == old(self).prelude(),
            final(self).pure_functions() == old(self).pure_functions(),
            final(self).submodules() == old(self).submodules(),
            final(self).documented() == old(self).documented(),
            final(self).docs() == old(self).docs().update(
                0,
                Self::listed(old(self).docs()[0], label@),
            ),
    {
        let mut line = String::from_str("- ");
        line.append(label);
        line.append("\n");
        let entry = self.documentation.value_at(0);
        let verbose = match &entry.verbose {
            Some(v) => {
                let mut v = v.clone();
                v.append(line.as_str());
                v
            },
            None => line,
        };
        let fresh = Doc { short: entry.short.clone(), verbose: Some(verbose) };
        assert(fresh@ == Self::listed(old(self).docs()[0], label@));
        let _ = self.documentation.replace_at(0, fresh);
        assert(self.docs() =~= old(self).docs().update(0, Self::listed(old(self).docs()[0], label@)));
    }

    /// Documents `label` by `doc` and lists it in the entry of the module.
    pub fn add_doc(&mut self, label: &str, doc: Doc)
        requires
            old(self).wf(),
        ensures
            final(self).wf(),
            final(self).label() == old(self).label(),
            final(self).bindings() == old(self).bindings(),
            final(self).prelude() == old(self).prelude(),
            final(self).pure_functions() == old(self).pure_functions(),
            final(self).submodules() == old(self).submodules(),
            (final(self).documented(), final(self).docs()) == old(self).documented_with(
                label@,
                doc@,
            ),
    {
        self.documentation.keys_are_distinct();
        let ghost known = self.documentation.has(label@);
        let ghost at = self.documentation.index_of(label@);
        self.documentation.insert(String::from_str(label), doc);
        self.documentation.keys_are_distinct();
        proof {
            if known {
                assert(self.docs() =~= old(self).docs().update(at, doc@));
            } else {
                assert(self.docs() =~= old(self).docs().push(doc@));
            }
        }
        self.list_element(label);
    }

    /// Binds `label` to the native function of that label, records whether
    /// the function is pure, and documents it.
    pub fn add_fn(&mut self, label: &str, doc: Doc, pure: bool)
        requires
            old(self).wf(),
        ensures
            final(self).wf(),
            final(self).label() == old(self).label(),
            final(self).bindings() == old(self).bindings().push((label@, Sexp::Fn(label@))),
            final(self).prelude() == old(self).prelude(),
            final(self).pure_functions() == (if pure {
                old(self).pure_functions().push(label@)
            } else {
                old(self).pure_functions()
            }),
            final(self).submodules() == old(self).submodules(),
            (final(self).documented(), final(self).docs()) == old(self).documented_with(
                label@,
                doc@,
            ),
    {
        self.bindings.push((String::from_str(label), LValue::Fn(String::from_str(label))));
        assert(self.bindings() =~= old(self).bindings().push((label@, Sexp::Fn(label@))));
        if pure {
            self.pure_fonctions.push(String::from_str(label));
            assert(self.pure_functions() =~= old(self).pure_functions().push(label@));
        }
        self.add_doc(label, doc);
    }

    /// Binds `label` to the native function of that label, which may change
    /// the state of its module, and documents it.
    pub fn add_mut_fn(&mut self, label: &str, doc: Doc)
        requires
            old(self).wf(),
        ensures
            final(self).wf(),
            final(self).label() == old(self).label(),
            final(self).bindings() == old(self).bindings().push((label@, Sexp::Fn(label@))),
            final(self).prelude() == old(self).prelude(),
            final(self).pure_functions() == old(self).pure_functions(),
            final(self).submodules() == old(self).submodules(),
            (final(self).documented(), final(self).docs()) == old(self).documented_with(
                label@,
                doc@,
            ),
    {
        self.add_fn(label, doc, false)
    }

    /// Binds `label` to the native function of that label, which may
    /// suspend, records whether it is pure, and documents it.
    pub fn add_async_fn(&mut self, label: &str, doc: Doc, pure: bool)
        requires
            old(self).wf(),
        ensures
            final(self).wf(),
            final(self).label() == old(self).label(),
            final(self).bindings() == old(self).bindings().push((label@, Sexp::Fn(label@))),
            final(self).prelude() == old(self).prelude(),
            final(self).pure_functions() == (if pure {
                old(self).pure_functions().push(label@)
            } else {
                old(self).pure_functions()
            }),
            final(self).submodules() == old(self).submodules(),
            (final(self).documented(), final(self).docs()) == old(self).documented_with(
                label@,
                doc@,
            ),
    {
        self.add_fn(label, doc, pure)
    }

    /// Binds `label` to the native function of that label, which may suspend
    /// and change the state of its module, and documents it.
    pub fn add_async_mut_fn(&mut self, label: &str, doc: Doc)
        requires
            old(self).wf(),
        ensures
            final(self).wf(),
            final(self).label() == old(self).label(),
            final(self).bindings() == old(self).bindings().push((label@, Sexp::Fn(label@))),
            final(self).prelude() == old(self).prelude(),
            final(self).pure_functions() == old(self).pure_functions(),
            final(self).submodules() == old(self).submodules(),
            (final(self).documented(), final(self).docs()) == old(self).documented_with(
                label@,
                doc@,
            ),
    {
        self.add_fn(label, doc, false)
    }

    /// Adds to the prelude the definition of `label` as `expression`, and
    /// documents it.
    pub fn add_lambda(&mut self, label: &str, expression: &str, doc: Doc)
        requires
            old(self).wf(),
        ensures
            final(self).wf(),
            final(self).label() == old(self).label(),
            final(self).bindings() == old(self).bindings(),
            final(self).prelude() == old(self).prelude().push(define_text(label@, expression@)),
            final(self).pure_functions() == old(self).pure_functions(),
            final(self).submodules() == old(self).submodules(),
            (final(self).documented(), final(self).docs()) == old(self).documented_with(
                label@,
                doc@,
            ),
    {
        let mut e = String::from_str("(define ");
        e.append(label);
        e.append(" ");
        e.append(expression);
        e.append(")");
        self.prelude.add(e);
        self.add_doc(label, doc);
    }

    /// Adds to the prelude the definition of the macro `label` as
    /// `expression`, and documents it.
    pub fn add_macro(&mut self, label: &str, expression: &str, doc: Doc)
        requires
            old(self).wf(),
        ensures
            final(self).wf(),
            final(self).label() == old(self).label(),
            final(self).bindings() == old(self).bindings(),
            final(self).prelude() == old(self).prelude().push(defmacro_text(label@, expression@)),
            final(self).pure_functions() == old(self).pure_functions(),
            final(self).submodules() == old(self).submodules(),
            (final(self).documented(), final(self).docs()) == old(self).documented_with(
                label@,
                doc@,
            ),
    {
        let mut e = String::from_str("(defmacro ");
        e.append(label);
        e.append(" ");
        e.append(expression);
        e.append(")");
        self.prelude.add(e);
        self.add_doc(label, doc);
    }

    /// Takes in the module `module` and lists it in the entry of this one.
    pub fn add_submodule(&mut self, module: LModule)
        requires
            old(self).wf(),
        ensures
            final(self).wf(),
            final(self).label() == old(self).label(),
            final(self).bindings() == old(self).bindings(),
            final(self).prelude() == old(self).prelude(),
            final(self).pure_functions() == old(self).pure_functions(),
            final(self).submodules() == old(self).submodules().push(module),
            final(self).documented() == old(self).documented(),
            final(self).docs() == old(self).docs().update(
                0,
                Self::listed(old(self).docs()[0], module.label()),
            ),
    {
        let label = module.label.clone();
        self.list_element(label.as_str());
        self.submodules.push(module)
    }

    /// Binds `label` to the value `lv` and documents it.
    pub fn add_prelude(&mut self, label: &str, lv: LValue, doc: Doc)
        requires
            old(self).wf(),
        ensures
            final(self).wf(),
            final(self).label() == old(self).label(),
            final(self).bindings() == old(self).bindings().push((label@, lv@)),
            final(self).prelude() == old(self).prelude(),
            final(self).pure_functions() == old(self).pure_functions(),
            final(self).submodules() == old(self).submodules(),
            (final(self).documented(), final(self).docs()) == old(self).documented_with(
                label@,
                doc@,
            ),
    {
        self.bindings.push((String::from_str(label), lv));
        assert(self.bindings() =~= old(self).bindings().push((label@, lv@)));
        self.add_doc(label, doc);
    }
}

} // verus!
