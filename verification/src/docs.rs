//! A catalogue of documented packages, classes and methods, and an index
//! over it for lookups by class name, method name and package name.

use vstd::prelude::*;
use vstd::hash_map::StringHashMap;
pub use crate::embedded::get_docs;
use crate::text::{
    chars_of, contains, has_match, lemma_push_new_key, lowercase, lowercase_of, str_eq, str_views,
    with_key,
};

verus! {

/// The catalogue: the documented packages.
#[derive(Debug, Clone)]
pub struct JavaDocs {
    pub packages: Vec<Package>,
}

/// A package with its description and classes.
#[derive(Debug, Clone)]
pub struct Package {
    pub package: String,
    pub description: String,
    pub classes: Vec<Class>,
}

/// A class with its methods.
#[derive(Debug, Clone)]
pub struct Class {
    pub name: String,
    pub methods: Vec<Method>,
}

/// A method name with the overloads that bear it.
#[derive(Debug, Clone)]
pub struct Method {
    pub name: String,
    pub overloads: Vec<Overload>,
}

/// One signature of a method, with its description.
#[derive(Debug, Clone)]
pub struct Overload {
    pub signature: String,
    pub description: String,
    pub deprecated: bool,
}

/// Index for fast lookups.
pub struct DocsIndex {
    /// From a class name, simple or fully qualified, to (package, class) positions.
    pub classes: StringHashMap<(usize, usize)>,
    /// From a method name to the (package, class, method) positions that bear it.
    pub methods: StringHashMap<Vec<(usize, usize, usize)>>,
    /// The keys of `classes`, each once.
    pub class_names: Vec<String>,
    /// The catalogue itself.
    pub docs: JavaDocs,
}

/// A package name and a class name joined by a dot.
pub open spec fn qualified_name(package: Seq<char>, class: Seq<char>) -> Seq<char> {
    package + seq!['.'] + class
}

/// `(p, c)` is the position of a class of `docs`.
pub open spec fn is_class_pos(docs: JavaDocs, p: int, c: int) -> bool {
    0 <= p < docs.packages@.len() && 0 <= c < docs.packages@[p].classes@.len()
}

/// `(p, c, m)` is the position of a method of `docs`.
pub open spec fn is_method_pos(docs: JavaDocs, p: int, c: int, m: int) -> bool {
    is_class_pos(docs, p, c) && 0 <= m < docs.packages@[p].classes@[c].methods@.len()
}

/// The class index once the packages before `p` and the first `c` classes
/// of package `p` have been entered: each class under its qualified and
/// under its simple name, a later class replacing an earlier one of the
/// same name.
pub open spec fn class_index_upto(docs: JavaDocs, p: int, c: int) -> Map<Seq<char>, (usize, usize)>
    decreases p, c,
{
    if p < 0 || c < 0 {
        Map::empty()
    } else if c > 0 {
        let pkg = docs.packages@[p];
        let cls = pkg.classes@[c - 1];
        let pos = (p as usize, (c - 1) as usize);
        class_index_upto(docs, p, c - 1).insert(qualified_name(pkg.package@, cls.name@), pos).insert(
            cls.name@,
            pos,
        )
    } else if p > 0 {
        class_index_upto(docs, p - 1, docs.packages@[p - 1].classes@.len() as int)
    } else {
        Map::empty()
    }
}

/// The keys of the class index in the order in which they were first
/// entered: of every class its qualified name, then its simple name.
pub open spec fn class_keys_upto(docs: JavaDocs, p: int, c: int) -> Seq<Seq<char>>
    decreases p, c,
{
    if p < 0 || c < 0 {
        Seq::empty()
    } else if c > 0 {
        let pkg = docs.packages@[p];
        let cls = pkg.classes@[c - 1];
        with_key(
            with_key(class_keys_upto(docs, p, c - 1), qualified_name(pkg.package@, cls.name@)),
            cls.name@,
        )
    } else if p > 0 {
        class_keys_upto(docs, p - 1, docs.packages@[p - 1].classes@.len() as int)
    } else {
        Seq::empty()
    }
}

/// The keys of the class index of the whole catalogue, in the order in
/// which they were first entered.
pub open spec fn class_keys_of(docs: JavaDocs) -> Seq<Seq<char>> {
    class_keys_upto(docs, docs.packages@.len() as int, 0)
}

/// The class index of the whole catalogue.
pub open spec fn class_index_of(docs: JavaDocs) -> Map<Seq<char>, (usize, usize)> {
    class_index_upto(docs, docs.packages@.len() as int, 0)
}

/// The method index once everything before method `m` of class `c` of
/// package `p` has been entered: under each method name the positions that
/// bear it, in catalogue order.
pub open spec fn method_index_upto(docs: JavaDocs, p: int, c: int, m: int) -> Map<
    Seq<char>,
    Seq<(usize, usize, usize)>,
>
    decreases p, c, m,
{
    if p < 0 || c < 0 || m < 0 {
        Map::empty()
    } else if m > 0 {
        let before = method_index_upto(docs, p, c, m - 1);
        let name = docs.packages@[p].classes@[c].methods@[m - 1].name@;
        let earlier = if before.contains_key(name) {
            before[name]
        } else {
            Seq::empty()
        };
        before.insert(name, earlier.push((p as usize, c as usize, (m - 1) as usize)))
    } else if c > 0 {
        method_index_upto(docs, p, c - 1, docs.packages@[p].classes@[c - 1].methods@.len() as int)
    } else if p > 0 {
        method_index_upto(docs, p - 1, docs.packages@[p - 1].classes@.len() as int, 0)
    } else {
        Map::empty()
    }
}

/// The method index of the whole catalogue.
pub open spec fn method_index_of(docs: JavaDocs) -> Map<Seq<char>, Seq<(usize, usize, usize)>> {
    method_index_upto(docs, docs.packages@.len() as int, 0, 0)
}

/// Every entry of the class index is the position of a class that bears
/// the entry's key as its simple or qualified name.
pub proof fn lemma_class_index_valid(docs: JavaDocs, p: int, c: int)
    requires
        0 <= p <= docs.packages@.len(),
        p < docs.packages@.len() ==> 0 <= c <= docs.packages@[p].classes@.len(),
        p == docs.packages@.len() ==> c == 0,
    ensures
        forall|k: Seq<char>| #[trigger]
            class_index_upto(docs, p, c).contains_key(k) ==> {
                let pos = class_index_upto(docs, p, c)[k];
                &&& is_class_pos(docs, pos.0 as int, pos.1 as int)
                &&& names_class(docs, k, pos.0 as int, pos.1 as int)
            },
    decreases p, c,
{
    assert(docs.packages@.len() == docs.packages.len());
    let now = class_index_upto(docs, p, c);
    if c > 0 {
        assert(docs.packages@[p].classes@.len() == docs.packages@[p].classes.len());
        lemma_class_index_valid(docs, p, c - 1);
        let before = class_index_upto(docs, p, c - 1);
        let pkg = docs.packages@[p];
        let cls = pkg.classes@[c - 1];
        assert forall|k: Seq<char>| #[trigger] now.contains_key(k) implies {
            let pos = now[k];
            &&& is_class_pos(docs, pos.0 as int, pos.1 as int)
            &&& names_class(docs, k, pos.0 as int, pos.1 as int)
        } by {
            if k != cls.name@ && k != qualified_name(pkg.package@, cls.name@) {
                assert(before.contains_key(k));
                assert(now[k] == before[k]);
            }
        }
    } else if p > 0 {
        lemma_class_index_valid(docs, p - 1, docs.packages@[p - 1].classes@.len() as int);
        assert(now == class_index_upto(docs, p - 1, docs.packages@[p - 1].classes@.len() as int));
    } else {
        assert(now == Map::<Seq<char>, (usize, usize)>::empty());
    }
}

/// `k` is the simple or the qualified name of the class at `(p, c)`.
pub open spec fn names_class(docs: JavaDocs, k: Seq<char>, p: int, c: int) -> bool {
    let pkg = docs.packages@[p];
    let cls = pkg.classes@[c];
    k == cls.name@ || k == qualified_name(pkg.package@, cls.name@)
}

/// Every class that has been entered is found under both of its names.
pub proof fn lemma_class_index_complete(docs: JavaDocs, p: int, c: int, q: int, d: int)
    requires
        0 <= p <= docs.packages@.len(),
        p < docs.packages@.len() ==> 0 <= c <= docs.packages@[p].classes@.len(),
        p == docs.packages@.len() ==> c == 0,
        is_class_pos(docs, q, d),
        q < p || (q == p && d < c),
    ensures
        class_index_upto(docs, p, c).contains_key(docs.packages@[q].classes@[d].name@),
        class_index_upto(docs, p, c).contains_key(
            qualified_name(docs.packages@[q].package@, docs.packages@[q].classes@[d].name@),
        ),
    decreases p, c,
{
    if c > 0 {
        if !(q == p && d == c - 1) {
            lemma_class_index_complete(docs, p, c - 1, q, d);
        }
    } else if p > 0 {
        lemma_class_index_complete(docs, p - 1, docs.packages@[p - 1].classes@.len() as int, q, d);
    }
}

/// Every position listed in the method index is the position of a method
/// that bears the entry's key as its name.
pub proof fn lemma_method_index_valid(docs: JavaDocs, p: int, c: int, m: int)
    requires
        0 <= p <= docs.packages@.len(),
        p < docs.packages@.len() ==> 0 <= c <= docs.packages@[p].classes@.len(),
        p == docs.packages@.len() ==> c == 0,
        is_class_pos(docs, p, c) ==> 0 <= m <= docs.packages@[p].classes@[c].methods@.len(),
        !is_class_pos(docs, p, c) ==> m == 0,
    ensures
        forall|k: Seq<char>, i: int|
            #![trigger method_index_upto(docs, p, c, m)[k][i]]
            method_index_upto(docs, p, c, m).contains_key(k) && 0 <= i < method_index_upto(
                docs,
                p,
                c,
                m,
            )[k].len() ==> {
                let pos = method_index_upto(docs, p, c, m)[k][i];
                &&& is_method_pos(docs, pos.0 as int, pos.1 as int, pos.2 as int)
                &&& docs.packages@[pos.0 as int].classes@[pos.1 as int].methods@[pos.2 as int].name@
                    == k
            },
    decreases p, c, m,
{
    assert(docs.packages@.len() == docs.packages.len());
    if m > 0 {
        assert(docs.packages@[p].classes@.len() == docs.packages@[p].classes.len());
        assert(docs.packages@[p].classes@[c].methods@.len()
            == docs.packages@[p].classes@[c].methods.len());
        let before = method_index_upto(docs, p, c, m - 1);
        let name = docs.packages@[p].classes@[c].methods@[m - 1].name@;
        let now = method_index_upto(docs, p, c, m);
        lemma_method_index_valid(docs, p, c, m - 1);
        assert forall|k: Seq<char>, i: int|
            now.contains_key(k) && 0 <= i < now[k].len() implies {
            let pos = #[trigger] now[k][i];
            &&& is_method_pos(docs, pos.0 as int, pos.1 as int, pos.2 as int)
            &&& docs.packages@[pos.0 as int].classes@[pos.1 as int].methods@[pos.2 as int].name@
                == k
        } by {
            if k == name {
                if before.contains_key(name) && i < before[name].len() {
                    assert(now[k][i] == before[k][i]);
                }
            } else {
                assert(now[k][i] == before[k][i]);
            }
        }
    } else if c > 0 {
        lemma_method_index_valid(
            docs,
            p,
            c - 1,
            docs.packages@[p].classes@[c - 1].methods@.len() as int,
        );
        assert(method_index_upto(docs, p, c, m) == method_index_upto(
            docs,
            p,
            c - 1,
            docs.packages@[p].classes@[c - 1].methods@.len() as int,
        ));
    } else if p > 0 {
        lemma_method_index_valid(docs, p - 1, docs.packages@[p - 1].classes@.len() as int, 0);
        assert(method_index_upto(docs, p, c, m) == method_index_upto(
            docs,
            p - 1,
            docs.packages@[p - 1].classes@.len() as int,
            0,
        ));
    } else {
        assert(method_index_upto(docs, p, c, m) == Map::<
            Seq<char>,
            Seq<(usize, usize, usize)>,
        >::empty());
    }
}

/// `(q, d)` comes before `(p, c)` in catalogue order.
pub open spec fn class_before(q: int, d: int, p: int, c: int) -> bool {
    q < p || (q == p && d < c)
}

/// `(q, d, e)` comes before `(p, c, m)` in catalogue order.
pub open spec fn method_before(q: int, d: int, e: int, p: int, c: int, m: int) -> bool {
    q < p || (q == p && (d < c || (d == c && e < m)))
}

/// A key is listed for the last class entered that bears it as its
/// simple or qualified name.
pub proof fn lemma_class_index_entry(docs: JavaDocs, p: int, c: int, q: int, d: int, k: Seq<char>)
    requires
        0 <= p <= docs.packages@.len(),
        p < docs.packages@.len() ==> 0 <= c <= docs.packages@[p].classes@.len(),
        p == docs.packages@.len() ==> c == 0,
        is_class_pos(docs, q, d),
        class_before(q, d, p, c),
        names_class(docs, k, q, d),
        forall|q2: int, d2: int|
            is_class_pos(docs, q2, d2) && class_before(q, d, q2, d2) && class_before(q2, d2, p, c)
                ==> !#[trigger] names_class(docs, k, q2, d2),
    ensures
        class_index_upto(docs, p, c).contains_key(k),
        class_index_upto(docs, p, c)[k] == (q as usize, d as usize),
    decreases p, c,
{
    if c > 0 {
        if !(q == p && d == c - 1) {
            assert(!names_class(docs, k, p, c - 1));
            lemma_class_index_entry(docs, p, c - 1, q, d, k);
        }
    } else if p > 0 {
        lemma_class_index_entry(docs, p - 1, docs.packages@[p - 1].classes@.len() as int, q, d, k);
    }
}

/// Every method that has been entered is listed under its name.
pub proof fn lemma_method_index_complete(
    docs: JavaDocs,
    p: int,
    c: int,
    m: int,
    q: int,
    d: int,
    e: int,
)
    requires
        0 <= p <= docs.packages@.len(),
        p < docs.packages@.len() ==> 0 <= c <= docs.packages@[p].classes@.len(),
        p == docs.packages@.len() ==> c == 0,
        is_class_pos(docs, p, c) ==> 0 <= m <= docs.packages@[p].classes@[c].methods@.len(),
        !is_class_pos(docs, p, c) ==> m == 0,
        is_method_pos(docs, q, d, e),
        method_before(q, d, e, p, c, m),
    ensures
        method_index_upto(docs, p, c, m).contains_key(
            docs.packages@[q].classes@[d].methods@[e].name@,
        ),
        method_index_upto(docs, p, c, m)[docs.packages@[q].classes@[d].methods@[e].name@].len() > 0,
    decreases p, c, m,
{
    if m > 0 {
        if !(q == p && d == c && e == m - 1) {
            lemma_method_index_complete(docs, p, c, m - 1, q, d, e);
        }
    } else if c > 0 {
        lemma_method_index_complete(
            docs,
            p,
            c - 1,
            docs.packages@[p].classes@[c - 1].methods@.len() as int,
            q,
            d,
            e,
        );
    } else if p > 0 {
        lemma_method_index_complete(
            docs,
            p - 1,
            docs.packages@[p - 1].classes@.len() as int,
            0,
            q,
            d,
            e,
        );
    }
}

/// Copies a list of method positions.
fn copy_positions(v: &Vec<(usize, usize, usize)>) -> (r: Vec<(usize, usize, usize)>)
    ensures
        r@ == v@,
{
    let mut r: Vec<(usize, usize, usize)> = Vec::new();
    let mut i: usize = 0;
    while i < v.len()
        invariant
            i <= v.len(),
            r@ == v@.take(i as int),
        decreases v.len() - i,
    {
        r.push(v[i]);
        i += 1;
    }
    r
}

/// The characters of a package name, a dot, and a class name.
fn qualified(package: &str, class: &str) -> (r: String)
    ensures
        r@ == qualified_name(package@, class@),
{
    let mut v = chars_of(package);
    v.push('.');
    crate::text::append_str(&mut v, class);
    crate::text::string_of(&v)
}

impl DocsIndex {
    /// The index agrees with the catalogue it holds: its maps are those of
    /// the catalogue, and `class_names` lists the class keys once, in the
    /// order in which they were first entered.
    pub open spec fn wf(&self) -> bool {
        &&& self.classes@ == class_index_of(self.docs)
        &&& self.methods@.dom() == method_index_of(self.docs).dom()
        &&& forall|k: Seq<char>| #[trigger]
            self.methods@.contains_key(k) ==> self.methods@[k]@ == method_index_of(self.docs)[k]
        &&& str_views(self.class_names@).no_duplicates()
        &&& str_views(self.class_names@).to_set() == self.classes@.dom()
        &&& str_views(self.class_names@) == class_keys_of(self.docs)
    }

    /// The class that the index lists under `name`.
    pub open spec fn class_named(&self, name: Seq<char>) -> Class {
        let pos = self.classes@[name];
        self.docs.packages@[pos.0 as int].classes@[pos.1 as int]
    }

    /// The package of the class that the index lists under `name`.
    pub open spec fn package_of(&self, name: Seq<char>) -> Package {
        self.docs.packages@[self.classes@[name].0 as int]
    }

    /// Build an index from the parsed docs.
    pub fn build(docs: JavaDocs) -> (index: Self)
        ensures
            index.docs == docs,
            index.wf(),
    {
        let mut classes: StringHashMap<(usize, usize)> = StringHashMap::new();
        let mut methods: StringHashMap<Vec<(usize, usize, usize)>> = StringHashMap::new();
        let mut class_names: Vec<String> = Vec::new();
        let mut p: usize = 0;
        while p < docs.packages.len()
            invariant
                p <= docs.packages@.len(),
                classes@ == class_index_upto(docs, p as int, 0),
                methods@.dom() == method_index_upto(docs, p as int, 0, 0).dom(),
                forall|k: Seq<char>| #[trigger]
                    methods@.contains_key(k) ==> methods@[k]@ == method_index_upto(
                        docs,
                        p as int,
                        0,
                        0,
                    )[k],
                str_views(class_names@).no_duplicates(),
                str_views(class_names@).to_set() == classes@.dom(),
                str_views(class_names@) == class_keys_upto(docs, p as int, 0),
            decreases docs.packages@.len() - p,
        {
            let mut c: usize = 0;
            while c < docs.packages[p].classes.len()
                invariant
                    p < docs.packages@.len(),
                    c <= docs.packages@[p as int].classes@.len(),
                    classes@ == class_index_upto(docs, p as int, c as int),
                    methods@.dom() == method_index_upto(docs, p as int, c as int, 0).dom(),
                    forall|k: Seq<char>| #[trigger]
                        methods@.contains_key(k) ==> methods@[k]@ == method_index_upto(
                            docs,
                            p as int,
                            c as int,
                            0,
                        )[k],
                    str_views(class_names@).no_duplicates(),
                    str_views(class_names@).to_set() == classes@.dom(),
                    str_views(class_names@) == class_keys_upto(docs, p as int, c as int),
                decreases docs.packages@[p as int].classes@.len() - c,
            {
                let fqn = qualified(
                    docs.packages[p].package.as_str(),
                    docs.packages[p].classes[c].name.as_str(),
                );
                let ghost keys = str_views(class_names@);
                assert(keys.to_set().contains(fqn@) == keys.contains(fqn@));
                if !classes.contains_key(fqn.as_str()) {
                    let key = fqn.clone();
                    proof {
                        lemma_push_new_key(class_names@, key, classes@.dom());
                        assert(str_views(class_names@.push(key)) == keys.push(key@));
                    }
                    class_names.push(key);
                }
                assert(str_views(class_names@) == with_key(keys, fqn@));
                classes.insert(fqn, (p, c));
                assert(str_views(class_names@).to_set() =~= classes@.dom());
                let simple = docs.packages[p].classes[c].name.clone();
                let ghost keys = str_views(class_names@);
                assert(keys.to_set().contains(simple@) == keys.contains(simple@));
                if !classes.contains_key(simple.as_str()) {
                    let key = simple.clone();
                    proof {
                        lemma_push_new_key(class_names@, key, classes@.dom());
                        assert(str_views(class_names@.push(key)) == keys.push(key@));
                    }
                    class_names.push(key);
                }
                assert(str_views(class_names@) == with_key(keys, simple@));
                classes.insert(simple, (p, c));
                assert(str_views(class_names@).to_set() =~= classes@.dom());
                let mut m: usize = 0;
                while m < docs.packages[p].classes[c].methods.len()
                    invariant
                        p < docs.packages@.len(),
                        c < docs.packages@[p as int].classes@.len(),
                        m <= docs.packages@[p as int].classes@[c as int].methods@.len(),
                        str_views(class_names@) == class_keys_upto(docs, p as int, c + 1),
                        methods@.dom() == method_index_upto(
                            docs,
                            p as int,
                            c as int,
                            m as int,
                        ).dom(),
                        forall|k: Seq<char>| #[trigger]
                            methods@.contains_key(k) ==> methods@[k]@ == method_index_upto(
                                docs,
                                p as int,
                                c as int,
                                m as int,
                            )[k],
                    decreases docs.packages@[p as int].classes@[c as int].methods@.len() - m,
                {
                    let name = docs.packages[p].classes[c].methods[m].name.clone();
                    let mut list: Vec<(usize, usize, usize)> = match methods.get(name.as_str()) {
                        Some(found) => copy_positions(found),
                        None => Vec::new(),
                    };
                    list.push((p, c, m));
                    methods.insert(name, list);
                    m += 1;
                }
                c += 1;
            }
            p += 1;
        }
        DocsIndex { classes, methods, class_names, docs }
    }

    /// Lookup a class by name (supports both simple and fully qualified names).
    pub fn get_class(&self, name: &str) -> (r: Option<&Class>)
        requires
            self.wf(),
        ensures
            match r {
                Some(class) => self.classes@.contains_key(name@) && *class == self.class_named(
                    name@,
                ),
                None => !self.classes@.contains_key(name@),
            },
    {
        proof {
            lemma_class_index_valid(self.docs, self.docs.packages@.len() as int, 0);
        }
        match self.classes.get(name) {
            Some(pos) => Some(&self.docs.packages[pos.0].classes[pos.1]),
            None => None,
        }
    }

    /// Lookup a class and its package by name.
    pub fn get_class_with_package(&self, name: &str) -> (r: Option<(&Package, &Class)>)
        requires
            self.wf(),
        ensures
            match r {
                Some((package, class)) => self.classes@.contains_key(name@) && *package
                    == self.package_of(name@) && *class == self.class_named(name@),
                None => !self.classes@.contains_key(name@),
            },
    {
        proof {
            lemma_class_index_valid(self.docs, self.docs.packages@.len() as int, 0);
        }
        match self.classes.get(name) {
            Some(pos) => {
                let package = &self.docs.packages[pos.0];
                Some((package, &package.classes[pos.1]))
            },
            None => None,
        }
    }

    /// Lookup all methods with a given name across all classes.
    pub fn get_methods(&self, name: &str) -> (r: Vec<(&Package, &Class, &Method)>)
        requires
            self.wf(),
        ensures
            !self.methods@.contains_key(name@) ==> r@.len() == 0,
            self.methods@.contains_key(name@) ==> {
                let found = self.methods@[name@]@;
                &&& r@.len() == found.len()
                &&& forall|i: int|
                    0 <= i < found.len() ==> {
                        let pos = #[trigger] found[i];
                        let package = self.docs.packages@[pos.0 as int];
                        let class = package.classes@[pos.1 as int];
                        &&& *r@[i].0 == package
                        &&& *r@[i].1 == class
                        &&& *r@[i].2 == class.methods@[pos.2 as int]
                    }
            },
    {
        let mut r: Vec<(&Package, &Class, &Method)> = Vec::new();
        match self.methods.get(name) {
            Some(found) => {
                proof {
                    lemma_method_index_valid(self.docs, self.docs.packages@.len() as int, 0, 0);
                }
                let mut i: usize = 0;
                while i < found.len()
                    invariant
                        i <= found.len(),
                        self.wf(),
                        self.methods@.contains_key(name@),
                        *found == self.methods@[name@],
                        r@.len() == i,
                        forall|k: Seq<char>, j: int|
                            #![trigger method_index_of(self.docs)[k][j]]
                            method_index_of(self.docs).contains_key(k) && 0 <= j < method_index_of(
                                self.docs,
                            )[k].len() ==> {
                                let pos = method_index_of(self.docs)[k][j];
                                is_method_pos(self.docs, pos.0 as int, pos.1 as int, pos.2 as int)
                            },
                        forall|j: int|
                            0 <= j < i ==> {
                                let pos = #[trigger] found@[j];
                                let package = self.docs.packages@[pos.0 as int];
                                let class = package.classes@[pos.1 as int];
                                &&& *r@[j].0 == package
                                &&& *r@[j].1 == class
                                &&& *r@[j].2 == class.methods@[pos.2 as int]
                            },
                    decreases found.len() - i,
                {
                    let pos = found[i];
                    assert(found@[i as int] == method_index_of(self.docs)[name@][i as int]);
                    let package = &self.docs.packages[pos.0];
                    let class = &package.classes[pos.1];
                    let method = &class.methods[pos.2];
                    r.push((package, class, method));
                    i += 1;
                }
            },
            None => {},
        }
        r
    }

    /// Lookup a specific method in a specific class: the first method of
    /// that name in the class that the index lists under `class_name`.
    pub fn get_class_method(&self, class_name: &str, method_name: &str) -> (r: Option<&Method>)
        requires
            self.wf(),
        ensures
            match r {
                Some(method) => self.classes@.contains_key(class_name@) && exists|i: int|
                    is_first_named(self.class_named(class_name@).methods@, method_name@, i)
                        && *method == #[trigger] self.class_named(class_name@).methods@[i],
                None => !self.classes@.contains_key(class_name@) || forall|i: int|
                    0 <= i < self.class_named(class_name@).methods@.len()
                        ==> #[trigger] self.class_named(class_name@).methods@[i].name@
                        != method_name@,
            },
    {
        match self.get_class(class_name) {
            Some(class) => {
                let mut i: usize = 0;
                while i < class.methods.len()
                    invariant
                        i <= class.methods@.len(),
                        self.classes@.contains_key(class_name@),
                        *class == self.class_named(class_name@),
                        forall|j: int| 0 <= j < i ==> #[trigger] class.methods@[j].name@ != method_name@,
                    decreases class.methods@.len() - i,
                {
                    if str_eq(class.methods[i].name.as_str(), method_name) {
                        assert(is_first_named(
                            self.class_named(class_name@).methods@,
                            method_name@,
                            i as int,
                        ));
                        assert(class.methods[i as int] == self.class_named(
                            class_name@,
                        ).methods@[i as int]);
                        return Some(&class.methods[i]);
                    }
                    i += 1;
                }
                None
            },
            None => None,
        }
    }

    /// Get all classes in a package: the first package of that name.
    pub fn get_package(&self, package_name: &str) -> (r: Option<&Package>)
        ensures
            match r {
                Some(package) => exists|i: int|
                    is_first_package(self.docs.packages@, package_name@, i) && *package
                        == #[trigger] self.docs.packages@[i],
                None => forall|i: int|
                    0 <= i < self.docs.packages@.len() ==> #[trigger] self.docs.packages@[i].package@
                        != package_name@,
            },
    {
        let mut i: usize = 0;
        while i < self.docs.packages.len()
            invariant
                i <= self.docs.packages@.len(),
                forall|j: int|
                    0 <= j < i ==> #[trigger] self.docs.packages@[j].package@ != package_name@,
            decreases self.docs.packages@.len() - i,
        {
            if str_eq(self.docs.packages[i].package.as_str(), package_name) {
                assert(is_first_package(self.docs.packages@, package_name@, i as int));
                return Some(&self.docs.packages[i]);
            }
            i += 1;
        }
        None
    }

    /// Search for classes by partial name match: the indexed names whose
    /// lowercase form contains the lowercase form of `query`, in the order
    /// of `class_names`, each with the class it is listed for.
    pub fn search_classes(&self, query: &str) -> (r: Vec<(String, &Class)>)
        requires
            self.wf(),
        ensures
            Seq::new(r@.len(), |i: int| r@[i].0@) == str_views(self.class_names@).filter(
                |n: Seq<char>| name_matches(n, query@),
            ),
            forall|i: int|
                0 <= i < r@.len() ==> self.classes@.contains_key(#[trigger] r@[i].0@) && *r@[i].1
                    == self.class_named(r@[i].0@),
    {
        let needle = chars_of(lowercase(query).as_str());
        let mut r: Vec<(String, &Class)> = Vec::new();
        let ghost pred = |n: Seq<char>| name_matches(n, query@);
        let ghost names = str_views(self.class_names@);
        let mut i: usize = 0;
        proof {
            lemma_class_index_valid(self.docs, self.docs.packages@.len() as int, 0);
            assert(names.take(0) == Seq::<Seq<char>>::empty());
        }
        while i < self.class_names.len()
            invariant
                i <= self.class_names@.len(),
                self.wf(),
                names == str_views(self.class_names@),
                pred == |n: Seq<char>| name_matches(n, query@),
                needle@ == lowercase_of(query@),
                Seq::new(r@.len(), |j: int| r@[j].0@) == names.take(i as int).filter(pred),
                forall|j: int|
                    0 <= j < r@.len() ==> self.classes@.contains_key(#[trigger] r@[j].0@) && *r@[j].1
                        == self.class_named(r@[j].0@),
                forall|k: Seq<char>| #[trigger]
                    self.classes@.contains_key(k) ==> is_class_pos(
                        self.docs,
                        self.classes@[k].0 as int,
                        self.classes@[k].1 as int,
                    ),
            decreases self.class_names@.len() - i,
        {
            let name = &self.class_names[i];
            let hay = chars_of(lowercase(name.as_str()).as_str());
            proof {
                assert(names.take(i + 1) == names.take(i as int).push(names[i as int]));
                names.take(i as int).lemma_filter_push(names[i as int], pred);
                assert(names[i as int] == name@);
            }
            if contains(&hay, &needle) {
                assert(names.to_set().contains(names[i as int]));
                match self.classes.get(name.as_str()) {
                    Some(pos) => {
                        let ghost before = Seq::new(r@.len(), |j: int| r@[j].0@);
                        let key = name.clone();
                        r.push((key, &self.docs.packages[pos.0].classes[pos.1]));
                        assert(Seq::new(r@.len(), |j: int| r@[j].0@) == before.push(name@));
                    },
                    None => {},
                }
            }
            i += 1;
        }
        assert(names.take(i as int) == names);
        r
    }
}

/// `name` matches `query` when its lowercase form contains that of `query`.
pub open spec fn name_matches(name: Seq<char>, query: Seq<char>) -> bool {
    has_match(lowercase_of(name), lowercase_of(query))
}

/// `i` is the index of the first method called `name`.
pub open spec fn is_first_named(methods: Seq<Method>, name: Seq<char>, i: int) -> bool {
    &&& 0 <= i < methods.len()
    &&& methods[i].name@ == name
    &&& forall|j: int| 0 <= j < i ==> #[trigger] methods[j].name@ != name
}

/// `i` is the index of the first package called `name`.
pub open spec fn is_first_package(packages: Seq<Package>, name: Seq<char>, i: int) -> bool {
    &&& 0 <= i < packages.len()
    &&& packages[i].package@ == name
    &&& forall|j: int| 0 <= j < i ==> #[trigger] packages[j].package@ != name
}

} // verus!
