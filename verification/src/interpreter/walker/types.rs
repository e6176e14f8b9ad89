//! Scopes of variables.
use vstd::prelude::*;

use crate::text::{str_chars, string_from_chars};

verus! {

/// The names bound in a list of `(name, value)` pairs; a later pair wins.
pub open spec fn bindings<V>(vs: Seq<(String, V)>) -> Map<Seq<char>, V>
    decreases vs.len(),
{
    if vs.len() == 0 {
        Map::empty()
    } else {
        bindings(vs.drop_last()).insert(vs.last().0@, vs.last().1)
    }
}

/// No name occurs twice in the list.
pub open spec fn distinct_names<V>(vs: Seq<(String, V)>) -> bool {
    forall|i: int, j: int| 0 <= i < j < vs.len() ==> #[trigger] vs[i].0@ != #[trigger] vs[j].0@
}

/// A scope: its constants and its variables.
pub type Scope<V> = (Map<Seq<char>, V>, Map<Seq<char>, V>);

/// The value `name` has in the scopes, the innermost first: in a scope the
/// constants are looked at before the variables.
pub open spec fn lookup_in<V>(scopes: Seq<Scope<V>>, name: Seq<char>) -> Option<V>
    decreases scopes.len(),
{
    if scopes.len() == 0 {
        None
    } else if scopes[0].0.contains_key(name) {
        Some(scopes[0].0[name])
    } else if scopes[0].1.contains_key(name) {
        Some(scopes[0].1[name])
    } else {
        lookup_in(scopes.drop_first(), name)
    }
}

/// The innermost scope whose variables hold `name`.
pub open spec fn declaring<V>(scopes: Seq<Scope<V>>, name: Seq<char>) -> Option<int>
    decreases scopes.len(),
{
    if scopes.len() == 0 {
        None
    } else if scopes[0].1.contains_key(name) {
        Some(0)
    } else {
        match declaring(scopes.drop_first(), name) {
            Some(i) => Some(i + 1),
            None => None,
        }
    }
}

/// The declaring scope is a scope whose variables hold the name, and no
/// scope nested in it holds it among its variables.
pub proof fn lemma_declaring_facts<V>(scopes: Seq<Scope<V>>, name: Seq<char>)
    ensures
        declaring(scopes, name) matches Some(i) ==> {
            &&& 0 <= i < scopes.len()
            &&& scopes[i].1.contains_key(name)
            &&& forall|j: int| 0 <= j < i ==> !(#[trigger] scopes[j]).1.contains_key(name)
        },
        declaring(scopes, name) is None ==> forall|j: int|
            0 <= j < scopes.len() ==> !(#[trigger] scopes[j]).1.contains_key(name),
    decreases scopes.len(),
{
    if scopes.len() > 0 {
        let rest = scopes.drop_first();
        lemma_declaring_facts(rest, name);
        assert forall|j: int| 0 < j < scopes.len() implies #[trigger] scopes[j] == rest[j - 1] by {}
    }
}

/// `b` holds the names of `a`, each with a clone of its value.
pub open spec fn map_cloned<V: Clone>(a: Map<Seq<char>, V>, b: Map<Seq<char>, V>) -> bool {
    &&& a.dom() == b.dom()
    &&& forall|k: Seq<char>| #[trigger] a.contains_key(k) ==> cloned(a[k], b[k])
}

/// `b` is a copy of the scopes `a`, with every value cloned.
pub open spec fn scopes_cloned<V: Clone>(a: Seq<Scope<V>>, b: Seq<Scope<V>>) -> bool {
    &&& a.len() == b.len()
    &&& forall|i: int|
        0 <= i < a.len() ==> map_cloned(#[trigger] a[i].0, b[i].0) && map_cloned(a[i].1, b[i].1)
}

/// The message of an assignment to a name that no scope declares.
pub open spec fn undeclared_message(name: Seq<char>) -> Seq<char> {
    "Undeclared variable "@ + name
}

/// Variables and constants of a scope, nested in the scope of its parent.
pub struct Enviroment<V> {
    parent: Option<Box<Enviroment<V>>>,
    const_vars: Vec<(String, V)>,
    vars: Vec<(String, V)>,
}

impl<V> Enviroment<V> {
    /// No name is bound twice in a scope, here or in any parent.
    pub closed spec fn wf(self) -> bool
        decreases self,
    {
        &&& distinct_names(self.const_vars@)
        &&& distinct_names(self.vars@)
        &&& match self.parent {
            Some(p) => p.wf(),
            None => true,
        }
    }

    /// The scopes, this one first and then its parents outward.
    pub closed spec fn scopes(self) -> Seq<Scope<V>>
        decreases self,
    {
        let own = (bindings(self.const_vars@), bindings(self.vars@));
        match self.parent {
            Some(p) => seq![own] + p.scopes(),
            None => seq![own],
        }
    }
}

impl<V> View for Enviroment<V> {
    type V = Seq<Scope<V>>;

    closed spec fn view(&self) -> Seq<Scope<V>> {
        self.scopes()
    }
}

/// Binding a name that is last in the list.
proof fn lemma_bindings_push<V>(vs: Seq<(String, V)>, x: (String, V))
    ensures
        bindings(vs.push(x)) == bindings(vs).insert(x.0@, x.1),
{
    assert(vs.push(x).drop_last() =~= vs);
}

/// A name is bound exactly when some pair holds it.
proof fn lemma_bindings_dom<V>(vs: Seq<(String, V)>, name: Seq<char>)
    ensures
        bindings(vs).contains_key(name) <==> exists|i: int| 0 <= i < vs.len() && #[trigger] vs[i].0@
            == name,
    decreases vs.len(),
{
    if vs.len() > 0 {
        lemma_bindings_dom(vs.drop_last(), name);
        if bindings(vs.drop_last()).contains_key(name) {
            let i = choose|i: int| 0 <= i < vs.drop_last().len() && #[trigger] vs.drop_last()[i].0@ == name;
            assert(vs[i].0@ == name);
        }
        if exists|i: int| 0 <= i < vs.len() && #[trigger] vs[i].0@ == name {
            let i = choose|i: int| 0 <= i < vs.len() && #[trigger] vs[i].0@ == name;
            if i < vs.len() - 1 {
                assert(vs.drop_last()[i].0@ == name);
            }
        }
    }
}

/// With distinct names, the value bound to the name of a pair is its value.
proof fn lemma_bindings_at<V>(vs: Seq<(String, V)>, i: int)
    requires
        distinct_names(vs),
        0 <= i < vs.len(),
    ensures
        bindings(vs).contains_key(vs[i].0@),
        bindings(vs)[vs[i].0@] == vs[i].1,
    decreases vs.len(),
{
    if i < vs.len() - 1 {
        lemma_bindings_at(vs.drop_last(), i);
        assert(vs.drop_last()[i] == vs[i]);
    }
}

/// With distinct names, replacing the value of a pair rebinds its name.
proof fn lemma_bindings_update<V>(vs: Seq<(String, V)>, i: int, x: (String, V))
    requires
        distinct_names(vs),
        0 <= i < vs.len(),
        x.0@ == vs[i].0@,
    ensures
        bindings(vs.update(i, x)) == bindings(vs).insert(x.0@, x.1),
        distinct_names(vs.update(i, x)),
    decreases vs.len(),
{
    let ws = vs.update(i, x);
    if i == vs.len() - 1 {
        assert(ws.drop_last() =~= vs.drop_last());
        assert(bindings(vs.drop_last()).insert(x.0@, x.1) =~= bindings(vs.drop_last()).insert(
            vs.last().0@,
            vs.last().1,
        ).insert(x.0@, x.1));
    } else {
        lemma_bindings_update(vs.drop_last(), i, x);
        assert(ws.drop_last() =~= vs.drop_last().update(i, x));
        assert(vs.last().0@ != x.0@);
        assert(bindings(vs.drop_last()).insert(x.0@, x.1).insert(vs.last().0@, vs.last().1)
            =~= bindings(vs.drop_last()).insert(vs.last().0@, vs.last().1).insert(x.0@, x.1));
    }
    assert forall|a: int, b: int| 0 <= a < b < ws.len() implies #[trigger] ws[a].0@
        != #[trigger] ws[b].0@ by {
        assert(vs[a].0@ != vs[b].0@);
    }
}

/// The position of the pair that binds `name`.
fn find<V>(vs: &Vec<(String, V)>, name: &String) -> (r: Option<usize>)
    ensures
        match r {
            Some(i) => i < vs@.len() && vs@[i as int].0@ == name@,
            None => !bindings(vs@).contains_key(name@),
        },
{
    let mut i: usize = 0;
    while i < vs.len()
        invariant
            i <= vs@.len(),
            forall|j: int| 0 <= j < i ==> (#[trigger] vs@[j]).0@ != name@,
        decreases vs@.len() - i,
    {
        if vs[i].0 == *name {
            return Some(i);
        }
        i = i + 1;
    }
    proof {
        lemma_bindings_dom(vs@, name@);
    }
    None
}

/// A copy of the pairs, each value cloned.
fn copy_pairs<V: Clone>(vs: &Vec<(String, V)>) -> (r: Vec<(String, V)>)
    ensures
        r@.len() == vs@.len(),
        forall|i: int|
            0 <= i < vs@.len() ==> (#[trigger] r@[i]).0@ == vs@[i].0@ && cloned(vs@[i].1, r@[i].1),
{
    let mut r: Vec<(String, V)> = Vec::new();
    let mut i: usize = 0;
    while i < vs.len()
        invariant
            i <= vs@.len(),
            r@.len() == i,
            forall|j: int|
                0 <= j < i ==> (#[trigger] r@[j]).0@ == vs@[j].0@ && cloned(vs@[j].1, r@[j].1),
        decreases vs@.len() - i,
    {
        let name = vs[i].0.clone();
        let value = vs[i].1.clone();
        r.push((name, value));
        i = i + 1;
    }
    r
}

/// Pairs copied with their names kept and their values cloned bind the same
/// names to clones of the same values.
proof fn lemma_bindings_cloned<V: Clone>(a: Seq<(String, V)>, b: Seq<(String, V)>)
    requires
        a.len() == b.len(),
        distinct_names(a),
        forall|i: int| 0 <= i < a.len() ==> (#[trigger] b[i]).0@ == a[i].0@ && cloned(a[i].1, b[i].1),
    ensures
        map_cloned(bindings(a), bindings(b)),
        distinct_names(b),
{
    assert forall|k: Seq<char>| bindings(a).contains_key(k) <==> bindings(b).contains_key(k) by {
        lemma_bindings_dom(a, k);
        lemma_bindings_dom(b, k);
        if bindings(a).contains_key(k) {
            let i = choose|i: int| 0 <= i < a.len() && #[trigger] a[i].0@ == k;
            assert(b[i].0@ == k);
        }
        if bindings(b).contains_key(k) {
            let i = choose|i: int| 0 <= i < b.len() && #[trigger] b[i].0@ == k;
            assert(a[i].0@ == k);
        }
    }
    assert(bindings(a).dom() =~= bindings(b).dom());
    assert forall|x: int, y: int| 0 <= x < y < b.len() implies #[trigger] b[x].0@
        != #[trigger] b[y].0@ by {
        assert(a[x].0@ != a[y].0@);
    }
    assert forall|k: Seq<char>| #[trigger] bindings(a).contains_key(k) implies cloned(
        bindings(a)[k],
        bindings(b)[k],
    ) by {
        lemma_bindings_dom(a, k);
        let i = choose|i: int| 0 <= i < a.len() && #[trigger] a[i].0@ == k;
        lemma_bindings_at(a, i);
        lemma_bindings_at(b, i);
    }
}

/// The message of an assignment to `name`, which no scope declares.
fn undeclared(name: &String) -> (m: String)
    ensures
        m@ == undeclared_message(name@),
{
    let mut cs = str_chars("Undeclared variable ");
    let mut tail = str_chars(name.as_str());
    cs.append(&mut tail);
    let len = cs.len();
    proof {
        assert(cs@.subrange(0, len as int) =~= cs@);
    }
    string_from_chars(&cs, 0, len)
}

impl<V> Enviroment<V> {
    /// A scope with nothing in it and no parent.
    pub fn empty() -> (e: Self)
        ensures
            e.wf(),
            e@ == seq![(Map::<Seq<char>, V>::empty(), Map::<Seq<char>, V>::empty())],
    {
        let e = Enviroment { parent: None, const_vars: Vec::new(), vars: Vec::new() };
        proof {
            assert(bindings(e.const_vars@) =~= Map::<Seq<char>, V>::empty());
            assert(bindings(e.vars@) =~= Map::<Seq<char>, V>::empty());
        }
        e
    }

    /// Binds `varname` to `value` among this scope's variables, whether or not
    /// it was bound there.
    pub fn set_var(&mut self, varname: &String, value: V)
        requires
            old(self).wf(),
        ensures
            final(self).wf(),
            final(self)@ == old(self)@.update(0, (old(self)@[0].0, old(self)@[0].1.insert(varname@, value))),
    {
        proof {
            self.lemma_scopes_head();
        }
        let ghost before = self.vars@;
        match find(&self.vars, varname) {
            Some(i) => {
                let name = varname.clone();
                self.vars.remove(i);
                self.vars.insert(i, (name, value));
                proof {
                    assert(self.vars@ =~= before.update(i as int, (name, value)));
                    lemma_bindings_update(before, i as int, (name, value));
                }
            },
            None => {
                let name = varname.clone();
                self.vars.push((name, value));
                proof {
                    lemma_bindings_push(before, (name, value));
                    lemma_bindings_dom(before, varname@);
                    assert forall|a: int, b: int| 0 <= a < b < self.vars@.len() implies
                        #[trigger] self.vars@[a].0@ != #[trigger] self.vars@[b].0@ by {
                        if b == before.len() {
                            assert(before[a].0@ != varname@);
                        } else {
                            assert(before[a].0@ != before[b].0@);
                        }
                    }
                }
            },
        }
        proof {
            self.lemma_scopes_head();
            assert(self@ =~= old(self)@.update(
                0,
                (old(self)@[0].0, old(self)@[0].1.insert(varname@, value)),
            ));
        }
    }

    /// The scopes start with this one's own, and go on with the parent's.
    proof fn lemma_scopes_head(self)
        ensures
            self@.len() >= 1,
            self@[0] == (bindings(self.const_vars@), bindings(self.vars@)),
            self@.drop_first() == match self.parent {
                Some(p) => p@,
                None => Seq::<Scope<V>>::empty(),
            },
    {
        let own = (bindings(self.const_vars@), bindings(self.vars@));
        match self.parent {
            Some(p) => {
                assert((seq![own] + p.scopes()).drop_first() =~= p.scopes());
            },
            None => {
                assert(seq![own].drop_first() =~= Seq::<Scope<V>>::empty());
            },
        }
    }
}

impl<V> Enviroment<V> {
    /// Assigns `value` to `varname` in the innermost scope whose variables
    /// hold it; where none does, nothing changes and the error names it.
    pub fn assign_var(&mut self, varname: &String, value: V) -> (r: Result<(), String>)
        requires
            old(self).wf(),
        ensures
            final(self).wf(),
            match declaring(old(self)@, varname@) {
                Some(i) => r is Ok && final(self)@ == old(self)@.update(
                    i,
                    (old(self)@[i].0, old(self)@[i].1.insert(varname@, value)),
                ),
                None => r matches Err(m) && m@ == undeclared_message(varname@) && final(self)@
                    == old(self)@,
            },
        decreases *old(self),
    {
        proof {
            self.lemma_scopes_head();
        }
        match find(&self.vars, varname) {
            Some(i) => {
                proof {
                    lemma_bindings_at(self.vars@, i as int);
                    assert(declaring(old(self)@, varname@) == Some(0int));
                }
                self.set_var(varname, value);
                Ok(())
            },
            None => {
                match self.parent.take() {
                    Some(mut p) => {
                        let ghost p_old = *p;
                        let r = p.assign_var(varname, value);
                        self.parent = Some(p);
                        proof {
                            self.lemma_scopes_head();
                            lemma_declaring_facts(p_old@, varname@);
                            assert(old(self)@.drop_first() == p_old@);
                            match declaring(p_old@, varname@) {
                                Some(i) => {
                                    assert(self@ =~= old(self)@.update(
                                        i + 1,
                                        (old(self)@[i + 1].0, old(self)@[i + 1].1.insert(varname@, value)),
                                    ));
                                },
                                None => {
                                    assert(self@ =~= old(self)@);
                                },
                            }
                        }
                        r
                    },
                    None => {
                        proof {
                            self.lemma_scopes_head();
                            assert(old(self)@.drop_first() =~= Seq::<Scope<V>>::empty());
                            assert(declaring(old(self)@.drop_first(), varname@) is None);
                        }
                        Err(undeclared(varname))
                    },
                }
            },
        }
    }
}

impl<V: Clone> Enviroment<V> {
    /// The value of `varname`: a clone of what `lookup_in` finds, looking at
    /// constants, then variables, then the parent.
    pub fn resolve(&self, varname: &String) -> (r: Option<V>)
        requires
            self.wf(),
        ensures
            r is Some <==> lookup_in(self@, varname@) is Some,
            r matches Some(x) ==> cloned(lookup_in(self@, varname@)->0, x),
        decreases self,
    {
        proof {
            self.lemma_scopes_head();
        }
        match find(&self.const_vars, varname) {
            Some(i) => {
                proof {
                    lemma_bindings_at(self.const_vars@, i as int);
                }
                return Some(self.const_vars[i].1.clone());
            },
            None => {},
        }
        match find(&self.vars, varname) {
            Some(i) => {
                proof {
                    lemma_bindings_at(self.vars@, i as int);
                }
                return Some(self.vars[i].1.clone());
            },
            None => {},
        }
        match &self.parent {
            Some(p) => {
                proof {
                    assert(lookup_in(self@, varname@) == lookup_in(p@, varname@));
                }
                p.resolve(varname)
            },
            None => {
                proof {
                    assert(self@.drop_first() =~= Seq::<Scope<V>>::empty());
                    assert(lookup_in(self@.drop_first(), varname@) is None);
                }
                None
            },
        }
    }

    /// A copy of this scope and its parents, every value cloned.
    fn copy(&self) -> (c: Self)
        requires
            self.wf(),
        ensures
            c.wf(),
            scopes_cloned(self@, c@),
        decreases self,
    {
        let parent = match &self.parent {
            Some(p) => Some(Box::new(p.copy())),
            None => None,
        };
        let c = Enviroment {
            parent,
            const_vars: copy_pairs(&self.const_vars),
            vars: copy_pairs(&self.vars),
        };
        proof {
            lemma_bindings_cloned(self.const_vars@, c.const_vars@);
            lemma_bindings_cloned(self.vars@, c.vars@);
            self.lemma_scopes_head();
            c.lemma_scopes_head();
            assert(scopes_cloned(self@.drop_first(), c@.drop_first()));
            assert(self@.len() == c@.len());
            assert forall|i: int| 0 <= i < self@.len() implies map_cloned(
                #[trigger] self@[i].0,
                c@[i].0,
            ) && map_cloned(self@[i].1, c@[i].1) by {
                if i > 0 {
                    assert(self@[i] == self@.drop_first()[i - 1]);
                    assert(c@[i] == c@.drop_first()[i - 1]);
                }
            }
            assert(scopes_cloned(self@, c@));
        }
        c
    }

    /// A new, empty scope whose parent is a copy of this one.
    ///
    /// The copy reaches every ancestor: the child holds its own copies of
    /// this scope and of all the scopes above it, so an assignment made
    /// through the child to a variable of any of them is not seen here, nor
    /// one made here seen by the child.
    pub fn new_child(&self) -> (c: Self)
        requires
            self.wf(),
        ensures
            c.wf(),
            c@.len() == self@.len() + 1,
            c@[0] == (Map::<Seq<char>, V>::empty(), Map::<Seq<char>, V>::empty()),
            scopes_cloned(self@, c@.drop_first()),
    {
        let p = self.copy();
        let c = Enviroment { parent: Some(Box::new(p)), const_vars: Vec::new(), vars: Vec::new() };
        proof {
            c.lemma_scopes_head();
            assert(bindings(c.const_vars@) =~= Map::<Seq<char>, V>::empty());
            assert(bindings(c.vars@) =~= Map::<Seq<char>, V>::empty());
        }
        c
    }
}

/// A name just set among the variables of the innermost scope is read back,
/// unless a constant of that scope has the same name.
pub proof fn lemma_set_then_resolve<V>(scopes: Seq<Scope<V>>, name: Seq<char>, value: V)
    requires
        scopes.len() > 0,
        !scopes[0].0.contains_key(name),
    ensures
        lookup_in(scopes.update(0, (scopes[0].0, scopes[0].1.insert(name, value))), name) == Some(
            value,
        ),
{
}

/// Setting or assigning one name leaves what every other name reads as it was.
pub proof fn lemma_update_keeps_others<V>(
    scopes: Seq<Scope<V>>,
    i: int,
    name: Seq<char>,
    value: V,
    other: Seq<char>,
)
    requires
        0 <= i < scopes.len(),
        other != name,
    ensures
        lookup_in(scopes.update(i, (scopes[i].0, scopes[i].1.insert(name, value))), other)
            == lookup_in(scopes, other),
    decreases i,
{
    let new = scopes.update(i, (scopes[i].0, scopes[i].1.insert(name, value)));
    if i > 0 {
        lemma_update_keeps_others(scopes.drop_first(), i - 1, name, value, other);
        assert(new.drop_first() =~= scopes.drop_first().update(
            i - 1,
            (scopes[i].0, scopes[i].1.insert(name, value)),
        ));
    } else {
        assert(new.drop_first() =~= scopes.drop_first());
    }
}

/// A name assigned in the scope that declares it is read back, unless a
/// constant of that name stands in that scope or in one nested in it.
pub proof fn lemma_assign_then_resolve<V>(scopes: Seq<Scope<V>>, name: Seq<char>, value: V)
    requires
        declaring(scopes, name) is Some,
        forall|j: int|
            0 <= j <= declaring(scopes, name)->0 ==> !(#[trigger] scopes[j]).0.contains_key(name),
    ensures
        ({
            let i = declaring(scopes, name)->0;
            lookup_in(scopes.update(i, (scopes[i].0, scopes[i].1.insert(name, value))), name)
                == Some(value)
        }),
    decreases scopes.len(),
{
    lemma_declaring_facts(scopes, name);
    if !scopes[0].1.contains_key(name) {
        let rest = scopes.drop_first();
        lemma_declaring_facts(rest, name);
        let i = declaring(scopes, name)->0;
        assert forall|j: int| 0 <= j <= declaring(rest, name)->0 implies !(
        #[trigger] rest[j]).0.contains_key(name) by {
            assert(rest[j] == scopes[j + 1]);
        }
        lemma_assign_then_resolve(rest, name, value);
        let new = scopes.update(i, (scopes[i].0, scopes[i].1.insert(name, value)));
        assert(new.drop_first() =~= rest.update(i - 1, (rest[i - 1].0, rest[i - 1].1.insert(name, value))));
        assert(!scopes[0].0.contains_key(name));
    } else {
        assert(!scopes[0].0.contains_key(name));
    }
}

/// A new child scope reads every name as its parent does.
pub proof fn lemma_child_resolves_as_parent<V>(scopes: Seq<Scope<V>>, name: Seq<char>)
    ensures
        lookup_in(
            seq![(Map::<Seq<char>, V>::empty(), Map::<Seq<char>, V>::empty())] + scopes,
            name,
        ) == lookup_in(scopes, name),
{
    let e = (Map::<Seq<char>, V>::empty(), Map::<Seq<char>, V>::empty());
    assert((seq![e] + scopes).drop_first() =~= scopes);
}

/// An empty environment reads no name.
pub proof fn lemma_empty_resolves_nothing<V>(name: Seq<char>)
    ensures
        lookup_in(seq![(Map::<Seq<char>, V>::empty(), Map::<Seq<char>, V>::empty())], name) is None,
{
    let e = (Map::<Seq<char>, V>::empty(), Map::<Seq<char>, V>::empty());
    assert(seq![e].drop_first() =~= Seq::<Scope<V>>::empty());
    assert(lookup_in(seq![e].drop_first(), name) is None);
}

/// Scopes copied with every value cloned read every name: the copy finds a
/// value exactly where the scopes it was copied from do, and a clone of it.
pub proof fn lemma_cloned_scopes_lookup<V: Clone>(a: Seq<Scope<V>>, b: Seq<Scope<V>>, name: Seq<char>)
    requires
        scopes_cloned(a, b),
    ensures
        lookup_in(a, name) is Some <==> lookup_in(b, name) is Some,
        lookup_in(a, name) is Some ==> cloned(lookup_in(a, name)->0, lookup_in(b, name)->0),
    decreases a.len(),
{
    if a.len() > 0 {
        assert(map_cloned(a[0].0, b[0].0) && map_cloned(a[0].1, b[0].1));
        assert(a[0].0.contains_key(name) == b[0].0.contains_key(name));
        assert(a[0].1.contains_key(name) == b[0].1.contains_key(name));
        assert forall|i: int| 0 <= i < a.drop_first().len() implies map_cloned(
            #[trigger] a.drop_first()[i].0,
            b.drop_first()[i].0,
        ) && map_cloned(a.drop_first()[i].1, b.drop_first()[i].1) by {
            assert(a.drop_first()[i] == a[i + 1]);
            assert(b.drop_first()[i] == b[i + 1]);
        }
        lemma_cloned_scopes_lookup(a.drop_first(), b.drop_first(), name);
    }
}

/// A new child scope, as `new_child` makes it, reads every name as the scope
/// it was made from: it finds a value exactly where that scope does, and a
/// clone of it.
pub proof fn lemma_new_child_resolves<V: Clone>(
    parent: Seq<Scope<V>>,
    child: Seq<Scope<V>>,
    name: Seq<char>,
)
    requires
        child.len() == parent.len() + 1,
        child[0] == (Map::<Seq<char>, V>::empty(), Map::<Seq<char>, V>::empty()),
        scopes_cloned(parent, child.drop_first()),
    ensures
        lookup_in(child, name) is Some <==> lookup_in(parent, name) is Some,
        lookup_in(parent, name) is Some ==> cloned(lookup_in(parent, name)->0, lookup_in(child, name)->0),
{
    lemma_cloned_scopes_lookup(parent, child.drop_first(), name);
    assert(lookup_in(child, name) == lookup_in(child.drop_first(), name));
}

/// For a value type whose clones equal what they were cloned from, a new
/// child scope reads every name exactly as the scope it was made from.
pub proof fn lemma_new_child_resolves_exact<V: Clone>(
    parent: Seq<Scope<V>>,
    child: Seq<Scope<V>>,
    name: Seq<char>,
)
    requires
        forall|a: V, b: V| #[trigger] cloned(a, b) ==> a == b,
        child.len() == parent.len() + 1,
        child[0] == (Map::<Seq<char>, V>::empty(), Map::<Seq<char>, V>::empty()),
        scopes_cloned(parent, child.drop_first()),
    ensures
        lookup_in(child, name) == lookup_in(parent, name),
{
    lemma_new_child_resolves(parent, child, name);
    if lookup_in(parent, name) is Some {
        assert(cloned(lookup_in(parent, name)->0, lookup_in(child, name)->0));
    }
}

/// Clones of `u64` equal what they were cloned from.
pub proof fn lemma_u64_clones_exact()
    ensures
        forall|a: u64, b: u64| #[trigger] cloned(a, b) ==> a == b,
{
}

} // verus!
