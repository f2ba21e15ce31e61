//! The rename tables of one module: original name to short identifier.
use vstd::prelude::*;

use crate::ident::{ident_of, lemma_ident_injective, MinifiedIdent};

verus! {

/// No name occurs twice as a key of `v`.
pub open spec fn keys_unique(v: Seq<(String, String)>) -> bool {
    forall|i: int, j: int| 0 <= i < v.len() && 0 <= j < v.len() && i != j ==> v[i].0@ != v[j].0@
}

/// Entry `i` of `v` renames to identifier number `i`.
pub open spec fn renamed_in_order(v: Seq<(String, String)>) -> bool {
    forall|i: int| 0 <= i < v.len() ==> (#[trigger] v[i]).1@ == ident_of(i as nat)
}

/// The position of the key `k` in `v`, if it has one.
pub open spec fn index_of_key(v: Seq<(String, String)>, k: Seq<char>) -> Option<int> {
    if exists|i: int| 0 <= i < v.len() && (#[trigger] v[i]).0@ == k {
        Some(choose|i: int| 0 <= i < v.len() && (#[trigger] v[i]).0@ == k)
    } else {
        None
    }
}

/// What `k` is renamed to by `v`, if it is a key.
pub open spec fn renamed_by(v: Seq<(String, String)>, k: Seq<char>) -> Option<Seq<char>> {
    match index_of_key(v, k) {
        Some(i) => Some(v[i].1@),
        None => None,
    }
}

proof fn lemma_index_of_key(v: Seq<(String, String)>, k: Seq<char>, i: int)
    requires
        keys_unique(v),
        0 <= i < v.len(),
        v[i].0@ == k,
    ensures
        index_of_key(v, k) == Some(i),
{
}

proof fn lemma_index_of_key_push(v: Seq<(String, String)>, p: (String, String), k: Seq<char>)
    requires
        keys_unique(v),
        index_of_key(v, p.0@) is None,
        index_of_key(v, k) is Some || k == p.0@,
    ensures
        renamed_by(v.push(p), k) == if k == p.0@ {
            Some(p.1@)
        } else {
            renamed_by(v, k)
        },
{
    let w = v.push(p);
    if k == p.0@ {
        assert(w[v.len() as int].0@ == k);
        let i = index_of_key(w, k)->Some_0;
        if i < v.len() {
            assert(v[i].0@ == k);
        }
    } else {
        let i = index_of_key(v, k)->Some_0;
        assert(w[i].0@ == k);
        let j = index_of_key(w, k)->Some_0;
        assert(j < v.len());
        assert(v[j].0@ == k);
        lemma_index_of_key(v, k, j);
    }
}

/// Finds the position of the key `k` in `v`.
fn find_key(v: &Vec<(String, String)>, k: &String) -> (r: Option<usize>)
    requires
        keys_unique(v@),
    ensures
        r == match index_of_key(v@, k@) {
            Some(i) => Some(i as usize),
            None => None::<usize>,
        },
        r is Some ==> r->Some_0 < v@.len(),
{
    let mut i: usize = 0;
    while i < v.len()
        invariant
            i <= v@.len(),
            keys_unique(v@),
            forall|j: int| 0 <= j < i ==> (#[trigger] v@[j]).0@ != k@,
        decreases v@.len() - i,
    {
        if v[i].0 == *k {
            proof {
                lemma_index_of_key(v@, k@, i as int);
            }
            return Some(i);
        }
        i = i + 1;
    }
    None
}

/// The renames of exported names, in the order they were first met.
pub struct ExportTable {
    pub entries: Vec<(String, String)>,
    pub idents: MinifiedIdent,
}

impl ExportTable {
    /// Names are unique; the i-th name met is renamed to identifier number i.
    pub open spec fn wf(&self) -> bool {
        &&& keys_unique(self.entries@)
        &&& renamed_in_order(self.entries@)
        &&& self.idents.n == self.entries@.len()
    }

    /// What `name` is renamed to, if it was met.
    pub open spec fn renamed(&self, name: Seq<char>) -> Option<Seq<char>> {
        renamed_by(self.entries@, name)
    }

    /// An empty table.
    pub fn new() -> (r: ExportTable)
        ensures
            r.wf(),
            r.entries@.len() == 0,
    {
        ExportTable { entries: Vec::new(), idents: MinifiedIdent::new() }
    }

    /// The rename of `name`: the one it already has, or else the next
    /// identifier, which is recorded. `None` once the identifiers ran out.
    pub fn rename(&mut self, name: &String) -> (r: Option<String>)
        requires
            old(self).wf(),
        ensures
            final(self).wf(),
            old(self).renamed(name@) is Some ==> r is Some && r->Some_0@ == old(self).renamed(
                name@,
            )->Some_0 && final(self).entries@ == old(self).entries@,
            old(self).renamed(name@) is None && old(self).entries@.len() < usize::MAX ==> r is Some
                && r->Some_0@ == ident_of(old(self).entries@.len() as nat) && final(self).entries@
                == old(self).entries@.push((*name, r->Some_0)),
            old(self).renamed(name@) is None && old(self).entries@.len() == usize::MAX ==> r is None
                && final(self).entries@ == old(self).entries@,
            r is Some ==> final(self).renamed(name@) == Some(r->Some_0@),
            forall|k: Seq<char>| #[trigger]
                old(self).renamed(k) is Some ==> final(self).renamed(k) == old(self).renamed(k),
    {
        match find_key(&self.entries, name) {
            Some(i) => {
                let r = self.entries[i].1.clone();
                Some(r)
            },
            None => {
                let n = self.entries.len();
                match self.idents.next() {
                    Some(s) => {
                        let ghost old_entries = self.entries@;
                        let p = (name.clone(), s.clone());
                        self.entries.push(p);
                        proof {
                            assert forall|i: int, j: int|
                                0 <= i < self.entries@.len() && 0 <= j < self.entries@.len() && i
                                    != j implies self.entries@[i].0@ != self.entries@[j].0@ by {
                                if i < n && j < n {
                                    assert(self.entries@[i] == old_entries[i]);
                                    assert(self.entries@[j] == old_entries[j]);
                                } else if i < n {
                                    assert(self.entries@[i] == old_entries[i]);
                                } else {
                                    assert(self.entries@[j] == old_entries[j]);
                                }
                            }
                            assert forall|k: Seq<char>| #[trigger]
                                renamed_by(old_entries, k) is Some implies renamed_by(
                                self.entries@,
                                k,
                            ) == renamed_by(old_entries, k) by {
                                lemma_index_of_key_push(old_entries, p, k);
                            }
                            lemma_index_of_key_push(old_entries, p, name@);
                        }
                        Some(s)
                    },
                    None => None,
                }
            },
        }
    }
}

/// One renamed import member.
pub struct Member {
    pub module: String,
    pub name: String,
    pub renamed: String,
}

/// The renames of imports: module names, and member names within them.
/// Member renames are drawn from one stream for all modules.
pub struct ImportTable {
    pub modules: Vec<(String, String)>,
    pub members: Vec<Member>,
    pub module_idents: MinifiedIdent,
    pub member_idents: MinifiedIdent,
}

/// The position of member `(m, n)` in `v`, if it is there.
pub open spec fn index_of_member(v: Seq<Member>, m: Seq<char>, n: Seq<char>) -> Option<int> {
    if exists|i: int| 0 <= i < v.len() && (#[trigger] v[i]).module@ == m && v[i].name@ == n {
        Some(choose|i: int| 0 <= i < v.len() && (#[trigger] v[i]).module@ == m && v[i].name@ == n)
    } else {
        None
    }
}

impl ImportTable {
    /// Module names are unique, and member names within a module; the i-th
    /// module met is renamed to identifier number i, and the i-th member met
    /// (over all modules) likewise; each member's module has a rename.
    pub open spec fn wf(&self) -> bool {
        &&& keys_unique(self.modules@)
        &&& renamed_in_order(self.modules@)
        &&& self.module_idents.n == self.modules@.len()
        &&& forall|i: int, j: int|
            0 <= i < self.members@.len() && 0 <= j < self.members@.len() && i != j
                ==> !(self.members@[i].module@ == self.members@[j].module@
                && self.members@[i].name@ == self.members@[j].name@)
        &&& forall|i: int|
            0 <= i < self.members@.len() ==> (#[trigger] self.members@[i]).renamed@ == ident_of(
                i as nat,
            )
        &&& forall|i: int|
            0 <= i < self.members@.len() ==> index_of_key(
                self.modules@,
                (#[trigger] self.members@[i]).module@,
            ) is Some
        &&& self.member_idents.n == self.members@.len()
    }

    /// What module `m` is renamed to, if it was met.
    pub open spec fn module_renamed(&self, m: Seq<char>) -> Option<Seq<char>> {
        renamed_by(self.modules@, m)
    }

    /// What member `n` of module `m` is renamed to, if it was met.
    pub open spec fn member_renamed(&self, m: Seq<char>, n: Seq<char>) -> Option<Seq<char>> {
        match index_of_member(self.members@, m, n) {
            Some(i) => Some(self.members@[i].renamed@),
            None => None,
        }
    }

    /// An empty table.
    pub fn new() -> (r: ImportTable)
        ensures
            r.wf(),
            r.modules@.len() == 0,
            r.members@.len() == 0,
    {
        ImportTable {
            modules: Vec::new(),
            members: Vec::new(),
            module_idents: MinifiedIdent::new(),
            member_idents: MinifiedIdent::new(),
        }
    }
}


proof fn lemma_index_of_member_push(v: Seq<Member>, p: Member, m: Seq<char>, n: Seq<char>)
    requires
        forall|i: int, j: int|
            0 <= i < v.len() && 0 <= j < v.len() && i != j ==> !(v[i].module@ == v[j].module@
                && v[i].name@ == v[j].name@),
        index_of_member(v, p.module@, p.name@) is None,
    ensures
        index_of_member(v.push(p), m, n) == if m == p.module@ && n == p.name@ {
            Some(v.len() as int)
        } else {
            index_of_member(v, m, n)
        },
{
    let w = v.push(p);
    if m == p.module@ && n == p.name@ {
        assert(w[v.len() as int].module@ == m && w[v.len() as int].name@ == n);
        let i = index_of_member(w, m, n)->Some_0;
        if i < v.len() {
            assert(v[i].module@ == m && v[i].name@ == n);
        }
    } else if index_of_member(v, m, n) is Some {
        let i = index_of_member(v, m, n)->Some_0;
        assert(w[i] == v[i]);
        let j = index_of_member(w, m, n)->Some_0;
        assert(j < v.len());
        assert(w[j] == v[j]);
    } else {
        if index_of_member(w, m, n) is Some {
            let j = index_of_member(w, m, n)->Some_0;
            assert(w[j] == v[j]);
        }
    }
}

/// Finds the position of member `(m, n)` in `v`.
fn find_member(v: &Vec<Member>, m: &String, n: &String) -> (r: Option<usize>)
    requires
        forall|i: int, j: int|
            0 <= i < v@.len() && 0 <= j < v@.len() && i != j ==> !(v@[i].module@ == v@[j].module@
                && v@[i].name@ == v@[j].name@),
    ensures
        r == match index_of_member(v@, m@, n@) {
            Some(i) => Some(i as usize),
            None => None::<usize>,
        },
        r is Some ==> r->Some_0 < v@.len(),
{
    let mut i: usize = 0;
    while i < v.len()
        invariant
            i <= v@.len(),
            forall|a: int, b: int|
                0 <= a < v@.len() && 0 <= b < v@.len() && a != b ==> !(v@[a].module@
                    == v@[b].module@ && v@[a].name@ == v@[b].name@),
            forall|j: int|
                0 <= j < i ==> !((#[trigger] v@[j]).module@ == m@ && v@[j].name@ == n@),
        decreases v@.len() - i,
    {
        if v[i].module == *m && v[i].name == *n {
            assert(index_of_member(v@, m@, n@) == Some(i as int)) by {
                let j = index_of_member(v@, m@, n@)->Some_0;
                assert(v@[i as int].module@ == m@ && v@[i as int].name@ == n@);
            }
            return Some(i);
        }
        i = i + 1;
    }
    None
}

impl ImportTable {
    /// Renames for what it holds are kept in `self`.
    pub open spec fn extends(&self, earlier: &ImportTable) -> bool {
        &&& forall|k: Seq<char>| #[trigger]
            earlier.module_renamed(k) is Some ==> self.module_renamed(k)
                == earlier.module_renamed(k)
        &&& forall|m: Seq<char>, n: Seq<char>| #[trigger]
            earlier.member_renamed(m, n) is Some ==> self.member_renamed(m, n)
                == earlier.member_renamed(m, n)
    }

    /// Renames the import `(module, name)`: the module keeps the rename it
    /// has or takes the next module identifier; the member keeps its rename
    /// or takes the next member identifier. `None` once a needed stream of
    /// identifiers ran out.
    pub fn rename(&mut self, module: &String, name: &String) -> (r: Option<(String, String)>)
        requires
            old(self).wf(),
        ensures
            final(self).wf(),
            final(self).extends(old(self)),
            final(self).modules@.len() <= old(self).modules@.len() + 1,
            final(self).members@.len() <= old(self).members@.len() + 1,
            r is Some ==> final(self).module_renamed(module@) == Some(r->Some_0.0@)
                && final(self).member_renamed(module@, name@) == Some(r->Some_0.1@),
            old(self).member_renamed(module@, name@) is Some ==> r is Some && final(self).modules@
                == old(self).modules@ && final(self).members@ == old(self).members@,
            old(self).module_renamed(module@) is None && old(self).modules@.len() < usize::MAX
                ==> final(self).module_renamed(module@) == Some(
                ident_of(old(self).modules@.len() as nat),
            ),
            old(self).module_renamed(module@) is Some ==> final(self).modules@ == old(self).modules@,
            old(self).module_renamed(module@) is None && old(self).modules@.len() < usize::MAX
                ==> keys_of(final(self).modules@) == keys_of(old(self).modules@).push(module@),
            r is Some && old(self).member_renamed(module@, name@) is None ==> member_keys(
                final(self).members@,
            ) == member_keys(old(self).members@).push((module@, name@)),
            old(self).member_renamed(module@, name@) is None && r is Some ==> r->Some_0.1@
                == ident_of(old(self).members@.len() as nat),
            r is None <==> (old(self).module_renamed(module@) is None && old(self).modules@.len()
                == usize::MAX) || (old(self).member_renamed(module@, name@) is None
                && old(self).members@.len() == usize::MAX),
    {
        let ghost old_table = *self;
        let mi = match find_key(&self.modules, module) {
            Some(i) => i,
            None => {
                let n = self.modules.len();
                match self.module_idents.next() {
                    Some(s) => {
                        let ghost old_modules = self.modules@;
                        let p = (module.clone(), s);
                        self.modules.push(p);
                        proof {
                            assert forall|i: int, j: int|
                                0 <= i < self.modules@.len() && 0 <= j < self.modules@.len() && i
                                    != j implies self.modules@[i].0@ != self.modules@[j].0@ by {
                                if i < n {
                                    assert(self.modules@[i] == old_modules[i]);
                                }
                                if j < n {
                                    assert(self.modules@[j] == old_modules[j]);
                                }
                            }
                            assert forall|k: Seq<char>| #[trigger]
                                renamed_by(old_modules, k) is Some implies renamed_by(
                                self.modules@,
                                k,
                            ) == renamed_by(old_modules, k) by {
                                lemma_index_of_key_push(old_modules, p, k);
                            }
                            lemma_index_of_key_push(old_modules, p, module@);
                            assert forall|i: int| 0 <= i < self.members@.len() implies index_of_key(
                                self.modules@,
                                (#[trigger] self.members@[i]).module@,
                            ) is Some by {
                                lemma_index_of_key_push(old_modules, p, self.members@[i].module@);
                            }
                            assert(self.modules@[n as int].0@ == module@);
                            lemma_index_of_key(self.modules@, module@, n as int);
                            assert(keys_of(self.modules@) =~= keys_of(old_modules).push(module@));
                        }
                        n
                    },
                    None => {
                        return None;
                    },
                }
            },
        };
        assert(index_of_key(self.modules@, module@) == Some(mi as int));
        let module_after = self.modules[mi].1.clone();
        match find_member(&self.members, module, name) {
            Some(j) => {
                let name_after = self.members[j].renamed.clone();
                Some((module_after, name_after))
            },
            None => {
                let n = self.members.len();
                match self.member_idents.next() {
                    Some(s) => {
                        let ghost old_members = self.members@;
                        let p = Member { module: module.clone(), name: name.clone(), renamed: s.clone() };
                        self.members.push(p);
                        proof {
                            assert forall|i: int, j: int|
                                0 <= i < self.members@.len() && 0 <= j < self.members@.len() && i
                                    != j implies !(self.members@[i].module@
                                == self.members@[j].module@ && self.members@[i].name@
                                == self.members@[j].name@) by {
                                if i < n {
                                    assert(self.members@[i] == old_members[i]);
                                }
                                if j < n {
                                    assert(self.members@[j] == old_members[j]);
                                }
                                if i == n && j < n {
                                    assert(old_members[j].module@ == module@ ==> old_members[j].name@ != name@);
                                }
                                if j == n && i < n {
                                    assert(old_members[i].module@ == module@ ==> old_members[i].name@ != name@);
                                }
                            }
                            assert forall|m: Seq<char>, k: Seq<char>| #[trigger]
                                old_table.member_renamed(m, k) is Some implies self.member_renamed(
                                m,
                                k,
                            ) == old_table.member_renamed(m, k) by {
                                lemma_index_of_member_push(old_members, p, m, k);
                                if index_of_member(old_members, m, k) != index_of_member(old_table.members@, m, k) {
                                    assert(false);
                                }
                            }
                            lemma_index_of_member_push(old_members, p, module@, name@);
                            assert(member_keys(self.members@) =~= member_keys(old_members).push((module@, name@)));
                            assert forall|i: int| 0 <= i < self.members@.len() implies (
                            #[trigger] self.members@[i]).renamed@ == ident_of(i as nat) by {
                                if i < n {
                                    assert(self.members@[i] == old_members[i]);
                                }
                            }
                            assert forall|i: int| 0 <= i < self.members@.len() implies index_of_key(
                                self.modules@,
                                (#[trigger] self.members@[i]).module@,
                            ) is Some by {
                                if i < n {
                                    assert(self.members@[i] == old_members[i]);
                                }
                            }
                        }
                        Some((module_after, s))
                    },
                    None => None,
                }
            },
        }
    }
}


/// Within one module's tables, renaming imports is a function of the
/// original `(module, member)` pair, and distinct pairs never share a
/// renamed pair: the member part alone already differs.
pub proof fn lemma_import_renaming_injective(
    t: ImportTable,
    m1: Seq<char>,
    n1: Seq<char>,
    m2: Seq<char>,
    n2: Seq<char>,
)
    requires
        t.wf(),
        t.member_renamed(m1, n1) is Some,
        t.member_renamed(m2, n2) is Some,
        m1 != m2 || n1 != n2,
    ensures
        t.module_renamed(m1) is Some,
        t.module_renamed(m2) is Some,
        t.member_renamed(m1, n1) != t.member_renamed(m2, n2),
        m1 != m2 ==> t.module_renamed(m1) != t.module_renamed(m2),
{
    let i = index_of_member(t.members@, m1, n1)->Some_0;
    let j = index_of_member(t.members@, m2, n2)->Some_0;
    assert(t.members@[i].module@ == m1);
    assert(t.members@[j].module@ == m2);
    assert(i != j);
    lemma_ident_injective(i as nat, j as nat);
    if m1 != m2 {
        let a = index_of_key(t.modules@, m1)->Some_0;
        let b = index_of_key(t.modules@, m2)->Some_0;
        assert(t.modules@[a].0@ == m1);
        assert(t.modules@[b].0@ == m2);
        assert(t.modules@[a].1@ == ident_of(a as nat));
        assert(t.modules@[b].1@ == ident_of(b as nat));
        lemma_ident_injective(a as nat, b as nat);
    }
}

/// Distinct exported names are renamed to distinct identifiers.
pub proof fn lemma_export_renaming_injective(t: ExportTable, a: Seq<char>, b: Seq<char>)
    requires
        t.wf(),
        t.renamed(a) is Some,
        t.renamed(b) is Some,
        a != b,
    ensures
        t.renamed(a) != t.renamed(b),
{
    let i = index_of_key(t.entries@, a)->Some_0;
    let j = index_of_key(t.entries@, b)->Some_0;
    assert(t.entries@[i].0@ == a);
    assert(t.entries@[j].0@ == b);
    assert(t.entries@[i].1@ == ident_of(i as nat));
    assert(t.entries@[j].1@ == ident_of(j as nat));
    lemma_ident_injective(i as nat, j as nat);
}


/// The distinct elements of `k`, in the order of their first occurrence.
pub open spec fn first_seen<T>(k: Seq<T>) -> Seq<T>
    decreases k.len(),
{
    if k.len() == 0 {
        Seq::empty()
    } else {
        let d = first_seen(k.drop_last());
        if d.contains(k.last()) {
            d
        } else {
            d.push(k.last())
        }
    }
}

proof fn lemma_push_contains<T>(s: Seq<T>, v: T, x: T)
    ensures
        s.push(v).contains(x) <==> (s.contains(x) || x == v),
{
    if s.contains(x) {
        let i = choose|i: int| 0 <= i < s.len() && s[i] == x;
        assert(s.push(v)[i] == x);
    }
    if x == v {
        assert(s.push(v)[s.len() as int] == x);
    }
    if s.push(v).contains(x) {
        let i = choose|i: int| 0 <= i < s.push(v).len() && s.push(v)[i] == x;
        if i < s.len() {
            assert(s[i] == x);
        }
    }
}

/// What occurs in `first_seen(k)` is what occurs in `k`, once each.
pub proof fn lemma_first_seen_contains<T>(k: Seq<T>)
    ensures
        forall|x: T| first_seen(k).contains(x) <==> k.contains(x),
        first_seen(k).no_duplicates(),
    decreases k.len(),
{
    if k.len() > 0 {
        let p = k.drop_last();
        let last = k.last();
        let d = first_seen(p);
        lemma_first_seen_contains(p);
        assert(k =~= p.push(last));
        assert forall|x: T| first_seen(k).contains(x) <==> k.contains(x) by {
            lemma_push_contains(p, last, x);
            lemma_push_contains(d, last, x);
        }
        if !d.contains(last) {
            assert forall|i: int, j: int|
                0 <= i < d.push(last).len() && 0 <= j < d.push(last).len() && i != j implies d.push(last)[i]
                != d.push(last)[j] by {
                if i == d.len() {
                    assert(d[j] == d.push(last)[j]);
                } else if j == d.len() {
                    assert(d[i] == d.push(last)[i]);
                }
            }
        }
    }
}

/// Numbering the distinct elements of `k` by first occurrence commutes
/// with a map that is one to one on them.
pub proof fn lemma_first_seen_map<T, U>(k: Seq<T>, f: spec_fn(T) -> U)
    requires
        forall|x: T, y: T| k.contains(x) && k.contains(y) && x != y ==> f(x) != f(y),
    ensures
        first_seen(k.map_values(f)) == first_seen(k).map_values(f),
    decreases k.len(),
{
    if k.len() > 0 {
        let p = k.drop_last();
        let last = k.last();
        assert(k =~= p.push(last));
        assert forall|x: T, y: T| p.contains(x) && p.contains(y) && x != y implies f(x) != f(y) by {
            lemma_push_contains(p, last, x);
            lemma_push_contains(p, last, y);
        }
        lemma_first_seen_map(p, f);
        assert(k.map_values(f).drop_last() =~= p.map_values(f));
        assert(k.map_values(f).last() == f(last));
        lemma_first_seen_contains(p);
        let d = first_seen(p);
        if d.contains(last) {
            let i = choose|i: int| 0 <= i < d.len() && d[i] == last;
            assert(d.map_values(f)[i] == f(last));
            assert(d.map_values(f).contains(f(last)));
        } else {
            assert forall|i: int| 0 <= i < d.len() implies d.map_values(f)[i] != f(last) by {
                assert(d.contains(d[i]));
                assert(p.contains(d[i]));
                lemma_push_contains(p, last, d[i]);
                lemma_push_contains(p, last, last);
                assert(d[i] != last);
            }
            assert(!d.map_values(f).contains(f(last)));
            assert(d.push(last).map_values(f) =~= d.map_values(f).push(f(last)));
        }
    }
}

/// The position of `x` in `d`.
pub open spec fn position_in<T>(d: Seq<T>, x: T) -> int {
    choose|i: int| 0 <= i < d.len() && d[i] == x
}

/// A sequence of names that were already renamed, each to the identifier
/// numbered by its first occurrence, is renamed to itself by a second run:
/// its j-th distinct name is identifier number j.
pub proof fn lemma_rerun_renames_nothing<T>(k: Seq<T>, f: spec_fn(T) -> Seq<char>)
    requires
        forall|x: T|
            k.contains(x) ==> f(x) == ident_of(position_in(first_seen(k), x) as nat),
    ensures
        forall|j: int|
            0 <= j < first_seen(k.map_values(f)).len() ==> #[trigger] first_seen(k.map_values(f))[j]
                == ident_of(j as nat),
{
    lemma_first_seen_contains(k);
    let d = first_seen(k);
    assert forall|x: T| #[trigger] d.contains(x) implies 0 <= position_in(d, x) < d.len() && d[position_in(d, x)]
        == x by {}
    assert forall|x: T, y: T| k.contains(x) && k.contains(y) && x != y implies f(x) != f(y) by {
        assert(d.contains(x) && d.contains(y));
        let i = position_in(d, x);
        let j = position_in(d, y);
        assert(i != j);
        lemma_ident_injective(i as nat, j as nat);
    }
    lemma_first_seen_map(k, f);
    assert forall|j: int| 0 <= j < d.len() implies #[trigger] d.map_values(f)[j] == ident_of(j as nat) by {
        assert(d.contains(d[j]));
        assert(k.contains(d[j]));
        let i = position_in(d, d[j]);
        assert(d[i] == d[j]);
        assert(i == j);
    }
}


/// The keys of `v`, in order.
pub open spec fn keys_of(v: Seq<(String, String)>) -> Seq<Seq<char>> {
    v.map_values(|p: (String, String)| p.0@)
}

/// The `(module, member)` keys of `v`, in order.
pub open spec fn member_keys(v: Seq<Member>) -> Seq<(Seq<char>, Seq<char>)> {
    v.map_values(|m: Member| (m.module@, m.name@))
}

/// Taking one more element: it is added at the end, unless it was seen.
pub proof fn lemma_first_seen_push<T>(k: Seq<T>, x: T)
    ensures
        first_seen(k.push(x)) == if first_seen(k).contains(x) {
            first_seen(k)
        } else {
            first_seen(k).push(x)
        },
{
    assert(k.push(x).drop_last() =~= k);
}

/// A name has a rename exactly when it is a key.
pub proof fn lemma_renamed_iff_key(v: Seq<(String, String)>, key: Seq<char>)
    ensures
        (renamed_by(v, key) is Some) == keys_of(v).contains(key),
{
    if renamed_by(v, key) is Some {
        let i = index_of_key(v, key)->Some_0;
        assert(keys_of(v)[i] == key);
    }
    if keys_of(v).contains(key) {
        let i = choose|i: int| 0 <= i < keys_of(v).len() && keys_of(v)[i] == key;
        assert(v[i].0@ == key);
    }
}

/// A member has a rename exactly when its pair is a key.
pub proof fn lemma_member_iff_key(v: Seq<Member>, m: Seq<char>, n: Seq<char>)
    ensures
        (index_of_member(v, m, n) is Some) == member_keys(v).contains((m, n)),
{
    if index_of_member(v, m, n) is Some {
        let i = index_of_member(v, m, n)->Some_0;
        assert(member_keys(v)[i] == (m, n));
    }
    if member_keys(v).contains((m, n)) {
        let i = choose|i: int| 0 <= i < member_keys(v).len() && member_keys(v)[i] == (m, n);
        assert(v[i].module@ == m && v[i].name@ == n);
    }
}


/// In a table whose keys are the names `k` in first-seen order, each name
/// is renamed to the identifier numbered by its first occurrence.
pub proof fn lemma_renamed_by_position(v: Seq<(String, String)>, k: Seq<Seq<char>>)
    requires
        keys_unique(v),
        renamed_in_order(v),
        keys_of(v) == first_seen(k),
    ensures
        forall|x: Seq<char>|
            k.contains(x) ==> #[trigger] renamed_by(v, x) == Some(
                ident_of(position_in(first_seen(k), x) as nat),
            ),
{
    lemma_first_seen_contains(k);
    let d = first_seen(k);
    assert forall|x: Seq<char>| k.contains(x) implies #[trigger] renamed_by(v, x) == Some(
        ident_of(position_in(d, x) as nat),
    ) by {
        assert(d.contains(x));
        let i = position_in(d, x);
        assert(keys_of(v)[i] == x);
        assert(v[i].0@ == x);
        lemma_index_of_key(v, x, i);
    }
}

/// In a member list whose keys are the pairs `k` in first-seen order, each
/// pair's member is renamed to the identifier numbered by its first
/// occurrence.
pub proof fn lemma_member_by_position(t: ImportTable, k: Seq<(Seq<char>, Seq<char>)>)
    requires
        t.wf(),
        member_keys(t.members@) == first_seen(k),
    ensures
        forall|x: (Seq<char>, Seq<char>)|
            k.contains(x) ==> #[trigger] t.member_renamed(x.0, x.1) == Some(
                ident_of(position_in(first_seen(k), x) as nat),
            ),
{
    lemma_first_seen_contains(k);
    let d = first_seen(k);
    assert forall|x: (Seq<char>, Seq<char>)| k.contains(x) implies #[trigger] t.member_renamed(x.0, x.1)
        == Some(ident_of(position_in(d, x) as nat)) by {
        assert(d.contains(x));
        let i = position_in(d, x);
        assert(member_keys(t.members@)[i] == x);
        assert(t.members@[i].module@ == x.0 && t.members@[i].name@ == x.1);
        let j = index_of_member(t.members@, x.0, x.1)->Some_0;
        assert(t.members@[j].module@ == x.0 && t.members@[j].name@ == x.1);
        assert(i == j);
    }
}

} // verus!
