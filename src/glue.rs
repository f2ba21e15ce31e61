//! Patching the JavaScript glue of a module so that it uses the renamed
//! imports and exports. The glue is expected in the shape that wasm-bindgen
//! writes: `imports.<module> = {};` to create a module object,
//! `imports.<module>.<member>` to fill it, and `wasm.<export>` to reach an
//! export.
use vstd::prelude::*;

use crate::ident::{ident_of, lemma_ident_injective};
use crate::tables::{
    first_seen, keys_of, lemma_first_seen_contains, lemma_first_seen_map, lemma_member_by_position,
    lemma_renamed_by_position, lemma_rerun_renames_nothing, member_keys, position_in, ExportTable,
    ImportTable, Member,
};
use crate::text::{lemma_replace_same, replace, replace_all};

verus! {

/// The line that creates the import object of module `m`.
pub open spec fn module_line(m: Seq<char>) -> Seq<char> {
    "imports."@ + m + " = {};"@
}

/// The reference to member `n` of module `m`.
pub open spec fn member_ref(m: Seq<char>, n: Seq<char>) -> Seq<char> {
    "imports."@ + m + "."@ + n
}

/// The reference to export `e`.
pub open spec fn export_ref(e: Seq<char>) -> Seq<char> {
    "wasm."@ + e
}

/// `js` with the references to the members of module `before` that
/// `members` lists renamed, in the order of the list.
pub open spec fn patch_members(
    js: Seq<char>,
    before: Seq<char>,
    after: Seq<char>,
    members: Seq<Member>,
) -> Seq<char>
    decreases members.len(),
{
    if members.len() == 0 {
        js
    } else {
        let m = members[0];
        let next = if m.module@ == before {
            replace_all(js, member_ref(before, m.name@), member_ref(after, m.renamed@))
        } else {
            js
        };
        patch_members(next, before, after, members.drop_first())
    }
}

/// `js` with each module of `modules` renamed in turn: first its creating
/// line, then the references to its members.
pub open spec fn patch_modules(
    js: Seq<char>,
    modules: Seq<(String, String)>,
    members: Seq<Member>,
) -> Seq<char>
    decreases modules.len(),
{
    if modules.len() == 0 {
        js
    } else {
        let before = modules[0].0@;
        let after = modules[0].1@;
        let next = patch_members(
            replace_all(js, module_line(before), module_line(after)),
            before,
            after,
            members,
        );
        patch_modules(next, modules.drop_first(), members)
    }
}

/// `js` with the references to each export of `entries` renamed in turn.
pub open spec fn patch_exports(js: Seq<char>, entries: Seq<(String, String)>) -> Seq<char>
    decreases entries.len(),
{
    if entries.len() == 0 {
        js
    } else {
        patch_exports(
            replace_all(js, export_ref(entries[0].0@), export_ref(entries[0].1@)),
            entries.drop_first(),
        )
    }
}

/// The glue `js` patched after the tables: imports first, then exports.
pub open spec fn patched_js(js: Seq<char>, it: ImportTable, et: ExportTable) -> Seq<char> {
    patch_exports(patch_modules(js, it.modules@, it.members@), et.entries@)
}

/// "imports." followed by `m`.
fn imports_prefix(m: &String) -> (r: String)
    ensures
        r@ == "imports."@ + m@,
{
    let mut r = "imports.".to_owned();
    r.append(m.as_str());
    r
}

/// The line that creates the import object of module `m`.
fn module_line_of(m: &String) -> (r: String)
    ensures
        r@ == module_line(m@),
{
    let mut r = imports_prefix(m);
    r.append(" = {};");
    r
}

/// The reference to member `n` of module `m`.
fn member_ref_of(m: &String, n: &String) -> (r: String)
    ensures
        r@ == member_ref(m@, n@),
{
    let mut r = imports_prefix(m);
    r.append(".");
    r.append(n.as_str());
    r
}

/// The reference to export `e`.
fn export_ref_of(e: &String) -> (r: String)
    ensures
        r@ == export_ref(e@),
{
    let mut r = "wasm.".to_owned();
    r.append(e.as_str());
    r
}

/// Renames the references to the members of module `before`.
fn patch_members_of(js: String, before: &String, after: &String, members: &Vec<Member>) -> (r: String)
    ensures
        r@ == patch_members(js@, before@, after@, members@),
{
    let ghost start = js@;
    let mut js = js;
    let mut i: usize = 0;
    assert(members@.subrange(0, members@.len() as int) =~= members@);
    while i < members.len()
        invariant
            i <= members@.len(),
            patch_members(js@, before@, after@, members@.subrange(i as int, members@.len() as int))
                == patch_members(start, before@, after@, members@),
        decreases members@.len() - i,
    {
        proof {
            let rest = members@.subrange(i as int, members@.len() as int);
            assert(rest[0] == members@[i as int]);
            assert(rest.drop_first() =~= members@.subrange(i + 1, members@.len() as int));
        }
        let m = &members[i];
        if m.module == *before {
            js = replace(js.as_str(), member_ref_of(before, &m.name).as_str(), member_ref_of(after, &m.renamed).as_str());
        }
        i = i + 1;
    }
    js
}


/// Renames each module of `it` in turn, with the references to its members.
fn patch_modules_of(js: String, it: &ImportTable) -> (r: String)
    ensures
        r@ == patch_modules(js@, it.modules@, it.members@),
{
    let ghost start = js@;
    let mut js = js;
    let mut i: usize = 0;
    assert(it.modules@.subrange(0, it.modules@.len() as int) =~= it.modules@);
    while i < it.modules.len()
        invariant
            i <= it.modules@.len(),
            patch_modules(js@, it.modules@.subrange(i as int, it.modules@.len() as int), it.members@)
                == patch_modules(start, it.modules@, it.members@),
        decreases it.modules@.len() - i,
    {
        proof {
            let rest = it.modules@.subrange(i as int, it.modules@.len() as int);
            assert(rest[0] == it.modules@[i as int]);
            assert(rest.drop_first() =~= it.modules@.subrange(i + 1, it.modules@.len() as int));
        }
        let before = &it.modules[i].0;
        let after = &it.modules[i].1;
        let lines = replace(js.as_str(), module_line_of(before).as_str(), module_line_of(after).as_str());
        js = patch_members_of(lines, before, after, &it.members);
        i = i + 1;
    }
    js
}

/// Renames the references to each export of `et` in turn.
fn patch_exports_of(js: String, et: &ExportTable) -> (r: String)
    ensures
        r@ == patch_exports(js@, et.entries@),
{
    let ghost start = js@;
    let mut js = js;
    let mut i: usize = 0;
    assert(et.entries@.subrange(0, et.entries@.len() as int) =~= et.entries@);
    while i < et.entries.len()
        invariant
            i <= et.entries@.len(),
            patch_exports(js@, et.entries@.subrange(i as int, et.entries@.len() as int))
                == patch_exports(start, et.entries@),
        decreases et.entries@.len() - i,
    {
        proof {
            let rest = et.entries@.subrange(i as int, et.entries@.len() as int);
            assert(rest[0] == et.entries@[i as int]);
            assert(rest.drop_first() =~= et.entries@.subrange(i + 1, et.entries@.len() as int));
        }
        let before = &et.entries[i].0;
        let after = &et.entries[i].1;
        js = replace(js.as_str(), export_ref_of(before).as_str(), export_ref_of(after).as_str());
        i = i + 1;
    }
    js
}

/// The glue `js` patched after the rename tables of its module: each
/// module's creating line and then its members' references, module by
/// module in the order they were met, then each export's references.
pub fn patch_js(js: &str, it: &ImportTable, et: &ExportTable) -> (r: String)
    ensures
        r@ == patched_js(js@, *it, *et),
{
    let imports = patch_modules_of(js.to_owned(), it);
    patch_exports_of(imports, et)
}


/// Tables that rename every name to itself: what a second run finds on a
/// module whose names a first run already shortened.
pub open spec fn renames_nothing(it: ImportTable, et: ExportTable) -> bool {
    &&& forall|i: int| 0 <= i < it.modules@.len() ==> (#[trigger] it.modules@[i]).0@ == it.modules@[i].1@
    &&& forall|i: int| 0 <= i < it.members@.len() ==> (#[trigger] it.members@[i]).name@ == it.members@[i].renamed@
    &&& forall|i: int| 0 <= i < et.entries@.len() ==> (#[trigger] et.entries@[i]).0@ == et.entries@[i].1@
}

proof fn lemma_patch_members_same(js: Seq<char>, m: Seq<char>, members: Seq<Member>)
    requires
        forall|i: int| 0 <= i < members.len() ==> (#[trigger] members[i]).name@ == members[i].renamed@,
    ensures
        patch_members(js, m, m, members) == js,
    decreases members.len(),
{
    if members.len() > 0 {
        lemma_replace_same(js, member_ref(m, members[0].name@));
        assert forall|i: int| 0 <= i < members.drop_first().len() implies (#[trigger] members.drop_first()[i]).name@
            == members.drop_first()[i].renamed@ by {
            assert(members.drop_first()[i] == members[i + 1]);
        }
        lemma_patch_members_same(js, m, members.drop_first());
    }
}

proof fn lemma_patch_modules_same(js: Seq<char>, modules: Seq<(String, String)>, members: Seq<Member>)
    requires
        forall|i: int| 0 <= i < modules.len() ==> (#[trigger] modules[i]).0@ == modules[i].1@,
        forall|i: int| 0 <= i < members.len() ==> (#[trigger] members[i]).name@ == members[i].renamed@,
    ensures
        patch_modules(js, modules, members) == js,
    decreases modules.len(),
{
    if modules.len() > 0 {
        let m = modules[0].0@;
        lemma_replace_same(js, module_line(m));
        lemma_patch_members_same(js, m, members);
        assert forall|i: int| 0 <= i < modules.drop_first().len() implies (#[trigger] modules.drop_first()[i]).0@
            == modules.drop_first()[i].1@ by {
            assert(modules.drop_first()[i] == modules[i + 1]);
        }
        lemma_patch_modules_same(js, modules.drop_first(), members);
    }
}

proof fn lemma_patch_exports_same(js: Seq<char>, entries: Seq<(String, String)>)
    requires
        forall|i: int| 0 <= i < entries.len() ==> (#[trigger] entries[i]).0@ == entries[i].1@,
    ensures
        patch_exports(js, entries) == js,
    decreases entries.len(),
{
    if entries.len() > 0 {
        lemma_replace_same(js, export_ref(entries[0].0@));
        assert forall|i: int| 0 <= i < entries.drop_first().len() implies (#[trigger] entries.drop_first()[i]).0@
            == entries.drop_first()[i].1@ by {
            assert(entries.drop_first()[i] == entries[i + 1]);
        }
        lemma_patch_exports_same(js, entries.drop_first());
    }
}

/// Patching the glue after tables that rename every name to itself leaves
/// the glue as it is.
pub proof fn lemma_patch_identity(js: Seq<char>, it: ImportTable, et: ExportTable)
    requires
        renames_nothing(it, et),
    ensures
        patched_js(js, it, et) == js,
{
    lemma_patch_modules_same(js, it.modules@, it.members@);
    lemma_patch_exports_same(js, et.entries@);
}


/// The import module names `km` as a run with table `t` writes them.
pub open spec fn modules_after(t: ImportTable, km: Seq<Seq<char>>) -> Seq<Seq<char>> {
    km.map_values(|m: Seq<char>| t.module_renamed(m)->Some_0)
}

/// The import `(module, member)` names `kp` as a run with table `t` writes
/// them.
pub open spec fn pairs_after(t: ImportTable, kp: Seq<(Seq<char>, Seq<char>)>) -> Seq<
    (Seq<char>, Seq<char>),
> {
    kp.map_values(
        |p: (Seq<char>, Seq<char>)| (t.module_renamed(p.0)->Some_0, t.member_renamed(p.0, p.1)->Some_0),
    )
}

/// The export names `ke` as a run with table `e` writes them.
pub open spec fn exports_after(e: ExportTable, ke: Seq<Seq<char>>) -> Seq<Seq<char>> {
    ke.map_values(|x: Seq<char>| e.renamed(x)->Some_0)
}

/// A second run of the rewrite on the names that a first run wrote renames
/// nothing, and so leaves the glue as it is. The first run's tables `t1`,
/// `e1` hold the names `km`, `kp`, `ke` in first-seen order (as
/// `rewrite_module` ensures); the second run's tables `t2`, `e2` hold those
/// names as the first run wrote them, in first-seen order.
pub proof fn lemma_second_run_keeps_glue(
    t1: ImportTable,
    e1: ExportTable,
    km: Seq<Seq<char>>,
    kp: Seq<(Seq<char>, Seq<char>)>,
    ke: Seq<Seq<char>>,
    t2: ImportTable,
    e2: ExportTable,
    js: Seq<char>,
)
    requires
        t1.wf(),
        e1.wf(),
        keys_of(t1.modules@) == first_seen(km),
        member_keys(t1.members@) == first_seen(kp),
        keys_of(e1.entries@) == first_seen(ke),
        t2.wf(),
        e2.wf(),
        keys_of(t2.modules@) == first_seen(modules_after(t1, km)),
        member_keys(t2.members@) == first_seen(pairs_after(t1, kp)),
        keys_of(e2.entries@) == first_seen(exports_after(e1, ke)),
    ensures
        renames_nothing(t2, e2),
        patched_js(js, t2, e2) == js,
{
    // Modules.
    let fm = |m: Seq<char>| t1.module_renamed(m)->Some_0;
    lemma_renamed_by_position(t1.modules@, km);
    assert forall|x: Seq<char>| km.contains(x) implies fm(x) == ident_of(
        position_in(first_seen(km), x) as nat,
    ) by {
        assert(t1.module_renamed(x) == crate::tables::renamed_by(t1.modules@, x));
    }
    lemma_rerun_renames_nothing(km, fm);
    assert(km.map_values(fm) =~= modules_after(t1, km));
    assert forall|i: int| 0 <= i < t2.modules@.len() implies (#[trigger] t2.modules@[i]).0@
        == t2.modules@[i].1@ by {
        assert(keys_of(t2.modules@)[i] == t2.modules@[i].0@);
    }
    // Exports.
    let fe = |x: Seq<char>| e1.renamed(x)->Some_0;
    lemma_renamed_by_position(e1.entries@, ke);
    lemma_rerun_renames_nothing(ke, fe);
    assert(ke.map_values(fe) =~= exports_after(e1, ke));
    assert forall|i: int| 0 <= i < e2.entries@.len() implies (#[trigger] e2.entries@[i]).0@
        == e2.entries@[i].1@ by {
        assert(keys_of(e2.entries@)[i] == e2.entries@[i].0@);
    }
    // Members: the member part alone numbers them.
    let fp = |p: (Seq<char>, Seq<char>)| t1.member_renamed(p.0, p.1)->Some_0;
    let fq = |p: (Seq<char>, Seq<char>)| (t1.module_renamed(p.0)->Some_0, t1.member_renamed(p.0, p.1)->Some_0);
    lemma_member_by_position(t1, kp);
    lemma_rerun_renames_nothing(kp, fp);
    lemma_first_seen_contains(kp);
    let d = first_seen(kp);
    assert forall|x: (Seq<char>, Seq<char>), y: (Seq<char>, Seq<char>)|
        kp.contains(x) && kp.contains(y) && x != y implies fp(x) != fp(y) && fq(x) != fq(y) by {
        assert(d.contains(x) && d.contains(y));
        let i = position_in(d, x);
        let j = position_in(d, y);
        assert(d[i] == x && d[j] == y);
        lemma_ident_injective(i as nat, j as nat);
    }
    lemma_first_seen_map(kp, fp);
    lemma_first_seen_map(kp, fq);
    assert(kp.map_values(fq) =~= pairs_after(t1, kp));
    assert forall|i: int| 0 <= i < t2.members@.len() implies (#[trigger] t2.members@[i]).name@
        == t2.members@[i].renamed@ by {
        assert(member_keys(t2.members@)[i] == (t2.members@[i].module@, t2.members@[i].name@));
        assert(member_keys(t2.members@).len() == t2.members@.len());
        assert(first_seen(kp.map_values(fq)) == d.map_values(fq));
        assert(first_seen(kp.map_values(fp)) == d.map_values(fp));
        assert(i < d.len());
        assert(first_seen(kp.map_values(fq))[i] == fq(d[i]));
        assert(first_seen(kp.map_values(fp))[i] == fp(d[i]));
    }
    lemma_patch_identity(js, t2, e2);
}

} // verus!
