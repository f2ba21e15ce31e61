//! The symbol rewriter: renames every import and export of a module to a
//! short identifier and writes the module back section by section.
use vstd::prelude::*;

use crate::mapping::{
    copy_vec, data_maps, data_ok, element_maps, element_ok, global_maps,
    map_data, map_element, map_global, map_memory_type, map_table_type,
    map_type_ref, memory_type_image, table_type_image, type_ref_image,
};
use crate::glue::{patch_js, patched_js};
use crate::tables::{
    first_seen, keys_of, lemma_first_seen_push, lemma_member_iff_key, lemma_renamed_iff_key,
    member_keys, ExportTable, ImportTable,
};
use crate::wasm::{
    Data, Element, Export, Global, Import, MemoryType, OutData, OutExport, OutGlobal,
    OutImport, OutMemoryType, OutTableType, Payload, Section, TableType, Type,
};

verus! {

/// Why a module could not be rewritten.
#[derive(Clone, Copy, Debug, PartialEq, Eq, Structural)]
pub enum RewriteError {
    /// A constant expression without its final `end`.
    Parse,
    /// A section this rewriter does not handle.
    UnsupportedFeature,
    /// A code section restarted while open, an entry outside any code
    /// section, or a code section left unfinished.
    Integrity,
    /// More distinct names than a counter can number.
    IdentifiersExhausted,
}

/// `o` is the type entry `t`, copied.
pub open spec fn type_copied(t: Type, o: Type) -> bool {
    match (t, o) {
        (Type::Func { params: p, results: r }, Type::Func { params: q, results: s }) => q@ == p@
            && s@ == r@,
        (
            Type::Array { element_type: e, mutable: m },
            Type::Array { element_type: f, mutable: n },
        ) => e == f && m == n,
        _ => false,
    }
}

/// `o` holds the imports `v` in order, each with its type written back and
/// its names renamed by `t`.
pub open spec fn imports_rewritten(v: Seq<Import>, o: Seq<OutImport>, t: ImportTable) -> bool {
    &&& o.len() == v.len()
    &&& forall|i: int|
        0 <= i < v.len() ==> {
            &&& (#[trigger] o[i]).ty == type_ref_image(v[i].ty)
            &&& t.module_renamed(v[i].module@) == Some(o[i].module@)
            &&& t.member_renamed(v[i].module@, v[i].name@) == Some(o[i].name@)
        }
}

/// `o` holds the exports `v` in order, each renamed by `t`.
pub open spec fn exports_rewritten(v: Seq<Export>, o: Seq<OutExport>, t: ExportTable) -> bool {
    &&& o.len() == v.len()
    &&& forall|i: int|
        0 <= i < v.len() ==> {
            &&& (#[trigger] o[i]).kind == v[i].kind
            &&& o[i].index == v[i].index
            &&& t.renamed(v[i].name@) == Some(o[i].name@)
        }
}

/// The names of the exports `v`, in order.
pub open spec fn export_names(v: Seq<Export>) -> Seq<Seq<char>> {
    v.map_values(|e: Export| e.name@)
}

/// The module names of the imports `v`, in order.
pub open spec fn import_modules(v: Seq<Import>) -> Seq<Seq<char>> {
    v.map_values(|i: Import| i.module@)
}

/// The `(module, member)` names of the imports `v`, in order.
pub open spec fn import_pairs(v: Seq<Import>) -> Seq<(Seq<char>, Seq<char>)> {
    v.map_values(|i: Import| (i.module@, i.name@))
}

/// The import module names that the payload `p` holds, in order.
pub open spec fn payload_modules(p: Payload) -> Seq<Seq<char>> {
    match p {
        Payload::ImportSection(v) => import_modules(v@),
        _ => Seq::empty(),
    }
}

/// The import `(module, member)` names that the payload `p` holds.
pub open spec fn payload_pairs(p: Payload) -> Seq<(Seq<char>, Seq<char>)> {
    match p {
        Payload::ImportSection(v) => import_pairs(v@),
        _ => Seq::empty(),
    }
}

/// The export names that the payload `p` holds.
pub open spec fn payload_exports(p: Payload) -> Seq<Seq<char>> {
    match p {
        Payload::ExportSection(v) => export_names(v@),
        _ => Seq::empty(),
    }
}

/// The import module names of the module `ps`, in order.
pub open spec fn module_names(ps: Seq<Payload>) -> Seq<Seq<char>>
    decreases ps.len(),
{
    if ps.len() == 0 {
        Seq::empty()
    } else {
        module_names(ps.drop_last()) + payload_modules(ps.last())
    }
}

/// The import `(module, member)` names of the module `ps`, in order.
pub open spec fn pair_names(ps: Seq<Payload>) -> Seq<(Seq<char>, Seq<char>)>
    decreases ps.len(),
{
    if ps.len() == 0 {
        Seq::empty()
    } else {
        pair_names(ps.drop_last()) + payload_pairs(ps.last())
    }
}

/// The export names of the module `ps`, in order.
pub open spec fn exported_names(ps: Seq<Payload>) -> Seq<Seq<char>>
    decreases ps.len(),
{
    if ps.len() == 0 {
        Seq::empty()
    } else {
        exported_names(ps.drop_last()) + payload_exports(ps.last())
    }
}

/// `s` is the section that the payload `p` becomes, with names renamed by
/// `it` and `et`. Defined for the payloads that become a section of their own.
pub open spec fn section_of(p: Payload, s: Section, it: ImportTable, et: ExportTable) -> bool {
    match (p, s) {
        (Payload::TypeSection(v), Section::Type(o)) => o@.len() == v@.len() && forall|i: int|
            0 <= i < v@.len() ==> type_copied(#[trigger] v@[i], o@[i]),
        (Payload::ImportSection(v), Section::Import(o)) => imports_rewritten(v@, o@, it),
        (Payload::FunctionSection(v), Section::Function(o)) => o@ == v@,
        (Payload::TableSection(v), Section::Table(o)) => o@ == v@.map_values(
            |t: TableType| table_type_image(t),
        ),
        (Payload::MemorySection(v), Section::Memory(o)) => o@ == v@.map_values(
            |m: MemoryType| memory_type_image(m),
        ),
        (Payload::TagSection(v), Section::Tag(o)) => o@ == v@,
        (Payload::GlobalSection(v), Section::Global(o)) => o@.len() == v@.len() && forall|i: int|
            0 <= i < v@.len() ==> global_maps(#[trigger] v@[i], o@[i]),
        (Payload::ExportSection(v), Section::Export(o)) => exports_rewritten(v@, o@, et),
        (Payload::ElementSection(v), Section::Element(o)) => o@.len() == v@.len() && forall|
            i: int,
        |
            0 <= i < v@.len() ==> element_maps(#[trigger] v@[i], o@[i]),
        (Payload::DataSection(v), Section::Data(o)) => o@.len() == v@.len() && forall|i: int|
            0 <= i < v@.len() ==> data_maps(#[trigger] v@[i], o@[i]),
        (Payload::CustomSection { name, data }, Section::Custom { name: n, data: d }) => n@
            == name@ && d@ == data@,
        _ => false,
    }
}

/// The payload becomes a section of its own.
pub open spec fn is_plain_section(p: Payload) -> bool {
    match p {
        Payload::Version | Payload::End | Payload::Unsupported(_) => false,
        Payload::CodeSectionStart { .. } | Payload::CodeSectionEntry(_) => false,
        _ => true,
    }
}

/// Every constant expression of the payload keeps its final `end`.
pub open spec fn payload_well_formed(p: Payload) -> bool {
    match p {
        Payload::GlobalSection(v) => forall|i: int|
            0 <= i < v@.len() ==> (#[trigger] v@[i]).init_expr.bytes@.len() > 0,
        Payload::ElementSection(v) => forall|i: int| 0 <= i < v@.len() ==> element_ok(#[trigger] v@[i]),
        Payload::DataSection(v) => forall|i: int| 0 <= i < v@.len() ==> data_ok(#[trigger] v@[i]),
        _ => true,
    }
}

/// The state of a rewrite in progress.
pub struct Rewriter {
    pub imports: ImportTable,
    pub exports: ExportTable,
    /// How many code entries the open code section still expects.
    pub code_remaining: u32,
    /// The function bodies of the open code section, if one is open.
    pub code: Option<Vec<Vec<u8>>>,
    /// The sections written so far.
    pub sections: Vec<Section>,
}


/// Copies the entries of a type section.
fn copy_types(v: &Vec<Type>) -> (r: Vec<Type>)
    ensures
        r@.len() == v@.len(),
        forall|i: int| 0 <= i < v@.len() ==> type_copied(#[trigger] v@[i], r@[i]),
{
    let mut r: Vec<Type> = Vec::with_capacity(v.len());
    let mut i: usize = 0;
    while i < v.len()
        invariant
            i <= v@.len(),
            r@.len() == i,
            forall|j: int| 0 <= j < i ==> type_copied(#[trigger] v@[j], r@[j]),
        decreases v@.len() - i,
    {
        let t = match &v[i] {
            Type::Func { params, results } => Type::Func {
                params: copy_vec(params),
                results: copy_vec(results),
            },
            Type::Array { element_type, mutable } => Type::Array {
                element_type: *element_type,
                mutable: *mutable,
            },
        };
        r.push(t);
        i = i + 1;
    }
    r
}

/// Renames the imports `v` through `t` and writes back their types.
/// It fails only when a stream of identifiers runs out, which cannot happen
/// while the table and `v` together stay below the counter's range.
pub fn rewrite_imports(t: &mut ImportTable, v: &Vec<Import>) -> (r: Result<
    Vec<OutImport>,
    RewriteError,
>)
    requires
        old(t).wf(),
    ensures
        final(t).wf(),
        final(t).extends(old(t)),
        final(t).modules@.len() <= old(t).modules@.len() + v@.len(),
        final(t).members@.len() <= old(t).members@.len() + v@.len(),
        r is Ok ==> imports_rewritten(v@, r->Ok_0@, *final(t)),
        r is Ok ==> forall|k: Seq<Seq<char>>|
            keys_of(old(t).modules@) == #[trigger] first_seen(k) ==> keys_of(final(t).modules@)
                == first_seen(k + import_modules(v@)),
        r is Ok ==> forall|k: Seq<(Seq<char>, Seq<char>)>|
            member_keys(old(t).members@) == #[trigger] first_seen(k) ==> member_keys(final(t).members@)
                == first_seen(k + import_pairs(v@)),
        r is Err ==> r->Err_0 == RewriteError::IdentifiersExhausted,
        old(t).modules@.len() + v@.len() < usize::MAX && old(t).members@.len() + v@.len()
            < usize::MAX ==> r is Ok,
{
    let ghost t0 = *t;
    let mut out: Vec<OutImport> = Vec::with_capacity(v.len());
    let mut i: usize = 0;
    while i < v.len()
        invariant
            i <= v@.len(),
            t0 == *old(t),
            t.wf(),
            t.extends(&t0),
            t.modules@.len() <= t0.modules@.len() + i,
            t.members@.len() <= t0.members@.len() + i,
            imports_rewritten(v@.subrange(0, i as int), out@, *t),
            forall|k: Seq<Seq<char>>|
                keys_of(t0.modules@) == #[trigger] first_seen(k) ==> keys_of(t.modules@)
                    == first_seen(k + import_modules(v@.subrange(0, i as int))),
            forall|k: Seq<(Seq<char>, Seq<char>)>|
                member_keys(t0.members@) == #[trigger] first_seen(k) ==> member_keys(t.members@)
                    == first_seen(k + import_pairs(v@.subrange(0, i as int))),
        decreases v@.len() - i,
    {
        let import = &v[i];
        let ghost before = *t;
        let renamed = t.rename(&import.module, &import.name);
        proof {
            let m = import.module@;
            let n = import.name@;
            lemma_renamed_iff_key(before.modules@, m);
            lemma_member_iff_key(before.members@, m, n);
            assert forall|k: Seq<Seq<char>>|
                keys_of(t0.modules@) == #[trigger] first_seen(k) implies keys_of(t.modules@)
                    == first_seen(k + import_modules(v@.subrange(0, i + 1))) || renamed is None by {
                let ki = k + import_modules(v@.subrange(0, i as int));
                assert(k + import_modules(v@.subrange(0, i + 1)) =~= ki.push(m));
                lemma_first_seen_push(ki, m);
            }
            assert forall|k: Seq<(Seq<char>, Seq<char>)>|
                member_keys(t0.members@) == #[trigger] first_seen(k) implies member_keys(t.members@)
                    == first_seen(k + import_pairs(v@.subrange(0, i + 1))) || renamed is None by {
                let ki = k + import_pairs(v@.subrange(0, i as int));
                assert(k + import_pairs(v@.subrange(0, i + 1)) =~= ki.push((m, n)));
                lemma_first_seen_push(ki, (m, n));
            }
            assert forall|k: Seq<char>| #[trigger] t0.module_renamed(k) is Some implies t.module_renamed(k)
                == t0.module_renamed(k) by {
                assert(before.module_renamed(k) == t0.module_renamed(k));
            }
            assert forall|m: Seq<char>, n: Seq<char>| #[trigger] t0.member_renamed(m, n) is Some implies t.member_renamed(m, n)
                == t0.member_renamed(m, n) by {
                assert(before.member_renamed(m, n) == t0.member_renamed(m, n));
            }
        }
        match renamed {
            Some((module, name)) => {
                out.push(OutImport { module, name, ty: map_type_ref(import.ty) });
            },
            None => {
                return Err(RewriteError::IdentifiersExhausted);
            },
        }
        proof {
            assert forall|j: int| 0 <= j < i + 1 implies {
                &&& (#[trigger] out@[j]).ty == type_ref_image(v@.subrange(0, i + 1)[j].ty)
                &&& t.module_renamed(v@.subrange(0, i + 1)[j].module@) == Some(out@[j].module@)
                &&& t.member_renamed(v@.subrange(0, i + 1)[j].module@, v@.subrange(0, i + 1)[j].name@)
                    == Some(out@[j].name@)
            } by {
                if j < i {
                    assert(v@.subrange(0, i + 1)[j] == v@.subrange(0, i as int)[j]);
                    let m = v@[j].module@;
                    let n = v@[j].name@;
                    assert(before.module_renamed(m) is Some);
                    assert(before.member_renamed(m, n) is Some);
                }
            }
        }
        i = i + 1;
    }
    assert(v@.subrange(0, v@.len() as int) =~= v@);
    Ok(out)
}

/// Renames the exports `v` through `t`.
/// It fails only when the stream of identifiers runs out, which cannot
/// happen while the table and `v` together stay below the counter's range.
pub fn rewrite_exports(t: &mut ExportTable, v: &Vec<Export>) -> (r: Result<
    Vec<OutExport>,
    RewriteError,
>)
    requires
        old(t).wf(),
    ensures
        final(t).wf(),
        forall|k: Seq<char>| #[trigger]
            old(t).renamed(k) is Some ==> final(t).renamed(k) == old(t).renamed(k),
        final(t).entries@.len() <= old(t).entries@.len() + v@.len(),
        r is Ok ==> exports_rewritten(v@, r->Ok_0@, *final(t)),
        r is Ok ==> forall|k: Seq<Seq<char>>|
            keys_of(old(t).entries@) == #[trigger] first_seen(k) ==> keys_of(final(t).entries@)
                == first_seen(k + export_names(v@)),
        r is Err ==> r->Err_0 == RewriteError::IdentifiersExhausted,
        old(t).entries@.len() + v@.len() < usize::MAX ==> r is Ok,
{
    let ghost t0 = *t;
    let mut out: Vec<OutExport> = Vec::with_capacity(v.len());
    let mut i: usize = 0;
    while i < v.len()
        invariant
            i <= v@.len(),
            t0 == *old(t),
            t.wf(),
            forall|k: Seq<char>| #[trigger]
                t0.renamed(k) is Some ==> t.renamed(k) == t0.renamed(k),
            t.entries@.len() <= t0.entries@.len() + i,
            exports_rewritten(v@.subrange(0, i as int), out@, *t),
            forall|k: Seq<Seq<char>>|
                keys_of(t0.entries@) == #[trigger] first_seen(k) ==> keys_of(t.entries@)
                    == first_seen(k + export_names(v@.subrange(0, i as int))),
        decreases v@.len() - i,
    {
        let export = &v[i];
        let ghost before = *t;
        let renamed = t.rename(&export.name);
        proof {
            assert forall|k: Seq<Seq<char>>|
                keys_of(t0.entries@) == #[trigger] first_seen(k) implies keys_of(t.entries@)
                    == first_seen(k + export_names(v@.subrange(0, i + 1))) || renamed is None by {
                let ki = k + export_names(v@.subrange(0, i as int));
                assert(k + export_names(v@.subrange(0, i + 1)) =~= ki.push(export.name@));
                lemma_first_seen_push(ki, export.name@);
                lemma_renamed_iff_key(before.entries@, export.name@);
                if renamed is Some && before.renamed(export.name@) is None {
                    assert(keys_of(t.entries@) =~= keys_of(before.entries@).push(export.name@));
                }
            }
            assert forall|k: Seq<char>| #[trigger] t0.renamed(k) is Some implies t.renamed(k)
                == t0.renamed(k) by {
                assert(before.renamed(k) == t0.renamed(k));
            }
        }
        match renamed {
            Some(name) => {
                out.push(OutExport { name, kind: export.kind, index: export.index });
            },
            None => {
                return Err(RewriteError::IdentifiersExhausted);
            },
        }
        proof {
            assert forall|j: int| 0 <= j < i + 1 implies {
                &&& (#[trigger] out@[j]).kind == v@.subrange(0, i + 1)[j].kind
                &&& out@[j].index == v@.subrange(0, i + 1)[j].index
                &&& t.renamed(v@.subrange(0, i + 1)[j].name@) == Some(out@[j].name@)
            } by {
                if j < i {
                    assert(v@.subrange(0, i + 1)[j] == v@.subrange(0, i as int)[j]);
                    assert(before.renamed(v@[j].name@) is Some);
                }
            }
        }
        i = i + 1;
    }
    assert(v@.subrange(0, v@.len() as int) =~= v@);
    Ok(out)
}


/// Writes back the entries of a table section.
fn map_tables(v: &Vec<TableType>) -> (r: Vec<OutTableType>)
    ensures
        r@ == v@.map_values(|t: TableType| table_type_image(t)),
{
    let mut r: Vec<OutTableType> = Vec::with_capacity(v.len());
    let mut i: usize = 0;
    while i < v.len()
        invariant
            i <= v@.len(),
            r@ == v@.subrange(0, i as int).map_values(|t: TableType| table_type_image(t)),
        decreases v@.len() - i,
    {
        r.push(map_table_type(v[i]));
        assert(r@ =~= v@.subrange(0, i + 1).map_values(|t: TableType| table_type_image(t)));
        i = i + 1;
    }
    assert(v@.subrange(0, v@.len() as int) =~= v@);
    r
}

/// Writes back the entries of a memory section.
fn map_memories(v: &Vec<MemoryType>) -> (r: Vec<OutMemoryType>)
    ensures
        r@ == v@.map_values(|m: MemoryType| memory_type_image(m)),
{
    let mut r: Vec<OutMemoryType> = Vec::with_capacity(v.len());
    let mut i: usize = 0;
    while i < v.len()
        invariant
            i <= v@.len(),
            r@ == v@.subrange(0, i as int).map_values(|m: MemoryType| memory_type_image(m)),
        decreases v@.len() - i,
    {
        r.push(map_memory_type(v[i]));
        assert(r@ =~= v@.subrange(0, i + 1).map_values(|m: MemoryType| memory_type_image(m)));
        i = i + 1;
    }
    assert(v@.subrange(0, v@.len() as int) =~= v@);
    r
}

/// Writes back the entries of a global section; `None` if an initializer
/// lacks its final `end`.
fn map_globals(v: &Vec<Global>) -> (r: Option<Vec<OutGlobal>>)
    ensures
        r is Some <==> forall|i: int| 0 <= i < v@.len() ==> (#[trigger] v@[i]).init_expr.bytes@.len() > 0,
        r is Some ==> r->Some_0@.len() == v@.len() && forall|i: int|
            0 <= i < v@.len() ==> global_maps(#[trigger] v@[i], r->Some_0@[i]),
{
    let mut r: Vec<OutGlobal> = Vec::with_capacity(v.len());
    let mut i: usize = 0;
    while i < v.len()
        invariant
            i <= v@.len(),
            r@.len() == i,
            forall|j: int| 0 <= j < i ==> (#[trigger] v@[j]).init_expr.bytes@.len() > 0,
            forall|j: int| 0 <= j < i ==> global_maps(#[trigger] v@[j], r@[j]),
        decreases v@.len() - i,
    {
        match map_global(&v[i]) {
            Some(g) => r.push(g),
            None => {
                return None;
            },
        }
        i = i + 1;
    }
    Some(r)
}

/// Writes back the segments of an element section; `None` if a constant
/// expression lacks its final `end`.
fn map_elements(v: &Vec<Element>) -> (r: Option<Vec<crate::wasm::ElementSegment>>)
    ensures
        r is Some <==> forall|i: int| 0 <= i < v@.len() ==> element_ok(#[trigger] v@[i]),
        r is Some ==> r->Some_0@.len() == v@.len() && forall|i: int|
            0 <= i < v@.len() ==> element_maps(#[trigger] v@[i], r->Some_0@[i]),
{
    let mut r: Vec<crate::wasm::ElementSegment> = Vec::with_capacity(v.len());
    let mut i: usize = 0;
    while i < v.len()
        invariant
            i <= v@.len(),
            r@.len() == i,
            forall|j: int| 0 <= j < i ==> element_ok(#[trigger] v@[j]),
            forall|j: int| 0 <= j < i ==> element_maps(#[trigger] v@[j], r@[j]),
        decreases v@.len() - i,
    {
        match map_element(&v[i]) {
            Some(e) => r.push(e),
            None => {
                return None;
            },
        }
        i = i + 1;
    }
    Some(r)
}

/// Writes back the segments of a data section; `None` if an offset lacks
/// its final `end`.
fn map_datas(v: &Vec<Data>) -> (r: Option<Vec<OutData>>)
    ensures
        r is Some <==> forall|i: int| 0 <= i < v@.len() ==> data_ok(#[trigger] v@[i]),
        r is Some ==> r->Some_0@.len() == v@.len() && forall|i: int|
            0 <= i < v@.len() ==> data_maps(#[trigger] v@[i], r->Some_0@[i]),
{
    let mut r: Vec<OutData> = Vec::with_capacity(v.len());
    let mut i: usize = 0;
    while i < v.len()
        invariant
            i <= v@.len(),
            r@.len() == i,
            forall|j: int| 0 <= j < i ==> data_ok(#[trigger] v@[j]),
            forall|j: int| 0 <= j < i ==> data_maps(#[trigger] v@[j], r@[j]),
        decreases v@.len() - i,
    {
        match map_data(&v[i]) {
            Some(d) => r.push(d),
            None => {
                return None;
            },
        }
        i = i + 1;
    }
    Some(r)
}

/// The section that a plain payload becomes, for the payloads that need
/// no rename table.
fn plain_section(p: &Payload) -> (r: Result<Section, RewriteError>)
    requires
        is_plain_section(*p),
        !(p is ImportSection),
        !(p is ExportSection),
    ensures
        r is Ok <==> payload_well_formed(*p),
        r is Err ==> r->Err_0 == RewriteError::Parse,
        forall|it: ImportTable, et: ExportTable|
            r is Ok ==> #[trigger] section_of(*p, r->Ok_0, it, et),
{
    match p {
        Payload::TypeSection(v) => Ok(Section::Type(copy_types(v))),
        Payload::FunctionSection(v) => Ok(Section::Function(copy_vec(v))),
        Payload::TableSection(v) => Ok(Section::Table(map_tables(v))),
        Payload::MemorySection(v) => Ok(Section::Memory(map_memories(v))),
        Payload::TagSection(v) => Ok(Section::Tag(copy_vec(v))),
        Payload::GlobalSection(v) => match map_globals(v) {
            Some(g) => Ok(Section::Global(g)),
            None => Err(RewriteError::Parse),
        },
        Payload::ElementSection(v) => match map_elements(v) {
            Some(e) => Ok(Section::Element(e)),
            None => Err(RewriteError::Parse),
        },
        Payload::DataSection(v) => match map_datas(v) {
            Some(d) => Ok(Section::Data(d)),
            None => Err(RewriteError::Parse),
        },
        Payload::CustomSection { name, data } => Ok(
            Section::Custom { name: name.clone(), data: copy_vec(data) },
        ),
        _ => Err(RewriteError::Parse),
    }
}


/// The export renames of `later` keep those of `earlier`.
pub open spec fn exports_extend(later: ExportTable, earlier: ExportTable) -> bool {
    forall|k: Seq<char>| #[trigger]
        earlier.renamed(k) is Some ==> later.renamed(k) == earlier.renamed(k)
}

/// `new` is `old` with `s` appended.
pub open spec fn appended(old: Seq<Section>, new: Seq<Section>, s: Section) -> bool {
    new == old.push(s)
}

/// `b` is the list of function bodies `a` with `body` appended.
pub open spec fn bodies_appended(a: Seq<Vec<u8>>, b: Seq<Vec<u8>>, body: Seq<u8>) -> bool {
    &&& b.len() == a.len() + 1
    &&& forall|j: int| 0 <= j < a.len() ==> (#[trigger] b[j])@ == a[j]@
    &&& b[a.len() as int]@ == body
}

/// A section of the payload `p`, with renames taken from later tables, is
/// still the section of `p`.
pub proof fn lemma_section_of_extends(
    p: Payload,
    s: Section,
    it: ImportTable,
    et: ExportTable,
    it2: ImportTable,
    et2: ExportTable,
)
    requires
        section_of(p, s, it, et),
        it2.extends(&it),
        exports_extend(et2, et),
    ensures
        section_of(p, s, it2, et2),
{
    match (p, s) {
        (Payload::ImportSection(v), Section::Import(o)) => {
            assert forall|i: int| 0 <= i < v@.len() implies {
                &&& (#[trigger] o@[i]).ty == type_ref_image(v@[i].ty)
                &&& it2.module_renamed(v@[i].module@) == Some(o@[i].module@)
                &&& it2.member_renamed(v@[i].module@, v@[i].name@) == Some(o@[i].name@)
            } by {
                assert(it.module_renamed(v@[i].module@) is Some);
                assert(it.member_renamed(v@[i].module@, v@[i].name@) is Some);
            }
        },
        (Payload::ExportSection(v), Section::Export(o)) => {
            assert forall|i: int| 0 <= i < v@.len() implies {
                &&& (#[trigger] o@[i]).kind == v@[i].kind
                &&& o@[i].index == v@[i].index
                &&& et2.renamed(v@[i].name@) == Some(o@[i].name@)
            } by {
                assert(et.renamed(v@[i].name@) is Some);
            }
        },
        _ => {},
    }
}

impl Rewriter {
    /// Both tables are well formed, and a code section is open exactly when
    /// entries are still expected.
    pub open spec fn wf(&self) -> bool {
        &&& self.imports.wf()
        &&& self.exports.wf()
        &&& (self.code is Some <==> self.code_remaining > 0)
    }

    /// The start of a rewrite: empty tables, no code section, no output.
    pub fn new() -> (r: Rewriter)
        ensures
            r.wf(),
            r.imports.modules@.len() == 0,
            r.imports.members@.len() == 0,
            r.exports.entries@.len() == 0,
            r.code_remaining == 0,
            r.sections@.len() == 0,
    {
        Rewriter {
            imports: ImportTable::new(),
            exports: ExportTable::new(),
            code_remaining: 0,
            code: None,
            sections: Vec::new(),
        }
    }

    /// Takes in one payload. A payload of its own section appends that
    /// section; a code section start opens a code section of `count` entries
    /// (an empty one is appended at once); each code entry adds its bytes as
    /// a function body, and the last one appends the code section. The
    /// version and the end are skipped.
    pub fn step(&mut self, p: &Payload) -> (r: Result<(), RewriteError>)
        requires
            old(self).wf(),
        ensures
            final(self).wf(),
            final(self).imports.extends(&old(self).imports),
            exports_extend(final(self).exports, old(self).exports),
            final(self).imports.modules@.len() <= old(self).imports.modules@.len() + import_count(*p),
            final(self).imports.members@.len() <= old(self).imports.members@.len() + import_count(*p),
            final(self).exports.entries@.len() <= old(self).exports.entries@.len() + export_count(*p),
            r is Ok ==> payload_well_formed(*p) && !(p is Unsupported) && code_step_ok(*old(self), *p),
            r is Err ==> step_error(*old(self), *p, r->Err_0),
            payload_well_formed(*p) && !(p is Unsupported) && code_step_ok(*old(self), *p)
                && old(self).imports.modules@.len() + import_count(*p) < usize::MAX
                && old(self).imports.members@.len() + import_count(*p) < usize::MAX
                && old(self).exports.entries@.len() + export_count(*p) < usize::MAX ==> r is Ok,
            r is Ok ==> step_done(*old(self), *p, *final(self)),
            !(p is ImportSection) ==> final(self).imports == old(self).imports,
            !(p is ExportSection) ==> final(self).exports == old(self).exports,
            r is Ok ==> forall|k: Seq<Seq<char>>|
                keys_of(old(self).imports.modules@) == #[trigger] first_seen(k) ==> keys_of(
                    final(self).imports.modules@,
                ) == first_seen(k + payload_modules(*p)),
            r is Ok ==> forall|k: Seq<(Seq<char>, Seq<char>)>|
                member_keys(old(self).imports.members@) == #[trigger] first_seen(k) ==> member_keys(
                    final(self).imports.members@,
                ) == first_seen(k + payload_pairs(*p)),
            r is Ok ==> forall|k: Seq<Seq<char>>|
                keys_of(old(self).exports.entries@) == #[trigger] first_seen(k) ==> keys_of(
                    final(self).exports.entries@,
                ) == first_seen(k + payload_exports(*p)),
    {
        match p {
            Payload::Version | Payload::End => Ok(()),
            Payload::Unsupported(_) => Err(RewriteError::UnsupportedFeature),
            Payload::CodeSectionStart { count } => {
                if self.code.is_some() {
                    return Err(RewriteError::Integrity);
                }
                if *count == 0 {
                    let ghost old_secs = self.sections@;
                    self.sections.push(Section::Code(Vec::new()));
                    assert(self.sections@.drop_last() =~= old_secs);
                } else {
                    self.code_remaining = *count;
                    self.code = Some(Vec::new());
                }
                Ok(())
            },
            Payload::CodeSectionEntry(body) => {
                let mut bodies = match self.code.take() {
                    Some(b) => b,
                    None => {
                        return Err(RewriteError::Integrity);
                    },
                };
                let ghost before = bodies@;
                bodies.push(copy_vec(body));
                assert(bodies_appended(before, bodies@, body@));
                self.code_remaining = self.code_remaining - 1;
                if self.code_remaining == 0 {
                    let ghost old_secs = self.sections@;
                    self.sections.push(Section::Code(bodies));
                    assert(self.sections@.drop_last() =~= old_secs);
                } else {
                    self.code = Some(bodies);
                }
                Ok(())
            },
            Payload::ImportSection(v) => {
                let o = rewrite_imports(&mut self.imports, v)?;
                let ghost old_secs = self.sections@;
                    self.sections.push(Section::Import(o));
                    assert(self.sections@.drop_last() =~= old_secs);
                Ok(())
            },
            Payload::ExportSection(v) => {
                let o = rewrite_exports(&mut self.exports, v)?;
                let ghost old_secs = self.sections@;
                    self.sections.push(Section::Export(o));
                    assert(self.sections@.drop_last() =~= old_secs);
                Ok(())
            },
            _ => {
                let s = plain_section(p)?;
                proof {
                    assert(section_of(*p, s, self.imports, self.exports));
                }
                let ghost old_secs = self.sections@;
                    self.sections.push(s);
                    assert(self.sections@.drop_last() =~= old_secs);
                Ok(())
            },
        }
    }
}

/// How many imports the payload holds.
pub open spec fn import_count(p: Payload) -> nat {
    match p {
        Payload::ImportSection(v) => v@.len(),
        _ => 0,
    }
}

/// How many exports the payload holds.
pub open spec fn export_count(p: Payload) -> nat {
    match p {
        Payload::ExportSection(v) => v@.len(),
        _ => 0,
    }
}

/// The payload keeps the code section accounting of `st`: a start comes
/// while none is open, an entry while one is.
pub open spec fn code_step_ok(st: Rewriter, p: Payload) -> bool {
    match p {
        Payload::CodeSectionStart { .. } => st.code is None,
        Payload::CodeSectionEntry(_) => st.code is Some,
        _ => true,
    }
}

/// `e` is an error that taking in `p` in state `st` may give.
pub open spec fn step_error(st: Rewriter, p: Payload, e: RewriteError) -> bool {
    match e {
        RewriteError::Parse => !payload_well_formed(p),
        RewriteError::UnsupportedFeature => p is Unsupported,
        RewriteError::Integrity => !code_step_ok(st, p),
        RewriteError::IdentifiersExhausted => st.imports.modules@.len() + import_count(p)
            >= usize::MAX || st.imports.members@.len() + import_count(p) >= usize::MAX
            || st.exports.entries@.len() + export_count(p) >= usize::MAX,
    }
}

/// `new` is `old` after it took in `p` successfully.
pub open spec fn step_done(old: Rewriter, p: Payload, new: Rewriter) -> bool {
    match p {
        Payload::Version | Payload::End => new.sections@ == old.sections@ && new.code
            == old.code && new.code_remaining == old.code_remaining,
        Payload::Unsupported(_) => false,
        Payload::CodeSectionStart { count } => if count == 0 {
            new.code is None && new.sections@.len() == old.sections@.len() + 1
                && new.sections@.drop_last() == old.sections@ && match new.sections@.last() {
                Section::Code(b) => b@.len() == 0,
                _ => false,
            }
        } else {
            new.sections@ == old.sections@ && new.code_remaining == count && match new.code {
                Some(b) => b@.len() == 0,
                None => false,
            }
        },
        Payload::CodeSectionEntry(body) => {
            &&& old.code is Some
            &&& new.code_remaining == old.code_remaining - 1
            &&& if old.code_remaining == 1 {
                new.code is None && new.sections@.len() == old.sections@.len() + 1
                    && new.sections@.drop_last() == old.sections@ && match new.sections@.last() {
                    Section::Code(b) => bodies_appended(old.code->Some_0@, b@, body@),
                    _ => false,
                }
            } else {
                new.sections@ == old.sections@ && new.code is Some && bodies_appended(
                    old.code->Some_0@,
                    new.code->Some_0@,
                    body@,
                )
            }
        },
        _ => {
            &&& new.code == old.code
            &&& new.code_remaining == old.code_remaining
            &&& new.sections@.len() == old.sections@.len() + 1
            &&& new.sections@.drop_last() == old.sections@
            &&& section_of(p, new.sections@.last(), new.imports, new.exports)
        },
    }
}


/// The code section accounting of `ps`, with `remaining` entries still
/// expected before it: a start only while none is expected, an entry only
/// while one is, and none expected at the end.
pub open spec fn code_ok_from(ps: Seq<Payload>, remaining: nat) -> bool
    decreases ps.len(),
{
    if ps.len() == 0 {
        remaining == 0
    } else {
        match ps[0] {
            Payload::CodeSectionStart { count } => remaining == 0 && code_ok_from(
                ps.drop_first(),
                count as nat,
            ),
            Payload::CodeSectionEntry(_) => remaining > 0 && code_ok_from(
                ps.drop_first(),
                (remaining - 1) as nat,
            ),
            _ => code_ok_from(ps.drop_first(), remaining),
        }
    }
}

/// How many imports and exports `ps` holds in all.
pub open spec fn name_count(ps: Seq<Payload>) -> nat
    decreases ps.len(),
{
    if ps.len() == 0 {
        0
    } else {
        name_count(ps.drop_last()) + import_count(ps.last()) + export_count(ps.last())
    }
}

proof fn lemma_name_count_prefix(ps: Seq<Payload>, i: int)
    requires
        0 <= i <= ps.len(),
    ensures
        name_count(ps.subrange(0, i)) <= name_count(ps),
    decreases ps.len() - i,
{
    if i < ps.len() {
        lemma_name_count_prefix(ps, i + 1);
        assert(ps.subrange(0, i + 1).drop_last() =~= ps.subrange(0, i));
    } else {
        assert(ps.subrange(0, i) =~= ps);
    }
}

/// The views of the function bodies `b`.
pub open spec fn bodies_view(b: Seq<Vec<u8>>) -> Seq<Seq<u8>> {
    b.map_values(|v: Vec<u8>| v@)
}

/// The bytes of the last `n` code entries of `ps`, in order.
pub open spec fn entry_bodies(ps: Seq<Payload>, n: nat) -> Seq<Seq<u8>>
    decreases ps.len(),
{
    if n == 0 || ps.len() == 0 {
        Seq::empty()
    } else {
        match ps.last() {
            Payload::CodeSectionEntry(b) => entry_bodies(ps.drop_last(), (n - 1) as nat).push(b@),
            _ => entry_bodies(ps.drop_last(), n),
        }
    }
}

/// The position of the last code section start in `ps`, or -1.
pub open spec fn last_start(ps: Seq<Payload>) -> int
    decreases ps.len(),
{
    if ps.len() == 0 {
        -1
    } else if ps.last() is CodeSectionStart {
        ps.len() - 1
    } else {
        last_start(ps.drop_last())
    }
}

/// The number of code entries in `ps`.
pub open spec fn entry_count(ps: Seq<Payload>) -> nat
    decreases ps.len(),
{
    if ps.len() == 0 {
        0
    } else {
        entry_count(ps.drop_last()) + if ps.last() is CodeSectionEntry {
            1nat
        } else {
            0nat
        }
    }
}

/// The number of entries a code section start announces.
pub open spec fn start_count(p: Payload) -> nat {
    match p {
        Payload::CodeSectionStart { count } => count as nat,
        _ => 0,
    }
}

proof fn lemma_last_start(ps: Seq<Payload>)
    ensures
        -1 <= last_start(ps) < ps.len(),
        last_start(ps) >= 0 ==> ps[last_start(ps)] is CodeSectionStart,
    decreases ps.len(),
{
    if ps.len() > 0 && !(ps.last() is CodeSectionStart) {
        lemma_last_start(ps.drop_last());
        if last_start(ps) >= 0 {
            assert(ps.drop_last()[last_start(ps)] == ps[last_start(ps)]);
        }
    }
}

/// The code section `k` of `ss`, which came from payload `origin[k]`, came
/// from the code section start at `last_start` of the payloads up to it.
pub open spec fn code_start(ps: Seq<Payload>, origin: Seq<int>, k: int) -> int {
    last_start(ps.subrange(0, origin[k] + 1))
}

/// Each code section start of `ps` but the one at `open` gave exactly one
/// code section of `ss`, and the code sections come in the order of their
/// starts, all before `open` when a section is open.
pub open spec fn code_sections_cover(
    ps: Seq<Payload>,
    ss: Seq<Section>,
    origin: Seq<int>,
    open: int,
) -> bool {
    &&& forall|j: int|
        0 <= j < ps.len() && #[trigger] ps[j] is CodeSectionStart && j != open ==> exists|k: int|
            0 <= k < ss.len() && ss[k] is Code && code_start(ps, origin, k) == j
    &&& forall|k1: int, k2: int|
        0 <= k1 < k2 < ss.len() && ss[k1] is Code && ss[k2] is Code ==> #[trigger] code_start(
            ps,
            origin,
            k1,
        ) < #[trigger] code_start(ps, origin, k2)
    &&& open >= 0 ==> forall|k: int|
        0 <= k < ss.len() && ss[k] is Code ==> #[trigger] code_start(ps, origin, k) < open
}

proof fn lemma_cover_step(
    pre: Seq<Payload>,
    p: Payload,
    ss0: Seq<Section>,
    ss1: Seq<Section>,
    origin: Seq<int>,
    old_open: int,
    new_open: int,
)
    requires
        code_sections_cover(pre, ss0, origin, old_open),
        origin.len() == ss0.len(),
        forall|k: int| 0 <= k < origin.len() ==> 0 <= #[trigger] origin[k] < pre.len(),
        ss1.len() == ss0.len() || ss1 == ss0.push(ss1.last()),
        p is CodeSectionStart ==> old_open == -1 && if ss1.len() == ss0.len() {
            new_open == pre.len()
        } else {
            new_open == -1 && ss1.last() is Code
        },
        p is CodeSectionEntry ==> old_open >= 0 && last_start(pre) == old_open && if ss1.len()
            == ss0.len() {
            new_open == old_open
        } else {
            new_open == -1 && ss1.last() is Code
        },
        !(p is CodeSectionStart) && !(p is CodeSectionEntry) ==> new_open == old_open && (ss1.len()
            > ss0.len() ==> !(ss1.last() is Code)),
        ss1.len() == ss0.len() ==> ss1 == ss0,
    ensures
        code_sections_cover(
            pre.push(p),
            ss1,
            if ss1.len() == ss0.len() {
                origin
            } else {
                origin.push(pre.len() as int)
            },
            new_open,
        ),
{
    let pre2 = pre.push(p);
    let i = pre.len() as int;
    let grew = ss1.len() > ss0.len();
    let o2 = if grew { origin.push(i) } else { origin };
    assert(pre2.drop_last() =~= pre);
    assert(pre2.subrange(0, i + 1) =~= pre2);
    assert forall|k: int| 0 <= k < origin.len() implies #[trigger] code_start(pre2, o2, k)
        == code_start(pre, origin, k) && code_start(pre, origin, k) < i by {
        assert(o2[k] == origin[k]);
        assert(pre2.subrange(0, origin[k] + 1) =~= pre.subrange(0, origin[k] + 1));
        lemma_last_start(pre.subrange(0, origin[k] + 1));
    }
    assert forall|k: int| 0 <= k < ss0.len() implies #[trigger] ss1[k] == ss0[k] by {
        if grew {
            assert(ss1 == ss0.push(ss1.last()));
        }
    }
    if grew {
        let k = origin.len() as int;
        assert(o2[k] == i);
        if p is CodeSectionStart {
            assert(code_start(pre2, o2, k) == i);
        } else {
            assert(code_start(pre2, o2, k) == last_start(pre));
        }
    }
    assert forall|j: int|
        0 <= j < pre2.len() && #[trigger] pre2[j] is CodeSectionStart && j != new_open implies exists|k: int|
        0 <= k < ss1.len() && ss1[k] is Code && code_start(pre2, o2, k) == j by {
        if j < i && j != old_open {
            assert(pre[j] == pre2[j]);
            assert(pre[j] is CodeSectionStart);
            assert(exists|k: int| 0 <= k < ss0.len() && ss0[k] is Code && code_start(pre, origin, k) == j);
            let k = choose|k: int|
                0 <= k < ss0.len() && ss0[k] is Code && code_start(pre, origin, k) == j;
            assert(ss1[k] == ss0[k]);
            assert(code_start(pre2, o2, k) == code_start(pre, origin, k));
            assert(0 <= k < ss1.len() && ss1[k] is Code && code_start(pre2, o2, k) == j);
        } else {
            assert(pre2[i] == p);
            if j == i {
                assert(p is CodeSectionStart);
            } else {
                assert(j == old_open);
                assert(p is CodeSectionEntry);
            }
            assert(grew);
            let k = origin.len() as int;
            assert(ss1 == ss0.push(ss1.last()));
            assert(ss1.len() == k + 1);
            assert(ss1[k] == ss1.last());
            assert(ss1[k] is Code);
            assert(o2[k] == i);
            if p is CodeSectionStart {
                assert(code_start(pre2, o2, k) == i);
            } else {
                assert(code_start(pre2, o2, k) == last_start(pre));
            }
            assert(code_start(pre2, o2, k) == j);
            assert(0 <= k < ss1.len() && ss1[k] is Code && code_start(pre2, o2, k) == j);
        }
    }
    assert forall|k1: int, k2: int|
        0 <= k1 < k2 < ss1.len() && ss1[k1] is Code && ss1[k2] is Code implies #[trigger] code_start(
        pre2,
        o2,
        k1,
    ) < #[trigger] code_start(pre2, o2, k2) by {
        assert(ss1[k1] == ss0[k1]);
        if k2 < ss0.len() {
            assert(ss1[k2] == ss0[k2]);
        }
    }
    if new_open >= 0 {
        assert forall|k: int| 0 <= k < ss1.len() && ss1[k] is Code implies #[trigger] code_start(
            pre2,
            o2,
            k,
        ) < new_open by {
            assert(ss1[k] == ss0[k]);
        }
    }
}

/// The sections `ss` follow the payloads `ps`, section `k` coming from
/// payload `origin[k]`: in the same order, each payload of its own section
/// giving exactly one, renamed by `it` and `et`, and the code payloads giving
/// the code sections.
pub open spec fn sections_follow(
    ps: Seq<Payload>,
    ss: Seq<Section>,
    origin: Seq<int>,
    it: ImportTable,
    et: ExportTable,
) -> bool {
    &&& origin.len() == ss.len()
    &&& forall|k: int| 0 <= k < origin.len() ==> 0 <= #[trigger] origin[k] < ps.len()
    &&& forall|k1: int, k2: int|
        0 <= k1 < k2 < origin.len() ==> #[trigger] origin[k1] < #[trigger] origin[k2]
    &&& forall|k: int|
        0 <= k < origin.len() ==> if is_plain_section(ps[#[trigger] origin[k]]) {
            section_of(ps[origin[k]], ss[k], it, et)
        } else {
            &&& ss[k] is Code
            &&& ps[origin[k]] is CodeSectionStart || ps[origin[k]] is CodeSectionEntry
            &&& bodies_view(ss[k]->Code_0@) == entry_bodies(
                ps.subrange(0, origin[k] + 1),
                ss[k]->Code_0@.len(),
            )
            &&& 0 <= code_start(ps, origin, k)
            &&& ss[k]->Code_0@.len() == start_count(ps[code_start(ps, origin, k)])
            &&& entry_count(ps.subrange(code_start(ps, origin, k) + 1, origin[k] + 1))
                == ss[k]->Code_0@.len()
        }
    &&& forall|i: int|
        0 <= i < ps.len() && is_plain_section(#[trigger] ps[i]) ==> exists|k: int|
            0 <= k < origin.len() && origin[k] == i
}

/// Rewrites a whole module, payload by payload, and checks that no code
/// section is left open. On success the result holds the sections and the
/// rename tables.
#[verifier::rlimit(60)]
pub fn rewrite_module(ps: &Vec<Payload>) -> (r: Result<Rewriter, RewriteError>)
    ensures
        r is Ok ==> r->Ok_0.wf() && r->Ok_0.code is None,
        r is Ok ==> forall|i: int|
            0 <= i < ps@.len() ==> payload_well_formed(#[trigger] ps@[i]) && !(ps@[i] is Unsupported),
        r is Ok ==> code_ok_from(ps@, 0),
        r is Ok ==> keys_of(r->Ok_0.imports.modules@) == first_seen(module_names(ps@)),
        r is Ok ==> member_keys(r->Ok_0.imports.members@) == first_seen(pair_names(ps@)),
        r is Ok ==> keys_of(r->Ok_0.exports.entries@) == first_seen(exported_names(ps@)),
        r is Ok ==> exists|origin: Seq<int>| #[trigger]
            sections_follow(ps@, r->Ok_0.sections@, origin, r->Ok_0.imports, r->Ok_0.exports)
                && code_sections_cover(ps@, r->Ok_0.sections@, origin, -1),
        (forall|i: int|
            0 <= i < ps@.len() ==> payload_well_formed(#[trigger] ps@[i]) && !(ps@[i] is Unsupported))
            && code_ok_from(ps@, 0) && name_count(ps@) < usize::MAX ==> r is Ok,
        r == Err::<Rewriter, RewriteError>(RewriteError::Parse) ==> exists|i: int|
            0 <= i < ps@.len() && !payload_well_formed(#[trigger] ps@[i]),
        r == Err::<Rewriter, RewriteError>(RewriteError::UnsupportedFeature) ==> exists|i: int|
            0 <= i < ps@.len() && #[trigger] ps@[i] is Unsupported,
        r == Err::<Rewriter, RewriteError>(RewriteError::Integrity) ==> !code_ok_from(ps@, 0),
        r == Err::<Rewriter, RewriteError>(RewriteError::IdentifiersExhausted) ==> name_count(ps@)
            >= usize::MAX,
{
    let mut st = Rewriter::new();
    let ghost mut origin: Seq<int> = Seq::empty();
    let mut i: usize = 0;
    assert(ps@.subrange(0, ps@.len() as int) =~= ps@);
    while i < ps.len()
        invariant
            i <= ps@.len(),
            st.wf(),
            forall|j: int|
                0 <= j < i ==> payload_well_formed(#[trigger] ps@[j]) && !(ps@[j] is Unsupported),
            code_ok_from(ps@, 0) <==> code_ok_from(
                ps@.subrange(i as int, ps@.len() as int),
                st.code_remaining as nat,
            ),
            st.imports.modules@.len() <= name_count(ps@.subrange(0, i as int)),
            st.imports.members@.len() <= name_count(ps@.subrange(0, i as int)),
            st.exports.entries@.len() <= name_count(ps@.subrange(0, i as int)),
            sections_follow(ps@.subrange(0, i as int), st.sections@, origin, st.imports, st.exports),
            keys_of(st.imports.modules@) == first_seen(module_names(ps@.subrange(0, i as int))),
            member_keys(st.imports.members@) == first_seen(pair_names(ps@.subrange(0, i as int))),
            keys_of(st.exports.entries@) == first_seen(exported_names(ps@.subrange(0, i as int))),
            st.code is Some ==> bodies_view(st.code->Some_0@) == entry_bodies(
                ps@.subrange(0, i as int),
                st.code->Some_0@.len(),
            ),
            st.code is Some ==> entry_count(
                ps@.subrange(last_start(ps@.subrange(0, i as int)) + 1, i as int),
            ) == st.code->Some_0@.len(),
            st.code is Some ==> last_start(ps@.subrange(0, i as int)) >= 0 && st.code_remaining
                + st.code->Some_0@.len() == start_count(ps@[last_start(ps@.subrange(0, i as int))]),
            code_sections_cover(
                ps@.subrange(0, i as int),
                st.sections@,
                origin,
                if st.code is Some {
                    last_start(ps@.subrange(0, i as int))
                } else {
                    -1
                },
            ),
        decreases ps@.len() - i,
    {
        let ghost before = st;
        let ghost rest = ps@.subrange(i as int, ps@.len() as int);
        proof {
            assert(rest[0] == ps@[i as int]);
            assert(rest.drop_first() =~= ps@.subrange(i + 1, ps@.len() as int));
            assert(ps@.subrange(0, i + 1).drop_last() =~= ps@.subrange(0, i as int));
            assert(ps@.subrange(0, i + 1).last() == ps@[i as int]);
            lemma_name_count_prefix(ps@, i + 1);
        }
        let res = st.step(&ps[i]);
        match res {
            Ok(()) => {},
            Err(e) => {
                proof {
                    if e == RewriteError::Parse {
                        assert(!payload_well_formed(ps@[i as int]));
                    }
                    if e == RewriteError::UnsupportedFeature {
                        assert(ps@[i as int] is Unsupported);
                    }
                }
                return Err(e);
            },
        }
        proof {
            match ps@[i as int] {
                Payload::CodeSectionStart { count } => {
                    assert(before.code_remaining == 0);
                    assert(code_ok_from(rest, 0) == code_ok_from(rest.drop_first(), count as nat));
                },
                Payload::CodeSectionEntry(_) => {
                    assert(code_ok_from(rest, before.code_remaining as nat) == code_ok_from(
                        rest.drop_first(),
                        st.code_remaining as nat,
                    ));
                },
                _ => {
                    assert(code_ok_from(rest, before.code_remaining as nat) == code_ok_from(
                        rest.drop_first(),
                        st.code_remaining as nat,
                    ));
                },
            }
            let pre = ps@.subrange(0, i as int);
            let pre2 = ps@.subrange(0, i + 1);
            assert forall|j: int| 0 <= j < pre.len() implies #[trigger] pre2[j] == pre[j] by {}
            let grew = st.sections@.len() == before.sections@.len() + 1;
            let new_origin = if grew { origin.push(i as int) } else { origin };
            assert(pre2.drop_last() =~= pre);
            assert(pre2.last() == ps@[i as int]);
            lemma_last_start(pre);
            lemma_last_start(pre2);
            if ps@[i as int] is CodeSectionStart {
                assert(last_start(pre2) == i);
                assert(before.code is None);
                assert(grew ==> start_count(ps@[i as int]) == 0);
                assert(!grew ==> st.code is Some);
            } else {
                assert(last_start(pre2) == last_start(pre));
            }
            if ps@[i as int] is CodeSectionEntry {
                assert(before.code is Some);
                if grew {
                    assert(before.code_remaining == 1);
                    assert(st.sections@.last()->Code_0@.len() == before.code->Some_0@.len() + 1);
                } else {
                    assert(st.code is Some);
                    assert(st.code->Some_0@.len() == before.code->Some_0@.len() + 1);
                }
            }
            if !(ps@[i as int] is CodeSectionStart) && !(ps@[i as int] is CodeSectionEntry) {
                assert(st.code == before.code);
                assert(grew ==> !(st.sections@.last() is Code));
            }
            if ps@[i as int] is CodeSectionStart {
                assert(pre2.subrange(i + 1, i + 1) =~= Seq::<Payload>::empty());
                assert(ps@.subrange(i + 1, i + 1) =~= Seq::<Payload>::empty());
                assert(entry_count(Seq::<Payload>::empty()) == 0);
            } else if before.code is Some {
                let ls = last_start(pre);
                assert(0 <= ls < i);
                assert(ps@.subrange(ls + 1, i + 1).drop_last() =~= ps@.subrange(ls + 1, i as int));
                assert(ps@.subrange(ls + 1, i + 1).last() == ps@[i as int]);
                assert(pre2.subrange(ls + 1, i + 1) =~= ps@.subrange(ls + 1, i + 1));
                assert(entry_count(ps@.subrange(ls + 1, i + 1)) == entry_count(ps@.subrange(ls + 1, i as int))
                    + if ps@[i as int] is CodeSectionEntry { 1nat } else { 0nat });
            }
            assert(pre2.subrange(0, i + 1) =~= pre2);
            match ps@[i as int] {
                Payload::CodeSectionStart { count } => {
                    assert(bodies_view(Seq::<Vec<u8>>::empty()) =~= Seq::<Seq<u8>>::empty());
                    if st.code is Some {
                        assert(st.code->Some_0@.len() == 0);
                        assert(bodies_view(st.code->Some_0@) =~= Seq::<Seq<u8>>::empty());
                    }
                    if grew {
                        assert(st.sections@.last()->Code_0@.len() == 0);
                        assert(bodies_view(st.sections@.last()->Code_0@) =~= Seq::<Seq<u8>>::empty());
                    }
                },
                Payload::CodeSectionEntry(body) => {
                    let acc = before.code->Some_0@;
                    let b = if grew {
                        st.sections@.last()->Code_0@
                    } else {
                        st.code->Some_0@
                    };
                    assert(bodies_appended(acc, b, body@));
                    assert(entry_bodies(pre2, b.len()) == entry_bodies(pre, acc.len()).push(body@));
                    assert(bodies_view(b) =~= bodies_view(acc).push(body@));
                },
                _ => {
                    if st.code is Some {
                        assert(entry_bodies(pre2, st.code->Some_0@.len()) == entry_bodies(
                            pre,
                            st.code->Some_0@.len(),
                        ));
                    }
                },
            }
            assert forall|k: int| 0 <= k < new_origin.len() implies if is_plain_section(
                pre2[#[trigger] new_origin[k]],
            ) {
                section_of(pre2[new_origin[k]], st.sections@[k], st.imports, st.exports)
            } else {
                &&& st.sections@[k] is Code
                &&& pre2[new_origin[k]] is CodeSectionStart || pre2[new_origin[k]] is CodeSectionEntry
                &&& bodies_view(st.sections@[k]->Code_0@) == entry_bodies(
                    pre2.subrange(0, new_origin[k] + 1),
                    st.sections@[k]->Code_0@.len(),
                )
                &&& 0 <= code_start(pre2, new_origin, k)
                &&& st.sections@[k]->Code_0@.len() == start_count(pre2[code_start(pre2, new_origin, k)])
                &&& entry_count(pre2.subrange(code_start(pre2, new_origin, k) + 1, new_origin[k] + 1))
                    == st.sections@[k]->Code_0@.len()
            } by {
                if k == origin.len() {
                    assert(code_start(pre2, new_origin, k) == last_start(pre2));
                    if grew && !is_plain_section(pre2[i as int]) {
                        if ps@[i as int] is CodeSectionEntry {
                            let ls = last_start(pre);
                            assert(pre2[ls] == ps@[ls]);
                            assert(pre[ls] == ps@[ls]);
                            assert(st.sections@[k] == st.sections@.last());
                        } else {
                            assert(pre2[i as int] == ps@[i as int]);
                            assert(st.sections@[k] == st.sections@.last());
                        }
                    }
                }
                if k < origin.len() {
                    assert(pre2.subrange(0, origin[k] + 1) =~= pre.subrange(0, origin[k] + 1));
                    lemma_last_start(pre.subrange(0, origin[k] + 1));
                    let cs = code_start(pre, origin, k);
                    if cs >= 0 {
                        assert(pre2.subrange(cs + 1, origin[k] + 1) =~= pre.subrange(cs + 1, origin[k] + 1));
                    }
                    assert(code_start(pre2, new_origin, k) == code_start(pre, origin, k));
                    if code_start(pre, origin, k) >= 0 {
                        assert(pre2[code_start(pre, origin, k)] == pre[code_start(pre, origin, k)]);
                    }
                    assert(st.sections@[k] == before.sections@[k]) by {
                        if grew {
                            assert(st.sections@.drop_last()[k] == st.sections@[k]);
                        }
                    }
                    assert(pre2[origin[k]] == pre[origin[k]]);
                    if is_plain_section(pre[origin[k]]) {
                        lemma_section_of_extends(
                            pre[origin[k]],
                            before.sections@[k],
                            before.imports,
                            before.exports,
                            st.imports,
                            st.exports,
                        );
                    }
                }
            }
            assert forall|j: int|
                0 <= j < pre2.len() && is_plain_section(#[trigger] pre2[j]) implies exists|k: int|
                0 <= k < new_origin.len() && new_origin[k] == j by {
                if j < i {
                    assert(pre2[j] == pre[j]);
                    let k = choose|k: int| 0 <= k < origin.len() && origin[k] == j;
                    assert(new_origin[k] == j);
                } else {
                    assert(new_origin[origin.len() as int] == j);
                }
            }
            lemma_last_start(pre);
            lemma_last_start(pre2);
            let old_open = if before.code is Some { last_start(pre) } else { -1 };
            let new_open = if st.code is Some { last_start(pre2) } else { -1 };
            if grew {
                assert(st.sections@ == before.sections@.push(st.sections@.last()));
            } else {
                assert(st.sections@ == before.sections@);
            }
            assert(pre2 == pre.push(ps@[i as int]));
            lemma_cover_step(pre, ps@[i as int], before.sections@, st.sections@, origin, old_open, new_open);
            origin = new_origin;
        }
        i = i + 1;
    }
    if st.code.is_some() {
        return Err(RewriteError::Integrity);
    }
    proof {
        assert(ps@.subrange(0, ps@.len() as int) =~= ps@);
    }
    Ok(st)
}


/// A module with its names shortened, and its patched glue.
pub struct Minified {
    pub sections: Vec<Section>,
    pub js: String,
    pub imports: ImportTable,
    pub exports: ExportTable,
}

/// Shortens every import and export name of the module `ps` and patches its
/// glue `js` to match. It fails as `rewrite_module` does, and then nothing
/// is patched.
pub fn minify_symbol(ps: &Vec<Payload>, js: &str) -> (r: Result<Minified, RewriteError>)
    ensures
        r is Ok ==> r->Ok_0.imports.wf() && r->Ok_0.exports.wf(),
        r is Ok ==> r->Ok_0.js@ == patched_js(js@, r->Ok_0.imports, r->Ok_0.exports),
        r is Ok ==> keys_of(r->Ok_0.imports.modules@) == first_seen(module_names(ps@)),
        r is Ok ==> member_keys(r->Ok_0.imports.members@) == first_seen(pair_names(ps@)),
        r is Ok ==> keys_of(r->Ok_0.exports.entries@) == first_seen(exported_names(ps@)),
        r is Ok ==> exists|origin: Seq<int>| #[trigger]
            sections_follow(ps@, r->Ok_0.sections@, origin, r->Ok_0.imports, r->Ok_0.exports)
                && code_sections_cover(ps@, r->Ok_0.sections@, origin, -1),
        r is Ok ==> code_ok_from(ps@, 0) && forall|i: int|
            0 <= i < ps@.len() ==> payload_well_formed(#[trigger] ps@[i]) && !(ps@[i] is Unsupported),
        (forall|i: int|
            0 <= i < ps@.len() ==> payload_well_formed(#[trigger] ps@[i]) && !(ps@[i] is Unsupported))
            && code_ok_from(ps@, 0) && name_count(ps@) < usize::MAX ==> r is Ok,
        r == Err::<Minified, RewriteError>(RewriteError::Parse) ==> exists|i: int|
            0 <= i < ps@.len() && !payload_well_formed(#[trigger] ps@[i]),
        r == Err::<Minified, RewriteError>(RewriteError::UnsupportedFeature) ==> exists|i: int|
            0 <= i < ps@.len() && #[trigger] ps@[i] is Unsupported,
        r == Err::<Minified, RewriteError>(RewriteError::Integrity) ==> !code_ok_from(ps@, 0),
        r == Err::<Minified, RewriteError>(RewriteError::IdentifiersExhausted) ==> name_count(ps@)
            >= usize::MAX,
{
    let st = match rewrite_module(ps) {
        Ok(st) => st,
        Err(e) => {
            return Err(e);
        },
    };
    let js = patch_js(js, &st.imports, &st.exports);
    let ghost origin = choose|o: Seq<int>| sections_follow(ps@, st.sections@, o, st.imports, st.exports);
    let m = Minified { sections: st.sections, js, imports: st.imports, exports: st.exports };
    assert(sections_follow(ps@, m.sections@, origin, m.imports, m.exports));
    let r = Ok(m);
    assert(r is Ok ==> sections_follow(ps@, r->Ok_0.sections@, origin, r->Ok_0.imports, r->Ok_0.exports));
    r
}

} // verus!
