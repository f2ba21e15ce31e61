//! Translation of read descriptors into written ones.
use vstd::prelude::*;

use crate::wasm::{
    ConstExpr, Data, DataKind, Element, ElementItems, ElementKind, ElementMode, ElementSegment,
    Elements, EntityType, Global, GlobalType, MemoryType, OutConstExpr, OutData, OutGlobal,
    OutGlobalType, OutMemoryType, OutTableType, TableType, TagType, TypeRef,
};

verus! {

/// A table type as written: `initial` becomes `minimum`.
pub open spec fn table_type_image(t: TableType) -> OutTableType {
    OutTableType { element_type: t.element_type, minimum: t.initial, maximum: t.maximum }
}

/// A memory type as written: `initial` becomes `minimum`.
pub open spec fn memory_type_image(m: MemoryType) -> OutMemoryType {
    OutMemoryType {
        minimum: m.initial,
        maximum: m.maximum,
        memory64: m.memory64,
        shared: m.shared,
    }
}

/// A global type as written: `content_type` becomes `val_type`.
pub open spec fn global_type_image(g: GlobalType) -> OutGlobalType {
    OutGlobalType { val_type: g.content_type, mutable: g.mutable }
}

/// The type of an import as written.
pub open spec fn type_ref_image(t: TypeRef) -> EntityType {
    match t {
        TypeRef::Func(i) => EntityType::Function(i),
        TypeRef::Table(t) => EntityType::Table(table_type_image(t)),
        TypeRef::Memory(m) => EntityType::Memory(memory_type_image(m)),
        TypeRef::Global(g) => EntityType::Global(global_type_image(g)),
        TypeRef::Tag(t) => EntityType::Tag(t),
    }
}

/// `o` is the constant expression `c` written back: the same bytes but the
/// final `end`.
pub open spec fn const_expr_maps(c: ConstExpr, o: OutConstExpr) -> bool {
    c.bytes@.len() > 0 && o.bytes@ == c.bytes@.drop_last()
}

/// Every constant expression of `v` can be written back.
pub open spec fn const_exprs_ok(v: Seq<ConstExpr>) -> bool {
    forall|i: int| 0 <= i < v.len() ==> (#[trigger] v[i]).bytes@.len() > 0
}

/// `o` holds the items `e` as written.
pub open spec fn element_items_map(e: ElementItems, o: Elements) -> bool {
    match (e, o) {
        (ElementItems::Functions(f), Elements::Functions(g)) => g@ == f@,
        (ElementItems::Expressions(f), Elements::Expressions(g)) => g@.len() == f@.len() && forall|
            i: int,
        |
            0 <= i < f@.len() ==> const_expr_maps(#[trigger] f@[i], g@[i]),
        _ => false,
    }
}

/// The items `e` can be written back.
pub open spec fn element_items_ok(e: ElementItems) -> bool {
    match e {
        ElementItems::Functions(_) => true,
        ElementItems::Expressions(f) => const_exprs_ok(f@),
    }
}

/// `o` is the placement `k` as written.
pub open spec fn element_kind_maps(k: ElementKind, o: ElementMode) -> bool {
    match (k, o) {
        (ElementKind::Passive, ElementMode::Passive) => true,
        (
            ElementKind::Active { table_index, offset_expr },
            ElementMode::Active { table, offset },
        ) => table == table_index && const_expr_maps(offset_expr, offset),
        (ElementKind::Declared, ElementMode::Declared) => true,
        _ => false,
    }
}

/// The placement `k` can be written back.
pub open spec fn element_kind_ok(k: ElementKind) -> bool {
    match k {
        ElementKind::Active { offset_expr, .. } => offset_expr.bytes@.len() > 0,
        _ => true,
    }
}

/// `o` is the element segment `e` as written: same placement, same type,
/// same items.
pub open spec fn element_maps(e: Element, o: ElementSegment) -> bool {
    element_kind_maps(e.kind, o.mode) && o.element_type == e.ty && element_items_map(
        e.items,
        o.elements,
    )
}

/// The element segment `e` can be written back.
pub open spec fn element_ok(e: Element) -> bool {
    element_kind_ok(e.kind) && element_items_ok(e.items)
}

/// `o` is the global `g` as written.
pub open spec fn global_maps(g: Global, o: OutGlobal) -> bool {
    o.ty == global_type_image(g.ty) && const_expr_maps(g.init_expr, o.init_expr)
}

/// `o` is the data segment `d` as written.
pub open spec fn data_maps(d: Data, o: OutData) -> bool {
    match (d.kind, o) {
        (DataKind::Passive, OutData::Passive { data }) => data@ == d.data@,
        (
            DataKind::Active { memory_index, offset_expr },
            OutData::Active { memory_index: m, offset, data },
        ) => m == memory_index && const_expr_maps(offset_expr, offset) && data@ == d.data@,
        _ => false,
    }
}

/// The data segment `d` can be written back.
pub open spec fn data_ok(d: Data) -> bool {
    match d.kind {
        DataKind::Active { offset_expr, .. } => offset_expr.bytes@.len() > 0,
        DataKind::Passive => true,
    }
}

/// A copy of `v`.
pub fn copy_vec<T: Copy>(v: &Vec<T>) -> (r: Vec<T>)
    ensures
        r@ == v@,
{
    let mut r: Vec<T> = Vec::with_capacity(v.len());
    let mut i: usize = 0;
    while i < v.len()
        invariant
            i <= v@.len(),
            r@ == v@.subrange(0, i as int),
        decreases v@.len() - i,
    {
        r.push(v[i]);
        assert(r@ =~= v@.subrange(0, i + 1));
        i = i + 1;
    }
    assert(r@ =~= v@);
    r
}

/// Writes back a table type.
pub fn map_table_type(t: TableType) -> (r: OutTableType)
    ensures
        r == table_type_image(t),
{
    OutTableType { element_type: t.element_type, minimum: t.initial, maximum: t.maximum }
}

/// Writes back a memory type.
pub fn map_memory_type(m: MemoryType) -> (r: OutMemoryType)
    ensures
        r == memory_type_image(m),
{
    OutMemoryType {
        minimum: m.initial,
        maximum: m.maximum,
        memory64: m.memory64,
        shared: m.shared,
    }
}

/// Writes back a global type.
pub fn map_global_type(g: GlobalType) -> (r: OutGlobalType)
    ensures
        r == global_type_image(g),
{
    OutGlobalType { val_type: g.content_type, mutable: g.mutable }
}

/// Writes back a tag type, which both sides describe alike.
pub fn map_tag_type(t: TagType) -> (r: TagType)
    ensures
        r == t,
{
    TagType { kind: t.kind, func_type_idx: t.func_type_idx }
}

/// Writes back the type of an import.
pub fn map_type_ref(t: TypeRef) -> (r: EntityType)
    ensures
        r == type_ref_image(t),
{
    match t {
        TypeRef::Func(i) => EntityType::Function(i),
        TypeRef::Table(t) => EntityType::Table(map_table_type(t)),
        TypeRef::Memory(m) => EntityType::Memory(map_memory_type(m)),
        TypeRef::Global(g) => EntityType::Global(map_global_type(g)),
        TypeRef::Tag(t) => EntityType::Tag(map_tag_type(t)),
    }
}

/// Writes back a constant expression: its bytes without the final one, which
/// is the `end` opcode; no opcode is looked at. An empty expression has no
/// `end` to drop and gives `None`.
pub fn map_const_expr(c: &ConstExpr) -> (r: Option<OutConstExpr>)
    ensures
        r is Some <==> c.bytes@.len() > 0,
        r is Some ==> const_expr_maps(*c, r->Some_0),
{
    let n = c.bytes.len();
    if n == 0 {
        return None;
    }
    let mut bytes: Vec<u8> = Vec::with_capacity(n - 1);
    let mut i: usize = 0;
    while i < n - 1
        invariant
            n == c.bytes@.len(),
            i <= n - 1,
            bytes@ == c.bytes@.subrange(0, i as int),
        decreases n - 1 - i,
    {
        bytes.push(c.bytes[i]);
        assert(bytes@ =~= c.bytes@.subrange(0, i + 1));
        i = i + 1;
    }
    Some(OutConstExpr { bytes })
}

/// Writes back a list of constant expressions.
fn map_const_exprs(v: &Vec<ConstExpr>) -> (r: Option<Vec<OutConstExpr>>)
    ensures
        r is Some <==> const_exprs_ok(v@),
        r is Some ==> r->Some_0@.len() == v@.len() && forall|i: int|
            0 <= i < v@.len() ==> const_expr_maps(#[trigger] v@[i], r->Some_0@[i]),
{
    let mut out: Vec<OutConstExpr> = Vec::with_capacity(v.len());
    let mut i: usize = 0;
    while i < v.len()
        invariant
            i <= v@.len(),
            out@.len() == i,
            const_exprs_ok(v@.subrange(0, i as int)),
            forall|j: int| 0 <= j < i ==> const_expr_maps(#[trigger] v@[j], out@[j]),
        decreases v@.len() - i,
    {
        match map_const_expr(&v[i]) {
            Some(o) => {
                out.push(o);
            },
            None => {
                return None;
            },
        }
        assert(const_exprs_ok(v@.subrange(0, i + 1))) by {
            assert forall|j: int| 0 <= j < i + 1 implies (#[trigger] v@.subrange(0, i + 1)[j]).bytes@.len() > 0 by {
                if j < i {
                    assert(v@.subrange(0, i + 1)[j] == v@.subrange(0, i as int)[j]);
                }
            }
        }
        i = i + 1;
    }
    assert(v@.subrange(0, v@.len() as int) =~= v@);
    Some(out)
}

/// Writes back the items of an element segment, a list of functions or of
/// constant expressions, into a list of the same kind.
pub fn map_element_items(items: &ElementItems) -> (r: Option<Elements>)
    ensures
        r is Some <==> element_items_ok(*items),
        r is Some ==> element_items_map(*items, r->Some_0),
{
    match items {
        ElementItems::Functions(f) => Some(Elements::Functions(copy_vec(f))),
        ElementItems::Expressions(e) => match map_const_exprs(e) {
            Some(g) => Some(Elements::Expressions(g)),
            None => None,
        },
    }
}

/// Writes back the placement of an element segment.
pub fn map_element_kind(k: &ElementKind) -> (r: Option<ElementMode>)
    ensures
        r is Some <==> element_kind_ok(*k),
        r is Some ==> element_kind_maps(*k, r->Some_0),
{
    match k {
        ElementKind::Passive => Some(ElementMode::Passive),
        ElementKind::Active { table_index, offset_expr } => match map_const_expr(offset_expr) {
            Some(offset) => Some(ElementMode::Active { table: *table_index, offset }),
            None => None,
        },
        ElementKind::Declared => Some(ElementMode::Declared),
    }
}

/// Writes back an element segment.
pub fn map_element(e: &Element) -> (r: Option<ElementSegment>)
    ensures
        r is Some <==> element_ok(*e),
        r is Some ==> element_maps(*e, r->Some_0),
{
    let mode = match map_element_kind(&e.kind) {
        Some(m) => m,
        None => {
            return None;
        },
    };
    let elements = match map_element_items(&e.items) {
        Some(i) => i,
        None => {
            return None;
        },
    };
    Some(ElementSegment { mode, element_type: e.ty, elements })
}

/// Writes back a global.
pub fn map_global(g: &Global) -> (r: Option<OutGlobal>)
    ensures
        r is Some <==> g.init_expr.bytes@.len() > 0,
        r is Some ==> global_maps(*g, r->Some_0),
{
    match map_const_expr(&g.init_expr) {
        Some(init_expr) => Some(OutGlobal { ty: map_global_type(g.ty), init_expr }),
        None => None,
    }
}

/// Writes back a data segment.
pub fn map_data(d: &Data) -> (r: Option<OutData>)
    ensures
        r is Some <==> data_ok(*d),
        r is Some ==> data_maps(*d, r->Some_0),
{
    match &d.kind {
        DataKind::Passive => Some(OutData::Passive { data: copy_vec(&d.data) }),
        DataKind::Active { memory_index, offset_expr } => match map_const_expr(offset_expr) {
            Some(offset) => Some(
                OutData::Active { memory_index: *memory_index, offset, data: copy_vec(&d.data) },
            ),
            None => None,
        },
    }
}

} // verus!
