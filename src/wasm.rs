//! A WebAssembly module as the rewriter reads it and as it writes it back.
//!
//! The reading side follows the binary format's own vocabulary (a table's
//! `initial` size, a global's `content_type`); the writing side names the same
//! things as an encoder does (`minimum`, `val_type`). Constant expressions
//! keep their terminating `end` opcode on the reading side and leave it out on
//! the writing side, where the encoder adds its own.
use vstd::prelude::*;

verus! {

/// The kind of a reference.
#[derive(Clone, Copy, Debug, PartialEq, Eq, Structural)]
pub enum HeapType {
    Func,
    Extern,
    Any,
    NoneType,
    NoExtern,
    NoFunc,
    Eq,
    Struct,
    Array,
    I31,
    Indexed(u32),
}

/// A reference type.
#[derive(Clone, Copy, Debug, PartialEq, Eq, Structural)]
pub struct RefType {
    pub nullable: bool,
    pub heap_type: HeapType,
}

/// A value type.
#[derive(Clone, Copy, Debug, PartialEq, Eq, Structural)]
pub enum ValType {
    I32,
    I64,
    F32,
    F64,
    V128,
    Ref(RefType),
}

/// The type of an array element.
#[derive(Clone, Copy, Debug, PartialEq, Eq, Structural)]
pub enum StorageType {
    I8,
    I16,
    Val(ValType),
}

/// The kind of a tag.
#[derive(Clone, Copy, Debug, PartialEq, Eq, Structural)]
pub enum TagKind {
    Exception,
}

/// What an export refers to.
#[derive(Clone, Copy, Debug, PartialEq, Eq, Structural)]
pub enum ExternalKind {
    Func,
    Table,
    Memory,
    Global,
    Tag,
}

/// A table type as read.
#[derive(Clone, Copy, Debug, PartialEq, Eq, Structural)]
pub struct TableType {
    pub element_type: RefType,
    pub initial: u32,
    pub maximum: Option<u32>,
}

/// A memory type as read.
#[derive(Clone, Copy, Debug, PartialEq, Eq, Structural)]
pub struct MemoryType {
    pub initial: u64,
    pub maximum: Option<u64>,
    pub memory64: bool,
    pub shared: bool,
}

/// A global type as read.
#[derive(Clone, Copy, Debug, PartialEq, Eq, Structural)]
pub struct GlobalType {
    pub content_type: ValType,
    pub mutable: bool,
}

/// A tag type.
#[derive(Clone, Copy, Debug, PartialEq, Eq, Structural)]
pub struct TagType {
    pub kind: TagKind,
    pub func_type_idx: u32,
}

/// The type of an imported item.
#[derive(Clone, Copy, Debug, PartialEq, Eq, Structural)]
pub enum TypeRef {
    Func(u32),
    Table(TableType),
    Memory(MemoryType),
    Global(GlobalType),
    Tag(TagType),
}

/// An entry of the type section.
#[derive(Clone, Debug, PartialEq, Eq)]
pub enum Type {
    Func { params: Vec<ValType>, results: Vec<ValType> },
    Array { element_type: StorageType, mutable: bool },
}

/// An import entry.
#[derive(Clone, Debug, PartialEq, Eq)]
pub struct Import {
    pub module: String,
    pub name: String,
    pub ty: TypeRef,
}

/// An export entry.
#[derive(Clone, Debug, PartialEq, Eq)]
pub struct Export {
    pub name: String,
    pub kind: ExternalKind,
    pub index: u32,
}

/// A constant expression as read: its instruction bytes, the final `end`
/// opcode included.
#[derive(Clone, Debug, PartialEq, Eq)]
pub struct ConstExpr {
    pub bytes: Vec<u8>,
}

/// A global: its type and its initializer.
#[derive(Clone, Debug, PartialEq, Eq)]
pub struct Global {
    pub ty: GlobalType,
    pub init_expr: ConstExpr,
}

/// How an element segment is placed.
#[derive(Clone, Debug, PartialEq, Eq)]
pub enum ElementKind {
    Passive,
    Active { table_index: Option<u32>, offset_expr: ConstExpr },
    Declared,
}

/// What an element segment holds.
#[derive(Clone, Debug, PartialEq, Eq)]
pub enum ElementItems {
    Functions(Vec<u32>),
    Expressions(Vec<ConstExpr>),
}

/// An element segment as read.
#[derive(Clone, Debug, PartialEq, Eq)]
pub struct Element {
    pub kind: ElementKind,
    pub ty: RefType,
    pub items: ElementItems,
}

/// How a data segment is placed.
#[derive(Clone, Debug, PartialEq, Eq)]
pub enum DataKind {
    Passive,
    Active { memory_index: u32, offset_expr: ConstExpr },
}

/// A data segment as read.
#[derive(Clone, Debug, PartialEq, Eq)]
pub struct Data {
    pub kind: DataKind,
    pub data: Vec<u8>,
}

/// One piece of a module, in the order of the binary.
#[derive(Clone, Debug, PartialEq, Eq)]
pub enum Payload {
    Version,
    TypeSection(Vec<Type>),
    ImportSection(Vec<Import>),
    FunctionSection(Vec<u32>),
    TableSection(Vec<TableType>),
    MemorySection(Vec<MemoryType>),
    TagSection(Vec<TagType>),
    GlobalSection(Vec<Global>),
    ExportSection(Vec<Export>),
    ElementSection(Vec<Element>),
    DataSection(Vec<Data>),
    CustomSection { name: String, data: Vec<u8> },
    CodeSectionStart { count: u32 },
    CodeSectionEntry(Vec<u8>),
    End,
    /// A section this rewriter does not handle (start, data count, an
    /// unknown id, or any section of the component model), by name.
    Unsupported(String),
}

/// A table type as written.
#[derive(Clone, Copy, Debug, PartialEq, Eq, Structural)]
pub struct OutTableType {
    pub element_type: RefType,
    pub minimum: u32,
    pub maximum: Option<u32>,
}

/// A memory type as written.
#[derive(Clone, Copy, Debug, PartialEq, Eq, Structural)]
pub struct OutMemoryType {
    pub minimum: u64,
    pub maximum: Option<u64>,
    pub memory64: bool,
    pub shared: bool,
}

/// A global type as written.
#[derive(Clone, Copy, Debug, PartialEq, Eq, Structural)]
pub struct OutGlobalType {
    pub val_type: ValType,
    pub mutable: bool,
}

/// The type of an imported item, as written.
#[derive(Clone, Copy, Debug, PartialEq, Eq, Structural)]
pub enum EntityType {
    Function(u32),
    Table(OutTableType),
    Memory(OutMemoryType),
    Global(OutGlobalType),
    Tag(TagType),
}

/// An import as written.
#[derive(Clone, Debug, PartialEq, Eq)]
pub struct OutImport {
    pub module: String,
    pub name: String,
    pub ty: EntityType,
}

/// An export as written.
#[derive(Clone, Debug, PartialEq, Eq)]
pub struct OutExport {
    pub name: String,
    pub kind: ExternalKind,
    pub index: u32,
}

/// A constant expression as written: its instruction bytes without the
/// final `end`.
#[derive(Clone, Debug, PartialEq, Eq)]
pub struct OutConstExpr {
    pub bytes: Vec<u8>,
}

/// A global as written.
#[derive(Clone, Debug, PartialEq, Eq)]
pub struct OutGlobal {
    pub ty: OutGlobalType,
    pub init_expr: OutConstExpr,
}

/// How an element segment is placed, as written.
#[derive(Clone, Debug, PartialEq, Eq)]
pub enum ElementMode {
    Passive,
    Active { table: Option<u32>, offset: OutConstExpr },
    Declared,
}

/// What an element segment holds, as written.
#[derive(Clone, Debug, PartialEq, Eq)]
pub enum Elements {
    Functions(Vec<u32>),
    Expressions(Vec<OutConstExpr>),
}

/// An element segment as written.
#[derive(Clone, Debug, PartialEq, Eq)]
pub struct ElementSegment {
    pub mode: ElementMode,
    pub element_type: RefType,
    pub elements: Elements,
}

/// A data segment as written.
#[derive(Clone, Debug, PartialEq, Eq)]
pub enum OutData {
    Passive { data: Vec<u8> },
    Active { memory_index: u32, offset: OutConstExpr, data: Vec<u8> },
}

/// A section of the output module.
#[derive(Clone, Debug, PartialEq, Eq)]
pub enum Section {
    Type(Vec<Type>),
    Import(Vec<OutImport>),
    Function(Vec<u32>),
    Table(Vec<OutTableType>),
    Memory(Vec<OutMemoryType>),
    Tag(Vec<TagType>),
    Global(Vec<OutGlobal>),
    Export(Vec<OutExport>),
    Element(Vec<ElementSegment>),
    Data(Vec<OutData>),
    Custom { name: String, data: Vec<u8> },
    /// The bodies of the functions, each as its raw bytes.
    Code(Vec<Vec<u8>>),
}

} // verus!
