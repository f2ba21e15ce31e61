use shoutter_minifier::mapping::map_const_expr;
use shoutter_minifier::symbol::{minify_symbol, rewrite_module, RewriteError};
use shoutter_minifier::wasm::{
    ConstExpr, Data, DataKind, Element, ElementItems, ElementKind, ElementMode, Elements,
    EntityType, Export, ExternalKind, Global, GlobalType, HeapType, Import, MemoryType,
    OutConstExpr, OutData, OutExport, OutGlobalType, OutImport, OutMemoryType, OutTableType,
    Payload, RefType, Section, TableType, TypeRef, ValType,
};

fn s(x: &str) -> String {
    x.to_string()
}

fn memory() -> MemoryType {
    MemoryType { initial: 17, maximum: None, memory64: false, shared: false }
}

fn two_imports_module() -> Vec<Payload> {
    vec![
        Payload::Version,
        Payload::ImportSection(vec![
            Import { module: s("env"), name: s("memory"), ty: TypeRef::Memory(memory()) },
            Import { module: s("env"), name: s("abort"), ty: TypeRef::Func(0) },
        ]),
        Payload::ExportSection(vec![Export { name: s("greet"), kind: ExternalKind::Func, index: 2 }]),
        Payload::End,
    ]
}

const GLUE: &str = "imports.env = {};\nimports.env.abort = f;\nimports.env.memory = m;\nwasm.greet();\n";

#[test]
fn two_imports_same_module() {
    let out = minify_symbol(&two_imports_module(), GLUE).unwrap();
    let mem = OutMemoryType { minimum: 17, maximum: None, memory64: false, shared: false };
    assert_eq!(
        out.sections,
        vec![
            Section::Import(vec![
                OutImport { module: s("a"), name: s("a"), ty: EntityType::Memory(mem) },
                OutImport { module: s("a"), name: s("b"), ty: EntityType::Function(0) },
            ]),
            Section::Export(vec![OutExport { name: s("a"), kind: ExternalKind::Func, index: 2 }]),
        ]
    );
    assert_eq!(out.js, "imports.a = {};\nimports.a.b = f;\nimports.a.a = m;\nwasm.a();\n");
}

#[test]
fn repeated_import_keeps_its_rename() {
    let ps = vec![
        Payload::ImportSection(vec![
            Import { module: s("env"), name: s("f"), ty: TypeRef::Func(0) },
            Import { module: s("wbg"), name: s("f"), ty: TypeRef::Func(1) },
            Import { module: s("env"), name: s("f"), ty: TypeRef::Func(2) },
        ]),
    ];
    let out = rewrite_module(&ps).unwrap();
    match &out.sections[0] {
        Section::Import(v) => {
            let names: Vec<(String, String)> =
                v.iter().map(|i| (i.module.clone(), i.name.clone())).collect();
            assert_eq!(
                names,
                vec![(s("a"), s("a")), (s("b"), s("b")), (s("a"), s("a"))]
            );
        }
        other => panic!("unexpected section {other:?}"),
    }
}

#[test]
fn second_run_leaves_glue_unchanged() {
    let first = minify_symbol(&two_imports_module(), GLUE).unwrap();
    let again = vec![
        Payload::ImportSection(vec![
            Import { module: s("a"), name: s("a"), ty: TypeRef::Memory(memory()) },
            Import { module: s("a"), name: s("b"), ty: TypeRef::Func(0) },
        ]),
        Payload::ExportSection(vec![Export { name: s("a"), kind: ExternalKind::Func, index: 2 }]),
    ];
    let second = minify_symbol(&again, &first.js).unwrap();
    assert_eq!(second.js, first.js);
}

#[test]
fn code_section_accounting() {
    let bodies = vec![vec![0u8, 0x0b], vec![1u8, 0x7f, 0x20, 0x00, 0x0b], vec![0u8, 0x01, 0x0b]];
    let mut ps = vec![Payload::CodeSectionStart { count: 3 }];
    for b in &bodies {
        ps.push(Payload::CodeSectionEntry(b.clone()));
    }
    let out = rewrite_module(&ps).unwrap();
    assert_eq!(out.sections, vec![Section::Code(bodies.clone())]);

    let truncated = vec![
        Payload::CodeSectionStart { count: 3 },
        Payload::CodeSectionEntry(bodies[0].clone()),
        Payload::CodeSectionEntry(bodies[1].clone()),
    ];
    assert_eq!(rewrite_module(&truncated).err(), Some(RewriteError::Integrity));
}

#[test]
fn code_entry_without_start_fails() {
    let ps = vec![Payload::CodeSectionEntry(vec![0, 0x0b])];
    assert_eq!(rewrite_module(&ps).err(), Some(RewriteError::Integrity));
}

#[test]
fn code_section_restarted_fails() {
    let ps = vec![
        Payload::CodeSectionStart { count: 1 },
        Payload::CodeSectionStart { count: 1 },
    ];
    assert_eq!(rewrite_module(&ps).err(), Some(RewriteError::Integrity));
}

#[test]
fn empty_code_section() {
    let ps = vec![Payload::CodeSectionStart { count: 0 }];
    let out = rewrite_module(&ps).unwrap();
    assert_eq!(out.sections, vec![Section::Code(vec![])]);
}

#[test]
fn element_section_active_mode() {
    let funcref = RefType { nullable: true, heap_type: HeapType::Func };
    let ps = vec![Payload::ElementSection(vec![Element {
        kind: ElementKind::Active {
            table_index: Some(0),
            offset_expr: ConstExpr { bytes: vec![0x41, 0x00, 0x0b] },
        },
        ty: funcref,
        items: ElementItems::Functions(vec![1, 2, 3]),
    }])];
    let out = rewrite_module(&ps).unwrap();
    match &out.sections[0] {
        Section::Element(v) => {
            assert_eq!(v.len(), 1);
            assert_eq!(
                v[0].mode,
                ElementMode::Active { table: Some(0), offset: OutConstExpr { bytes: vec![0x41, 0x00] } }
            );
            assert_eq!(v[0].element_type, funcref);
            assert_eq!(v[0].elements, Elements::Functions(vec![1, 2, 3]));
        }
        other => panic!("unexpected section {other:?}"),
    }
}

#[test]
fn element_expressions_and_data() {
    let funcref = RefType { nullable: true, heap_type: HeapType::Func };
    let ps = vec![
        Payload::ElementSection(vec![Element {
            kind: ElementKind::Passive,
            ty: funcref,
            items: ElementItems::Expressions(vec![ConstExpr { bytes: vec![0xd2, 0x00, 0x0b] }]),
        }]),
        Payload::DataSection(vec![
            Data { kind: DataKind::Passive, data: vec![1, 2] },
            Data {
                kind: DataKind::Active { memory_index: 0, offset_expr: ConstExpr { bytes: vec![0x41, 0x08, 0x0b] } },
                data: vec![3],
            },
        ]),
    ];
    let out = rewrite_module(&ps).unwrap();
    assert_eq!(
        out.sections[0],
        Section::Element(vec![shoutter_minifier::wasm::ElementSegment {
            mode: ElementMode::Passive,
            element_type: funcref,
            elements: Elements::Expressions(vec![OutConstExpr { bytes: vec![0xd2, 0x00] }]),
        }])
    );
    assert_eq!(
        out.sections[1],
        Section::Data(vec![
            OutData::Passive { data: vec![1, 2] },
            OutData::Active { memory_index: 0, offset: OutConstExpr { bytes: vec![0x41, 0x08] }, data: vec![3] },
        ])
    );
}

#[test]
fn tables_globals_and_custom_sections() {
    let ext = RefType { nullable: false, heap_type: HeapType::Indexed(4) };
    let ps = vec![
        Payload::TableSection(vec![TableType { element_type: ext, initial: 2, maximum: Some(9) }]),
        Payload::GlobalSection(vec![Global {
            ty: GlobalType { content_type: ValType::Ref(ext), mutable: true },
            init_expr: ConstExpr { bytes: vec![0xd0, 0x6f, 0x0b] },
        }]),
        Payload::CustomSection { name: s("name"), data: vec![9, 8, 7] },
    ];
    let out = rewrite_module(&ps).unwrap();
    assert_eq!(
        out.sections[0],
        Section::Table(vec![OutTableType { element_type: ext, minimum: 2, maximum: Some(9) }])
    );
    match &out.sections[1] {
        Section::Global(g) => {
            assert_eq!(g[0].ty, OutGlobalType { val_type: ValType::Ref(ext), mutable: true });
            assert_eq!(g[0].init_expr.bytes, vec![0xd0, 0x6f]);
        }
        other => panic!("unexpected section {other:?}"),
    }
    assert_eq!(out.sections[2], Section::Custom { name: s("name"), data: vec![9, 8, 7] });
}

#[test]
fn const_expr_without_end_fails() {
    assert_eq!(map_const_expr(&ConstExpr { bytes: vec![] }), None);
    let ps = vec![Payload::GlobalSection(vec![Global {
        ty: GlobalType { content_type: ValType::I32, mutable: false },
        init_expr: ConstExpr { bytes: vec![] },
    }])];
    assert_eq!(rewrite_module(&ps).err(), Some(RewriteError::Parse));
}

#[test]
fn unsupported_section_fails() {
    let ps = vec![Payload::Version, Payload::Unsupported(s("start"))];
    assert_eq!(rewrite_module(&ps).err(), Some(RewriteError::UnsupportedFeature));
}
