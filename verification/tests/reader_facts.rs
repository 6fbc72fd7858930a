use jarde_reader::attributes::{
    AttributeFacts, EnclosingMethodFacts, InnerClassFacts, ProvidesFacts, attribute_facts, bootstrap_methods,
};
use jarde_reader::budget::{Budget, Limits};
use jarde_reader::classfile::{ClassFacts, class_facts};
use jarde_reader::cpool::{CpEntryFacts, CpEntryKind, CpIndexOf, cp_class_name, cp_entry, cp_utf8};
use jarde_reader::error::Error;
use jarde_reader::header::AttributeShell;
use jarde_reader::model::{ByteSpan, JvmBytes};

fn unlimited_limits() -> Limits {
    Limits {
        input_bytes: u64::MAX,
        archive_entries: u64::MAX,
        entry_bytes: u64::MAX,
        read_bytes: u64::MAX,
        class_bytes: u64::MAX,
        attribute_bytes: u64::MAX,
        code_bytes: u64::MAX,
        result_items: u64::MAX,
        output_bytes: u64::MAX,
        class_headers: u64::MAX,
        method_bodies: u64::MAX,
        ir_items: u64::MAX,
        ir_edges: u64::MAX,
        analysis_steps: u64::MAX,
        normalization_clones: u64::MAX,
        nested_depth: u64::MAX,
        dependency_depth: u64::MAX,
        elapsed_millis: u64::MAX,
    }
}

fn budget() -> Budget {
    Budget::new(unlimited_limits())
}

/// Same as [`budget`], for call sites where a local binding shadows the name.
fn fresh_budget() -> Budget {
    budget()
}

fn buf_u16(out: &mut Vec<u8>, value: u16) {
    out.extend_from_slice(&value.to_be_bytes());
}

fn buf_u32(out: &mut Vec<u8>, value: u32) {
    out.extend_from_slice(&value.to_be_bytes());
}

fn attribute(out: &mut Vec<u8>, name_index: u16, content: &[u8]) {
    buf_u16(out, name_index);
    buf_u32(out, u32::try_from(content.len()).unwrap());
    out.extend_from_slice(content);
}

fn error_code(error: Error) -> String {
    match error {
        Error::InvalidInput { code, .. } | Error::Unsupported { code, .. } => code,
        other => panic!("expected a structured error code, got {other:?}"),
    }
}

/// One recorded constant-pool entry: index, true byte offset and width.
#[derive(Clone, Copy)]
struct CpRef {
    index: u16,
    offset: u64,
    width: u64,
}

/// Assembles a constant pool while remembering each entry's real position, so
/// span assertions come from the writer instead of from the reader.
struct CpBuilder {
    bytes: Vec<u8>,
    next_index: u16,
    entries: Vec<CpRef>,
}

impl CpBuilder {
    fn new() -> Self {
        let mut bytes = Vec::new();
        bytes.extend_from_slice(&0xcafebabe_u32.to_be_bytes());
        buf_u16(&mut bytes, 0); // minor version
        buf_u16(&mut bytes, 52); // major version
        buf_u16(&mut bytes, 0); // constant_pool_count placeholder
        Self {
            bytes,
            next_index: 1,
            entries: Vec::new(),
        }
    }

    fn start(&mut self, tag: u8, payload: impl FnOnce(&mut Vec<u8>)) -> CpRef {
        let offset = self.bytes.len() as u64;
        self.bytes.push(tag);
        payload(&mut self.bytes);
        let reference = CpRef {
            index: self.next_index,
            offset,
            width: self.bytes.len() as u64 - offset,
        };
        self.entries.push(reference);
        self.next_index += 1;
        reference
    }

    fn wide(&mut self, tag: u8, payload: impl FnOnce(&mut Vec<u8>)) -> CpRef {
        let reference = self.start(tag, payload);
        self.next_index += 1; // Long/Double reserve the following slot
        reference
    }

    fn utf8(&mut self, value: &[u8]) -> CpRef {
        self.start(1, |bytes| {
            buf_u16(bytes, u16::try_from(value.len()).unwrap());
            bytes.extend_from_slice(value);
        })
    }

    fn integer(&mut self, value: i32) -> CpRef {
        self.start(3, |bytes| bytes.extend_from_slice(&value.to_be_bytes()))
    }

    fn float(&mut self, bits: u32) -> CpRef {
        self.start(4, |bytes| buf_u32(bytes, bits))
    }

    fn long(&mut self, value: i64) -> CpRef {
        self.wide(5, |bytes| bytes.extend_from_slice(&value.to_be_bytes()))
    }

    fn double(&mut self, bits: u64) -> CpRef {
        self.wide(6, |bytes| bytes.extend_from_slice(&bits.to_be_bytes()))
    }

    fn class(&mut self, name_index: u16) -> CpRef {
        self.start(7, |bytes| buf_u16(bytes, name_index))
    }

    fn string(&mut self, utf8_index: u16) -> CpRef {
        self.start(8, |bytes| buf_u16(bytes, utf8_index))
    }

    fn member_ref(&mut self, tag: u8, class_index: u16, name_and_type_index: u16) -> CpRef {
        self.start(tag, |bytes| {
            buf_u16(bytes, class_index);
            buf_u16(bytes, name_and_type_index);
        })
    }

    fn name_and_type(&mut self, name_index: u16, descriptor_index: u16) -> CpRef {
        self.start(12, |bytes| {
            buf_u16(bytes, name_index);
            buf_u16(bytes, descriptor_index);
        })
    }

    fn method_handle(&mut self, reference_kind: u8, reference_index: u16) -> CpRef {
        self.start(15, |bytes| {
            bytes.push(reference_kind);
            buf_u16(bytes, reference_index);
        })
    }

    fn method_type(&mut self, descriptor_index: u16) -> CpRef {
        self.start(16, |bytes| buf_u16(bytes, descriptor_index))
    }

    fn dynamic(
        &mut self,
        tag: u8,
        bootstrap_method_attr_index: u16,
        name_and_type_index: u16,
    ) -> CpRef {
        self.start(tag, |bytes| {
            buf_u16(bytes, bootstrap_method_attr_index);
            buf_u16(bytes, name_and_type_index);
        })
    }

    fn module(&mut self, name_index: u16) -> CpRef {
        self.start(19, |bytes| buf_u16(bytes, name_index))
    }

    fn package(&mut self, name_index: u16) -> CpRef {
        self.start(20, |bytes| buf_u16(bytes, name_index))
    }

    fn finish(mut self) -> (Vec<u8>, Vec<CpRef>) {
        let count = self.next_index;
        self.bytes[8..10].copy_from_slice(&count.to_be_bytes());
        (self.bytes, self.entries)
    }
}

fn find_shell<'a>(shells: &'a [AttributeShell], name: &[u8]) -> &'a AttributeShell {
    shells
        .iter()
        .find(|shell| shell.name.raw().0 == name)
        .unwrap_or_else(|| panic!("no attribute shell named {name:?}"))
}

/// Index of the single constant-pool entry whose kind satisfies the predicate.
///
/// These lookups only produce a handle; index assignment and spans are
/// asserted against the builder's recorded positions, not against the reader.
fn only_of(facts: &ClassFacts, matches: impl Fn(&CpEntryKind) -> bool) -> u16 {
    facts
        .constant_pool
        .iter()
        .find(|entry| matches(&entry.kind))
        .map(|entry| entry.index)
        .expect("a constant-pool entry with the requested kind")
}

fn i_seven_index(facts: &ClassFacts) -> u16 {
    only_of(facts, |kind| matches!(kind, CpEntryKind::Integer { .. }))
}

fn float_index(facts: &ClassFacts) -> u16 {
    only_of(facts, |kind| matches!(kind, CpEntryKind::Float { .. }))
}

fn long_index(facts: &ClassFacts) -> u16 {
    only_of(facts, |kind| matches!(kind, CpEntryKind::Long { .. }))
}

fn double_index(facts: &ClassFacts) -> u16 {
    only_of(facts, |kind| matches!(kind, CpEntryKind::Double { .. }))
}

fn string_entry(facts: &ClassFacts) -> u16 {
    only_of(facts, |kind| matches!(kind, CpEntryKind::String { .. }))
}

fn field_ref_entry(facts: &ClassFacts) -> u16 {
    only_of(facts, |kind| matches!(kind, CpEntryKind::FieldRef { .. }))
}

fn method_ref_entry(facts: &ClassFacts) -> u16 {
    only_of(facts, |kind| matches!(kind, CpEntryKind::MethodRef { .. }))
}

fn interface_method_ref_entry(facts: &ClassFacts) -> u16 {
    only_of(facts, |kind| {
        matches!(kind, CpEntryKind::InterfaceMethodRef { .. })
    })
}

fn method_handle_entry(facts: &ClassFacts) -> u16 {
    only_of(facts, |kind| {
        matches!(kind, CpEntryKind::MethodHandle { .. })
    })
}

fn method_type_entry(facts: &ClassFacts) -> u16 {
    only_of(facts, |kind| matches!(kind, CpEntryKind::MethodType { .. }))
}

fn dynamic_entry(facts: &ClassFacts) -> u16 {
    only_of(facts, |kind| matches!(kind, CpEntryKind::Dynamic { .. }))
}

fn invoke_dynamic_entry(facts: &ClassFacts) -> u16 {
    only_of(facts, |kind| {
        matches!(kind, CpEntryKind::InvokeDynamic { .. })
    })
}

fn module_entry(facts: &ClassFacts) -> u16 {
    only_of(facts, |kind| matches!(kind, CpEntryKind::Module { .. }))
}

fn package_entry(facts: &ClassFacts) -> u16 {
    only_of(facts, |kind| matches!(kind, CpEntryKind::Package { .. }))
}

fn bootstrap_handle_index(facts: &ClassFacts) -> u16 {
    method_handle_entry(facts)
}

fn l_minus_two_slot(facts: &ClassFacts) -> u16 {
    long_index(facts) + 1
}

fn class_entry_for(facts: &ClassFacts, name: &[u8]) -> u16 {
    only_of(
        facts,
        |kind| matches!(kind, CpEntryKind::Class { name: value, .. } if value.0 == name),
    )
}

fn index_of_utf8(facts: &ClassFacts, value: &[u8]) -> u16 {
    only_of(
        facts,
        |kind| matches!(kind, CpEntryKind::Utf8 { bytes } if bytes.0 == value),
    )
}

fn index_of_nat(facts: &ClassFacts, name: &[u8], descriptor: &[u8]) -> u16 {
    only_of(facts, |kind| {
        matches!(
            kind,
            CpEntryKind::NameAndType { name: n, descriptor: d, .. }
                if n.0 == name && d.0 == descriptor
        )
    })
}

fn nat_vf_index(facts: &ClassFacts) -> u16 {
    index_of_nat(facts, b"vf", b"I")
}

fn nat_run_index(facts: &ClassFacts) -> u16 {
    index_of_nat(facts, b"run", b"()V")
}

fn nat_indy_index(facts: &ClassFacts) -> u16 {
    index_of_nat(facts, b"indy", b"()Ljava/lang/Runnable;")
}

/// Constant-pool slot of the `MethodType` entry built by `bootstrap_class`.
fn method_type_index() -> u16 {
    3
}

/// A minimal class whose only class attribute is `BootstrapMethods`, with the
/// content the caller writes.
///
/// Slots: 1 `Utf8 "BootstrapMethods"`, 2 `Utf8 "()V"`, 3 `MethodType #2`,
/// 4 `MethodHandle #3`, 5 `Utf8 "condy"`, 6 `NameAndType #5:#2`,
/// 7 `Utf8 "pkg/C"`, 8 `Class #7`, 9 `String #5`, 10 `Integer 1`,
/// 11 `Dynamic #0.#6`.
fn bootstrap_class(
    build: impl FnOnce(&mut Vec<u8>),
) -> (Vec<u8>, AttributeShell, Vec<CpEntryFacts>) {
    let mut cp = CpBuilder::new();
    let a_bootstrap = cp.utf8(b"BootstrapMethods");
    let u_void = cp.utf8(b"()V");
    cp.method_type(u_void.index);
    cp.method_handle(6, method_type_index());
    let u_condy = cp.utf8(b"condy");
    let nat = cp.name_and_type(u_condy.index, u_void.index);
    let u_class = cp.utf8(b"pkg/C");
    let c_class = cp.class(u_class.index);
    cp.string(u_condy.index);
    cp.integer(1);
    cp.dynamic(17, 0, nat.index);
    let (mut bytes, _) = cp.finish();
    buf_u16(&mut bytes, 0x0021);
    buf_u16(&mut bytes, c_class.index);
    buf_u16(&mut bytes, c_class.index);
    buf_u16(&mut bytes, 0); // interfaces
    buf_u16(&mut bytes, 0); // fields
    buf_u16(&mut bytes, 0); // methods
    buf_u16(&mut bytes, 1); // class attributes
    let mut content = Vec::new();
    build(&mut content);
    attribute(&mut bytes, a_bootstrap.index, &content);

    let mut budget = budget();
    let facts = class_facts(&bytes, &mut budget).expect("the bootstrap fixture is decodable");
    let shell = find_shell(&facts.attributes, b"BootstrapMethods").clone();
    (bytes, shell, facts.constant_pool)
}

/// A structural catalog, not a legal classfile: it carries every constant-pool
/// tag plus the simple attributes this layer reads, including a `Module`
/// attribute and bootstrap sites, which no real single class combines. The
/// reader validates structure, never JVMS co-occurrence rules.
fn catalog_class() -> (Vec<u8>, Vec<CpRef>) {
    let mut cp = CpBuilder::new();
    let u_catalog = cp.utf8(b"pkg/Catalog");
    let c_catalog = cp.class(u_catalog.index);
    let u_object = cp.utf8(b"java/lang/Object");
    let c_object = cp.class(u_object.index);
    let u_runnable = cp.utf8(b"java/lang/Runnable");
    let c_runnable = cp.class(u_runnable.index);
    let u_field = cp.utf8(b"field");
    let u_int = cp.utf8(b"I");
    let u_const = cp.utf8(b"CONST");
    let u_string = cp.utf8(b"Ljava/lang/String;");
    let s_value = cp.string(u_string.index);
    let i_seven = cp.integer(7);
    let _f_nan = cp.float(0x7fc0_0001);
    let _l_minus_two = cp.long(-2);
    let _d_nan = cp.double(0x7ff8_0000_0000_0001);
    let u_method = cp.utf8(b"method");
    let u_void = cp.utf8(b"()V");
    let u_indy = cp.utf8(b"indy");
    let u_indy_descriptor = cp.utf8(b"()Ljava/lang/Runnable;");
    let nat_indy = cp.name_and_type(u_indy.index, u_indy_descriptor.index);
    let _dyn_indy = cp.dynamic(18, 0, nat_indy.index);
    let u_run = cp.utf8(b"run");
    let nat_run = cp.name_and_type(u_run.index, u_void.index);
    let u_vf = cp.utf8(b"vf");
    let nat_vf = cp.name_and_type(u_vf.index, u_int.index);
    let _fr_vf = cp.member_ref(9, c_object.index, nat_vf.index);
    let mr_run = cp.member_ref(10, c_object.index, nat_run.index);
    let _imr_run = cp.member_ref(11, c_runnable.index, nat_run.index);
    let mh_bootstrap = cp.method_handle(6, mr_run.index);
    let mt_void = cp.method_type(u_void.index);
    let dyn_condy = cp.dynamic(17, 0, nat_run.index);
    let u_package = cp.utf8(b"pkg");
    let package = cp.package(u_package.index);
    let u_module = cp.utf8(b"pkg/module");
    let module = cp.module(u_module.index);
    let a_signature = cp.utf8(b"Signature");
    let u_signature = cp.utf8(b"<T:Ljava/lang/Object;>Ljava/lang/Object;");
    let a_exceptions = cp.utf8(b"Exceptions");
    let u_exception = cp.utf8(b"java/lang/Exception");
    let c_exception = cp.class(u_exception.index);
    let a_inner_classes = cp.utf8(b"InnerClasses");
    let u_inner = cp.utf8(b"pkg/Catalog$Inner");
    let c_inner = cp.class(u_inner.index);
    let u_inner_name = cp.utf8(b"Inner");
    let a_enclosing = cp.utf8(b"EnclosingMethod");
    let a_nest_host = cp.utf8(b"NestHost");
    let u_nest = cp.utf8(b"pkg/Nest");
    let c_nest = cp.class(u_nest.index);
    let a_nest_members = cp.utf8(b"NestMembers");
    let a_permitted = cp.utf8(b"PermittedSubclasses");
    let u_sub = cp.utf8(b"pkg/Sub");
    let c_sub = cp.class(u_sub.index);
    let a_constant_value = cp.utf8(b"ConstantValue");
    let a_module = cp.utf8(b"Module");
    let u_service = cp.utf8(b"pkg/Service");
    let c_service = cp.class(u_service.index);
    let u_provider = cp.utf8(b"pkg/Provider");
    let c_provider = cp.class(u_provider.index);
    let a_bootstrap = cp.utf8(b"BootstrapMethods");
    let (mut bytes, entries) = cp.finish();

    buf_u16(&mut bytes, 0x8021); // ACC_MODULE | ACC_PUBLIC | ACC_SUPER
    buf_u16(&mut bytes, c_catalog.index);
    buf_u16(&mut bytes, c_object.index);
    buf_u16(&mut bytes, 1);
    buf_u16(&mut bytes, c_runnable.index);

    buf_u16(&mut bytes, 2); // fields
    buf_u16(&mut bytes, 0x0002);
    buf_u16(&mut bytes, u_field.index);
    buf_u16(&mut bytes, u_int.index);
    buf_u16(&mut bytes, 0);
    buf_u16(&mut bytes, 0x0018);
    buf_u16(&mut bytes, u_const.index);
    buf_u16(&mut bytes, u_string.index);
    buf_u16(&mut bytes, 1);
    let mut constant_value = Vec::new();
    buf_u16(&mut constant_value, s_value.index);
    attribute(&mut bytes, a_constant_value.index, &constant_value);

    buf_u16(&mut bytes, 1); // methods
    buf_u16(&mut bytes, 0x0401);
    buf_u16(&mut bytes, u_method.index);
    buf_u16(&mut bytes, u_void.index);
    buf_u16(&mut bytes, 2);
    let mut exceptions = Vec::new();
    buf_u16(&mut exceptions, 1);
    buf_u16(&mut exceptions, c_exception.index);
    attribute(&mut bytes, a_exceptions.index, &exceptions);
    let mut signature = Vec::new();
    buf_u16(&mut signature, u_signature.index);
    attribute(&mut bytes, a_signature.index, &signature);

    buf_u16(&mut bytes, 8); // class attributes
    attribute(&mut bytes, a_signature.index, &signature);
    let mut inner_classes = Vec::new();
    buf_u16(&mut inner_classes, 2);
    buf_u16(&mut inner_classes, c_inner.index);
    buf_u16(&mut inner_classes, c_catalog.index);
    buf_u16(&mut inner_classes, u_inner_name.index);
    buf_u16(&mut inner_classes, 0x0009);
    buf_u16(&mut inner_classes, c_catalog.index);
    buf_u16(&mut inner_classes, 0);
    buf_u16(&mut inner_classes, 0);
    buf_u16(&mut inner_classes, 0x1000);
    attribute(&mut bytes, a_inner_classes.index, &inner_classes);
    let mut enclosing = Vec::new();
    buf_u16(&mut enclosing, c_object.index);
    buf_u16(&mut enclosing, nat_run.index);
    attribute(&mut bytes, a_enclosing.index, &enclosing);
    let mut nest_host = Vec::new();
    buf_u16(&mut nest_host, c_nest.index);
    attribute(&mut bytes, a_nest_host.index, &nest_host);
    let mut nest_members = Vec::new();
    buf_u16(&mut nest_members, 1);
    buf_u16(&mut nest_members, c_inner.index);
    attribute(&mut bytes, a_nest_members.index, &nest_members);
    let mut permitted = Vec::new();
    buf_u16(&mut permitted, 1);
    buf_u16(&mut permitted, c_sub.index);
    attribute(&mut bytes, a_permitted.index, &permitted);
    let mut module_content = Vec::new();
    buf_u16(&mut module_content, module.index);
    buf_u16(&mut module_content, 0x0020);
    buf_u16(&mut module_content, 0);
    buf_u16(&mut module_content, 1); // requires
    buf_u16(&mut module_content, module.index);
    buf_u16(&mut module_content, 0x0020);
    buf_u16(&mut module_content, 0);
    buf_u16(&mut module_content, 1); // exports
    buf_u16(&mut module_content, package.index);
    buf_u16(&mut module_content, 0);
    buf_u16(&mut module_content, 1);
    buf_u16(&mut module_content, module.index);
    buf_u16(&mut module_content, 0); // opens
    buf_u16(&mut module_content, 1); // uses
    buf_u16(&mut module_content, c_service.index);
    buf_u16(&mut module_content, 1); // provides
    buf_u16(&mut module_content, c_service.index);
    buf_u16(&mut module_content, 1);
    buf_u16(&mut module_content, c_provider.index);
    attribute(&mut bytes, a_module.index, &module_content);
    let mut bootstrap = Vec::new();
    buf_u16(&mut bootstrap, 1);
    buf_u16(&mut bootstrap, mh_bootstrap.index);
    buf_u16(&mut bootstrap, 4);
    buf_u16(&mut bootstrap, mt_void.index);
    buf_u16(&mut bootstrap, dyn_condy.index);
    buf_u16(&mut bootstrap, s_value.index);
    buf_u16(&mut bootstrap, i_seven.index);
    attribute(&mut bytes, a_bootstrap.index, &bootstrap);

    (bytes, entries)
}

#[test]
fn synthetic_catalog_covers_every_constant_pool_tag_and_its_spans() {
    let (bytes, entries) = catalog_class();
    let mut budget = budget();
    let facts = class_facts(&bytes, &mut budget).unwrap();
    assert_eq!(budget.usage().class_bytes, bytes.len() as u64);
    assert_eq!(budget.usage().result_items, 0);

    // Two reserved slots for Long and Double, no gaps anywhere else.
    assert_eq!(entries.len(), 59);
    assert_eq!(facts.constant_pool.len(), entries.len());
    for (entry, reference) in facts.constant_pool.iter().zip(entries.iter()) {
        assert_eq!(entry.index, reference.index);
        assert_eq!(
            (entry.span.start, entry.span.length),
            (reference.offset, reference.width),
            "entry #{}",
            reference.index
        );
    }
    for pair in facts.constant_pool.windows(2) {
        assert_eq!(pair[0].span.start + pair[0].span.length, pair[1].span.start);
    }
    let lookup = |index: u16| cp_entry(&facts.constant_pool, index).unwrap();
    let utf8 = |index: u16| cp_utf8(&facts.constant_pool, index).unwrap();
    let class_name = |index: u16| cp_class_name(&facts.constant_pool, index).unwrap();
    let index_of = |name: &[u8]| {
        facts
            .constant_pool
            .iter()
            .find(|entry| match &entry.kind {
                CpEntryKind::Utf8 { bytes } => bytes.0 == name,
                _ => false,
            })
            .unwrap_or_else(|| panic!("no Utf8 entry for {name:?}"))
            .index
    };

    assert_eq!(facts.access_flags, 0x8021);
    assert_eq!(facts.this_class.raw().0, b"pkg/Catalog");
    assert_eq!(
        facts.super_class.as_ref().unwrap().raw().0,
        b"java/lang/Object"
    );
    assert_eq!(facts.interfaces[0].raw().0, b"java/lang/Runnable");

    let this_class = index_of(b"pkg/Catalog");
    let object = class_entry_for(&facts, b"java/lang/Object");
    let runnable = class_entry_for(&facts, b"java/lang/Runnable");
    let vf = index_of(b"vf");
    let int = index_of(b"I");
    let string = index_of(b"Ljava/lang/String;");
    let package = index_of(b"pkg");
    let module = index_of(b"pkg/module");

    assert_eq!(
        lookup(i_seven_index(&facts)).kind,
        CpEntryKind::Integer { value: 7 }
    );
    assert_eq!(
        lookup(float_index(&facts)).kind,
        CpEntryKind::Float { bits: 0x7fc0_0001 }
    );
    assert_eq!(
        lookup(long_index(&facts)).kind,
        CpEntryKind::Long { value: -2 }
    );
    assert_eq!(
        lookup(double_index(&facts)).kind,
        CpEntryKind::Double {
            bits: 0x7ff8_0000_0000_0001
        }
    );
    assert_eq!(
        lookup(string_entry(&facts)).kind,
        CpEntryKind::String {
            utf8_index: string,
            value: JvmBytes(b"Ljava/lang/String;".to_vec()),
        }
    );
    assert_eq!(
        lookup(class_entry_for(&facts, b"pkg/Catalog")).kind,
        CpEntryKind::Class {
            name_index: this_class,
            name: JvmBytes(b"pkg/Catalog".to_vec()),
        }
    );
    assert_eq!(
        lookup(field_ref_entry(&facts)).kind,
        CpEntryKind::FieldRef {
            class_index: object,
            name_and_type_index: nat_vf_index(&facts),
            owner: JvmBytes(b"java/lang/Object".to_vec()),
            name: JvmBytes(b"vf".to_vec()),
            descriptor: JvmBytes(b"I".to_vec()),
        }
    );
    assert_eq!(
        lookup(method_ref_entry(&facts)).kind,
        CpEntryKind::MethodRef {
            class_index: object,
            name_and_type_index: nat_run_index(&facts),
            owner: JvmBytes(b"java/lang/Object".to_vec()),
            name: JvmBytes(b"run".to_vec()),
            descriptor: JvmBytes(b"()V".to_vec()),
        }
    );
    assert_eq!(
        lookup(interface_method_ref_entry(&facts)).kind,
        CpEntryKind::InterfaceMethodRef {
            class_index: runnable,
            name_and_type_index: nat_run_index(&facts),
            owner: JvmBytes(b"java/lang/Runnable".to_vec()),
            name: JvmBytes(b"run".to_vec()),
            descriptor: JvmBytes(b"()V".to_vec()),
        }
    );
    assert_eq!(
        lookup(nat_vf_index(&facts)).kind,
        CpEntryKind::NameAndType {
            name_index: vf,
            descriptor_index: int,
            name: JvmBytes(b"vf".to_vec()),
            descriptor: JvmBytes(b"I".to_vec()),
        }
    );
    assert_eq!(
        lookup(method_handle_entry(&facts)).kind,
        CpEntryKind::MethodHandle {
            reference_kind: 6,
            reference_index: method_ref_entry(&facts),
        }
    );
    assert_eq!(
        lookup(method_type_entry(&facts)).kind,
        CpEntryKind::MethodType {
            descriptor_index: index_of_utf8(&facts, b"()V"),
            descriptor: JvmBytes(b"()V".to_vec()),
        }
    );
    assert_eq!(
        lookup(dynamic_entry(&facts)).kind,
        CpEntryKind::Dynamic {
            bootstrap_method_attr_index: 0,
            name_and_type_index: nat_run_index(&facts),
            name: JvmBytes(b"run".to_vec()),
            descriptor: JvmBytes(b"()V".to_vec()),
        }
    );
    assert_eq!(
        lookup(invoke_dynamic_entry(&facts)).kind,
        CpEntryKind::InvokeDynamic {
            bootstrap_method_attr_index: 0,
            name_and_type_index: nat_indy_index(&facts),
            name: JvmBytes(b"indy".to_vec()),
            descriptor: JvmBytes(b"()Ljava/lang/Runnable;".to_vec()),
        }
    );
    assert_eq!(
        lookup(module_entry(&facts)).kind,
        CpEntryKind::Module {
            name_index: module,
            name: JvmBytes(b"pkg/module".to_vec()),
        }
    );
    assert_eq!(
        lookup(package_entry(&facts)).kind,
        CpEntryKind::Package {
            name_index: package,
            name: JvmBytes(b"pkg".to_vec()),
        }
    );

    // Reserved slots hold no entry, so an index into one is not resolvable.
    assert_eq!(
        error_code(cp_entry(&facts.constant_pool, l_minus_two_slot(&facts)).unwrap_err()),
        "classfile_invalid_constant_pool_index"
    );

    // Class-index expansion goes through `CONSTANT_Class`, and the UTF-8 payload
    // is reachable by its own index; the two must agree on the same bytes.
    for name in [
        b"pkg/Catalog".as_slice(),
        b"java/lang/Object".as_slice(),
        b"java/lang/Runnable".as_slice(),
        b"pkg/Catalog$Inner".as_slice(),
        b"pkg/Nest".as_slice(),
        b"pkg/Sub".as_slice(),
        b"java/lang/Exception".as_slice(),
        b"pkg/Service".as_slice(),
        b"pkg/Provider".as_slice(),
    ] {
        assert_eq!(
            class_name(class_entry_for(&facts, name)),
            JvmBytes(name.to_vec()),
            "{name:?}"
        );
        assert_eq!(
            utf8(index_of_utf8(&facts, name)),
            JvmBytes(name.to_vec()),
            "{name:?}"
        );
    }
}

#[test]
fn synthetic_catalog_member_and_class_attributes_are_typed() {
    let (bytes, _) = catalog_class();
    let mut budget = budget();
    let facts = class_facts(&bytes, &mut budget).unwrap();

    // A field without attributes yields no facts, and an unrelated attribute
    // (`Code`) is never read.
    assert_eq!(
        attribute_facts(
            &bytes,
            &facts.fields[0].attributes,
            &facts.constant_pool,
            &mut budget
        )
        .unwrap(),
        AttributeFacts::default()
    );

    let field = attribute_facts(
        &bytes,
        &facts.fields[1].attributes,
        &facts.constant_pool,
        &mut budget,
    )
    .unwrap();
    assert_eq!(field.constant_value, Some(CpIndexOf(string_entry(&facts))));
    assert_eq!(field.signature, None);
    assert!(field.exceptions.is_empty());
    assert!(field.module.is_none());

    let method = attribute_facts(
        &bytes,
        &facts.methods[0].attributes,
        &facts.constant_pool,
        &mut budget,
    )
    .unwrap();
    assert_eq!(
        method.exceptions,
        vec![JvmBytes(b"java/lang/Exception".to_vec())]
    );
    assert_eq!(
        method.signature,
        Some(JvmBytes(
            b"<T:Ljava/lang/Object;>Ljava/lang/Object;".to_vec()
        ))
    );
    assert_eq!(method.constant_value, None);

    let class =
        attribute_facts(&bytes, &facts.attributes, &facts.constant_pool, &mut budget).unwrap();
    assert_eq!(
        class.signature,
        Some(JvmBytes(
            b"<T:Ljava/lang/Object;>Ljava/lang/Object;".to_vec()
        ))
    );
    assert_eq!(class.nest_host, Some(JvmBytes(b"pkg/Nest".to_vec())));
    assert_eq!(
        class.nest_members,
        vec![JvmBytes(b"pkg/Catalog$Inner".to_vec())]
    );
    assert_eq!(
        class.permitted_subclasses,
        vec![JvmBytes(b"pkg/Sub".to_vec())]
    );
    assert!(class.exceptions.is_empty());
    assert_eq!(class.inner_classes.len(), 2);
    assert_eq!(
        class.inner_classes[0],
        InnerClassFacts {
            class_index: class_entry_for(&facts, b"pkg/Catalog$Inner"),
            outer_class_index: class_entry_for(&facts, b"pkg/Catalog"),
            inner_name: Some(JvmBytes(b"Inner".to_vec())),
            access_flags: 0x0009,
        }
    );
    // `inner_name_index` 0 is the anonymous case and not a missing fact.
    assert_eq!(
        class.inner_classes[1],
        InnerClassFacts {
            class_index: class_entry_for(&facts, b"pkg/Catalog"),
            outer_class_index: 0,
            inner_name: None,
            access_flags: 0x1000,
        }
    );
    assert_eq!(
        class.enclosing_method,
        Some(EnclosingMethodFacts {
            class_index: class_entry_for(&facts, b"java/lang/Object"),
            method_index: nat_run_index(&facts),
        })
    );
    assert_eq!(class.constant_value, None);
    let module = class.module.expect("module facts");
    assert_eq!(module.uses, vec![JvmBytes(b"pkg/Service".to_vec())]);
    assert_eq!(
        module.provides,
        vec![ProvidesFacts {
            service: JvmBytes(b"pkg/Service".to_vec()),
            implementations: vec![JvmBytes(b"pkg/Provider".to_vec())],
        }]
    );
}

#[test]
fn bootstrap_methods_need_a_handle_and_loadable_arguments() {
    let (bytes, _) = catalog_class();
    let mut budget = budget();
    let facts = class_facts(&bytes, &mut budget).unwrap();
    let shell = find_shell(&facts.attributes, b"BootstrapMethods").clone();
    let parsed = bootstrap_methods(&bytes, &shell, &facts.constant_pool, &mut budget).unwrap();
    assert_eq!(parsed.len(), 1);
    let handle = bootstrap_handle_index(&facts);
    assert_eq!(parsed[0].method_ref, handle);
    assert_eq!(
        parsed[0].arguments,
        vec![
            method_type_entry(&facts),
            dynamic_entry(&facts),
            string_entry(&facts),
            i_seven_index(&facts),
        ]
    );
    assert_eq!(
        cp_entry(&facts.constant_pool, handle).unwrap().kind,
        CpEntryKind::MethodHandle {
            reference_kind: 6,
            reference_index: method_ref_entry(&facts),
        }
    );

    // A bootstrap handle that is not a MethodHandle, and an argument that is
    // not a loadable constant, are structured errors.
    let bad_handle = bootstrap_class(|content| {
        buf_u16(content, 1);
        buf_u16(content, method_type_index());
        buf_u16(content, 0);
    });
    assert_eq!(
        error_code(
            bootstrap_methods(
                &bad_handle.0,
                &bad_handle.1,
                &bad_handle.2,
                &mut fresh_budget()
            )
            .unwrap_err()
        ),
        "classfile_constant_pool_tag_mismatch"
    );

    let bad_argument = bootstrap_class(|content| {
        buf_u16(content, 1);
        buf_u16(content, 4);
        buf_u16(content, 1);
        buf_u16(content, 6);
    });
    assert_eq!(
        error_code(
            bootstrap_methods(
                &bad_argument.0,
                &bad_argument.1,
                &bad_argument.2,
                &mut fresh_budget()
            )
            .unwrap_err()
        ),
        "classfile_constant_pool_tag_mismatch"
    );

    // Content that declares more arguments than it holds stops structured.
    let overrun = bootstrap_class(|content| {
        buf_u16(content, 1);
        buf_u16(content, 4);
        buf_u16(content, 2);
        buf_u16(content, 8);
    });
    assert_eq!(
        error_code(
            bootstrap_methods(&overrun.0, &overrun.1, &overrun.2, &mut fresh_budget())
                .unwrap_err()
        ),
        "classfile_invalid_attribute_content"
    );

    // Trailing garbage behind a complete structure is refused as well.
    let trailing = bootstrap_class(|content| {
        buf_u16(content, 1);
        buf_u16(content, 4);
        buf_u16(content, 0);
        content.push(0);
    });
    assert_eq!(
        error_code(
            bootstrap_methods(&trailing.0, &trailing.1, &trailing.2, &mut fresh_budget())
                .unwrap_err()
        ),
        "classfile_invalid_attribute_content"
    );
}

#[test]
fn duplicate_attributes_and_attribute_structure_overruns_are_errors() {
    let (mut bytes, _) = catalog_class();
    let mut budget = budget();
    let facts = class_facts(&bytes, &mut budget).unwrap();
    let signature_shell = find_shell(&facts.attributes, b"Signature").clone();
    assert_eq!(
        error_code(
            attribute_facts(
                &bytes,
                &[signature_shell.clone(), signature_shell.clone()],
                &facts.constant_pool,
                &mut budget
            )
            .unwrap_err()
        ),
        "classfile_duplicate_attribute"
    );

    // An `Exceptions` attribute that declares more entries than it holds.
    let exceptions_name = index_of_utf8(&facts, b"Exceptions");
    let mut short_content = Vec::new();
    buf_u16(&mut short_content, 2);
    buf_u16(
        &mut short_content,
        class_entry_for(&facts, b"java/lang/Exception"),
    );
    let start = bytes.len();
    attribute(&mut bytes, exceptions_name, &short_content);
    let short_shell = AttributeShell {
        name: signature_shell.name.clone(),
        span: ByteSpan::new(start as u64, (6 + short_content.len()) as u64),
        content_span: ByteSpan::new((start + 6) as u64, short_content.len() as u64),
    };
    assert_eq!(
        error_code(
            attribute_facts(&bytes, &[short_shell], &facts.constant_pool, &mut budget)
                .unwrap_err()
        ),
        "classfile_invalid_attribute_content"
    );
}

#[test]
fn truncated_module_attribute_is_a_structured_error() {
    let (bytes, _) = catalog_class();
    let mut budget = budget();
    let facts = class_facts(&bytes, &mut budget).unwrap();

    // The cursor stops exactly at the end of a well-formed Module attribute, so
    // a truncated Module attribute is a structured error, not an empty one.
    let shell = find_shell(&facts.attributes, b"Module").clone();
    let truncated = AttributeShell {
        name: shell.name.clone(),
        span: ByteSpan::new(shell.span.start, shell.span.length - 1),
        content_span: ByteSpan::new(shell.content_span.start, shell.content_span.length - 1),
    };
    assert_eq!(
        error_code(
            attribute_facts(&bytes, &[truncated], &facts.constant_pool, &mut budget)
                .unwrap_err()
        ),
        "classfile_invalid_attribute_content"
    );
}

#[test]
fn a_repeated_bootstrap_table_stops_the_modern_pass_as_a_duplicate() {
    let (bytes, _) = catalog_class();
    let mut budget = budget();
    let mut facts = class_facts(&bytes, &mut budget).unwrap();
    let bootstrap_shell = find_shell(&facts.attributes, b"BootstrapMethods").clone();
    facts.attributes = vec![bootstrap_shell.clone(), bootstrap_shell];
    let error = jarde_reader::modern::modern_facts(&bytes, &facts, jarde_reader::version::OutputLevel::Java8, &mut budget)
        .unwrap_err();
    assert_eq!(error_code(error), "classfile_duplicate_attribute");
}
