//! Descriptor facts (JVMS 4.3): which descriptor a constant-pool entry carries, and the object
//! types a descriptor names, read by an exact grammar.

use crate::cpool::{CpEntryKind, CpKind};
use crate::error::{Error, Result, is_invalid};
use crate::model::{JvmBytes, find_byte, lemma_find_byte_bounds};
use vstd::prelude::*;

verus! {


/// Which descriptor production to accept.
#[derive(Clone, Copy, Debug, Eq, PartialEq)]
pub enum DescriptorKind {
    /// `FieldDescriptor`.
    Field,
    /// `MethodDescriptor`: parameters and result, `V` allowed.
    Method,
    /// `ReturnDescriptor`: a field type or `V`.
    Return,
}

/// A descriptor one constant-pool entry carries, with the production it belongs to.
#[derive(Clone, Debug, Eq, PartialEq)]
pub struct EntryDescriptor {
    pub descriptor: JvmBytes,
    pub kind: DescriptorKind,
}

/// The descriptor an entry of this kind carries (JVMS 4.4.9, 4.4.10): a member reference the
/// descriptor of its member, a `MethodType` and an `InvokeDynamic` a method descriptor, a
/// `Dynamic` a field descriptor, and every other kind none.
pub open spec fn carried_descriptor(k: CpKind) -> Option<(Seq<u8>, DescriptorKind)> {
    match k {
        CpKind::FieldRef { descriptor, .. } => Some((descriptor, DescriptorKind::Field)),
        CpKind::MethodRef { descriptor, .. } => Some((descriptor, DescriptorKind::Method)),
        CpKind::InterfaceMethodRef { descriptor, .. } => Some((descriptor, DescriptorKind::Method)),
        CpKind::MethodType { descriptor, .. } => Some((descriptor, DescriptorKind::Method)),
        CpKind::Dynamic { descriptor, .. } => Some((descriptor, DescriptorKind::Field)),
        CpKind::InvokeDynamic { descriptor, .. } => Some((descriptor, DescriptorKind::Method)),
        _ => None,
    }
}

/// The descriptor one constant-pool entry carries, when it carries one at all.
pub fn entry_descriptor(kind: &CpEntryKind) -> (r: Option<EntryDescriptor>)
    ensures
        carried_descriptor(kind@) is None <==> r is None,
        r matches Some(d) ==> carried_descriptor(kind@) == Some((d.descriptor.0@, d.kind)),
{
    match kind {
        CpEntryKind::FieldRef { descriptor, .. } => Some(EntryDescriptor { descriptor: descriptor.duplicate(), kind: DescriptorKind::Field }),
        CpEntryKind::MethodRef { descriptor, .. } => Some(EntryDescriptor { descriptor: descriptor.duplicate(), kind: DescriptorKind::Method }),
        CpEntryKind::InterfaceMethodRef { descriptor, .. } => Some(EntryDescriptor { descriptor: descriptor.duplicate(), kind: DescriptorKind::Method }),
        CpEntryKind::MethodType { descriptor, .. } => Some(EntryDescriptor { descriptor: descriptor.duplicate(), kind: DescriptorKind::Method }),
        CpEntryKind::Dynamic { descriptor, .. } => Some(EntryDescriptor { descriptor: descriptor.duplicate(), kind: DescriptorKind::Field }),
        CpEntryKind::InvokeDynamic { descriptor, .. } => Some(EntryDescriptor { descriptor: descriptor.duplicate(), kind: DescriptorKind::Method }),
        _ => None,
    }
}

/// The byte values of the descriptor grammar.
pub open spec fn is_base_type(b: u8) -> bool {
    b == 66 || b == 67 || b == 68 || b == 70 || b == 73 || b == 74 || b == 83 || b == 90
}

/// The names of a type list.
pub open spec fn names_of(types: Seq<JvmBytes>) -> Seq<Seq<u8>> {
    types.map_values(|t: JvmBytes| t.0@)
}

/// A name added once: a list that already holds it stays as it is.
pub open spec fn add_unique(names: Seq<Seq<u8>>, name: Seq<u8>) -> Seq<Seq<u8>> {
    if names.contains(name) {
        names
    } else {
        names.push(name)
    }
}

/// The first position at or after `at` that is not an array dimension.
pub open spec fn skip_dims(d: Seq<u8>, at: nat) -> nat
    decreases d.len() - at,
{
    if at < d.len() && d[at as int] == 91 {
        skip_dims(d, at + 1)
    } else {
        at
    }
}

proof fn lemma_skip_dims(d: Seq<u8>, at: nat)
    requires
        at <= d.len(),
    ensures
        at <= skip_dims(d, at) <= d.len(),
    decreases d.len() - at,
{
    if at < d.len() && d[at as int] == 91 {
        lemma_skip_dims(d, at + 1);
    }
}

/// One field type starting at `at`: where it ends, and the object type it names, if any.
pub open spec fn field_type(d: Seq<u8>, at: nat) -> Option<(nat, Option<Seq<u8>>)> {
    let p = skip_dims(d, at);
    if p >= d.len() {
        None
    } else if is_base_type(d[p as int]) {
        Some((p + 1, None))
    } else if d[p as int] == 76 {
        let semi = find_byte(d, 59, (p + 1) as int);
        if semi >= d.len() || semi == p + 1 {
            None
        } else {
            Some(((semi + 1) as nat, Some(d.subrange((p + 1) as int, semi))))
        }
    } else {
        None
    }
}

/// A return type: `V` or a field type.
pub open spec fn return_type(d: Seq<u8>, at: nat) -> Option<(nat, Option<Seq<u8>>)> {
    if at < d.len() && d[at as int] == 86 {
        Some((at + 1, None))
    } else {
        field_type(d, at)
    }
}

/// `names` with the object type of a parsed type added once.
pub open spec fn with_type(names: Seq<Seq<u8>>, t: Option<Seq<u8>>) -> Seq<Seq<u8>> {
    match t {
        Some(n) => add_unique(names, n),
        None => names,
    }
}

/// Parameter types from `at` up to the closing parenthesis: its position and the names.
pub open spec fn parameters(d: Seq<u8>, at: nat, names: Seq<Seq<u8>>) -> Option<(nat, Seq<Seq<u8>>)>
    decreases d.len() - at,
{
    if at < d.len() && d[at as int] == 41 {
        Some((at, names))
    } else {
        match field_type(d, at) {
            None => None,
            Some((end, t)) => if end <= at || end > d.len() {
                None
            } else {
                parameters(d, end, with_type(names, t))
            },
        }
    }
}

/// The object types a descriptor of this production names, in first-appearance order and once
/// each, or `None` when it does not parse exactly.
pub open spec fn descriptor_names(d: Seq<u8>, kind: DescriptorKind) -> Option<Seq<Seq<u8>>> {
    let parsed: Option<(nat, Seq<Seq<u8>>)> = match kind {
        DescriptorKind::Field => match field_type(d, 0) {
            None => None,
            Some((end, t)) => Some((end, with_type(Seq::empty(), t))),
        },
        DescriptorKind::Return => match return_type(d, 0) {
            None => None,
            Some((end, t)) => Some((end, with_type(Seq::empty(), t))),
        },
        DescriptorKind::Method => if d.len() > 0 && d[0] == 40 {
            match parameters(d, 1, Seq::empty()) {
                None => None,
                Some((close, names)) => match return_type(d, close + 1) {
                    None => None,
                    Some((end, t)) => Some((end, with_type(names, t))),
                },
            }
        } else {
            None
        },
    };
    match parsed {
        Some((end, names)) => if end == d.len() {
            Some(names)
        } else {
            None
        },
        None => None,
    }
}

/// Each base type of the descriptor grammar (JVMS 4.3.2): `B` byte, `C` char, `D` double,
/// `F` float, `I` int, `J` long, `S` short, `Z` boolean — is a whole field descriptor that
/// names no object type, alone, as an array element type, and as the one parameter of a method
/// returning `void`.
pub proof fn law_base_types_name_no_object(c: u8)
    requires
        c == 66u8 || c == 67u8 || c == 68u8 || c == 70u8 || c == 73u8 || c == 74u8 || c == 83u8 || c == 90u8,
    ensures
        descriptor_names(seq![c], DescriptorKind::Field) == Some(Seq::<Seq<u8>>::empty()),
        descriptor_names(seq![91u8, c], DescriptorKind::Field) == Some(Seq::<Seq<u8>>::empty()),
        descriptor_names(seq![40u8, c, 41u8, 86u8], DescriptorKind::Method) == Some(Seq::<Seq<u8>>::empty()),
{
    let d1 = seq![c];
    assert(skip_dims(d1, 0) == 0);
    let d2 = seq![91u8, c];
    assert(skip_dims(d2, 1) == 1);
    assert(skip_dims(d2, 0) == 1);
    let d3 = seq![40u8, c, 41u8, 86u8];
    assert(skip_dims(d3, 1) == 1);
    assert(field_type(d3, 1) == Some((2nat, Option::<Seq<u8>>::None)));
    assert(parameters(d3, 2, Seq::empty()) == Some((2nat, Seq::<Seq<u8>>::empty())));
    assert(parameters(d3, 1, Seq::empty()) == Some((2nat, Seq::<Seq<u8>>::empty())));
}

/// Adds an object type once per descriptor.
pub fn push_unique(types: &mut Vec<JvmBytes>, name: Vec<u8>)
    ensures
        names_of(final(types)@) == add_unique(names_of(old(types)@), name@),
{
    let mut i: usize = 0;
    while i < types.len()
        invariant
            i <= types@.len(),
            forall|j: int| 0 <= j < i ==> types@[j].0@ != name@,
        decreases types@.len() - i,
    {
        if crate::names::same_bytes(types[i].0.as_slice(), name.as_slice()) {
            assert(names_of(types@)[i as int] == name@);
            return;
        }
        i = i + 1;
    }
    assert(!names_of(types@).contains(name@)) by {
        if names_of(types@).contains(name@) {
            let j = choose|j: int| 0 <= j < names_of(types@).len() && names_of(types@)[j] == name@;
            assert(types@[j].0@ == name@);
        }
    }
    let ghost before = types@;
    types.push(JvmBytes(name));
    assert(names_of(types@) =~= names_of(before).push(name@));
}

/// `query_descriptor_malformed`.
pub open spec fn is_malformed(e: Error) -> bool {
    is_invalid(e, "query_descriptor_malformed"@)
}

/// A bounded cursor over one descriptor.
struct DescriptorReader<'a> {
    bytes: &'a [u8],
    at: usize,
}

impl<'a> DescriptorReader<'a> {
    fn new(bytes: &'a [u8]) -> (r: DescriptorReader<'a>)
        ensures
            r.bytes@ == bytes@,
            r.at == 0,
    {
        DescriptorReader { bytes, at: 0 }
    }

    fn peek(&self) -> (b: Option<u8>)
        ensures
            self.at < self.bytes@.len() ==> b == Some(self.bytes@[self.at as int]),
            self.at >= self.bytes@.len() ==> b is None,
    {
        if self.at < self.bytes.len() {
            Some(self.bytes[self.at])
        } else {
            None
        }
    }

    fn malformed(&self, message: &str) -> (e: Error)
        ensures
            is_malformed(e),
    {
        let mut m = String::from_str(message);
        m.append(" (at byte ");
        crate::text::push_decimal(&mut m, self.at as u64);
        m.append(" of the region)");
        Error::invalid_input_owned("query_descriptor_malformed", m)
    }

    fn skip_one(&mut self) -> (r: Result<()>)
        requires
            old(self).at < old(self).bytes@.len(),
        ensures
            final(self).bytes@ == old(self).bytes@,
            final(self).at == old(self).at + 1,
            r is Ok,
    {
        let n = self.bytes.len();
        self.at = self.at + 1;
        Ok(())
    }

    fn expect_byte(&mut self, expected: u8) -> (r: Result<()>)
        requires
            old(self).at <= old(self).bytes@.len(),
        ensures
            final(self).bytes@ == old(self).bytes@,
            r is Ok <==> old(self).at < old(self).bytes@.len() && old(self).bytes@[old(self).at as int] == expected,
            r is Ok ==> final(self).at == old(self).at + 1,
            r matches Err(e) ==> is_malformed(e),
    {
        let n = self.bytes.len();
        match self.peek() {
            None => Err(self.malformed("region ends before the structure does")),
            Some(found) => if found == expected {
                self.at = self.at + 1;
                Ok(())
            } else {
                Err(self.malformed("descriptor byte is not the expected one"))
            },
        }
    }

    fn expect_end(&self) -> (r: Result<()>)
        ensures
            r is Ok <==> self.at == self.bytes@.len(),
            r matches Err(e) ==> is_malformed(e),
    {
        if self.at == self.bytes.len() {
            Ok(())
        } else {
            Err(self.malformed("structure does not end at the region end"))
        }
    }

    /// One object type name, `L <internal name> ;`, starting at an `L`.
    fn object_name(&mut self) -> (r: Result<Vec<u8>>)
        requires
            old(self).at < old(self).bytes@.len(),
            old(self).bytes@[old(self).at as int] == 76,
        ensures
            final(self).bytes@ == old(self).bytes@,
            ({
                let d = old(self).bytes@;
                let semi = find_byte(d, 59, (old(self).at + 1) as int);
                if semi >= d.len() || semi == old(self).at + 1 {
                    r is Err
                } else {
                    r matches Ok(n) && n@ == d.subrange((old(self).at + 1) as int, semi) && final(self).at == semi + 1
                }
            }),
            r matches Err(e) ==> is_malformed(e),
    {
        let n = self.bytes.len();
        self.at = self.at + 1;
        let start = self.at;
        let ghost d = self.bytes@;
        while self.at < self.bytes.len() && self.bytes[self.at] != 59
            invariant
                self.bytes@ == d,
                start <= self.at <= d.len(),
                find_byte(d, 59, start as int) == find_byte(d, 59, self.at as int),
            decreases d.len() - self.at,
        {
            self.at = self.at + 1;
        }
        proof {
            lemma_find_byte_bounds(d, 59, start as int);
        }
        if start == self.at {
            return Err(self.malformed("object type name is empty"));
        }
        let name = vstd::slice::slice_to_vec(vstd::slice::slice_subrange(self.bytes, start, self.at));
        self.expect_byte(59)?;
        Ok(name)
    }
}

/// One field type, recording its object type when it has one.
fn descriptor_field_type(reader: &mut DescriptorReader, types: &mut Vec<JvmBytes>) -> (r: Result<()>)
    requires
        old(reader).at <= old(reader).bytes@.len(),
    ensures
        final(reader).bytes@ == old(reader).bytes@,
        field_type(old(reader).bytes@, old(reader).at as nat) matches Some((end, t)) ==> r is Ok
            && final(reader).at == end && names_of(final(types)@) == with_type(names_of(old(types)@), t),
        field_type(old(reader).bytes@, old(reader).at as nat) is None ==> (r matches Err(e) && is_malformed(e)),
{
    let ghost d = reader.bytes@;
    let ghost start = reader.at as nat;
    while reader.peek() == Some(91u8)
        invariant
            reader.bytes@ == d,
            start <= reader.at <= d.len(),
            skip_dims(d, start) == skip_dims(d, reader.at as nat),
            types@ == old(types)@,
        decreases d.len() - reader.at,
    {
        reader.skip_one()?;
    }
    match reader.peek() {
        Some(b) => {
            if b == 66 || b == 67 || b == 68 || b == 70 || b == 73 || b == 74 || b == 83 || b == 90 {
                reader.skip_one()
            } else if b == 76 {
                let name = reader.object_name()?;
                push_unique(types, name);
                Ok(())
            } else {
                Err(reader.malformed("descriptor component is not a field type"))
            }
        },
        None => Err(reader.malformed("descriptor component is not a field type")),
    }
}

/// `ReturnDescriptor`: `V` or a field type.
fn descriptor_return_type(reader: &mut DescriptorReader, types: &mut Vec<JvmBytes>) -> (r: Result<()>)
    requires
        old(reader).at <= old(reader).bytes@.len(),
    ensures
        final(reader).bytes@ == old(reader).bytes@,
        return_type(old(reader).bytes@, old(reader).at as nat) matches Some((end, t)) ==> r is Ok
            && final(reader).at == end && names_of(final(types)@) == with_type(names_of(old(types)@), t),
        return_type(old(reader).bytes@, old(reader).at as nat) is None ==> (r matches Err(e) && is_malformed(e)),
{
    if reader.peek() == Some(86u8) {
        reader.skip_one()?;
        return Ok(());
    }
    descriptor_field_type(reader, types)
}

/// Object types a field, method or return descriptor names, in first-appearance order and once
/// per descriptor. A descriptor that does not parse exactly is `query_descriptor_malformed`,
/// never a partial type set.
pub fn descriptor_types(descriptor: &[u8], kind: DescriptorKind) -> (r: Result<Vec<JvmBytes>>)
    ensures
        descriptor_names(descriptor@, kind) matches Some(names) ==> (r matches Ok(types) && names_of(types@) == names),
        descriptor_names(descriptor@, kind) is None ==> (r matches Err(e) && is_malformed(e)),
{
    let mut reader = DescriptorReader::new(descriptor);
    let mut types: Vec<JvmBytes> = Vec::new();
    let ghost d = descriptor@;
    assert(names_of(types@) =~= Seq::<Seq<u8>>::empty());
    match kind {
        DescriptorKind::Field => descriptor_field_type(&mut reader, &mut types)?,
        DescriptorKind::Return => descriptor_return_type(&mut reader, &mut types)?,
        DescriptorKind::Method => {
            reader.expect_byte(40)?;
            while reader.peek() != Some(41u8)
                invariant
                    reader.bytes@ == d,
                    d == descriptor@,
                    kind == DescriptorKind::Method,
                    1 <= reader.at <= d.len(),
                    d.len() > 0 && d[0] == 40,
                    parameters(d, 1, Seq::empty()) == parameters(d, reader.at as nat, names_of(types@)),
                decreases d.len() - reader.at,
            {
                proof {
                    lemma_skip_dims(d, reader.at as nat);
                    if skip_dims(d, reader.at as nat) < d.len() {
                        lemma_find_byte_bounds(d, 59, (skip_dims(d, reader.at as nat) + 1) as int);
                    }
                }
                descriptor_field_type(&mut reader, &mut types)?;
            }
            reader.expect_byte(41)?;
            descriptor_return_type(&mut reader, &mut types)?;
        },
    }
    reader.expect_end()?;
    Ok(types)
}

} // verus!
