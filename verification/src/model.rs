//! The identities, coordinates and result vocabulary every report of this crate is stated in.

use crate::budget::{BudgetDimension, UsageSnapshot};
use crate::text::{hex_fixed, push_char, push_hex_fixed};
use vstd::prelude::*;

verus! {


#[derive(Clone, Debug, Eq, PartialEq, Ord, PartialOrd, Hash)]
pub struct SnapshotId(pub String);

#[derive(Clone, Debug, Eq, PartialEq, Ord, PartialOrd, Hash)]
pub struct ContainerId(pub String);

/// Raw bytes whose JSON representation is an array of octets, never lossy text.
#[derive(Clone, Debug, Eq, PartialEq, Ord, PartialOrd, Hash)]
pub struct ArchiveNameBytes(pub Vec<u8>);

/// JVM Modified UTF-8 bytes, retained as supplied by a classfile.
#[derive(Clone, Debug, Eq, PartialEq, Hash)]
pub struct JvmBytes(pub Vec<u8>);

/// An owned, lossless JVM Modified UTF-8 value: the original bytes and the UTF-16 code units
/// they decode to. The escaped display is always derived and cannot be supplied independently.
#[derive(Clone, Debug, Eq, PartialEq, Hash)]
pub struct JvmString {
    raw: JvmBytes,
    utf16: Vec<u16>,
}

/// The characters one UTF-16 unit is displayed as: `\\` and `\"` for the two escaped
/// characters, the character itself for the rest of printable ASCII, and `\uXXXX` (upper-case
/// hexadecimal) for everything else.
pub open spec fn escape_unit(unit: u16) -> Seq<char> {
    if unit == 0x5c {
        seq!['\\', '\\']
    } else if unit == 0x22 {
        seq!['\\', '"']
    } else if 0x20 <= unit <= 0x7e {
        seq![unit as char]
    } else {
        seq!['\\', 'u'] + hex_fixed(unit as nat, 4)
    }
}

/// The escaped display of a sequence of UTF-16 units, unit by unit.
pub open spec fn escaped_units(units: Seq<u16>) -> Seq<char>
    decreases units.len(),
{
    if units.len() == 0 {
        Seq::empty()
    } else {
        escaped_units(units.drop_last()) + escape_unit(units.last())
    }
}

/// The unit a two-byte Modified UTF-8 sequence encodes.
pub open spec fn two_byte_unit(a: u8, b: u8) -> u16 {
    (((a & 0x1f) as u16) << 6u16) | ((b & 0x3f) as u16)
}

/// The unit a three-byte Modified UTF-8 sequence encodes.
pub open spec fn three_byte_unit(a: u8, b: u8, c: u8) -> u16 {
    (((a & 0x0f) as u16) << 12u16) | (((b & 0x3f) as u16) << 6u16) | ((c & 0x3f) as u16)
}

/// The first unit of a strict Modified UTF-8 sequence and the bytes it takes, or `None` when the
/// sequence does not start with a legal encoding: a literal NUL, a missing or malformed
/// continuation byte, an overlong form other than the two-byte NUL, or a four-byte lead.
pub open spec fn mutf8_first(s: Seq<u8>) -> Option<(u16, nat)> {
    if s.len() == 0 {
        None
    } else if 1 <= s[0] <= 0x7f {
        Some((s[0] as u16, 1))
    } else if s[0] & 0xe0 == 0xc0 {
        if s.len() < 2 || s[1] & 0xc0 != 0x80 {
            None
        } else {
            let unit = two_byte_unit(s[0], s[1]);
            if unit != 0 && unit < 0x80 {
                None
            } else {
                Some((unit, 2))
            }
        }
    } else if s[0] & 0xf0 == 0xe0 {
        if s.len() < 3 || s[1] & 0xc0 != 0x80 || s[2] & 0xc0 != 0x80 {
            None
        } else {
            let unit = three_byte_unit(s[0], s[1], s[2]);
            if unit < 0x800 {
                None
            } else {
                Some((unit, 3))
            }
        }
    } else {
        None
    }
}

/// The UTF-16 units of a strict Modified UTF-8 sequence, or `None` when any position of it is
/// not a legal encoding.
pub open spec fn mutf8_decode(s: Seq<u8>) -> Option<Seq<u16>>
    decreases s.len(),
{
    if s.len() == 0 {
        Some(Seq::empty())
    } else {
        match mutf8_first(s) {
            None => None,
            Some((unit, width)) => if width <= s.len() && width > 0 {
                match mutf8_decode(s.skip(width as int)) {
                    None => None,
                    Some(rest) => Some(seq![unit] + rest),
                }
            } else {
                None
            },
        }
    }
}

/// `prefix` in front of a decode that may have failed.
pub open spec fn prepend_units(prefix: Seq<u16>, rest: Option<Seq<u16>>) -> Option<Seq<u16>> {
    match rest {
        None => None,
        Some(r) => Some(prefix + r),
    }
}

proof fn lemma_mutf8_first_width(s: Seq<u8>)
    ensures
        mutf8_first(s) matches Some((_, w)) ==> 1 <= w <= 3 && w <= s.len(),
{
}

/// The units of `raw` when it is strict Modified UTF-8 (see [`mutf8_decode`]), `None` otherwise.
pub fn decode_valid_mutf8(raw: &[u8]) -> (r: Option<Vec<u16>>)
    ensures
        r matches Some(units) ==> mutf8_decode(raw@) == Some(units@),
        r is None ==> mutf8_decode(raw@) is None,
{
    let mut units: Vec<u16> = Vec::new();
    let mut offset: usize = 0;
    assert(raw@.skip(0) =~= raw@);
    while offset < raw.len()
        invariant
            offset <= raw.len(),
            mutf8_decode(raw@) == prepend_units(units@, mutf8_decode(raw@.skip(offset as int))),
        decreases raw.len() - offset,
    {
        let ghost rest = raw@.skip(offset as int);
        proof {
            lemma_mutf8_first_width(rest);
        }
        let first = raw[offset];
        let unit: u16;
        let width: usize;
        if 1 <= first && first <= 0x7f {
            unit = first as u16;
            width = 1;
        } else if first & 0xe0 == 0xc0 {
            if raw.len() - offset < 2 {
                return None;
            }
            let second = raw[offset + 1];
            if second & 0xc0 != 0x80 {
                return None;
            }
            let u = (((first & 0x1f) as u16) << 6u16) | ((second & 0x3f) as u16);
            assert(u == two_byte_unit(first, second));
            if u != 0 && u < 0x80 {
                return None;
            }
            unit = u;
            width = 2;
        } else if first & 0xf0 == 0xe0 {
            if raw.len() - offset < 3 {
                return None;
            }
            let second = raw[offset + 1];
            let third = raw[offset + 2];
            if second & 0xc0 != 0x80 || third & 0xc0 != 0x80 {
                return None;
            }
            let u = (((first & 0x0f) as u16) << 12u16) | (((second & 0x3f) as u16) << 6u16) | ((
            third & 0x3f) as u16);
            assert(u == three_byte_unit(first, second, third));
            if u < 0x800 {
                return None;
            }
            unit = u;
            width = 3;
        } else {
            return None;
        }
        assert(mutf8_first(rest) == Some((unit, width as nat)));
        assert(rest.skip(width as int) =~= raw@.skip((offset + width) as int));
        let ghost before = units@;
        units.push(unit);
        assert(units@ == before + seq![unit]);
        proof {
            match mutf8_decode(raw@.skip((offset + width) as int)) {
                None => {},
                Some(r) => {
                    assert(before + (seq![unit] + r) =~= units@ + r);
                },
            }
        }
        offset = offset + width;
    }
    assert(raw@.skip(offset as int) =~= Seq::<u8>::empty());
    assert(units@ + Seq::<u16>::empty() =~= units@);
    Some(units)
}

impl JvmString {
    pub closed spec fn raw_bytes(&self) -> Seq<u8> {
        self.raw.0@
    }

    pub closed spec fn units(&self) -> Seq<u16> {
        self.utf16@
    }

    pub(crate) fn from_parts(raw: Vec<u8>, utf16: Vec<u16>) -> (s: JvmString)
        ensures
            s.raw_bytes() == raw@,
            s.units() == utf16@,
    {
        JvmString { raw: JvmBytes(raw), utf16 }
    }

    pub fn raw(&self) -> (r: &JvmBytes)
        ensures
            r.0@ == self.raw_bytes(),
    {
        &self.raw
    }

    pub fn utf16(&self) -> (u: &[u16])
        ensures
            u@ == self.units(),
    {
        self.utf16.as_slice()
    }

    /// The display of the value: see [`escape_unit`].
    pub fn escaped(&self) -> (s: String)
        ensures
            s@ == escaped_units(self.units()),
    {
        let mut output = String::new();
        let mut i: usize = 0;
        while i < self.utf16.len()
            invariant
                i <= self.utf16@.len(),
                output@ == escaped_units(self.utf16@.take(i as int)),
            decreases self.utf16@.len() - i,
        {
            let unit = self.utf16[i];
            let ghost before = output@;
            if unit == 0x5c {
                push_char(&mut output, '\\');
                push_char(&mut output, '\\');
            } else if unit == 0x22 {
                push_char(&mut output, '\\');
                push_char(&mut output, '"');
            } else if 0x20 <= unit && unit <= 0x7e {
                push_char(&mut output, (unit as u8) as char);
            } else {
                push_char(&mut output, '\\');
                push_char(&mut output, 'u');
                push_hex_fixed(&mut output, unit as u64, 4);
            }
            assert(output@ =~= before + escape_unit(unit));
            assert(self.utf16@.take(i + 1).drop_last() =~= self.utf16@.take(i as int));
            i = i + 1;
        }
        assert(self.utf16@.take(i as int) =~= self.utf16@);
        output
    }

    /// The value a serialised JVM string stands for, from its three published parts: the raw
    /// bytes, their UTF-16 units and their display. `None` when the raw bytes are not valid
    /// Modified UTF-8, when the units are not the ones they decode to, or when the display is
    /// not the display of those units.
    pub fn from_wire(raw: Vec<u8>, utf16: Vec<u16>, escaped: &String) -> (r: Option<JvmString>)
        ensures
            r is Some <==> (mutf8_decode(raw@) == Some(utf16@) && escaped@ == escaped_units(utf16@)),
            r matches Some(s) ==> s.raw_bytes() == raw@ && s.units() == utf16@,
    {
        let decoded = match decode_valid_mutf8(raw.as_slice()) {
            Some(units) => units,
            None => return None,
        };
        if !same_units(decoded.as_slice(), utf16.as_slice()) {
            return None;
        }
        let value = JvmString::from_parts(raw, utf16);
        let display = value.escaped();
        if display == *escaped {
            Some(value)
        } else {
            None
        }
    }
}

/// Whether two unit sequences are the same.
fn same_units(a: &[u16], b: &[u16]) -> (r: bool)
    ensures
        r == (a@ == b@),
{
    if a.len() != b.len() {
        return false;
    }
    let mut i: usize = 0;
    while i < a.len()
        invariant
            a@.len() == b@.len(),
            i <= a@.len(),
            forall|k: int| 0 <= k < i ==> a@[k] == b@[k],
        decreases a@.len() - i,
    {
        if a[i] != b[i] {
            return false;
        }
        i = i + 1;
    }
    assert(a@ =~= b@);
    true
}

#[derive(Clone, Debug, Eq, PartialEq, Hash)]
pub struct Digest(pub String);

/// The BLAKE3 digest of `bytes`, spelled as the 64 lower-case hexadecimal digits
/// `blake3::Hash::to_hex` produces.
pub uninterp spec fn blake3_hex(bytes: Seq<u8>) -> Seq<char>;

/// The content digest of `bytes` (`blake3::hash`, then `Hash::to_hex`).
///
/// Trusted: the contract claims only that the text is the named digest of these bytes, a
/// function of the bytes alone; nothing is claimed about which text it is.
#[verifier::external_body]
pub fn content_digest(bytes: &[u8]) -> (d: Digest)
    ensures
        d.0@ == blake3_hex(bytes@),
{
    Digest(blake3::hash(bytes).to_hex().to_string())
}

#[derive(Clone, Debug, Eq, PartialEq, Hash)]
pub struct ByteSpan {
    pub start: u64,
    pub length: u64,
}

impl JvmBytes {
    /// An owned copy of the same bytes.
    pub fn duplicate(&self) -> (r: JvmBytes)
        ensures
            r.0@ == self.0@,
    {
        let mut out: Vec<u8> = Vec::new();
        let mut i: usize = 0;
        while i < self.0.len()
            invariant
                i <= self.0@.len(),
                out@ == self.0@.subrange(0, i as int),
            decreases self.0@.len() - i,
        {
            out.push(self.0[i]);
            i = i + 1;
        }
        assert(out@ =~= self.0@);
        JvmBytes(out)
    }
}

impl ByteSpan {
    pub fn new(start: u64, length: u64) -> (s: ByteSpan)
        ensures
            s == (ByteSpan { start, length }),
    {
        ByteSpan { start, length }
    }
}

} // verus!

verus! {

#[derive(Clone, Debug, Eq, PartialEq, Ord, PartialOrd, Hash)]
pub struct ContainerOriginStep {
    pub via_ordinal: u64,
    pub via_raw_name: ArchiveNameBytes,
    pub child_container: ContainerId,
}

/// One container's physical identity: the immutable snapshot plus the chain of nested entries
/// that reaches it, in derivation order.
#[derive(Clone, Debug, Eq, PartialEq, Ord, PartialOrd, Hash)]
pub struct ContainerOrigin {
    pub snapshot: SnapshotId,
    pub root_container: ContainerId,
    pub steps: Vec<ContainerOriginStep>,
}

impl ContainerOrigin {
    /// The container the origin reaches: the last step's child, or the root when there is none.
    pub open spec fn current(&self) -> ContainerId {
        if self.steps@.len() == 0 {
            self.root_container
        } else {
            self.steps@.last().child_container
        }
    }

    pub fn current_container(&self) -> (c: &ContainerId)
        ensures
            *c == self.current(),
    {
        match self.steps.last() {
            Some(step) => &step.child_container,
            None => &self.root_container,
        }
    }
}

#[derive(Clone, Debug, Eq, PartialEq, Hash)]
pub struct PhysicalEntryId {
    pub origin: ContainerOrigin,
    pub ordinal: u64,
    pub raw_name: ArchiveNameBytes,
}

impl PhysicalEntryId {
    pub fn snapshot(&self) -> (s: &SnapshotId)
        ensures
            *s == self.origin.snapshot,
    {
        &self.origin.snapshot
    }

    pub fn container(&self) -> (c: &ContainerId)
        ensures
            *c == self.origin.current(),
    {
        self.origin.current_container()
    }
}

#[derive(Clone, Debug, Eq, PartialEq, Hash)]
pub struct ClassBytesId {
    pub digest: Digest,
    pub length: u64,
}

#[derive(Clone, Debug, Eq, PartialEq, Hash)]
pub enum PhysicalVariant {
    Base,
    MultiRelease { version: u16 },
    Other { label: String },
}

/// `META-INF/versions/`, the prefix of a multi-release entry name.
pub open spec fn versions_prefix() -> Seq<u8> {
    seq![77u8, 69, 84, 65, 45, 73, 78, 70, 47, 118, 101, 114, 115, 105, 111, 110, 115, 47]
}

/// The first position at or after `from` that holds `b`, or the length when none does.
pub open spec fn find_byte(s: Seq<u8>, b: u8, from: int) -> int
    decreases s.len() - from,
{
    if from >= s.len() {
        s.len() as int
    } else if s[from] == b {
        from
    } else {
        find_byte(s, b, from + 1)
    }
}

/// Whether every byte is an ASCII digit.
pub open spec fn all_digits(s: Seq<u8>) -> bool {
    forall|i: int| 0 <= i < s.len() ==> 48 <= #[trigger] s[i] <= 57
}

/// The number a run of ASCII digits spells.
pub open spec fn digits_value(s: Seq<u8>) -> nat
    decreases s.len(),
{
    if s.len() == 0 {
        0
    } else {
        digits_value(s.drop_last()) * 10 + (s.last() - 48) as nat
    }
}

/// The syntactic variant of a container-relative raw path: `None` is the base variant,
/// `Some(Some(v))` the multi-release variant of release `v`, and `Some(None)` a name under the
/// versions prefix whose release segment is not a canonical decimal that fits `u16`.
pub open spec fn variant_of_path(raw: Seq<u8>) -> Option<Option<u16>> {
    let p = versions_prefix();
    if raw.len() < p.len() || raw.take(p.len() as int) != p {
        None
    } else {
        let rest = raw.skip(p.len() as int);
        let slash = find_byte(rest, 47u8, 0);
        if slash == rest.len() {
            None
        } else {
            let release = rest.take(slash);
            let logical = rest.skip(slash);
            if release.len() == 0 || logical.len() <= 1 || (release.len() > 1 && release[0]
                == 48u8) {
                Some(None)
            } else if !all_digits(release) || digits_value(release) > 65535 {
                Some(None)
            } else {
                Some(Some(digits_value(release) as u16))
            }
        }
    }
}

/// The variant value of [`variant_of_path`].
pub open spec fn variant_matches(v: PhysicalVariant, spec: Option<Option<u16>>) -> bool {
    match spec {
        None => v is Base,
        Some(Some(version)) => v == PhysicalVariant::MultiRelease { version },
        Some(None) => v matches PhysicalVariant::Other { label } && label@
            == "multi_release_version_unlabelled"@,
    }
}

proof fn lemma_digits_value_grows(s: Seq<u8>, i: int)
    requires
        0 <= i <= s.len(),
        all_digits(s),
    ensures
        digits_value(s.take(i)) <= digits_value(s),
    decreases s.len() - i,
{
    if i < s.len() {
        lemma_digits_value_grows(s, i + 1);
        assert(s.take(i + 1).drop_last() =~= s.take(i));
    } else {
        assert(s.take(i) =~= s);
    }
}

pub proof fn lemma_find_byte_bounds(s: Seq<u8>, b: u8, from: int)
    requires
        0 <= from <= s.len(),
    ensures
        from <= find_byte(s, b, from) <= s.len(),
        find_byte(s, b, from) < s.len() ==> s[find_byte(s, b, from)] == b,
        forall|j: int| from <= j < find_byte(s, b, from) ==> s[j] != b,
    decreases s.len() - from,
{
    if from < s.len() && s[from] != b {
        lemma_find_byte_bounds(s, b, from + 1);
    }
}

/// The ASCII decimal spelling of `n`: its digits, most significant first, with no leading zero.
pub open spec fn decimal_bytes(n: nat) -> Seq<u8>
    decreases n,
{
    if n < 10 {
        seq![(48 + n) as u8]
    } else {
        decimal_bytes(n / 10).push((48 + n % 10) as u8)
    }
}

/// The bytes of `META-INF/versions/`, spelled out.
pub open spec fn versions_directory() -> Seq<u8> {
    seq![77u8, 69, 84, 65, 45, 73, 78, 70, 47, 118, 101, 114, 115, 105, 111, 110, 115, 47]
}

/// `META-INF/versions/<n>/<path>`, with `<n>` the decimal spelling of the release.
pub open spec fn versioned_name(n: u16, path: Seq<u8>) -> Seq<u8> {
    versions_directory() + decimal_bytes(n as nat) + seq![47u8] + path
}

/// A decimal spelling is digits only, starts with a non-zero digit unless it is `0`, and spells
/// the number.
proof fn lemma_decimal_bytes(n: nat)
    ensures
        decimal_bytes(n).len() >= 1,
        all_digits(decimal_bytes(n)),
        n >= 10 ==> decimal_bytes(n)[0] != 48u8,
        digits_value(decimal_bytes(n)) == n,
    decreases n,
{
    let d = decimal_bytes(n);
    if n < 10 {
        assert(d.drop_last() =~= Seq::<u8>::empty());
        assert(d.last() == (48 + n) as u8);
        assert(digits_value(d) == digits_value(d.drop_last()) * 10 + (d.last() - 48) as nat);
    } else {
        lemma_decimal_bytes(n / 10);
        let h = decimal_bytes(n / 10);
        assert(d.drop_last() =~= h);
        assert(d.last() == (48 + n % 10) as u8);
        assert(digits_value(d) == digits_value(h) * 10 + (d.last() - 48) as nat);
        assert((n / 10) * 10 + n % 10 == n) by (nonlinear_arith);
        assert(d[0] == h[0]);
        if n / 10 < 10 {
            assert(h[0] == (48 + n / 10) as u8);
        }
        assert forall|i: int| 0 <= i < d.len() implies 48 <= #[trigger] d[i] <= 57 by {
            if i < h.len() {
                assert(d[i] == h[i]);
            }
        }
    }
}

/// The first position from `from` on that holds `b`, when the bytes before `at` do not.
proof fn lemma_find_byte_at(s: Seq<u8>, b: u8, from: int, at: int)
    requires
        0 <= from <= at < s.len(),
        s[at] == b,
        forall|i: int| from <= i < at ==> s[i] != b,
    ensures
        find_byte(s, b, from) == at,
    decreases at - from,
{
    if from < at {
        lemma_find_byte_at(s, b, from + 1, at);
    }
}

/// An entry under `META-INF/versions/` whose release directory is the decimal spelling of a
/// `u16` release `n`, and which names a non-empty path inside it, is the multi-release variant
/// of release `n`.
pub proof fn law_versioned_entry_variant(n: u16, path: Seq<u8>)
    requires
        path.len() > 0,
    ensures
        variant_of_path(versioned_name(n, path)) == Some(Some(n)),
{
    let d = decimal_bytes(n as nat);
    lemma_decimal_bytes(n as nat);
    let raw = versions_directory() + d + seq![47u8] + path;
    assert(versions_directory() =~= versions_prefix());
    assert(raw.take(18) =~= versions_prefix());
    let rest = raw.skip(18);
    assert(rest =~= d + seq![47u8] + path);
    assert(rest[d.len() as int] == 47u8);
    assert forall|i: int| 0 <= i < d.len() implies rest[i] != 47u8 by {
        assert(rest[i] == d[i]);
        assert(48 <= d[i] <= 57);
    }
    lemma_find_byte_at(rest, 47u8, 0, d.len() as int);
    assert(rest.take(d.len() as int) =~= d);
    assert(rest.skip(d.len() as int) =~= seq![47u8] + path);
    if d.len() > 1 {
        if (n as nat) < 10 {
            assert(d.len() == 1);
        }
    }
}

/// An entry whose name does not start with `META-INF/versions/` is the base variant.
pub proof fn law_unversioned_entry_variant(raw: Seq<u8>)
    requires
        !(raw.len() >= 18 && raw.take(18) == versions_directory()),
    ensures
        variant_of_path(raw) is None,
{
    assert(versions_directory() =~= versions_prefix());
}

/// Syntactic physical-variant label of a container-relative raw path: see [`variant_of_path`].
/// The label claims nothing about multi-release activation or validity.
pub fn physical_variant_for_path(raw_name: &[u8]) -> (v: PhysicalVariant)
    ensures
        variant_matches(v, variant_of_path(raw_name@)),
        !(raw_name@.len() >= 18 && raw_name@.take(18) == versions_directory()) ==> v is Base,
        forall|n: u16, path: Seq<u8>| path.len() > 0 && raw_name@ == #[trigger] versioned_name(n, path)
            ==> v == (PhysicalVariant::MultiRelease { version: n }),
{
    proof {
        if !(raw_name@.len() >= 18 && raw_name@.take(18) == versions_directory()) {
            law_unversioned_entry_variant(raw_name@);
        }
        assert forall|n: u16, path: Seq<u8>| path.len() > 0 && raw_name@ == #[trigger] versioned_name(n, path)
            implies variant_of_path(raw_name@) == Some(Some(n)) by {
            law_versioned_entry_variant(n, path);
        }
    }
    let prefix: [u8; 18] = [77u8, 69, 84, 65, 45, 73, 78, 70, 47, 118, 101, 114, 115, 105, 111, 110, 115, 47];
    assert(prefix@ =~= versions_prefix());
    if raw_name.len() < 18 {
        return PhysicalVariant::Base;
    }
    let mut i: usize = 0;
    while i < 18
        invariant
            forall|n: u16, path: Seq<u8>| path.len() > 0 && raw_name@ == #[trigger] versioned_name(n, path)
                ==> variant_of_path(raw_name@) == Some(Some(n)),
            i <= 18 <= raw_name.len(),
            prefix@ == versions_prefix(),
            forall|j: int| 0 <= j < i ==> raw_name@[j] == prefix@[j],
        decreases 18 - i,
    {
        if raw_name[i] != prefix[i] {
            assert(raw_name@.take(18)[i as int] != versions_prefix()[i as int]);
            return PhysicalVariant::Base;
        }
        i = i + 1;
    }
    assert(raw_name@.take(18) =~= versions_prefix());
    let ghost rest = raw_name@.skip(18);
    let mut slash: usize = 18;
    while slash < raw_name.len() && raw_name[slash] != 47
        invariant
            forall|n: u16, path: Seq<u8>| path.len() > 0 && raw_name@ == #[trigger] versioned_name(n, path)
                ==> variant_of_path(raw_name@) == Some(Some(n)),
            18 <= slash <= raw_name.len(),
            rest == raw_name@.skip(18),
            find_byte(rest, 47u8, 0) == find_byte(rest, 47u8, slash - 18),
        decreases raw_name.len() - slash,
    {
        slash = slash + 1;
    }
    proof {
        lemma_find_byte_bounds(rest, 47u8, 0);
        assert(find_byte(rest, 47u8, 0) == slash - 18);
    }
    if slash == raw_name.len() {
        return PhysicalVariant::Base;
    }
    let unlabelled = PhysicalVariant::Other { label: String::from_str("multi_release_version_unlabelled") };
    let release_len = slash - 18;
    let logical_len = raw_name.len() - slash;
    let ghost release = rest.take(release_len as int);
    assert(rest.skip(release_len as int).len() == logical_len);
    if release_len == 0 || logical_len <= 1 || (release_len > 1 && raw_name[18] == 48) {
        return unlabelled;
    }
    assert(rest.take(find_byte(rest, 47u8, 0)) == release);
    assert(variant_of_path(raw_name@) == if !all_digits(release) || digits_value(release) > 65535 {
        Some(None)
    } else {
        Some(Some(digits_value(release) as u16))
    });
    let mut version: u64 = 0;
    let mut k: usize = 0;
    while k < release_len
        invariant
            forall|n: u16, path: Seq<u8>| path.len() > 0 && raw_name@ == #[trigger] versioned_name(n, path)
                ==> variant_of_path(raw_name@) == Some(Some(n)),
            0 < release_len,
            variant_matches(unlabelled, Some(None)),
            variant_of_path(raw_name@) == if !all_digits(release) || digits_value(release) > 65535 {
                Some(None)
            } else {
                Some(Some(digits_value(release) as u16))
            },
            slash == 18 + release_len <= raw_name.len(),
            k <= release_len,
            release == raw_name@.skip(18).take(release_len as int),
            all_digits(release.take(k as int)),
            version == digits_value(release.take(k as int)),
            version <= 65535,
        decreases release_len - k,
    {
        let byte = raw_name[18 + k];
        assert(release[k as int] == byte);
        if byte < 48 || byte > 57 {
            assert(!all_digits(release));
            return unlabelled;
        }
        assert(release.take(k + 1).drop_last() =~= release.take(k as int));
        assert(release.take(k + 1).last() == byte);
        version = version * 10 + (byte - 48) as u64;
        assert(all_digits(release.take(k + 1)));
        if version > 65535 {
            proof {
                if all_digits(release) {
                    lemma_digits_value_grows(release, k + 1);
                }
            }
            return unlabelled;
        }
        k = k + 1;
    }
    assert(release.take(k as int) =~= release);
    PhysicalVariant::MultiRelease { version: version as u16 }
}

} // verus!

verus! {

#[derive(Clone, Debug, Eq, PartialEq, Hash)]
pub enum PhysicalClassLocation {
    StandaloneRoot { snapshot: SnapshotId },
    ArchiveEntry { entry: PhysicalEntryId },
}

impl PhysicalClassLocation {
    /// The snapshot the location is inside.
    pub open spec fn snapshot_of(&self) -> SnapshotId {
        match self {
            PhysicalClassLocation::StandaloneRoot { snapshot } => *snapshot,
            PhysicalClassLocation::ArchiveEntry { entry } => entry.origin.snapshot,
        }
    }

    pub fn snapshot(&self) -> (s: &SnapshotId)
        ensures
            *s == self.snapshot_of(),
    {
        match self {
            PhysicalClassLocation::StandaloneRoot { snapshot } => snapshot,
            PhysicalClassLocation::ArchiveEntry { entry } => entry.snapshot(),
        }
    }

    pub fn entry(&self) -> (e: Option<&PhysicalEntryId>)
        ensures
            match self {
                PhysicalClassLocation::StandaloneRoot { .. } => e is None,
                PhysicalClassLocation::ArchiveEntry { entry } => e == Some(entry),
            },
    {
        match self {
            PhysicalClassLocation::StandaloneRoot { .. } => None,
            PhysicalClassLocation::ArchiveEntry { entry } => Some(entry),
        }
    }
}

#[derive(Clone, Debug, Eq, PartialEq, Hash)]
pub struct PhysicalDefinitionId {
    pub location: PhysicalClassLocation,
    pub class_bytes: ClassBytesId,
    pub variant: PhysicalVariant,
}

impl PhysicalDefinitionId {
    pub fn snapshot(&self) -> (s: &SnapshotId)
        ensures
            *s == self.location.snapshot_of(),
    {
        self.location.snapshot()
    }

    pub fn entry(&self) -> (e: Option<&PhysicalEntryId>)
        ensures
            match self.location {
                PhysicalClassLocation::StandaloneRoot { .. } => e is None,
                PhysicalClassLocation::ArchiveEntry { entry } => e == Some(&entry),
            },
    {
        self.location.entry()
    }
}

#[derive(Clone, Debug, Eq, PartialEq, Hash)]
pub enum MemberKey {
    Field { name: JvmBytes, descriptor: JvmBytes },
    Method { name: JvmBytes, descriptor: JvmBytes },
}

#[derive(Clone, Debug, Eq, PartialEq, Hash)]
pub struct PhysicalMemberId {
    pub owner: PhysicalDefinitionId,
    pub member: MemberKey,
}

#[derive(Clone, Debug, Eq, PartialEq, Hash)]
pub struct PhysicalMethodId {
    pub owner: PhysicalDefinitionId,
    pub name: JvmBytes,
    pub descriptor: JvmBytes,
}

/// Physical anchors of one generated artifact, in generation order, each member once.
#[derive(Clone, Debug, Eq, PartialEq)]
pub struct OriginSet {
    pub members: Vec<OriginMember>,
}

#[derive(Clone, Debug, Eq, PartialEq, Hash)]
pub enum OriginMember {
    /// A whole class file, without a narrower range.
    ClassFile { definition: PhysicalDefinitionId },
    /// A byte range in a class file, in class-file coordinates.
    ClassRange { definition: PhysicalDefinitionId, span: ByteSpan },
    /// A bytecode index inside a method body.
    MethodPoint { method: PhysicalMethodId, bci: u32 },
}

/// Two origins of one container are the same chain of the same names.
pub open spec fn same_origin(a: ContainerOrigin, b: ContainerOrigin) -> bool {
    &&& a.snapshot.0@ == b.snapshot.0@
    &&& a.root_container.0@ == b.root_container.0@
    &&& a.steps@.len() == b.steps@.len()
    &&& forall|i: int| 0 <= i < a.steps@.len() ==> same_step(#[trigger] a.steps@[i], b.steps@[i])
}

/// Naming the same container is symmetric and transitive.
pub proof fn lemma_same_origin_laws(a: ContainerOrigin, b: ContainerOrigin, c: ContainerOrigin)
    ensures
        same_origin(a, a),
        same_origin(a, b) ==> same_origin(b, a),
        same_origin(a, b) && same_origin(b, c) ==> same_origin(a, c),
{
    assert forall|i: int| 0 <= i < a.steps@.len() implies same_step(#[trigger] a.steps@[i], a.steps@[i]) by {}
    if same_origin(a, b) {
        assert forall|i: int| 0 <= i < b.steps@.len() implies same_step(#[trigger] b.steps@[i], a.steps@[i]) by {
            assert(same_step(a.steps@[i], b.steps@[i]));
        }
        if same_origin(b, c) {
            assert forall|i: int| 0 <= i < a.steps@.len() implies same_step(#[trigger] a.steps@[i], c.steps@[i]) by {
                assert(same_step(a.steps@[i], b.steps@[i]));
                assert(same_step(b.steps@[i], c.steps@[i]));
            }
        }
    }
}

/// Two steps pass through the same entry into the same child container.
pub open spec fn same_step(x: ContainerOriginStep, y: ContainerOriginStep) -> bool {
    &&& x.via_ordinal == y.via_ordinal
    &&& x.via_raw_name.0@ == y.via_raw_name.0@
    &&& x.child_container.0@ == y.child_container.0@
}

pub open spec fn same_entry(a: PhysicalEntryId, b: PhysicalEntryId) -> bool {
    same_origin(a.origin, b.origin) && a.ordinal == b.ordinal && a.raw_name.0@ == b.raw_name.0@
}

pub open spec fn same_definition(a: PhysicalDefinitionId, b: PhysicalDefinitionId) -> bool {
    &&& match (a.location, b.location) {
        (
            PhysicalClassLocation::StandaloneRoot { snapshot: x },
            PhysicalClassLocation::StandaloneRoot { snapshot: y },
        ) => x.0@ == y.0@,
        (
            PhysicalClassLocation::ArchiveEntry { entry: x },
            PhysicalClassLocation::ArchiveEntry { entry: y },
        ) => same_entry(x, y),
        _ => false,
    }
    &&& a.class_bytes.digest.0@ == b.class_bytes.digest.0@
    &&& a.class_bytes.length == b.class_bytes.length
    &&& match (a.variant, b.variant) {
        (PhysicalVariant::Base, PhysicalVariant::Base) => true,
        (
            PhysicalVariant::MultiRelease { version: x },
            PhysicalVariant::MultiRelease { version: y },
        ) => x == y,
        (PhysicalVariant::Other { label: x }, PhysicalVariant::Other { label: y }) => x@ == y@,
        _ => false,
    }
}

/// Two origin members state the same physical coordinate.
pub open spec fn same_member(a: OriginMember, b: OriginMember) -> bool {
    match (a, b) {
        (OriginMember::ClassFile { definition: x }, OriginMember::ClassFile { definition: y }) =>
            same_definition(x, y),
        (
            OriginMember::ClassRange { definition: x, span: s },
            OriginMember::ClassRange { definition: y, span: t },
        ) => same_definition(x, y) && s == t,
        (
            OriginMember::MethodPoint { method: x, bci: i },
            OriginMember::MethodPoint { method: y, bci: j },
        ) => same_definition(x.owner, y.owner) && x.name.0@ == y.name.0@ && x.descriptor.0@
            == y.descriptor.0@ && i == j,
        _ => false,
    }
}

impl ContainerOriginStep {
    /// An owned copy of the same step.
    pub fn duplicate(&self) -> (r: ContainerOriginStep)
        ensures
            same_step(r, *self),
    {
        ContainerOriginStep {
            via_ordinal: self.via_ordinal,
            via_raw_name: ArchiveNameBytes(vstd::slice::slice_to_vec(self.via_raw_name.0.as_slice())),
            child_container: ContainerId(self.child_container.0.clone()),
        }
    }
}

impl ContainerOrigin {
    /// An owned copy of the same origin.
    pub fn duplicate(&self) -> (r: ContainerOrigin)
        ensures
            same_origin(r, *self),
            r.current().0@ == self.current().0@,
    {
        let mut steps: Vec<ContainerOriginStep> = Vec::new();
        let mut i: usize = 0;
        while i < self.steps.len()
            invariant
                i <= self.steps@.len(),
                steps@.len() == i,
                forall|k: int| 0 <= k < i ==> same_step(#[trigger] steps@[k], self.steps@[k]),
            decreases self.steps@.len() - i,
        {
            steps.push(self.steps[i].duplicate());
            i = i + 1;
        }
        ContainerOrigin {
            snapshot: SnapshotId(self.snapshot.0.clone()),
            root_container: ContainerId(self.root_container.0.clone()),
            steps,
        }
    }
}

impl PhysicalEntryId {
    /// An owned copy of the same entry identity.
    pub fn duplicate(&self) -> (r: PhysicalEntryId)
        ensures
            same_entry(r, *self),
    {
        PhysicalEntryId {
            origin: self.origin.duplicate(),
            ordinal: self.ordinal,
            raw_name: ArchiveNameBytes(vstd::slice::slice_to_vec(self.raw_name.0.as_slice())),
        }
    }
}

fn eq_bytes(a: &Vec<u8>, b: &Vec<u8>) -> (r: bool)
    ensures
        r == (a@ == b@),
{
    if a.len() != b.len() {
        return false;
    }
    let mut i: usize = 0;
    while i < a.len()
        invariant
            a@.len() == b@.len(),
            i <= a@.len(),
            forall|j: int| 0 <= j < i ==> a@[j] == b@[j],
        decreases a@.len() - i,
    {
        if a[i] != b[i] {
            return false;
        }
        i = i + 1;
    }
    assert(a@ =~= b@);
    true
}

pub fn eq_origin(a: &ContainerOrigin, b: &ContainerOrigin) -> (r: bool)
    ensures
        r == same_origin(*a, *b),
{
    let same_snapshot = a.snapshot.0 == b.snapshot.0;
    let same_root = a.root_container.0 == b.root_container.0;
    if !same_snapshot || !same_root || a.steps.len() != b.steps.len() {
        return false;
    }
    let mut i: usize = 0;
    while i < a.steps.len()
        invariant
            a.steps@.len() == b.steps@.len(),
            i <= a.steps@.len(),
            forall|j: int| 0 <= j < i ==> same_step(#[trigger] a.steps@[j], b.steps@[j]),
        decreases a.steps@.len() - i,
    {
        let x = &a.steps[i];
        let y = &b.steps[i];
        let same_name = eq_bytes(&x.via_raw_name.0, &y.via_raw_name.0);
        let same_child = x.child_container.0 == y.child_container.0;
        if x.via_ordinal != y.via_ordinal || !same_name || !same_child {
            assert(!same_step(a.steps@[i as int], b.steps@[i as int]));
            return false;
        }
        assert(same_step(a.steps@[i as int], b.steps@[i as int]));
        i = i + 1;
    }
    true
}

pub fn eq_definition(a: &PhysicalDefinitionId, b: &PhysicalDefinitionId) -> (r: bool)
    ensures
        r == same_definition(*a, *b),
{
    let location = match (&a.location, &b.location) {
        (
            PhysicalClassLocation::StandaloneRoot { snapshot: x },
            PhysicalClassLocation::StandaloneRoot { snapshot: y },
        ) => x.0 == y.0,
        (
            PhysicalClassLocation::ArchiveEntry { entry: x },
            PhysicalClassLocation::ArchiveEntry { entry: y },
        ) => eq_origin(&x.origin, &y.origin) && x.ordinal == y.ordinal && eq_bytes(
            &x.raw_name.0,
            &y.raw_name.0,
        ),
        _ => false,
    };
    let variant = match (&a.variant, &b.variant) {
        (PhysicalVariant::Base, PhysicalVariant::Base) => true,
        (
            PhysicalVariant::MultiRelease { version: x },
            PhysicalVariant::MultiRelease { version: y },
        ) => *x == *y,
        (PhysicalVariant::Other { label: x }, PhysicalVariant::Other { label: y }) => *x == *y,
        _ => false,
    };
    location && a.class_bytes.digest.0 == b.class_bytes.digest.0 && a.class_bytes.length
        == b.class_bytes.length && variant
}

fn eq_member(a: &OriginMember, b: &OriginMember) -> (r: bool)
    ensures
        r == same_member(*a, *b),
{
    match (a, b) {
        (OriginMember::ClassFile { definition: x }, OriginMember::ClassFile { definition: y }) =>
            eq_definition(x, y),
        (
            OriginMember::ClassRange { definition: x, span: s },
            OriginMember::ClassRange { definition: y, span: t },
        ) => eq_definition(x, y) && s.start == t.start && s.length == t.length,
        (
            OriginMember::MethodPoint { method: x, bci: i },
            OriginMember::MethodPoint { method: y, bci: j },
        ) => eq_definition(&x.owner, &y.owner) && eq_bytes(&x.name.0, &y.name.0) && eq_bytes(
            &x.descriptor.0,
            &y.descriptor.0,
        ) && *i == *j,
        _ => false,
    }
}

impl OriginSet {
    /// An empty set.
    pub fn new() -> (s: OriginSet)
        ensures
            s.members@.len() == 0,
    {
        OriginSet { members: Vec::new() }
    }

    /// Records one member, keeping first-appearance order and dropping exact repeats.
    pub fn insert(&mut self, member: OriginMember)
        ensures
            (exists|i: int|
                0 <= i < old(self).members@.len() && same_member(
                    #[trigger] old(self).members@[i],
                    member,
                )) ==> final(self).members@ == old(self).members@,
            (forall|i: int|
                0 <= i < old(self).members@.len() ==> !same_member(
                    #[trigger] old(self).members@[i],
                    member,
                )) ==> final(self).members@ == old(self).members@.push(member),
    {
        let mut i: usize = 0;
        while i < self.members.len()
            invariant
                i <= self.members@.len(),
                forall|j: int| 0 <= j < i ==> !same_member(#[trigger] self.members@[j], member),
            decreases self.members@.len() - i,
        {
            if eq_member(&self.members[i], &member) {
                return;
            }
            i = i + 1;
        }
        self.members.push(member);
    }

    pub fn is_empty(&self) -> (b: bool)
        ensures
            b == (self.members@.len() == 0),
    {
        self.members.len() == 0
    }
}

impl Default for OriginSet {
    fn default() -> (s: OriginSet)
        ensures
            s.members@.len() == 0,
    {
        OriginSet::new()
    }
}

#[derive(Clone, Debug, Eq, PartialEq, Hash)]
pub enum SymbolRef {
    Class { owner: JvmBytes },
    Field { owner: JvmBytes, name: JvmBytes, descriptor: JvmBytes },
    Method { owner: JvmBytes, name: JvmBytes, descriptor: JvmBytes },
}

#[derive(Clone, Debug, Eq, PartialEq, Hash)]
pub enum Location {
    Container { snapshot: SnapshotId, id: ContainerId, span: ByteSpan },
    Entry { id: PhysicalEntryId, span: ByteSpan },
    ClassOffset { definition: PhysicalDefinitionId, offset: u64 },
    Code { method: PhysicalMethodId, bci: u32 },
    Attribute { owner: PhysicalDefinitionId, path: String, span: ByteSpan },
    Resource { entry: PhysicalEntryId, span: ByteSpan },
}

#[derive(Clone, Debug, Eq, PartialEq, Hash)]
pub struct Provenance {
    pub location: Location,
}

impl Location {
    /// The one snapshot a location is inside, derived from the location itself.
    pub open spec fn snapshot_of(&self) -> SnapshotId {
        match self {
            Location::Container { snapshot, .. } => *snapshot,
            Location::Entry { id, .. } => id.origin.snapshot,
            Location::Resource { entry, .. } => entry.origin.snapshot,
            Location::ClassOffset { definition, .. } => definition.location.snapshot_of(),
            Location::Attribute { owner, .. } => owner.location.snapshot_of(),
            Location::Code { method, .. } => method.owner.location.snapshot_of(),
        }
    }

    pub fn snapshot(&self) -> (s: &SnapshotId)
        ensures
            *s == self.snapshot_of(),
    {
        match self {
            Location::Container { snapshot, .. } => snapshot,
            Location::Entry { id, .. } => id.snapshot(),
            Location::Resource { entry, .. } => entry.snapshot(),
            Location::ClassOffset { definition, .. } => definition.snapshot(),
            Location::Attribute { owner, .. } => owner.snapshot(),
            Location::Code { method, .. } => method.owner.snapshot(),
        }
    }
}

impl Provenance {
    pub fn snapshot(&self) -> (s: &SnapshotId)
        ensures
            *s == self.location.snapshot_of(),
    {
        self.location.snapshot()
    }
}

#[derive(Clone, Debug, Eq, PartialEq)]
pub struct CoverageRange {
    pub label: String,
    pub start: u64,
    pub end: u64,
}

#[derive(Clone, Copy, Debug, Eq, PartialEq)]
pub enum CoverageState {
    NotRequested,
    CompleteWithinSchema,
    Partial,
    Unknown,
}

#[derive(Clone, Debug, Eq, PartialEq)]
pub struct CoverageDimension {
    pub state: CoverageState,
    pub scanned: Vec<CoverageRange>,
    pub skipped: Vec<CoverageRange>,
    pub uninterpreted_extensions: Vec<String>,
}

impl CoverageDimension {
    /// A dimension no pass was asked for.
    pub open spec fn is_not_requested(&self) -> bool {
        self.state == CoverageState::NotRequested && self.scanned@.len() == 0 && self.skipped@.len()
            == 0 && self.uninterpreted_extensions@.len() == 0
    }

    pub fn not_requested() -> (d: CoverageDimension)
        ensures
            d.is_not_requested(),
    {
        CoverageDimension {
            state: CoverageState::NotRequested,
            scanned: Vec::new(),
            skipped: Vec::new(),
            uninterpreted_extensions: Vec::new(),
        }
    }
}

#[derive(Clone, Debug, Eq, PartialEq)]
pub struct Coverage {
    pub artifact_structural: CoverageDimension,
    pub runtime_resolution: CoverageDimension,
    pub dynamic_analysis: CoverageDimension,
}

impl Coverage {
    /// Coverage of a request that performed no pass at all: every dimension is `NotRequested`.
    pub fn not_requested() -> (c: Coverage)
        ensures
            c.artifact_structural.is_not_requested(),
            c.runtime_resolution.is_not_requested(),
            c.dynamic_analysis.is_not_requested(),
    {
        Coverage {
            artifact_structural: CoverageDimension::not_requested(),
            runtime_resolution: CoverageDimension::not_requested(),
            dynamic_analysis: CoverageDimension::not_requested(),
        }
    }
}

#[derive(Clone, Debug, Eq, PartialEq)]
pub enum TerminationReason {
    BudgetExceeded { dimension: BudgetDimension },
    Error { code: String },
    Unsupported { code: String },
}

#[derive(Clone, Debug, Eq, PartialEq)]
pub enum ExecutionReport {
    Complete { usage: UsageSnapshot },
    Partial { reason: TerminationReason, usage: UsageSnapshot },
    Cancelled { usage: UsageSnapshot },
    Failed { reason: TerminationReason, usage: UsageSnapshot },
}

#[derive(Clone, Copy, Debug, Eq, PartialEq)]
pub enum DiagnosticSeverity {
    Info,
    Warning,
    Error,
}

#[derive(Clone, Debug, Eq, PartialEq)]
pub struct Diagnostic {
    pub code: String,
    pub severity: DiagnosticSeverity,
    pub message: String,
    pub provenance: Option<Provenance>,
}

} // verus!
