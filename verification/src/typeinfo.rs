use vstd::prelude::*;
use crate::error::DwarfError;
use crate::value::{le_value, le_signed, dec_u, dec_i, decode_unsigned_le, decode_signed_le,
    format_unsigned, format_signed};
use vstd::string::StringExecFns;

verus! {

/// How a base type's bytes are to be read.
#[derive(Clone, Copy, PartialEq, Eq, Structural, Debug)]
pub enum TypeEncoding {
    Address,
    Boolean,
    Float,
    Signed,
    Unsigned,
}

/// The kind of a resolved type.
#[derive(Clone, Copy, PartialEq, Eq, Structural, Debug)]
pub enum TypeTag {
    BaseType,
    PointerType,
    ArrayType,
    StructureType,
    VoidType,
}

/// One member of a structure type: its name, its byte offset within the
/// structure's span, and its own type reference.
pub struct FieldEntry {
    pub name: String,
    pub offset: u64,
    pub type_offset: Option<u64>,
}

/// A type entry of a unit's entry tree, in plain values. Type references are
/// byte offsets into the same table, chased lazily and depth-bounded, never
/// held as live pointers: the entry tree may reference forward, backward or
/// itself.
pub enum TypeEntry {
    Base { name: String, encoding: TypeEncoding, byte_size: u64 },
    Pointer { target: Option<u64> },
    Array { element: Option<u64>, count: u64 },
    Structure { name: String, byte_size: u64, fields: Vec<FieldEntry> },
}

/// A type entry at its byte offset in the unit's entry tree.
pub struct TypeRecord {
    pub offset: u64,
    pub entry: TypeEntry,
}

/// One unit's type entries, keyed by entry-tree byte offset.
pub struct TypeTable {
    pub records: Vec<TypeRecord>,
}

/// The entry at `off`: the first record bearing that offset.
pub open spec fn spec_lookup_from(records: Seq<TypeRecord>, off: u64, from: int) -> Option<int>
    decreases records.len() - from,
{
    if from < 0 || from >= records.len() {
        None
    } else if records[from].offset == off {
        Some(from)
    } else {
        spec_lookup_from(records, off, from + 1)
    }
}

/// The number of bytes a value of the type at `off` occupies; `None` when the
/// reference cannot be resolved within `depth` chases or the size overflows.
/// A missing reference is the void type, of size zero.
pub open spec fn spec_size(records: Seq<TypeRecord>, off: Option<u64>, depth: nat) -> Option<nat>
    decreases depth,
{
    if off is None {
        Some(0)
    } else if depth == 0 {
        None
    } else {
        match spec_lookup_from(records, off->Some_0, 0) {
            None => None,
            Some(i) => match records[i].entry {
                TypeEntry::Base { byte_size, .. } => Some(byte_size as nat),
                TypeEntry::Pointer { .. } => Some(4),
                TypeEntry::Array { element, count } => match spec_size(
                    records,
                    element,
                    (depth - 1) as nat,
                ) {
                    None => None,
                    Some(s) => if count * s <= u64::MAX {
                        Some((count * s) as nat)
                    } else {
                        None
                    },
                },
                TypeEntry::Structure { byte_size, .. } => Some(byte_size as nat),
            },
        }
    }
}

/// The rendering of a value of the type at `off` over `bytes`, which start at
/// the value's location; scalars read their span as a prefix. `None` is a
/// type mismatch: an unresolvable reference, a span too short, or a floating
/// point encoding, which this engine does not format.
pub open spec fn spec_format(
    records: Seq<TypeRecord>,
    off: Option<u64>,
    bytes: Seq<u8>,
    depth: nat,
) -> Option<Seq<char>>
    decreases depth, 0nat, 0nat,
{
    if off is None {
        Some("void"@)
    } else if depth == 0 {
        None
    } else {
        match spec_lookup_from(records, off->Some_0, 0) {
            None => None,
            Some(i) => match records[i].entry {
                TypeEntry::Base { encoding, byte_size, .. } => if 1 <= byte_size <= 8
                    && byte_size <= bytes.len() {
                    let span = bytes.subrange(0, byte_size as int);
                    match encoding {
                        TypeEncoding::Signed => Some(dec_i(le_signed(span))),
                        TypeEncoding::Unsigned => Some(dec_u(le_value(span))),
                        TypeEncoding::Address => Some(dec_u(le_value(span))),
                        TypeEncoding::Boolean => if le_value(span) == 0 {
                            Some("false"@)
                        } else {
                            Some("true"@)
                        },
                        TypeEncoding::Float => None,
                    }
                } else {
                    None
                },
                TypeEntry::Pointer { .. } => if bytes.len() >= 4 {
                    Some(seq!['0', 'x'] + dec_u(le_value(bytes.subrange(0, 4))))
                } else {
                    None
                },
                TypeEntry::Array { element, count } => match spec_size(
                    records,
                    element,
                    (depth - 1) as nat,
                ) {
                    None => None,
                    Some(s) => match spec_format_array(
                        records,
                        element,
                        bytes,
                        count as nat,
                        s,
                        (depth - 1) as nat,
                    ) {
                        None => None,
                        Some(inner) => Some(seq!['['] + inner + seq![']']),
                    },
                },
                TypeEntry::Structure { ref fields, .. } => match spec_format_fields(
                    records,
                    fields@,
                    bytes,
                    (depth - 1) as nat,
                ) {
                    None => None,
                    Some(inner) => Some(seq!['{'] + inner + seq!['}']),
                },
            },
        }
    }
}

/// `count` array elements of the type at `element`, each `size` bytes into
/// the span, rendered and joined with a comma.
pub open spec fn spec_format_array(
    records: Seq<TypeRecord>,
    element: Option<u64>,
    bytes: Seq<u8>,
    count: nat,
    size: nat,
    depth: nat,
) -> Option<Seq<char>>
    decreases depth, count, 1nat,
{
    if count == 0 {
        Some(Seq::empty())
    } else {
        match spec_format(records, element, bytes, depth) {
            None => None,
            Some(v) => if count == 1 {
                Some(v)
            } else if size <= bytes.len() {
                match spec_format_array(
                    records,
                    element,
                    bytes.skip(size as int),
                    (count - 1) as nat,
                    size,
                    depth,
                ) {
                    None => None,
                    Some(rest) => Some(v + seq![',', ' '] + rest),
                }
            } else {
                None
            },
        }
    }
}

/// Structure members rendered as `name: value`, joined with a comma, each
/// value read at its member offset within the span.
pub open spec fn spec_format_fields(
    records: Seq<TypeRecord>,
    fields: Seq<FieldEntry>,
    bytes: Seq<u8>,
    depth: nat,
) -> Option<Seq<char>>
    decreases depth, fields.len(), 1nat,
{
    if fields.len() == 0 {
        Some(Seq::empty())
    } else if fields.first().offset <= bytes.len() {
        match spec_format(records, fields.first().type_offset, bytes.skip(
            fields.first().offset as int,
        ), depth) {
            None => None,
            Some(v) => {
                let head = fields.first().name@ + seq![':', ' '] + v;
                if fields.len() == 1 {
                    Some(head)
                } else {
                    match spec_format_fields(records, fields.drop_first(), bytes, depth) {
                        None => None,
                        Some(rest) => Some(head + seq![',', ' '] + rest),
                    }
                }
            },
        }
    } else {
        None
    }
}

/// Copy the span of `n` bytes starting at `start`.
fn copy_span(b: &Vec<u8>, start: usize, n: usize) -> (r: Vec<u8>)
    requires
        start + n <= b@.len(),
    ensures
        r@ == b@.subrange(start as int, start as int + n as int),
{
    let mut r: Vec<u8> = Vec::new();
    proof {
        assert(r@ =~= b@.subrange(start as int, start as int));
    }
    let blen = b.len();
    let mut k: usize = 0;
    while k < n
        invariant
            k <= n,
            start + n <= blen,
            blen == b@.len(),
            r@ == b@.subrange(start as int, start + k),
        decreases n - k,
    {
        r.push(b[start + k]);
        proof {
            assert(b@.subrange(start as int, start + k + 1) =~= b@.subrange(
                start as int,
                start + k,
            ).push(b@[start + (k as int)]));
        }
        k = k + 1;
    }
    r
}

/// The declared name of the type at `off`: the void type when there is no
/// reference, the entry's own name where it carries one, nothing for an
/// unresolvable reference or an entry without a name.
pub open spec fn spec_declared_name(records: Seq<TypeRecord>, off: Option<u64>) -> Option<Seq<char>> {
    match off {
        None => Some("void"@),
        Some(o) => match spec_lookup_from(records, o, 0) {
            None => None,
            Some(i) => match records[i].entry {
                TypeEntry::Base { name, .. } => Some(name@),
                TypeEntry::Structure { name, .. } => Some(name@),
                TypeEntry::Pointer { .. } => None,
                TypeEntry::Array { .. } => None,
            },
        },
    }
}

impl TypeTable {
    /// The declared name of the type at `off`, as `spec_declared_name` states it;
    /// `TypeMismatch` for an unresolvable reference or a nameless entry.
    pub fn declared_name(&self, off: Option<u64>) -> (r: Result<String, DwarfError>)
        ensures
            match r {
                Ok(s) => spec_declared_name(self.records@, off) == Some(s@),
                Err(e) => {
                    &&& e == DwarfError::TypeMismatch
                    &&& spec_declared_name(self.records@, off) is None
                },
            },
    {
        let o = match off {
            None => {
                return Ok(String::from_str("void"));
            },
            Some(o) => o,
        };
        match self.lookup(o) {
            None => Err(DwarfError::TypeMismatch),
            Some(e) => match e {
                TypeEntry::Base { name, .. } => Ok(name.clone()),
                TypeEntry::Structure { name, .. } => Ok(name.clone()),
                TypeEntry::Pointer { .. } => Err(DwarfError::TypeMismatch),
                TypeEntry::Array { .. } => Err(DwarfError::TypeMismatch),
            },
        }
    }

    /// The record at `off`, the first bearing that offset.
    pub fn lookup(&self, off: u64) -> (r: Option<&TypeEntry>)
        ensures
            match r {
                Some(e) => {
                    &&& spec_lookup_from(self.records@, off, 0) matches Some(i)
                    &&& *e == self.records@[i].entry
                },
                None => spec_lookup_from(self.records@, off, 0) is None,
            },
    {
        let mut k: usize = 0;
        while k < self.records.len()
            invariant
                k <= self.records@.len(),
                spec_lookup_from(self.records@, off, 0)
                    == spec_lookup_from(self.records@, off, k as int),
            decreases self.records@.len() - k,
        {
            if self.records[k].offset == off {
                return Some(&self.records[k].entry);
            }
            k = k + 1;
        }
        None
    }

    /// The byte size of the type at `off`, chased through at most `depth`
    /// references.
    pub fn type_size(&self, off: Option<u64>, depth: u64) -> (r: Option<u64>)
        ensures
            match r {
                Some(s) => spec_size(self.records@, off, depth as nat) == Some(s as nat),
                None => spec_size(self.records@, off, depth as nat) is None,
            },
        decreases depth,
    {
        let off_v = match off {
            None => {
                return Some(0);
            },
            Some(o) => o,
        };
        if depth == 0 {
            return None;
        }
        let entry = match self.lookup(off_v) {
            None => {
                return None;
            },
            Some(e) => e,
        };
        match entry {
            TypeEntry::Base { byte_size, .. } => Some(*byte_size),
            TypeEntry::Pointer { .. } => Some(4),
            TypeEntry::Array { element, count } => {
                let es = match self.type_size(*element, depth - 1) {
                    None => {
                        return None;
                    },
                    Some(s) => s,
                };
                if es == 0 {
                    Some(0)
                } else if *count <= u64::MAX / es {
                    proof {
                        assert(count * es <= u64::MAX) by (nonlinear_arith)
                            requires
                                count <= u64::MAX as int / es as int,
                                es > 0,
                        {}
                    }
                    Some(count * es)
                } else {
                    proof {
                        assert(count * es > u64::MAX) by (nonlinear_arith)
                            requires
                                count > u64::MAX as int / es as int,
                                es > 0,
                        {}
                    }
                    None
                }
            },
            TypeEntry::Structure { byte_size, .. } => Some(*byte_size),
        }
    }

    /// Render the value of the type at `off` over the bytes from `start` on.
    /// `TypeMismatch` exactly when the rendering is undefined: an
    /// unresolvable reference, a span too short for the type, or a floating
    /// point encoding, which this engine does not format.
    pub fn format_value(&self, off: Option<u64>, bytes: &Vec<u8>, start: usize, depth: u64) -> (r:
        Result<String, DwarfError>)
        requires
            start <= bytes@.len(),
        ensures
            match r {
                Ok(s) => spec_format(self.records@, off, bytes@.skip(start as int), depth as nat)
                    == Some(s@),
                Err(e) => {
                    &&& e == DwarfError::TypeMismatch
                    &&& spec_format(self.records@, off, bytes@.skip(start as int), depth as nat)
                        is None
                },
            },
        decreases depth, 0nat, 0nat,
    {
        let ghost gbytes = bytes@.skip(start as int);
        let off_v = match off {
            None => {
                return Ok(String::from_str("void"));
            },
            Some(o) => o,
        };
        if depth == 0 {
            return Err(DwarfError::TypeMismatch);
        }
        let entry = match self.lookup(off_v) {
            None => {
                return Err(DwarfError::TypeMismatch);
            },
            Some(e) => e,
        };
        let remaining = bytes.len() - start;
        match entry {
            TypeEntry::Base { encoding, byte_size, .. } => {
                if !(1 <= *byte_size && *byte_size <= 8 && *byte_size <= remaining as u64) {
                    return Err(DwarfError::TypeMismatch);
                }
                let bs = *byte_size as usize;
                let span = copy_span(bytes, start, bs);
                proof {
                    assert(span@ =~= gbytes.subrange(0, byte_size as int));
                }
                match encoding {
                    TypeEncoding::Signed => Ok(format_signed(decode_signed_le(&span))),
                    TypeEncoding::Unsigned => Ok(format_unsigned(decode_unsigned_le(&span))),
                    TypeEncoding::Address => Ok(format_unsigned(decode_unsigned_le(&span))),
                    TypeEncoding::Boolean => {
                        let v = decode_unsigned_le(&span);
                        if v == 0 {
                            Ok(String::from_str("false"))
                        } else {
                            Ok(String::from_str("true"))
                        }
                    },
                    TypeEncoding::Float => Err(DwarfError::TypeMismatch),
                }
            },
            TypeEntry::Pointer { .. } => {
                if remaining < 4 {
                    return Err(DwarfError::TypeMismatch);
                }
                let span = copy_span(bytes, start, 4);
                proof {
                    assert(span@ =~= gbytes.subrange(0, 4));
                    reveal_strlit("0x");
                }
                let mut s = String::from_str("0x");
                s.append(format_unsigned(decode_unsigned_le(&span)).as_str());
                proof {
                    assert(s@ =~= seq!['0', 'x'] + dec_u(le_value(gbytes.subrange(0, 4))));
                }
                Ok(s)
            },
            TypeEntry::Array { element, count } => {
                let es = match self.type_size(*element, depth - 1) {
                    None => {
                        return Err(DwarfError::TypeMismatch);
                    },
                    Some(s) => s,
                };
                let inner = match self.format_array(*element, bytes, start, *count, es, depth - 1) {
                    Err(e) => {
                        return Err(e);
                    },
                    Ok(s) => s,
                };
                proof {
                    reveal_strlit("[");
                    reveal_strlit("]");
                }
                let mut s = String::from_str("[");
                s.append(inner.as_str());
                s.append("]");
                proof {
                    assert(s@ =~= seq!['['] + inner@ + seq![']']);
                }
                Ok(s)
            },
            TypeEntry::Structure { fields, .. } => {
                proof {
                    assert(fields@.skip(0) =~= fields@);
                }
                let inner = match self.format_fields(fields, 0, bytes, start, depth - 1) {
                    Err(e) => {
                        return Err(e);
                    },
                    Ok(s) => s,
                };
                proof {
                    reveal_strlit("{");
                    reveal_strlit("}");
                }
                let mut s = String::from_str("{");
                s.append(inner.as_str());
                s.append("}");
                proof {
                    assert(s@ =~= seq!['{'] + inner@ + seq!['}']);
                }
                Ok(s)
            },
        }
    }

    /// Render `count` array elements, joined with a comma.
    fn format_array(
        &self,
        element: Option<u64>,
        bytes: &Vec<u8>,
        start: usize,
        count: u64,
        size: u64,
        depth: u64,
    ) -> (r: Result<String, DwarfError>)
        requires
            start <= bytes@.len(),
        ensures
            match r {
                Ok(s) => spec_format_array(
                    self.records@,
                    element,
                    bytes@.skip(start as int),
                    count as nat,
                    size as nat,
                    depth as nat,
                ) == Some(s@),
                Err(e) => {
                    &&& e == DwarfError::TypeMismatch
                    &&& spec_format_array(
                        self.records@,
                        element,
                        bytes@.skip(start as int),
                        count as nat,
                        size as nat,
                        depth as nat,
                    ) is None
                },
            },
        decreases depth, count, 1nat,
    {
        if count == 0 {
            return Ok(String::new());
        }
        let v = match self.format_value(element, bytes, start, depth) {
            Err(e) => {
                return Err(e);
            },
            Ok(s) => s,
        };
        if count == 1 {
            return Ok(v);
        }
        let remaining = bytes.len() - start;
        if size > remaining as u64 {
            return Err(DwarfError::TypeMismatch);
        }
        proof {
            assert(bytes@.skip(start as int).skip(size as int) =~= bytes@.skip(
                start + size as int,
            ));
        }
        let rest = match self.format_array(
            element,
            bytes,
            start + size as usize,
            count - 1,
            size,
            depth,
        ) {
            Err(e) => {
                return Err(e);
            },
            Ok(s) => s,
        };
        proof {
            reveal_strlit(", ");
        }
        let mut out = v;
        out.append(", ");
        out.append(rest.as_str());
        proof {
            assert(", "@ =~= seq![',', ' ']);
        }
        Ok(out)
    }

    /// Render the structure members from `idx` on, joined with a comma.
    fn format_fields(
        &self,
        fields: &Vec<FieldEntry>,
        idx: usize,
        bytes: &Vec<u8>,
        start: usize,
        depth: u64,
    ) -> (r: Result<String, DwarfError>)
        requires
            start <= bytes@.len(),
            idx <= fields@.len(),
        ensures
            match r {
                Ok(s) => spec_format_fields(
                    self.records@,
                    fields@.skip(idx as int),
                    bytes@.skip(start as int),
                    depth as nat,
                ) == Some(s@),
                Err(e) => {
                    &&& e == DwarfError::TypeMismatch
                    &&& spec_format_fields(
                        self.records@,
                        fields@.skip(idx as int),
                        bytes@.skip(start as int),
                        depth as nat,
                    ) is None
                },
            },
        decreases depth, fields@.len() - idx, 1nat,
    {
        let ghost gfields = fields@.skip(idx as int);
        if idx >= fields.len() {
            proof {
                assert(gfields.len() == 0);
            }
            return Ok(String::new());
        }
        proof {
            assert(gfields.first() == fields@[idx as int]);
            assert(gfields.drop_first() =~= fields@.skip(idx + 1));
        }
        let f = &fields[idx];
        let remaining = bytes.len() - start;
        if f.offset > remaining as u64 {
            return Err(DwarfError::TypeMismatch);
        }
        proof {
            assert(bytes@.skip(start as int).skip(f.offset as int) =~= bytes@.skip(
                start + f.offset as int,
            ));
        }
        let v = match self.format_value(f.type_offset, bytes, start + f.offset as usize, depth) {
            Err(e) => {
                return Err(e);
            },
            Ok(s) => s,
        };
        proof {
            reveal_strlit(": ");
            reveal_strlit(", ");
        }
        let mut head = f.name.clone();
        head.append(": ");
        head.append(v.as_str());
        proof {
            assert(": "@ =~= seq![':', ' ']);
            assert(", "@ =~= seq![',', ' ']);
        }
        if idx + 1 >= fields.len() {
            proof {
                assert(gfields.len() == 1);
            }
            return Ok(head);
        }
        let rest = match self.format_fields(fields, idx + 1, bytes, start, depth) {
            Err(e) => {
                return Err(e);
            },
            Ok(s) => s,
        };
        let mut out = head;
        out.append(", ");
        out.append(rest.as_str());
        Ok(out)
    }
}

} // verus!
