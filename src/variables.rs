use vstd::prelude::*;

use crate::error::DebugError;
use crate::registers::{get_register_value, register_value, Registers};

verus! {

/// DWARF tag of a base type entry.
pub const DW_TAG_BASE_TYPE: u16 = 0x24;

/// DWARF tag of a subprogram (function) entry.
pub const DW_TAG_SUBPROGRAM: u16 = 0x2e;

/// DWARF tag of a variable entry.
pub const DW_TAG_VARIABLE: u16 = 0x34;

/// DWARF base type encodings that the resolver supports.
pub const DW_ATE_BOOLEAN: u8 = 0x02;

pub const DW_ATE_FLOAT: u8 = 0x04;

pub const DW_ATE_SIGNED: u8 = 0x05;

pub const DW_ATE_UNSIGNED: u8 = 0x07;

/// The primitive kinds of value a variable can have.
#[derive(Clone, Copy, Debug, PartialEq, Eq, Structural)]
pub enum BaseType {
    Boolean,
    Float,
    Signed,
    Unsigned,
}

/// Where a variable lives in the child, its kind and its size in bits.
#[derive(Clone, Copy, Debug, PartialEq, Eq, Structural)]
pub struct VariableInfo {
    pub address: u64,
    pub base_type: BaseType,
    pub size: u64,
}

/// The base type that a DWARF encoding stands for, if it is supported.
pub open spec fn base_type_of(encoding: u8) -> Option<BaseType> {
    if encoding == DW_ATE_BOOLEAN {
        Some(BaseType::Boolean)
    } else if encoding == DW_ATE_FLOAT {
        Some(BaseType::Float)
    } else if encoding == DW_ATE_SIGNED {
        Some(BaseType::Signed)
    } else if encoding == DW_ATE_UNSIGNED {
        Some(BaseType::Unsigned)
    } else {
        None
    }
}

/// Maps a DWARF base type encoding to the supported kinds.
pub fn parse_base_type(encoding: u8) -> (r: Result<BaseType, DebugError>)
    ensures
        match base_type_of(encoding) {
            Some(t) => r == Ok::<BaseType, DebugError>(t),
            None => r == Err::<BaseType, DebugError>(DebugError::UnsupportedBaseType),
        },
{
    if encoding == DW_ATE_BOOLEAN {
        Ok(BaseType::Boolean)
    } else if encoding == DW_ATE_FLOAT {
        Ok(BaseType::Float)
    } else if encoding == DW_ATE_SIGNED {
        Ok(BaseType::Signed)
    } else if encoding == DW_ATE_UNSIGNED {
        Ok(BaseType::Unsigned)
    } else {
        Err(DebugError::UnsupportedBaseType)
    }
}

/// An attribute of an entry as the resolver reads it: absent, present in
/// the form the resolver expects, or present in another form.
#[derive(Clone, Copy, Debug, PartialEq, Eq)]
pub enum AttrValue<T> {
    Absent,
    Value(T),
    OtherForm,
}

/// The entry that a variable's type reference leads to.
#[derive(Clone, Copy, Debug, PartialEq, Eq)]
pub struct TypeEntry {
    pub tag: u16,
    pub encoding: AttrValue<u8>,
    pub byte_size: AttrValue<u64>,
    pub bit_size: AttrValue<u64>,
}

/// What following a variable's type attribute gave.
#[derive(Clone, Copy, Debug, PartialEq, Eq)]
pub enum TypeLookup {
    /// The variable has no type attribute.
    NoTypeAttribute,
    /// The type attribute is not a reference into the same unit.
    NotUnitReference,
    /// No entry stands at the referenced offset.
    MissingEntry,
    /// The referenced entry.
    Entry(TypeEntry),
}

/// The size in bits of a base type: its bit size if present, else eight
/// times its byte size.
pub open spec fn size_bits_of(byte_size: AttrValue<u64>, bit_size: AttrValue<u64>) -> Result<
    u64,
    DebugError,
> {
    if byte_size is OtherForm || bit_size is OtherForm {
        Err(DebugError::MalformedType)
    } else if let AttrValue::Value(bits) = bit_size {
        Ok(bits)
    } else if let AttrValue::Value(bytes) = byte_size {
        if bytes * 8 <= u64::MAX {
            Ok((bytes * 8) as u64)
        } else {
            Err(DebugError::MalformedType)
        }
    } else {
        Err(DebugError::TypeNotFound)
    }
}

/// The kind and size of a variable, from what its type reference led to.
pub open spec fn type_info_of(t: TypeLookup) -> Result<(BaseType, u64), DebugError> {
    match t {
        TypeLookup::NoTypeAttribute => Err(DebugError::TypeNotFound),
        TypeLookup::NotUnitReference => Err(DebugError::MalformedType),
        TypeLookup::MissingEntry => Err(DebugError::TypeNotFound),
        TypeLookup::Entry(e) => {
            if e.tag != DW_TAG_BASE_TYPE {
                Err(DebugError::NotBaseType)
            } else {
                match e.encoding {
                    AttrValue::Absent => Err(DebugError::TypeNotFound),
                    AttrValue::OtherForm => Err(DebugError::MalformedType),
                    AttrValue::Value(enc) => match base_type_of(enc) {
                        None => Err(DebugError::UnsupportedBaseType),
                        Some(bt) => match size_bits_of(e.byte_size, e.bit_size) {
                            Ok(size) => Ok((bt, size)),
                            Err(err) => Err(err),
                        },
                    },
                }
            }
        },
    }
}

/// Determines the kind and size of a variable from its type entry: the type
/// must be a base type with a supported encoding and a known size.
pub fn get_type_info(t: &TypeLookup) -> (r: Result<(BaseType, u64), DebugError>)
    ensures
        r == type_info_of(*t),
{
    let e = match t {
        TypeLookup::NoTypeAttribute => return Err(DebugError::TypeNotFound),
        TypeLookup::NotUnitReference => return Err(DebugError::MalformedType),
        TypeLookup::MissingEntry => return Err(DebugError::TypeNotFound),
        TypeLookup::Entry(e) => e,
    };
    if e.tag != DW_TAG_BASE_TYPE {
        return Err(DebugError::NotBaseType);
    }
    let base_type = match e.encoding {
        AttrValue::Absent => return Err(DebugError::TypeNotFound),
        AttrValue::OtherForm => return Err(DebugError::MalformedType),
        AttrValue::Value(enc) => parse_base_type(enc)?,
    };
    let byte_size = match e.byte_size {
        AttrValue::Absent => None,
        AttrValue::Value(v) => Some(v),
        AttrValue::OtherForm => return Err(DebugError::MalformedType),
    };
    let bit_size = match e.bit_size {
        AttrValue::Absent => None,
        AttrValue::Value(v) => Some(v),
        AttrValue::OtherForm => return Err(DebugError::MalformedType),
    };
    match bit_size {
        Some(bits) => Ok((base_type, bits)),
        None => match byte_size {
            Some(bytes) => match bytes.checked_mul(8) {
                Some(bits) => Ok((base_type, bits)),
                None => Err(DebugError::MalformedType),
            },
            None => Err(DebugError::TypeNotFound),
        },
    }
}

/// The form of a variable's location attribute.
#[derive(Clone, Copy, Debug, PartialEq, Eq, Structural)]
pub enum LocationAttr {
    Absent,
    LocationList,
    Expression,
    OtherForm,
}

/// Whether a variable entry's location is to be evaluated: an entry with no
/// location is passed over (`false`), an expression is evaluated (`true`),
/// and location lists or other forms are unsupported.
pub fn location_needs_evaluation(loc: LocationAttr) -> (r: Result<bool, DebugError>)
    ensures
        r == (match loc {
            LocationAttr::Absent => Ok::<bool, DebugError>(false),
            LocationAttr::Expression => Ok::<bool, DebugError>(true),
            LocationAttr::LocationList => Err::<bool, DebugError>(
                DebugError::LocationListUnsupported,
            ),
            LocationAttr::OtherForm => Err::<bool, DebugError>(DebugError::UnsupportedLocationForm),
        }),
{
    match loc {
        LocationAttr::Absent => Ok(false),
        LocationAttr::Expression => Ok(true),
        LocationAttr::LocationList => Err(DebugError::LocationListUnsupported),
        LocationAttr::OtherForm => Err(DebugError::UnsupportedLocationForm),
    }
}

/// The location of the first piece of an evaluated DWARF expression.
#[derive(Clone, Copy, Debug, PartialEq, Eq, Structural)]
pub enum ExprLocation {
    /// The value is in this DWARF register.
    Register(u16),
    /// The value is in memory at this address.
    Address(u64),
    /// Anything else, or no piece at all.
    Other,
}

/// Where the evaluation of a DWARF expression stands.
#[derive(Clone, Copy, Debug, PartialEq, Eq, Structural)]
pub enum EvalState {
    /// Evaluation finished with this location.
    Complete(ExprLocation),
    /// The evaluator asks for the frame base.
    RequiresFrameBase,
    /// The evaluator asks for something else (memory, a register, ...).
    RequiresOther,
}

/// The frame base that the enclosing subprogram provides.
#[derive(Clone, Copy, Debug, PartialEq, Eq, Structural)]
pub enum FrameBase {
    /// The variable has no enclosing subprogram.
    NoEnclosingSubprogram,
    /// The enclosing subprogram has no frame base attribute.
    NoAttribute,
    /// The frame base attribute is not an expression.
    NotExpression,
    /// The frame base expression, evaluated.
    Evaluated(EvalState),
}

/// The value of the frame base in the registers `regs`, when the frame base
/// is a single register.
pub open spec fn frame_base_of(fb: FrameBase, regs: Registers) -> Result<u64, DebugError> {
    match fb {
        FrameBase::NoEnclosingSubprogram => Err(DebugError::NoFrameBase),
        FrameBase::NoAttribute => Err(DebugError::NoFrameBase),
        FrameBase::Evaluated(EvalState::Complete(ExprLocation::Register(n))) => match register_value(
            regs,
            n,
        ) {
            Some(v) => Ok(v),
            None => Err(DebugError::InvalidRegister),
        },
        _ => Err(DebugError::FrameBaseNotRegister),
    }
}

/// Computes the frame base of a stopped child from the enclosing
/// subprogram's frame base location and the child's registers.
pub fn frame_base_value(fb: &FrameBase, regs: &Registers) -> (r: Result<u64, DebugError>)
    ensures
        r == frame_base_of(*fb, *regs),
{
    match fb {
        FrameBase::NoEnclosingSubprogram => Err(DebugError::NoFrameBase),
        FrameBase::NoAttribute => Err(DebugError::NoFrameBase),
        FrameBase::Evaluated(EvalState::Complete(ExprLocation::Register(n))) => get_register_value(
            regs,
            *n,
        ),
        _ => Err(DebugError::FrameBaseNotRegister),
    }
}

/// Whether the evaluator waits for the frame base.
pub fn needs_frame_base(s: EvalState) -> (r: bool)
    ensures
        r == (s == EvalState::RequiresFrameBase),
{
    match s {
        EvalState::RequiresFrameBase => true,
        _ => false,
    }
}

/// The variable found at the end of evaluating its location.
pub open spec fn variable_info_of(s: EvalState, base_type: BaseType, size: u64) -> Result<
    VariableInfo,
    DebugError,
> {
    match s {
        EvalState::Complete(ExprLocation::Address(a)) => Ok(
            VariableInfo { address: a, base_type, size },
        ),
        EvalState::Complete(_) => Err(DebugError::LocationNotAddress),
        _ => Err(DebugError::UnsupportedExpression),
    }
}

/// Builds the answer for a variable whose location evaluated to `s`: the
/// location must be a memory address.
pub fn variable_info_from(s: EvalState, base_type: BaseType, size: u64) -> (r: Result<
    VariableInfo,
    DebugError,
>)
    ensures
        r == variable_info_of(s, base_type, size),
{
    match s {
        EvalState::Complete(ExprLocation::Address(a)) => Ok(
            VariableInfo { address: a, base_type, size },
        ),
        EvalState::Complete(_) => Err(DebugError::LocationNotAddress),
        _ => Err(DebugError::UnsupportedExpression),
    }
}

/// A debugging information entry of a unit, in depth-first order, as the
/// variable search reads it: its depth in the tree, its tag and its name.
#[derive(Clone, Debug)]
pub struct DieRecord {
    pub depth: i64,
    pub tag: u16,
    pub name: Option<String>,
}

/// Entry `j` is still open at entry `i` of a depth-first walk: every entry
/// after `j` up to `i` lies deeper than `j`.
pub open spec fn open_at(dies: Seq<DieRecord>, j: int, i: int) -> bool {
    forall|k: int| j < k <= i ==> #[trigger] dies[k].depth > dies[j].depth
}

/// Entry `j` is an ancestor of entry `i` in the tree that the walk visits.
pub open spec fn is_ancestor(dies: Seq<DieRecord>, j: int, i: int) -> bool {
    0 <= j < i < dies.len() && open_at(dies, j, i)
}

pub open spec fn is_subprogram(d: DieRecord) -> bool {
    d.tag == DW_TAG_SUBPROGRAM
}

/// `d` is a variable entry named `name`.
pub open spec fn names_variable(d: DieRecord, name: Seq<char>) -> bool {
    d.tag == DW_TAG_VARIABLE && d.name is Some && d.name->0@ == name
}

/// `p` is the innermost subprogram that encloses entry `i`, or `None` when
/// no subprogram does.
pub open spec fn is_enclosing_subprogram(dies: Seq<DieRecord>, i: int, p: Option<usize>) -> bool {
    match p {
        Some(j) => {
            &&& is_ancestor(dies, j as int, i)
            &&& is_subprogram(dies[j as int])
            &&& forall|k: int|
                j < k < i && is_ancestor(dies, k, i) ==> !is_subprogram(#[trigger] dies[k])
        },
        None => forall|k: int| 0 <= k < i && is_ancestor(dies, k, i) ==> !is_subprogram(#[trigger] dies[k]),
    }
}

/// A variable entry found by the search, with its innermost enclosing
/// subprogram.
#[derive(Clone, Copy, Debug, PartialEq, Eq, Structural)]
pub struct VariableMatch {
    pub index: usize,
    pub enclosing: Option<usize>,
}

/// Finds the first variable entry named `name` at or after `start`, and the
/// innermost subprogram enclosing it. The walk keeps a stack of the open
/// subprogram entries and drops those the depth has fallen back to.
pub fn find_variable(dies: &Vec<DieRecord>, name: &str, start: usize) -> (r: Option<VariableMatch>)
    ensures
        match r {
            Some(m) => {
                &&& start <= m.index < dies@.len()
                &&& names_variable(dies@[m.index as int], name@)
                &&& forall|k: int|
                    start <= k < m.index ==> !names_variable(#[trigger] dies@[k], name@)
                &&& is_enclosing_subprogram(dies@, m.index as int, m.enclosing)
            },
            None => forall|k: int|
                start <= k < dies@.len() ==> !names_variable(#[trigger] dies@[k], name@),
        },
{
    let wanted = name.to_owned();
    let mut stack: Vec<usize> = Vec::new();
    let mut i: usize = 0;
    while i < dies.len()
        invariant
            wanted@ == name@,
            i <= dies@.len(),
            forall|k: int| start <= k < i ==> !names_variable(#[trigger] dies@[k], name@),
            forall|t: int|
                0 <= t < stack@.len() ==> {
                    &&& #[trigger] stack@[t] < i
                    &&& is_subprogram(dies@[stack@[t] as int])
                    &&& open_at(dies@, stack@[t] as int, i - 1)
                },
            forall|t1: int, t2: int| 0 <= t1 < t2 < stack@.len() ==> stack@[t1] < stack@[t2],
            forall|j: int|
                0 <= j < i && is_subprogram(#[trigger] dies@[j]) && open_at(dies@, j, i - 1)
                    ==> stack@.contains(j as usize),
        decreases dies@.len() - i,
    {
        let depth = dies[i].depth;
        let ghost stack0 = stack@;
        while stack.len() > 0 && dies[stack[stack.len() - 1]].depth >= depth
            invariant
                i < dies@.len(),
                depth == dies@[i as int].depth,
                stack@.len() <= stack0.len(),
                stack@ == stack0.subrange(0, stack@.len() as int),
                forall|t: int|
                    stack@.len() <= t < stack0.len() ==> dies@[#[trigger] stack0[t] as int].depth
                        >= depth,
                forall|t: int|
                    0 <= t < stack0.len() ==> {
                        &&& #[trigger] stack0[t] < i
                        &&& is_subprogram(dies@[stack0[t] as int])
                        &&& open_at(dies@, stack0[t] as int, i - 1)
                    },
            decreases stack@.len(),
        {
            stack.pop();
        }
        proof {
            // Open entries lie deeper the later they come.
            assert forall|t1: int, t2: int|
                0 <= t1 < t2 < stack@.len() implies dies@[stack@[t1] as int].depth
                < dies@[stack@[t2] as int].depth by {
                assert(stack@[t1] == stack0[t1] && stack@[t2] == stack0[t2]);
                assert(open_at(dies@, stack0[t1] as int, i - 1));
                assert(stack0[t1] < stack0[t2]);
            }
            // What is left are exactly the subprograms enclosing entry i.
            assert forall|t: int| 0 <= t < stack@.len() implies #[trigger] is_ancestor(
                dies@,
                stack@[t] as int,
                i as int,
            ) by {
                assert(stack@[t] == stack0[t]);
                let top = stack@.len() - 1;
                assert(stack@[top] == stack0[top]);
                if t < top {
                    assert(open_at(dies@, stack0[t] as int, i - 1));
                    assert(stack0[t] < stack0[top]);
                }
                assert(dies@[stack@[t] as int].depth < depth);
                assert forall|k: int| stack@[t] < k <= i implies #[trigger] dies@[k].depth
                    > dies@[stack@[t] as int].depth by {
                    if k < i {
                        assert(open_at(dies@, stack0[t] as int, i - 1));
                    }
                }
            }
            assert forall|j: int|
                0 <= j < i && is_subprogram(#[trigger] dies@[j]) && is_ancestor(
                    dies@,
                    j,
                    i as int,
                ) implies stack@.contains(j as usize) by {
                assert(open_at(dies@, j, i - 1));
                assert(stack0.contains(j as usize));
                let t = choose|t: int| 0 <= t < stack0.len() && stack0[t] == j as usize;
                if t >= stack@.len() {
                    assert(dies@[stack0[t] as int].depth >= depth);
                }
                assert(stack@[t] == j as usize);
            }
        }
        if dies[i].tag == DW_TAG_SUBPROGRAM {
            let ghost pre = stack@;
            stack.push(i);
            proof {
                assert forall|t: int| 0 <= t < stack@.len() implies {
                    &&& #[trigger] stack@[t] < i + 1
                    &&& is_subprogram(dies@[stack@[t] as int])
                    &&& open_at(dies@, stack@[t] as int, i as int)
                } by {
                    if t < stack@.len() - 1 {
                        assert(is_ancestor(dies@, stack@[t] as int, i as int));
                    }
                }
                assert forall|j: int|
                    0 <= j < i + 1 && is_subprogram(#[trigger] dies@[j]) && open_at(
                        dies@,
                        j,
                        i as int,
                    ) implies stack@.contains(j as usize) by {
                    if j < i {
                        assert(is_ancestor(dies@, j, i as int));
                        assert(pre.contains(j as usize));
                        let t = choose|t: int| 0 <= t < pre.len() && pre[t] == j as usize;
                        assert(stack@[t] == j as usize);
                    } else {
                        assert(stack@[stack@.len() - 1] == i);
                    }
                }
            }
        } else {
            let found = match &dies[i].name {
                Some(n) => dies[i].tag == DW_TAG_VARIABLE && i >= start && *n == wanted,
                None => false,
            };
            if found {
                let enclosing = if stack.len() > 0 {
                    Some(stack[stack.len() - 1])
                } else {
                    None
                };
                proof {
                    if stack@.len() > 0 {
                        let top = stack@.len() - 1;
                        assert(is_ancestor(dies@, stack@[top] as int, i as int));
                        assert forall|k: int|
                            stack@[top] < k < i && is_ancestor(dies@, k, i as int) implies !is_subprogram(
                            #[trigger] dies@[k],
                        ) by {
                            if is_subprogram(dies@[k]) {
                                assert(stack@.contains(k as usize));
                                let t = choose|t: int| 0 <= t < stack@.len() && stack@[t] == k as usize;
                                if t < top {
                                    assert(stack@[t] < stack@[top]);
                                }
                            }
                        }
                    } else {
                        assert forall|k: int|
                            0 <= k < i && is_ancestor(dies@, k, i as int) implies !is_subprogram(
                            #[trigger] dies@[k],
                        ) by {
                            if is_subprogram(dies@[k]) {
                                assert(stack@.contains(k as usize));
                            }
                        }
                    }
                }
                return Some(VariableMatch { index: i, enclosing });
            }
            proof {
                assert forall|t: int| 0 <= t < stack@.len() implies {
                    &&& #[trigger] stack@[t] < i + 1
                    &&& is_subprogram(dies@[stack@[t] as int])
                    &&& open_at(dies@, stack@[t] as int, i as int)
                } by {
                    assert(is_ancestor(dies@, stack@[t] as int, i as int));
                }
                assert forall|j: int|
                    0 <= j < i + 1 && is_subprogram(#[trigger] dies@[j]) && open_at(
                        dies@,
                        j,
                        i as int,
                    ) implies stack@.contains(j as usize) by {
                    if j < i {
                        assert(is_ancestor(dies@, j, i as int));
                    }
                }
            }
        }
        i = i + 1;
    }
    None
}

} // verus!
