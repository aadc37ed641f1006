//! The typed description of a system-call surface: types, functions and
//! the groups that own them.

use vstd::prelude::*;

verus! {

/// Identifies a type of the schema.
pub type TypeId = usize;

/// Identifies a function of the schema.
pub type FnId = usize;

/// Identifies a group, one kernel subsystem.
pub type GroupId = usize;

/// Signedness and width of a number type.
#[derive(Debug, Clone, Copy, PartialEq, Eq, Structural)]
pub enum NumKind {
    I8,
    I16,
    I32,
    I64,
    Isize,
    U8,
    U16,
    U32,
    U64,
    Usize,
}

impl NumKind {
    pub open spec fn is_signed(self) -> bool {
        match self {
            NumKind::I8 | NumKind::I16 | NumKind::I32 | NumKind::I64 | NumKind::Isize => true,
            _ => false,
        }
    }

    /// The least value of the kind.
    pub open spec fn lowest(self) -> int {
        match self {
            NumKind::I8 => i8::MIN as int,
            NumKind::I16 => i16::MIN as int,
            NumKind::I32 => i32::MIN as int,
            NumKind::I64 => i64::MIN as int,
            NumKind::Isize => isize::MIN as int,
            _ => 0,
        }
    }

    /// The greatest value of the kind.
    pub open spec fn highest(self) -> int {
        match self {
            NumKind::I8 => i8::MAX as int,
            NumKind::I16 => i16::MAX as int,
            NumKind::I32 => i32::MAX as int,
            NumKind::I64 => i64::MAX as int,
            NumKind::Isize => isize::MAX as int,
            NumKind::U8 => u8::MAX as int,
            NumKind::U16 => u16::MAX as int,
            NumKind::U32 => u32::MAX as int,
            NumKind::U64 => u64::MAX as int,
            NumKind::Usize => usize::MAX as int,
        }
    }

    pub open spec fn holds(self, n: int) -> bool {
        self.lowest() <= n <= self.highest()
    }
}

/// What values a number type admits. `Range` includes `lo` and excludes `hi`.
#[derive(Debug, Clone, PartialEq, Eq)]
pub enum NumLimit {
    Any,
    Vals(Vec<i128>),
    Range { lo: i128, hi: i128 },
}

#[derive(Debug, Clone, PartialEq, Eq)]
pub struct NumInfo {
    pub kind: NumKind,
    pub limit: NumLimit,
}

impl NumInfo {
    /// The limit is not empty and stays within the kind.
    pub open spec fn wf(&self) -> bool {
        match self.limit {
            NumLimit::Any => true,
            NumLimit::Vals(vals) => vals@.len() > 0 && forall|i: int|
                0 <= i < vals@.len() ==> self.kind.holds(#[trigger] vals@[i] as int),
            NumLimit::Range { lo, hi } => self.kind.lowest() <= lo < hi <= self.kind.highest() + 1,
        }
    }
}

/// Which way data flows through a pointer.
#[derive(Debug, Clone, Copy, PartialEq, Eq, Structural)]
pub enum PtrDir {
    In,
    Out,
    InOut,
}

#[derive(Debug, Clone, Copy, PartialEq, Eq, Hash, Structural)]
pub enum StrType {
    Str,
    CStr,
    FileName,
}

#[derive(Debug, Clone, PartialEq, Eq)]
pub struct Field {
    pub ident: String,
    pub tid: TypeId,
}

#[derive(Debug, Clone, PartialEq, Eq)]
pub struct Flag {
    pub ident: String,
    pub val: i64,
}

#[derive(Debug, Clone, PartialEq, Eq)]
pub struct Param {
    pub ident: String,
    pub tid: TypeId,
}

/// Slice bounds, where `-1` leaves a side open: both open, only the upper
/// side open above a positive `l`, or a proper range `l..h`.
pub open spec fn slice_bounds_ok(l: int, h: int) -> bool {
    ||| l == -1 && h == -1
    ||| 0 < l && h == -1
    ||| 0 <= l < h
}

#[derive(Debug, Clone, PartialEq, Eq)]
pub enum TypeInfo {
    Num(NumInfo),
    Ptr { dir: PtrDir, tid: TypeId, depth: usize },
    Slice { tid: TypeId, l: isize, h: isize },
    Str { str_type: StrType, vals: Option<Vec<String>> },
    Struct { ident: String, fields: Vec<Field> },
    Union { ident: String, fields: Vec<Field> },
    Flag { ident: String, flags: Vec<Flag> },
    Alias { ident: String, tid: TypeId },
    Res { tid: TypeId },
    Len { tid: TypeId, path: String, is_param: bool },
}

#[derive(Debug, Clone, PartialEq, Eq)]
pub struct FnInfo {
    pub id: FnId,
    pub gid: GroupId,
    pub name: String,
    pub params: Vec<Param>,
    pub r_tid: Option<TypeId>,
}

impl FnInfo {
    pub fn has_params(&self) -> (b: bool)
        ensures
            b == (self.params@.len() > 0),
    {
        self.params.len() > 0
    }
}

/// One kernel subsystem and the functions it owns, in order.
#[derive(Debug, Clone, PartialEq, Eq)]
pub struct Group {
    pub id: GroupId,
    pub ident: String,
    pub fns: Vec<FnInfo>,
}

} // verus!
