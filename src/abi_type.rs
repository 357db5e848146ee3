//! Mappings from finished types to machine-level representations.
use vstd::prelude::*;

use crate::ty::{NumberKind, Type};

verus! {

/// A machine scalar type.
#[derive(Clone, Copy, Debug, PartialEq, Eq, Hash, Structural)]
pub enum AbiScalar {
    B1,
    I8,
    I16,
    I32,
    I64,
    F32,
    F64,
}

/// How a value of some type is passed: as a scalar, or behind a pointer.
#[derive(Clone, Copy, Debug, PartialEq, Eq, Hash, Structural)]
pub enum AbiType {
    Scalar(AbiScalar),
    Ptr,
}

/// The parameter and return representations of a function.
#[derive(Clone, Debug, PartialEq, Eq)]
pub struct AbiSignature {
    pub params: Vec<AbiType>,
    pub returns: Vec<AbiType>,
}

pub open spec fn spec_number_abi(n: NumberKind) -> AbiType {
    match n {
        NumberKind::U8 | NumberKind::I8 => AbiType::Scalar(AbiScalar::I8),
        NumberKind::U16 | NumberKind::I16 => AbiType::Scalar(AbiScalar::I16),
        NumberKind::U32 | NumberKind::I32 => AbiType::Scalar(AbiScalar::I32),
        NumberKind::U64 | NumberKind::I64 => AbiType::Scalar(AbiScalar::I64),
        NumberKind::F32 => AbiType::Scalar(AbiScalar::F32),
        NumberKind::F64 => AbiType::Scalar(AbiScalar::F64),
    }
}

/// The smallest scalar that tells `n` alternatives apart.
pub open spec fn spec_tag_abi(n: nat) -> AbiType {
    if n <= 2 {
        AbiType::Scalar(AbiScalar::B1)
    } else if n <= u8::MAX {
        AbiType::Scalar(AbiScalar::I8)
    } else if n <= u16::MAX {
        AbiType::Scalar(AbiScalar::I16)
    } else if n <= u32::MAX {
        AbiType::Scalar(AbiScalar::I32)
    } else {
        AbiType::Scalar(AbiScalar::I64)
    }
}

/// Numbers are scalars of their width, symbols are bytes, unions are tags
/// wide enough for their distinct alternatives, and aggregates, strings and functions
/// are pointers.
pub open spec fn spec_abi_type(t: &Type) -> AbiType {
    match t {
        Type::Number(n) => spec_number_abi(*n),
        Type::Symbol(_) => AbiType::Scalar(AbiScalar::I8),
        Type::Union(u) => spec_tag_abi(u@.len()),
        _ => AbiType::Ptr,
    }
}

impl AbiType {
    /// Create an ABI-specific type given a finished, conflict-free type.
    pub fn from_ir_type(ir_type: &Type) -> (r: AbiType)
        requires
            !(ir_type is Conflict),
            !(ir_type is Any),
        ensures
            r == spec_abi_type(ir_type),
    {
        match ir_type {
            Type::Number(n) => AbiType::from_ir_number_type(*n),
            Type::Symbol(_) => AbiType::Scalar(AbiScalar::I8),
            Type::Union(u) => {
                let n = u.size();
                if n <= 2 {
                    AbiType::Scalar(AbiScalar::B1)
                } else if n as u64 <= u8::MAX as u64 {
                    AbiType::Scalar(AbiScalar::I8)
                } else if n as u64 <= u16::MAX as u64 {
                    AbiType::Scalar(AbiScalar::I16)
                } else if n as u64 <= u32::MAX as u64 {
                    AbiType::Scalar(AbiScalar::I32)
                } else {
                    AbiType::Scalar(AbiScalar::I64)
                }
            },
            _ => AbiType::Ptr,
        }
    }

    /// The scalar this representation uses, given the scalar of pointers.
    pub fn into_specific(self, ptr_type: AbiScalar) -> (r: AbiScalar)
        ensures
            r == match self {
                AbiType::Scalar(s) => s,
                AbiType::Ptr => ptr_type,
            },
    {
        match self {
            AbiType::Scalar(ty) => ty,
            AbiType::Ptr => ptr_type,
        }
    }

    fn from_ir_number_type(ir_type: NumberKind) -> (r: AbiType)
        ensures
            r == spec_number_abi(ir_type),
    {
        match ir_type {
            NumberKind::U8 | NumberKind::I8 => AbiType::Scalar(AbiScalar::I8),
            NumberKind::U16 | NumberKind::I16 => AbiType::Scalar(AbiScalar::I16),
            NumberKind::U32 | NumberKind::I32 => AbiType::Scalar(AbiScalar::I32),
            NumberKind::U64 | NumberKind::I64 => AbiType::Scalar(AbiScalar::I64),
            NumberKind::F32 => AbiType::Scalar(AbiScalar::F32),
            NumberKind::F64 => AbiType::Scalar(AbiScalar::F64),
        }
    }
}

} // verus!
