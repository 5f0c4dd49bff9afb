//! The numeric identifiers of LLVM's instruction op-codes, as a checked
//! enumeration: a pure lookup table with no parsing logic. Unknown
//! identifiers are rejected rather than guessed at.

use vstd::prelude::*;

verus! {

/// One LLVM instruction op-code, plus the two custom op-codes used for
/// injected calls and custom patch points.
#[derive(Debug, Clone, Copy, PartialEq, Eq, Hash, Structural)]
pub enum LLVMInstruction {
    Ret,
    Br,
    Switch,
    IndirectBr,
    Invoke,
    Resume,
    Unreachable,
    CleanupRet,
    CatchRet,
    CatchSwitch,
    CallBr,
    FNeg,
    Add,
    FAdd,
    Sub,
    FSub,
    Mul,
    FMul,
    UDiv,
    SDiv,
    FDiv,
    URem,
    SRem,
    FRem,
    Shl,
    LShr,
    AShr,
    And,
    Or,
    Xor,
    Alloca,
    Load,
    Store,
    GetElementPtr,
    Fence,
    AtomicCmpXchg,
    AtomicRMW,
    Trunc,
    ZExt,
    SExt,
    FPToUI,
    FPToSI,
    UIToFP,
    SIToFP,
    FPTrunc,
    FPExt,
    PtrToInt,
    IntToPtr,
    BitCast,
    AddrSpaceCast,
    CleanupPad,
    CatchPad,
    ICmp,
    FCmp,
    PHI,
    Call,
    Select,
    UserOp1,
    UserOp2,
    VAArg,
    ExtractElement,
    InsertElement,
    ShuffleVector,
    ExtractValue,
    InsertValue,
    LandingPad,
    Freeze,
    InjectedCall,
    CustomPatchPoint,
}

impl LLVMInstruction {
    /// The numeric identifier of this op-code.
    pub open spec fn spec_id(self) -> int {
        match self {
            LLVMInstruction::Ret => 1,
            LLVMInstruction::Br => 2,
            LLVMInstruction::Switch => 3,
            LLVMInstruction::IndirectBr => 4,
            LLVMInstruction::Invoke => 5,
            LLVMInstruction::Resume => 6,
            LLVMInstruction::Unreachable => 7,
            LLVMInstruction::CleanupRet => 8,
            LLVMInstruction::CatchRet => 9,
            LLVMInstruction::CatchSwitch => 10,
            LLVMInstruction::CallBr => 11,
            LLVMInstruction::FNeg => 12,
            LLVMInstruction::Add => 13,
            LLVMInstruction::FAdd => 14,
            LLVMInstruction::Sub => 15,
            LLVMInstruction::FSub => 16,
            LLVMInstruction::Mul => 17,
            LLVMInstruction::FMul => 18,
            LLVMInstruction::UDiv => 19,
            LLVMInstruction::SDiv => 20,
            LLVMInstruction::FDiv => 21,
            LLVMInstruction::URem => 22,
            LLVMInstruction::SRem => 23,
            LLVMInstruction::FRem => 24,
            LLVMInstruction::Shl => 25,
            LLVMInstruction::LShr => 26,
            LLVMInstruction::AShr => 27,
            LLVMInstruction::And => 28,
            LLVMInstruction::Or => 29,
            LLVMInstruction::Xor => 30,
            LLVMInstruction::Alloca => 31,
            LLVMInstruction::Load => 32,
            LLVMInstruction::Store => 33,
            LLVMInstruction::GetElementPtr => 34,
            LLVMInstruction::Fence => 35,
            LLVMInstruction::AtomicCmpXchg => 36,
            LLVMInstruction::AtomicRMW => 37,
            LLVMInstruction::Trunc => 38,
            LLVMInstruction::ZExt => 39,
            LLVMInstruction::SExt => 40,
            LLVMInstruction::FPToUI => 41,
            LLVMInstruction::FPToSI => 42,
            LLVMInstruction::UIToFP => 43,
            LLVMInstruction::SIToFP => 44,
            LLVMInstruction::FPTrunc => 45,
            LLVMInstruction::FPExt => 46,
            LLVMInstruction::PtrToInt => 47,
            LLVMInstruction::IntToPtr => 48,
            LLVMInstruction::BitCast => 49,
            LLVMInstruction::AddrSpaceCast => 50,
            LLVMInstruction::CleanupPad => 51,
            LLVMInstruction::CatchPad => 52,
            LLVMInstruction::ICmp => 53,
            LLVMInstruction::FCmp => 54,
            LLVMInstruction::PHI => 55,
            LLVMInstruction::Call => 56,
            LLVMInstruction::Select => 57,
            LLVMInstruction::UserOp1 => 58,
            LLVMInstruction::UserOp2 => 59,
            LLVMInstruction::VAArg => 60,
            LLVMInstruction::ExtractElement => 61,
            LLVMInstruction::InsertElement => 62,
            LLVMInstruction::ShuffleVector => 63,
            LLVMInstruction::ExtractValue => 64,
            LLVMInstruction::InsertValue => 65,
            LLVMInstruction::LandingPad => 66,
            LLVMInstruction::Freeze => 67,
            LLVMInstruction::InjectedCall => 1337,
            LLVMInstruction::CustomPatchPoint => 1338,
        }
    }

    /// Which op-code a numeric identifier names, if any.
    pub open spec fn spec_from_id(v: int) -> Option<LLVMInstruction> {
        if v == 1 {
            Some(LLVMInstruction::Ret)
        } else if v == 2 {
            Some(LLVMInstruction::Br)
        } else if v == 3 {
            Some(LLVMInstruction::Switch)
        } else if v == 4 {
            Some(LLVMInstruction::IndirectBr)
        } else if v == 5 {
            Some(LLVMInstruction::Invoke)
        } else if v == 6 {
            Some(LLVMInstruction::Resume)
        } else if v == 7 {
            Some(LLVMInstruction::Unreachable)
        } else if v == 8 {
            Some(LLVMInstruction::CleanupRet)
        } else if v == 9 {
            Some(LLVMInstruction::CatchRet)
        } else if v == 10 {
            Some(LLVMInstruction::CatchSwitch)
        } else if v == 11 {
            Some(LLVMInstruction::CallBr)
        } else if v == 12 {
            Some(LLVMInstruction::FNeg)
        } else if v == 13 {
            Some(LLVMInstruction::Add)
        } else if v == 14 {
            Some(LLVMInstruction::FAdd)
        } else if v == 15 {
            Some(LLVMInstruction::Sub)
        } else if v == 16 {
            Some(LLVMInstruction::FSub)
        } else if v == 17 {
            Some(LLVMInstruction::Mul)
        } else if v == 18 {
            Some(LLVMInstruction::FMul)
        } else if v == 19 {
            Some(LLVMInstruction::UDiv)
        } else if v == 20 {
            Some(LLVMInstruction::SDiv)
        } else if v == 21 {
            Some(LLVMInstruction::FDiv)
        } else if v == 22 {
            Some(LLVMInstruction::URem)
        } else if v == 23 {
            Some(LLVMInstruction::SRem)
        } else if v == 24 {
            Some(LLVMInstruction::FRem)
        } else if v == 25 {
            Some(LLVMInstruction::Shl)
        } else if v == 26 {
            Some(LLVMInstruction::LShr)
        } else if v == 27 {
            Some(LLVMInstruction::AShr)
        } else if v == 28 {
            Some(LLVMInstruction::And)
        } else if v == 29 {
            Some(LLVMInstruction::Or)
        } else if v == 30 {
            Some(LLVMInstruction::Xor)
        } else if v == 31 {
            Some(LLVMInstruction::Alloca)
        } else if v == 32 {
            Some(LLVMInstruction::Load)
        } else if v == 33 {
            Some(LLVMInstruction::Store)
        } else if v == 34 {
            Some(LLVMInstruction::GetElementPtr)
        } else if v == 35 {
            Some(LLVMInstruction::Fence)
        } else if v == 36 {
            Some(LLVMInstruction::AtomicCmpXchg)
        } else if v == 37 {
            Some(LLVMInstruction::AtomicRMW)
        } else if v == 38 {
            Some(LLVMInstruction::Trunc)
        } else if v == 39 {
            Some(LLVMInstruction::ZExt)
        } else if v == 40 {
            Some(LLVMInstruction::SExt)
        } else if v == 41 {
            Some(LLVMInstruction::FPToUI)
        } else if v == 42 {
            Some(LLVMInstruction::FPToSI)
        } else if v == 43 {
            Some(LLVMInstruction::UIToFP)
        } else if v == 44 {
            Some(LLVMInstruction::SIToFP)
        } else if v == 45 {
            Some(LLVMInstruction::FPTrunc)
        } else if v == 46 {
            Some(LLVMInstruction::FPExt)
        } else if v == 47 {
            Some(LLVMInstruction::PtrToInt)
        } else if v == 48 {
            Some(LLVMInstruction::IntToPtr)
        } else if v == 49 {
            Some(LLVMInstruction::BitCast)
        } else if v == 50 {
            Some(LLVMInstruction::AddrSpaceCast)
        } else if v == 51 {
            Some(LLVMInstruction::CleanupPad)
        } else if v == 52 {
            Some(LLVMInstruction::CatchPad)
        } else if v == 53 {
            Some(LLVMInstruction::ICmp)
        } else if v == 54 {
            Some(LLVMInstruction::FCmp)
        } else if v == 55 {
            Some(LLVMInstruction::PHI)
        } else if v == 56 {
            Some(LLVMInstruction::Call)
        } else if v == 57 {
            Some(LLVMInstruction::Select)
        } else if v == 58 {
            Some(LLVMInstruction::UserOp1)
        } else if v == 59 {
            Some(LLVMInstruction::UserOp2)
        } else if v == 60 {
            Some(LLVMInstruction::VAArg)
        } else if v == 61 {
            Some(LLVMInstruction::ExtractElement)
        } else if v == 62 {
            Some(LLVMInstruction::InsertElement)
        } else if v == 63 {
            Some(LLVMInstruction::ShuffleVector)
        } else if v == 64 {
            Some(LLVMInstruction::ExtractValue)
        } else if v == 65 {
            Some(LLVMInstruction::InsertValue)
        } else if v == 66 {
            Some(LLVMInstruction::LandingPad)
        } else if v == 67 {
            Some(LLVMInstruction::Freeze)
        } else if v == 1337 {
            Some(LLVMInstruction::InjectedCall)
        } else if v == 1338 {
            Some(LLVMInstruction::CustomPatchPoint)
        } else {
            None
        }
    }

    /// The numeric identifier of this op-code.
    pub fn id(&self) -> (r: usize)
        ensures
            r as int == self.spec_id(),
    {
        match *self {
            LLVMInstruction::Ret => 1,
            LLVMInstruction::Br => 2,
            LLVMInstruction::Switch => 3,
            LLVMInstruction::IndirectBr => 4,
            LLVMInstruction::Invoke => 5,
            LLVMInstruction::Resume => 6,
            LLVMInstruction::Unreachable => 7,
            LLVMInstruction::CleanupRet => 8,
            LLVMInstruction::CatchRet => 9,
            LLVMInstruction::CatchSwitch => 10,
            LLVMInstruction::CallBr => 11,
            LLVMInstruction::FNeg => 12,
            LLVMInstruction::Add => 13,
            LLVMInstruction::FAdd => 14,
            LLVMInstruction::Sub => 15,
            LLVMInstruction::FSub => 16,
            LLVMInstruction::Mul => 17,
            LLVMInstruction::FMul => 18,
            LLVMInstruction::UDiv => 19,
            LLVMInstruction::SDiv => 20,
            LLVMInstruction::FDiv => 21,
            LLVMInstruction::URem => 22,
            LLVMInstruction::SRem => 23,
            LLVMInstruction::FRem => 24,
            LLVMInstruction::Shl => 25,
            LLVMInstruction::LShr => 26,
            LLVMInstruction::AShr => 27,
            LLVMInstruction::And => 28,
            LLVMInstruction::Or => 29,
            LLVMInstruction::Xor => 30,
            LLVMInstruction::Alloca => 31,
            LLVMInstruction::Load => 32,
            LLVMInstruction::Store => 33,
            LLVMInstruction::GetElementPtr => 34,
            LLVMInstruction::Fence => 35,
            LLVMInstruction::AtomicCmpXchg => 36,
            LLVMInstruction::AtomicRMW => 37,
            LLVMInstruction::Trunc => 38,
            LLVMInstruction::ZExt => 39,
            LLVMInstruction::SExt => 40,
            LLVMInstruction::FPToUI => 41,
            LLVMInstruction::FPToSI => 42,
            LLVMInstruction::UIToFP => 43,
            LLVMInstruction::SIToFP => 44,
            LLVMInstruction::FPTrunc => 45,
            LLVMInstruction::FPExt => 46,
            LLVMInstruction::PtrToInt => 47,
            LLVMInstruction::IntToPtr => 48,
            LLVMInstruction::BitCast => 49,
            LLVMInstruction::AddrSpaceCast => 50,
            LLVMInstruction::CleanupPad => 51,
            LLVMInstruction::CatchPad => 52,
            LLVMInstruction::ICmp => 53,
            LLVMInstruction::FCmp => 54,
            LLVMInstruction::PHI => 55,
            LLVMInstruction::Call => 56,
            LLVMInstruction::Select => 57,
            LLVMInstruction::UserOp1 => 58,
            LLVMInstruction::UserOp2 => 59,
            LLVMInstruction::VAArg => 60,
            LLVMInstruction::ExtractElement => 61,
            LLVMInstruction::InsertElement => 62,
            LLVMInstruction::ShuffleVector => 63,
            LLVMInstruction::ExtractValue => 64,
            LLVMInstruction::InsertValue => 65,
            LLVMInstruction::LandingPad => 66,
            LLVMInstruction::Freeze => 67,
            LLVMInstruction::InjectedCall => 1337,
            LLVMInstruction::CustomPatchPoint => 1338,
        }
    }

    /// Checked constructor from a numeric identifier; unknown
    /// identifiers give `None`.
    pub fn try_from_u64(v: u64) -> (r: Option<LLVMInstruction>)
        ensures
            r == LLVMInstruction::spec_from_id(v as int),
    {
        if v == 1 {
            Some(LLVMInstruction::Ret)
        } else if v == 2 {
            Some(LLVMInstruction::Br)
        } else if v == 3 {
            Some(LLVMInstruction::Switch)
        } else if v == 4 {
            Some(LLVMInstruction::IndirectBr)
        } else if v == 5 {
            Some(LLVMInstruction::Invoke)
        } else if v == 6 {
            Some(LLVMInstruction::Resume)
        } else if v == 7 {
            Some(LLVMInstruction::Unreachable)
        } else if v == 8 {
            Some(LLVMInstruction::CleanupRet)
        } else if v == 9 {
            Some(LLVMInstruction::CatchRet)
        } else if v == 10 {
            Some(LLVMInstruction::CatchSwitch)
        } else if v == 11 {
            Some(LLVMInstruction::CallBr)
        } else if v == 12 {
            Some(LLVMInstruction::FNeg)
        } else if v == 13 {
            Some(LLVMInstruction::Add)
        } else if v == 14 {
            Some(LLVMInstruction::FAdd)
        } else if v == 15 {
            Some(LLVMInstruction::Sub)
        } else if v == 16 {
            Some(LLVMInstruction::FSub)
        } else if v == 17 {
            Some(LLVMInstruction::Mul)
        } else if v == 18 {
            Some(LLVMInstruction::FMul)
        } else if v == 19 {
            Some(LLVMInstruction::UDiv)
        } else if v == 20 {
            Some(LLVMInstruction::SDiv)
        } else if v == 21 {
            Some(LLVMInstruction::FDiv)
        } else if v == 22 {
            Some(LLVMInstruction::URem)
        } else if v == 23 {
            Some(LLVMInstruction::SRem)
        } else if v == 24 {
            Some(LLVMInstruction::FRem)
        } else if v == 25 {
            Some(LLVMInstruction::Shl)
        } else if v == 26 {
            Some(LLVMInstruction::LShr)
        } else if v == 27 {
            Some(LLVMInstruction::AShr)
        } else if v == 28 {
            Some(LLVMInstruction::And)
        } else if v == 29 {
            Some(LLVMInstruction::Or)
        } else if v == 30 {
            Some(LLVMInstruction::Xor)
        } else if v == 31 {
            Some(LLVMInstruction::Alloca)
        } else if v == 32 {
            Some(LLVMInstruction::Load)
        } else if v == 33 {
            Some(LLVMInstruction::Store)
        } else if v == 34 {
            Some(LLVMInstruction::GetElementPtr)
        } else if v == 35 {
            Some(LLVMInstruction::Fence)
        } else if v == 36 {
            Some(LLVMInstruction::AtomicCmpXchg)
        } else if v == 37 {
            Some(LLVMInstruction::AtomicRMW)
        } else if v == 38 {
            Some(LLVMInstruction::Trunc)
        } else if v == 39 {
            Some(LLVMInstruction::ZExt)
        } else if v == 40 {
            Some(LLVMInstruction::SExt)
        } else if v == 41 {
            Some(LLVMInstruction::FPToUI)
        } else if v == 42 {
            Some(LLVMInstruction::FPToSI)
        } else if v == 43 {
            Some(LLVMInstruction::UIToFP)
        } else if v == 44 {
            Some(LLVMInstruction::SIToFP)
        } else if v == 45 {
            Some(LLVMInstruction::FPTrunc)
        } else if v == 46 {
            Some(LLVMInstruction::FPExt)
        } else if v == 47 {
            Some(LLVMInstruction::PtrToInt)
        } else if v == 48 {
            Some(LLVMInstruction::IntToPtr)
        } else if v == 49 {
            Some(LLVMInstruction::BitCast)
        } else if v == 50 {
            Some(LLVMInstruction::AddrSpaceCast)
        } else if v == 51 {
            Some(LLVMInstruction::CleanupPad)
        } else if v == 52 {
            Some(LLVMInstruction::CatchPad)
        } else if v == 53 {
            Some(LLVMInstruction::ICmp)
        } else if v == 54 {
            Some(LLVMInstruction::FCmp)
        } else if v == 55 {
            Some(LLVMInstruction::PHI)
        } else if v == 56 {
            Some(LLVMInstruction::Call)
        } else if v == 57 {
            Some(LLVMInstruction::Select)
        } else if v == 58 {
            Some(LLVMInstruction::UserOp1)
        } else if v == 59 {
            Some(LLVMInstruction::UserOp2)
        } else if v == 60 {
            Some(LLVMInstruction::VAArg)
        } else if v == 61 {
            Some(LLVMInstruction::ExtractElement)
        } else if v == 62 {
            Some(LLVMInstruction::InsertElement)
        } else if v == 63 {
            Some(LLVMInstruction::ShuffleVector)
        } else if v == 64 {
            Some(LLVMInstruction::ExtractValue)
        } else if v == 65 {
            Some(LLVMInstruction::InsertValue)
        } else if v == 66 {
            Some(LLVMInstruction::LandingPad)
        } else if v == 67 {
            Some(LLVMInstruction::Freeze)
        } else if v == 1337 {
            Some(LLVMInstruction::InjectedCall)
        } else if v == 1338 {
            Some(LLVMInstruction::CustomPatchPoint)
        } else {
            None
        }
    }

    /// Checked constructor from a `usize` identifier.
    pub fn try_from_usize(v: usize) -> (r: Option<LLVMInstruction>)
        ensures
            r == LLVMInstruction::spec_from_id(v as int),
    {
        LLVMInstruction::try_from_u64(v as u64)
    }

    /// Checked constructor from a `u16` identifier.
    pub fn try_from_u16(v: u16) -> (r: Option<LLVMInstruction>)
        ensures
            r == LLVMInstruction::spec_from_id(v as int),
    {
        LLVMInstruction::try_from_u64(v as u64)
    }

    /// Checked constructor from a `u32` identifier.
    pub fn try_from_u32(v: u32) -> (r: Option<LLVMInstruction>)
        ensures
            r == LLVMInstruction::spec_from_id(v as int),
    {
        LLVMInstruction::try_from_u64(v as u64)
    }
}

/// The identifier table is injective the way a lookup table must be:
/// mapping an op-code to its identifier and back gives the op-code.
pub proof fn lemma_instruction_id_roundtrip(i: LLVMInstruction)
    ensures
        LLVMInstruction::spec_from_id(i.spec_id()) == Some(i),
{
}

} // verus!
