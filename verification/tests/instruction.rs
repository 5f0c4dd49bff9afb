use llvm_stackmaps::instruction::LLVMInstruction;

#[test]
fn known_identifiers_map_to_their_op_codes() {
    assert_eq!(LLVMInstruction::try_from_u64(1), Some(LLVMInstruction::Ret));
    assert_eq!(LLVMInstruction::try_from_u64(13), Some(LLVMInstruction::Add));
    assert_eq!(LLVMInstruction::try_from_u64(32), Some(LLVMInstruction::Load));
    assert_eq!(LLVMInstruction::try_from_u64(33), Some(LLVMInstruction::Store));
    assert_eq!(LLVMInstruction::try_from_u64(56), Some(LLVMInstruction::Call));
    assert_eq!(LLVMInstruction::try_from_u64(67), Some(LLVMInstruction::Freeze));
    assert_eq!(
        LLVMInstruction::try_from_u64(1337),
        Some(LLVMInstruction::InjectedCall)
    );
    assert_eq!(
        LLVMInstruction::try_from_u64(1338),
        Some(LLVMInstruction::CustomPatchPoint)
    );
}

#[test]
fn unknown_identifiers_are_rejected() {
    for v in [0u64, 68, 100, 1336, 1339, u64::MAX] {
        assert_eq!(LLVMInstruction::try_from_u64(v), None, "id {v}");
    }
}

#[test]
fn every_op_code_round_trips_through_its_identifier() {
    let all = [
        LLVMInstruction::Ret,
        LLVMInstruction::Br,
        LLVMInstruction::Switch,
        LLVMInstruction::IndirectBr,
        LLVMInstruction::Invoke,
        LLVMInstruction::Resume,
        LLVMInstruction::Unreachable,
        LLVMInstruction::CleanupRet,
        LLVMInstruction::CatchRet,
        LLVMInstruction::CatchSwitch,
        LLVMInstruction::CallBr,
        LLVMInstruction::FNeg,
        LLVMInstruction::Add,
        LLVMInstruction::FAdd,
        LLVMInstruction::Sub,
        LLVMInstruction::FSub,
        LLVMInstruction::Mul,
        LLVMInstruction::FMul,
        LLVMInstruction::UDiv,
        LLVMInstruction::SDiv,
        LLVMInstruction::FDiv,
        LLVMInstruction::URem,
        LLVMInstruction::SRem,
        LLVMInstruction::FRem,
        LLVMInstruction::Shl,
        LLVMInstruction::LShr,
        LLVMInstruction::AShr,
        LLVMInstruction::And,
        LLVMInstruction::Or,
        LLVMInstruction::Xor,
        LLVMInstruction::Alloca,
        LLVMInstruction::Load,
        LLVMInstruction::Store,
        LLVMInstruction::GetElementPtr,
        LLVMInstruction::Fence,
        LLVMInstruction::AtomicCmpXchg,
        LLVMInstruction::AtomicRMW,
        LLVMInstruction::Trunc,
        LLVMInstruction::ZExt,
        LLVMInstruction::SExt,
        LLVMInstruction::FPToUI,
        LLVMInstruction::FPToSI,
        LLVMInstruction::UIToFP,
        LLVMInstruction::SIToFP,
        LLVMInstruction::FPTrunc,
        LLVMInstruction::FPExt,
        LLVMInstruction::PtrToInt,
        LLVMInstruction::IntToPtr,
        LLVMInstruction::BitCast,
        LLVMInstruction::AddrSpaceCast,
        LLVMInstruction::CleanupPad,
        LLVMInstruction::CatchPad,
        LLVMInstruction::ICmp,
        LLVMInstruction::FCmp,
        LLVMInstruction::PHI,
        LLVMInstruction::Call,
        LLVMInstruction::Select,
        LLVMInstruction::UserOp1,
        LLVMInstruction::UserOp2,
        LLVMInstruction::VAArg,
        LLVMInstruction::ExtractElement,
        LLVMInstruction::InsertElement,
        LLVMInstruction::ShuffleVector,
        LLVMInstruction::ExtractValue,
        LLVMInstruction::InsertValue,
        LLVMInstruction::LandingPad,
        LLVMInstruction::Freeze,
        LLVMInstruction::InjectedCall,
        LLVMInstruction::CustomPatchPoint,
    ];
    for i in all {
        let id = i.id();
        assert_eq!(LLVMInstruction::try_from_usize(id), Some(i));
        assert_eq!(LLVMInstruction::try_from_u64(id as u64), Some(i));
        if let Ok(small) = u32::try_from(id) {
            assert_eq!(LLVMInstruction::try_from_u32(small), Some(i));
        }
        if let Ok(small) = u16::try_from(id) {
            assert_eq!(LLVMInstruction::try_from_u16(small), Some(i));
        }
    }
}

#[test]
fn custom_op_codes_do_not_fit_small_integers_by_accident() {
    assert_eq!(LLVMInstruction::InjectedCall.id(), 1337);
    assert_eq!(LLVMInstruction::CustomPatchPoint.id(), 1338);
    assert_eq!(LLVMInstruction::try_from_u16(1337), Some(LLVMInstruction::InjectedCall));
    assert_eq!(LLVMInstruction::try_from_u32(1338), Some(LLVMInstruction::CustomPatchPoint));
}
