use const_evaluatable::target::{android_base_opts, riscv_unsupported_abis, target, Abi, CodeModel};

#[test]
fn riscv64_android_target() {
    let t = target();
    assert_eq!(t.llvm_target, "riscv64-linux-android");
    assert_eq!(t.pointer_width, 64);
    assert_eq!(t.data_layout, "e-m:e-p:64:64-i64:64-i128:128-n64-S128");
    assert_eq!(t.arch, "riscv64");
    assert_eq!(t.options.os, "android");
    assert_eq!(t.options.cpu, "generic-rv64");
    assert_eq!(t.options.features, "+m,+a,+f,+d,+c");
    assert_eq!(t.options.llvm_abiname, "lp64d");
    assert_eq!(t.options.max_atomic_width, Some(64));
    assert_eq!(t.options.code_model, Some(CodeModel::Medium));
    assert_eq!(t.options.unsupported_abis, riscv_unsupported_abis());
}

#[test]
fn android_base_has_no_processor_settings() {
    let base = android_base_opts();
    assert_eq!(base.os, "android");
    assert_eq!(base.cpu, "generic");
    assert_eq!(base.features, "");
    assert_eq!(base.llvm_abiname, "");
    assert_eq!(base.max_atomic_width, None);
    assert_eq!(base.code_model, None);
    assert!(base.unsupported_abis.is_empty());
}

#[test]
fn riscv_supports_neither_x86_nor_arm_conventions() {
    let abis = riscv_unsupported_abis();
    assert_eq!(abis.len(), 14);
    assert_eq!(abis[0], Abi::Cdecl);
    assert_eq!(abis[13], Abi::AmdGpuKernel);
    assert!(abis.contains(&Abi::Stdcall { unwind: true }));
    assert!(abis.contains(&Abi::Aapcs));
    assert!(!abis.contains(&Abi::C));
    assert!(!abis.contains(&Abi::Rust));
}
