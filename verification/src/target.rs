//! Description of the 64-bit RISC-V Android platform.
use vstd::prelude::*;

verus! {

/// How far code and data may lie apart.
#[derive(Clone, Copy, Debug, PartialEq, Eq, Structural)]
pub enum CodeModel {
    Tiny,
    Small,
    Kernel,
    Medium,
    Large,
}

/// Calling conventions.
#[derive(Clone, Copy, Debug, PartialEq, Eq, Structural)]
pub enum Abi {
    Rust,
    C,
    Cdecl,
    Stdcall { unwind: bool },
    Fastcall,
    Vectorcall,
    Thiscall { unwind: bool },
    Aapcs,
    Win64,
    SysV64,
    PtxKernel,
    Msp430Interrupt,
    X86Interrupt,
    AmdGpuKernel,
}

/// The options of a platform that have defaults.
#[derive(Debug, Clone, PartialEq)]
pub struct TargetOptions {
    pub os: String,
    pub cpu: String,
    pub features: String,
    pub llvm_abiname: String,
    pub max_atomic_width: Option<u64>,
    pub code_model: Option<CodeModel>,
    pub unsupported_abis: Vec<Abi>,
}

/// A platform that programs are compiled for.
#[derive(Debug, Clone, PartialEq)]
pub struct Target {
    pub llvm_target: String,
    pub pointer_width: u32,
    pub data_layout: String,
    pub arch: String,
    pub options: TargetOptions,
}

/// The options that every Android platform starts from.
pub fn android_base_opts() -> (base: TargetOptions)
    ensures
        base.os@ == "android"@,
        base.cpu@ == "generic"@,
        base.features@ == ""@,
        base.llvm_abiname@ == ""@,
        base.max_atomic_width == None::<u64>,
        base.code_model == None::<CodeModel>,
        base.unsupported_abis@ == Seq::<Abi>::empty(),
{
    TargetOptions {
        os: "android".to_string(),
        cpu: "generic".to_string(),
        features: "".to_string(),
        llvm_abiname: "".to_string(),
        max_atomic_width: None,
        code_model: None,
        unsupported_abis: Vec::new(),
    }
}

/// The calling conventions that no RISC-V platform supports, in the order in
/// which [`riscv_unsupported_abis`] lists them.
pub open spec fn riscv_unsupported_abi_list() -> Seq<Abi> {
    seq![
        Abi::Cdecl,
        Abi::Stdcall { unwind: false },
        Abi::Stdcall { unwind: true },
        Abi::Fastcall,
        Abi::Vectorcall,
        Abi::Thiscall { unwind: false },
        Abi::Thiscall { unwind: true },
        Abi::Aapcs,
        Abi::Win64,
        Abi::SysV64,
        Abi::PtxKernel,
        Abi::Msp430Interrupt,
        Abi::X86Interrupt,
        Abi::AmdGpuKernel,
    ]
}

/// The calling conventions that no RISC-V platform supports.
pub fn riscv_unsupported_abis() -> (abis: Vec<Abi>)
    ensures
        abis@ == riscv_unsupported_abi_list(),
{
    let mut abis: Vec<Abi> = Vec::new();
    abis.push(Abi::Cdecl);
    abis.push(Abi::Stdcall { unwind: false });
    abis.push(Abi::Stdcall { unwind: true });
    abis.push(Abi::Fastcall);
    abis.push(Abi::Vectorcall);
    abis.push(Abi::Thiscall { unwind: false });
    abis.push(Abi::Thiscall { unwind: true });
    abis.push(Abi::Aapcs);
    abis.push(Abi::Win64);
    abis.push(Abi::SysV64);
    abis.push(Abi::PtxKernel);
    abis.push(Abi::Msp430Interrupt);
    abis.push(Abi::X86Interrupt);
    abis.push(Abi::AmdGpuKernel);
    assert(abis@ =~= riscv_unsupported_abi_list());
    abis
}

/// The 64-bit RISC-V Android platform: the Android base options with the
/// generic 64-bit RISC-V processor, its standard extensions, the double-float
/// ABI, the medium code model and atomics of up to 64 bits.
pub fn target() -> (t: Target)
    ensures
        t.llvm_target@ == "riscv64-linux-android"@,
        t.pointer_width == 64,
        t.data_layout@ == "e-m:e-p:64:64-i64:64-i128:128-n64-S128"@,
        t.arch@ == "riscv64"@,
        t.options.os@ == "android"@,
        t.options.cpu@ == "generic-rv64"@,
        t.options.features@ == "+m,+a,+f,+d,+c"@,
        t.options.llvm_abiname@ == "lp64d"@,
        t.options.max_atomic_width == Some(64u64),
        t.options.code_model == Some(CodeModel::Medium),
        t.options.unsupported_abis@ == riscv_unsupported_abi_list(),
{
    let mut base = android_base_opts();
    base.max_atomic_width = Some(64);
    base.features = "+m,+a,+f,+d,+c".to_string();
    base.code_model = Some(CodeModel::Medium);
    base.cpu = "generic-rv64".to_string();
    base.llvm_abiname = "lp64d".to_string();
    base.unsupported_abis = riscv_unsupported_abis();
    Target {
        llvm_target: "riscv64-linux-android".to_string(),
        pointer_width: 64,
        data_layout: "e-m:e-p:64:64-i64:64-i128:128-n64-S128".to_string(),
        arch: "riscv64".to_string(),
        options: base,
    }
}

} // verus!
