//! Whether the processor offers AMD SEV-SNP, as its CPUID leaves tell.

use vstd::prelude::*;

verus! {

/// The CPUID leaf that describes memory encryption.
pub const MEMORY_ENCRYPTION_LEAF: u32 = 0x8000_001f;

/// The bits of EBX of that leaf that give the position of the page-table
/// bit which marks a page as encrypted.
pub const ENCRYPTION_BIT_MASK: u32 = 0x3f;

/// The processor's handle for CPUID queries, of the x86 crate.
#[verifier::external_type_specification]
#[verifier::external_body]
pub struct ExCpuId(x86::cpuid::CpuId);

/// What the processor reports of its secure virtual machine, of the x86
/// crate.
#[verifier::external_type_specification]
#[verifier::external_body]
pub struct ExSvmFeatures(x86::cpuid::SvmFeatures);

/// `CpuId::new` reads the vendor and the number of leaves of the processor
/// that runs the code. Nothing is claimed of what it finds.
pub assume_specification[ x86::cpuid::CpuId::new ]() -> (id: x86::cpuid::CpuId)
;

/// `CpuId::get_svm_info` gives the secure-virtual-machine leaf where the
/// processor has one. Nothing is claimed of which processors do.
pub assume_specification[ x86::cpuid::CpuId::get_svm_info ](id: &x86::cpuid::CpuId) -> (svm:
    Option<x86::cpuid::SvmFeatures>)
;

/// `SvmFeatures::has_nested_paging` tells whether the leaf has the nested
/// paging bit set. Nothing is claimed of the answer.
pub assume_specification[ x86::cpuid::SvmFeatures::has_nested_paging ](
    svm: &x86::cpuid::SvmFeatures,
) -> (yes: bool)
;

/// `SvmFeatures::supported_asids` gives the number of address space
/// identifiers of the leaf. Nothing is claimed of the number.
pub assume_specification[ x86::cpuid::SvmFeatures::supported_asids ](
    svm: &x86::cpuid::SvmFeatures,
) -> (count: u32)
;

/// `native_cpuid::cpuid_count` of the x86 crate runs the CPUID instruction
/// for a leaf and a subleaf; this hands on the EBX register of the result.
/// Nothing is claimed of its value.
#[verifier::external_body]
fn cpuid_ebx(leaf: u32, subleaf: u32) -> (ebx: u32) {
    x86::cpuid::native_cpuid::cpuid_count(leaf, subleaf).ebx
}

/// What the secure-virtual-machine leaf says, as far as the check reads
/// it.
#[derive(Clone, Copy, Debug, PartialEq, Eq, Structural)]
pub struct SvmReport {
    /// Whether nested paging is supported.
    pub nested_paging: bool,
    /// The number of address space identifiers.
    pub asids: u32,
}

/// What a processor with SEV-SNP offers.
#[derive(Clone, Copy, Debug, PartialEq, Eq, Structural)]
pub struct SnpSupport {
    /// The number of address space identifiers.
    pub asids: u32,
    /// The mask of the page-table bit that marks a page as encrypted.
    pub sme_me_mask: u64,
}

/// Why a processor does not offer SEV-SNP.
#[derive(Clone, Copy, Debug, PartialEq, Eq, Structural)]
pub enum SnpError {
    /// The processor has no secure-virtual-machine leaf.
    NoSvmInfo,
    /// The processor has the leaf, but no nested paging.
    NoNestedPaging,
}

impl SnpError {
    /// The text that [`SnpError::message`] returns.
    pub open spec fn spec_message(&self) -> &'static str {
        match self {
            SnpError::NoSvmInfo => "no svm information detected: is this a SNP-supported CPU?",
            SnpError::NoNestedPaging => "nested paging is not supported",
        }
    }

    /// A short description of the failure, for messages.
    pub fn message(&self) -> (text: &'static str)
        ensures
            text@ == self.spec_message()@,
    {
        match self {
            SnpError::NoSvmInfo => "no svm information detected: is this a SNP-supported CPU?",
            SnpError::NoNestedPaging => "nested paging is not supported",
        }
    }
}

/// The position of the encryption bit that EBX of the memory encryption
/// leaf gives: its lowest six bits.
pub open spec fn encryption_bit(ebx: u32) -> u32 {
    ebx & ENCRYPTION_BIT_MASK
}

/// The mask with only the encryption bit set.
pub open spec fn encryption_mask(ebx: u32) -> u64 {
    1u64 << (encryption_bit(ebx) as u64)
}

/// The verdict on the secure-virtual-machine leaf: the number of address
/// space identifiers where the leaf is there and nested paging is
/// supported, else the reason why not.
pub open spec fn verdict(svm: Option<SvmReport>) -> Result<u32, SnpError> {
    match svm {
        None => Err(SnpError::NoSvmInfo),
        Some(report) => if report.nested_paging {
            Ok(report.asids)
        } else {
            Err(SnpError::NoNestedPaging)
        },
    }
}

/// Judges the secure-virtual-machine leaf.
pub fn svm_verdict(svm: Option<SvmReport>) -> (judged: Result<u32, SnpError>)
    ensures
        judged == verdict(svm),
{
    match svm {
        None => Err(SnpError::NoSvmInfo),
        Some(report) => if report.nested_paging {
            Ok(report.asids)
        } else {
            Err(SnpError::NoNestedPaging)
        },
    }
}

/// Computes the mask of the encryption bit from EBX of the memory
/// encryption leaf.
pub fn sme_me_mask(ebx: u32) -> (mask: u64)
    ensures
        mask == encryption_mask(ebx),
        encryption_bit(ebx) < 64,
{
    let bit = ebx & ENCRYPTION_BIT_MASK;
    assert(bit < 64) by (bit_vector)
        requires
            bit == ebx & 0x3fu32,
    ;
    1u64 << (bit as u64)
}

/// Asks the processor that runs the code whether it offers SEV-SNP.
///
/// The answer is the processor's: all that holds of every answer is that
/// a mask that comes back has exactly one bit set, the one that the memory
/// encryption leaf names.
pub fn check_sev_snp() -> (support: Result<SnpSupport, SnpError>)
    ensures
        support matches Ok(found) ==> exists|ebx: u32| found.sme_me_mask == encryption_mask(ebx),
{
    let cpuid = x86::cpuid::CpuId::new();
    let svm = match cpuid.get_svm_info() {
        Some(svm) => Some(
            SvmReport { nested_paging: svm.has_nested_paging(), asids: svm.supported_asids() },
        ),
        None => None,
    };
    match svm_verdict(svm) {
        Err(e) => Err(e),
        Ok(asids) => {
            let ebx = cpuid_ebx(MEMORY_ENCRYPTION_LEAF, 0);
            Ok(SnpSupport { asids, sme_me_mask: sme_me_mask(ebx) })
        },
    }
}

} // verus!
