use nvtrust::cpuid::check_sev_snp;
use nvtrust::cpuid::sme_me_mask;
use nvtrust::cpuid::svm_verdict;
use nvtrust::cpuid::SnpError;
use nvtrust::cpuid::SvmReport;

#[test]
fn verdict_without_svm_leaf() {
    assert_eq!(svm_verdict(None), Err(SnpError::NoSvmInfo));
}

#[test]
fn verdict_without_nested_paging() {
    let report = SvmReport { nested_paging: false, asids: 0x8000 };
    assert_eq!(svm_verdict(Some(report)), Err(SnpError::NoNestedPaging));
}

#[test]
fn verdict_with_nested_paging_gives_asids() {
    let report = SvmReport { nested_paging: true, asids: 0x8000 };
    assert_eq!(svm_verdict(Some(report)), Ok(0x8000));
}

#[test]
fn mask_has_the_named_bit() {
    assert_eq!(sme_me_mask(0), 1);
    assert_eq!(sme_me_mask(47), 1 << 47);
    assert_eq!(sme_me_mask(51), 1 << 51);
    assert_eq!(sme_me_mask(63), 1 << 63);
    assert_eq!(sme_me_mask(0x0000_016f), 1 << 47);
    assert_eq!(sme_me_mask(0xffff_ffc0), 1);
}

#[test]
fn snp_error_messages() {
    assert_eq!(SnpError::NoNestedPaging.message(), "nested paging is not supported");
    assert_ne!(SnpError::NoSvmInfo.message(), SnpError::NoNestedPaging.message());
}

#[test]
fn check_on_this_processor_is_consistent() {
    let first = check_sev_snp();
    let second = check_sev_snp();
    assert_eq!(first.is_ok(), second.is_ok());
    if let Ok(found) = first {
        assert_eq!(found.sme_me_mask.count_ones(), 1);
    }
}
