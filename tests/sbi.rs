use penglai_pmp::sbi::SbiRet;

#[test]
fn sbi_error_codes() {
    assert_eq!(SbiRet::success(5), SbiRet { error: 0, value: 5 });
    assert_eq!(SbiRet::failed().error as isize, -1);
    assert_eq!(SbiRet::invalid_param().error as isize, -3);
    assert_eq!(SbiRet::invalid_address().error as isize, -5);
    assert_eq!(SbiRet::already_started().error as isize, -7);
}
