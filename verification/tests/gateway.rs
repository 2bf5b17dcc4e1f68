//! Resolving the imports of a guest.

use polkadot_re_mock::error::Error;
use polkadot_re_mock::gateway::{Signature, ValueType};
use polkadot_re_mock::parachain;
use polkadot_re_mock::parachain::ParachainImportResolver;
use polkadot_re_mock::spree::fn_index;
use polkadot_re_mock::spree::{param_count, SpreeModuleImportResolver};

fn i32s(params: usize, has_result: bool) -> Signature {
    Signature::new(
        vec![ValueType::I32; params],
        if has_result { Some(ValueType::I32) } else { None },
    )
}

#[test]
fn each_host_function_resolves_to_its_index() {
    let resolver = SpreeModuleImportResolver;
    assert_eq!(resolver.resolve_func("scratch_buf_size", &i32s(0, true)).unwrap(), 1);
    assert_eq!(resolver.resolve_func("scratch_buf_read", &i32s(1, false)).unwrap(), 2);
    assert_eq!(resolver.resolve_func("send", &i32s(3, true)).unwrap(), 3);
    assert_eq!(resolver.resolve_func("poll", &i32s(0, false)).unwrap(), 4);
    assert_eq!(resolver.resolve_func("storage_read", &i32s(2, true)).unwrap(), 5);
    assert_eq!(resolver.resolve_func("storage_write", &i32s(4, false)).unwrap(), 6);
}

#[test]
fn the_indexes_are_the_named_ones() {
    assert_eq!(fn_index::SCRATCH_BUF_SIZE, 1);
    assert_eq!(fn_index::SCRATCH_BUF_READ, 2);
    assert_eq!(fn_index::SEND, 3);
    assert_eq!(fn_index::POLL, 4);
    assert_eq!(fn_index::STORAGE_READ, 5);
    assert_eq!(fn_index::STORAGE_WRITE, 6);
    assert_eq!(parachain::fn_index::CALL_SHARED_MODULE, 0);
}

#[test]
fn an_unknown_name_is_refused_with_the_name() {
    let resolver = SpreeModuleImportResolver;
    match resolver.resolve_func("call_shared_module", &i32s(4, false)) {
        Err(Error::UnknownFunction(name)) => assert_eq!(name, "call_shared_module"),
        other => panic!("{:?}", other),
    }
    match resolver.resolve_func("", &i32s(0, false)) {
        Err(Error::UnknownFunction(name)) => assert_eq!(name, ""),
        other => panic!("{:?}", other),
    }
    match resolver.resolve_func("Send", &i32s(3, true)) {
        Err(Error::UnknownFunction(name)) => assert_eq!(name, "Send"),
        other => panic!("{:?}", other),
    }
}

#[test]
fn a_wrong_signature_is_refused_with_the_name() {
    let resolver = SpreeModuleImportResolver;
    // one parameter short
    match resolver.resolve_func("send", &i32s(2, true)) {
        Err(Error::WrongSignature(name)) => assert_eq!(name, "send"),
        other => panic!("{:?}", other),
    }
    // no result where there is one
    assert!(matches!(
        resolver.resolve_func("send", &i32s(3, false)),
        Err(Error::WrongSignature(_))
    ));
    // a result where there is none
    assert!(matches!(
        resolver.resolve_func("poll", &i32s(0, true)),
        Err(Error::WrongSignature(_))
    ));
    // a parameter of another type
    let wide = Signature::new(
        vec![ValueType::I32, ValueType::I64, ValueType::I32],
        Some(ValueType::I32),
    );
    assert!(matches!(resolver.resolve_func("send", &wide), Err(Error::WrongSignature(_))));
    // a result of another type
    let wide_result = Signature::new(Vec::new(), Some(ValueType::I64));
    assert!(matches!(
        resolver.resolve_func("scratch_buf_size", &wide_result),
        Err(Error::WrongSignature(_))
    ));
}

#[test]
fn the_parachain_gateway_has_call_shared_module_only() {
    let resolver = ParachainImportResolver;
    assert_eq!(resolver.resolve_func("call_shared_module", &i32s(4, false)).unwrap(), 0);
    assert!(matches!(
        resolver.resolve_func("call_shared_module", &i32s(3, false)),
        Err(Error::WrongSignature(_))
    ));
    assert!(matches!(
        resolver.resolve_func("call_shared_module", &i32s(4, true)),
        Err(Error::WrongSignature(_))
    ));
    match resolver.resolve_func("send", &i32s(3, true)) {
        Err(Error::UnknownFunction(name)) => assert_eq!(name, "send"),
        other => panic!("{:?}", other),
    }
    match resolver.resolve_func("call_spree", &i32s(4, false)) {
        Err(Error::UnknownFunction(name)) => assert_eq!(name, "call_spree"),
        other => panic!("{:?}", other),
    }
}

#[test]
fn a_signature_tells_whether_it_is_of_i32s() {
    assert!(i32s(0, false).is_i32s(0, false));
    assert!(i32s(3, true).is_i32s(3, true));
    assert!(!i32s(3, true).is_i32s(3, false));
    assert!(!i32s(3, true).is_i32s(2, true));
    assert!(!Signature::new(vec![ValueType::F32], None).is_i32s(1, false));
    assert_eq!(i32s(2, true).params(), &[ValueType::I32, ValueType::I32]);
    assert_eq!(i32s(2, true).return_type(), Some(ValueType::I32));
}

#[test]
fn each_index_has_its_number_of_parameters() {
    assert_eq!(param_count(0), None);
    assert_eq!(param_count(1), Some(0));
    assert_eq!(param_count(2), Some(1));
    assert_eq!(param_count(3), Some(3));
    assert_eq!(param_count(4), Some(0));
    assert_eq!(param_count(5), Some(2));
    assert_eq!(param_count(6), Some(4));
    assert_eq!(param_count(7), None);
    assert_eq!(param_count(usize::MAX), None);
    assert_eq!(parachain::param_count(0), Some(4));
    assert_eq!(parachain::param_count(1), None);
}
