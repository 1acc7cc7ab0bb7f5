use ns_compiler::ast::{BinOpType, TypeName};
use ns_compiler::arena::Idx;
use ns_compiler::ir::{Access, FloatTy, IntTy, UIntTy};
use ns_compiler::lang::Path;
use ns_compiler::text::{decimal, signed_decimal, str_eq};

#[test]
fn decimal_numbers() {
    assert_eq!(decimal(0), "0");
    assert_eq!(decimal(7), "7");
    assert_eq!(decimal(1234567890), "1234567890");
    assert_eq!(decimal(u64::MAX), "18446744073709551615");
    assert_eq!(signed_decimal(-42), "-42");
    assert_eq!(signed_decimal(i64::MIN), "-9223372036854775808");
    assert_eq!(signed_decimal(i64::MAX), "9223372036854775807");
}

#[test]
fn string_equality() {
    assert!(str_eq("Int8", "Int8"));
    assert!(!str_eq("Int8", "Int16"));
    assert!(!str_eq("", "a"));
    assert!(str_eq("", ""));
}

#[test]
fn paths() {
    let p = Path::of("std").append("io".to_string()).append("File".to_string());
    assert_eq!(p.to_string(), "std::io::File");
    let mut q = p.clone();
    assert_eq!(q.pop(), "File");
    assert_eq!(q.to_string(), "std::io");
    assert_eq!(Path::new().to_string(), "");
    assert_eq!(Path::of("a").to_string(), "a");
}

#[test]
fn type_names() {
    let mut t = TypeName::from((Path::of("core"), "List".to_string()));
    assert_eq!(t.to_string(), "core::List");
    t.arguments = vec![Idx { slot: 3, generation: 0 }, Idx { slot: 12, generation: 1 }];
    assert_eq!(t.to_string(), "core::List[312]");
}

#[test]
fn primitive_names_and_widths() {
    assert_eq!(IntTy::from("Int16"), Some(IntTy::I16));
    assert_eq!(IntTy::from("IntSize").map(|t| t.bits()), Some(64));
    assert_eq!(IntTy::from("UInt8"), None);
    assert_eq!(UIntTy::from("UInt128").map(|t| t.bits()), Some(128));
    assert_eq!(UIntTy::from("USize"), Some(UIntTy::USize));
    assert_eq!(FloatTy::from("Float16").map(|t| t.bits()), Some(16));
    assert_eq!(FloatTy::from("Float80"), None);
    assert_eq!(IntTy::I128.to_string(), "Int128");
    assert_eq!(UIntTy::U32.to_string(), "UInt32");
    assert_eq!(FloatTy::F64.to_string(), "Float64");
    assert_eq!(Access::from(ns_compiler::ast::Access::Internal), Access::Internal);
    assert_eq!(BinOpType::GreaterThanEqualTo.to_string(), ">=");
    assert_eq!(BinOpType::And.to_string(), "and");
}
