//! Import and export validation for both interface generations, tag
//! parsing, and import resolution.

use wasm_chain_integration::types::{FunctionType, ValueType};
use wasm_chain_integration::v0::types as v0t;
use wasm_chain_integration::v1::types as v1t;

fn ft(params: Vec<ValueType>, result: Option<ValueType>) -> FunctionType {
    FunctionType { parameters: params, result }
}

#[test]
fn v0_import_table() {
    let v = v0t::ConcordiumAllowedImports;
    let i32t = ValueType::I32;
    let i64t = ValueType::I64;
    assert!(v.validate_import_function(false, "concordium", "accept", &ft(vec![], Some(i32t))));
    assert!(v.validate_import_function(
        false,
        "concordium",
        "simple_transfer",
        &ft(vec![i32t, i64t], Some(i32t))
    ));
    assert!(v.validate_import_function(
        false,
        "concordium",
        "log_event",
        &ft(vec![i32t, i32t], None)
    ));
    // A duplicate, a wrong module, a wrong type and an unknown name are all
    // rejected.
    assert!(!v.validate_import_function(true, "concordium", "accept", &ft(vec![], Some(i32t))));
    assert!(!v.validate_import_function(false, "other", "accept", &ft(vec![], Some(i32t))));
    assert!(!v.validate_import_function(false, "concordium", "accept", &ft(vec![], Some(i64t))));
    assert!(!v.validate_import_function(false, "concordium", "unknown", &ft(vec![], Some(i32t))));
}

#[test]
fn v0_export_rules() {
    let v = v0t::ConcordiumAllowedImports;
    let good = ft(vec![ValueType::I64], Some(ValueType::I32));
    assert!(v.validate_export_function("init_counter", &good));
    assert!(v.validate_export_function("counter.receive", &good));
    // An init name must not contain a dot; any other name must contain one.
    assert!(!v.validate_export_function("init_counter.x", &good));
    assert!(!v.validate_export_function("plain", &good));
    // The entrypoint signature is mandatory in the first generation.
    assert!(!v.validate_export_function("counter.receive", &ft(vec![], Some(ValueType::I32))));
    // Non-printable characters and over-long names are rejected.
    assert!(!v.validate_export_function("has space.x", &good));
    let long = "x".repeat(101) + ".y";
    assert!(!v.validate_export_function(&long, &good));
}

#[test]
fn v0_tag_round_trip() {
    for tag in 0u8..=24 {
        let f = v0t::ImportFunc::parse(tag).expect("tags up to 24 are known");
        assert_eq!(f.output(), tag);
    }
    assert!(v0t::ImportFunc::parse(25).is_none());
    assert!(v0t::ImportFunc::parse(255).is_none());
}

#[test]
fn v0_try_from_import() {
    let ctx = vec![ft(vec![ValueType::I32, ValueType::I64], Some(ValueType::I32))];
    let pi = v0t::ProcessedImports::try_from_import(&ctx, "concordium", "simple_transfer", 0)
        .unwrap();
    assert!(matches!(
        pi.tag,
        v0t::ImportFunc::ReceiveOnly(v0t::ReceiveOnlyFunc::SimpleTransfer)
    ));
    assert_eq!(pi.ty().parameters, vec![ValueType::I32, ValueType::I64]);
    assert_eq!(pi.ty().result, Some(ValueType::I32));
    let pe = v0t::ProcessedImports::try_from_import(&ctx, "concordium_metering", "account_energy", 0)
        .unwrap();
    assert!(matches!(pe.tag, v0t::ImportFunc::ChargeEnergy));
    assert!(v0t::ProcessedImports::try_from_import(&ctx, "concordium", "nope", 0).is_err());
    assert!(
        v0t::ProcessedImports::try_from_import(&ctx, "concordium", "simple_transfer", 1).is_err()
    );
    assert!(v0t::ProcessedImports::try_from_import(&ctx, "elsewhere", "accept", 0).is_err());
}

#[test]
fn v1_import_table() {
    let v = v1t::ConcordiumAllowedImports;
    let i32t = ValueType::I32;
    let i64t = ValueType::I64;
    assert!(v.validate_import_function(
        false,
        "concordium",
        "invoke",
        &ft(vec![i32t, i32t, i32t], Some(i64t))
    ));
    assert!(v.validate_import_function(
        false,
        "concordium",
        "state_lookup_entry",
        &ft(vec![i32t, i32t], Some(i64t))
    ));
    assert!(v.validate_import_function(
        false,
        "concordium",
        "state_entry_read",
        &ft(vec![i64t, i32t, i32t, i32t], Some(i32t))
    ));
    // The first-generation flat-state interface is gone.
    assert!(!v.validate_import_function(
        false,
        "concordium",
        "write_state",
        &ft(vec![i32t, i32t, i32t], Some(i32t))
    ));
    assert!(!v.validate_import_function(
        false,
        "concordium",
        "invoke",
        &ft(vec![i32t, i32t], Some(i64t))
    ));
}

#[test]
fn v1_export_rules() {
    let v = v1t::ConcordiumAllowedImports;
    let entry = ft(vec![ValueType::I64], Some(ValueType::I32));
    let other = ft(vec![], None);
    assert!(v.validate_export_function("init_counter", &entry));
    assert!(v.validate_export_function("counter.receive", &entry));
    // A name that is neither an init nor a receive entrypoint may have any
    // type in the second generation.
    assert!(v.validate_export_function("helper_fn", &other));
    assert!(!v.validate_export_function("counter.receive", &other));
    assert!(!v.validate_export_function("bad name.x", &entry));
}

#[test]
fn v1_tag_round_trip() {
    for tag in 0u8..=28 {
        let f = v1t::ImportFunc::parse(tag).expect("tags up to 28 are known");
        assert_eq!(f.output(), tag);
    }
    assert!(v1t::ImportFunc::parse(29).is_none());
}

#[test]
fn v1_try_from_import() {
    let ctx = vec![ft(vec![ValueType::I32, ValueType::I32, ValueType::I32], Some(ValueType::I64))];
    let pi = v1t::ProcessedImports::try_from_import(&ctx, "concordium", "invoke", 0).unwrap();
    assert!(matches!(
        pi.tag,
        v1t::ImportFunc::ReceiveOnly(v1t::ReceiveOnlyFunc::Invoke)
    ));
    let pm =
        v1t::ProcessedImports::try_from_import(&ctx, "concordium_metering", "track_call", 0)
            .unwrap();
    assert!(matches!(pm.tag, v1t::ImportFunc::TrackCall));
    assert!(v1t::ProcessedImports::try_from_import(&ctx, "concordium", "resize_state", 0).is_err());
}

#[test]
fn handle_encoding_round_trip() {
    let h = v1t::InstanceStateEntry::new(5, 77);
    let (gen, idx) = h.split();
    assert_eq!(gen, 5);
    assert_eq!(idx, 77);
    let hi = v1t::InstanceStateIterator::new(0x7fff_fffe, 0xffff_ffff);
    let (g2, i2) = hi.split();
    assert_eq!(g2, 0x7fff_fffe);
    assert_eq!(i2, 0xffff_ffff);
    // The absent optional handle is all zeros; a present one has the top
    // bit set.
    let none = v1t::InstanceStateEntryOption::new(None);
    assert_eq!(none.index, 0);
    let some = v1t::InstanceStateEntryOption::new(Some((5, 77)));
    assert_ne!(some.index & (1u64 << 63), 0);
}
