use cconst::marshal::create_constant_func;
use cconst::registry::{build_output_path, CommitError, CopyConsts};

#[test]
fn output_path_joins_dir_prefix_and_name() {
    assert_eq!(build_output_path("/tmp/out", "default_ns"), "/tmp/out/cconst-default_ns.rs");
}

#[test]
fn default_ns_u32_example() {
    let value: u32 = 0x0808_0808;
    let bytes = value.to_ne_bytes();
    let mut cs = CopyConsts::new();
    cs.add_const("default_ns", "u32", &bytes);
    let plan = cs.write_plan(Some("out")).unwrap();
    assert_eq!(plan.len(), 1);
    assert_eq!(plan[0].0, "out/cconst-default_ns.rs");
    assert!(plan[0].1.contains("const BUF: &[u8] = &[0x08, 0x08, 0x08, 0x08, ];"));
    assert!(plan[0].1.starts_with("#[inline]\nfn default_ns() -> &'static u32 {"));
    assert_eq!(u32::from_ne_bytes(bytes), 0x0808_0808);
}

#[test]
fn add_same_name_keeps_second_value() {
    let mut cs = CopyConsts::new();
    cs.add_const("limit", "u8", &[1]);
    cs.add_const("limit", "u8", &[2]);
    let plan = cs.write_plan(Some("d")).unwrap();
    assert_eq!(plan.len(), 1);
    assert_eq!(plan[0].0, "d/cconst-limit.rs");
    assert_eq!(plan[0].1, create_constant_func("limit", "u8", &[2]));
    assert_ne!(plan[0].1, create_constant_func("limit", "u8", &[1]));
}

#[test]
fn empty_registry_plans_no_writes() {
    let cs = CopyConsts::new();
    assert_eq!(cs.write_plan(None).unwrap().len(), 0);
    assert_eq!(cs.write_plan(Some("d")).unwrap().len(), 0);
}

#[test]
fn missing_output_dir_is_configuration_error() {
    let mut cs = CopyConsts::new();
    cs.add_const("x", "u8", &[7]);
    assert_eq!(cs.write_plan(None), Err(CommitError::Configuration));
}

#[test]
fn two_names_two_files() {
    let mut cs = CopyConsts::new();
    cs.add_const("first", "u8", &[0x11]);
    cs.add_const("second", "u16", &[0x22, 0x33]);
    let mut plan = cs.write_plan(Some("o")).unwrap();
    plan.sort();
    assert_eq!(plan.len(), 2);
    assert_eq!(plan[0].0, "o/cconst-first.rs");
    assert_eq!(plan[1].0, "o/cconst-second.rs");
    assert_eq!(plan[0].1, create_constant_func("first", "u8", &[0x11]));
    assert_eq!(plan[1].1, create_constant_func("second", "u16", &[0x22, 0x33]));
    assert!(!plan[0].1.contains("second"));
    assert!(!plan[1].1.contains("first"));
}
