use cretonne::isa::riscv::settings::{builder, Flags};
use cretonne::settings::{self, Configurable};

#[test]
fn display_default() {
    let shared = settings::Flags::new(settings::builder());
    let b = builder();
    let f = Flags::new(&shared, b);
    assert_eq!(
        f.to_string(),
        "[riscv]\n\
         supports_m = false\n\
         supports_a = false\n\
         supports_f = false\n\
         supports_d = false\n\
         enable_m = true\n"
    );
    // Predicates are not part of the Display output.
    assert_eq!(f.full_float(), false);
}

#[test]
fn predicates() {
    let shared = settings::Flags::new(settings::builder());
    let mut b = builder();
    b.set_bool("supports_f", true).unwrap();
    b.set_bool("supports_d", true).unwrap();
    let f = Flags::new(&shared, b);
    assert_eq!(f.full_float(), true);

    let mut sb = settings::builder();
    sb.set_bool("enable_simd", false).unwrap();
    let shared = settings::Flags::new(sb);
    let mut b = builder();
    b.set_bool("supports_f", true).unwrap();
    b.set_bool("supports_d", true).unwrap();
    let f = Flags::new(&shared, b);
    assert_eq!(f.full_float(), false);
}

#[test]
fn riscv_set_bool_reads_back() {
    let shared = settings::Flags::new(settings::builder());
    let mut b = builder();
    assert_eq!(b.set_bool("supports_m", true), Ok(()));
    assert_eq!(b.set_bool("enable_m", false), Ok(()));
    let f = Flags::new(&shared, b);
    assert!(f.supports_m());
    assert!(!f.supports_a());
    assert!(!f.supports_f());
    assert!(!f.supports_d());
    assert!(!f.enable_m());
    assert_eq!(
        f.to_string(),
        "[riscv]\nsupports_m = true\nsupports_a = false\nsupports_f = false\nsupports_d = false\nenable_m = false\n"
    );
}

#[test]
fn riscv_full_float_needs_both_extensions() {
    let shared = settings::Flags::new(settings::builder());
    let mut b = builder();
    b.set_bool("supports_f", true).unwrap();
    let f = Flags::new(&shared, b);
    assert!(f.supports_f());
    assert!(!f.full_float());
    assert!(!f.numbered_predicate(5));
}

#[test]
fn riscv_set_by_text() {
    let shared = settings::Flags::new(settings::builder());
    let mut b = builder();
    assert_eq!(b.set("supports_a", "on"), Ok(()));
    assert_eq!(b.set("supports_f", "yes"), Ok(()));
    assert_eq!(b.set("supports_d", "1"), Ok(()));
    assert_eq!(b.set("enable_m", "off"), Ok(()));
    assert_eq!(b.set("supports_m", "maybe"), Err(settings::Error::BadValue));
    assert_eq!(b.set("supports_x", "true"), Err(settings::Error::BadName));
    let f = Flags::new(&shared, b);
    assert!(!f.supports_m());
    assert!(f.supports_a());
    assert!(f.full_float());
    assert!(!f.enable_m());
}
