use web_sw_cor24_forth::config::{ForthTier, StackSize};

#[test]
fn tier_labels_and_sources() {
    assert_eq!(ForthTier::Bootstrap.label(), "Bootstrap");
    assert_eq!(ForthTier::Interpreter.label(), "Interpreter");
    assert!(ForthTier::Interpreter.description().starts_with("Phase 4"));
    assert_eq!(ForthTier::Bootstrap.assembly("boot", "interp"), "boot");
    assert_eq!(ForthTier::Interpreter.assembly("boot", "interp"), "interp");
    assert_eq!(ForthTier::all(), [ForthTier::Bootstrap, ForthTier::Interpreter]);
}

#[test]
fn stack_sizes() {
    assert_eq!(StackSize::ThreeKb.initial_sp(), 0xFEEC00);
    assert_eq!(StackSize::EightKb.initial_sp(), 0xFF0000);
    assert_eq!(StackSize::ThreeKb.bytes(), 3072);
    assert_eq!(StackSize::EightKb.bytes(), 8192);
    assert_eq!(StackSize::ThreeKb.label(), "3 KB");
    assert_eq!(StackSize::EightKb.label(), "8 KB");
    assert_eq!(StackSize::all(), [StackSize::ThreeKb, StackSize::EightKb]);
}
