//! Forth tiers and stack-size presets of the COR24 debugger.
use vstd::prelude::*;

verus! {

/// Forth tier: which assembled kernel the debugger loads.
#[derive(Clone, Copy, PartialEq, Eq, Structural, Debug)]
pub enum ForthTier {
    /// Phase 1: bootstrap, UART I/O, stack tests.
    Bootstrap,
    /// Phase 4: full interpreter with D2_ON!/D2_OFF!, DOT, NUMBER, QUIT loop.
    Interpreter,
}

impl ForthTier {
    /// Name shown in the tier selector.
    pub fn label(self) -> (s: &'static str)
        ensures
            s@ == (match self {
                ForthTier::Bootstrap => "Bootstrap"@,
                ForthTier::Interpreter => "Interpreter"@,
            }),
    {
        match self {
            ForthTier::Bootstrap => "Bootstrap",
            ForthTier::Interpreter => "Interpreter",
        }
    }

    /// One-line description shown beside the tier selector.
    pub fn description(self) -> (s: &'static str)
        ensures
            s@ == (match self {
                ForthTier::Bootstrap => "Phase 1: UART I/O, data/return stack tests, EMIT, KEY"@,
                ForthTier::Interpreter => "Phase 4: Compile mode, *, colon defs, .fth files"@,
            }),
    {
        match self {
            ForthTier::Bootstrap => "Phase 1: UART I/O, data/return stack tests, EMIT, KEY",
            ForthTier::Interpreter => "Phase 4: Compile mode, *, colon defs, .fth files",
        }
    }

    /// The assembly source of this tier, chosen from the two kernel
    /// sources (bootstrap first, interpreter second).
    pub fn assembly<'a>(self, bootstrap_src: &'a str, interpreter_src: &'a str) -> (s: &'a str)
        ensures
            s == (match self {
                ForthTier::Bootstrap => bootstrap_src,
                ForthTier::Interpreter => interpreter_src,
            }),
    {
        match self {
            ForthTier::Bootstrap => bootstrap_src,
            ForthTier::Interpreter => interpreter_src,
        }
    }

    /// Every tier, in selector order.
    pub fn all() -> (tiers: [ForthTier; 2])
        ensures
            tiers@ == seq![ForthTier::Bootstrap, ForthTier::Interpreter],
    {
        [ForthTier::Bootstrap, ForthTier::Interpreter]
    }
}

/// Stack size of the COR24 EBR region.
#[derive(Clone, Copy, PartialEq, Eq, Structural, Debug)]
pub enum StackSize {
    /// 3 KB: the MachXO hardware default.
    ThreeKb,
    /// 8 KB: the full EBR window, for deep recursion.
    EightKb,
}

/// Initial data-stack pointer of a stack size.
pub open spec fn spec_initial_sp(s: StackSize) -> u32 {
    match s {
        StackSize::ThreeKb => 0xFEEC00,
        StackSize::EightKb => 0xFF0000,
    }
}

impl StackSize {
    /// Initial data-stack pointer (the stack grows downward from here).
    pub fn initial_sp(self) -> (sp: u32)
        ensures
            sp == spec_initial_sp(self),
    {
        match self {
            StackSize::ThreeKb => 0xFEEC00,
            StackSize::EightKb => 0xFF0000,
        }
    }

    /// Name shown in the stack-size selector.
    pub fn label(self) -> (s: &'static str)
        ensures
            s@ == (match self {
                StackSize::ThreeKb => "3 KB"@,
                StackSize::EightKb => "8 KB"@,
            }),
    {
        match self {
            StackSize::ThreeKb => "3 KB",
            StackSize::EightKb => "8 KB",
        }
    }

    /// Size of the stack region in bytes.
    pub fn bytes(self) -> (n: u32)
        ensures
            n == (match self {
                StackSize::ThreeKb => 3072u32,
                StackSize::EightKb => 8192u32,
            }),
    {
        match self {
            StackSize::ThreeKb => 3072,
            StackSize::EightKb => 8192,
        }
    }

    /// Every stack size, in selector order.
    pub fn all() -> (sizes: [StackSize; 2])
        ensures
            sizes@ == seq![StackSize::ThreeKb, StackSize::EightKb],
    {
        [StackSize::ThreeKb, StackSize::EightKb]
    }
}

} // verus!
