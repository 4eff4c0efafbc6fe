//! The training curriculum: difficulty tiers, the controller that moves between them, and the
//! conjectures set at each tier.
use vstd::prelude::*;
use crate::fol::{Term, Equality, SEquality, STerm, func2, func1};
use crate::axioms::{sc, sf1, sf2};

verus! {

/// A tier of mathematical difficulty, from the easiest to the hardest.
#[derive(Debug, Clone, Copy, PartialEq, Eq, PartialOrd, Ord, Structural)]
pub enum DifficultyLevel {
    Level1Identities,
    Level2CommutativeAssociative,
    Level3Distributivity,
    Level4GroupInverses,
    Level5ComplexPolynomials,
}

/// The number of a tier, 1 to 5.
pub open spec fn level_number(l: DifficultyLevel) -> int {
    match l {
        DifficultyLevel::Level1Identities => 1,
        DifficultyLevel::Level2CommutativeAssociative => 2,
        DifficultyLevel::Level3Distributivity => 3,
        DifficultyLevel::Level4GroupInverses => 4,
        DifficultyLevel::Level5ComplexPolynomials => 5,
    }
}

pub open spec fn level_name(l: DifficultyLevel) -> Seq<char> {
    match l {
        DifficultyLevel::Level1Identities => "Level 1: Monoid Identities"@,
        DifficultyLevel::Level2CommutativeAssociative => "Level 2: Commutativity & Associativity"@,
        DifficultyLevel::Level3Distributivity => "Level 3: Multi-term Distributivity"@,
        DifficultyLevel::Level4GroupInverses => "Level 4: Inverses & Cancellations"@,
        DifficultyLevel::Level5ComplexPolynomials => "Level 5: Compound Ring Polynomials"@,
    }
}

impl DifficultyLevel {
    /// The human-readable name of the tier.
    pub fn name(&self) -> (r: &'static str)
        ensures r@ == level_name(*self),
    {
        match self {
            DifficultyLevel::Level1Identities => "Level 1: Monoid Identities",
            DifficultyLevel::Level2CommutativeAssociative => "Level 2: Commutativity & Associativity",
            DifficultyLevel::Level3Distributivity => "Level 3: Multi-term Distributivity",
            DifficultyLevel::Level4GroupInverses => "Level 4: Inverses & Cancellations",
            DifficultyLevel::Level5ComplexPolynomials => "Level 5: Compound Ring Polynomials",
        }
    }

    /// The number of the tier, 1 to 5.
    pub fn number(&self) -> (r: u8)
        ensures r as int == level_number(*self),
    {
        match self {
            DifficultyLevel::Level1Identities => 1,
            DifficultyLevel::Level2CommutativeAssociative => 2,
            DifficultyLevel::Level3Distributivity => 3,
            DifficultyLevel::Level4GroupInverses => 4,
            DifficultyLevel::Level5ComplexPolynomials => 5,
        }
    }
}

/// The tier above, or the hardest tier itself.
pub open spec fn next_level(l: DifficultyLevel) -> DifficultyLevel {
    match l {
        DifficultyLevel::Level1Identities => DifficultyLevel::Level2CommutativeAssociative,
        DifficultyLevel::Level2CommutativeAssociative => DifficultyLevel::Level3Distributivity,
        DifficultyLevel::Level3Distributivity => DifficultyLevel::Level4GroupInverses,
        DifficultyLevel::Level4GroupInverses => DifficultyLevel::Level5ComplexPolynomials,
        DifficultyLevel::Level5ComplexPolynomials => DifficultyLevel::Level5ComplexPolynomials,
    }
}

/// The tier below, or the easiest tier itself.
pub open spec fn prev_level(l: DifficultyLevel) -> DifficultyLevel {
    match l {
        DifficultyLevel::Level5ComplexPolynomials => DifficultyLevel::Level4GroupInverses,
        DifficultyLevel::Level4GroupInverses => DifficultyLevel::Level3Distributivity,
        DifficultyLevel::Level3Distributivity => DifficultyLevel::Level2CommutativeAssociative,
        DifficultyLevel::Level2CommutativeAssociative => DifficultyLevel::Level1Identities,
        DifficultyLevel::Level1Identities => DifficultyLevel::Level1Identities,
    }
}

fn next_level_exec(l: DifficultyLevel) -> (r: DifficultyLevel)
    ensures r == next_level(l),
{
    match l {
        DifficultyLevel::Level1Identities => DifficultyLevel::Level2CommutativeAssociative,
        DifficultyLevel::Level2CommutativeAssociative => DifficultyLevel::Level3Distributivity,
        DifficultyLevel::Level3Distributivity => DifficultyLevel::Level4GroupInverses,
        DifficultyLevel::Level4GroupInverses => DifficultyLevel::Level5ComplexPolynomials,
        DifficultyLevel::Level5ComplexPolynomials => DifficultyLevel::Level5ComplexPolynomials,
    }
}

fn prev_level_exec(l: DifficultyLevel) -> (r: DifficultyLevel)
    ensures r == prev_level(l),
{
    match l {
        DifficultyLevel::Level5ComplexPolynomials => DifficultyLevel::Level4GroupInverses,
        DifficultyLevel::Level4GroupInverses => DifficultyLevel::Level3Distributivity,
        DifficultyLevel::Level3Distributivity => DifficultyLevel::Level2CommutativeAssociative,
        DifficultyLevel::Level2CommutativeAssociative => DifficultyLevel::Level1Identities,
        DifficultyLevel::Level1Identities => DifficultyLevel::Level1Identities,
    }
}

/// The controller that raises or lowers the difficulty from the recent solve rate. The
/// thresholds are percentages of solved attempts.
#[derive(Debug, Clone, Copy, PartialEq, Eq, Structural)]
pub struct CurriculumController {
    pub current_level: DifficultyLevel,
    pub consecutive_successes: usize,
    pub window_attempts: usize,
    pub window_solved: usize,
    pub graduation_threshold: u64,
    pub demotion_threshold: u64,
}

/// The controller at the start: the easiest tier, an empty window, promotion at a solve rate of
/// 80% and demotion below 30%.
pub open spec fn initial_controller() -> CurriculumController {
    CurriculumController {
        current_level: DifficultyLevel::Level1Identities,
        consecutive_successes: 0,
        window_attempts: 0,
        window_solved: 0,
        graduation_threshold: 80,
        demotion_threshold: 30,
    }
}

/// How many attempts make a window that is judged.
pub open spec fn window_size() -> int {
    8
}

/// The controller after one attempt, and the tier it moved to, if it moved: once the window
/// holds eight attempts it is judged and emptied; a solve rate at or above the graduation
/// threshold moves one tier up, one below the demotion threshold one tier down.
pub open spec fn after_attempt(c: CurriculumController, solved: bool) -> (CurriculumController, Option<DifficultyLevel>) {
    let attempts = c.window_attempts + 1;
    let won = if solved { c.window_solved + 1 } else { c.window_solved as int };
    let streak = if solved { c.consecutive_successes + 1 } else { 0 };
    let counted = CurriculumController {
        consecutive_successes: streak as usize,
        window_attempts: attempts as usize,
        window_solved: won as usize,
        ..c
    };
    if attempts < window_size() {
        (counted, None)
    } else {
        let judged = CurriculumController { window_attempts: 0, window_solved: 0, ..counted };
        if won * 100 >= c.graduation_threshold * attempts {
            let l = next_level(c.current_level);
            if l != c.current_level {
                (CurriculumController { current_level: l, ..judged }, Some(l))
            } else {
                (judged, None)
            }
        } else if won * 100 < c.demotion_threshold * attempts {
            let l = prev_level(c.current_level);
            if l != c.current_level {
                (CurriculumController { current_level: l, ..judged }, Some(l))
            } else {
                (judged, None)
            }
        } else {
            (judged, None)
        }
    }
}

impl Default for CurriculumController {
    fn default() -> (r: Self)
        ensures r == initial_controller(),
    {
        CurriculumController {
            current_level: DifficultyLevel::Level1Identities,
            consecutive_successes: 0,
            window_attempts: 0,
            window_solved: 0,
            graduation_threshold: 80,
            demotion_threshold: 30,
        }
    }
}

/// The conjecture set at a tier for a seed.
pub open spec fn tier_conjecture(l: DifficultyLevel, seed: int) -> SEquality {
    let x = sc("x"@);
    let y = sc("y"@);
    let z = sc("z"@);
    let zero = sc("0"@);
    let one = sc("1"@);
    let (lhs, rhs) = match l {
        DifficultyLevel::Level1Identities => if seed % 3 == 0 {
            (sf2("+"@, x, zero), sf2("+"@, zero, x))
        } else if seed % 3 == 1 {
            (sf2("*"@, x, one), sf2("*"@, one, x))
        } else {
            (sf2("+"@, y, zero), y)
        },
        DifficultyLevel::Level2CommutativeAssociative => if seed % 3 == 0 {
            (sf2("+"@, sf2("+"@, x, y), zero), sf2("+"@, y, x))
        } else if seed % 3 == 1 {
            (sf2("+"@, x, sf2("+"@, y, z)), sf2("+"@, sf2("+"@, z, y), x))
        } else {
            (sf2("*"@, sf2("*"@, x, y), one), sf2("*"@, y, x))
        },
        DifficultyLevel::Level3Distributivity => if seed % 3 == 0 {
            (sf2("+"@, sf2("+"@, x, zero), sf2("*"@, y, one)), sf2("+"@, sf2("*"@, one, y), sf2("+"@, zero, x)))
        } else if seed % 3 == 1 {
            (sf2("*"@, x, sf2("+"@, y, zero)), sf2("*"@, y, x))
        } else {
            (sf2("*"@, one, sf2("+"@, x, y)), sf2("+"@, y, x))
        },
        DifficultyLevel::Level4GroupInverses => if seed % 2 == 0 {
            (sf2("+"@, sf2("+"@, x, sf1("-"@, x)), y), sf2("+"@, zero, y))
        } else {
            (sf2("+"@, x, sf2("+"@, y, sf1("-"@, y))), sf2("+"@, x, zero))
        },
        DifficultyLevel::Level5ComplexPolynomials => (
            sf2("+"@, sf2("*"@, sf2("+"@, x, zero), one), sf2("*"@, sf2("+"@, y, zero), one)),
            sf2("+"@, y, x),
        ),
    };
    SEquality { lhs, rhs }
}

fn cst(name: &str) -> (r: Term)
    ensures r@ == STerm::Const(name@),
{
    Term::constant(name)
}

impl CurriculumController {
    /// A controller at the start of the curriculum.
    pub fn new() -> (r: Self)
        ensures r == initial_controller(),
    {
        Self::default()
    }

    /// Records whether an attempt was solved; every eighth attempt judges the window and may
    /// move one tier up or down, returning the new tier when it does.
    pub fn record_attempt(&mut self, is_solved: bool) -> (r: Option<DifficultyLevel>)
        requires
            old(self).window_attempts < usize::MAX,
            is_solved ==> old(self).consecutive_successes < usize::MAX && old(self).window_solved < usize::MAX,
        ensures
            (*final(self), r) == after_attempt(*old(self), is_solved),
    {
        self.window_attempts += 1;
        if is_solved {
            self.window_solved += 1;
            self.consecutive_successes += 1;
        } else {
            self.consecutive_successes = 0;
        }
        if self.window_attempts >= 8 {
            let won = self.window_solved as u128 * 100;
            let attempts = self.window_attempts as u128;
            proof {
                let t = self.graduation_threshold as u128;
                let d = self.demotion_threshold as u128;
                assert(t * attempts <= 0xffff_ffff_ffff_ffffu128 * 0xffff_ffff_ffff_ffffu128) by (nonlinear_arith)
                    requires t <= 0xffff_ffff_ffff_ffffu128, attempts <= 0xffff_ffff_ffff_ffffu128;
                assert(d * attempts <= 0xffff_ffff_ffff_ffffu128 * 0xffff_ffff_ffff_ffffu128) by (nonlinear_arith)
                    requires d <= 0xffff_ffff_ffff_ffffu128, attempts <= 0xffff_ffff_ffff_ffffu128;
            }
            let promote = won >= self.graduation_threshold as u128 * attempts;
            let demote = won < self.demotion_threshold as u128 * attempts;
            self.window_attempts = 0;
            self.window_solved = 0;
            if promote {
                let next = next_level_exec(self.current_level);
                if next != self.current_level {
                    self.current_level = next;
                    return Some(self.current_level);
                }
            } else if demote {
                let prev = prev_level_exec(self.current_level);
                if prev != self.current_level {
                    self.current_level = prev;
                    return Some(self.current_level);
                }
            }
        }
        None
    }

    /// The conjecture set at the current tier for `seed`.
    pub fn generate_conjecture(&self, seed: usize) -> (r: Equality)
        ensures r@ == tier_conjecture(self.current_level, seed as int),
    {
        match self.current_level {
            DifficultyLevel::Level1Identities => {
                if seed % 3 == 0 {
                    Equality::new(func2("+", cst("x"), cst("0")), func2("+", cst("0"), cst("x")))
                } else if seed % 3 == 1 {
                    Equality::new(func2("*", cst("x"), cst("1")), func2("*", cst("1"), cst("x")))
                } else {
                    Equality::new(func2("+", cst("y"), cst("0")), cst("y"))
                }
            },
            DifficultyLevel::Level2CommutativeAssociative => {
                if seed % 3 == 0 {
                    Equality::new(func2("+", func2("+", cst("x"), cst("y")), cst("0")), func2("+", cst("y"), cst("x")))
                } else if seed % 3 == 1 {
                    Equality::new(func2("+", cst("x"), func2("+", cst("y"), cst("z"))), func2("+", func2("+", cst("z"), cst("y")), cst("x")))
                } else {
                    Equality::new(func2("*", func2("*", cst("x"), cst("y")), cst("1")), func2("*", cst("y"), cst("x")))
                }
            },
            DifficultyLevel::Level3Distributivity => {
                if seed % 3 == 0 {
                    Equality::new(
                        func2("+", func2("+", cst("x"), cst("0")), func2("*", cst("y"), cst("1"))),
                        func2("+", func2("*", cst("1"), cst("y")), func2("+", cst("0"), cst("x"))),
                    )
                } else if seed % 3 == 1 {
                    Equality::new(func2("*", cst("x"), func2("+", cst("y"), cst("0"))), func2("*", cst("y"), cst("x")))
                } else {
                    Equality::new(func2("*", cst("1"), func2("+", cst("x"), cst("y"))), func2("+", cst("y"), cst("x")))
                }
            },
            DifficultyLevel::Level4GroupInverses => {
                if seed % 2 == 0 {
                    Equality::new(func2("+", func2("+", cst("x"), func1("-", cst("x"))), cst("y")), func2("+", cst("0"), cst("y")))
                } else {
                    Equality::new(func2("+", cst("x"), func2("+", cst("y"), func1("-", cst("y")))), func2("+", cst("x"), cst("0")))
                }
            },
            DifficultyLevel::Level5ComplexPolynomials => {
                Equality::new(
                    func2("+", func2("*", func2("+", cst("x"), cst("0")), cst("1")), func2("*", func2("+", cst("y"), cst("0")), cst("1"))),
                    func2("+", cst("y"), cst("x")),
                )
            },
        }
    }
}

} // verus!
