use symbolica_community::representations::{
    initialize, Bispinor, ColorAdjoint, ColorAntiFundamental, ColorAntiSextet, ColorFundamental,
    ColorSextet, Lorentz, LorentzUp, RepLibraryError, RepTable, SpinAntiFundamental,
    SpinFundamental,
};
use symbolica_community::reps::RepOrientation;

#[test]
fn test_spin_fundamental() {
    let spin_fundamental = SpinFundamental::default();

    assert_eq!(spin_fundamental.dual(), SpinAntiFundamental {});
}

#[test]
fn dual_pairs_of_the_library() {
    assert_eq!(Lorentz {}.dual(), LorentzUp {});
    assert_eq!(LorentzUp {}.dual(), Lorentz {});
    assert_eq!(ColorFundamental {}.dual(), ColorAntiFundamental {});
    assert_eq!(ColorAntiFundamental {}.dual(), ColorFundamental {});
    assert_eq!(ColorSextet {}.dual(), ColorAntiSextet {});
    assert_eq!(ColorAntiSextet {}.dual(), ColorSextet {});
    assert_eq!(Bispinor {}.dual(), Bispinor {});
    assert_eq!(ColorAdjoint {}.dual(), ColorAdjoint {});
    assert_eq!(SpinAntiFundamental {}.dual(), SpinFundamental {});
}

#[test]
fn names_of_the_representations() {
    assert_eq!(SpinFundamental::name(), "spf");
    assert_eq!(Lorentz::name(), "lor");
    assert_eq!(ColorFundamental::name(), "cof");
    assert_eq!(ColorSextet::name(), "cos");
    assert_eq!(Bispinor::name(), "bis");
    assert_eq!(ColorAdjoint::name(), "coad");
}

#[test]
fn library_reps_carry_their_orientation() {
    assert_eq!(SpinFundamental {}.library_rep().orientation, RepOrientation::Up);
    assert_eq!(SpinAntiFundamental {}.library_rep().orientation, RepOrientation::Down);
    assert_eq!(Bispinor {}.library_rep().orientation, RepOrientation::SelfDual);
    let up = Lorentz {}.library_rep();
    let down = up.dual();
    assert_eq!(down.orientation, RepOrientation::Down);
    assert!(up.matches(&down));
    assert!(!up.matches(&up));
    assert!(Bispinor {}.library_rep().is_self_dual());
}

#[test]
fn initialize_registers_the_library() {
    let t = initialize();
    assert_eq!(t.entries().len(), 8);
    let names: Vec<&str> = t.entries().iter().map(|r| r.name.as_str()).collect();
    assert_eq!(names, vec!["euc", "mink", "lor", "spf", "bis", "coad", "cof", "cos"]);
    assert_eq!(t.lookup(&"cof".to_string()).unwrap().orientation, RepOrientation::Up);
    assert_eq!(t.lookup(&"bis".to_string()).unwrap().orientation, RepOrientation::SelfDual);
    assert_eq!(t.lookup(&"mink".to_string()).unwrap().orientation, RepOrientation::InlineMetric);
    assert!(t.lookup(&"nothing".to_string()).is_none());
}

#[test]
fn register_refuses_a_different_duality() {
    let mut t = initialize();
    match t.register("bis", false) {
        Err(e) => assert_eq!(e, RepLibraryError::AlreadyExistsDifferentType),
        Ok(_) => panic!("a self-dual representation registered as dualizable"),
    }
    match t.register("cof", true) {
        Err(e) => assert_eq!(e, RepLibraryError::AlreadyExistsDifferentType),
        Ok(_) => panic!("a dualizable representation registered as self-dual"),
    }
    assert_eq!(t.entries().len(), 8);
}

#[test]
fn register_twice_is_register_once() {
    let mut t = RepTable::empty();
    let first = t.register("flavor", false).unwrap();
    assert_eq!(first.name, "flavor");
    assert_eq!(first.orientation, RepOrientation::Up);
    assert_eq!(t.entries().len(), 1);
    let second = t.register("flavor", false).unwrap();
    assert_eq!(second.name, "flavor");
    assert_eq!(second.orientation, RepOrientation::Up);
    assert_eq!(t.entries().len(), 1);
    let sd = t.register("spin", true).unwrap();
    assert_eq!(sd.orientation, RepOrientation::SelfDual);
    assert_eq!(t.entries().len(), 2);
}
